//! Canonical identifiers: raw field names and raw enum values are case
//! converted and then pushed through a disambiguation ladder that handles the
//! empty result, a leading digit, and a result that is not a legal identifier.

use vstd::prelude::*;
use vstd::string::*;

verus! {

/// The snake_case form that `heck` gives to a text.
pub uninterp spec fn snake_of(s: Seq<char>) -> Seq<char>;

/// The UpperCamelCase form that `heck` gives to a text.
pub uninterp spec fn camel_of(s: Seq<char>) -> Seq<char>;

/// Whether a text is a legal (non-raw) Rust identifier.
pub uninterp spec fn ident_ok(s: Seq<char>) -> bool;

/// The outcome of parsing a text as a Rust type expression: nothing when it
/// parses, otherwise the parser's message.
pub uninterp spec fn type_expr_check(s: Seq<char>) -> Option<Seq<char>>;

/// Relies on heck::ToSnakeCase for str: the snake_case form of the text, a
/// function of the input characters alone.
#[verifier::external_body]
pub fn to_snake(s: &str) -> (r: String)
    ensures
        r@ == snake_of(s@),
{
    heck::ToSnakeCase::to_snake_case(s)
}

/// Relies on heck::ToUpperCamelCase for str: the UpperCamelCase form of the
/// text, a function of the input characters alone.
#[verifier::external_body]
pub fn to_camel(s: &str) -> (r: String)
    ensures
        r@ == camel_of(s@),
{
    heck::ToUpperCamelCase::to_upper_camel_case(s)
}

/// Relies on syn::parse_str::<syn::Ident>: succeeds exactly on the texts that
/// are legal non-raw Rust identifiers; the outcome is a function of the input
/// characters alone.
#[verifier::external_body]
pub fn rust_ident_ok(s: &str) -> (r: bool)
    ensures
        r == ident_ok(s@),
{
    syn::parse_str::<syn::Ident>(s).is_ok()
}

/// Relies on syn::parse_str::<syn::Type>: returns the parser's message when
/// the text is not a legal Rust type expression and nothing when it is; the
/// outcome is a function of the input characters alone.
#[verifier::external_body]
pub fn check_type_expr(s: &str) -> (r: Option<String>)
    ensures
        r is None <==> type_expr_check(s@) is None,
        r matches Some(m) ==> type_expr_check(s@) == Some(m@),
{
    match syn::parse_str::<syn::Type>(s) {
        Ok(_) => None,
        Err(e) => Some(e.to_string()),
    }
}

/// Whether a character is an ASCII decimal digit.
pub open spec fn is_ascii_digit_char(c: char) -> bool {
    '0' as u32 <= c as u32 && c as u32 <= '9' as u32
}

/// The disambiguation ladder, applied to an already case-converted text: an
/// empty text maps to a fixed fallback, a leading digit is prefixed away, and
/// a text that is no legal identifier gets a fixed prefix or suffix.
pub open spec fn ladder(
    x: Seq<char>,
    empty_fb: Seq<char>,
    digit_pre: Seq<char>,
    fix_is_prefix: bool,
    fix: Seq<char>,
) -> Seq<char> {
    if x.len() == 0 {
        empty_fb
    } else if is_ascii_digit_char(x[0]) {
        digit_pre + x
    } else if !ident_ok(x) {
        if fix_is_prefix {
            fix + x
        } else {
            x + fix
        }
    } else {
        x
    }
}

/// The canonical identifier of a field, in the member convention.
pub open spec fn field_ident_of(name: Seq<char>) -> Seq<char> {
    ladder(snake_of(name), "field"@, "field_"@, true, "r#"@)
}

/// The canonical identifier of an enumeration type, in the type convention.
pub open spec fn type_ident_of(name: Seq<char>) -> Seq<char> {
    ladder(camel_of(name), "Generated"@, "T"@, false, "Type"@)
}

/// The canonical identifier of an enumeration variant, in the type convention.
pub open spec fn variant_ident_of(value: Seq<char>) -> Seq<char> {
    ladder(camel_of(value), "Unknown"@, "V"@, false, "Value"@)
}

fn apply_ladder(x: String, empty_fb: &str, digit_pre: &str, fix_is_prefix: bool, fix: &str) -> (r:
    String)
    ensures
        r@ == ladder(x@, empty_fb@, digit_pre@, fix_is_prefix, fix@),
{
    let n = x.as_str().unicode_len();
    if n == 0 {
        empty_fb.to_owned()
    } else {
        let c = x.as_str().get_char(0);
        if '0' as u32 <= c as u32 && c as u32 <= '9' as u32 {
            let mut r = digit_pre.to_owned();
            r.append(x.as_str());
            r
        } else if !rust_ident_ok(x.as_str()) {
            if fix_is_prefix {
                let mut r = fix.to_owned();
                r.append(x.as_str());
                r
            } else {
                let mut r = x;
                r.append(fix);
                r
            }
        } else {
            x
        }
    }
}

/// The canonical identifier of a field.
pub fn field_ident(name: &str) -> (r: String)
    ensures
        r@ == field_ident_of(name@),
{
    apply_ladder(to_snake(name), "field", "field_", true, "r#")
}

/// The canonical identifier of an enumeration type.
pub fn type_ident(name: &str) -> (r: String)
    ensures
        r@ == type_ident_of(name@),
{
    apply_ladder(to_camel(name), "Generated", "T", false, "Type")
}

/// The canonical identifier of an enumeration variant.
pub fn variant_ident(value: &str) -> (r: String)
    ensures
        r@ == variant_ident_of(value@),
{
    apply_ladder(to_camel(value), "Unknown", "V", false, "Value")
}

} // verus!
