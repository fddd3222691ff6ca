//! End-to-end derivation tests over real markup.

use form_schema::diag::Diagnostic;
use form_schema::markup::derive_from_markup;
use form_schema::schema::{FieldType, Schema, SchemaField};

fn derive(html: &str) -> Result<Schema, Vec<Diagnostic>> {
    derive_from_markup(html, "form", "Generated")
}

fn single_field(html: &str) -> SchemaField {
    let schema = derive(html).expect("expected a schema");
    assert_eq!(schema.fields.len(), 1);
    schema.fields.into_iter().next().unwrap()
}

#[test]
fn scalar_text_required() {
    let f = single_field(r#"<form><input type="text" name="username" required></form>"#);
    assert_eq!(f.name, "username");
    assert_eq!(f.ident, "username");
    assert_eq!(f.ty, FieldType::Text);
    assert!(f.required);
    assert_eq!(f.codec_override, None);
}

#[test]
fn lone_checkbox_is_optional_boolean() {
    let f = single_field(r#"<form><input type="checkbox" name="accept"></form>"#);
    assert_eq!(f.name, "accept");
    assert_eq!(f.ty, FieldType::Boolean);
    assert!(!f.required);
}

#[test]
fn radio_group_is_enum() {
    let f = single_field(
        r#"<form>
            <input type="radio" name="plan" value="basic">
            <input type="radio" name="plan" value="pro">
        </form>"#,
    );
    assert_eq!(f.name, "plan");
    assert_eq!(f.ident, "plan");
    assert!(!f.required);
    let FieldType::Enumeration(e) = f.ty else {
        panic!("expected an enumeration")
    };
    assert_eq!(e.ident, "Plan");
    let pairs: Vec<(&str, &str)> =
        e.variants.iter().map(|v| (v.ident.as_str(), v.raw.as_str())).collect();
    assert_eq!(pairs, vec![("Basic", "basic"), ("Pro", "pro")]);
}

#[test]
fn select_is_enum_with_option_values() {
    let f = single_field(
        r#"<form><select name="country" required>
            <option value="us">US</option>
            <option value="ca">CA</option>
        </select></form>"#,
    );
    assert_eq!(f.name, "country");
    assert!(f.required);
    let FieldType::Enumeration(e) = f.ty else {
        panic!("expected an enumeration")
    };
    assert_eq!(e.ident, "Country");
    let pairs: Vec<(&str, &str)> =
        e.variants.iter().map(|v| (v.ident.as_str(), v.raw.as_str())).collect();
    assert_eq!(pairs, vec![("Ca", "ca"), ("Us", "us")]);
}

#[test]
fn type_directive_overrides_scalar_tag() {
    let f = single_field(
        r#"<form>
            <!-- form_struct: type="u32" -->
            <input type="number" name="age">
        </form>"#,
    );
    assert_eq!(f.name, "age");
    assert_eq!(f.ty, FieldType::Custom("u32".to_string()));
    assert!(!f.required);
}

#[test]
fn with_directive_sets_codec_override() {
    let f = single_field(
        r#"<form>
            <!-- form_struct: with="codec::b64" -->
            <input type="text" name="payload">
        </form>"#,
    );
    assert_eq!(f.codec_override, Some("codec::b64".to_string()));
    assert_eq!(f.ty, FieldType::Text);
}

#[test]
fn unknown_directive_keys_are_ignored() {
    let f = single_field(
        r#"<form>
            <!-- form_struct: future="yes" flag -->
            <input type="text" name="note">
        </form>"#,
    );
    assert_eq!(f.ty, FieldType::Text);
    assert_eq!(f.codec_override, None);
}

#[test]
fn variant_collision_fails_with_both_originals() {
    let r = derive(
        r#"<form>
            <input type="radio" name="kind" value="foo-bar">
            <input type="radio" name="kind" value="foo_bar">
        </form>"#,
    );
    let ds = r.expect_err("expected a collision diagnostic");
    assert_eq!(ds.len(), 1);
    match &ds[0] {
        Diagnostic::VariantCollision { field, variant, originals } => {
            assert_eq!(field, "kind");
            assert_eq!(variant, "FooBar");
            assert_eq!(originals, &vec!["foo-bar".to_string(), "foo_bar".to_string()]);
        }
        other => panic!("unexpected diagnostic: {:?}", other),
    }
}

#[test]
fn checkbox_group_required_reported_exactly_once() {
    let r = derive(
        r#"<form>
            <input type="checkbox" name="tags" multiple required value="a">
            <input type="checkbox" name="tags" multiple required value="b">
            <input type="checkbox" name="tags" multiple required value="c">
        </form>"#,
    );
    let ds = r.expect_err("expected the group violation");
    let hits = ds
        .iter()
        .filter(|d| matches!(d, Diagnostic::CheckboxGroupRequired { field } if field == "tags"))
        .count();
    assert_eq!(hits, 1);
    assert_eq!(ds.len(), 1);
}

#[test]
fn checkbox_group_required_forced_false() {
    // A multiple checkbox group with no required member derives clean, and
    // the group field is optional.
    let r = derive(
        r#"<form>
            <input type="checkbox" name="tags" multiple value="a">
            <input type="checkbox" name="tags" multiple value="b">
        </form>"#,
    );
    let schema = r.expect("expected a schema");
    assert!(!schema.fields[0].required);
}

#[test]
fn select_multiple_is_rejected() {
    let r = derive(
        r#"<form><select name="xs" multiple>
            <option value="a">A</option>
        </select></form>"#,
    );
    let ds = r.expect_err("expected the unsupported-cardinality diagnostic");
    assert_eq!(ds.len(), 1);
    assert!(matches!(&ds[0], Diagnostic::SelectMultiple { field } if field == "xs"));
}

#[test]
fn enum_without_values_is_rejected() {
    let r = derive(r#"<form><input type="radio" name="r"></form>"#);
    let ds = r.expect_err("expected the no-values diagnostic");
    assert_eq!(ds.len(), 1);
    assert!(matches!(&ds[0], Diagnostic::EnumNoValues { field } if field == "r"));
}

#[test]
fn malformed_type_directive_is_reported() {
    let r = derive(
        r#"<form>
            <!-- form_struct: type="Vec<" -->
            <input type="text" name="xs">
        </form>"#,
    );
    let ds = r.expect_err("expected the invalid-comment-spec diagnostic");
    assert_eq!(ds.len(), 1);
    match &ds[0] {
        Diagnostic::InvalidCommentSpec { field, detail } => {
            assert_eq!(field, "xs");
            assert!(!detail.is_empty());
        }
        other => panic!("unexpected diagnostic: {:?}", other),
    }
}

#[test]
fn selector_without_match_is_reported() {
    let r = derive_from_markup("<form></form>", "#missing", "Generated");
    let ds = r.expect_err("expected the selector diagnostic");
    assert_eq!(ds.len(), 1);
    assert!(matches!(&ds[0], Diagnostic::SelectorNoMatch { selector } if selector == "#missing"));
}

#[test]
fn derivation_is_deterministic() {
    let html = r#"<form>
        <input type="text" name="b" required>
        <input type="radio" name="a" value="x">
        <input type="radio" name="a" value="y">
        <select name="c"><option value="q">Q</option></select>
    </form>"#;
    let r1 = derive(html);
    let r2 = derive(html);
    assert_eq!(r1, r2);
}

#[test]
fn fields_are_ordered_by_name() {
    let schema = derive(
        r#"<form>
            <input type="text" name="zeta">
            <input type="text" name="alpha">
            <input type="text" name="mid">
        </form>"#,
    )
    .expect("expected a schema");
    let names: Vec<&str> = schema.fields.iter().map(|f| f.name.as_str()).collect();
    assert_eq!(names, vec!["alpha", "mid", "zeta"]);
}

#[test]
fn schema_names_match_control_names() {
    let schema = derive(
        r#"<form>
            <input type="text" name="a">
            <input type="radio" name="a" value="v">
            <input type="checkbox" name="b">
            <select name="c"><option value="x">X</option></select>
        </form>"#,
    )
    .expect("expected a schema");
    let names: Vec<&str> = schema.fields.iter().map(|f| f.name.as_str()).collect();
    assert_eq!(names, vec!["a", "b", "c"]);
}

#[test]
fn required_is_or_of_occurrences() {
    let schema = derive(
        r#"<form>
            <input type="text" name="x">
            <input type="text" name="x" required>
            <input type="text" name="y">
        </form>"#,
    )
    .expect("expected a schema");
    assert!(schema.fields[0].required);
    assert!(!schema.fields[1].required);
}

#[test]
fn later_scalar_replaces_enum_kind() {
    // The deliberate "last scalar wins" merge policy.
    let schema = derive(
        r#"<form>
            <input type="radio" name="k" value="v">
            <input type="text" name="k">
        </form>"#,
    )
    .expect("expected a schema");
    assert_eq!(schema.fields[0].ty, FieldType::Text);
}

#[test]
fn option_text_fallback_is_trimmed() {
    let f = single_field(
        r#"<form><select name="c">
            <option>  first  </option>
            <option value="v2">second</option>
        </select></form>"#,
    );
    let FieldType::Enumeration(e) = f.ty else {
        panic!("expected an enumeration")
    };
    let raws: Vec<&str> = e.variants.iter().map(|v| v.raw.as_str()).collect();
    assert_eq!(raws, vec!["first", "v2"]);
}

#[test]
fn directive_skips_blank_text_but_stops_at_elements() {
    // The blank text between the comment and the input is skipped; the span
    // between the comment and the second input ends the walk instead.
    let schema = derive(
        r#"<form>
            <!-- form_struct: type="u8" -->
            <input type="number" name="near">
            <span></span>
            <input type="number" name="far">
        </form>"#,
    )
    .expect("expected a schema");
    assert_eq!(schema.fields[1].name, "near");
    assert_eq!(schema.fields[1].ty, FieldType::Custom("u8".to_string()));
    assert_eq!(schema.fields[0].name, "far");
    assert_eq!(schema.fields[0].ty, FieldType::Integer);
}

#[test]
fn identifier_ladder_applies() {
    let schema = derive(
        r#"<form>
            <input type="text" name="2fa">
            <input type="radio" name="type" value="1st">
            <input type="radio" name="type" value="fn">
        </form>"#,
    )
    .expect("expected a schema");
    let by_name: Vec<(&str, &str)> =
        schema.fields.iter().map(|f| (f.name.as_str(), f.ident.as_str())).collect();
    assert_eq!(by_name[0], ("2fa", "field_2fa"));
    assert_eq!(by_name[1].0, "type");
    assert_eq!(by_name[1].1, "r#type");
    let FieldType::Enumeration(e) = &schema.fields[1].ty else {
        panic!("expected an enumeration")
    };
    assert_eq!(e.ident, "Type");
    let pairs: Vec<(&str, &str)> =
        e.variants.iter().map(|v| (v.ident.as_str(), v.raw.as_str())).collect();
    assert_eq!(pairs, vec![("Fn", "fn"), ("V1st", "1st")]);
}

#[test]
fn directive_can_set_both_type_and_codec() {
    let f = single_field(
        r#"<form>
            <!-- form_struct: type="u64" with="codec::hex" -->
            <input type="number" name="id">
        </form>"#,
    );
    assert_eq!(f.ty, FieldType::Custom("u64".to_string()));
    assert_eq!(f.codec_override, Some("codec::hex".to_string()));
}

#[test]
fn type_directive_leaves_enumerated_select_alone() {
    let f = single_field(
        r#"<form>
            <!-- form_struct: type="u32" with="codec::hex" -->
            <select name="country"><option value="us">US</option></select>
        </form>"#,
    );
    assert!(matches!(f.ty, FieldType::Enumeration(_)));
    assert_eq!(f.codec_override, Some("codec::hex".to_string()));
}

#[test]
fn field_ident_uses_snake_case() {
    let f = single_field(r#"<form><input type="text" name="userName"></form>"#);
    assert_eq!(f.name, "userName");
    assert_eq!(f.ident, "user_name");
}
