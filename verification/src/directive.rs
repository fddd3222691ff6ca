//! The directive mini-language: an optional comment immediately before a
//! field-defining element, of the form `form_struct: key="value" ...`, with
//! the recognized keys `type` (a type override, validated as a Rust type
//! expression) and `with` (a codec override). Unrecognized keys are ignored.

use vstd::prelude::*;
use vstd::string::*;

use crate::controls::{view_nodes, SiblingNode, SiblingNodeView};
use crate::idents::{check_type_expr, type_expr_check};

verus! {

/// The overrides a directive comment may carry.
pub struct Directive {
    pub type_override: Option<String>,
    pub codec_override: Option<String>,
}

/// The mathematical image of a `Directive`.
pub struct DirectiveView {
    pub type_override: Option<Seq<char>>,
    pub codec_override: Option<Seq<char>>,
}

impl View for Directive {
    type V = DirectiveView;

    open spec fn view(&self) -> DirectiveView {
        DirectiveView {
            type_override: crate::controls::view_opt(self.type_override),
            codec_override: crate::controls::view_opt(self.codec_override),
        }
    }
}

/// The outcome of directive lookup for one element: no directive, a parsed
/// directive, or a malformed directive with the parse failure's detail.
pub enum DirectiveResult {
    NoDirective,
    Found(Directive),
    Malformed(String),
}

/// The mathematical image of a `DirectiveResult`.
pub enum DirectiveResultView {
    NoDirective,
    Found(DirectiveView),
    Malformed(Seq<char>),
}

impl View for DirectiveResult {
    type V = DirectiveResultView;

    open spec fn view(&self) -> DirectiveResultView {
        match self {
            DirectiveResult::NoDirective => DirectiveResultView::NoDirective,
            DirectiveResult::Found(d) => DirectiveResultView::Found(d@),
            DirectiveResult::Malformed(m) => DirectiveResultView::Malformed(m@),
        }
    }
}

/// One `key=value` token applied to the directive built so far; a malformed
/// `type` expression aborts the whole directive with the parser's message.
pub open spec fn dir_step(d: DirectiveView, tok: Seq<char>) -> Result<DirectiveView, Seq<char>> {
    match crate::strs::split_once_eq(tok) {
        None => Ok(d),
        Some((key, v0)) => {
            let v = crate::strs::unquote(v0);
            if key == "type"@ {
                match type_expr_check(v) {
                    None => Ok(
                        DirectiveView { type_override: Some(v), codec_override: d.codec_override },
                    ),
                    Some(msg) => Err(msg),
                }
            } else if key == "with"@ && v.len() > 0 {
                Ok(DirectiveView { type_override: d.type_override, codec_override: Some(v) })
            } else {
                Ok(d)
            }
        },
    }
}

/// The first `n` tokens folded over an empty directive.
pub open spec fn dir_fold(toks: Seq<Seq<char>>, n: int) -> Result<DirectiveView, Seq<char>>
    decreases n,
{
    if n <= 0 {
        Ok(DirectiveView { type_override: None, codec_override: None })
    } else {
        match dir_fold(toks, n - 1) {
            Err(e) => Err(e),
            Ok(d) => dir_step(d, toks[n - 1]),
        }
    }
}

proof fn lemma_dir_fold_err(toks: Seq<Seq<char>>, n: int, m: int)
    requires
        0 <= n <= m,
        dir_fold(toks, n) is Err,
    ensures
        dir_fold(toks, m) == dir_fold(toks, n),
    decreases m - n,
{
    if m > n {
        lemma_dir_fold_err(toks, n, m - 1);
    }
}

/// What parsing the trimmed text of a candidate comment yields: no directive
/// when the marker prefix is missing, otherwise the fold over its tokens.
pub open spec fn parse_directive_spec(comment: Seq<char>) -> DirectiveResultView {
    let t = crate::strs::trim_seq(comment);
    if !crate::strs::has_prefix(t, "form_struct:"@) {
        DirectiveResultView::NoDirective
    } else {
        let rest = t.skip("form_struct:"@.len() as int);
        let toks = crate::strs::split_ws(rest);
        match dir_fold(toks, toks.len() as int) {
            Ok(d) => DirectiveResultView::Found(d),
            Err(e) => DirectiveResultView::Malformed(e),
        }
    }
}

/// Parses the text of a candidate comment node.
pub fn parse_directive(comment: &str) -> (r: DirectiveResult)
    ensures
        r@ == parse_directive_spec(comment@),
{
    let t = crate::strs::trim_str(comment);
    let marker = "form_struct:";
    if !crate::strs::has_prefix_exec(t, marker) {
        return DirectiveResult::NoDirective;
    }
    let n = t.unicode_len();
    let m = marker.unicode_len();
    let rest = t.substring_char(m, n);
    proof {
        assert(rest@ =~= crate::strs::trim_seq(comment@).skip(marker@.len() as int));
    }
    let toks = crate::strs::split_ws_exec(rest);
    let ghost tokviews = crate::strs::views_of(toks@);
    let mut d = Directive { type_override: None, codec_override: None };
    let mut i: usize = 0;
    loop
        invariant
            i <= toks.len(),
            crate::strs::has_prefix(crate::strs::trim_seq(comment@), "form_struct:"@),
            tokviews == crate::strs::views_of(toks@),
            tokviews == crate::strs::split_ws(
                crate::strs::trim_seq(comment@).skip("form_struct:"@.len() as int),
            ),
            dir_fold(tokviews, i as int) == Ok::<DirectiveView, Seq<char>>(d@),
        decreases toks.len() - i,
    {
        if i == toks.len() {
            return DirectiveResult::Found(d);
        }
        let ghost d_before = d@;
        let tok = &toks[i];
        proof {
            assert(tokviews[i as int] == tok@);
        }
        match crate::strs::split_once_eq_exec(tok.as_str()) {
            None => {},
            Some((key, val)) => {
                let v = crate::strs::unquote_exec(val.as_str());
                if crate::strs::str_eq(key.as_str(), "type") {
                    match check_type_expr(v) {
                        None => {
                            d.type_override = Some(v.to_owned());
                        },
                        Some(msg) => {
                            proof {
                                assert(dir_fold(tokviews, i + 1) == Err::<DirectiveView, Seq<char>>(
                                    msg@,
                                ));
                                lemma_dir_fold_err(tokviews, i + 1, tokviews.len() as int);
                            }
                            return DirectiveResult::Malformed(msg);
                        },
                    }
                } else if crate::strs::str_eq(key.as_str(), "with") && !v.is_empty() {
                    d.codec_override = Some(v.to_owned());
                }
            },
        }
        proof {
            assert(dir_step(d_before, tokviews[i as int]) == Ok::<DirectiveView, Seq<char>>(d@));
        }
        i = i + 1;
    }
}

/// Walks backward over the siblings before an element, skipping blank text
/// nodes; the first comment supplies the directive, and any other non-blank
/// node ends the walk with no directive.
pub open spec fn directive_lookup_spec(nodes: Seq<SiblingNodeView>) -> DirectiveResultView
    decreases nodes.len(),
{
    if nodes.len() == 0 {
        DirectiveResultView::NoDirective
    } else {
        match nodes[0] {
            SiblingNodeView::Comment(text) => parse_directive_spec(text),
            SiblingNodeView::Text(t) => if crate::strs::trim_seq(t).len() == 0 {
                directive_lookup_spec(nodes.drop_first())
            } else {
                DirectiveResultView::NoDirective
            },
            SiblingNodeView::Other => DirectiveResultView::NoDirective,
        }
    }
}

/// Finds and parses the directive for an element from the siblings before it,
/// nearest first.
pub fn directive_lookup(nodes: &Vec<SiblingNode>) -> (r: DirectiveResult)
    ensures
        r@ == directive_lookup_spec(view_nodes(nodes@)),
{
    let ghost full = view_nodes(nodes@);
    proof {
        assert(full.skip(0) =~= full);
    }
    let mut i: usize = 0;
    loop
        invariant
            i <= nodes.len(),
            full == view_nodes(nodes@),
            full.len() == nodes.len(),
            directive_lookup_spec(full) == directive_lookup_spec(full.skip(i as int)),
        decreases nodes.len() - i,
    {
        if i == nodes.len() {
            proof {
                assert(full.skip(i as int) =~= Seq::<SiblingNodeView>::empty());
            }
            return DirectiveResult::NoDirective;
        }
        proof {
            assert(full.skip(i as int)[0] == full[i as int]);
        }
        match &nodes[i] {
            SiblingNode::Comment(text) => {
                return parse_directive(text.as_str());
            },
            SiblingNode::Text(t) => {
                if crate::strs::trim_str(t.as_str()).is_empty() {
                    proof {
                        assert(full.skip(i as int).drop_first() =~= full.skip(i as int + 1));
                    }
                    i = i + 1;
                } else {
                    return DirectiveResult::NoDirective;
                }
            },
            SiblingNode::Other => {
                return DirectiveResult::NoDirective;
            },
        }
    }
}

} // verus!
