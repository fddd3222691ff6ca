//! Character-level string utilities: a lexicographic order on character
//! sequences, trimming, whitespace splitting, prefix tests and `key=value`
//! splitting, each with an executable form proved against its specification.

use vstd::prelude::*;
use vstd::string::*;

verus! {

/// True exactly on the characters that `char::is_whitespace` accepts
/// (the Unicode `White_Space` property).
pub uninterp spec fn unicode_ws(c: char) -> bool;

/// Relies on char::is_whitespace: true exactly on Unicode whitespace
/// characters; the ASCII whitespace characters are among them, and no ASCII
/// graphic character (`!` through `~`) is.
#[verifier::external_body]
pub fn is_ws(c: char) -> (r: bool)
    ensures
        r == unicode_ws(c),
        c == ' ' || c == '\t' || c == '\n' || c == '\r' ==> r,
        33 <= c as u32 && c as u32 <= 126 ==> !r,
{
    c.is_whitespace()
}

/// Relies on String::push: appends one character at the end.
#[verifier::external_body]
pub fn push_char(s: &mut String, c: char)
    ensures
        final(s)@ == old(s)@.push(c),
{
    s.push(c);
}

/// Strict lexicographic order on character sequences, by code point.
pub open spec fn lex_lt(a: Seq<char>, b: Seq<char>) -> bool
    decreases a.len(),
{
    if b.len() == 0 {
        false
    } else if a.len() == 0 {
        true
    } else if a[0] == b[0] {
        lex_lt(a.drop_first(), b.drop_first())
    } else {
        (a[0] as u32) < (b[0] as u32)
    }
}

pub proof fn lemma_lex_irrefl(a: Seq<char>)
    ensures
        !lex_lt(a, a),
    decreases a.len(),
{
    if a.len() > 0 {
        lemma_lex_irrefl(a.drop_first());
    }
}

pub proof fn lemma_lex_trichotomy(a: Seq<char>, b: Seq<char>)
    ensures
        lex_lt(a, b) || lex_lt(b, a) || a == b,
    decreases a.len(),
{
    if a.len() == 0 && b.len() == 0 {
        assert(a =~= b);
    } else if a.len() > 0 && b.len() > 0 && a[0] == b[0] {
        lemma_lex_trichotomy(a.drop_first(), b.drop_first());
        if a.drop_first() == b.drop_first() {
            assert(a.drop_first().len() == a.len() - 1);
            assert(b.drop_first().len() == b.len() - 1);
            assert(forall|i: int| 1 <= i < a.len() ==> a[i] == a.drop_first()[i - 1]);
            assert(forall|i: int| 1 <= i < b.len() ==> b[i] == b.drop_first()[i - 1]);
            assert(a =~= b);
        }
    } else if a.len() > 0 && b.len() > 0 {
        if a[0] as u32 == b[0] as u32 {
            vstd::utf8::char_u32_cast(a[0], a[0] as u32);
            vstd::utf8::char_u32_cast(b[0], b[0] as u32);
            assert(a[0] == b[0]);
        }
    }
}

pub proof fn lemma_lex_trans(a: Seq<char>, b: Seq<char>, c: Seq<char>)
    requires
        lex_lt(a, b),
        lex_lt(b, c),
    ensures
        lex_lt(a, c),
    decreases a.len(),
{
    if a.len() > 0 && b.len() > 0 && c.len() > 0 {
        if a[0] == b[0] && b[0] == c[0] {
            lemma_lex_trans(a.drop_first(), b.drop_first(), c.drop_first());
        }
    }
}

pub proof fn lemma_lex_asym(a: Seq<char>, b: Seq<char>)
    requires
        lex_lt(a, b),
    ensures
        !lex_lt(b, a),
        a != b,
{
    lemma_lex_irrefl(a);
    if lex_lt(b, a) {
        lemma_lex_trans(a, b, a);
    }
}

/// Whether `a` comes strictly before `b` in code-point order.
pub fn str_lt(a: &str, b: &str) -> (r: bool)
    ensures
        r == lex_lt(a@, b@),
{
    let alen = a.unicode_len();
    let blen = b.unicode_len();
    let mut i: usize = 0;
    proof {
        assert(a@.skip(0) =~= a@);
        assert(b@.skip(0) =~= b@);
    }
    loop
        invariant
            i <= alen,
            i <= blen,
            alen == a@.len(),
            blen == b@.len(),
            lex_lt(a@, b@) == lex_lt(a@.skip(i as int), b@.skip(i as int)),
        decreases alen - i,
    {
        if i == alen || i == blen {
            proof {
                if i == alen {
                    assert(a@.skip(i as int) =~= Seq::<char>::empty());
                }
                if i == blen {
                    assert(b@.skip(i as int) =~= Seq::<char>::empty());
                }
            }
            return i == alen && i < blen;
        }
        let ca = a.get_char(i);
        let cb = b.get_char(i);
        proof {
            assert(a@.skip(i as int)[0] == a@[i as int]);
            assert(b@.skip(i as int)[0] == b@[i as int]);
        }
        if ca == cb {
            proof {
                assert(a@.skip(i as int).drop_first() =~= a@.skip(i as int + 1));
                assert(b@.skip(i as int).drop_first() =~= b@.skip(i as int + 1));
            }
            i = i + 1;
        } else {
            return (ca as u32) < (cb as u32);
        }
    }
}

/// Whether `a` and `b` hold the same characters.
pub fn str_eq(a: &str, b: &str) -> (r: bool)
    ensures
        r == (a@ == b@),
{
    let alen = a.unicode_len();
    let blen = b.unicode_len();
    if alen != blen {
        return false;
    }
    let mut i: usize = 0;
    loop
        invariant
            i <= alen,
            alen == a@.len(),
            blen == b@.len(),
            alen == blen,
            forall|k: int| 0 <= k < i ==> a@[k] == b@[k],
        decreases alen - i,
    {
        if i == alen {
            proof {
                assert(a@ =~= b@);
            }
            return true;
        }
        if a.get_char(i) != b.get_char(i) {
            return false;
        }
        i = i + 1;
    }
}

/// The sequence with leading whitespace removed.
pub open spec fn trim_front(s: Seq<char>) -> Seq<char>
    decreases s.len(),
{
    if s.len() > 0 && unicode_ws(s[0]) {
        trim_front(s.drop_first())
    } else {
        s
    }
}

/// The sequence with trailing whitespace removed.
pub open spec fn trim_back(s: Seq<char>) -> Seq<char>
    decreases s.len(),
{
    if s.len() > 0 && unicode_ws(s[s.len() - 1]) {
        trim_back(s.drop_last())
    } else {
        s
    }
}

/// The sequence with whitespace removed on both ends.
pub open spec fn trim_seq(s: Seq<char>) -> Seq<char> {
    trim_back(trim_front(s))
}

pub fn trim_front_exec<'a>(s: &'a str) -> (r: &'a str)
    ensures
        r@ == trim_front(s@),
    decreases s@.len(),
{
    let n = s.unicode_len();
    if n > 0 && is_ws(s.get_char(0)) {
        let t = s.substring_char(1, n);
        proof {
            assert(t@ =~= s@.drop_first());
        }
        trim_front_exec(t)
    } else {
        s
    }
}

pub fn trim_back_exec<'a>(s: &'a str) -> (r: &'a str)
    ensures
        r@ == trim_back(s@),
    decreases s@.len(),
{
    let n = s.unicode_len();
    if n > 0 && is_ws(s.get_char(n - 1)) {
        let t = s.substring_char(0, n - 1);
        proof {
            assert(t@ =~= s@.drop_last());
        }
        trim_back_exec(t)
    } else {
        s
    }
}

/// The text with whitespace removed on both ends.
pub fn trim_str<'a>(s: &'a str) -> (r: &'a str)
    ensures
        r@ == trim_seq(s@),
{
    trim_back_exec(trim_front_exec(s))
}

/// Splitting on whitespace, carrying the token built so far.
pub open spec fn split_acc(s: Seq<char>, cur: Seq<char>) -> Seq<Seq<char>>
    decreases s.len(),
{
    if s.len() == 0 {
        if cur.len() > 0 {
            seq![cur]
        } else {
            Seq::empty()
        }
    } else if unicode_ws(s[0]) {
        if cur.len() > 0 {
            seq![cur] + split_acc(s.drop_first(), Seq::empty())
        } else {
            split_acc(s.drop_first(), Seq::empty())
        }
    } else {
        split_acc(s.drop_first(), cur.push(s[0]))
    }
}

/// The maximal whitespace-separated tokens of `s`, in order.
pub open spec fn split_ws(s: Seq<char>) -> Seq<Seq<char>> {
    split_acc(s, Seq::empty())
}

/// The views of a sequence of strings.
pub open spec fn views_of(ss: Seq<String>) -> Seq<Seq<char>> {
    ss.map_values(|s: String| s@)
}

fn split_acc_exec(s: &str, cur: String) -> (r: Vec<String>)
    ensures
        views_of(r@) == split_acc(s@, cur@),
    decreases s@.len(),
{
    let n = s.unicode_len();
    if n == 0 {
        if cur.as_str().is_empty() {
            let out: Vec<String> = Vec::new();
            proof {
                assert(views_of(out@) =~= split_acc(s@, cur@));
            }
            out
        } else {
            let mut out: Vec<String> = Vec::new();
            out.push(cur);
            proof {
                assert(views_of(out@) =~= split_acc(s@, cur@));
            }
            out
        }
    } else {
        let c = s.get_char(0);
        let tail = s.substring_char(1, n);
        proof {
            assert(tail@ =~= s@.drop_first());
        }
        if is_ws(c) {
            if cur.as_str().is_empty() {
                let r = split_acc_exec(tail, cur);
                proof {
                    assert(cur@ =~= Seq::<char>::empty());
                }
                r
            } else {
                let mut rest = split_acc_exec(tail, String::new());
                let mut out: Vec<String> = Vec::new();
                out.push(cur);
                out.append(&mut rest);
                proof {
                    assert(views_of(out@) =~= split_acc(s@, cur@));
                }
                out
            }
        } else {
            let mut cur2 = cur;
            push_char(&mut cur2, c);
            split_acc_exec(tail, cur2)
        }
    }
}

/// The maximal whitespace-separated tokens of `s`, in order.
pub fn split_ws_exec(s: &str) -> (r: Vec<String>)
    ensures
        views_of(r@) == split_ws(s@),
{
    let empty = String::new();
    proof {
        assert(empty@ =~= Seq::<char>::empty());
    }
    split_acc_exec(s, empty)
}

/// Whether `p` is a prefix of `s`.
pub open spec fn has_prefix(s: Seq<char>, p: Seq<char>) -> bool {
    s.len() >= p.len() && s.subrange(0, p.len() as int) == p
}

pub fn has_prefix_exec(s: &str, p: &str) -> (r: bool)
    ensures
        r == has_prefix(s@, p@),
{
    let n = s.unicode_len();
    let m = p.unicode_len();
    if n < m {
        return false;
    }
    let head = s.substring_char(0, m);
    str_eq(head, p)
}

/// Splitting at the first `=` sign: the part before it and the part after it.
pub open spec fn split_once_eq(t: Seq<char>) -> Option<(Seq<char>, Seq<char>)>
    decreases t.len(),
{
    if t.len() == 0 {
        None
    } else if t[0] == '=' {
        Some((Seq::empty(), t.drop_first()))
    } else {
        match split_once_eq(t.drop_first()) {
            None => None,
            Some((k, v)) => Some((seq![t[0]] + k, v)),
        }
    }
}

proof fn lemma_split_once_found(t: Seq<char>, j: int)
    requires
        0 <= j < t.len(),
        t[j] == '=',
        forall|k: int| 0 <= k < j ==> t[k] != '=',
    ensures
        split_once_eq(t) == Some((t.take(j), t.skip(j + 1))),
    decreases j,
{
    if j == 0 {
        assert(t.take(0) =~= Seq::<char>::empty());
        assert(t.drop_first() =~= t.skip(1));
    } else {
        let d = t.drop_first();
        assert(forall|k: int| 0 <= k < j - 1 ==> d[k] == t[k + 1] && d[k] != '=');
        lemma_split_once_found(d, j - 1);
        assert(seq![t[0]] + d.take(j - 1) =~= t.take(j));
        assert(d.skip(j) =~= t.skip(j + 1));
    }
}

proof fn lemma_split_once_none(t: Seq<char>)
    requires
        forall|k: int| 0 <= k < t.len() ==> t[k] != '=',
    ensures
        split_once_eq(t) is None,
    decreases t.len(),
{
    if t.len() > 0 {
        let d = t.drop_first();
        assert(forall|k: int| 0 <= k < d.len() ==> d[k] == t[k + 1] && d[k] != '=');
        lemma_split_once_none(d);
    }
}

/// The views of an optional key/value pair of strings.
pub open spec fn view_pair(r: Option<(String, String)>) -> Option<(Seq<char>, Seq<char>)> {
    match r {
        None => None,
        Some((k, v)) => Some((k@, v@)),
    }
}

/// Splits a token at its first `=` sign, if any.
pub fn split_once_eq_exec(t: &str) -> (r: Option<(String, String)>)
    ensures
        view_pair(r) == split_once_eq(t@),
{
    let n = t.unicode_len();
    let mut j: usize = 0;
    loop
        invariant
            j <= n,
            n == t@.len(),
            forall|k: int| 0 <= k < j ==> t@[k] != '=',
        decreases n - j,
    {
        if j == n {
            proof {
                lemma_split_once_none(t@);
            }
            return None;
        }
        if t.get_char(j) == '=' {
            proof {
                lemma_split_once_found(t@, j as int);
            }
            let key = t.substring_char(0, j).to_owned();
            let val = t.substring_char(j + 1, n).to_owned();
            return Some((key, val));
        }
        j = j + 1;
    }
}

/// The value with a single matching pair of surrounding quote characters
/// removed, if both are present.
pub open spec fn unquote(v: Seq<char>) -> Seq<char> {
    if v.len() >= 2 && v[0] == '"' && v[v.len() - 1] == '"' {
        v.subrange(1, v.len() - 1)
    } else {
        v
    }
}

pub fn unquote_exec<'a>(v: &'a str) -> (r: &'a str)
    ensures
        r@ == unquote(v@),
{
    let n = v.unicode_len();
    if n >= 2 && v.get_char(0) == '"' && v.get_char(n - 1) == '"' {
        v.substring_char(1, n - 1)
    } else {
        v
    }
}

} // verus!
