//! The tag-markup DSL: `<Tag attr="value"> ...children... </Tag>` or the
//! self-closing `<Tag attr="value" />`, one root element per document.
//!
//! The grammar is stated as spec functions over the document's characters
//! (`parse_document` and the functions it calls); `parse` is proved to
//! compute exactly that, with error offsets reported in bytes.
use vstd::prelude::*;
use vstd::utf8::encode_utf8;
use crate::text::{chars_of, same_chars, string_from_chars};

verus! {

// ---------------------------------------------------------------------
// Model
// ---------------------------------------------------------------------

/// An element as values: its tag, its attributes in source order and its
/// children in source order.
pub struct ElementView {
    pub tag: Seq<char>,
    pub attrs: Seq<(Seq<char>, Seq<char>)>,
    pub children: Seq<ElementView>,
}

/// A syntax error: its message and the character index where it was found.
pub struct SyntaxError {
    pub message: Seq<char>,
    pub at: int,
}

pub open spec fn fail<T>(message: Seq<char>, at: int) -> Result<T, SyntaxError> {
    Err(SyntaxError { message, at })
}

/// `u8::is_ascii_whitespace`: space, tab, line feed, form feed, carriage return.
pub open spec fn is_space(c: char) -> bool {
    c == ' ' || c == '\t' || c == '\n' || c == '\x0C' || c == '\r'
}

pub open spec fn is_ident_start(c: char) -> bool {
    ('a' <= c && c <= 'z') || ('A' <= c && c <= 'Z') || c == '_'
}

pub open spec fn is_ident_char(c: char) -> bool {
    is_ident_start(c) || ('0' <= c && c <= '9') || c == '-'
}

pub open spec fn expected_msg(c: char) -> Seq<char> {
    "expected '"@ + seq![c] + "'"@
}

pub open spec fn duplicate_msg(name: Seq<char>) -> Seq<char> {
    "duplicate attribute '"@ + name + "'"@
}

pub open spec fn mismatch_msg(tag: Seq<char>, found: Seq<char>) -> Seq<char> {
    "mismatched closing tag: expected '</"@ + tag + ">', found '</"@ + found + ">'"@
}

pub open spec fn unterminated_msg(tag: Seq<char>) -> Seq<char> {
    "unterminated element '<"@ + tag + ">'"@
}

// ---------------------------------------------------------------------
// Grammar
// ---------------------------------------------------------------------

/// The first index at or after `p` that is not whitespace.
pub open spec fn skip_ws(s: Seq<char>, p: int) -> int
    decreases s.len() - p,
{
    if 0 <= p < s.len() && is_space(s[p]) {
        skip_ws(s, p + 1)
    } else {
        p
    }
}

/// The first index at or after `p` that does not continue an identifier.
pub open spec fn ident_end(s: Seq<char>, p: int) -> int
    decreases s.len() - p,
{
    if 0 <= p < s.len() && is_ident_char(s[p]) {
        ident_end(s, p + 1)
    } else {
        p
    }
}

/// `[A-Za-z_][A-Za-z0-9_-]*` at `p`: the name and the index after it.
pub open spec fn parse_ident(s: Seq<char>, p: int) -> Result<(Seq<char>, int), SyntaxError> {
    if 0 <= p < s.len() && is_ident_start(s[p]) {
        let e = ident_end(s, p + 1);
        Ok((s.subrange(p, e), e))
    } else {
        fail("expected an identifier"@, p)
    }
}

/// The rest of a quoted value from `p`, `acc` holding what was read so far.
pub open spec fn quoted_body(s: Seq<char>, p: int, acc: Seq<char>) -> Result<(Seq<char>, int), SyntaxError>
    decreases s.len() - p,
{
    if p < 0 || p >= s.len() {
        fail("unterminated string literal"@, p)
    } else if s[p] == '"' {
        Ok((acc, p + 1))
    } else if s[p] == '\\' {
        if p + 1 < s.len() && (s[p + 1] == '"' || s[p + 1] == '\\') {
            quoted_body(s, p + 2, acc.push(s[p + 1]))
        } else {
            fail("invalid escape in string literal"@, p + 1)
        }
    } else {
        quoted_body(s, p + 1, acc.push(s[p]))
    }
}

/// A double-quoted value at `p`, with `\"` and `\\` as its only escapes.
pub open spec fn parse_quoted(s: Seq<char>, p: int) -> Result<(Seq<char>, int), SyntaxError> {
    if 0 <= p < s.len() && s[p] == '"' {
        quoted_body(s, p + 1, Seq::empty())
    } else {
        fail(expected_msg('"'), p)
    }
}

pub open spec fn has_name(attrs: Seq<(Seq<char>, Seq<char>)>, name: Seq<char>) -> bool {
    exists|i: int| 0 <= i < attrs.len() && #[trigger] attrs[i].0 == name
}

pub proof fn lemma_skip_ws(s: Seq<char>, p: int)
    ensures
        p <= skip_ws(s, p),
        p <= s.len() ==> skip_ws(s, p) <= s.len(),
        0 <= skip_ws(s, p) < s.len() ==> !is_space(s[skip_ws(s, p)]),
    decreases s.len() - p,
{
    if 0 <= p < s.len() && is_space(s[p]) {
        lemma_skip_ws(s, p + 1);
    }
}

pub proof fn lemma_ident_end(s: Seq<char>, p: int)
    ensures
        p <= ident_end(s, p),
        p <= s.len() ==> ident_end(s, p) <= s.len(),
    decreases s.len() - p,
{
    if 0 <= p < s.len() && is_ident_char(s[p]) {
        lemma_ident_end(s, p + 1);
    }
}

pub proof fn lemma_parse_ident(s: Seq<char>, p: int)
    ensures
        parse_ident(s, p) matches Ok((_, r)) ==> p < r <= s.len(),
{
    lemma_ident_end(s, p + 1);
}

pub proof fn lemma_quoted_body(s: Seq<char>, p: int, acc: Seq<char>)
    ensures
        quoted_body(s, p, acc) matches Ok((_, r)) ==> p < r <= s.len(),
    decreases s.len() - p,
{
    if 0 <= p < s.len() && s[p] != '"' {
        if s[p] == '\\' {
            if p + 1 < s.len() && (s[p + 1] == '"' || s[p + 1] == '\\') {
                lemma_quoted_body(s, p + 2, acc.push(s[p + 1]));
            }
        } else {
            lemma_quoted_body(s, p + 1, acc.push(s[p]));
        }
    }
}

pub proof fn lemma_parse_quoted(s: Seq<char>, p: int)
    ensures
        parse_quoted(s, p) matches Ok((_, r)) ==> p < r <= s.len(),
{
    lemma_quoted_body(s, p + 1, Seq::empty());
}

/// Attributes from `p` on, `acc` holding those already read: stops before
/// the first character after whitespace that cannot start a name.
pub open spec fn parse_attrs(s: Seq<char>, p: int, acc: Seq<(Seq<char>, Seq<char>)>) -> Result<
    (Seq<(Seq<char>, Seq<char>)>, int),
    SyntaxError,
>
    decreases s.len() - p,
{
    let q = skip_ws(s, p);
    if 0 <= q < s.len() && is_ident_start(s[q]) {
        match parse_ident(s, q) {
            Err(e) => Err(e),
            Ok((name, r)) => {
                if has_name(acc, name) {
                    fail(duplicate_msg(name), r)
                } else {
                    let r1 = skip_ws(s, r);
                    if !(0 <= r1 < s.len() && s[r1] == '=') {
                        fail(expected_msg('='), r1)
                    } else {
                        let r2 = skip_ws(s, r1 + 1);
                        match parse_quoted(s, r2) {
                            Err(e) => Err(e),
                            Ok((value, r3)) => {
                                proof {
                                    lemma_skip_ws(s, p);
                                    lemma_parse_ident(s, q);
                                    lemma_skip_ws(s, r);
                                    lemma_skip_ws(s, r1 + 1);
                                    lemma_parse_quoted(s, r2);
                                }
                                parse_attrs(s, r3, acc.push((name, value)))
                            },
                        }
                    }
                }
            },
        }
    } else {
        Ok((acc, q))
    }
}

pub proof fn lemma_parse_attrs(s: Seq<char>, p: int, acc: Seq<(Seq<char>, Seq<char>)>)
    requires
        0 <= p <= s.len(),
    ensures
        parse_attrs(s, p, acc) matches Ok((_, r)) ==> p <= r <= s.len(),
    decreases s.len() - p,
{
    lemma_skip_ws(s, p);
    let q = skip_ws(s, p);
    if 0 <= q < s.len() && is_ident_start(s[q]) {
        lemma_parse_ident(s, q);
        if let Ok((name, r)) = parse_ident(s, q) {
            if !has_name(acc, name) {
                lemma_skip_ws(s, r);
                let r1 = skip_ws(s, r);
                if 0 <= r1 < s.len() && s[r1] == '=' {
                    lemma_skip_ws(s, r1 + 1);
                    let r2 = skip_ws(s, r1 + 1);
                    lemma_parse_quoted(s, r2);
                    if let Ok((value, r3)) = parse_quoted(s, r2) {
                        lemma_parse_attrs(s, r3, acc.push((name, value)));
                    }
                }
            }
        }
    }
}

/// An element at `p`: the element and the index after it.
pub open spec fn parse_element(s: Seq<char>, p: int) -> Result<(ElementView, int), SyntaxError>
    decreases s.len() - p, 1int,
{
    if !(0 <= p < s.len() && s[p] == '<') {
        fail(expected_msg('<'), p)
    } else {
        match parse_ident(s, p + 1) {
            Err(e) => Err(e),
            Ok((tag, q1)) => match parse_attrs(s, q1, Seq::empty()) {
                Err(e) => Err(e),
                Ok((attrs, q2)) => {
                    let q3 = skip_ws(s, q2);
                    if 0 <= q3 < s.len() && s[q3] == '/' {
                        if q3 + 1 < s.len() && s[q3 + 1] == '>' {
                            Ok((ElementView { tag, attrs, children: Seq::empty() }, q3 + 2))
                        } else {
                            fail(expected_msg('>'), q3 + 1)
                        }
                    } else if 0 <= q3 < s.len() && s[q3] == '>' {
                        proof {
                            lemma_parse_ident(s, p + 1);
                            lemma_parse_attrs(s, q1, Seq::empty());
                            lemma_skip_ws(s, q2);
                        }
                        parse_children(s, q3 + 1, tag, attrs, Seq::empty())
                    } else {
                        fail(expected_msg('>'), q3)
                    }
                },
            },
        }
    }
}

/// The children of an open element from `p` on, up to and including its
/// closing tag; `kids` holds the children already read. A child always
/// ends after it starts, so the last test before reading the next child
/// never fails (`lemma_parse_element`): it makes the recursion's
/// termination evident.
pub open spec fn parse_children(
    s: Seq<char>,
    p: int,
    tag: Seq<char>,
    attrs: Seq<(Seq<char>, Seq<char>)>,
    kids: Seq<ElementView>,
) -> Result<(ElementView, int), SyntaxError>
    decreases s.len() - p, 2int,
{
    let q = skip_ws(s, p);
    if 0 <= q && q + 1 < s.len() && s[q] == '<' && s[q + 1] == '/' {
        match parse_ident(s, q + 2) {
            Err(e) => Err(e),
            Ok((closing, q2)) => {
                if closing != tag {
                    fail(mismatch_msg(tag, closing), q2)
                } else {
                    let q3 = skip_ws(s, q2);
                    if 0 <= q3 < s.len() && s[q3] == '>' {
                        Ok((ElementView { tag, attrs, children: kids }, q3 + 1))
                    } else {
                        fail(expected_msg('>'), q3)
                    }
                }
            },
        }
    } else if !(0 <= q < s.len()) {
        fail(unterminated_msg(tag), q)
    } else {
        proof {
            lemma_skip_ws(s, p);
        }
        match parse_element(s, q) {
            Err(e) => Err(e),
            Ok((child, r)) => {
                if p < r <= s.len() {
                    parse_children(s, r, tag, attrs, kids.push(child))
                } else {
                    fail(Seq::empty(), r)
                }
            },
        }
    }
}

/// A whole document: one root element, with only whitespace around it.
pub open spec fn parse_document(s: Seq<char>) -> Result<ElementView, SyntaxError> {
    match parse_element(s, skip_ws(s, 0)) {
        Err(e) => Err(e),
        Ok((root, r)) => {
            let q = skip_ws(s, r);
            if q == s.len() {
                Ok(root)
            } else {
                fail("expected end of document after root element"@, q)
            }
        },
    }
}


// ---------------------------------------------------------------------
// Whitespace around the root
// ---------------------------------------------------------------------

/// `s` sits in `t` from index `k` on.
pub open spec fn embedded(t: Seq<char>, s: Seq<char>, k: int) -> bool {
    &&& 0 <= k
    &&& k + s.len() <= t.len()
    &&& forall|i: int| 0 <= i < s.len() ==> t[k + i] == #[trigger] s[i]
}

proof fn lemma_ws_shift(t: Seq<char>, s: Seq<char>, k: int, p: int)
    requires
        embedded(t, s, k),
        0 <= p <= s.len(),
        skip_ws(s, p) < s.len(),
    ensures
        skip_ws(t, p + k) == skip_ws(s, p) + k,
    decreases s.len() - p,
{
    assert(t[p + k] == s[p]);
    if is_space(s[p]) {
        lemma_ws_shift(t, s, k, p + 1);
    }
}

proof fn lemma_ident_shift(t: Seq<char>, s: Seq<char>, k: int, p: int)
    requires
        embedded(t, s, k),
        0 <= p,
        ident_end(s, p) < s.len(),
    ensures
        ident_end(t, p + k) == ident_end(s, p) + k,
    decreases s.len() - p,
{
    assert(t[p + k] == s[p]);
    if is_ident_char(s[p]) {
        lemma_ident_shift(t, s, k, p + 1);
    }
}

proof fn lemma_parse_ident_shift(t: Seq<char>, s: Seq<char>, k: int, p: int)
    requires
        embedded(t, s, k),
        0 <= p,
        parse_ident(s, p) matches Ok((_, e)) && e < s.len(),
    ensures
        parse_ident(t, p + k) == match parse_ident(s, p) {
            Ok((n, e)) => Ok::<(Seq<char>, int), SyntaxError>((n, e + k)),
            Err(x) => Err(x),
        },
{
    let e = ident_end(s, p + 1);
    lemma_ident_end(s, p + 1);
    assert(t[p + k] == s[p]);
    lemma_ident_shift(t, s, k, p + 1);
    assert(t.subrange(p + k, e + k) =~= s.subrange(p, e));
}

proof fn lemma_quoted_shift(t: Seq<char>, s: Seq<char>, k: int, p: int, acc: Seq<char>)
    requires
        embedded(t, s, k),
        0 <= p,
        quoted_body(s, p, acc) is Ok,
    ensures
        quoted_body(t, p + k, acc) == match quoted_body(s, p, acc) {
            Ok((v, r)) => Ok::<(Seq<char>, int), SyntaxError>((v, r + k)),
            Err(x) => Err(x),
        },
    decreases s.len() - p,
{
    assert(t[p + k] == s[p]);
    if s[p] == '\\' {
        assert(t[p + 1 + k] == s[p + 1]);
        lemma_quoted_shift(t, s, k, p + 2, acc.push(s[p + 1]));
    } else if s[p] != '"' {
        lemma_quoted_shift(t, s, k, p + 1, acc.push(s[p]));
    }
}

proof fn lemma_attrs_shift(t: Seq<char>, s: Seq<char>, k: int, p: int, acc: Seq<(Seq<char>, Seq<char>)>)
    requires
        embedded(t, s, k),
        0 <= p <= s.len(),
        parse_attrs(s, p, acc) matches Ok((_, q)) && q < s.len(),
    ensures
        parse_attrs(t, p + k, acc) == match parse_attrs(s, p, acc) {
            Ok((a, q)) => Ok::<(Seq<(Seq<char>, Seq<char>)>, int), SyntaxError>((a, q + k)),
            Err(x) => Err(x),
        },
    decreases s.len() - p,
{
    lemma_skip_ws(s, p);
    let q = skip_ws(s, p);
    lemma_ws_shift(t, s, k, p);
    assert(t[q + k] == s[q]);
    if is_ident_start(s[q]) {
        lemma_parse_ident(s, q);
        let (name, r) = parse_ident(s, q)->Ok_0;
        lemma_skip_ws(s, r);
        let r1 = skip_ws(s, r);
        lemma_parse_ident_shift(t, s, k, q);
        lemma_ws_shift(t, s, k, r);
        assert(t[r1 + k] == s[r1]);
        lemma_skip_ws(s, r1 + 1);
        let r2 = skip_ws(s, r1 + 1);
        lemma_ws_shift(t, s, k, r1 + 1);
        assert(t[r2 + k] == s[r2]);
        lemma_quoted_shift(t, s, k, r2 + 1, Seq::empty());
        lemma_parse_quoted(s, r2);
        let (value, r3) = parse_quoted(s, r2)->Ok_0;
        lemma_attrs_shift(t, s, k, r3, acc.push((name, value)));
    }
}

proof fn lemma_element_end(s: Seq<char>, p: int)
    requires
        0 <= p,
    ensures
        parse_element(s, p) matches Ok((_, r)) ==> p < r <= s.len(),
    decreases s.len() - p, 1int,
{
    if 0 <= p < s.len() && s[p] == '<' {
        lemma_parse_ident(s, p + 1);
        if let Ok((tag, q1)) = parse_ident(s, p + 1) {
            lemma_parse_attrs(s, q1, Seq::empty());
            if let Ok((attrs, q2)) = parse_attrs(s, q1, Seq::empty()) {
                lemma_skip_ws(s, q2);
                let q3 = skip_ws(s, q2);
                if 0 <= q3 < s.len() && s[q3] == '>' {
                    lemma_children_end(s, q3 + 1, tag, attrs, Seq::empty());
                }
            }
        }
    }
}

proof fn lemma_children_end(
    s: Seq<char>,
    p: int,
    tag: Seq<char>,
    attrs: Seq<(Seq<char>, Seq<char>)>,
    kids: Seq<ElementView>,
)
    requires
        0 <= p,
    ensures
        parse_children(s, p, tag, attrs, kids) matches Ok((_, r)) ==> p < r <= s.len(),
    decreases s.len() - p, 2int,
{
    lemma_skip_ws(s, p);
    let q = skip_ws(s, p);
    if 0 <= q && q + 1 < s.len() && s[q] == '<' && s[q + 1] == '/' {
        lemma_parse_ident(s, q + 2);
        if let Ok((closing, q2)) = parse_ident(s, q + 2) {
            lemma_skip_ws(s, q2);
        }
    } else if 0 <= q < s.len() {
        lemma_element_end(s, q);
        if let Ok((child, r)) = parse_element(s, q) {
            if p < r <= s.len() {
                lemma_children_end(s, r, tag, attrs, kids.push(child));
            }
        }
    }
}

proof fn lemma_element_shift(t: Seq<char>, s: Seq<char>, k: int, p: int)
    requires
        embedded(t, s, k),
        0 <= p,
        parse_element(s, p) is Ok,
    ensures
        parse_element(t, p + k) == match parse_element(s, p) {
            Ok((v, r)) => Ok::<(ElementView, int), SyntaxError>((v, r + k)),
            Err(x) => Err(x),
        },
    decreases s.len() - p, 1int,
{
    assert(t[p + k] == s[p]);
    lemma_parse_ident(s, p + 1);
    let (tag, q1) = parse_ident(s, p + 1)->Ok_0;
    lemma_parse_attrs(s, q1, Seq::empty());
    let (attrs, q2) = parse_attrs(s, q1, Seq::empty())->Ok_0;
    lemma_skip_ws(s, q2);
    let q3 = skip_ws(s, q2);
    lemma_parse_ident_shift(t, s, k, p + 1);
    lemma_attrs_shift(t, s, k, q1, Seq::empty());
    lemma_ws_shift(t, s, k, q2);
    assert(t[q3 + k] == s[q3]);
    if s[q3] == '/' {
        assert(t[q3 + 1 + k] == s[q3 + 1]);
    } else {
        lemma_children_shift(t, s, k, q3 + 1, tag, attrs, Seq::empty());
    }
}

proof fn lemma_children_shift(
    t: Seq<char>,
    s: Seq<char>,
    k: int,
    p: int,
    tag: Seq<char>,
    attrs: Seq<(Seq<char>, Seq<char>)>,
    kids: Seq<ElementView>,
)
    requires
        embedded(t, s, k),
        0 <= p <= s.len(),
        parse_children(s, p, tag, attrs, kids) is Ok,
    ensures
        parse_children(t, p + k, tag, attrs, kids) == match parse_children(s, p, tag, attrs, kids) {
            Ok((v, r)) => Ok::<(ElementView, int), SyntaxError>((v, r + k)),
            Err(x) => Err(x),
        },
    decreases s.len() - p, 2int,
{
    lemma_skip_ws(s, p);
    let q = skip_ws(s, p);
    lemma_ws_shift(t, s, k, p);
    assert(t[q + k] == s[q]);
    if q + 1 < s.len() && s[q] == '<' && s[q + 1] == '/' {
        assert(t[q + 1 + k] == s[q + 1]);
        lemma_parse_ident(s, q + 2);
        let (closing, q2) = parse_ident(s, q + 2)->Ok_0;
        lemma_skip_ws(s, q2);
        let q3 = skip_ws(s, q2);
        lemma_parse_ident_shift(t, s, k, q + 2);
        lemma_ws_shift(t, s, k, q2);
        assert(t[q3 + k] == s[q3]);
    } else {
        if q + 1 < s.len() {
            assert(t[q + 1 + k] == s[q + 1]);
        }
        if q + 1 >= s.len() && q + 1 + k < t.len() {
            assert(s[q] != '<' || q + 1 < s.len());
        }
        lemma_element_end(s, q);
        let (child, r) = parse_element(s, q)->Ok_0;
        lemma_element_shift(t, s, k, q);
        lemma_children_shift(t, s, k, r, tag, attrs, kids.push(child));
    }
}

proof fn lemma_spaces_to_end(t: Seq<char>, i: int)
    requires
        0 <= i <= t.len(),
        forall|j: int| i <= j < t.len() ==> is_space(#[trigger] t[j]),
    ensures
        skip_ws(t, i) == t.len(),
    decreases t.len() - i,
{
    if i < t.len() {
        lemma_spaces_to_end(t, i + 1);
    }
}

proof fn lemma_spaces_before(t: Seq<char>, i: int, k: int)
    requires
        0 <= i <= k <= t.len(),
        forall|j: int| i <= j < k ==> is_space(#[trigger] t[j]),
    ensures
        skip_ws(t, i) == skip_ws(t, k),
    decreases k - i,
{
    if i < k {
        lemma_spaces_before(t, i + 1, k);
    }
}

proof fn lemma_ws_to_end(t: Seq<char>, s: Seq<char>, k: int, p: int)
    requires
        embedded(t, s, k),
        0 <= p <= s.len(),
        skip_ws(s, p) == s.len(),
        forall|j: int| k + s.len() <= j < t.len() ==> is_space(#[trigger] t[j]),
    ensures
        skip_ws(t, p + k) == t.len(),
    decreases s.len() - p,
{
    if p < s.len() {
        assert(t[p + k] == s[p]);
        lemma_ws_to_end(t, s, k, p + 1);
    } else {
        lemma_spaces_to_end(t, p + k);
    }
}

/// Whitespace around the root element is ignored: padding a document
/// that parses with whitespace before and after it parses to the same
/// element.
pub proof fn lemma_parse_ignores_padding(s: Seq<char>, before: Seq<char>, after: Seq<char>)
    requires
        parse_document(s) is Ok,
        forall|i: int| 0 <= i < before.len() ==> is_space(#[trigger] before[i]),
        forall|i: int| 0 <= i < after.len() ==> is_space(#[trigger] after[i]),
    ensures
        parse_document(before + s + after) == parse_document(s),
{
    let t = before + s + after;
    let k = before.len() as int;
    assert(embedded(t, s, k)) by {
        assert forall|i: int| 0 <= i < s.len() implies t[k + i] == #[trigger] s[i] by {}
    }
    assert forall|j: int| 0 <= j < k implies is_space(#[trigger] t[j]) by {
        assert(t[j] == before[j]);
    }
    assert forall|j: int| k + s.len() <= j < t.len() implies is_space(#[trigger] t[j]) by {
        assert(t[j] == after[j - k - s.len()]);
    }
    lemma_skip_ws(s, 0);
    let p0 = skip_ws(s, 0);
    lemma_spaces_before(t, 0, k);
    lemma_ws_shift(t, s, k, 0);
    lemma_element_shift(t, s, k, p0);
    lemma_element_end(s, p0);
    let (root, r) = parse_element(s, p0)->Ok_0;
    lemma_ws_to_end(t, s, k, r);
}

// ---------------------------------------------------------------------
// Byte offsets
// ---------------------------------------------------------------------

pub proof fn lemma_encode_concat(a: Seq<char>, b: Seq<char>)
    ensures
        encode_utf8(a + b) == encode_utf8(a) + encode_utf8(b),
    decreases a.len(),
{
    if a.len() == 0 {
        assert(a + b =~= b);
        assert(encode_utf8(a) + encode_utf8(b) =~= encode_utf8(b));
    } else {
        assert((a + b).drop_first() =~= a.drop_first() + b);
        lemma_encode_concat(a.drop_first(), b);
        assert(encode_utf8(a + b) =~= encode_utf8(a) + encode_utf8(b));
    }
}

/// Bytes taken by the UTF-8 encoding of one character.
fn utf8_width(c: char) -> (w: usize)
    ensures
        w == vstd::utf8::encode_scalar(c as u32).len(),
{
    proof {
        vstd::utf8::char_is_scalar(c);
    }
    let v = c as u32;
    if v <= 0x7F {
        1
    } else if v <= 0x7FF {
        2
    } else if v <= 0xFFFF {
        3
    } else {
        4
    }
}

/// The byte offset in `source` of its character at index `at`.
fn byte_offset(source: &str, chars: &Vec<char>, at: usize) -> (r: usize)
    requires
        chars@ == source@,
        at <= chars@.len(),
    ensures
        r == encode_utf8(source@.take(at as int)).len(),
{
    let total = source.as_bytes().len();
    let mut i: usize = 0;
    let mut acc: usize = 0;
    while i < at
        invariant
            chars@ == source@,
            at <= chars@.len(),
            i <= at,
            total == encode_utf8(chars@).len(),
            acc == encode_utf8(chars@.take(i as int)).len(),
        decreases at - i,
    {
        proof {
            let s = chars@;
            assert(s.take(i + 1) =~= s.take(i as int) + seq![s[i as int]]);
            lemma_encode_concat(s.take(i as int), seq![s[i as int]]);
            let one = seq![s[i as int]];
            assert(one.drop_first() =~= Seq::<char>::empty());
            assert(encode_utf8(one.drop_first()) =~= Seq::<u8>::empty());
            assert(encode_utf8(one) == vstd::utf8::encode_scalar(one[0] as u32) + encode_utf8(
                one.drop_first(),
            ));
            assert(encode_utf8(one) =~= vstd::utf8::encode_scalar(one[0] as u32));
            assert(s =~= s.take(i + 1) + s.skip(i + 1));
            lemma_encode_concat(s.take(i + 1), s.skip(i + 1));
        }
        acc = acc + utf8_width(chars[i]);
        i = i + 1;
    }
    acc
}

// ---------------------------------------------------------------------
// Executable parser
// ---------------------------------------------------------------------

/// One parsed element: its tag, its attributes in source order and its
/// children in source order.
#[derive(Debug)]
pub struct Element {
    pub tag: String,
    pub attrs: Vec<(String, String)>,
    pub children: Vec<Element>,
}

pub open spec fn attrs_view(attrs: Seq<(String, String)>) -> Seq<(Seq<char>, Seq<char>)> {
    attrs.map_values(|a: (String, String)| (a.0@, a.1@))
}

pub open spec fn element_view(e: Element) -> ElementView
    decreases e,
{
    ElementView {
        tag: e.tag@,
        attrs: attrs_view(e.attrs@),
        children: Seq::new(
            e.children@.len(),
            |i: int|
                if 0 <= i < e.children@.len() {
                    element_view(e.children@[i])
                } else {
                    arbitrary()
                },
        ),
    }
}

impl View for Element {
    type V = ElementView;

    open spec fn view(&self) -> ElementView {
        element_view(*self)
    }
}

pub open spec fn views(elements: Seq<Element>) -> Seq<ElementView> {
    Seq::new(elements.len(), |i: int| elements[i]@)
}

/// The value of the first attribute named `name`, if any.
pub open spec fn first_attr(attrs: Seq<(Seq<char>, Seq<char>)>, name: Seq<char>) -> Option<Seq<char>>
    decreases attrs.len(),
{
    if attrs.len() == 0 {
        None
    } else if attrs[0].0 == name {
        Some(attrs[0].1)
    } else {
        first_attr(attrs.drop_first(), name)
    }
}

/// The value of the first attribute in `attrs` named `name`, if any.
pub fn find_attr<'a>(attrs: &'a [(String, String)], name: &str) -> (r: Option<&'a str>)
    ensures
        match first_attr(attrs_view(attrs@), name@) {
            Some(v) => r matches Some(x) && x@ == v,
            None => r is None,
        },
{
    let wanted = name.to_owned();
    let ghost all = attrs_view(attrs@);
    let mut i: usize = 0;
    assert(all.skip(0) =~= all);
    while i < attrs.len()
        invariant
            i <= attrs@.len(),
            all == attrs_view(attrs@),
            wanted@ == name@,
            first_attr(all, name@) == first_attr(all.skip(i as int), name@),
        decreases attrs@.len() - i,
    {
        assert(all.skip(i as int).drop_first() =~= all.skip(i + 1));
        if attrs[i].0 == wanted {
            return Some(attrs[i].1.as_str());
        }
        i = i + 1;
    }
    assert(all.skip(i as int) =~= Seq::<(Seq<char>, Seq<char>)>::empty());
    None
}

impl Element {
    /// The value of the first attribute named `name`, if any.
    pub fn attr(&self, name: &str) -> (r: Option<&str>)
        ensures
            match first_attr(attrs_view(self.attrs@), name@) {
                Some(v) => r matches Some(x) && x@ == v,
                None => r is None,
            },
    {
        find_attr(self.attrs.as_slice(), name)
    }
}

/// Why a document was refused: a message and the byte offset where the
/// problem was found.
#[derive(Debug, Clone, PartialEq)]
pub struct ParseError {
    pub message: String,
    pub offset: usize,
}

/// A syntax error at a character index (converted to bytes at the end).
struct Fault {
    message: String,
    at: usize,
}

impl View for Fault {
    type V = SyntaxError;

    closed spec fn view(&self) -> SyntaxError {
        SyntaxError { message: self.message@, at: self.at as int }
    }
}

fn is_space_char(c: char) -> (b: bool)
    ensures
        b == is_space(c),
{
    c == ' ' || c == '\t' || c == '\n' || c == '\x0C' || c == '\r'
}

fn is_ident_start_char(c: char) -> (b: bool)
    ensures
        b == is_ident_start(c),
{
    ('a' <= c && c <= 'z') || ('A' <= c && c <= 'Z') || c == '_'
}

fn is_ident_continue_char(c: char) -> (b: bool)
    ensures
        b == is_ident_char(c),
{
    is_ident_start_char(c) || ('0' <= c && c <= '9') || c == '-'
}

fn expected_message(c: char) -> (m: String)
    requires
        c == '<' || c == '>' || c == '=' || c == '"',
    ensures
        m@ == expected_msg(c),
{
    proof {
        reveal_strlit("<");
        reveal_strlit(">");
        reveal_strlit("=");
        reveal_strlit("\"");
    }
    let mut m = "expected '".to_owned();
    if c == '<' {
        m.append("<");
    } else if c == '>' {
        m.append(">");
    } else if c == '=' {
        m.append("=");
    } else {
        m.append("\"");
    }
    m.append("'");
    m
}

fn duplicate_message(name: &String) -> (m: String)
    ensures
        m@ == duplicate_msg(name@),
{
    let mut m = "duplicate attribute '".to_owned();
    m.append(name.as_str());
    m.append("'");
    m
}

fn mismatch_message(tag: &String, found: &String) -> (m: String)
    ensures
        m@ == mismatch_msg(tag@, found@),
{
    let mut m = "mismatched closing tag: expected '</".to_owned();
    m.append(tag.as_str());
    m.append(">', found '</");
    m.append(found.as_str());
    m.append(">'");
    m
}

fn unterminated_message(tag: &String) -> (m: String)
    ensures
        m@ == unterminated_msg(tag@),
{
    let mut m = "unterminated element '<".to_owned();
    m.append(tag.as_str());
    m.append(">'");
    m
}

fn skip_whitespace(s: &Vec<char>, p: usize) -> (r: usize)
    requires
        p <= s@.len(),
    ensures
        r == skip_ws(s@, p as int),
        p <= r <= s@.len(),
{
    let mut q = p;
    while q < s.len() && is_space_char(s[q])
        invariant
            p <= q <= s@.len(),
            skip_ws(s@, q as int) == skip_ws(s@, p as int),
        decreases s@.len() - q,
    {
        q = q + 1;
    }
    q
}

fn read_ident(s: &Vec<char>, p: usize) -> (r: Result<(Vec<char>, usize), Fault>)
    requires
        p <= s@.len(),
    ensures
        match (r, parse_ident(s@, p as int)) {
            (Ok((name, q)), Ok((n, e))) => name@ == n && q == e && p < q <= s@.len(),
            (Err(f), Err(e)) => f@ == e && f.at <= s@.len(),
            _ => false,
        },
{
    if p < s.len() && is_ident_start_char(s[p]) {
        let mut name: Vec<char> = Vec::new();
        name.push(s[p]);
        let mut q = p + 1;
        while q < s.len() && is_ident_continue_char(s[q])
            invariant
                p < q <= s@.len(),
                ident_end(s@, q as int) == ident_end(s@, p + 1),
                name@ == s@.subrange(p as int, q as int),
            decreases s@.len() - q,
        {
            name.push(s[q]);
            q = q + 1;
            assert(name@ =~= s@.subrange(p as int, q as int));
        }
        Ok((name, q))
    } else {
        Err(Fault { message: "expected an identifier".to_owned(), at: p })
    }
}

fn read_quoted(s: &Vec<char>, p: usize) -> (r: Result<(Vec<char>, usize), Fault>)
    requires
        p <= s@.len(),
    ensures
        match (r, parse_quoted(s@, p as int)) {
            (Ok((v, q)), Ok((sv, sq))) => v@ == sv && q == sq && p < q <= s@.len(),
            (Err(f), Err(e)) => f@ == e && f.at <= s@.len(),
            _ => false,
        },
{
    if !(p < s.len() && s[p] == '"') {
        return Err(Fault { message: expected_message('"'), at: p });
    }
    let mut value: Vec<char> = Vec::new();
    let mut q = p + 1;
    loop
        invariant
            p < q <= s@.len(),
            quoted_body(s@, q as int, value@) == parse_quoted(s@, p as int),
        decreases s@.len() - q,
    {
        if q >= s.len() {
            return Err(Fault { message: "unterminated string literal".to_owned(), at: q });
        }
        let c = s[q];
        if c == '"' {
            return Ok((value, q + 1));
        }
        if c == '\\' {
            if q + 1 < s.len() && (s[q + 1] == '"' || s[q + 1] == '\\') {
                value.push(s[q + 1]);
                q = q + 2;
            } else {
                return Err(Fault { message: "invalid escape in string literal".to_owned(), at: q + 1 });
            }
        } else {
            value.push(c);
            q = q + 1;
        }
    }
}

fn contains_name(attrs: &Vec<(String, String)>, name: &String) -> (b: bool)
    ensures
        b == has_name(attrs_view(attrs@), name@),
{
    let mut i: usize = 0;
    while i < attrs.len()
        invariant
            i <= attrs@.len(),
            forall|j: int| 0 <= j < i ==> attrs@[j].0@ != name@,
        decreases attrs@.len() - i,
    {
        if attrs[i].0 == *name {
            assert(attrs_view(attrs@)[i as int].0 == name@);
            return true;
        }
        i = i + 1;
    }
    proof {
        if has_name(attrs_view(attrs@), name@) {
            let j = choose|j: int| 0 <= j < attrs_view(attrs@).len() && #[trigger] attrs_view(attrs@)[j].0 == name@;
            assert(attrs@[j].0@ == name@);
        }
    }
    false
}

fn read_attrs(s: &Vec<char>, p: usize) -> (r: Result<(Vec<(String, String)>, usize), Fault>)
    requires
        p <= s@.len(),
    ensures
        match (r, parse_attrs(s@, p as int, Seq::empty())) {
            (Ok((a, q)), Ok((sa, sq))) => attrs_view(a@) == sa && q == sq && p <= q <= s@.len(),
            (Err(f), Err(e)) => f@ == e && f.at <= s@.len(),
            _ => false,
        },
{
    let mut attrs: Vec<(String, String)> = Vec::new();
    let mut pos = p;
    assert(attrs_view(attrs@) =~= Seq::<(Seq<char>, Seq<char>)>::empty());
    loop
        invariant
            p <= pos <= s@.len(),
            parse_attrs(s@, pos as int, attrs_view(attrs@)) == parse_attrs(s@, p as int, Seq::empty()),
        decreases s@.len() - pos,
    {
        let q = skip_whitespace(s, pos);
        if !(q < s.len() && is_ident_start_char(s[q])) {
            return Ok((attrs, q));
        }
        let (name, r) = match read_ident(s, q) {
            Ok(found) => found,
            Err(f) => return Err(f),
        };
        let name_str = string_from_chars(name.as_slice());
        if contains_name(&attrs, &name_str) {
            return Err(Fault { message: duplicate_message(&name_str), at: r });
        }
        let r1 = skip_whitespace(s, r);
        if !(r1 < s.len() && s[r1] == '=') {
            return Err(Fault { message: expected_message('='), at: r1 });
        }
        let r2 = skip_whitespace(s, r1 + 1);
        let (value, r3) = match read_quoted(s, r2) {
            Ok(found) => found,
            Err(f) => return Err(f),
        };
        let value_str = string_from_chars(value.as_slice());
        let ghost before = attrs_view(attrs@);
        attrs.push((name_str, value_str));
        assert(attrs_view(attrs@) =~= before.push((name@, value@)));
        pos = r3;
    }
}

fn read_element(s: &Vec<char>, p: usize) -> (r: Result<(Element, usize), Fault>)
    requires
        p <= s@.len(),
    ensures
        match (r, parse_element(s@, p as int)) {
            (Ok((e, q)), Ok((se, sq))) => e@ == se && q == sq && p < q <= s@.len(),
            (Err(f), Err(x)) => f@ == x && f.at <= s@.len(),
            _ => false,
        },
    decreases s@.len() - p,
{
    if !(p < s.len() && s[p] == '<') {
        return Err(Fault { message: expected_message('<'), at: p });
    }
    let (tag, q1) = match read_ident(s, p + 1) {
        Ok(found) => found,
        Err(f) => return Err(f),
    };
    let (attrs, q2) = match read_attrs(s, q1) {
        Ok(found) => found,
        Err(f) => return Err(f),
    };
    let q3 = skip_whitespace(s, q2);
    let tag_str = string_from_chars(tag.as_slice());
    if q3 < s.len() && s[q3] == '/' {
        if q3 + 1 < s.len() && s[q3 + 1] == '>' {
            let e = Element { tag: tag_str, attrs, children: Vec::new() };
            assert(e@.children =~= Seq::<ElementView>::empty());
            return Ok((e, q3 + 2));
        }
        return Err(Fault { message: expected_message('>'), at: q3 + 1 });
    }
    if !(q3 < s.len() && s[q3] == '>') {
        return Err(Fault { message: expected_message('>'), at: q3 });
    }
    let mut kids: Vec<Element> = Vec::new();
    let mut pos = q3 + 1;
    assert(views(kids@) =~= Seq::<ElementView>::empty());
    loop
        invariant
            p < pos <= s@.len(),
            tag_str@ == tag@,
            parse_children(s@, pos as int, tag@, attrs_view(attrs@), views(kids@)) == parse_element(
                s@,
                p as int,
            ),
        decreases s@.len() - pos,
    {
        let q = skip_whitespace(s, pos);
        if q < s.len() && q + 1 < s.len() && s[q] == '<' && s[q + 1] == '/' {
            let (closing, q4) = match read_ident(s, q + 2) {
                Ok(found) => found,
                Err(f) => return Err(f),
            };
            if !same_chars(closing.as_slice(), tag.as_slice()) {
                let found = string_from_chars(closing.as_slice());
                return Err(Fault { message: mismatch_message(&tag_str, &found), at: q4 });
            }
            let q5 = skip_whitespace(s, q4);
            if q5 < s.len() && s[q5] == '>' {
                let e = Element { tag: tag_str, attrs, children: kids };
                assert(e@.children =~= views(e.children@));
                return Ok((e, q5 + 1));
            }
            return Err(Fault { message: expected_message('>'), at: q5 });
        }
        if q >= s.len() {
            return Err(Fault { message: unterminated_message(&tag_str), at: q });
        }
        let (child, r) = match read_element(s, q) {
            Ok(found) => found,
            Err(f) => return Err(f),
        };
        let ghost before = views(kids@);
        kids.push(child);
        assert(views(kids@) =~= before.push(child@));
        pos = r;
    }
}

/// Parses a complete document into its single root element. Whitespace
/// around the root is ignored; anything else outside it is an error.
pub fn parse(source: &str) -> (r: Result<Element, ParseError>)
    ensures
        match (r, parse_document(source@)) {
            (Ok(e), Ok(v)) => e@ == v,
            (Err(pe), Err(x)) => pe.message@ == x.message && pe.offset == encode_utf8(
                source@.take(x.at),
            ).len(),
            _ => false,
        },
{
    let chars = chars_of(source);
    let start = skip_whitespace(&chars, 0);
    match read_element(&chars, start) {
        Err(f) => {
            let offset = byte_offset(source, &chars, f.at);
            Err(ParseError { message: f.message, offset })
        },
        Ok((root, r)) => {
            let q = skip_whitespace(&chars, r);
            if q == chars.len() {
                Ok(root)
            } else {
                let offset = byte_offset(source, &chars, q);
                Err(
                    ParseError {
                        message: "expected end of document after root element".to_owned(),
                        offset,
                    },
                )
            }
        },
    }
}

} // verus!
