//! Minimal Wavefront OBJ: `v x y z` vertex lines and `f a b c` triangle
//! lines (1-indexed; `a/b/c` texture/normal suffixes are ignored). Other
//! lines are skipped. Coordinates are kept as the text that was checked
//! to be a valid decimal float; turning them into floats is the caller's.
use vstd::prelude::*;
use vstd::utf8::{decode_utf8, valid_utf8};
use crate::asset::{Decoder, ShaderSource, result_view};
use crate::bytes::{DecodeError, DecodeErrorView};
use crate::numeric_text::{
    all_digits, digits_value, find_char, float_literal, is_digit, is_float_literal, parse_i64, parse_i64_spec,
    strip_sign,
};
use crate::text::{chars_of, decimal, digit_char, is_word, string_from_chars};

verus! {

broadcast use vstd::seq_lib::group_seq_properties;

/// The text of `bytes` when they are valid UTF-8 (`std::str::from_utf8`).
/// Claimed, as std documents: `Some` exactly for valid UTF-8, holding the
/// characters the bytes encode.
#[verifier::external_body]
fn utf8_text(bytes: &[u8]) -> (r: Option<String>)
    ensures
        r is Some <==> valid_utf8(bytes@),
        r matches Some(s) ==> s@ == decode_utf8(bytes@),
{
    std::str::from_utf8(bytes).ok().map(|s| s.to_owned())
}

/// Loads shader source as-is (UTF-8 text).
#[derive(Debug, Default)]
pub struct ShaderSourceDecoder;

impl View for ShaderSource {
    type V = Seq<char>;

    open spec fn view(&self) -> Seq<char> {
        self.source@
    }
}

pub open spec fn shader_decoded(b: Seq<u8>) -> Result<Seq<char>, DecodeErrorView> {
    if valid_utf8(b) {
        Ok(decode_utf8(b))
    } else {
        Err(DecodeErrorView::Malformed("not valid UTF-8"))
    }
}

impl Decoder<ShaderSource> for ShaderSourceDecoder {
    type Error = DecodeError;

    fn decode(&self, bytes: &[u8]) -> (r: Result<ShaderSource, DecodeError>)
        ensures
            result_view(r) == shader_decoded(bytes@),
    {
        match utf8_text(bytes) {
            Some(source) => Ok(ShaderSource { source }),
            None => Err(DecodeError::Malformed("not valid UTF-8")),
        }
    }
}

/// One `v` line's three coordinates, as written.
#[derive(Debug, Clone, PartialEq)]
pub struct ObjVertex {
    pub x: String,
    pub y: String,
    pub z: String,
}

/// Decoded OBJ geometry: vertex coordinate text and 0-based triangle
/// indices.
#[derive(Debug, Clone, Default, PartialEq)]
pub struct ObjMesh {
    pub positions: Vec<ObjVertex>,
    pub indices: Vec<u32>,
}

pub struct ObjMeshView {
    pub positions: Seq<(Seq<char>, Seq<char>, Seq<char>)>,
    pub indices: Seq<u32>,
}

pub open spec fn vertex_view(v: ObjVertex) -> (Seq<char>, Seq<char>, Seq<char>) {
    (v.x@, v.y@, v.z@)
}

impl View for ObjMesh {
    type V = ObjMeshView;

    open spec fn view(&self) -> ObjMeshView {
        ObjMeshView { positions: self.positions@.map_values(|v: ObjVertex| vertex_view(v)), indices: self.indices@ }
    }
}

/// `char::is_whitespace`: the Unicode `White_Space` property.
pub open spec fn is_unicode_whitespace(c: char) -> bool {
    ||| ('\u{9}' <= c && c <= '\u{d}')
    ||| c == ' '
    ||| c == '\u{85}'
    ||| c == '\u{a0}'
    ||| c == '\u{1680}'
    ||| ('\u{2000}' <= c && c <= '\u{200a}')
    ||| c == '\u{2028}'
    ||| c == '\u{2029}'
    ||| c == '\u{202f}'
    ||| c == '\u{205f}'
    ||| c == '\u{3000}'
}

pub fn is_whitespace(c: char) -> (r: bool)
    ensures
        r == is_unicode_whitespace(c),
{
    ('\u{9}' <= c && c <= '\u{d}') || c == ' ' || c == '\u{85}' || c == '\u{a0}' || c == '\u{1680}'
        || ('\u{2000}' <= c && c <= '\u{200a}') || c == '\u{2028}' || c == '\u{2029}' || c == '\u{202f}'
        || c == '\u{205f}' || c == '\u{3000}'
}

/// A face token's vertex index part: everything before the first `/`.
pub open spec fn vertex_part(t: Seq<char>) -> Seq<char> {
    t.take(find_char(t, '/'))
}

/// The 0-based index a 1-based OBJ index names, wrapped into `u32`.
pub open spec fn face_index(v: i64) -> u32 {
    ((v as int - 1) % 0x1_0000_0000) as u32
}

/// What one line's tokens do to the mesh decoded so far.
pub open spec fn line_effect(acc: ObjMeshView, toks: Seq<Seq<char>>) -> Result<ObjMeshView, DecodeErrorView> {
    if toks.len() == 0 {
        Ok(acc)
    } else if toks[0] == "v"@ {
        let coords = toks.drop_first();
        if exists|k: int| 0 <= k < coords.len() && !is_float_literal(#[trigger] coords[k]) {
            Err(DecodeErrorView::Malformed("non-numeric vertex coordinate"))
        } else if coords.len() != 3 {
            Err(DecodeErrorView::Malformed("vertex line without exactly 3 coordinates"))
        } else {
            Ok(ObjMeshView { positions: acc.positions.push((coords[0], coords[1], coords[2])), ..acc })
        }
    } else if toks[0] == "f"@ {
        let parts = toks.drop_first();
        if exists|k: int| 0 <= k < parts.len() && parse_i64_spec(vertex_part(#[trigger] parts[k])) is None {
            Err(DecodeErrorView::Malformed("non-numeric face index"))
        } else if parts.len() != 3 {
            Err(DecodeErrorView::Unsupported("non-triangular face"))
        } else {
            Ok(ObjMeshView {
                indices: acc.indices + seq![
                    face_index(parse_i64_spec(vertex_part(parts[0])).unwrap()),
                    face_index(parse_i64_spec(vertex_part(parts[1])).unwrap()),
                    face_index(parse_i64_spec(vertex_part(parts[2])).unwrap()),
                ],
                ..acc
            })
        }
    } else {
        Ok(acc)
    }
}

pub open spec fn apply_line(m: Result<ObjMeshView, DecodeErrorView>, toks: Seq<Seq<char>>) -> Result<ObjMeshView, DecodeErrorView> {
    match m {
        Err(e) => Err(e),
        Ok(acc) => line_effect(acc, toks),
    }
}

/// Scanner state after a prefix of the text: the mesh from the finished
/// lines, the tokens of the current line, and whether the last character
/// continued a token.
pub struct ObjScan {
    pub mesh: Result<ObjMeshView, DecodeErrorView>,
    pub line: Seq<Seq<char>>,
    pub in_token: bool,
}

pub open spec fn empty_mesh() -> ObjMeshView {
    ObjMeshView { positions: seq![], indices: seq![] }
}

pub open spec fn scan_step(st: ObjScan, c: char) -> ObjScan {
    if c == '\n' {
        ObjScan { mesh: apply_line(st.mesh, st.line), line: seq![], in_token: false }
    } else if is_unicode_whitespace(c) {
        ObjScan { in_token: false, ..st }
    } else if st.in_token {
        ObjScan { line: st.line.update(st.line.len() - 1, st.line.last().push(c)), ..st }
    } else {
        ObjScan { line: st.line.push(seq![c]), in_token: true, ..st }
    }
}

pub open spec fn scan(text: Seq<char>) -> ObjScan
    decreases text.len(),
{
    if text.len() == 0 {
        ObjScan { mesh: Ok(empty_mesh()), line: seq![], in_token: false }
    } else {
        scan_step(scan(text.drop_last()), text.last())
    }
}

/// What decoding OBJ text yields: every line split on `\n`, each into
/// whitespace-separated tokens, applied in order; the first failing line
/// decides the error.
pub open spec fn obj_text_decoded(text: Seq<char>) -> Result<ObjMeshView, DecodeErrorView> {
    apply_line(scan(text).mesh, scan(text).line)
}

pub open spec fn obj_decoded(b: Seq<u8>) -> Result<ObjMeshView, DecodeErrorView> {
    if valid_utf8(b) {
        obj_text_decoded(decode_utf8(b))
    } else {
        Err(DecodeErrorView::Malformed("not valid UTF-8"))
    }
}

/// Decodes a minimal Wavefront OBJ.
#[derive(Debug, Default)]
pub struct ObjDecoder;

proof fn lemma_error_persists(text: Seq<char>, i: int, e: DecodeErrorView)
    requires
        0 <= i <= text.len(),
        scan(text.take(i)).mesh == Err::<ObjMeshView, DecodeErrorView>(e),
    ensures
        scan(text).mesh == Err::<ObjMeshView, DecodeErrorView>(e),
    decreases text.len() - i,
{
    if i < text.len() {
        assert(text.take(i + 1).drop_last() =~= text.take(i));
        lemma_error_persists(text, i + 1, e);
    } else {
        assert(text.take(i) =~= text);
    }
}

proof fn lemma_decimal_digits(n: nat)
    ensures
        decimal(n).len() > 0,
        all_digits(decimal(n)),
        digits_value(decimal(n)) == n,
    decreases n,
{
    if n < 10 {
        let d = decimal(n);
        assert(d.drop_last() =~= Seq::<char>::empty());
        assert(digit_char(n) as int == 48 + n);
        assert('0' as int == 48);
        assert(digits_value(d.drop_last()) == 0);
        assert(d.last() == digit_char(n));
        assert(digits_value(d) == digits_value(d.drop_last()) * 10 + (d.last() as int - '0' as int));
    } else {
        lemma_decimal_digits(n / 10);
        let d = decimal(n);
        assert(d.drop_last() =~= decimal(n / 10));
        assert(digit_char(n % 10) as int == 48 + n % 10);
        assert('0' as int == 48);
        assert(d.last() == digit_char(n % 10));
        assert(digits_value(d) == digits_value(d.drop_last()) * 10 + (d.last() as int - '0' as int));
        assert((n / 10) * 10 + n % 10 == n) by (nonlinear_arith);
        assert forall|i: int| 0 <= i < d.len() implies #[trigger] is_digit(d[i]) by {
            if i < d.len() - 1 {
                assert(d[i] == decimal(n / 10)[i]);
            }
        }
    }
}

/// A face token that spells `n` in decimal, alone or followed by `/` and
/// texture or normal parts, has the whole number `n` as its vertex
/// index.
pub proof fn lemma_face_token(n: nat, suffix: Seq<char>)
    requires
        1 <= n <= i64::MAX,
        suffix.len() == 0 || suffix[0] == '/',
    ensures
        vertex_part(decimal(n) + suffix) == decimal(n),
        parse_i64_spec(vertex_part(decimal(n) + suffix)) == Some(n as i64),
{
    lemma_decimal_digits(n);
    let d = decimal(n);
    let t = d + suffix;
    assert forall|i: int| 0 <= i < d.len() implies t[i] != '/' by {
        assert(t[i] == d[i]);
        assert(is_digit(d[i]));
    }
    crate::numeric_text::lemma_find_char_unique(t, '/', d.len() as int);
    assert(t.take(d.len() as int) =~= d);
    assert(is_digit(d[0]));
    assert(strip_sign(d) == d);
}

/// Every index of a triangle face line is the whole 1-based number its
/// token spells, made 0-based: `f n0 n1 n2` (each token alone or with
/// `/` parts) appends `n0 - 1`, `n1 - 1` and `n2 - 1` to the indices.
pub proof fn lemma_face_line(
    acc: ObjMeshView,
    n0: nat,
    n1: nat,
    n2: nat,
    s0: Seq<char>,
    s1: Seq<char>,
    s2: Seq<char>,
)
    requires
        1 <= n0 <= 0x1_0000_0000,
        1 <= n1 <= 0x1_0000_0000,
        1 <= n2 <= 0x1_0000_0000,
        s0.len() == 0 || s0[0] == '/',
        s1.len() == 0 || s1[0] == '/',
        s2.len() == 0 || s2[0] == '/',
    ensures
        line_effect(acc, seq!["f"@, decimal(n0) + s0, decimal(n1) + s1, decimal(n2) + s2])
            == Ok::<ObjMeshView, DecodeErrorView>(
            ObjMeshView {
                positions: acc.positions,
                indices: acc.indices + seq![(n0 - 1) as u32, (n1 - 1) as u32, (n2 - 1) as u32],
            },
        ),
{
    reveal_strlit("f");
    reveal_strlit("v");
    lemma_face_token(n0, s0);
    lemma_face_token(n1, s1);
    lemma_face_token(n2, s2);
    let toks = seq!["f"@, decimal(n0) + s0, decimal(n1) + s1, decimal(n2) + s2];
    assert(toks[0] != "v"@) by {
        assert(toks[0][0] != "v"@[0]);
    }
    let parts = toks.drop_first();
    assert(parts[0] == decimal(n0) + s0 && parts[1] == decimal(n1) + s1 && parts[2] == decimal(n2) + s2);
    assert(!exists|k: int| 0 <= k < parts.len() && parse_i64_spec(vertex_part(#[trigger] parts[k])) is None);
}

fn vertex_part_of(t: &[char]) -> (r: Vec<char>)
    ensures
        r@ == vertex_part(t@),
{
    let mut r: Vec<char> = Vec::new();
    let mut i: usize = 0;
    while i < t.len() && t[i] != '/'
        invariant
            i <= t@.len(),
            forall|j: int| 0 <= j < i ==> t@[j] != '/',
            r@ == t@.take(i as int),
        decreases t@.len() - i,
    {
        r.push(t[i]);
        i = i + 1;
        assert(r@ =~= t@.take(i as int));
    }
    proof {
        crate::numeric_text::lemma_find_char_unique(t@, '/', i as int);
    }
    r
}

fn face_index_of(v: i64) -> (r: u32)
    ensures
        r == face_index(v),
{
    let w: i128 = v as i128 - 1 + 0x1_0000_0000_0000_0000;
    let m: i128 = w % 0x1_0000_0000;
    assert(m == (v as int - 1) % 0x1_0000_0000) by (nonlinear_arith)
        requires
            w == v as int - 1 + 0x1_0000_0000_0000_0000,
            w >= 0,
            m == w % 0x1_0000_0000,
    ;
    m as u32
}

/// Applies one line's tokens to the mesh built so far.
fn apply_tokens(mesh: &mut ObjMesh, toks: &Vec<Vec<char>>) -> (r: Result<(), DecodeError>)
    ensures
        match line_effect(old(mesh)@, toks.deep_view()) {
            Ok(v) => r is Ok && final(mesh)@ == v,
            Err(e) => r matches Err(x) && x@ == e,
        },
{
    let ghost dt = toks.deep_view();
    assert(dt.len() == toks@.len());
    if toks.len() == 0 {
        return Ok(());
    }
    assert(dt[0] == toks@[0]@);
    if is_word(toks[0].as_slice(), "v") {
        let mut k: usize = 1;
        while k < toks.len()
            invariant
                1 <= k <= toks@.len(),
                dt == toks.deep_view(),
                dt[0] == "v"@,
                forall|j: int| 0 <= j < k - 1 ==> is_float_literal(#[trigger] dt.drop_first()[j]),
            decreases toks@.len() - k,
        {
            assert(dt.drop_first()[k - 1] == toks@[k as int]@);
            if !float_literal(toks[k].as_slice()) {
                assert(!is_float_literal(dt.drop_first()[k - 1]));
                return Err(DecodeError::Malformed("non-numeric vertex coordinate"));
            }
            k = k + 1;
        }
        if toks.len() != 4 {
            return Err(DecodeError::Malformed("vertex line without exactly 3 coordinates"));
        }
        let x = string_from_chars(toks[1].as_slice());
        let y = string_from_chars(toks[2].as_slice());
        let z = string_from_chars(toks[3].as_slice());
        assert(dt.drop_first()[0] == toks@[1]@);
        assert(dt.drop_first()[1] == toks@[2]@);
        assert(dt.drop_first()[2] == toks@[3]@);
        let ghost before = mesh@;
        mesh.positions.push(ObjVertex { x, y, z });
        assert(mesh@.positions =~= before.positions.push((dt[1], dt[2], dt[3])));
        return Ok(());
    }
    if is_word(toks[0].as_slice(), "f") {
        let mut found: Vec<u32> = Vec::new();
        let mut k: usize = 1;
        while k < toks.len()
            invariant
                1 <= k <= toks@.len(),
                dt == toks.deep_view(),
                dt[0] == "f"@,
                dt[0] != "v"@,
                found@.len() == k - 1,
                forall|j: int| 0 <= j < k - 1 ==> parse_i64_spec(vertex_part(#[trigger] dt.drop_first()[j])) is Some,
                forall|j: int| 0 <= j < k - 1 ==> found@[j] == face_index(parse_i64_spec(vertex_part(#[trigger] dt.drop_first()[j])).unwrap()),
            decreases toks@.len() - k,
        {
            assert(dt.drop_first()[k - 1] == toks@[k as int]@);
            let part = vertex_part_of(toks[k].as_slice());
            match parse_i64(part.as_slice()) {
                None => {
                    assert(parse_i64_spec(vertex_part(dt.drop_first()[k - 1])) is None);
                    assert(exists|j: int| 0 <= j < dt.drop_first().len() && parse_i64_spec(vertex_part(#[trigger] dt.drop_first()[j])) is None);
                    return Err(DecodeError::Malformed("non-numeric face index"));
                },
                Some(v) => {
                    found.push(face_index_of(v));
                },
            }
            k = k + 1;
        }
        if toks.len() != 4 {
            return Err(DecodeError::Unsupported("non-triangular face"));
        }
        let ghost before = mesh@;
        mesh.indices.push(found[0]);
        mesh.indices.push(found[1]);
        mesh.indices.push(found[2]);
        assert(mesh@.indices =~= before.indices + seq![found@[0], found@[1], found@[2]]);
        assert(mesh@.positions =~= before.positions);
        return Ok(());
    }
    Ok(())
}

impl Decoder<ObjMesh> for ObjDecoder {
    type Error = DecodeError;

    fn decode(&self, bytes: &[u8]) -> (r: Result<ObjMesh, DecodeError>)
        ensures
            result_view(r) == obj_decoded(bytes@),
    {
        let text = match utf8_text(bytes) {
            Some(t) => t,
            None => { return Err(DecodeError::Malformed("not valid UTF-8")); },
        };
        let chars = chars_of(text.as_str());
        let ghost full = chars@;
        let mut mesh = ObjMesh { positions: Vec::new(), indices: Vec::new() };
        let mut line: Vec<Vec<char>> = Vec::new();
        let mut in_token = false;
        let mut i: usize = 0;
        assert(mesh@.positions =~= Seq::<(Seq<char>, Seq<char>, Seq<char>)>::empty());
        assert(line.deep_view() =~= Seq::<Seq<char>>::empty());
        assert(chars@.take(0) =~= Seq::<char>::empty());
        while i < chars.len()
            invariant
                full == chars@,
                valid_utf8(bytes@),
                chars@ == decode_utf8(bytes@),
                i <= chars@.len(),
                scan(chars@.take(i as int)) == (ObjScan { mesh: Ok(mesh@), line: line.deep_view(), in_token }),
                in_token ==> line@.len() > 0,
            decreases chars@.len() - i,
        {
            let c = chars[i];
            let ghost before = scan(chars@.take(i as int));
            assert(chars@.take(i + 1).drop_last() =~= chars@.take(i as int));
            assert(chars@.take(i + 1).last() == c);
            if c == '\n' {
                match apply_tokens(&mut mesh, &line) {
                    Ok(()) => {},
                    Err(e) => {
                        proof {
                            assert(scan(chars@.take(i + 1)).mesh == Err::<ObjMeshView, DecodeErrorView>(e@));
                            lemma_error_persists(chars@, i + 1, e@);
                            assert(obj_text_decoded(chars@) == Err::<ObjMeshView, DecodeErrorView>(e@));
                        }
                        return Err(e);
                    },
                }
                line = Vec::new();
                in_token = false;
                assert(line.deep_view() =~= Seq::<Seq<char>>::empty());
            } else if is_whitespace(c) {
                in_token = false;
            } else if in_token {
                let ghost old_line = line.deep_view();
                let mut tok = line.pop().unwrap();
                tok.push(c);
                line.push(tok);
                assert(line.deep_view() =~~= old_line.update(old_line.len() - 1, old_line.last().push(c)));
            } else {
                let ghost old_line = line.deep_view();
                let mut tok: Vec<char> = Vec::new();
                tok.push(c);
                line.push(tok);
                assert(line.deep_view() =~~= old_line.push(seq![c]));
                in_token = true;
            }
            i = i + 1;
        }
        assert(chars@.take(chars@.len() as int) =~= chars@);
        apply_tokens(&mut mesh, &line)?;
        Ok(mesh)
    }
}

} // verus!
