//! What the compute paths hand to a GPU device and read back: buffer
//! roles, the fixed-point kernel entry points, the byte layout of `i32`
//! operand and result buffers, and the workgroup count of a dispatch.
use vstd::prelude::*;
use crate::bytes::{le_i32, le_u32};

verus! {

/// How a device buffer is meant to be bound.
#[derive(Debug, Clone, Copy, PartialEq, Eq, Structural)]
pub enum BufferUsage {
    Vertex,
    Index,
    Uniform,
    Storage,
}

/// Below this many elements a task prefers the CPU path; at or above it,
/// GPU dispatch wins on throughput despite upload and readback latency.
pub const GPU_DISPATCH_THRESHOLD: usize = 10_000;

/// The element-wise fixed-point operations the arithmetic kernels run.
#[derive(Debug, Clone, Copy, PartialEq, Eq, Structural)]
pub enum FixedBinaryOp {
    Add,
    Sub,
    Mul,
    Div,
}

impl FixedBinaryOp {
    /// The shader entry point that runs this operation.
    pub fn entry_point(self) -> (r: &'static str)
        ensures
            r == match self {
                FixedBinaryOp::Add => "dispatch_add",
                FixedBinaryOp::Sub => "dispatch_sub",
                FixedBinaryOp::Mul => "dispatch_mul",
                FixedBinaryOp::Div => "dispatch_div",
            },
    {
        match self {
            FixedBinaryOp::Add => "dispatch_add",
            FixedBinaryOp::Sub => "dispatch_sub",
            FixedBinaryOp::Mul => "dispatch_mul",
            FixedBinaryOp::Div => "dispatch_div",
        }
    }
}

/// The unsigned 32-bit pattern of `x` (two's complement).
pub open spec fn bit_pattern(x: i32) -> int {
    if x >= 0 { x as int } else { x + 0x1_0000_0000 }
}

pub open spec fn byte_weight(k: int) -> int {
    if k == 0 { 1 } else if k == 1 { 256 } else if k == 2 { 65536 } else { 16777216 }
}

/// Byte `k` (0 = least significant) of `x`'s little-endian encoding.
pub open spec fn le_byte(x: i32, k: int) -> u8 {
    ((bit_pattern(x) / byte_weight(k)) % 256) as u8
}

/// `values` as consecutive little-endian 4-byte words.
pub open spec fn i32_bytes(values: Seq<i32>) -> Seq<u8> {
    Seq::new(4 * values.len(), |i: int| le_byte(values[i / 4], i % 4))
}

/// The operands of `pairs` in buffer order: `a0, b0, a1, b1, ...`.
pub open spec fn pair_values(pairs: Seq<(i32, i32)>) -> Seq<i32> {
    Seq::new(2 * pairs.len(), |i: int| if i % 2 == 0 { pairs[i / 2].0 } else { pairs[i / 2].1 })
}

fn push_le(out: &mut Vec<u8>, x: i32)
    ensures
        final(out)@ == old(out)@ + seq![le_byte(x, 0), le_byte(x, 1), le_byte(x, 2), le_byte(x, 3)],
{
    let u: u32 = if x >= 0 { x as u32 } else { ((x as i64) + 0x1_0000_0000i64) as u32 };
    assert(u == bit_pattern(x));
    out.push((u % 256) as u8);
    out.push(((u / 256) % 256) as u8);
    out.push(((u / 65536) % 256) as u8);
    out.push(((u / 16777216) % 256) as u8);
    assert(final(out)@ =~= old(out)@ + seq![le_byte(x, 0), le_byte(x, 1), le_byte(x, 2), le_byte(x, 3)]);
}

/// `values` laid out as a little-endian `array<i32>` buffer.
pub fn pack_values(values: &[i32]) -> (r: Vec<u8>)
    ensures
        r@ == i32_bytes(values@),
{
    let mut out: Vec<u8> = Vec::new();
    let mut k: usize = 0;
    while k < values.len()
        invariant
            k <= values@.len(),
            out@ == i32_bytes(values@.take(k as int)),
        decreases values@.len() - k,
    {
        push_le(&mut out, values[k]);
        k = k + 1;
        assert(out@ =~= i32_bytes(values@.take(k as int)));
    }
    assert(values@.take(values@.len() as int) =~= values@);
    out
}

/// The operand buffer of an element-wise binary dispatch: each pair's two
/// operands, one after the other, as little-endian `i32`s.
pub fn pack_operand_pairs(pairs: &[(i32, i32)]) -> (r: Vec<u8>)
    ensures
        r@ == i32_bytes(pair_values(pairs@)),
{
    let mut out: Vec<u8> = Vec::new();
    let mut k: usize = 0;
    while k < pairs.len()
        invariant
            k <= pairs@.len(),
            out@ == i32_bytes(pair_values(pairs@.take(k as int))),
        decreases pairs@.len() - k,
    {
        let (a, b) = pairs[k];
        push_le(&mut out, a);
        push_le(&mut out, b);
        k = k + 1;
        assert(pair_values(pairs@.take(k as int)) =~= pair_values(pairs@.take(k - 1)).push(a).push(b));
        assert(out@ =~= i32_bytes(pair_values(pairs@.take(k as int))));
    }
    assert(pairs@.take(pairs@.len() as int) =~= pairs@);
    out
}

/// A result buffer read back as little-endian `i32`s, one per whole
/// 4-byte word (a trailing partial word is ignored).
pub fn unpack_values(bytes: &[u8]) -> (r: Vec<i32>)
    ensures
        r@.len() == bytes@.len() / 4,
        forall|k: int| 0 <= k < r@.len() ==> r@[k] == le_i32(bytes@, 4 * k),
{
    let mut out: Vec<i32> = Vec::new();
    let total = bytes.len();
    let n = total / 4;
    let mut k: usize = 0;
    while k < n
        invariant
            total == bytes@.len(),
            n == bytes@.len() / 4,
            k <= n,
            out@.len() == k,
            forall|j: int| 0 <= j < k ==> out@[j] == le_i32(bytes@, 4 * j),
        decreases n - k,
    {
        let v = crate::bytes::i32_le(bytes, 4 * k);
        out.push(v);
        k = k + 1;
    }
    out
}

proof fn lemma_word_round_trip(x: i32)
    ensures
        le_byte(x, 0) + 256 * le_byte(x, 1) + 65536 * le_byte(x, 2) + 16777216 * le_byte(x, 3)
            == bit_pattern(x),
{
    let u: u32 = bit_pattern(x) as u32;
    assert(u % 256 + 256 * ((u / 256) % 256) + 65536 * ((u / 65536) % 256) + 16777216 * ((u
        / 16777216) % 256) == u) by (bit_vector);
}

/// Reading a packed buffer back gives the values that were packed: what
/// the device is handed is exactly the caller's data, word for word.
pub proof fn lemma_pack_round_trip(values: Seq<i32>)
    ensures
        forall|k: int| 0 <= k < values.len() ==> #[trigger] le_i32(i32_bytes(values), 4 * k) == values[k],
        i32_bytes(values).len() / 4 == values.len(),
{
    assert forall|k: int| 0 <= k < values.len() implies #[trigger] le_i32(i32_bytes(values), 4 * k)
        == values[k] by {
        let b = i32_bytes(values);
        assert((4 * k) / 4 == k && (4 * k + 1) / 4 == k && (4 * k + 2) / 4 == k && (4 * k + 3) / 4 == k);
        assert((4 * k) % 4 == 0 && (4 * k + 1) % 4 == 1 && (4 * k + 2) % 4 == 2 && (4 * k + 3) % 4 == 3);
        lemma_word_round_trip(values[k]);
        assert(le_u32(b, 4 * k) == bit_pattern(values[k]));
    }
}

/// The operand words of a binary dispatch, read back: `a` of pair `k` at
/// word `2k`, `b` at word `2k + 1`.
pub proof fn lemma_operand_layout(pairs: Seq<(i32, i32)>)
    ensures
        forall|k: int|
            0 <= k < pairs.len() ==> #[trigger] le_i32(i32_bytes(pair_values(pairs)), 8 * k) == pairs[k].0
                && le_i32(i32_bytes(pair_values(pairs)), 8 * k + 4) == pairs[k].1,
{
    let v = pair_values(pairs);
    lemma_pack_round_trip(v);
    assert forall|k: int| 0 <= k < pairs.len() implies #[trigger] le_i32(i32_bytes(pair_values(pairs)), 8 * k)
        == pairs[k].0 && le_i32(i32_bytes(pair_values(pairs)), 8 * k + 4) == pairs[k].1 by {
        assert((2 * k) / 2 == k && (2 * k) % 2 == 0 && (2 * k + 1) / 2 == k && (2 * k + 1) % 2 == 1);
        assert(le_i32(i32_bytes(v), 4 * (2 * k)) == v[2 * k]);
        assert(le_i32(i32_bytes(v), 4 * (2 * k + 1)) == v[2 * k + 1]);
        assert(4 * (2 * k) == 8 * k && 4 * (2 * k + 1) == 8 * k + 4);
    }
}

/// Workgroups for `count` invocations at 64 per group: `count` taken as a
/// `u32`, divided rounding up, and at least one.
pub fn workgroup_count(count: usize) -> (r: u32)
    ensures
        r == ({
            let n = (count as u32) as int;
            let g = (n + 63) / 64;
            if g < 1 { 1 } else { g }
        }),
{
    let n = count as u32;
    let g: u32 = n / 64 + if n % 64 == 0 { 0 } else { 1 };
    if g < 1 { 1 } else { g }
}

} // verus!
