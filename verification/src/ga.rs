//! The geometric product of two basis blades of projective geometric
//! algebra R(3,0,1): four basis vectors `e0` (with `e0 * e0 = 0`) and
//! `e1`, `e2`, `e3` (each squaring to one), pairwise anticommuting. A blade
//! is a 4-bit mask, bit `i` standing for `ei`.
use vstd::prelude::*;

verus! {

/// Whether blade `a` holds basis vector `e_i`.
pub open spec fn has_bit(a: u8, i: int) -> bool {
    (a >> (i as u8)) & 1 == 1
}

/// The basis vectors of `a` below `e_i`, in increasing order.
pub open spec fn bits_upto(a: u8, i: int) -> Seq<u8>
    decreases i,
{
    if i <= 0 {
        Seq::empty()
    } else if has_bit(a, i - 1) {
        bits_upto(a, i - 1).push((i - 1) as u8)
    } else {
        bits_upto(a, i - 1)
    }
}

/// The factor word of `a * b`: `a`'s basis vectors, then `b`'s.
pub open spec fn blade_word(a: u8, b: u8) -> Seq<u8> {
    bits_upto(a, 4) + bits_upto(b, 4)
}

/// How many elements of `t` lie in `lo..hi`.
pub open spec fn count_in(t: Seq<u8>, lo: int, hi: int) -> nat
    decreases t.len(),
{
    if t.len() == 0 {
        0
    } else {
        (if lo <= t[0] < hi { 1nat } else { 0nat }) + count_in(t.drop_first(), lo, hi)
    }
}

/// The pairs of positions of `s` whose elements are out of order.
pub open spec fn inversions(s: Seq<u8>) -> nat
    decreases s.len(),
{
    if s.len() == 0 {
        0
    } else {
        count_in(s.drop_first(), 0, s[0] as int) + inversions(s.drop_first())
    }
}

/// The product of two basis blades: zero when both hold `e0`; otherwise
/// the blade `a XOR b`, negated when sorting the factor word into
/// increasing order takes an odd number of transpositions.
pub open spec fn blade_product(a: u8, b: u8) -> (i8, u8) {
    if has_bit(a, 0) && has_bit(b, 0) {
        (0i8, 0u8)
    } else {
        (if inversions(blade_word(a, b)) % 2 == 0 { 1i8 } else { -1i8 }, (a ^ b) & 15u8)
    }
}

pub open spec fn swap_adj(s: Seq<u8>, i: int) -> Seq<u8> {
    s.update(i, s[i + 1]).update(i + 1, s[i])
}

pub open spec fn drop_pair(s: Seq<u8>, i: int) -> Seq<u8> {
    s.take(i) + s.skip(i + 2)
}

pub open spec fn strictly_increasing(s: Seq<u8>) -> bool {
    forall|p: int, q: int| 0 <= p < q < s.len() ==> s[p] < s[q]
}

proof fn lemma_count_concat(p: Seq<u8>, q: Seq<u8>, lo: int, hi: int)
    ensures
        count_in(p + q, lo, hi) == count_in(p, lo, hi) + count_in(q, lo, hi),
    decreases p.len(),
{
    if p.len() == 0 {
        assert(p + q =~= q);
    } else {
        assert((p + q).drop_first() =~= p.drop_first() + q);
        lemma_count_concat(p.drop_first(), q, lo, hi);
    }
}

proof fn lemma_count_single(x: u8, lo: int, hi: int)
    ensures
        count_in(seq![x], lo, hi) == (if lo <= x < hi { 1nat } else { 0nat }),
{
    assert(seq![x].drop_first() =~= Seq::<u8>::empty());
    assert(count_in(seq![x].drop_first(), lo, hi) == 0);
}

proof fn lemma_count_push(p: Seq<u8>, x: u8, lo: int, hi: int)
    ensures
        count_in(p.push(x), lo, hi) == count_in(p, lo, hi) + (if lo <= x < hi { 1nat } else { 0nat }),
{
    assert(p.push(x) =~= p + seq![x]);
    lemma_count_concat(p, seq![x], lo, hi);
    lemma_count_single(x, lo, hi);
}

proof fn lemma_count_two(t: Seq<u8>, lo: int, hi: int)
    requires
        t.len() >= 2,
    ensures
        count_in(t, lo, hi) == (if lo <= t[0] < hi { 1nat } else { 0nat }) + (if lo <= t[1] < hi { 1nat } else {
            0nat
        }) + count_in(t.drop_first().drop_first(), lo, hi),
{
    assert(t.drop_first()[0] == t[1]);
    assert(count_in(t.drop_first(), lo, hi) == (if lo <= t.drop_first()[0] < hi { 1nat } else { 0nat })
        + count_in(t.drop_first().drop_first(), lo, hi));
}

proof fn lemma_count_bound(t: Seq<u8>, lo: int, hi: int)
    ensures
        count_in(t, lo, hi) <= t.len(),
    decreases t.len(),
{
    if t.len() > 0 {
        lemma_count_bound(t.drop_first(), lo, hi);
    }
}

proof fn lemma_count_none(t: Seq<u8>, lo: int, hi: int)
    requires
        forall|k: int| 0 <= k < t.len() ==> !(lo <= #[trigger] t[k] < hi),
    ensures
        count_in(t, lo, hi) == 0,
    decreases t.len(),
{
    if t.len() > 0 {
        assert(!(lo <= t[0] < hi));
        assert forall|k: int| 0 <= k < t.drop_first().len() implies !(lo <= #[trigger] t.drop_first()[k] < hi) by {
            assert(t.drop_first()[k] == t[k + 1]);
        }
        lemma_count_none(t.drop_first(), lo, hi);
    }
}

proof fn lemma_count_swap(t: Seq<u8>, j: int, lo: int, hi: int)
    requires
        0 <= j < t.len() - 1,
    ensures
        count_in(swap_adj(t, j), lo, hi) == count_in(t, lo, hi),
    decreases j,
{
    let u = swap_adj(t, j);
    if j == 0 {
        assert(u.drop_first().drop_first() =~= t.drop_first().drop_first());
        lemma_count_two(t, lo, hi);
        lemma_count_two(u, lo, hi);
    } else {
        assert(u.drop_first() =~= swap_adj(t.drop_first(), j - 1));
        lemma_count_swap(t.drop_first(), j - 1, lo, hi);
    }
}

proof fn lemma_inversions_swap(s: Seq<u8>, i: int)
    requires
        0 <= i < s.len() - 1,
        s[i] > s[i + 1],
    ensures
        inversions(swap_adj(s, i)) + 1 == inversions(s),
    decreases i,
{
    let u = swap_adj(s, i);
    if i == 0 {
        let t = s.drop_first().drop_first();
        assert(u.drop_first().drop_first() =~= t);
        let x = s[0];
        let y = s[1];
        assert(s.drop_first()[0] == y);
        assert(u.drop_first()[0] == x);
        assert(count_in(s.drop_first(), 0, x as int) == (if y < x { 1nat } else { 0nat }) + count_in(t, 0, x as int));
        assert(inversions(s.drop_first()) == count_in(t, 0, y as int) + inversions(t));
        assert(count_in(u.drop_first(), 0, y as int) == (if x < y { 1nat } else { 0nat }) + count_in(t, 0, y as int));
        assert(inversions(u.drop_first()) == count_in(t, 0, x as int) + inversions(t));
    } else {
        assert(u.drop_first() =~= swap_adj(s.drop_first(), i - 1));
        lemma_count_swap(s.drop_first(), i - 1, 0, s[0] as int);
        lemma_inversions_swap(s.drop_first(), i - 1);
    }
}

proof fn lemma_count_pair(t: Seq<u8>, j: int, lo: int, hi: int)
    requires
        0 <= j < t.len() - 1,
        t[j] == t[j + 1],
    ensures
        count_in(t, lo, hi) == count_in(drop_pair(t, j), lo, hi) + (if lo <= t[j] < hi { 2nat } else { 0nat }),
    decreases j,
{
    if j == 0 {
        assert(drop_pair(t, 0) =~= t.drop_first().drop_first());
        lemma_count_two(t, lo, hi);
    } else {
        assert(drop_pair(t, j).drop_first() =~= drop_pair(t.drop_first(), j - 1));
        assert(drop_pair(t, j)[0] == t[0]);
        lemma_count_pair(t.drop_first(), j - 1, lo, hi);
    }
}

proof fn lemma_inversions_pair(s: Seq<u8>, i: int)
    requires
        0 <= i < s.len() - 1,
        s[i] == s[i + 1],
    ensures
        inversions(drop_pair(s, i)) <= inversions(s),
        (inversions(s) - inversions(drop_pair(s, i))) % 2 == 0,
    decreases i,
{
    if i == 0 {
        let t = s.drop_first().drop_first();
        assert(drop_pair(s, 0) =~= t);
        let x = s[0];
        assert(s.drop_first()[0] == x);
        assert(count_in(s.drop_first(), 0, x as int) == count_in(t, 0, x as int));
        assert(inversions(s.drop_first()) == count_in(t, 0, x as int) + inversions(t));
    } else {
        let d = drop_pair(s, i);
        assert(d.drop_first() =~= drop_pair(s.drop_first(), i - 1));
        assert(d[0] == s[0]);
        lemma_count_pair(s.drop_first(), i - 1, 0, s[0] as int);
        lemma_inversions_pair(s.drop_first(), i - 1);
    }
}

proof fn lemma_inversions_sorted(s: Seq<u8>)
    requires
        strictly_increasing(s),
    ensures
        inversions(s) == 0,
    decreases s.len(),
{
    if s.len() > 0 {
        let t = s.drop_first();
        assert forall|k: int| 0 <= k < t.len() implies !(0 <= #[trigger] t[k] < s[0] as int) by {
            assert(t[k] == s[k + 1]);
        }
        lemma_count_none(t, 0, s[0] as int);
        assert(strictly_increasing(t)) by {
            assert forall|p: int, q: int| 0 <= p < q < t.len() implies t[p] < t[q] by {
                assert(t[p] == s[p + 1] && t[q] == s[q + 1]);
            }
        }
        lemma_inversions_sorted(t);
    }
}

proof fn lemma_count_sorted(s: Seq<u8>, v: int)
    requires
        strictly_increasing(s),
    ensures
        count_in(s, v, v + 1) <= 1,
    decreases s.len(),
{
    if s.len() > 0 {
        let t = s.drop_first();
        assert(strictly_increasing(t)) by {
            assert forall|p: int, q: int| 0 <= p < q < t.len() implies t[p] < t[q] by {
                assert(t[p] == s[p + 1] && t[q] == s[q + 1]);
            }
        }
        lemma_count_sorted(t, v);
        if s[0] as int == v {
            assert forall|k: int| 0 <= k < t.len() implies !(v <= #[trigger] t[k] < v + 1) by {
                assert(t[k] == s[k + 1]);
            }
            lemma_count_none(t, v, v + 1);
        }
    }
}

proof fn lemma_inversions_bound(s: Seq<u8>)
    ensures
        inversions(s) <= s.len() * s.len(),
    decreases s.len(),
{
    if s.len() > 0 {
        lemma_inversions_bound(s.drop_first());
        lemma_count_bound(s.drop_first(), 0, s[0] as int);
        assert(inversions(s) <= s.len() * s.len()) by (nonlinear_arith)
            requires
                inversions(s) == count_in(s.drop_first(), 0, s[0] as int) + inversions(s.drop_first()),
                count_in(s.drop_first(), 0, s[0] as int) <= s.len() - 1,
                inversions(s.drop_first()) <= (s.len() - 1) * (s.len() - 1),
                s.len() >= 1,
        ;
    }
}

proof fn lemma_bits_upto(a: u8, i: int, v: int)
    requires
        0 <= i <= 4,
        0 <= v < 4,
    ensures
        count_in(bits_upto(a, i), v, v + 1) == (if v < i && has_bit(a, v) { 1nat } else { 0nat }),
        bits_upto(a, i).len() <= i,
        forall|k: int| 0 <= k < bits_upto(a, i).len() ==> #[trigger] bits_upto(a, i)[k] < i,
    decreases i,
{
    if i > 0 {
        lemma_bits_upto(a, i - 1, v);
        let p = bits_upto(a, i - 1);
        if has_bit(a, i - 1) {
            let x = (i - 1) as u8;
            assert(x == i - 1);
            lemma_count_push(p, x, v, v + 1);
            assert forall|k: int| 0 <= k < p.push(x).len() implies #[trigger] p.push(x)[k] < i by {
                if k < p.len() {
                    assert(p.push(x)[k] == p[k]);
                }
            }
        }
    }
}

/// The bits of `(a ^ b) & 15`, one basis vector at a time.
proof fn lemma_xor_bits(a: u8, b: u8, m: u8)
    requires
        m < 16,
        forall|v: u8| v < 4 ==> (((m >> v) & 1 == 1) <==> (((a >> v) & 1 == 1) != ((b >> v) & 1 == 1))),
    ensures
        m == (a ^ b) & 15,
{
    let x = (a ^ b) & 15u8;
    assert(((m >> 0u8) & 1 == 1) <==> (((a >> 0u8) & 1 == 1) != ((b >> 0u8) & 1 == 1)));
    assert(((m >> 1u8) & 1 == 1) <==> (((a >> 1u8) & 1 == 1) != ((b >> 1u8) & 1 == 1)));
    assert(((m >> 2u8) & 1 == 1) <==> (((a >> 2u8) & 1 == 1) != ((b >> 2u8) & 1 == 1)));
    assert(((m >> 3u8) & 1 == 1) <==> (((a >> 3u8) & 1 == 1) != ((b >> 3u8) & 1 == 1)));
    assert(m == (a ^ b) & 15) by (bit_vector)
        requires
            m < 16,
            ((m >> 0u8) & 1 == 1) <==> (((a >> 0u8) & 1 == 1) != ((b >> 0u8) & 1 == 1)),
            ((m >> 1u8) & 1 == 1) <==> (((a >> 1u8) & 1 == 1) != ((b >> 1u8) & 1 == 1)),
            ((m >> 2u8) & 1 == 1) <==> (((a >> 2u8) & 1 == 1) != ((b >> 2u8) & 1 == 1)),
            ((m >> 3u8) & 1 == 1) <==> (((a >> 3u8) & 1 == 1) != ((b >> 3u8) & 1 == 1)),
    ;
}

/// The blade holding exactly the basis vectors listed in `s`.
pub open spec fn mask_of(s: Seq<u8>) -> u8
    decreases s.len(),
{
    if s.len() == 0 {
        0
    } else {
        mask_of(s.drop_last()) | (1u8 << s.last())
    }
}

proof fn lemma_mask_of(s: Seq<u8>, v: u8)
    requires
        v < 4,
        forall|k: int| 0 <= k < s.len() ==> #[trigger] s[k] < 4,
    ensures
        mask_of(s) < 16,
        ((mask_of(s) >> v) & 1 == 1) <==> count_in(s, v as int, v + 1) > 0,
    decreases s.len(),
{
    if s.len() > 0 {
        let p = s.drop_last();
        let x = s.last();
        assert forall|k: int| 0 <= k < p.len() implies #[trigger] p[k] < 4 by {
            assert(p[k] == s[k]);
        }
        lemma_mask_of(p, v);
        let m = mask_of(p);
        assert(x < 4);
        assert((m | (1u8 << x)) < 16 && ((((m | (1u8 << x)) >> v) & 1 == 1) <==> (((m >> v) & 1 == 1) || x
            == v))) by (bit_vector)
            requires
                m < 16,
                x < 4,
                v < 4,
        ;
        assert(s =~= p.push(x));
        lemma_count_push(p, x, v as int, v + 1);
    } else {
        assert((0u8 >> v) & 1 == 0) by (bit_vector);
    }
}

fn bit_set(a: u8, i: u8) -> (r: bool)
    requires
        i < 4,
    ensures
        r == has_bit(a, i as int),
{
    let r = a & (1u8 << i) != 0;
    assert((a & (1u8 << i) != 0) == ((a >> i) & 1 == 1)) by (bit_vector)
        requires
            i < 4,
    ;
    r
}

/// A factor word over `e0..e3` whose multiplicities agree with `word`'s
/// in parity, and exactly for `e0`.
pub open spec fn same_factors(s: Seq<u8>, word: Seq<u8>) -> bool {
    &&& forall|k: int| 0 <= k < s.len() ==> #[trigger] s[k] < 4
    &&& forall|v: int| 0 <= v < 4 ==> #[trigger] count_in(s, v, v + 1) % 2 == count_in(word, v, v + 1) % 2
    &&& count_in(s, 0, 1) == count_in(word, 0, 1)
}

/// One bubble pass over `seq[..len]`, flipping `sign` at each transposition.
fn transposition_pass(seq: &mut Vec<u8>, len: usize, sign: &mut i8) -> (swaps: usize)
    requires
        old(seq)@.len() == 8,
        len <= 8,
        *old(sign) == 1 || *old(sign) == -1,
    ensures
        final(seq)@.len() == 8,
        forall|lo: int, hi: int| #[trigger] count_in(final(seq)@.take(len as int), lo, hi) == count_in(
            old(seq)@.take(len as int),
            lo,
            hi,
        ),
        (forall|k: int| 0 <= k < len ==> #[trigger] old(seq)@[k] < 4) ==> (forall|k: int| 0 <= k < len ==> #[trigger] final(seq)@[k] < 4),
        inversions(final(seq)@.take(len as int)) + swaps == inversions(old(seq)@.take(len as int)),
        *final(sign) == if swaps % 2 == 0 { *old(sign) as int } else { -*old(sign) },
        swaps == 0 ==> final(seq)@.take(len as int) == old(seq)@.take(len as int),
        swaps == 0 ==> forall|k: int| 0 <= k < len - 1 ==> #[trigger] final(seq)@[k] <= final(seq)@[k + 1],
{
    let ghost start = seq@.take(len as int);
    let ghost start_seq = seq@;
    let last = if len >= 1 { len - 1 } else { 0 };
    let mut swaps: usize = 0;
    let mut p: usize = 0;
    while p < last
        invariant
            seq@.len() == 8,
            len <= 8,
            last == if len >= 1 { len - 1 } else { 0 },
            p <= last,
            swaps <= p,
            forall|lo: int, hi: int| #[trigger] count_in(seq@.take(len as int), lo, hi) == count_in(start, lo, hi),
            (forall|k: int| 0 <= k < len ==> #[trigger] start_seq[k] < 4) ==> (forall|k: int| 0 <= k < len ==> #[trigger] seq@[k] < 4),
            start == start_seq.take(len as int),
            inversions(seq@.take(len as int)) + swaps == inversions(start),
            *sign == if swaps % 2 == 0 { *old(sign) as int } else { -*old(sign) },
            *old(sign) == 1 || *old(sign) == -1,
            swaps == 0 ==> seq@.take(len as int) == start,
            swaps == 0 ==> forall|k: int| 0 <= k < p ==> #[trigger] seq@[k] <= seq@[k + 1],
        decreases last - p,
    {
        let x = seq[p];
        let y = seq[p + 1];
        if x > y {
            let ghost before = seq@.take(len as int);
            let ghost before_seq = seq@;
            seq.set(p, y);
            seq.set(p + 1, x);
            proof {
                assert(seq@.take(len as int) =~= swap_adj(before, p as int));
                lemma_inversions_swap(before, p as int);
                assert forall|lo: int, hi: int| #[trigger] count_in(seq@.take(len as int), lo, hi) == count_in(start, lo, hi) by {
                    lemma_count_swap(before, p as int, lo, hi);
                }
                if forall|k: int| 0 <= k < len ==> #[trigger] start_seq[k] < 4 {
                    assert forall|k: int| 0 <= k < len implies #[trigger] seq@[k] < 4 by {
                        if k != p as int && k != p + 1 {
                            assert(seq@[k] == before_seq[k]);
                        } else {
                            assert(before_seq[p as int] < 4 && before_seq[p + 1] < 4);
                        }
                    }
                }
            }
            *sign = -*sign;
            swaps = swaps + 1;
        }
        p = p + 1;
    }
    swaps
}

/// Contracts equal neighbours of `seq[..len]` by the metric: `None` when
/// an `e0` meets itself (the product vanishes), else whether anything
/// was contracted.
fn contraction_pass(seq: &mut Vec<u8>, len: &mut usize) -> (r: Option<bool>)
    requires
        old(seq)@.len() == 8,
        *old(len) <= 8,
        forall|k: int| 0 <= k < *old(len) ==> #[trigger] old(seq)@[k] < 4,
    ensures
        final(seq)@.len() == 8,
        *final(len) <= *old(len),
        r is None ==> count_in(old(seq)@.take(*old(len) as int), 0, 1) >= 2,
        r is Some ==> {
            let before = old(seq)@.take(*old(len) as int);
            let after = final(seq)@.take(*final(len) as int);
            &&& forall|k: int| 0 <= k < *final(len) ==> #[trigger] final(seq)@[k] < 4
            &&& forall|v: int| #[trigger] count_in(after, v, v + 1) % 2 == count_in(before, v, v + 1) % 2
            &&& count_in(after, 0, 1) == count_in(before, 0, 1)
            &&& inversions(after) <= inversions(before)
            &&& (inversions(before) - inversions(after)) % 2 == 0
        },
        r == Some(true) ==> *final(len) < *old(len),
        r == Some(false) ==> *final(len) == *old(len) && final(seq)@.take(*final(len) as int) == old(seq)@.take(
            *old(len) as int,
        ),
        r == Some(false) ==> forall|k: int| 0 <= k < *final(len) - 1 ==> #[trigger] final(seq)@[k] != final(seq)@[k + 1],
{
    let ghost start = seq@.take(*len as int);
    let ghost start_len = *len;
    let mut contracted = false;
    let mut q: usize = 0;
    while q + 1 < *len
        invariant
            seq@.len() == 8,
            *len <= start_len <= 8,
            start_len == *old(len),
            start == old(seq)@.take(*old(len) as int),
            q <= *len,
            forall|k: int| 0 <= k < *len ==> #[trigger] seq@[k] < 4,
            forall|v: int| #[trigger] count_in(seq@.take(*len as int), v, v + 1) % 2 == count_in(start, v, v + 1) % 2,
            count_in(seq@.take(*len as int), 0, 1) == count_in(start, 0, 1),
            inversions(seq@.take(*len as int)) <= inversions(start),
            (inversions(start) - inversions(seq@.take(*len as int))) % 2 == 0,
            contracted ==> *len < start_len,
            !contracted ==> *len == start_len && seq@.take(*len as int) == start,
            !contracted ==> forall|k: int| 0 <= k < q ==> #[trigger] seq@[k] != seq@[k + 1],
        decreases *len + *len - q,
    {
        let x = seq[q];
        if x == seq[q + 1] {
            let ghost before = seq@.take(*len as int);
            if x == 0 {
                proof {
                    lemma_count_pair(before, q as int, 0, 1);
                }
                return None;
            }
            let ghost full = seq@;
            let n = *len;
            let mut k: usize = q;
            while k + 2 < n
                invariant
                    seq@.len() == 8,
                    n <= 8,
                    q + 2 <= n,
                    q <= k,
                    k + 2 <= n,
                    forall|t: int| 0 <= t < q ==> #[trigger] seq@[t] == full[t],
                    forall|t: int| q <= t < k ==> #[trigger] seq@[t] == full[t + 2],
                    forall|t: int| k <= t < 8 ==> #[trigger] seq@[t] == full[t],
                    before == full.take(n as int),
                decreases n - k,
            {
                let moved = seq[k + 2];
                seq.set(k, moved);
                k = k + 1;
            }
            *len = n - 2;
            proof {
                assert(seq@.take(*len as int) =~= drop_pair(before, q as int));
                lemma_inversions_pair(before, q as int);
                assert forall|v: int| #[trigger] count_in(seq@.take(*len as int), v, v + 1) % 2 == count_in(start, v, v + 1) % 2 by {
                    lemma_count_pair(before, q as int, v, v + 1);
                }
                lemma_count_pair(before, q as int, 0, 1);
                assert forall|t: int| 0 <= t < *len implies #[trigger] seq@[t] < 4 by {
                    if t < q {
                        assert(seq@[t] == before[t]);
                    } else {
                        assert(seq@[t] == before[t + 2]);
                    }
                }
            }
            contracted = true;
        } else {
            q = q + 1;
        }
    }
    Some(contracted)
}

/// The geometric product of basis blades `a` and `b` (their low four
/// bits): the factors `a` then `b` are sorted into increasing order by
/// adjacent transpositions, each flipping the sign, and equal neighbours
/// contract by the metric (`ei * ei = 1`; `e0 * e0 = 0` ends with zero).
/// Returns the sign (`1`, `-1` or `0`) and the resulting blade.
pub fn basis_product(a: u8, b: u8) -> (r: (i8, u8))
    ensures
        r == blade_product(a, b),
{
    let ghost word = blade_word(a, b);
    let mut seq: Vec<u8> = vec![0u8; 8];
    let mut len: usize = 0;
    let mut i: u8 = 0;
    while i < 4
        invariant
            i <= 4,
            seq@.len() == 8,
            len == bits_upto(a, i as int).len(),
            len <= i,
            seq@.take(len as int) == bits_upto(a, i as int),
        decreases 4 - i,
    {
        proof {
            lemma_bits_upto(a, i as int, 0);
        }
        let ghost prev = seq@;
        if bit_set(a, i) {
            seq.set(len, i);
            assert(seq@.take(len + 1) =~= prev.take(len as int).push(i));
            len = len + 1;
        }
        i = i + 1;
        assert(seq@.take(len as int) =~= bits_upto(a, i as int));
    }
    let na = len;
    let mut j: u8 = 0;
    while j < 4
        invariant
            j <= 4,
            seq@.len() == 8,
            na == bits_upto(a, 4).len(),
            na <= 4,
            len == na + bits_upto(b, j as int).len(),
            len <= na + j,
            seq@.take(len as int) == bits_upto(a, 4) + bits_upto(b, j as int),
        decreases 4 - j,
    {
        proof {
            lemma_bits_upto(b, j as int, 0);
        }
        let ghost prev = seq@;
        let ghost pa = bits_upto(a, 4);
        if bit_set(b, j) {
            seq.set(len, j);
            assert(seq@.take(len + 1) =~= prev.take(len as int).push(j));
            assert(pa + bits_upto(b, j + 1) =~= (pa + bits_upto(b, j as int)).push(j));
            len = len + 1;
        } else {
            assert(bits_upto(b, j + 1) == bits_upto(b, j as int));
        }
        j = j + 1;
        assert(seq@.take(len as int) =~= bits_upto(a, 4) + bits_upto(b, j as int));
    }
    proof {
        assert forall|v: int| 0 <= v < 4 implies count_in(word, v, v + 1) == (if has_bit(a, v) { 1nat } else { 0nat })
            + (if has_bit(b, v) { 1nat } else { 0nat }) by {
            lemma_bits_upto(a, 4, v);
            lemma_bits_upto(b, 4, v);
            lemma_count_concat(bits_upto(a, 4), bits_upto(b, 4), v, v + 1);
        }
        lemma_bits_upto(a, 4, 0);
        lemma_bits_upto(b, 4, 0);
        assert forall|k: int| 0 <= k < len implies #[trigger] seq@[k] < 4 by {
            assert(seq@[k] == word[k]);
            if k < bits_upto(a, 4).len() {
                assert(word[k] == bits_upto(a, 4)[k]);
            } else {
                assert(word[k] == bits_upto(b, 4)[k - bits_upto(a, 4).len()]);
            }
        }
    }
    let mut sign: i8 = 1;
    let ghost mut flips: int = 0;
    loop
        invariant
            seq@.len() == 8,
            len <= 8,
            flips >= 0,
            sign == (if flips % 2 == 0 { 1i8 } else { -1i8 }),
            (flips + inversions(seq@.take(len as int)) - inversions(word)) % 2 == 0,
            same_factors(seq@.take(len as int), word),
            forall|k: int| 0 <= k < len ==> #[trigger] seq@[k] < 4,
            count_in(word, 0, 1) == (if has_bit(a, 0) { 1nat } else { 0nat }) + (if has_bit(b, 0) { 1nat } else {
                0nat
            }),
        ensures
            len <= 8,
            forall|k: int| 0 <= k < len ==> #[trigger] seq@[k] < 4,
            strictly_increasing(seq@.take(len as int)),
            same_factors(seq@.take(len as int), word),
            !(has_bit(a, 0) && has_bit(b, 0)),
            sign == (if inversions(word) % 2 == 0 { 1i8 } else { -1i8 }),
        decreases len * 100 + inversions(seq@.take(len as int)),
    {
        let ghost start = seq@.take(len as int);
        let ghost start_len = len;
        proof {
            lemma_inversions_bound(start);
            assert(len * len <= 64) by (nonlinear_arith)
                requires
                    len <= 8,
            ;
        }
        let swaps = transposition_pass(&mut seq, len, &mut sign);
        proof {
            flips = flips + swaps;
        }
        let ghost sorted = seq@.take(len as int);
        let contracted = contraction_pass(&mut seq, &mut len);
        match contracted {
            None => {
                proof {
                    assert(count_in(sorted, 0, 1) == count_in(word, 0, 1));
                }
                return (0, 0);
            },
            Some(false) => {
                if swaps == 0 {
                    proof {
                        let s = seq@.take(len as int);
                        assert forall|k: int| 0 <= k < s.len() - 1 implies #[trigger] s[k] < s[k + 1] by {
                            assert(s[k] == seq@[k] && s[k + 1] == seq@[k + 1]);
                        }
                        assert(strictly_increasing(s)) by {
                            assert forall|p1: int, q1: int| 0 <= p1 < q1 < s.len() implies s[p1] < s[q1] by {
                                lemma_adjacent_increasing(s, p1, q1);
                            }
                        }
                        lemma_inversions_sorted(s);
                        lemma_count_sorted(s, 0);
                    }
                    break;
                }
                proof {
                    lemma_inversions_bound(seq@.take(len as int));
                }
            },
            Some(true) => {
                proof {
                    lemma_inversions_bound(seq@.take(len as int));
                    assert(len * len <= 64) by (nonlinear_arith)
                        requires
                            len <= 8,
                    ;
                }
            },
        }
    }
    let ghost done = seq@.take(len as int);
    proof {
        assert forall|v: u8| v < 4 implies (((mask_of(done) >> v) & 1 == 1) <==> (((a >> v) & 1 == 1) != ((b >> v)
            & 1 == 1))) by {
            lemma_mask_of(done, v);
            lemma_count_sorted(done, v as int);
            lemma_bits_upto(a, 4, v as int);
            lemma_bits_upto(b, 4, v as int);
            lemma_count_concat(bits_upto(a, 4), bits_upto(b, 4), v as int, v + 1);
        }
        lemma_mask_of(done, 0);
        lemma_xor_bits(a, b, mask_of(done));
    }
    let mut mask: u8 = 0;
    let mut t: usize = 0;
    while t < len
        invariant
            t <= len <= 8,
            seq@.len() == 8,
            forall|k: int| 0 <= k < len ==> #[trigger] seq@[k] < 4,
            mask == mask_of(seq@.take(t as int)),
            mask < 16,
        decreases len - t,
    {
        let v = seq[t];
        proof {
            assert(seq@.take(t + 1).drop_last() =~= seq@.take(t as int));
        }
        assert(mask | (1u8 << v) < 16) by (bit_vector)
            requires
                mask < 16,
                v < 4,
        ;
        mask = mask | (1u8 << v);
        t = t + 1;
    }
    proof {
        assert(seq@.take(len as int) == done);
    }
    (sign, mask)
}

proof fn lemma_adjacent_increasing(s: Seq<u8>, p: int, q: int)
    requires
        forall|k: int| 0 <= k < s.len() - 1 ==> #[trigger] s[k] < s[k + 1],
        0 <= p < q < s.len(),
    ensures
        s[p] < s[q],
    decreases q - p,
{
    if q > p + 1 {
        lemma_adjacent_increasing(s, p, q - 1);
        assert(s[q - 1] < s[q]);
    }
}

} // verus!
