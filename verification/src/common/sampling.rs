//! Public randomness: ring elements expanded from a seed by the BLAKE3
//! extendable-output function.
use vstd::prelude::*;
use crate::common::algebra::preduced;
use crate::common::config::{HALF_DEGREE, MOD_Q};
use crate::common::field::fmod;
use crate::common::ring_arithmetic::{QuadraticExtension, RingElement};

verus! {

/// Byte `i` of the BLAKE3 output stream of `input`.
pub uninterp spec fn blake3_xof_byte(input: Seq<u8>, i: nat) -> u8;

/// The first `len` bytes of the BLAKE3 output stream of `input`.
pub open spec fn blake3_xof_spec(input: Seq<u8>, len: nat) -> Seq<u8> {
    Seq::new(len, |i: int| blake3_xof_byte(input, i as nat))
}

/// `blake3::Hasher::new`, `update`, `finalize_xof` and `OutputReader::fill`:
/// the first `len` bytes of the BLAKE3 output stream of `input`, byte `i`
/// being byte `i` of the stream. The crate fills the whole buffer, and the
/// stream is a function of the input alone (so a shorter read is a prefix of
/// a longer one); the bytes themselves are not stated.
#[verifier::external_body]
pub(crate) fn blake3_xof(input: &[u8], len: usize) -> (r: Vec<u8>)
    ensures
        r@.len() == len,
        forall|i: int| 0 <= i < len ==> #[trigger] r@[i] == blake3_xof_byte(input@, i as nat),
{
    let mut out = vec![0u8; len];
    let mut hasher = blake3::Hasher::new();
    hasher.update(input);
    hasher.finalize_xof().fill(&mut out);
    out
}

/// The little-endian value of `bytes[off..off + n]`.
pub open spec fn le_value(bytes: Seq<u8>, off: int, n: nat) -> int
    decreases n,
{
    if n == 0 {
        0
    } else {
        bytes[off + n - 1] * pow256((n - 1) as nat) + le_value(bytes, off, (n - 1) as nat)
    }
}

/// `256^n`.
pub open spec fn pow256(n: nat) -> int
    decreases n,
{
    if n == 0 {
        1
    } else {
        256 * pow256((n - 1) as nat)
    }
}

/// The field element read from the eight bytes at `off`.
pub open spec fn field_at(bytes: Seq<u8>, off: int) -> int {
    fmod(le_value(bytes, off, 8))
}

/// The ring element read from the `16 * HALF_DEGREE` bytes at `off`: each slot
/// takes two field elements, eight bytes each.
pub open spec fn element_at(bytes: Seq<u8>, off: int) -> Seq<(int, int)> {
    Seq::new(
        HALF_DEGREE as nat,
        |j: int| (field_at(bytes, off + 16 * j), field_at(bytes, off + 16 * j + 8)),
    )
}

/// A little-endian word reads only its own bytes.
proof fn lemma_le_value_local(a: Seq<u8>, b: Seq<u8>, off: int, n: nat)
    requires
        forall|t: int| off <= t < off + n ==> #[trigger] a[t] == b[t],
    ensures
        le_value(a, off, n) == le_value(b, off, n),
    decreases n,
{
    if n > 0 {
        lemma_le_value_local(a, b, off, (n - 1) as nat);
        assert(a[off + n - 1] == b[off + n - 1]);
    }
}

/// An element reads only the `16 * HALF_DEGREE` bytes from `off` on.
pub proof fn lemma_element_at_local(a: Seq<u8>, b: Seq<u8>, off: int)
    requires
        forall|t: int| off <= t < off + 16 * HALF_DEGREE ==> #[trigger] a[t] == b[t],
    ensures
        element_at(a, off) == element_at(b, off),
{
    assert forall|j: int| 0 <= j < HALF_DEGREE implies #[trigger] element_at(a, off)[j]
        == element_at(b, off)[j] by {
        assert forall|t: int| off + 16 * j <= t < off + 16 * j + 8 implies #[trigger] a[t]
            == b[t] by {
            assert(off <= t < off + 16 * HALF_DEGREE);
        }
        lemma_le_value_local(a, b, off + 16 * j, 8);
        assert forall|t: int| off + 16 * j + 8 <= t < off + 16 * j + 8 + 8 implies #[trigger] a[t]
            == b[t] by {
            assert(off <= t < off + 16 * HALF_DEGREE);
        }
        lemma_le_value_local(a, b, off + 16 * j + 8, 8);
    }
    assert(element_at(a, off) =~= element_at(b, off));
}

/// The number of stream bytes one ring element takes.
pub const ELEMENT_BYTES: usize = 1024usize;

proof fn lemma_pow256_bound(n: nat)
    ensures
        pow256(n) > 0,
    decreases n,
{
    if n > 0 {
        lemma_pow256_bound((n - 1) as nat);
    }
}

/// The little-endian word at `off`, reduced into the field.
pub(crate) fn read_field(bytes: &Vec<u8>, off: usize) -> (r: u64)
    requires
        off + 8 <= bytes@.len(),
    ensures
        r as int == field_at(bytes@, off as int),
        r < MOD_Q,
{
    let n = bytes.len();
    let mut acc: u128 = 0;
    let mut k: usize = 8;
    proof {
        lemma_pow256_bound(8);
        reveal_with_fuel(pow256, 9);
        assert(pow256(8) == 0x1_0000_0000_0000_0000);
        assert(pow256(0) == 1);
    }
    while k > 0
        invariant
            k <= 8,
            n == bytes@.len(),
            off + 8 <= bytes@.len(),
            acc * pow256(k as nat) + le_value(bytes@, off as int, k as nat) == le_value(
                bytes@,
                off as int,
                8,
            ),
            acc < pow256((8 - k) as nat),
            pow256(8) == 0x1_0000_0000_0000_0000,
        decreases k,
    {
        proof {
            let b = bytes@[off + k - 1] as int;
            let p = pow256((k - 1) as nat);
            assert(le_value(bytes@, off as int, k as nat) == b * p + le_value(
                bytes@,
                off as int,
                (k - 1) as nat,
            ));
            assert(pow256(k as nat) == 256 * p);
            assert((acc * 256 + b) * p == acc * (256 * p) + b * p) by (nonlinear_arith);
            assert(acc * 256 + b < pow256((8 - k + 1) as nat)) by (nonlinear_arith)
                requires
                    acc < pow256((8 - k) as nat),
                    pow256((8 - k + 1) as nat) == 256 * pow256((8 - k) as nat),
                    0 <= b < 256,
            ;
            assert(pow256((8 - k) as nat) <= pow256(8)) by {
                lemma_pow256_mono((8 - k) as nat, 8);
            }
        }
        acc = acc * 256 + bytes[off + k - 1] as u128;
        k = k - 1;
    }
    proof {
        assert(k == 0);
        assert(le_value(bytes@, off as int, 0) == 0);
        assert(pow256(0) == 1);
        assert(acc * pow256(k as nat) == acc) by (nonlinear_arith)
            requires
                pow256(k as nat) == 1,
        ;
        assert(acc == le_value(bytes@, off as int, 8));
    }
    (acc % (MOD_Q as u128)) as u64
}

proof fn lemma_pow256_mono(a: nat, b: nat)
    requires
        a <= b,
    ensures
        pow256(a) <= pow256(b),
    decreases b,
{
    lemma_pow256_bound(b);
    if a < b {
        lemma_pow256_mono(a, (b - 1) as nat);
    }
}

/// The ring element read from the stream bytes at `off`.
fn read_element(bytes: &Vec<u8>, off: usize) -> (r: RingElement)
    requires
        off + ELEMENT_BYTES <= bytes@.len(),
    ensures
        r.wf(),
        r@ == element_at(bytes@, off as int),
{
    let n = bytes.len();
    let mut slots: Vec<QuadraticExtension> = Vec::with_capacity(HALF_DEGREE);
    let mut j: usize = 0;
    while j < HALF_DEGREE
        invariant
            j <= HALF_DEGREE,
            n == bytes@.len(),
            off + ELEMENT_BYTES <= bytes@.len(),
            slots@.len() == j,
            forall|t: int| 0 <= t < j ==> (#[trigger] slots@[t]).wf(),
            forall|t: int| 0 <= t < j ==> #[trigger] slots@[t]@ == element_at(bytes@, off as int)[t],
        decreases HALF_DEGREE - j,
    {
        let c0 = read_field(bytes, off + 16 * j);
        let c1 = read_field(bytes, off + 16 * j + 8);
        let v = QuadraticExtension { coeffs: [c0, c1] };
        proof {
            assert(preduced(v@));
        }
        slots.push(v);
        j = j + 1;
    }
    let r = RingElement { slots };
    assert(r@ =~= element_at(bytes@, off as int));
    r
}

/// `count` ring elements read from the BLAKE3 stream of `seed`, element `k`
/// from stream bytes `[1024 k, 1024 (k + 1))`.
pub fn sample_public_vector_from_seed(seed: &Vec<u8>, count: usize) -> (r: Vec<RingElement>)
    requires
        count * ELEMENT_BYTES <= usize::MAX,
    ensures
        r@.len() == count,
        forall|k: int|
            0 <= k < count ==> (#[trigger] r@[k]).wf() && r@[k]@ == element_at(
                blake3_xof_spec(seed@, (count * ELEMENT_BYTES) as nat),
                k * ELEMENT_BYTES,
            ),
{
    let bytes = blake3_xof(seed.as_slice(), count * ELEMENT_BYTES);
    assert(bytes@ =~= blake3_xof_spec(seed@, (count * ELEMENT_BYTES) as nat));
    let mut out: Vec<RingElement> = Vec::with_capacity(count);
    let mut k: usize = 0;
    while k < count
        invariant
            k <= count,
            count * ELEMENT_BYTES <= usize::MAX,
            bytes@.len() == count * ELEMENT_BYTES,
            bytes@ == blake3_xof_spec(seed@, (count * ELEMENT_BYTES) as nat),
            out@.len() == k,
            forall|t: int|
                0 <= t < k ==> (#[trigger] out@[t]).wf() && out@[t]@ == element_at(
                    bytes@,
                    t * ELEMENT_BYTES,
                ),
        decreases count - k,
    {
        proof {
            assert((k + 1) * ELEMENT_BYTES <= count * ELEMENT_BYTES) by (nonlinear_arith)
                requires
                    k + 1 <= count,
            ;
        }
        out.push(read_element(&bytes, k * ELEMENT_BYTES));
        k = k + 1;
    }
    out
}

/// The eight little-endian bytes of `x`.
pub open spec fn le_bytes(x: nat) -> Seq<u8> {
    Seq::new(8, |i: int| ((x / (pow256(i as nat) as nat)) % 256) as u8)
}

/// Appends the eight little-endian bytes of `x`.
pub fn push_le_bytes(out: &mut Vec<u8>, x: u64)
    ensures
        final(out)@ == old(out)@ + le_bytes(x as nat),
{
    let ghost start = out@;
    let mut y = x;
    let mut i: usize = 0;
    proof {
        assert(pow256(0) == 1);
        assert(x as nat / 1 == x);
    }
    while i < 8
        invariant
            i <= 8,
            out@.len() == start.len() + i,
            forall|t: int| 0 <= t < start.len() ==> #[trigger] out@[t] == start[t],
            forall|t: int| 0 <= t < i ==> #[trigger] out@[start.len() + t] == le_bytes(x as nat)[t],
            y == x as nat / (pow256(i as nat) as nat),
        decreases 8 - i,
    {
        proof {
            lemma_pow256_bound(i as nat);
            assert(pow256((i + 1) as nat) == 256 * pow256(i as nat));
            vstd::arithmetic::div_mod::lemma_div_denominator(
                x as int,
                pow256(i as nat),
                256,
            );
            vstd::arithmetic::mul::lemma_mul_is_commutative(pow256(i as nat), 256);
        }
        out.push((y % 256) as u8);
        y = y / 256;
        i = i + 1;
    }
    assert forall|t: int| 0 <= t < out@.len() implies #[trigger] out@[t] == (start + le_bytes(
        x as nat,
    ))[t] by {
        if t >= start.len() {
            assert(out@[start.len() + (t - start.len())] == le_bytes(x as nat)[t - start.len()]);
        }
    }
    assert(out@ =~= start + le_bytes(x as nat));
}

} // verus!
