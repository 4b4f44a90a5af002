//! Big-endian integers and the other byte-level encodings of the wire formats.

use vstd::prelude::*;

verus! {

/// The two bytes of `v`, most significant first.
pub open spec fn u16_be(v: u16) -> Seq<u8> {
    seq![(v / 256) as u8, (v % 256) as u8]
}

/// The four bytes of `v`, most significant first.
pub open spec fn u32_be(v: u32) -> Seq<u8> {
    seq![
        (v / 16777216) as u8,
        (v / 65536 % 256) as u8,
        (v / 256 % 256) as u8,
        (v % 256) as u8,
    ]
}

/// The big-endian number in the two bytes of `s` from `i` on.
pub open spec fn u16_at(s: Seq<u8>, i: int) -> u16 {
    (s[i] * 256 + s[i + 1]) as u16
}

/// The big-endian number in the four bytes of `s` from `i` on.
pub open spec fn u32_at(s: Seq<u8>, i: int) -> u32 {
    (s[i] * 16777216 + s[i + 1] * 65536 + s[i + 2] * 256 + s[i + 3]) as u32
}

/// 256 to the power of `n`.
pub open spec fn pow256(n: nat) -> nat
    decreases n,
{
    if n == 0 {
        1
    } else {
        256 * pow256((n - 1) as nat)
    }
}

/// The number that the big-endian byte string `s` denotes.
pub open spec fn be_value(s: Seq<u8>) -> nat
    decreases s.len(),
{
    if s.len() == 0 {
        0
    } else {
        256 * be_value(s.drop_last()) + s.last() as nat
    }
}

/// The last `n` base-256 digits of `v`, most significant first.
pub open spec fn be_bytes(v: nat, n: nat) -> Seq<u8>
    decreases n,
{
    if n == 0 {
        Seq::empty()
    } else {
        be_bytes(v / 256, (n - 1) as nat).push((v % 256) as u8)
    }
}

/// `a` with each byte combined by exclusive or with the byte of `mask` in the
/// same place.
pub open spec fn xor_bytes(a: Seq<u8>, mask: Seq<u8>) -> Seq<u8> {
    Seq::new(a.len(), |i: int| a[i] ^ mask[i])
}

/// How many zero bytes follow a value of `n` bytes to reach the next multiple of four.
pub open spec fn padding(n: int) -> int {
    (4 - n % 4) % 4
}

/// `n` zero bytes.
pub open spec fn zeros(n: int) -> Seq<u8> {
    Seq::new(n as nat, |i: int| 0u8)
}

/// Reading back the two bytes of a number gives the number.
pub proof fn u16_round_trip(v: u16)
    ensures
        u16_be(v).len() == 2,
        u16_at(u16_be(v), 0) == v,
{
}

/// Reading back the four bytes of a number gives the number.
pub proof fn u32_round_trip(v: u32)
    ensures
        u32_be(v).len() == 4,
        u32_at(u32_be(v), 0) == v,
{
}

/// The digits of a number that fits in `n` bytes denote that number.
pub proof fn be_round_trip(v: nat, n: nat)
    requires
        v < pow256(n),
    ensures
        be_bytes(v, n).len() == n,
        be_value(be_bytes(v, n)) == v,
    decreases n,
{
    if n > 0 {
        be_round_trip(v / 256, (n - 1) as nat);
        assert(be_bytes(v, n).drop_last() =~= be_bytes(v / 256, (n - 1) as nat));
    }
}

/// A byte string denotes less than 256 to the power of its length.
pub proof fn be_value_bound(s: Seq<u8>)
    ensures
        be_value(s) < pow256(s.len()),
    decreases s.len(),
{
    if s.len() > 0 {
        be_value_bound(s.drop_last());
    }
}

pub proof fn pow256_monotone(a: nat, b: nat)
    requires
        a <= b,
    ensures
        0 < pow256(a) <= pow256(b),
    decreases b,
{
    if a < b {
        pow256_monotone(a, (b - 1) as nat);
    } else if a > 0 {
        pow256_monotone((a - 1) as nat, (b - 1) as nat);
    }
}

pub proof fn pow256_of_16()
    ensures
        pow256(16) == 0x1_0000_0000_0000_0000_0000_0000_0000_0000nat,
{
    assert(pow256(0) == 1);
    assert(pow256(1) == 256);
    assert(pow256(2) == 0x1_0000);
    assert(pow256(3) == 0x100_0000);
    assert(pow256(4) == 0x1_0000_0000);
    assert(pow256(5) == 0x100_0000_0000);
    assert(pow256(6) == 0x1_0000_0000_0000);
    assert(pow256(7) == 0x100_0000_0000_0000);
    assert(pow256(8) == 0x1_0000_0000_0000_0000);
    assert(pow256(9) == 0x100_0000_0000_0000_0000);
    assert(pow256(10) == 0x1_0000_0000_0000_0000_0000);
    assert(pow256(11) == 0x100_0000_0000_0000_0000_0000);
    assert(pow256(12) == 0x1_0000_0000_0000_0000_0000_0000);
    assert(pow256(13) == 0x100_0000_0000_0000_0000_0000_0000);
    assert(pow256(14) == 0x1_0000_0000_0000_0000_0000_0000_0000);
    assert(pow256(15) == 0x100_0000_0000_0000_0000_0000_0000_0000);
}

/// Applying a mask twice gives back the original bytes.
pub proof fn xor_bytes_involution(a: Seq<u8>, mask: Seq<u8>)
    requires
        a.len() <= mask.len(),
    ensures
        xor_bytes(xor_bytes(a, mask), mask) == a,
{
    assert forall|i: int| 0 <= i < a.len() implies (a[i] ^ mask[i]) ^ mask[i] == a[i] by {
        let x = a[i];
        let m = mask[i];
        assert((x ^ m) ^ m == x) by (bit_vector);
    }
    assert(xor_bytes(xor_bytes(a, mask), mask) =~= a);
}

pub fn read_u16(s: &[u8], i: usize) -> (v: u16)
    requires
        i + 2 <= s@.len(),
    ensures
        v == u16_at(s@, i as int),
{
    s[i] as u16 * 256 + s[i + 1] as u16
}

pub fn read_u32(s: &[u8], i: usize) -> (v: u32)
    requires
        i + 4 <= s@.len(),
    ensures
        v == u32_at(s@, i as int),
{
    s[i] as u32 * 16777216 + s[i + 1] as u32 * 65536 + s[i + 2] as u32 * 256 + s[i + 3] as u32
}

/// Appends the two bytes of `v`.
pub fn push_u16(buf: &mut Vec<u8>, v: u16)
    ensures
        final(buf)@ == old(buf)@ + u16_be(v),
{
    buf.push((v / 256) as u8);
    buf.push((v % 256) as u8);
}

/// Appends the four bytes of `v`.
pub fn push_u32(buf: &mut Vec<u8>, v: u32)
    ensures
        final(buf)@ == old(buf)@ + u32_be(v),
{
    buf.push((v / 16777216) as u8);
    buf.push((v / 65536 % 256) as u8);
    buf.push((v / 256 % 256) as u8);
    buf.push((v % 256) as u8);
}

/// Appends `data`.
pub fn push_bytes(buf: &mut Vec<u8>, data: &[u8])
    ensures
        final(buf)@ == old(buf)@ + data@,
{
    buf.extend_from_slice(data);
    assert(buf@ =~= old(buf)@ + data@);
}

/// Appends the zero bytes that a value of `n` bytes is padded with.
pub fn push_padding(buf: &mut Vec<u8>, n: usize)
    ensures
        final(buf)@ == old(buf)@ + zeros(padding(n as int)),
{
    let count: usize = (4 - n % 4) % 4;
    let mut i: usize = 0;
    while i < count
        invariant
            i <= count,
            count == padding(n as int),
            buf@ == old(buf)@ + zeros(i as int),
        decreases count - i,
    {
        buf.push(0);
        i = i + 1;
        assert(buf@ =~= old(buf)@ + zeros(i as int));
    }
}

/// Overwrites bytes 2 and 3, the length field of a STUN header, with `v`.
pub fn set_length(buf: &mut Vec<u8>, v: u16)
    requires
        old(buf)@.len() >= 4,
    ensures
        final(buf)@ == old(buf)@.update(2, u16_be(v)[0]).update(3, u16_be(v)[1]),
{
    buf.set(2, (v / 256) as u8);
    buf.set(3, (v % 256) as u8);
}

/// The number modulo 65536, the way a 16-bit length field holds it.
pub fn low16(n: usize) -> (v: u16)
    ensures
        v == n % 65536,
{
    (n % 65536) as u16
}

/// The number `n + k` modulo 65536, even where `n + k` itself is out of range.
pub fn low16_sum(n: usize, k: u16) -> (v: u16)
    ensures
        v == (n + k) % 65536,
{
    let r: u32 = (n % 65536) as u32 + k as u32;
    let v: u16 = (r % 65536) as u16;
    proof {
        vstd::arithmetic::div_mod::lemma_add_mod_noop(n as int, k as int, 65536);
        vstd::arithmetic::div_mod::lemma_add_mod_noop(n as int % 65536, k as int, 65536);
        vstd::arithmetic::div_mod::lemma_mod_twice(n as int, 65536);
    }
    v
}

/// The big-endian number in sixteen bytes of `s` from `i` on.
pub fn read_u128(s: &[u8], i: usize) -> (v: u128)
    requires
        i + 16 <= s@.len(),
    ensures
        v == be_value(s@.subrange(i as int, i + 16)),
{
    let n: usize = s.len();
    let mut v: u128 = 0;
    let mut k: usize = 0;
    assert(s@.subrange(i as int, i as int) =~= Seq::<u8>::empty());
    while k < 16
        invariant
            k <= 16,
            n == s@.len(),
            i + 16 <= n,
            v == be_value(s@.subrange(i as int, i + k)),
        decreases 16 - k,
    {
        proof {
            let head = s@.subrange(i as int, i + k);
            let next = s@.subrange(i as int, i + k + 1);
            assert(next.drop_last() =~= head);
            be_value_bound(next);
            pow256_monotone((k + 1) as nat, 16);
            pow256_of_16();
        }
        v = 256 * v + s[i + k] as u128;
        k = k + 1;
    }
    v
}

/// The last `n` base-256 digits of `v`, most significant first.
pub fn octets(v: u128, n: usize) -> (out: Vec<u8>)
    ensures
        out@ == be_bytes(v as nat, n as nat),
        out@.len() == n,
{
    let mut out: Vec<u8> = Vec::new();
    out.resize(n, 0u8);
    let mut rest: u128 = v;
    let mut i: usize = n;
    while i > 0
        invariant
            i <= n,
            out@.len() == n,
            be_bytes(v as nat, n as nat) == be_bytes(rest as nat, i as nat) + out@.subrange(
                i as int,
                n as int,
            ),
        decreases i,
    {
        let ghost tail = out@.subrange(i as int, n as int);
        i = i - 1;
        out.set(i, (rest % 256) as u8);
        proof {
            assert(out@.subrange(i as int, n as int) =~= seq![(rest % 256) as u8] + tail);
            assert(be_bytes(rest as nat, (i + 1) as nat) + tail =~= be_bytes(
                (rest / 256) as nat,
                i as nat,
            ) + (seq![(rest % 256) as u8] + tail));
        }
        rest = rest / 256;
    }
    assert(out@.subrange(0, n as int) =~= out@);
    assert(be_bytes(v as nat, n as nat) =~= out@);
    out
}

} // verus!
