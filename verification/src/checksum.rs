//! The CRC-32/ISO-HDLC checksum (reflected, polynomial `0xEDB88320`) used
//! for record integrity, with a verified bitwise implementation and the
//! injectivity lemmas behind the checksum-sensitivity law.

use vstd::prelude::*;

verus! {

/// The reflected CRC-32/ISO-HDLC polynomial.
pub const CRC_POLY: u32 = 0xEDB8_8320;

/// The initial and final XOR value of CRC-32/ISO-HDLC.
pub const CRC_INIT: u32 = 0xFFFF_FFFF;

/// One shift step of the bitwise CRC computation.
pub open spec fn crc_step(c: u32) -> u32 {
    if c & 1 == 1 {
        (c >> 1) ^ CRC_POLY
    } else {
        c >> 1
    }
}

/// `n` shift steps of the bitwise CRC computation.
pub open spec fn crc_steps(c: u32, n: nat) -> u32
    decreases n,
{
    if n == 0 {
        c
    } else {
        crc_step(crc_steps(c, (n - 1) as nat))
    }
}

/// Folding one byte into the CRC state: XOR it in, then shift 8 times.
pub open spec fn crc_byte(c: u32, b: u8) -> u32 {
    crc_steps(c ^ (b as u32), 8)
}

/// Folding a whole byte sequence into the CRC state, first byte first.
pub open spec fn crc_acc(c: u32, s: Seq<u8>) -> u32
    decreases s.len(),
{
    if s.len() == 0 {
        c
    } else {
        crc_acc(crc_byte(c, s[0]), s.drop_first())
    }
}

/// The CRC-32/ISO-HDLC checksum of a byte sequence.
pub open spec fn crc32(s: Seq<u8>) -> u32 {
    crc_acc(CRC_INIT, s) ^ CRC_INIT
}

/// Folding `s.push(b)` is folding `s`, then folding `b`.
pub proof fn lemma_crc_acc_push(c: u32, s: Seq<u8>, b: u8)
    ensures
        crc_acc(c, s.push(b)) == crc_byte(crc_acc(c, s), b),
    decreases s.len(),
{
    assert(s.push(b).len() == s.len() + 1);
    if s.len() == 0 {
        assert(s.push(b)[0] == b);
        assert(s.push(b).drop_first() =~= Seq::<u8>::empty());
        assert(crc_acc(c, s.push(b)) == crc_acc(crc_byte(c, b), Seq::<u8>::empty()));
        assert(crc_acc(crc_byte(c, b), Seq::<u8>::empty()) == crc_byte(c, b));
        assert(crc_acc(c, s) == c);
    } else {
        assert(s.push(b)[0] == s[0]);
        assert(s.push(b).drop_first() =~= s.drop_first().push(b));
        lemma_crc_acc_push(crc_byte(c, s[0]), s.drop_first(), b);
        assert(crc_acc(c, s.push(b)) == crc_acc(crc_byte(c, s[0]), s.drop_first().push(b)));
        assert(crc_acc(c, s) == crc_acc(crc_byte(c, s[0]), s.drop_first()));
    }
}

/// Folding a concatenation is folding the parts in order.
pub proof fn lemma_crc_acc_concat(c: u32, s: Seq<u8>, t: Seq<u8>)
    ensures
        crc_acc(c, s + t) == crc_acc(crc_acc(c, s), t),
    decreases s.len(),
{
    if s.len() == 0 {
        assert(s + t =~= t);
    } else {
        assert((s + t)[0] == s[0]);
        assert((s + t).drop_first() =~= s.drop_first() + t);
        lemma_crc_acc_concat(crc_byte(c, s[0]), s.drop_first(), t);
    }
}

/// One shift step is injective: the polynomial's top bit is set, so the
/// result's top bit recovers the shifted-out low bit.
pub proof fn lemma_crc_step_injective(a: u32, b: u32)
    requires
        a != b,
    ensures
        crc_step(a) != crc_step(b),
{
    assert((if a & 1 == 1 {
        (a >> 1) ^ 0xEDB8_8320u32
    } else {
        a >> 1
    }) != (if b & 1 == 1 {
        (b >> 1) ^ 0xEDB8_8320u32
    } else {
        b >> 1
    })) by (bit_vector)
        requires
            a != b,
    ;
}

/// Any number of shift steps is injective.
pub proof fn lemma_crc_steps_injective(a: u32, b: u32, n: nat)
    requires
        a != b,
    ensures
        crc_steps(a, n) != crc_steps(b, n),
    decreases n,
{
    if n > 0 {
        lemma_crc_steps_injective(a, b, (n - 1) as nat);
        lemma_crc_step_injective(crc_steps(a, (n - 1) as nat), crc_steps(b, (n - 1) as nat));
    }
}

/// Folding the same byte into different states keeps the states apart.
pub proof fn lemma_crc_byte_injective_state(c1: u32, c2: u32, b: u8)
    requires
        c1 != c2,
    ensures
        crc_byte(c1, b) != crc_byte(c2, b),
{
    assert(c1 ^ (b as u32) != c2 ^ (b as u32)) by (bit_vector)
        requires
            c1 != c2,
    ;
    lemma_crc_steps_injective(c1 ^ (b as u32), c2 ^ (b as u32), 8);
}

/// Folding different bytes into the same state drives the states apart.
pub proof fn lemma_crc_byte_injective_byte(c: u32, b1: u8, b2: u8)
    requires
        b1 != b2,
    ensures
        crc_byte(c, b1) != crc_byte(c, b2),
{
    assert(c ^ (b1 as u32) != c ^ (b2 as u32)) by (bit_vector)
        requires
            b1 != b2,
    ;
    lemma_crc_steps_injective(c ^ (b1 as u32), c ^ (b2 as u32), 8);
}

/// Folding the same suffix into different states keeps the states apart.
pub proof fn lemma_crc_acc_injective(c1: u32, c2: u32, s: Seq<u8>)
    requires
        c1 != c2,
    ensures
        crc_acc(c1, s) != crc_acc(c2, s),
    decreases s.len(),
{
    if s.len() > 0 {
        lemma_crc_byte_injective_state(c1, c2, s[0]);
        lemma_crc_acc_injective(crc_byte(c1, s[0]), crc_byte(c2, s[0]), s.drop_first());
    }
}

/// Changing any single byte of a sequence changes its CRC-32 checksum.
pub proof fn lemma_crc32_byte_sensitive(s: Seq<u8>, i: int, x: u8)
    requires
        0 <= i < s.len(),
        x != s[i],
    ensures
        crc32(s.update(i, x)) != crc32(s),
{
    let t = s.update(i, x);
    let pre = s.take(i);
    let suf = s.skip(i + 1);
    assert(s =~= pre + (seq![s[i]] + suf));
    assert(t =~= pre + (seq![x] + suf));
    lemma_crc_acc_concat(CRC_INIT, pre, seq![s[i]] + suf);
    lemma_crc_acc_concat(CRC_INIT, pre, seq![x] + suf);
    let mid: u32 = crc_acc(CRC_INIT, pre);
    assert((seq![s[i]] + suf)[0] == s[i]);
    assert((seq![s[i]] + suf).drop_first() =~= suf);
    assert((seq![x] + suf)[0] == x);
    assert((seq![x] + suf).drop_first() =~= suf);
    assert(crc_acc(mid, seq![s[i]] + suf) == crc_acc(crc_byte(mid, s[i]), suf));
    assert(crc_acc(mid, seq![x] + suf) == crc_acc(crc_byte(mid, x), suf));
    lemma_crc_byte_injective_byte(mid, s[i], x);
    lemma_crc_acc_injective(crc_byte(mid, s[i]), crc_byte(mid, x), suf);
    let u: u32 = crc_acc(CRC_INIT, s);
    let v: u32 = crc_acc(CRC_INIT, t);
    assert(u ^ 0xFFFF_FFFFu32 != v ^ 0xFFFF_FFFFu32) by (bit_vector)
        requires
            u != v,
    ;
}

/// Computes the CRC-32/ISO-HDLC checksum of a byte slice.
pub fn crc32_compute(data: &[u8]) -> (r: u32)
    ensures
        r == crc32(data@),
{
    let mut c: u32 = CRC_INIT;
    let mut i: usize = 0;
    while i < data.len()
        invariant
            i <= data@.len(),
            c == crc_acc(CRC_INIT, data@.take(i as int)),
        decreases data@.len() - i,
    {
        let b: u8 = data[i];
        let mut x: u32 = c ^ (b as u32);
        let mut k: usize = 0;
        while k < 8
            invariant
                k <= 8,
                x == crc_steps(c ^ (b as u32), k as nat),
            decreases 8 - k,
        {
            x = if x & 1 == 1 {
                (x >> 1) ^ CRC_POLY
            } else {
                x >> 1
            };
            k = k + 1;
        }
        proof {
            assert(x == crc_byte(c, b));
            lemma_crc_acc_push(CRC_INIT, data@.take(i as int), b);
            assert(data@.take(i as int).push(b) =~= data@.take(i + 1));
        }
        c = x;
        i = i + 1;
    }
    proof {
        assert(data@.take(data@.len() as int) =~= data@);
    }
    c ^ CRC_INIT
}

} // verus!
