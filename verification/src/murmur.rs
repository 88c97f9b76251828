use vstd::prelude::*;

verus! {

pub const C1: u32 = 0xcc9e2d51;
pub const C2: u32 = 0x1b873593;

/// `x` rotated left by `r` bits, for `0 < r < 32`.
pub open spec fn rotl(x: u32, r: u32) -> u32 {
    (x << r) | (x >> ((32 - r) as u32))
}

/// A 4-byte block mixed before it enters the hash.
pub open spec fn scramble(k: u32) -> u32 {
    rotl(k.wrapping_mul(C1), 15).wrapping_mul(C2)
}

/// The little-endian 32-bit word at block `i` of `data`.
pub open spec fn block_word(data: Seq<u8>, i: int) -> u32 {
    (data[4 * i] as u32) | ((data[4 * i + 1] as u32) << 8u32) | ((data[4 * i + 2] as u32) << 16u32) | ((
    data[4 * i + 3] as u32) << 24u32)
}

/// The hash state after the first `n` whole blocks of `data`.
pub open spec fn mix_blocks(seed: u32, data: Seq<u8>, n: nat) -> u32
    decreases n,
{
    if n == 0 {
        seed
    } else {
        let h = mix_blocks(seed, data, (n - 1) as nat) ^ scramble(block_word(data, n - 1));
        rotl(h, 13).wrapping_mul(5).wrapping_add(0xe6546b64)
    }
}

/// The last `data.len() % 4` bytes of `data` as a little-endian word.
pub open spec fn tail_word(data: Seq<u8>) -> u32 {
    let base = 4 * (data.len() / 4) as int;
    let rem = data.len() % 4;
    let k2: u32 = if rem >= 3 { (data[base + 2] as u32) << 16u32 } else { 0 };
    let k1: u32 = if rem >= 2 { k2 ^ ((data[base + 1] as u32) << 8u32) } else { k2 };
    if rem >= 1 { k1 ^ (data[base] as u32) } else { k1 }
}

/// The final avalanche of the hash.
pub open spec fn fmix(h: u32) -> u32 {
    let h1 = h ^ (h >> 16u32);
    let h2 = h1.wrapping_mul(0x85ebca6b);
    let h3 = h2 ^ (h2 >> 13u32);
    let h4 = h3.wrapping_mul(0xc2b2ae35);
    h4 ^ (h4 >> 16u32)
}

/// The 32-bit MurmurHash3 (x86 variant) of `data` with `seed`.
pub open spec fn murmur3_32(data: Seq<u8>, seed: u32) -> u32 {
    let h = mix_blocks(seed, data, data.len() / 4);
    let h = if data.len() % 4 != 0 {
        h ^ scramble(tail_word(data))
    } else {
        h
    };
    fmix(h ^ (data.len() as u32))
}

proof fn lemma_mul_mod(x: u32, c: u32)
    ensures
        x.wrapping_mul(c) == (x * c) as u32,
{
    assert(((x as nat * c as nat) % 0x1_0000_0000) as u32 == (x * c) as u32) by (bit_vector);
}

/// Multiplying by one of the hash's odd constants loses nothing.
proof fn lemma_mul_undone(x: u32)
    ensures
        x.wrapping_mul(C1).wrapping_mul(0xdee13bb1) == x,
        x.wrapping_mul(C2).wrapping_mul(0x56ed309b) == x,
        x.wrapping_mul(5).wrapping_mul(0xcccccccd) == x,
        x.wrapping_mul(0x85ebca6b).wrapping_mul(0xa5cb9243) == x,
        x.wrapping_mul(0xc2b2ae35).wrapping_mul(0x7ed1b41d) == x,
{
    lemma_mul_mod(x, C1);
    lemma_mul_mod(x.wrapping_mul(C1), 0xdee13bb1);
    assert(((x * 0xcc9e2d51u32) as u32 * 0xdee13bb1u32) as u32 == x) by (bit_vector);
    lemma_mul_mod(x, C2);
    lemma_mul_mod(x.wrapping_mul(C2), 0x56ed309b);
    assert(((x * 0x1b873593u32) as u32 * 0x56ed309bu32) as u32 == x) by (bit_vector);
    lemma_mul_mod(x, 5);
    lemma_mul_mod(x.wrapping_mul(5), 0xcccccccd);
    assert(((x * 5u32) as u32 * 0xcccccccdu32) as u32 == x) by (bit_vector);
    lemma_mul_mod(x, 0x85ebca6b);
    lemma_mul_mod(x.wrapping_mul(0x85ebca6b), 0xa5cb9243);
    assert(((x * 0x85ebca6bu32) as u32 * 0xa5cb9243u32) as u32 == x) by (bit_vector);
    lemma_mul_mod(x, 0xc2b2ae35);
    lemma_mul_mod(x.wrapping_mul(0xc2b2ae35), 0x7ed1b41d);
    assert(((x * 0xc2b2ae35u32) as u32 * 0x7ed1b41du32) as u32 == x) by (bit_vector);
}

/// Each step of the block mix can be undone: distinct inputs stay distinct.
proof fn lemma_steps_injective(a: u32, b: u32)
    ensures
        rotl(a, 13) == rotl(b, 13) ==> a == b,
        rotl(a, 15) == rotl(b, 15) ==> a == b,
        a.wrapping_mul(5) == b.wrapping_mul(5) ==> a == b,
        a.wrapping_mul(C1) == b.wrapping_mul(C1) ==> a == b,
        a.wrapping_mul(C2) == b.wrapping_mul(C2) ==> a == b,
        a.wrapping_mul(0x85ebca6b) == b.wrapping_mul(0x85ebca6b) ==> a == b,
        a.wrapping_mul(0xc2b2ae35) == b.wrapping_mul(0xc2b2ae35) ==> a == b,
        a.wrapping_add(0xe6546b64) == b.wrapping_add(0xe6546b64) ==> a == b,
        (a ^ (a >> 16u32)) == (b ^ (b >> 16u32)) ==> a == b,
        (a ^ (a >> 13u32)) == (b ^ (b >> 13u32)) ==> a == b,
        scramble(a) == scramble(b) ==> a == b,
{
    assert(((a << 13u32) | (a >> 19u32)) == ((b << 13u32) | (b >> 19u32)) ==> a == b)
        by (bit_vector);
    assert(((a << 15u32) | (a >> 17u32)) == ((b << 15u32) | (b >> 17u32)) ==> a == b)
        by (bit_vector);
    assert((a ^ (a >> 16u32)) == (b ^ (b >> 16u32)) ==> a == b) by (bit_vector);
    assert((a ^ (a >> 13u32)) == (b ^ (b >> 13u32)) ==> a == b) by (bit_vector);
    lemma_mul_undone(a);
    lemma_mul_undone(b);
    let ma = a.wrapping_mul(C1);
    let mb = b.wrapping_mul(C1);
    lemma_mul_undone(rotl(ma, 15));
    lemma_mul_undone(rotl(mb, 15));
    assert(((ma << 15u32) | (ma >> 17u32)) == ((mb << 15u32) | (mb >> 17u32)) ==> ma == mb)
        by (bit_vector);
}

/// The little-endian word of a block determines the block's four bytes.
proof fn lemma_block_word_injective(d1: Seq<u8>, d2: Seq<u8>, i: int)
    requires
        0 <= i,
        4 * i + 4 <= d1.len(),
        4 * i + 4 <= d2.len(),
        block_word(d1, i) == block_word(d2, i),
    ensures
        d1[4 * i] == d2[4 * i],
        d1[4 * i + 1] == d2[4 * i + 1],
        d1[4 * i + 2] == d2[4 * i + 2],
        d1[4 * i + 3] == d2[4 * i + 3],
{
    let (a0, a1, a2, a3) = (d1[4 * i], d1[4 * i + 1], d1[4 * i + 2], d1[4 * i + 3]);
    let (b0, b1, b2, b3) = (d2[4 * i], d2[4 * i + 1], d2[4 * i + 2], d2[4 * i + 3]);
    assert(((a0 as u32) | ((a1 as u32) << 8u32) | ((a2 as u32) << 16u32) | ((a3 as u32) << 24u32))
        == ((b0 as u32) | ((b1 as u32) << 8u32) | ((b2 as u32) << 16u32) | ((b3 as u32) << 24u32))
        ==> a0 == b0 && a1 == b1 && a2 == b2 && a3 == b3) by (bit_vector);
}

proof fn lemma_xor_cancel(a: u32, b: u32, c: u32)
    ensures
        (a ^ c) == (b ^ c) ==> a == b,
        (c ^ a) == (c ^ b) ==> a == b,
{
    assert((a ^ c) == (b ^ c) ==> a == b) by (bit_vector);
    assert((c ^ a) == (c ^ b) ==> a == b) by (bit_vector);
}

proof fn lemma_mix_same_prefix(seed: u32, d1: Seq<u8>, d2: Seq<u8>, n: nat)
    requires
        4 * n <= d1.len(),
        4 * n <= d2.len(),
        forall|i: int| 0 <= i < 4 * n ==> d1[i] == d2[i],
    ensures
        mix_blocks(seed, d1, n) == mix_blocks(seed, d2, n),
    decreases n,
{
    if n > 0 {
        lemma_mix_same_prefix(seed, d1, d2, (n - 1) as nat);
        let m: int = n - 1;
        assert(d1[4 * m] == d2[4 * m] && d1[4 * m + 1] == d2[4 * m + 1]
            && d1[4 * m + 2] == d2[4 * m + 2] && d1[4 * m + 3] == d2[4 * m + 3]);
        assert(block_word(d1, m) == block_word(d2, m));
    }
}

proof fn lemma_mix_apart(seed: u32, d1: Seq<u8>, d2: Seq<u8>, j: int, n: nat)
    requires
        d1.len() == d2.len(),
        0 <= j,
        4 * j + 4 <= 4 * n <= d1.len(),
        forall|i: int| 0 <= i < d1.len() && !(4 * j <= i < 4 * j + 4) ==> d1[i] == d2[i],
        exists|i: int| 4 * j <= i < 4 * j + 4 && d1[i] != d2[i],
    ensures
        mix_blocks(seed, d1, n) != mix_blocks(seed, d2, n),
    decreases n,
{
    let m = (n - 1) as nat;
    let w1 = block_word(d1, m as int);
    let w2 = block_word(d2, m as int);
    let h1 = mix_blocks(seed, d1, m);
    let h2 = mix_blocks(seed, d2, m);
    if m == j {
        lemma_mix_same_prefix(seed, d1, d2, m);
        if w1 == w2 {
            lemma_block_word_injective(d1, d2, j);
            let k = choose|i: int| 4 * j <= i < 4 * j + 4 && d1[i] != d2[i];
            assert(false);
        }
        lemma_steps_injective(w1, w2);
        assert(scramble(w1) != scramble(w2));
        lemma_xor_cancel(scramble(w1), scramble(w2), h1);
    } else {
        lemma_mix_apart(seed, d1, d2, j, m);
        let b: int = 4 * (m as int);
        assert(d1[b] == d2[b] && d1[b + 1] == d2[b + 1] && d1[b + 2] == d2[b + 2] && d1[b + 3]
            == d2[b + 3]);
        assert(w1 == w2);
        lemma_xor_cancel(h1, h2, scramble(w1));
    }
    let x1 = h1 ^ scramble(w1);
    let x2 = h2 ^ scramble(w2);
    assert(x1 != x2);
    lemma_steps_injective(x1, x2);
    lemma_steps_injective(rotl(x1, 13), rotl(x2, 13));
    lemma_steps_injective(rotl(x1, 13).wrapping_mul(5), rotl(x2, 13).wrapping_mul(5));
}

/// The final avalanche loses nothing: distinct states give distinct hashes.
proof fn lemma_fmix_injective(f1: u32, f2: u32)
    requires
        f1 != f2,
    ensures
        fmix(f1) != fmix(f2),
{
    let p1 = f1 ^ (f1 >> 16u32);
    let p2 = f2 ^ (f2 >> 16u32);
    lemma_steps_injective(f1, f2);
    let q1 = p1.wrapping_mul(0x85ebca6b);
    let q2 = p2.wrapping_mul(0x85ebca6b);
    lemma_steps_injective(p1, p2);
    let r1 = q1 ^ (q1 >> 13u32);
    let r2 = q2 ^ (q2 >> 13u32);
    lemma_steps_injective(q1, q2);
    let s1 = r1.wrapping_mul(0xc2b2ae35);
    let s2 = r2.wrapping_mul(0xc2b2ae35);
    lemma_steps_injective(r1, r2);
    lemma_steps_injective(s1, s2);
}

/// Two keys of the same length that differ only within one whole 4-byte block
/// hash differently, for every seed: every block of the key is mixed into the
/// hash, whatever its position.
pub proof fn lemma_one_block_changes_hash(d1: Seq<u8>, d2: Seq<u8>, j: int, seed: u32)
    requires
        d1.len() == d2.len(),
        0 <= j,
        4 * j + 4 <= d1.len(),
        forall|i: int| 0 <= i < d1.len() && !(4 * j <= i < 4 * j + 4) ==> d1[i] == d2[i],
        exists|i: int| 4 * j <= i < 4 * j + 4 && d1[i] != d2[i],
    ensures
        murmur3_32(d1, seed) != murmur3_32(d2, seed),
{
    let n = d1.len() / 4;
    lemma_mix_apart(seed, d1, d2, j, n);
    let h1 = mix_blocks(seed, d1, n);
    let h2 = mix_blocks(seed, d2, n);
    let base = 4 * n;
    assert forall|i: int| base <= i < d1.len() implies d1[i] == d2[i] by {}
    assert(tail_word(d1) == tail_word(d2));
    let t = scramble(tail_word(d1));
    let g1 = if d1.len() % 4 != 0 { h1 ^ t } else { h1 };
    let g2 = if d2.len() % 4 != 0 { h2 ^ t } else { h2 };
    lemma_xor_cancel(h1, h2, t);
    assert(g1 != g2);
    let l = #[verifier::truncate] (d1.len() as u32);
    let f1 = g1 ^ l;
    let f2 = g2 ^ l;
    lemma_xor_cancel(g1, g2, l);
    lemma_fmix_injective(f1, f2);
}

/// Two keys of the same length that differ only in the bytes after the last
/// whole 4-byte block hash differently, for every seed: the trailing bytes are
/// mixed into the hash too.
pub proof fn lemma_tail_changes_hash(d1: Seq<u8>, d2: Seq<u8>, seed: u32)
    requires
        d1.len() == d2.len(),
        forall|i: int| 0 <= i < 4 * (d1.len() / 4) ==> d1[i] == d2[i],
        exists|i: int| 4 * (d1.len() / 4) <= i < d1.len() && d1[i] != d2[i],
    ensures
        murmur3_32(d1, seed) != murmur3_32(d2, seed),
{
    let n = d1.len() / 4;
    let base: int = 4 * (n as int);
    let rem = d1.len() % 4;
    lemma_mix_same_prefix(seed, d1, d2, n);
    let h = mix_blocks(seed, d1, n);
    let t1 = tail_word(d1);
    let t2 = tail_word(d2);
    assert(t1 != t2) by {
        let k = choose|i: int| base <= i < d1.len() && d1[i] != d2[i];
        let (a0, a1, a2) = (d1[base], d1[base + 1], d1[base + 2]);
        let (b0, b1, b2) = (d2[base], d2[base + 1], d2[base + 2]);
        assert(k == base || k == base + 1 || k == base + 2);
        if rem == 1 {
            assert(t1 == 0u32 ^ (a0 as u32) && t2 == 0u32 ^ (b0 as u32));
            assert((0u32 ^ (a0 as u32)) == (0u32 ^ (b0 as u32)) ==> a0 == b0) by (bit_vector);
        } else if rem == 2 {
            assert(t1 == (0u32 ^ ((a1 as u32) << 8u32)) ^ (a0 as u32));
            assert(t2 == (0u32 ^ ((b1 as u32) << 8u32)) ^ (b0 as u32));
            assert(((0u32 ^ ((a1 as u32) << 8u32)) ^ (a0 as u32)) == ((0u32 ^ ((b1 as u32)
                << 8u32)) ^ (b0 as u32)) ==> a0 == b0 && a1 == b1) by (bit_vector);
        } else {
            assert(t1 == (((a2 as u32) << 16u32) ^ ((a1 as u32) << 8u32)) ^ (a0 as u32));
            assert(t2 == (((b2 as u32) << 16u32) ^ ((b1 as u32) << 8u32)) ^ (b0 as u32));
            assert(((((a2 as u32) << 16u32) ^ ((a1 as u32) << 8u32)) ^ (a0 as u32)) == ((((
            b2 as u32) << 16u32) ^ ((b1 as u32) << 8u32)) ^ (b0 as u32)) ==> a0 == b0 && a1 == b1
                && a2 == b2) by (bit_vector);
        }
    }
    lemma_steps_injective(t1, t2);
    lemma_xor_cancel(scramble(t1), scramble(t2), h);
    let g1 = h ^ scramble(t1);
    let g2 = h ^ scramble(t2);
    let l = #[verifier::truncate] (d1.len() as u32);
    lemma_xor_cancel(g1, g2, l);
    lemma_fmix_injective(g1 ^ l, g2 ^ l);
}

fn rotl_exec(x: u32, r: u32) -> (y: u32)
    requires
        0 < r < 32,
    ensures
        y == rotl(x, r),
{
    (x << r) | (x >> (32 - r))
}

fn scramble_exec(k: u32) -> (s: u32)
    ensures
        s == scramble(k),
{
    rotl_exec(k.wrapping_mul(C1), 15).wrapping_mul(C2)
}

/// Computes the 32-bit MurmurHash3 (x86 variant) of `data` with `seed`.
pub fn murmur3(data: &[u8], seed: u32) -> (hash: u32)
    ensures
        hash == murmur3_32(data@, seed),
{
    let len = data.len();
    let nblocks = len / 4;
    let mut h = seed;
    let mut i: usize = 0;
    while i < nblocks
        invariant
            len == data@.len(),
            nblocks == len / 4,
            i <= nblocks,
            h == mix_blocks(seed, data@, i as nat),
        decreases nblocks - i,
    {
        let b = 4 * i;
        let k = (data[b] as u32) | ((data[b + 1] as u32) << 8u32) | ((data[b + 2] as u32) << 16u32)
            | ((data[b + 3] as u32) << 24u32);
        assert(k == block_word(data@, i as int));
        h = h ^ scramble_exec(k);
        h = rotl_exec(h, 13).wrapping_mul(5).wrapping_add(0xe6546b64);
        i += 1;
    }
    let base = 4 * nblocks;
    let rem = len % 4;
    let k2: u32 = if rem >= 3 { (data[base + 2] as u32) << 16u32 } else { 0 };
    let k1: u32 = if rem >= 2 { k2 ^ ((data[base + 1] as u32) << 8u32) } else { k2 };
    let k0: u32 = if rem >= 1 { k1 ^ (data[base] as u32) } else { k1 };
    assert(k0 == tail_word(data@));
    if rem != 0 {
        h = h ^ scramble_exec(k0);
    }
    h = h ^ (len as u32);
    h = h ^ (h >> 16u32);
    h = h.wrapping_mul(0x85ebca6b);
    h = h ^ (h >> 13u32);
    h = h.wrapping_mul(0xc2b2ae35);
    h = h ^ (h >> 16u32);
    h
}

} // verus!
