//! CRC-32 (IEEE 802.3 / zlib) computed byte by byte through a lookup table,
//! proved equal to the bit-by-bit definition.

use vstd::prelude::*;

verus! {

/// One bit of the reflected CRC-32 division (IEEE 802.3 polynomial `0xEDB88320`).
pub open spec fn crc_bit_step(c: u32) -> u32 {
    if c & 1 != 0 {
        0xEDB8_8320u32 ^ (c >> 1u32)
    } else {
        c >> 1u32
    }
}

/// `n` bit steps applied to `c`.
pub open spec fn crc_bit_steps(c: u32, n: nat) -> u32
    decreases n,
{
    if n == 0 {
        c
    } else {
        crc_bit_step(crc_bit_steps(c, (n - 1) as nat))
    }
}

/// The CRC register after one more input byte: the byte is folded into the
/// low bits and eight bit steps are taken.
pub open spec fn crc_byte_step(crc: u32, b: u8) -> u32 {
    crc_bit_steps(crc ^ (b as u32), 8)
}

/// The CRC register after all of `data`, starting from all ones.
pub open spec fn crc_register(data: Seq<u8>) -> u32
    decreases data.len(),
{
    if data.len() == 0 {
        0xFFFF_FFFFu32
    } else {
        crc_byte_step(crc_register(data.drop_last()), data.last())
    }
}

/// Standard CRC-32 (IEEE 802.3 / zlib) of `data`: the final register, inverted.
pub open spec fn spec_crc32(data: Seq<u8>) -> u32 {
    crc_register(data) ^ 0xFFFF_FFFFu32
}

/// The lookup-table entry for byte value `i`.
pub open spec fn crc_table_entry(i: int) -> u32 {
    crc_bit_steps(i as u32, 8)
}

spec fn eight_bit_steps(c: u32) -> u32 {
    crc_bit_step(
        crc_bit_step(
            crc_bit_step(
                crc_bit_step(crc_bit_step(crc_bit_step(crc_bit_step(crc_bit_step(c)))))
            ),
        ),
    )
}

proof fn lemma_eight_bit_steps(c: u32)
    ensures
        crc_bit_steps(c, 8) == eight_bit_steps(c),
{
    reveal_with_fuel(crc_bit_steps, 9);
}

/// Eight bit steps over `crc ^ b` only depend on the low byte through the
/// table, and shift the rest of the register down by a byte.
proof fn lemma_table_step(crc: u32, b: u8)
    ensures
        ((crc ^ (b as u32)) & 0xFFu32) < 256,
        crc_byte_step(crc, b) == crc_table_entry(((crc ^ (b as u32)) & 0xFFu32) as int) ^ (crc >> 8u32),
{
    let x: u32 = crc ^ (b as u32);
    let y: u32 = x & 0xFFu32;
    lemma_eight_bit_steps(x);
    lemma_eight_bit_steps(y);
    assert(y < 256) by (bit_vector)
        requires
            y == x & 0xFFu32,
    ;
    assert(eight_bit_steps(x) == eight_bit_steps(y) ^ (crc >> 8u32)) by (bit_vector)
        requires
            x == crc ^ (b as u32),
            y == x & 0xFFu32,
    ;
}

/// The 256-entry lookup table of the byte-at-a-time CRC-32.
fn build_crc32_table() -> (table: Vec<u32>)
    ensures
        table@.len() == 256,
        forall|i: int| 0 <= i < 256 ==> #[trigger] table@[i] == crc_table_entry(i),
{
    let mut table: Vec<u32> = Vec::new();
    let mut i: u32 = 0;
    while i < 256
        invariant
            i <= 256,
            table@.len() == i,
            forall|k: int| 0 <= k < i ==> #[trigger] table@[k] == crc_table_entry(k),
        decreases 256 - i,
    {
        let mut c: u32 = i;
        let mut j: u32 = 0;
        while j < 8
            invariant
                j <= 8,
                c == crc_bit_steps(i, j as nat),
            decreases 8 - j,
        {
            c = if c & 1 != 0 {
                0xEDB8_8320u32 ^ (c >> 1u32)
            } else {
                c >> 1u32
            };
            j += 1;
        }
        table.push(c);
        i += 1;
    }
    table
}

/// Computes the standard CRC-32 (IEEE 802.3) of a buffer.
pub fn crc32(data: &[u8]) -> (r: u32)
    ensures
        r == spec_crc32(data@),
{
    let table = build_crc32_table();
    let mut crc: u32 = 0xFFFF_FFFF;
    let n = data.len();
    let mut k: usize = 0;
    assert(data@.take(0) =~= Seq::<u8>::empty());
    while k < n
        invariant
            n == data@.len(),
            k <= n,
            table@.len() == 256,
            forall|i: int| 0 <= i < 256 ==> #[trigger] table@[i] == crc_table_entry(i),
            crc == crc_register(data@.take(k as int)),
        decreases n - k,
    {
        let byte = data[k];
        proof {
            lemma_table_step(crc, byte);
            assert(data@.take(k + 1).drop_last() =~= data@.take(k as int));
        }
        let index = ((crc ^ byte as u32) & 0xFF) as usize;
        crc = table[index] ^ (crc >> 8);
        k += 1;
    }
    assert(data@.take(n as int) =~= data@);
    crc ^ 0xFFFF_FFFF
}


proof fn lemma_bit_step_injective(a: u32, b: u32)
    ensures
        crc_bit_step(a) == crc_bit_step(b) ==> a == b,
{
    assert((if a & 1 != 0 {
        0xEDB8_8320u32 ^ (a >> 1u32)
    } else {
        a >> 1u32
    }) == (if b & 1 != 0 {
        0xEDB8_8320u32 ^ (b >> 1u32)
    } else {
        b >> 1u32
    }) ==> a == b) by (bit_vector);
}

proof fn lemma_bit_steps_injective(a: u32, b: u32, n: nat)
    ensures
        crc_bit_steps(a, n) == crc_bit_steps(b, n) ==> a == b,
    decreases n,
{
    if n > 0 {
        lemma_bit_step_injective(crc_bit_steps(a, (n - 1) as nat), crc_bit_steps(b, (n - 1) as nat));
        lemma_bit_steps_injective(a, b, (n - 1) as nat);
    }
}

/// Two different registers stay different after the same bytes.
proof fn lemma_register_suffix_injective(s1: Seq<u8>, s2: Seq<u8>, t: Seq<u8>)
    requires
        crc_register(s1) != crc_register(s2),
    ensures
        crc_register(s1 + t) != crc_register(s2 + t),
    decreases t.len(),
{
    if t.len() == 0 {
        assert(s1 + t =~= s1);
        assert(s2 + t =~= s2);
    } else {
        lemma_register_suffix_injective(s1, s2, t.drop_last());
        assert((s1 + t).drop_last() =~= s1 + t.drop_last());
        assert((s2 + t).drop_last() =~= s2 + t.drop_last());
        let r1 = crc_register(s1 + t.drop_last());
        let r2 = crc_register(s2 + t.drop_last());
        let b = t.last();
        lemma_bit_steps_injective(r1 ^ (b as u32), r2 ^ (b as u32), 8);
        assert(r1 != r2 ==> (r1 ^ (b as u32)) != (r2 ^ (b as u32))) by (bit_vector);
    }
}

/// Changing one byte of the data changes its CRC-32: every single-byte error
/// is detected.
pub proof fn lemma_crc32_detects_byte_change(data: Seq<u8>, k: int, v: u8)
    requires
        0 <= k < data.len(),
        data[k] != v,
    ensures
        spec_crc32(data.update(k, v)) != spec_crc32(data),
{
    let a = data.take(k);
    let t = data.skip(k + 1);
    let x = data[k];
    let s1 = a.push(x);
    let s2 = a.push(v);
    assert(s1.drop_last() =~= a);
    assert(s2.drop_last() =~= a);
    let r = crc_register(a);
    lemma_bit_steps_injective(r ^ (x as u32), r ^ (v as u32), 8);
    assert(x != v ==> (r ^ (x as u32)) != (r ^ (v as u32))) by (bit_vector);
    lemma_register_suffix_injective(s1, s2, t);
    assert(s1 + t =~= data);
    assert(s2 + t =~= data.update(k, v));
    let c1 = crc_register(data);
    let c2 = crc_register(data.update(k, v));
    assert(c1 != c2 ==> (c1 ^ 0xFFFF_FFFFu32) != (c2 ^ 0xFFFF_FFFFu32)) by (bit_vector);
}

proof fn lemma_bit_step_linear(a: u32, b: u32)
    ensures
        crc_bit_step(a ^ b) == crc_bit_step(a) ^ crc_bit_step(b),
{
    assert((if (a ^ b) & 1 != 0 {
        0xEDB8_8320u32 ^ ((a ^ b) >> 1u32)
    } else {
        (a ^ b) >> 1u32
    }) == (if a & 1 != 0 {
        0xEDB8_8320u32 ^ (a >> 1u32)
    } else {
        a >> 1u32
    }) ^ (if b & 1 != 0 {
        0xEDB8_8320u32 ^ (b >> 1u32)
    } else {
        b >> 1u32
    })) by (bit_vector);
}

proof fn lemma_bit_steps_linear(a: u32, b: u32, n: nat)
    ensures
        crc_bit_steps(a ^ b, n) == crc_bit_steps(a, n) ^ crc_bit_steps(b, n),
    decreases n,
{
    if n > 0 {
        lemma_bit_steps_linear(a, b, (n - 1) as nat);
        lemma_bit_step_linear(crc_bit_steps(a, (n - 1) as nat), crc_bit_steps(b, (n - 1) as nat));
    }
}

proof fn lemma_bit_steps_zero(n: nat)
    ensures
        crc_bit_steps(0, n) == 0,
    decreases n,
{
    if n > 0 {
        lemma_bit_steps_zero((n - 1) as nat);
        assert(crc_bit_step(0) == 0) by (bit_vector);
    }
}

/// The table is linear over XOR and holds 256 different entries.
pub proof fn lemma_crc_table_linear_injective(i: u8, j: u8)
    ensures
        crc_table_entry((i ^ j) as int) == crc_table_entry(i as int) ^ crc_table_entry(j as int),
        crc_table_entry(i as int) == crc_table_entry(j as int) ==> i == j,
{
    assert(((i ^ j) as int) as u32 == (i as u32) ^ (j as u32)) by (bit_vector);
    assert((i as int) as u32 == i as u32);
    assert((j as int) as u32 == j as u32);
    lemma_bit_steps_linear(i as u32, j as u32, 8);
    lemma_bit_steps_injective(i as u32, j as u32, 8);
    assert((i as u32) == (j as u32) ==> i == j) by (bit_vector);
}

/// The CRC register after `data`, starting from register `r`.
pub open spec fn crc_fold(r: u32, data: Seq<u8>) -> u32
    decreases data.len(),
{
    if data.len() == 0 {
        r
    } else {
        crc_byte_step(crc_fold(r, data.drop_last()), data.last())
    }
}

/// `n` zero bytes.
pub open spec fn zero_bytes(n: nat) -> Seq<u8> {
    Seq::new(n, |i: int| 0u8)
}

/// The bytewise XOR of two sequences of the same length.
pub open spec fn xor_bytes(a: Seq<u8>, b: Seq<u8>) -> Seq<u8> {
    Seq::new(a.len(), |i: int| a[i] ^ b[i])
}

proof fn lemma_register_is_fold(data: Seq<u8>)
    ensures
        crc_register(data) == crc_fold(0xFFFF_FFFFu32, data),
    decreases data.len(),
{
    if data.len() > 0 {
        lemma_register_is_fold(data.drop_last());
    }
}

proof fn lemma_fold_xor(r1: u32, r2: u32, a: Seq<u8>, b: Seq<u8>)
    requires
        a.len() == b.len(),
    ensures
        crc_fold(r1, a) ^ crc_fold(r2, b) == crc_fold(r1 ^ r2, xor_bytes(a, b)),
    decreases a.len(),
{
    if a.len() > 0 {
        let e = xor_bytes(a, b);
        lemma_fold_xor(r1, r2, a.drop_last(), b.drop_last());
        assert(e.drop_last() =~= xor_bytes(a.drop_last(), b.drop_last()));
        let f1 = crc_fold(r1, a.drop_last());
        let f2 = crc_fold(r2, b.drop_last());
        let x = a.last();
        let y = b.last();
        assert(e.last() == x ^ y);
        lemma_bit_steps_linear(f1 ^ (x as u32), f2 ^ (y as u32), 8);
        assert((f1 ^ (x as u32)) ^ (f2 ^ (y as u32)) == (f1 ^ f2) ^ ((x ^ y) as u32)) by (bit_vector);
    }
}

proof fn lemma_fold_concat(r: u32, a: Seq<u8>, b: Seq<u8>)
    ensures
        crc_fold(r, a + b) == crc_fold(crc_fold(r, a), b),
    decreases b.len(),
{
    if b.len() == 0 {
        assert(a + b =~= a);
    } else {
        lemma_fold_concat(r, a, b.drop_last());
        assert((a + b).drop_last() =~= a + b.drop_last());
        assert((a + b).last() == b.last());
    }
}

/// Zero bytes keep a zero register at zero and a non-zero one non-zero.
proof fn lemma_fold_zeros(r: u32, n: nat)
    ensures
        (crc_fold(r, zero_bytes(n)) == 0) == (r == 0),
    decreases n,
{
    if n > 0 {
        assert(zero_bytes(n).drop_last() =~= zero_bytes((n - 1) as nat));
        lemma_fold_zeros(r, (n - 1) as nat);
        let f = crc_fold(r, zero_bytes((n - 1) as nat));
        assert(f ^ (0u8 as u32) == f) by (bit_vector);
        lemma_bit_steps_zero(8);
        lemma_bit_steps_injective(f, 0, 8);
    }
}

/// Four bytes that are not all zero move a zero register away from zero.
proof fn lemma_fold_four_nonzero(w: Seq<u8>)
    requires
        w.len() == 4,
        w[0] != 0 || w[1] != 0 || w[2] != 0 || w[3] != 0,
    ensures
        crc_fold(0, w) != 0,
{
    let w0 = w[0];
    let w1 = w[1];
    let w2 = w[2];
    let w3 = w[3];
    assert(w.drop_last().drop_last().drop_last().drop_last() =~= Seq::<u8>::empty());
    assert(w.drop_last().drop_last().drop_last() =~= seq![w0]);
    assert(w.drop_last().drop_last() =~= seq![w0, w1]);
    assert(w.drop_last() =~= seq![w0, w1, w2]);
    reveal_with_fuel(crc_fold, 5);
    let x0: u32 = 0u32 ^ (w0 as u32);
    lemma_eight_bit_steps(x0);
    let y0 = eight_bit_steps(x0);
    let x1: u32 = y0 ^ (w1 as u32);
    lemma_eight_bit_steps(x1);
    let y1 = eight_bit_steps(x1);
    let x2: u32 = y1 ^ (w2 as u32);
    lemma_eight_bit_steps(x2);
    let y2 = eight_bit_steps(x2);
    let x3: u32 = y2 ^ (w3 as u32);
    lemma_eight_bit_steps(x3);
    let y3 = eight_bit_steps(x3);
    assert(crc_fold(0, w) == y3);
    assert(y3 != 0) by (bit_vector)
        requires
            x0 == 0u32 ^ (w0 as u32),
            y0 == eight_bit_steps(x0),
            x1 == y0 ^ (w1 as u32),
            y1 == eight_bit_steps(x1),
            x2 == y1 ^ (w2 as u32),
            y2 == eight_bit_steps(x2),
            x3 == y2 ^ (w3 as u32),
            y3 == eight_bit_steps(x3),
            w0 != 0 || w1 != 0 || w2 != 0 || w3 != 0,
    ;
}

/// Two sequences of the same length whose differences all lie within four
/// consecutive bytes have different CRC-32s: every error burst of at most
/// 32 bits is detected.
pub proof fn lemma_crc32_detects_burst(a: Seq<u8>, b: Seq<u8>, k: int)
    requires
        a.len() == b.len(),
        a != b,
        forall|j: int| 0 <= j < a.len() && a[j] != b[j] ==> k <= j < k + 4,
    ensures
        spec_crc32(a) != spec_crc32(b),
{
    let n = a.len() as int;
    let e = xor_bytes(a, b);
    lemma_register_is_fold(a);
    lemma_register_is_fold(b);
    lemma_fold_xor(0xFFFF_FFFFu32, 0xFFFF_FFFFu32, a, b);
    assert(0xFFFF_FFFFu32 ^ 0xFFFF_FFFFu32 == 0) by (bit_vector);
    let j0 = choose|j: int| 0 <= j < n && a[j] != b[j];
    assert(exists|j: int| 0 <= j < n && a[j] != b[j]) by {
        if forall|j: int| 0 <= j < n ==> a[j] == b[j] {
            assert(a =~= b);
        }
    }
    let lo = if k < 0 { 0 } else if k > n { n } else { k };
    let hi = if k + 4 > n { n } else if k + 4 < 0 { 0 } else { k + 4 };
    assert(lo <= j0 < hi);
    let w = e.subrange(lo, hi);
    assert forall|j: int| 0 <= j < n && (j < lo || j >= hi) implies e[j] == 0 by {
        assert(a[j] == b[j]);
        let x = a[j];
        assert(x ^ x == 0) by (bit_vector);
    }
    assert(e =~= zero_bytes(lo as nat) + w + zero_bytes((n - hi) as nat));
    let x = a[j0];
    let y = b[j0];
    assert(x != y ==> x ^ y != 0) by (bit_vector);
    assert(w[j0 - lo] != 0);
    // Pad the window to four bytes.
    let p = (4 - (hi - lo)) as nat;
    let w4 = w + zero_bytes(p);
    assert(w4.len() == 4);
    assert(w4[j0 - lo] != 0);
    lemma_fold_four_nonzero(w4);
    lemma_fold_concat(0, w, zero_bytes(p));
    lemma_fold_zeros(crc_fold(0, w), p);
    // Zeros before the window leave the register at zero, zeros after it
    // keep it away from zero.
    lemma_fold_zeros(0, lo as nat);
    lemma_fold_concat(0, zero_bytes(lo as nat), w);
    lemma_fold_concat(0, zero_bytes(lo as nat) + w, zero_bytes((n - hi) as nat));
    lemma_fold_zeros(crc_fold(0, w), (n - hi) as nat);
    let ra = crc_register(a);
    let rb = crc_register(b);
    assert(ra ^ rb != 0 ==> (ra ^ 0xFFFF_FFFFu32) != (rb ^ 0xFFFF_FFFFu32)) by (bit_vector);
}

} // verus!
