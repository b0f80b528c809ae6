use vstd::prelude::*;

verus! {

// ---------------------------------------------------------------------------
// Byte-sequence XOR (keystream application)
// ---------------------------------------------------------------------------

/// Bitwise XOR of two byte sequences of equal length.
pub open spec fn xor_seq(a: Seq<u8>, b: Seq<u8>) -> Seq<u8> {
    Seq::new(a.len(), |i: int| a[i] ^ b[i])
}

/// Masking twice with the same keystream restores the data.
pub proof fn lemma_xor_involutive(a: Seq<u8>, b: Seq<u8>)
    requires
        a.len() == b.len(),
    ensures
        xor_seq(xor_seq(a, b), b) =~= a,
{
    assert forall|i: int| 0 <= i < a.len() implies xor_seq(xor_seq(a, b), b)[i] == a[i] by {
        let x = a[i];
        let y = b[i];
        assert(((x ^ y) ^ y) == x) by (bit_vector);
    }
}

/// XOR a data buffer with a keystream of the same length.
pub fn xor_bytes(a: &Vec<u8>, b: &Vec<u8>) -> (r: Vec<u8>)
    requires
        a@.len() == b@.len(),
    ensures
        r@ == xor_seq(a@, b@),
{
    let mut r: Vec<u8> = Vec::new();
    let mut i: usize = 0;
    while i < a.len()
        invariant
            i <= a@.len(),
            a@.len() == b@.len(),
            r@.len() == i,
            forall|j: int| 0 <= j < i ==> r@[j] == (a@[j] ^ b@[j]),
        decreases a@.len() - i,
    {
        r.push(a[i] ^ b[i]);
        i = i + 1;
    }
    proof {
        assert(r@ =~= xor_seq(a@, b@));
    }
    r
}

/// A sequence of `n` zero bytes.
pub open spec fn zeros(n: nat) -> Seq<u8> {
    Seq::new(n, |i: int| 0u8)
}

// ---------------------------------------------------------------------------
// Big-endian integer encodings
// ---------------------------------------------------------------------------

/// Two-byte big-endian encoding of a 16-bit value.
pub open spec fn be16_spec(x: u16) -> Seq<u8> {
    seq![((x >> 8) & 0xff) as u8, (x & 0xff) as u8]
}

pub fn be16(x: u16) -> (r: Vec<u8>)
    ensures
        r@ == be16_spec(x),
        r@.len() == 2,
{
    let mut v: Vec<u8> = Vec::new();
    v.push(((x >> 8) & 0xff) as u8);
    v.push((x & 0xff) as u8);
    proof {
        assert(v@ =~= be16_spec(x));
    }
    v
}

/// The 16-bit value read back from its big-endian bytes.
pub open spec fn u16_from_be_spec(b0: u8, b1: u8) -> u16 {
    (((b0 as u16) << 8) | (b1 as u16)) as u16
}

pub fn u16_from_be(b0: u8, b1: u8) -> (r: u16)
    ensures
        r == u16_from_be_spec(b0, b1),
{
    ((b0 as u16) << 8) | (b1 as u16)
}

pub proof fn lemma_be16_roundtrip(x: u16)
    ensures
        u16_from_be_spec(be16_spec(x)[0], be16_spec(x)[1]) == x,
{
    assert(((((((x >> 8) & 0xff) as u8) as u16) << 8) | (((x & 0xff) as u8) as u16)) as u16
        == x) by (bit_vector);
}

/// Four-byte big-endian encoding of a 32-bit value.
pub open spec fn be32_spec(x: u32) -> Seq<u8> {
    seq![
        ((x >> 24) & 0xff) as u8,
        ((x >> 16) & 0xff) as u8,
        ((x >> 8) & 0xff) as u8,
        (x & 0xff) as u8,
    ]
}

pub fn be32(x: u32) -> (r: Vec<u8>)
    ensures
        r@ == be32_spec(x),
        r@.len() == 4,
{
    let mut v: Vec<u8> = Vec::new();
    v.push(((x >> 24) & 0xff) as u8);
    v.push(((x >> 16) & 0xff) as u8);
    v.push(((x >> 8) & 0xff) as u8);
    v.push((x & 0xff) as u8);
    proof {
        assert(v@ =~= be32_spec(x));
    }
    v
}

/// The 32-bit value read back from its big-endian bytes.
pub open spec fn u32_from_be_spec(b: Seq<u8>) -> u32 {
    ((((b[0] as u32) << 24) | ((b[1] as u32) << 16) | ((b[2] as u32) << 8) | (b[3] as u32))) as u32
}

pub fn u32_from_be(b: &Vec<u8>) -> (r: u32)
    requires
        b@.len() == 4,
    ensures
        r == u32_from_be_spec(b@),
{
    ((b[0] as u32) << 24) | ((b[1] as u32) << 16) | ((b[2] as u32) << 8) | (b[3] as u32)
}

pub proof fn lemma_be32_roundtrip(x: u32)
    ensures
        u32_from_be_spec(be32_spec(x)) == x,
{
    assert((((((x >> 24) & 0xff) as u8) as u32) << 24
        | ((((x >> 16) & 0xff) as u8) as u32) << 16
        | ((((x >> 8) & 0xff) as u8) as u32) << 8
        | (((x & 0xff) as u8) as u32)) as u32 == x) by (bit_vector);
}

/// Eight-byte big-endian encoding of a 64-bit value.
pub open spec fn be64_spec(x: u64) -> Seq<u8> {
    seq![
        ((x >> 56) & 0xff) as u8,
        ((x >> 48) & 0xff) as u8,
        ((x >> 40) & 0xff) as u8,
        ((x >> 32) & 0xff) as u8,
        ((x >> 24) & 0xff) as u8,
        ((x >> 16) & 0xff) as u8,
        ((x >> 8) & 0xff) as u8,
        (x & 0xff) as u8,
    ]
}

pub fn be64(x: u64) -> (r: Vec<u8>)
    ensures
        r@ == be64_spec(x),
        r@.len() == 8,
{
    let mut v: Vec<u8> = Vec::new();
    v.push(((x >> 56) & 0xff) as u8);
    v.push(((x >> 48) & 0xff) as u8);
    v.push(((x >> 40) & 0xff) as u8);
    v.push(((x >> 32) & 0xff) as u8);
    v.push(((x >> 24) & 0xff) as u8);
    v.push(((x >> 16) & 0xff) as u8);
    v.push(((x >> 8) & 0xff) as u8);
    v.push((x & 0xff) as u8);
    proof {
        assert(v@ =~= be64_spec(x));
    }
    v
}

/// The 64-bit value read back from eight big-endian bytes.
pub open spec fn u64_from_be_spec(b: Seq<u8>) -> u64 {
    (((b[0] as u64) << 56) | ((b[1] as u64) << 48) | ((b[2] as u64) << 40)
        | ((b[3] as u64) << 32) | ((b[4] as u64) << 24) | ((b[5] as u64) << 16)
        | ((b[6] as u64) << 8) | (b[7] as u64)) as u64
}

pub fn u64_from_be(b: &Vec<u8>) -> (r: u64)
    requires
        b@.len() == 8,
    ensures
        r == u64_from_be_spec(b@),
{
    ((b[0] as u64) << 56) | ((b[1] as u64) << 48) | ((b[2] as u64) << 40)
        | ((b[3] as u64) << 32) | ((b[4] as u64) << 24) | ((b[5] as u64) << 16)
        | ((b[6] as u64) << 8) | (b[7] as u64)
}

/// Five-byte big-endian encoding of a 40-bit node address.
pub open spec fn addr_bytes_spec(a: u64) -> Seq<u8> {
    seq![
        ((a >> 32) & 0xff) as u8,
        ((a >> 24) & 0xff) as u8,
        ((a >> 16) & 0xff) as u8,
        ((a >> 8) & 0xff) as u8,
        (a & 0xff) as u8,
    ]
}

pub fn addr_to_bytes(a: u64) -> (r: Vec<u8>)
    ensures
        r@ == addr_bytes_spec(a),
        r@.len() == 5,
{
    let mut v: Vec<u8> = Vec::new();
    v.push(((a >> 32) & 0xff) as u8);
    v.push(((a >> 24) & 0xff) as u8);
    v.push(((a >> 16) & 0xff) as u8);
    v.push(((a >> 8) & 0xff) as u8);
    v.push((a & 0xff) as u8);
    proof {
        assert(v@ =~= addr_bytes_spec(a));
    }
    v
}

// ---------------------------------------------------------------------------
// Small vector helpers
// ---------------------------------------------------------------------------

/// Copy `v[a..b]` into a fresh vector.
pub fn sub_vec(v: &Vec<u8>, a: usize, b: usize) -> (r: Vec<u8>)
    requires
        a <= b <= v@.len(),
    ensures
        r@ == v@.subrange(a as int, b as int),
{
    let mut r: Vec<u8> = Vec::new();
    let mut i: usize = a;
    while i < b
        invariant
            a <= i <= b <= v@.len(),
            r@.len() == i - a,
            forall|j: int| 0 <= j < i - a ==> r@[j] == v@[a + j],
        decreases b - i,
    {
        r.push(v[i]);
        i = i + 1;
    }
    proof {
        assert(r@ =~= v@.subrange(a as int, b as int));
    }
    r
}

/// Append all of `src` onto `dst`.
pub fn append_bytes(dst: &mut Vec<u8>, src: &Vec<u8>)
    ensures
        final(dst)@ == old(dst)@ + src@,
{
    let mut i: usize = 0;
    while i < src.len()
        invariant
            i <= src@.len(),
            dst@ == old(dst)@ + src@.take(i as int),
        decreases src@.len() - i,
    {
        proof {
            assert(old(dst)@ + src@.take(i as int + 1)
                =~= (old(dst)@ + src@.take(i as int)).push(src@[i as int]));
        }
        dst.push(src[i]);
        i = i + 1;
    }
    proof {
        assert(src@.take(src@.len() as int) =~= src@);
    }
}

/// A vector of `n` copies of `byte`.
pub fn filled_vec(byte: u8, n: usize) -> (r: Vec<u8>)
    ensures
        r@.len() == n,
        forall|j: int| 0 <= j < n ==> r@[j] == byte,
{
    let mut r: Vec<u8> = Vec::new();
    let mut i: usize = 0;
    while i < n
        invariant
            i <= n,
            r@.len() == i,
            forall|j: int| 0 <= j < i ==> r@[j] == byte,
        decreases n - i,
    {
        r.push(byte);
        i = i + 1;
    }
    r
}

/// Compare two byte vectors for equality.
pub fn bytes_eq(a: &Vec<u8>, b: &Vec<u8>) -> (r: bool)
    ensures
        r == (a@ =~= b@),
{
    if a.len() != b.len() {
        return false;
    }
    let mut i: usize = 0;
    while i < a.len()
        invariant
            i <= a@.len(),
            a@.len() == b@.len(),
            forall|j: int| 0 <= j < i ==> a@[j] == b@[j],
        decreases a@.len() - i,
    {
        if a[i] != b[i] {
            return false;
        }
        i = i + 1;
    }
    true
}

/// Compare `a[0..n]` with `b[off..off+n]`.
pub fn bytes_eq_range(a: &Vec<u8>, b: &Vec<u8>, off: usize, n: usize) -> (r: bool)
    requires
        n <= a@.len(),
        off + n <= b@.len(),
    ensures
        r == (a@.take(n as int) =~= b@.subrange(off as int, off + n)),
{
    let b_len = b.len();
    let mut i: usize = 0;
    while i < n
        invariant
            i <= n <= a@.len(),
            off + n <= b@.len(),
            b@.len() == b_len,
            forall|j: int| 0 <= j < i ==> a@[j] == b@[off + j],
        decreases n - i,
    {
        if a[i] != b[off + i] {
            proof {
                assert(a@.take(n as int)[i as int] != b@.subrange(off as int, off + n)[i as int]);
            }
            return false;
        }
        i = i + 1;
    }
    true
}

/// A window of a byte sequence that holds a concatenation splits at the seam.
pub proof fn lemma_subrange_split(b: Seq<u8>, pos: int, end: int, e: Seq<u8>, rest: Seq<u8>)
    requires
        0 <= pos <= end <= b.len(),
        b.subrange(pos, end) == e + rest,
    ensures
        pos + e.len() + rest.len() == end,
        b.subrange(pos, pos + e.len() as int) == e,
        b.subrange(pos + e.len() as int, end) == rest,
{
    let w = b.subrange(pos, end);
    assert(w.len() == e.len() + rest.len());
    assert forall|i: int| 0 <= i < e.len() implies b.subrange(pos, pos + e.len() as int)[i]
        == e[i] by {
        assert(w[i] == b[pos + i]);
        assert(w[i] == e[i]);
        assert(b.subrange(pos, pos + e.len() as int)[i] == b[pos + i]);
    }
    assert(b.subrange(pos, pos + e.len() as int) =~= e);
    assert forall|i: int| 0 <= i < rest.len() implies b.subrange(pos + e.len() as int, end)[i]
        == rest[i] by {
        assert(w[e.len() + i] == b[pos + e.len() + i]);
        assert(w[e.len() + i] == rest[i]);
        assert(b.subrange(pos + e.len() as int, end)[i] == b[pos + e.len() + i]);
    }
    assert(b.subrange(pos + e.len() as int, end) =~= rest);
}

/// Addition modulo 2^64, as the peer byte counters use.
pub fn wrapping_add_u64(a: u64, b: u64) -> (r: u64)
    ensures
        r == (a + b) % 0x1_0000_0000_0000_0000,
{
    if b <= u64::MAX - a {
        a + b
    } else {
        b - (u64::MAX - a) - 1
    }
}

// ---------------------------------------------------------------------------
// Hexadecimal rendering and parsing of 64-bit values (dictionary numbers)
// ---------------------------------------------------------------------------

/// The lower-case hexadecimal digit for a value below 16.
pub open spec fn hex_digit(d: u8) -> u8
    recommends
        d < 16,
{
    if d < 10 {
        (0x30 + d) as u8
    } else {
        (0x61 + (d - 10)) as u8
    }
}

pub fn hex_digit_exec(d: u8) -> (r: u8)
    requires
        d < 16,
    ensures
        r == hex_digit(d),
{
    if d < 10 {
        0x30 + d
    } else {
        0x61 + (d - 10)
    }
}

/// The value of one hexadecimal digit byte, if it is one.
pub open spec fn hex_val(c: u8) -> Option<u8> {
    if 0x30 <= c && c <= 0x39 {
        Some((c - 0x30) as u8)
    } else if 0x61 <= c && c <= 0x66 {
        Some((c - 0x61 + 10) as u8)
    } else if 0x41 <= c && c <= 0x46 {
        Some((c - 0x41 + 10) as u8)
    } else {
        None
    }
}

pub fn hex_val_exec(c: u8) -> (r: Option<u8>)
    ensures
        r == hex_val(c),
{
    if 0x30 <= c && c <= 0x39 {
        Some(c - 0x30)
    } else if 0x61 <= c && c <= 0x66 {
        Some(c - 0x61 + 10)
    } else if 0x41 <= c && c <= 0x46 {
        Some(c - 0x41 + 10)
    } else {
        None
    }
}

/// Minimal-width lower-case hexadecimal rendering of a value.
pub open spec fn hex_min_spec(x: nat) -> Seq<u8>
    decreases x,
{
    if x < 16 {
        seq![hex_digit(x as u8)]
    } else {
        hex_min_spec(x / 16).push(hex_digit((x % 16) as u8))
    }
}

pub fn u64_to_hex(x: u64) -> (r: Vec<u8>)
    ensures
        r@ == hex_min_spec(x as nat),
    decreases x,
{
    if x < 16 {
        let mut v: Vec<u8> = Vec::new();
        v.push(hex_digit_exec(x as u8));
        proof {
            assert(v@ =~= hex_min_spec(x as nat));
        }
        v
    } else {
        let mut v = u64_to_hex(x / 16);
        v.push(hex_digit_exec((x % 16) as u8));
        v
    }
}

/// Fixed-width lower-case hexadecimal rendering (zero padded).
pub open spec fn hex_fixed_spec(x: u64, w: nat) -> Seq<u8>
    decreases w,
{
    if w == 0 {
        Seq::empty()
    } else {
        hex_fixed_spec((x / 16) as u64, (w - 1) as nat).push(hex_digit((x % 16) as u8))
    }
}

pub fn u64_to_hex_fixed(x: u64, w: usize) -> (r: Vec<u8>)
    ensures
        r@ == hex_fixed_spec(x, w as nat),
    decreases w,
{
    if w == 0 {
        let v: Vec<u8> = Vec::new();
        proof {
            assert(v@ =~= hex_fixed_spec(x, 0));
        }
        v
    } else {
        let mut v = u64_to_hex_fixed(x / 16, w - 1);
        v.push(hex_digit_exec((x % 16) as u8));
        v
    }
}

/// Whether every byte of `s` is a hexadecimal digit.
pub open spec fn all_hex_digits(s: Seq<u8>) -> bool {
    forall|i: int| 0 <= i < s.len() ==> hex_val(s[i]) is Some
}

/// The numeric value of a hexadecimal digit string.
pub open spec fn hex_value(s: Seq<u8>) -> nat
    decreases s.len(),
{
    if s.len() == 0 {
        0
    } else {
        hex_value(s.drop_last()) * 16 + (match hex_val(s.last()) {
            Some(d) => d as nat,
            None => 0,
        })
    }
}

pub open spec fn pow16(n: nat) -> nat
    decreases n,
{
    if n == 0 {
        1
    } else {
        16 * pow16((n - 1) as nat)
    }
}

pub proof fn lemma_hex_value_bound(s: Seq<u8>)
    ensures
        hex_value(s) < pow16(s.len()),
    decreases s.len(),
{
    if s.len() == 0 {
    } else {
        lemma_hex_value_bound(s.drop_last());
        let prev = hex_value(s.drop_last());
        let d: nat = match hex_val(s.last()) {
            Some(d) => d as nat,
            None => 0,
        };
        assert(d < 16);
        assert(prev <= pow16(s.drop_last().len()) - 1);
        assert(prev * 16 <= (pow16(s.drop_last().len()) - 1) * 16) by (nonlinear_arith)
            requires
                prev <= pow16(s.drop_last().len()) - 1,
        ;
    }
}

pub proof fn lemma_pow16_16()
    ensures
        pow16(16) == 0x1_0000_0000_0000_0000,
{
    reveal_with_fuel(pow16, 17);
}

pub proof fn lemma_pow16_10()
    ensures
        pow16(10) == 0x100_0000_0000,
{
    reveal_with_fuel(pow16, 11);
}

/// How a hexadecimal digit string of at most 16 digits is read back as a
/// 64-bit value; anything else reads as nothing.
pub open spec fn parse_hex_u64_spec(s: Seq<u8>) -> Option<u64> {
    if 1 <= s.len() <= 16 && all_hex_digits(s) {
        Some(hex_value(s) as u64)
    } else {
        None
    }
}

pub fn parse_hex_u64(s: &Vec<u8>) -> (r: Option<u64>)
    ensures
        r == parse_hex_u64_spec(s@),
{
    if s.len() < 1 || s.len() > 16 {
        return None;
    }
    proof {
        lemma_pow16_16();
    }
    let mut acc: u64 = 0;
    let mut i: usize = 0;
    while i < s.len()
        invariant
            i <= s@.len() <= 16,
            forall|j: int| 0 <= j < i ==> hex_val(s@[j]) is Some,
            acc == hex_value(s@.take(i as int)),
            pow16(16) == 0x1_0000_0000_0000_0000,
        decreases s@.len() - i,
    {
        match hex_val_exec(s[i]) {
            None => {
                proof {
                    assert(!all_hex_digits(s@));
                }
                return None;
            },
            Some(d) => {
                proof {
                    lemma_hex_value_bound(s@.take(i as int));
                    lemma_pow16_le(i as nat, 15);
                    assert(pow16(15) * 16 == pow16(16));
                    assert(acc < pow16(15)) by {
                        assert(pow16(i as nat) <= pow16(15));
                    }
                    assert(acc * 16 + 15 < pow16(16)) by (nonlinear_arith)
                        requires
                            acc < pow16(15),
                            pow16(15) * 16 == pow16(16),
                    ;
                    assert(s@.take(i as int + 1).drop_last() =~= s@.take(i as int));
                    assert(s@.take(i as int + 1).last() == s@[i as int]);
                }
                acc = acc * 16 + (d as u64);
                i = i + 1;
            },
        }
    }
    proof {
        assert(s@.take(s@.len() as int) =~= s@);
        assert(all_hex_digits(s@));
        lemma_hex_value_bound(s@);
    }
    Some(acc)
}

pub proof fn lemma_pow16_pos(n: nat)
    ensures
        pow16(n) >= 1,
    decreases n,
{
    if n > 0 {
        lemma_pow16_pos((n - 1) as nat);
    }
}

pub proof fn lemma_pow16_le(a: nat, b: nat)
    requires
        a <= b,
    ensures
        pow16(a) <= pow16(b),
        pow16(a) >= 1,
    decreases b,
{
    lemma_pow16_pos(a);
    if a < b {
        lemma_pow16_le(a, (b - 1) as nat);
        lemma_pow16_pos((b - 1) as nat);
        assert(pow16(b) == 16 * pow16((b - 1) as nat));
    }
}

/// Rendering a value in minimal hexadecimal and reading it back restores it.
pub proof fn lemma_hex_min_roundtrip(x: u64)
    ensures
        parse_hex_u64_spec(hex_min_spec(x as nat)) == Some(x),
{
    lemma_pow16_16();
    lemma_hex_min_len(x as nat, 16);
    lemma_hex_min_value(x as nat);
}

pub proof fn lemma_hex_min_value(x: nat)
    ensures
        hex_min_spec(x).len() >= 1,
        all_hex_digits(hex_min_spec(x)),
        hex_value(hex_min_spec(x)) == x,
    decreases x,
{
    if x < 16 {
        let s = hex_min_spec(x);
        assert(s.len() == 1);
        assert(hex_val(hex_digit(x as u8)) == Some(x as u8));
        assert(s.drop_last() =~= Seq::<u8>::empty());
        assert(hex_value(Seq::<u8>::empty()) == 0);
        assert(hex_value(s) == x);
    } else {
        lemma_hex_min_value(x / 16);
        let p = hex_min_spec(x / 16);
        let s = hex_min_spec(x);
        assert(s == p.push(hex_digit((x % 16) as u8)));
        assert(s.drop_last() =~= p);
        assert(s.last() == hex_digit((x % 16) as u8));
        assert(hex_val(hex_digit((x % 16) as u8)) == Some((x % 16) as u8));
        assert forall|i: int| 0 <= i < s.len() implies hex_val(s[i]) is Some by {
            if i < p.len() {
                assert(s[i] == p[i]);
            }
        }
        assert(hex_value(s) == (x / 16) * 16 + (x % 16));
        assert((x / 16) * 16 + (x % 16) == x) by (nonlinear_arith);
    }
}

pub proof fn lemma_hex_min_len(x: nat, k: nat)
    requires
        x < pow16(k),
        k >= 1,
    ensures
        hex_min_spec(x).len() <= k,
    decreases x,
{
    if x < 16 {
    } else {
        assert(pow16(0) == 1);
        assert(k >= 2) by {
            if k == 1 {
                assert(pow16(1) == 16 * pow16(0));
            }
        }
        assert(x / 16 < pow16((k - 1) as nat)) by {
            assert(pow16(k) == 16 * pow16((k - 1) as nat));
            assert(x < 16 * pow16((k - 1) as nat));
            assert(x / 16 < pow16((k - 1) as nat)) by (nonlinear_arith)
                requires
                    x < 16 * pow16((k - 1) as nat),
            ;
        }
        lemma_hex_min_len(x / 16, (k - 1) as nat);
    }
}

/// Rendering a value in fixed-width hexadecimal and reading it back restores it.
pub proof fn lemma_hex_fixed_roundtrip(x: u64, w: nat)
    requires
        1 <= w <= 16,
        (x as nat) < pow16(w),
    ensures
        parse_hex_u64_spec(hex_fixed_spec(x, w)) == Some(x),
{
    lemma_hex_fixed_len(x, w);
    lemma_hex_fixed_value(x, w);
}

pub proof fn lemma_hex_fixed_len(x: u64, w: nat)
    ensures
        hex_fixed_spec(x, w).len() == w,
    decreases w,
{
    if w == 0 {
    } else {
        lemma_hex_fixed_len((x / 16) as u64, (w - 1) as nat);
    }
}

pub proof fn lemma_hex_fixed_value(x: u64, w: nat)
    requires
        (x as nat) < pow16(w),
    ensures
        all_hex_digits(hex_fixed_spec(x, w)),
        hex_value(hex_fixed_spec(x, w)) == x,
    decreases w,
{
    if w == 0 {
        assert(pow16(0) == 1);
    } else {
        assert(((x / 16) as nat) < pow16((w - 1) as nat)) by {
            assert(pow16(w) == 16 * pow16((w - 1) as nat));
            assert((x as nat) / 16 < pow16((w - 1) as nat)) by (nonlinear_arith)
                requires
                    (x as nat) < 16 * pow16((w - 1) as nat),
            ;
            assert((x / 16) as nat == (x as nat) / 16);
        }
        lemma_hex_fixed_value((x / 16) as u64, (w - 1) as nat);
        let p = hex_fixed_spec((x / 16) as u64, (w - 1) as nat);
        let s = hex_fixed_spec(x, w);
        assert(s == p.push(hex_digit((x % 16) as u8)));
        assert(s.drop_last() =~= p);
        assert(hex_val(hex_digit((x % 16) as u8)) == Some((x % 16) as u8));
        assert forall|i: int| 0 <= i < s.len() implies hex_val(s[i]) is Some by {
            if i < p.len() {
                assert(s[i] == p[i]);
            }
        }
        assert(hex_value(s) == ((x as nat) / 16) * 16 + ((x as nat) % 16));
        assert(((x as nat) / 16) * 16 + ((x as nat) % 16) == x as nat) by (nonlinear_arith);
    }
}

} // verus!
