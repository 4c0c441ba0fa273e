//! The z-base-32 text form of a byte string: bits are read most significant
//! first, five at a time, each group written as one symbol of a 32-symbol
//! alphabet; the last group is filled up with zero bits and no padding
//! symbol is written.
use vstd::prelude::*;

verus! {

/// The symbol that stands for the five-bit value `v`.
pub open spec fn symbol(v: int) -> char {
    if v == 0 { 'y' } else if v == 1 { 'b' } else if v == 2 { 'n' } else if v == 3 { 'd' }
    else if v == 4 { 'r' } else if v == 5 { 'f' } else if v == 6 { 'g' } else if v == 7 { '8' }
    else if v == 8 { 'e' } else if v == 9 { 'j' } else if v == 10 { 'k' } else if v == 11 { 'm' }
    else if v == 12 { 'c' } else if v == 13 { 'p' } else if v == 14 { 'q' } else if v == 15 { 'x' }
    else if v == 16 { 'o' } else if v == 17 { 't' } else if v == 18 { '1' } else if v == 19 { 'u' }
    else if v == 20 { 'w' } else if v == 21 { 'i' } else if v == 22 { 's' } else if v == 23 { 'z' }
    else if v == 24 { 'a' } else if v == 25 { '3' } else if v == 26 { '4' } else if v == 27 { '5' }
    else if v == 28 { 'h' } else if v == 29 { '7' } else if v == 30 { '6' } else { '9' }
}

/// The five-bit value of symbol `c`, or -1 where `c` is not in the alphabet.
pub open spec fn symbol_value(c: char) -> int {
    if c == 'y' { 0 } else if c == 'b' { 1 } else if c == 'n' { 2 } else if c == 'd' { 3 }
    else if c == 'r' { 4 } else if c == 'f' { 5 } else if c == 'g' { 6 } else if c == '8' { 7 }
    else if c == 'e' { 8 } else if c == 'j' { 9 } else if c == 'k' { 10 } else if c == 'm' { 11 }
    else if c == 'c' { 12 } else if c == 'p' { 13 } else if c == 'q' { 14 } else if c == 'x' { 15 }
    else if c == 'o' { 16 } else if c == 't' { 17 } else if c == '1' { 18 } else if c == 'u' { 19 }
    else if c == 'w' { 20 } else if c == 'i' { 21 } else if c == 's' { 22 } else if c == 'z' { 23 }
    else if c == 'a' { 24 } else if c == '3' { 25 } else if c == '4' { 26 } else if c == '5' { 27 }
    else if c == 'h' { 28 } else if c == '7' { 29 } else if c == '6' { 30 } else if c == '9' { 31 }
    else { -1 }
}

/// Bit `j` of `b`, each byte read from its most significant bit; positions
/// past the end read as zero.
pub open spec fn bit_at(b: Seq<u8>, j: int) -> u8 {
    if 0 <= j < 8 * b.len() {
        (b[j / 8] >> ((7 - j % 8) as u8)) & 1u8
    } else {
        0
    }
}

/// The five bits from position `5 * i` on, as a number.
pub open spec fn quint_at(b: Seq<u8>, i: int) -> u8 {
    ((bit_at(b, 5 * i) << 4u8) | (bit_at(b, 5 * i + 1) << 3u8) | (bit_at(b, 5 * i + 2) << 2u8)
        | (bit_at(b, 5 * i + 3) << 1u8) | bit_at(b, 5 * i + 4))
}

/// Number of symbols that encode `n` bytes.
pub open spec fn encoded_len(n: nat) -> nat {
    (8 * n + 4) / 5
}

/// The z-base-32 text of `b`.
pub open spec fn zbase32(b: Seq<u8>) -> Seq<char> {
    Seq::new(encoded_len(b.len()), |i: int| symbol(quint_at(b, i) as int))
}

/// Bit `t` (0 the most significant) of a five-bit value.
pub open spec fn bit_of_quint(v: u8, t: int) -> u8 {
    (v >> ((4 - t) as u8)) & 1u8
}

/// Bit `j` of a sequence of five-bit values, most significant first.
pub open spec fn quint_bit(vals: Seq<u8>, j: int) -> u8 {
    bit_of_quint(vals[j / 5], j % 5)
}

/// The byte made of bits `8 * k` to `8 * k + 7` of `vals`.
pub open spec fn byte_from_quints(vals: Seq<u8>, k: int) -> u8 {
    ((quint_bit(vals, 8 * k) << 7u8) | (quint_bit(vals, 8 * k + 1) << 6u8) | (quint_bit(
        vals,
        8 * k + 2,
    ) << 5u8) | (quint_bit(vals, 8 * k + 3) << 4u8) | (quint_bit(vals, 8 * k + 4) << 3u8) | (
    quint_bit(vals, 8 * k + 5) << 2u8) | (quint_bit(vals, 8 * k + 6) << 1u8) | quint_bit(
        vals,
        8 * k + 7,
    ))
}

pub proof fn lemma_symbol_inverse(v: int)
    requires
        0 <= v < 32,
    ensures
        symbol_value(symbol(v)) == v,
{
}

proof fn lemma_quint_small(a: u8, b: u8, c: u8, d: u8, e: u8)
    by (bit_vector)
    requires
        a <= 1,
        b <= 1,
        c <= 1,
        d <= 1,
        e <= 1,
    ensures
        ((a << 4u8) | (b << 3u8) | (c << 2u8) | (d << 1u8) | e) < 32,
        (((a << 4u8) | (b << 3u8) | (c << 2u8) | (d << 1u8) | e) >> 4u8) & 1u8 == a,
        (((a << 4u8) | (b << 3u8) | (c << 2u8) | (d << 1u8) | e) >> 3u8) & 1u8 == b,
        (((a << 4u8) | (b << 3u8) | (c << 2u8) | (d << 1u8) | e) >> 2u8) & 1u8 == c,
        (((a << 4u8) | (b << 3u8) | (c << 2u8) | (d << 1u8) | e) >> 1u8) & 1u8 == d,
        (((a << 4u8) | (b << 3u8) | (c << 2u8) | (d << 1u8) | e) >> 0u8) & 1u8 == e,
{
}

proof fn lemma_bit_small(x: u8, s: u8)
    by (bit_vector)
    ensures
        (x >> s) & 1u8 <= 1,
{
}

proof fn lemma_bit_at_small(b: Seq<u8>, j: int)
    ensures
        bit_at(b, j) <= 1,
{
    if 0 <= j < 8 * b.len() {
        lemma_bit_small(b[j / 8], (7 - j % 8) as u8);
    }
}

/// Every value of `quint_at` is a five-bit value, whose bits are those of `b`.
pub proof fn lemma_quint_at(b: Seq<u8>, i: int)
    ensures
        quint_at(b, i) < 32,
        forall|t: int| 0 <= t < 5 ==> #[trigger] bit_of_quint(quint_at(b, i), t) == bit_at(b, 5 * i + t),
{
    lemma_bit_at_small(b, 5 * i);
    lemma_bit_at_small(b, 5 * i + 1);
    lemma_bit_at_small(b, 5 * i + 2);
    lemma_bit_at_small(b, 5 * i + 3);
    lemma_bit_at_small(b, 5 * i + 4);
    lemma_quint_small(
        bit_at(b, 5 * i),
        bit_at(b, 5 * i + 1),
        bit_at(b, 5 * i + 2),
        bit_at(b, 5 * i + 3),
        bit_at(b, 5 * i + 4),
    );
    assert forall|t: int| 0 <= t < 5 implies #[trigger] bit_of_quint(quint_at(b, i), t) == bit_at(b, 5 * i + t) by {
        if t == 0 {} else if t == 1 {} else if t == 2 {} else if t == 3 {} else {}
    }
}

/// The alphabet, in the order of the values its symbols stand for.
fn alphabet() -> (s: &'static str)
    ensures
        s@.len() == 32,
        forall|v: int| 0 <= v < 32 ==> s@[v] == symbol(v),
{
    let s = "ybndrfg8ejkmcpqxot1uwisza345h769";
    proof {
        reveal_strlit("ybndrfg8ejkmcpqxot1uwisza345h769");
    }
    s
}

/// Bit `j` of `b`, as `bit_at` reads it.
fn bit_exec(b: &[u8], j: usize) -> (r: u8)
    requires
        b@.len() * 8 <= usize::MAX,
    ensures
        r == bit_at(b@, j as int),
{
    if j < 8 * b.len() {
        (b[j / 8] >> ((7 - j % 8) as u8)) & 1u8
    } else {
        0
    }
}

/// The z-base-32 text of `data`.
pub fn encode(data: &[u8]) -> (text: String)
    requires
        data@.len() * 8 + 8 <= usize::MAX,
    ensures
        text@ == zbase32(data@),
{
    let alpha = alphabet();
    let total: usize = (8 * data.len() + 4) / 5;
    let mut text = String::new();
    let mut i: usize = 0;
    while i < total
        invariant
            i <= total,
            total == encoded_len(data@.len()),
            data@.len() * 8 + 8 <= usize::MAX,
            alpha@.len() == 32,
            forall|v: int| 0 <= v < 32 ==> alpha@[v] == symbol(v),
            text@ == zbase32(data@).take(i as int),
        decreases total - i,
    {
        let j: usize = 5 * i;
        let q: u8 = ((bit_exec(data, j) << 4u8) | (bit_exec(data, j + 1) << 3u8) | (bit_exec(
            data,
            j + 2,
        ) << 2u8) | (bit_exec(data, j + 3) << 1u8) | bit_exec(data, j + 4));
        proof {
            lemma_quint_at(data@, i as int);
        }
        assert(q == quint_at(data@, i as int));
        let sym = alpha.substring_char(q as usize, q as usize + 1);
        text.append(sym);
        assert(text@ =~= zbase32(data@).take(i + 1));
        i += 1;
    }
    assert(text@ =~= zbase32(data@));
    text
}


/// Number of bytes whose text has `m` symbols, where there are such bytes.
pub open spec fn decoded_len(m: nat) -> nat {
    (m / 8 * 5 + (m % 8) * 5 / 8) as nat
}

/// Whether `m` symbols can be the text of some bytes.
pub open spec fn valid_text_len(m: nat) -> bool {
    let r = m % 8;
    r == 0 || r == 2 || r == 4 || r == 5 || r == 7
}

/// The text length of `n` bytes is a valid one, and `n` can be read back from it.
pub proof fn lemma_encoded_len(n: nat)
    ensures
        valid_text_len(encoded_len(n)),
        decoded_len(encoded_len(n)) == n,
{
    let q = n / 5;
    let r = n % 5;
    assert(n == 5 * q + r);
    assert(8 * n + 4 == 5 * (8 * q) + (8 * r + 4));
    assert((8 * n + 4) / 5 == 8 * q + (8 * r + 4) / 5) by (nonlinear_arith)
        requires
            8 * n + 4 == 5 * (8 * q) + (8 * r + 4),
            0 <= r < 5,
            q >= 0,
    ;
    let m = encoded_len(n);
    let e = (8 * r + 4) / 5;
    assert(0 <= e < 8);
    assert(m == 8 * q + e);
    assert(m / 8 == q && m % 8 == e) by (nonlinear_arith)
        requires
            m == 8 * q + e,
            0 <= e < 8,
            q >= 0,
    ;
}

/// A valid text length is the text length of the bytes it decodes to.
proof fn lemma_decoded_len(m: nat)
    requires
        valid_text_len(m),
    ensures
        encoded_len(decoded_len(m)) == m,
{
    let q = m / 8;
    let r = m % 8;
    let n = decoded_len(m);
    assert(n == 5 * q + r * 5 / 8);
    assert(8 * n + 4 == 5 * (8 * q) + (8 * (r * 5 / 8) + 4));
    assert((8 * n + 4) / 5 == 8 * q + (8 * (r * 5 / 8) + 4) / 5) by (nonlinear_arith)
        requires
            8 * n + 4 == 5 * (8 * q) + (8 * (r * 5 / 8) + 4),
            0 <= r < 8,
            q >= 0,
    ;
}

/// Splitting bit position `8 * k + s` into symbol and bit within it.
proof fn lemma_bit_position(k: int, s: int)
    requires
        k >= 0,
        0 <= s < 8,
    ensures
        (8 * k + s) / 5 == 8 * (k / 5) + (8 * (k % 5) + s) / 5,
        (8 * k + s) % 5 == (8 * (k % 5) + s) % 5,
        (8 * k + s) / 8 == k,
        (8 * k + s) % 8 == s,
{
    let g = k / 5;
    let lb = 8 * (k % 5) + s;
    assert(k == 5 * g + k % 5);
    assert(8 * k + s == 5 * (8 * g) + lb);
    assert((8 * k + s) / 5 == 8 * g + lb / 5 && (8 * k + s) % 5 == lb % 5) by (nonlinear_arith)
        requires
            8 * k + s == 5 * (8 * g) + lb,
            0 <= lb < 40,
            g >= 0,
    ;
}

proof fn lemma_symbol_value(c: char)
    requires
        symbol_value(c) >= 0,
    ensures
        0 <= symbol_value(c) < 32,
        symbol(symbol_value(c)) == c,
{
}

proof fn lemma_byte_bits(a: u8, b: u8, c: u8, d: u8, e: u8, f: u8, g: u8, h: u8)
    by (bit_vector)
    requires
        a <= 1,
        b <= 1,
        c <= 1,
        d <= 1,
        e <= 1,
        f <= 1,
        g <= 1,
        h <= 1,
    ensures
        ((((a << 7u8) | (b << 6u8) | (c << 5u8) | (d << 4u8) | (e << 3u8) | (f << 2u8) | (g << 1u8)
            | h) >> 7u8) & 1u8) == a,
        ((((a << 7u8) | (b << 6u8) | (c << 5u8) | (d << 4u8) | (e << 3u8) | (f << 2u8) | (g << 1u8)
            | h) >> 6u8) & 1u8) == b,
        ((((a << 7u8) | (b << 6u8) | (c << 5u8) | (d << 4u8) | (e << 3u8) | (f << 2u8) | (g << 1u8)
            | h) >> 5u8) & 1u8) == c,
        ((((a << 7u8) | (b << 6u8) | (c << 5u8) | (d << 4u8) | (e << 3u8) | (f << 2u8) | (g << 1u8)
            | h) >> 4u8) & 1u8) == d,
        ((((a << 7u8) | (b << 6u8) | (c << 5u8) | (d << 4u8) | (e << 3u8) | (f << 2u8) | (g << 1u8)
            | h) >> 3u8) & 1u8) == e,
        ((((a << 7u8) | (b << 6u8) | (c << 5u8) | (d << 4u8) | (e << 3u8) | (f << 2u8) | (g << 1u8)
            | h) >> 2u8) & 1u8) == f,
        ((((a << 7u8) | (b << 6u8) | (c << 5u8) | (d << 4u8) | (e << 3u8) | (f << 2u8) | (g << 1u8)
            | h) >> 1u8) & 1u8) == g,
        ((((a << 7u8) | (b << 6u8) | (c << 5u8) | (d << 4u8) | (e << 3u8) | (f << 2u8) | (g << 1u8)
            | h) >> 0u8) & 1u8) == h,
{
}

proof fn lemma_byte_rebuild(x: u8)
    by (bit_vector)
    ensures
        ((((x >> 7u8) & 1u8) << 7u8) | (((x >> 6u8) & 1u8) << 6u8) | (((x >> 5u8) & 1u8) << 5u8) | (
        ((x >> 4u8) & 1u8) << 4u8) | (((x >> 3u8) & 1u8) << 3u8) | (((x >> 2u8) & 1u8) << 2u8) | (((
        x >> 1u8) & 1u8) << 1u8) | ((x >> 0u8) & 1u8)) == x,
{
}

proof fn lemma_quint_rebuild(v: u8)
    by (bit_vector)
    requires
        v < 32,
    ensures
        ((((v >> 4u8) & 1u8) << 4u8) | (((v >> 3u8) & 1u8) << 3u8) | (((v >> 2u8) & 1u8) << 2u8) | (
        ((v >> 1u8) & 1u8) << 1u8) | ((v >> 0u8) & 1u8)) == v,
{
}

/// A byte is made of its eight bits.
proof fn lemma_byte_of_bits(b: Seq<u8>, k: int)
    requires
        0 <= k < b.len(),
    ensures
        b[k] == ((bit_at(b, 8 * k) << 7u8) | (bit_at(b, 8 * k + 1) << 6u8) | (bit_at(b, 8 * k + 2)
            << 5u8) | (bit_at(b, 8 * k + 3) << 4u8) | (bit_at(b, 8 * k + 4) << 3u8) | (bit_at(
            b,
            8 * k + 5,
        ) << 2u8) | (bit_at(b, 8 * k + 6) << 1u8) | bit_at(b, 8 * k + 7)),
{
    assert forall|s: int| 0 <= s < 8 implies #[trigger] bit_at(b, 8 * k + s) == (b[k] >> ((7 - s) as u8)) & 1u8 by {
        lemma_bit_position(k, s);
    }
    assert(bit_at(b, 8 * k) == (b[k] >> 7u8) & 1u8);
    assert(bit_at(b, 8 * k + 1) == (b[k] >> 6u8) & 1u8);
    assert(bit_at(b, 8 * k + 2) == (b[k] >> 5u8) & 1u8);
    assert(bit_at(b, 8 * k + 3) == (b[k] >> 4u8) & 1u8);
    assert(bit_at(b, 8 * k + 4) == (b[k] >> 3u8) & 1u8);
    assert(bit_at(b, 8 * k + 5) == (b[k] >> 2u8) & 1u8);
    assert(bit_at(b, 8 * k + 6) == (b[k] >> 1u8) & 1u8);
    assert(bit_at(b, 8 * k + 7) == (b[k] >> 0u8) & 1u8);
    lemma_byte_rebuild(b[k]);
}

/// Two byte strings with the same text are the same.
pub proof fn lemma_zbase32_injective(b1: Seq<u8>, b2: Seq<u8>)
    requires
        zbase32(b1) == zbase32(b2),
    ensures
        b1 == b2,
{
    lemma_encoded_len(b1.len());
    lemma_encoded_len(b2.len());
    assert(zbase32(b1).len() == encoded_len(b1.len()));
    assert(b1.len() == b2.len());
    assert forall|i: int| 0 <= i < encoded_len(b1.len()) implies quint_at(b1, i) == quint_at(b2, i) by {
        lemma_quint_at(b1, i);
        lemma_quint_at(b2, i);
        assert(zbase32(b1)[i] == zbase32(b2)[i]);
        assert(zbase32(b1)[i] == symbol(quint_at(b1, i) as int));
        assert(zbase32(b2)[i] == symbol(quint_at(b2, i) as int));
        lemma_symbol_inverse(quint_at(b1, i) as int);
        lemma_symbol_inverse(quint_at(b2, i) as int);
        assert(quint_at(b1, i) as int == quint_at(b2, i) as int);
    }
    assert forall|j: int| 0 <= j < 8 * b1.len() implies bit_at(b1, j) == bit_at(b2, j) by {
        let i = j / 5;
        let t = j % 5;
        assert(j == 5 * i + t);
        assert(5 * i < 8 * b1.len() + 4);
        assert(i < encoded_len(b1.len()));
        lemma_quint_at(b1, i);
        lemma_quint_at(b2, i);
        assert(bit_of_quint(quint_at(b1, i), t) == bit_at(b1, 5 * i + t));
        assert(bit_of_quint(quint_at(b2, i), t) == bit_at(b2, 5 * i + t));
    }
    assert forall|k: int| 0 <= k < b1.len() implies b1[k] == b2[k] by {
        lemma_byte_of_bits(b1, k);
        lemma_byte_of_bits(b2, k);
        assert(bit_at(b1, 8 * k) == bit_at(b2, 8 * k));
        assert(bit_at(b1, 8 * k + 1) == bit_at(b2, 8 * k + 1));
        assert(bit_at(b1, 8 * k + 2) == bit_at(b2, 8 * k + 2));
        assert(bit_at(b1, 8 * k + 3) == bit_at(b2, 8 * k + 3));
        assert(bit_at(b1, 8 * k + 4) == bit_at(b2, 8 * k + 4));
        assert(bit_at(b1, 8 * k + 5) == bit_at(b2, 8 * k + 5));
        assert(bit_at(b1, 8 * k + 6) == bit_at(b2, 8 * k + 6));
        assert(bit_at(b1, 8 * k + 7) == bit_at(b2, 8 * k + 7));
    }
    assert(b1 =~= b2);
}

proof fn lemma_quint_bit_small(vals: Seq<u8>, j: int)
    ensures
        quint_bit(vals, j) <= 1,
{
    lemma_bit_small(vals[j / 5], (4 - j % 5) as u8);
}

/// Bit `j` of bytes built from five-bit values is the values' bit `j`.
proof fn lemma_bit_of_built_bytes(bytes: Seq<u8>, vals: Seq<u8>, pad: int, j: int)
    requires
        5 * vals.len() - 8 * bytes.len() == pad,
        0 <= pad <= 4,
        forall|u: int| 5 - pad <= u < 5 ==> #[trigger] bit_of_quint(vals[vals.len() - 1], u) == 0,
        forall|x: int| 0 <= x < bytes.len() ==> #[trigger] bytes[x] == byte_from_quints(vals, x),
        0 <= j < 5 * vals.len(),
    ensures
        bit_at(bytes, j) == quint_bit(vals, j),
{
    if j < 8 * bytes.len() {
        let x = j / 8;
        let s = j % 8;
        assert(j == 8 * x + s);
        lemma_quint_bit_small(vals, 8 * x);
        lemma_quint_bit_small(vals, 8 * x + 1);
        lemma_quint_bit_small(vals, 8 * x + 2);
        lemma_quint_bit_small(vals, 8 * x + 3);
        lemma_quint_bit_small(vals, 8 * x + 4);
        lemma_quint_bit_small(vals, 8 * x + 5);
        lemma_quint_bit_small(vals, 8 * x + 6);
        lemma_quint_bit_small(vals, 8 * x + 7);
        lemma_byte_bits(
            quint_bit(vals, 8 * x),
            quint_bit(vals, 8 * x + 1),
            quint_bit(vals, 8 * x + 2),
            quint_bit(vals, 8 * x + 3),
            quint_bit(vals, 8 * x + 4),
            quint_bit(vals, 8 * x + 5),
            quint_bit(vals, 8 * x + 6),
            quint_bit(vals, 8 * x + 7),
        );
        assert(bytes[x] == byte_from_quints(vals, x));
        if s == 0 {} else if s == 1 {} else if s == 2 {} else if s == 3 {}
        else if s == 4 {} else if s == 5 {} else if s == 6 {} else {}
    } else {
        let last = vals.len() - 1;
        assert(j / 5 == last && 5 - pad <= j % 5 < 5);
    }
}

/// Bytes built from the symbol values of `text`, with zero bits past the
/// last byte, have `text` as their text.
proof fn lemma_text_of_quints(bytes: Seq<u8>, vals: Seq<u8>, text: Seq<char>, pad: int)
    requires
        vals.len() == text.len(),
        bytes.len() == decoded_len(text.len()),
        valid_text_len(text.len()),
        forall|k: int| 0 <= k < vals.len() ==> vals[k] < 32 && #[trigger] vals[k] as int == symbol_value(text[k]),
        5 * vals.len() - 8 * bytes.len() == pad,
        0 <= pad <= 4,
        forall|u: int| 5 - pad <= u < 5 ==> #[trigger] bit_of_quint(vals[vals.len() - 1], u) == 0,
        forall|x: int| 0 <= x < bytes.len() ==> #[trigger] bytes[x] == byte_from_quints(vals, x),
    ensures
        zbase32(bytes) == text,
{
    lemma_decoded_len(text.len());
    assert forall|i: int| 0 <= i < text.len() implies #[trigger] zbase32(bytes)[i] == text[i] by {
        lemma_bit_of_built_bytes(bytes, vals, pad, 5 * i);
        lemma_bit_of_built_bytes(bytes, vals, pad, 5 * i + 1);
        lemma_bit_of_built_bytes(bytes, vals, pad, 5 * i + 2);
        lemma_bit_of_built_bytes(bytes, vals, pad, 5 * i + 3);
        lemma_bit_of_built_bytes(bytes, vals, pad, 5 * i + 4);
        assert((5 * i) / 5 == i && (5 * i) % 5 == 0);
        assert((5 * i + 1) / 5 == i && (5 * i + 1) % 5 == 1);
        assert((5 * i + 2) / 5 == i && (5 * i + 2) % 5 == 2);
        assert((5 * i + 3) / 5 == i && (5 * i + 3) % 5 == 3);
        assert((5 * i + 4) / 5 == i && (5 * i + 4) % 5 == 4);
        assert(bit_at(bytes, 5 * i) == bit_of_quint(vals[i], 0));
        assert(bit_at(bytes, 5 * i + 1) == bit_of_quint(vals[i], 1));
        assert(bit_at(bytes, 5 * i + 2) == bit_of_quint(vals[i], 2));
        assert(bit_at(bytes, 5 * i + 3) == bit_of_quint(vals[i], 3));
        assert(bit_at(bytes, 5 * i + 4) == bit_of_quint(vals[i], 4));
        lemma_quint_rebuild(vals[i]);
        assert(quint_at(bytes, i) == vals[i]);
        lemma_symbol_value(text[i]);
    }
    assert(zbase32(bytes) =~= text);
}

/// The value of symbol `c`, or `None` where `c` is not in the alphabet.
fn value_of_symbol(c: char) -> (r: Option<u8>)
    ensures
        match r {
            Some(v) => v as int == symbol_value(c),
            None => symbol_value(c) == -1,
        },
{
    match c {
        'y' => Some(0),
        'b' => Some(1),
        'n' => Some(2),
        'd' => Some(3),
        'r' => Some(4),
        'f' => Some(5),
        'g' => Some(6),
        '8' => Some(7),
        'e' => Some(8),
        'j' => Some(9),
        'k' => Some(10),
        'm' => Some(11),
        'c' => Some(12),
        'p' => Some(13),
        'q' => Some(14),
        'x' => Some(15),
        'o' => Some(16),
        't' => Some(17),
        '1' => Some(18),
        'u' => Some(19),
        'w' => Some(20),
        'i' => Some(21),
        's' => Some(22),
        'z' => Some(23),
        'a' => Some(24),
        '3' => Some(25),
        '4' => Some(26),
        '5' => Some(27),
        'h' => Some(28),
        '7' => Some(29),
        '6' => Some(30),
        '9' => Some(31),
        _ => None,
    }
}

/// Bit `t` of the five-bit value `v`, as `bit_of_quint` reads it.
fn bit_of_quint_exec(v: u8, t: usize) -> (r: u8)
    requires
        t < 5,
    ensures
        r == bit_of_quint(v, t as int),
{
    (v >> ((4 - t) as u8)) & 1u8
}

/// Bit `8 * k + s` of the five-bit values `vals`.
fn quint_bit_exec(vals: &Vec<u8>, k: usize, s: usize) -> (r: u8)
    requires
        s < 8,
        (8 * k + s) / 5 < vals@.len(),
    ensures
        r == quint_bit(vals@, 8 * k + s),
{
    proof {
        lemma_bit_position(k as int, s as int);
    }
    let g: usize = k / 5;
    let lb: usize = 8 * (k % 5) + s;
    assert(8 * g + lb / 5 == (8 * k + s) / 5);
    let len: usize = vals.len();
    assert(8 * g < len);
    let idx: usize = 8 * g + lb / 5;
    bit_of_quint_exec(vals[idx], lb % 5)
}

/// The bytes whose z-base-32 text is `text`, or `None` where there are none.
pub fn decode(text: &str) -> (r: Option<Vec<u8>>)
    ensures
        match r {
            Some(v) => zbase32(v@) == text@,
            None => forall|b: Seq<u8>| #[trigger] zbase32(b) != text@,
        },
{
    let m: usize = text.unicode_len();
    let rem: usize = m % 8;
    if !(rem == 0 || rem == 2 || rem == 4 || rem == 5 || rem == 7) {
        proof {
            assert forall|b: Seq<u8>| #[trigger] zbase32(b) != text@ by {
                lemma_encoded_len(b.len());
            }
        }
        return None;
    }
    let n: usize = m / 8 * 5 + rem * 5 / 8;
    proof {
        lemma_decoded_len(m as nat);
        assert(n == decoded_len(m as nat));
    }
    // Every byte string with this text has `n` bytes.
    assert forall|b: Seq<u8>| #[trigger] zbase32(b) == text@ implies b.len() == n by {
        lemma_encoded_len(b.len());
    }
    let mut vals: Vec<u8> = Vec::new();
    let mut i: usize = 0;
    while i < m
        invariant
            i <= m,
            m == text@.len(),
            vals@.len() == i,
            forall|k: int| 0 <= k < i ==> vals@[k] < 32 && #[trigger] vals@[k] as int == symbol_value(text@[k]),
        decreases m - i,
    {
        let c = text.get_char(i);
        match value_of_symbol(c) {
            Some(v) => {
                proof {
                    lemma_symbol_value(c);
                }
                vals.push(v);
            },
            None => {
                proof {
                    assert forall|b: Seq<u8>| #[trigger] zbase32(b) != text@ by {
                        if zbase32(b) == text@ {
                            lemma_quint_at(b, i as int);
                            lemma_symbol_inverse(quint_at(b, i as int) as int);
                            assert(zbase32(b)[i as int] == symbol(quint_at(b, i as int) as int));
                        }
                    }
                }
                return None;
            },
        }
        i += 1;
    }
    // A symbol's value is the five bits that any byte string with this text has there.
    assert forall|b: Seq<u8>, k: int| zbase32(b) == text@ && 0 <= k < m implies #[trigger] quint_at(b, k) == vals@[k] by {
        lemma_quint_at(b, k);
        lemma_symbol_inverse(quint_at(b, k) as int);
        assert(zbase32(b)[k] == symbol(quint_at(b, k) as int));
        assert(vals@[k] as int == symbol_value(text@[k]));
    }
    // The bits past the last byte are zero.
    let pad: usize = (rem * 5) % 8;
    proof {
        assert(5 * m - 8 * n == pad);
    }
    let mut t: usize = 5 - pad;
    while t < 5
        invariant
            5 - pad <= t <= 5,
            pad <= 4,
            pad > 0 ==> m >= 1,
            5 * m - 8 * n == pad,
            vals@.len() == m,
            forall|u: int| 5 - pad <= u < t ==> #[trigger] bit_of_quint(vals@[m - 1], u) == 0,
            m == text@.len(),
            forall|b: Seq<u8>| #[trigger] zbase32(b) == text@ ==> b.len() == n,
            forall|b: Seq<u8>, k: int|
                zbase32(b) == text@ && 0 <= k < m ==> #[trigger] quint_at(b, k) == vals@[k],
        decreases 5 - t,
    {
        if bit_of_quint_exec(vals[m - 1], t) != 0 {
            proof {
                assert forall|b: Seq<u8>| #[trigger] zbase32(b) != text@ by {
                    if zbase32(b) == text@ {
                        let last = m - 1;
                        assert(quint_at(b, last) == vals@[last]);
                        lemma_quint_at(b, last);
                        assert(bit_of_quint(quint_at(b, last), t as int) == bit_at(b, 5 * last + t));
                    }
                }
            }
            return None;
        }
        t += 1;
    }
    let mut bytes: Vec<u8> = Vec::new();
    let mut k: usize = 0;
    while k < n
        invariant
            k <= n,
            n == decoded_len(m as nat),
            5 * m - 8 * n == pad,
            vals@.len() == m,
            bytes@.len() == k,
            forall|x: int| 0 <= x < k ==> #[trigger] bytes@[x] == byte_from_quints(vals@, x),
        decreases n - k,
    {
        let byte: u8 = ((quint_bit_exec(&vals, k, 0) << 7u8) | (quint_bit_exec(&vals, k, 1) << 6u8)
            | (quint_bit_exec(&vals, k, 2) << 5u8) | (quint_bit_exec(&vals, k, 3) << 4u8) | (
        quint_bit_exec(&vals, k, 4) << 3u8) | (quint_bit_exec(&vals, k, 5) << 2u8) | (
        quint_bit_exec(&vals, k, 6) << 1u8) | quint_bit_exec(&vals, k, 7));
        bytes.push(byte);
        k += 1;
    }
    proof {
        lemma_text_of_quints(bytes@, vals@, text@, pad as int);
    }
    Some(bytes)
}

} // verus!
