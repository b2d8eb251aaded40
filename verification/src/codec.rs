//! Text and byte encodings of 64-bit numbers used across the service:
//! decimal keys, hexadecimal short URLs, big-endian log keys and the
//! lowercase hex form of digests.
use vstd::prelude::*;

verus! {

/// Appends one character to a string (`String::push`).
#[verifier::external_body]
pub(crate) fn push_char(s: &mut String, c: char)
    ensures
        final(s)@ == old(s)@.push(c),
{
    s.push(c);
}

/// The characters of a string slice, in order.
pub fn chars_of(s: &str) -> (r: Vec<char>)
    ensures
        r@ == s@,
{
    let mut out: Vec<char> = Vec::new();
    for c in it: s.chars()
        invariant
            it.seq() == s@,
            out@ == it.seq().take(it.index() as int),
    {
        out.push(c);
    }
    out
}


/// The lowercase hexadecimal digit for a value below sixteen.
pub open spec fn hex_digit_char(d: nat) -> char {
    if d == 0 { '0' } else if d == 1 { '1' } else if d == 2 { '2' } else if d == 3 { '3' }
    else if d == 4 { '4' } else if d == 5 { '5' } else if d == 6 { '6' } else if d == 7 { '7' }
    else if d == 8 { '8' } else if d == 9 { '9' } else if d == 10 { 'a' } else if d == 11 { 'b' }
    else if d == 12 { 'c' } else if d == 13 { 'd' } else if d == 14 { 'e' } else { 'f' }
}

/// The decimal representation of `n`, without sign or leading zeros
/// (what `n.to_string()` gives for an unsigned integer).
pub open spec fn decimal_of(n: nat) -> Seq<char>
    decreases n,
{
    if n < 10 {
        seq![hex_digit_char(n)]
    } else {
        decimal_of(n / 10).push(hex_digit_char(n % 10))
    }
}

/// The lowercase hexadecimal representation of `n`, without prefix or
/// leading zeros (what `format!("{:x}", n)` gives).
pub open spec fn hex_of(n: nat) -> Seq<char>
    decreases n,
{
    if n < 16 {
        seq![hex_digit_char(n)]
    } else {
        hex_of(n / 16).push(hex_digit_char(n % 16))
    }
}

/// Decimal texts are never empty.
pub proof fn lemma_decimal_nonempty(n: nat)
    ensures
        decimal_of(n).len() >= 1,
    decreases n,
{
    if n >= 10 {
        lemma_decimal_nonempty(n / 10);
    }
}

proof fn lemma_digit_char_injective(x: nat, y: nat)
    requires
        x < 10,
        y < 10,
        hex_digit_char(x) == hex_digit_char(y),
    ensures
        x == y,
{
    assert(x == 0 || x == 1 || x == 2 || x == 3 || x == 4 || x == 5 || x == 6 || x == 7 || x == 8 || x == 9);
    assert(y == 0 || y == 1 || y == 2 || y == 3 || y == 4 || y == 5 || y == 6 || y == 7 || y == 8 || y == 9);
}

/// Different numbers have different decimal texts.
pub proof fn lemma_decimal_injective(a: nat, b: nat)
    requires
        decimal_of(a) == decimal_of(b),
    ensures
        a == b,
    decreases a + b,
{
    if a < 10 && b < 10 {
        assert(decimal_of(a)[0] == hex_digit_char(a));
        assert(decimal_of(b)[0] == hex_digit_char(b));
        lemma_digit_char_injective(a, b);
    } else if a < 10 {
        lemma_decimal_nonempty(b / 10);
        assert(decimal_of(b).len() >= 2);
    } else if b < 10 {
        lemma_decimal_nonempty(a / 10);
        assert(decimal_of(a).len() >= 2);
    } else {
        assert(decimal_of(a).last() == hex_digit_char(a % 10));
        assert(decimal_of(b).last() == hex_digit_char(b % 10));
        assert(decimal_of(a).drop_last() =~= decimal_of(a / 10));
        assert(decimal_of(b).drop_last() =~= decimal_of(b / 10));
        lemma_digit_char_injective(a % 10, b % 10);
        lemma_decimal_injective(a / 10, b / 10);
    }
}

fn digit_char(d: u64) -> (c: char)
    requires
        d < 16,
    ensures
        c == hex_digit_char(d as nat),
{
    if d == 0 { '0' } else if d == 1 { '1' } else if d == 2 { '2' } else if d == 3 { '3' }
    else if d == 4 { '4' } else if d == 5 { '5' } else if d == 6 { '6' } else if d == 7 { '7' }
    else if d == 8 { '8' } else if d == 9 { '9' } else if d == 10 { 'a' } else if d == 11 { 'b' }
    else if d == 12 { 'c' } else if d == 13 { 'd' } else if d == 14 { 'e' } else { 'f' }
}

fn push_decimal(s: &mut String, n: u64)
    ensures
        final(s)@ == old(s)@ + decimal_of(n as nat),
    decreases n,
{
    if n >= 10 {
        push_decimal(s, n / 10);
    }
    push_char(s, digit_char(n % 10));
    proof {
        if n >= 10 {
            assert(old(s)@ + decimal_of(n as nat) =~= old(s)@ + decimal_of((n / 10) as nat) + seq![hex_digit_char((n % 10) as nat)]);
        } else {
            assert(n % 10 == n);
        }
    }
}

fn push_hex(s: &mut String, n: u64)
    ensures
        final(s)@ == old(s)@ + hex_of(n as nat),
    decreases n,
{
    if n >= 16 {
        push_hex(s, n / 16);
    }
    push_char(s, digit_char(n % 16));
    proof {
        if n >= 16 {
            assert(old(s)@ + hex_of(n as nat) =~= old(s)@ + hex_of((n / 16) as nat) + seq![hex_digit_char((n % 16) as nat)]);
        } else {
            assert(n % 16 == n);
        }
    }
}

/// The decimal text of `n`, as `n.to_string()` writes it.
pub fn u64_to_decimal(n: u64) -> (r: String)
    ensures
        r@ == decimal_of(n as nat),
{
    let mut s = String::new();
    push_decimal(&mut s, n);
    assert(s@ =~= decimal_of(n as nat));
    s
}

/// The lowercase hexadecimal text of `n`, as `format!("{:x}", n)` writes it.
pub fn u64_to_hex(n: u64) -> (r: String)
    ensures
        r@ == hex_of(n as nat),
{
    let mut s = String::new();
    push_hex(&mut s, n);
    assert(s@ =~= hex_of(n as nat));
    s
}


/// Why a text is not the hexadecimal form of a `u64` (the kinds of
/// `std::num::ParseIntError` that unsigned parsing can produce).
#[derive(Clone, Copy, Debug, PartialEq, Eq, Structural)]
pub enum IntErrorKind {
    /// The text is empty.
    Empty,
    /// The text holds a character that is not a digit of the radix.
    InvalidDigit,
    /// The value does not fit in a `u64`.
    PosOverflow,
}

/// The value of a hexadecimal digit, either case.
pub open spec fn hex_value(c: char) -> Option<nat> {
    if '0' <= c && c <= '9' {
        Some((c as int - '0' as int) as nat)
    } else if 'a' <= c && c <= 'f' {
        Some((c as int - 'a' as int + 10) as nat)
    } else if 'A' <= c && c <= 'F' {
        Some((c as int - 'A' as int + 10) as nat)
    } else {
        None
    }
}

/// Reads hexadecimal digits from the front, starting from the value `acc`
/// already read; the first character that is no digit, or the first step
/// that leaves the range of `u64`, ends the reading with an error.
pub open spec fn hex_fold(d: Seq<char>, acc: nat) -> Result<nat, IntErrorKind>
    decreases d.len(),
{
    if d.len() == 0 {
        Ok(acc)
    } else {
        match hex_value(d[0]) {
            None => Err(IntErrorKind::InvalidDigit),
            Some(v) => if acc * 16 + v > u64::MAX {
                Err(IntErrorKind::PosOverflow)
            } else {
                hex_fold(d.drop_first(), acc * 16 + v)
            },
        }
    }
}

/// What `u64::from_str_radix(s, 16)` gives: an optional leading `+`
/// followed by at least one hexadecimal digit.
pub open spec fn parse_hex_spec(s: Seq<char>) -> Result<u64, IntErrorKind> {
    if s.len() == 0 {
        Err(IntErrorKind::Empty)
    } else if (s[0] == '+' || s[0] == '-') && s.len() == 1 {
        Err(IntErrorKind::InvalidDigit)
    } else {
        let digits = if s[0] == '+' { s.drop_first() } else { s };
        match hex_fold(digits, 0) {
            Ok(v) => Ok(v as u64),
            Err(e) => Err(e),
        }
    }
}

fn hex_value_exec(c: char) -> (r: Option<u64>)
    ensures
        match hex_value(c) {
            Some(v) => r == Some(v as u64) && v < 16,
            None => r is None,
        },
{
    if '0' <= c && c <= '9' {
        Some(((c as u32) - ('0' as u32)) as u64)
    } else if 'a' <= c && c <= 'f' {
        Some(((c as u32) - ('a' as u32) + 10) as u64)
    } else if 'A' <= c && c <= 'F' {
        Some(((c as u32) - ('A' as u32) + 10) as u64)
    } else {
        None
    }
}

/// Parses the hexadecimal text of a short URL, as
/// `u64::from_str_radix(s, 16)` does.
pub fn parse_hex_u64(s: &str) -> (r: Result<u64, IntErrorKind>)
    ensures
        r == parse_hex_spec(s@),
{
    let cs = chars_of(s);
    let n = cs.len();
    if n == 0 {
        return Err(IntErrorKind::Empty);
    }
    if (cs[0] == '+' || cs[0] == '-') && n == 1 {
        return Err(IntErrorKind::InvalidDigit);
    }
    let start: usize = if cs[0] == '+' { 1 } else { 0 };
    let ghost digits = if cs@[0] == '+' { cs@.drop_first() } else { cs@ };
    assert(digits =~= cs@.skip(start as int));
    let mut acc: u64 = 0;
    let mut i: usize = start;
    while i < n
        invariant
            start <= i <= n,
            n == cs@.len(),
            cs@ == s@,
            s@.len() > 0,
            !((s@[0] == '+' || s@[0] == '-') && s@.len() == 1),
            digits == (if s@[0] == '+' { s@.drop_first() } else { s@ }),
            hex_fold(digits, 0) == hex_fold(cs@.skip(i as int), acc as nat),
        decreases n - i,
    {
        let c = cs[i];
        assert(cs@.skip(i as int)[0] == c);
        assert(cs@.skip(i as int).drop_first() =~= cs@.skip(i + 1));
        match hex_value_exec(c) {
            None => {
                return Err(IntErrorKind::InvalidDigit);
            },
            Some(v) => {
                if acc > (u64::MAX - v) / 16 {
                    assert(acc * 16 + v > u64::MAX) by (nonlinear_arith)
                        requires
                            acc > (u64::MAX - v) / 16,
                            v < 16,
                    ;
                    return Err(IntErrorKind::PosOverflow);
                }
                assert(acc * 16 + v <= u64::MAX) by (nonlinear_arith)
                    requires
                        acc <= (u64::MAX - v) / 16,
                        v < 16,
                ;
                acc = acc * 16 + v;
            },
        }
        i = i + 1;
    }
    assert(cs@.skip(n as int).len() == 0);
    Ok(acc)
}


proof fn lemma_hex_value_of_digit(d: nat)
    requires
        d < 16,
    ensures
        hex_value(hex_digit_char(d)) == Some(d),
{
}

proof fn lemma_hex_fold_append(a: Seq<char>, b: Seq<char>, acc: nat)
    ensures
        hex_fold(a + b, acc) == (match hex_fold(a, acc) {
            Ok(x) => hex_fold(b, x),
            Err(e) => Err(e),
        }),
    decreases a.len(),
{
    if a.len() == 0 {
        assert(a + b =~= b);
    } else {
        assert((a + b).drop_first() =~= a.drop_first() + b);
        assert((a + b)[0] == a[0]);
        if let Some(v) = hex_value(a[0]) {
            if acc * 16 + v <= u64::MAX {
                lemma_hex_fold_append(a.drop_first(), b, acc * 16 + v);
            }
        }
    }
}

proof fn lemma_hex_of_reads_back(n: nat)
    requires
        n <= u64::MAX,
    ensures
        hex_fold(hex_of(n), 0) == Ok::<nat, IntErrorKind>(n),
        hex_of(n).len() > 0,
        hex_value(hex_of(n)[0]) is Some,
    decreases n,
{
    if n < 16 {
        lemma_hex_value_of_digit(n);
        let one = seq![hex_digit_char(n)];
        assert(one.drop_first().len() == 0);
        assert(hex_fold(one.drop_first(), n) == Ok::<nat, IntErrorKind>(n));
    } else {
        lemma_hex_of_reads_back(n / 16);
        lemma_hex_value_of_digit(n % 16);
        let c = hex_digit_char(n % 16);
        assert(hex_of(n) =~= hex_of(n / 16) + seq![c]);
        lemma_hex_fold_append(hex_of(n / 16), seq![c], 0);
        assert(seq![c].drop_first().len() == 0);
        assert((n / 16) * 16 + n % 16 == n);
        assert(hex_fold(seq![c].drop_first(), n) == Ok::<nat, IntErrorKind>(n));
        assert(hex_of(n)[0] == hex_of(n / 16)[0]);
    }
}

/// A short URL reads back as the hash it was made from: parsing the
/// lowercase hexadecimal text of `n` gives `n`.
pub proof fn lemma_hex_round_trip(n: u64)
    ensures
        parse_hex_spec(hex_of(n as nat)) == Ok::<u64, IntErrorKind>(n),
{
    lemma_hex_of_reads_back(n as nat);
    let s = hex_of(n as nat);
    assert(s[0] != '+' && s[0] != '-');
}


/// The `i`-th byte, most significant first, of the eight-byte big-endian
/// form of `n`.
pub open spec fn be_byte(n: u64, i: int) -> u8 {
    if i == 0 { ((n >> 56u64) & 0xffu64) as u8 }
    else if i == 1 { ((n >> 48u64) & 0xffu64) as u8 }
    else if i == 2 { ((n >> 40u64) & 0xffu64) as u8 }
    else if i == 3 { ((n >> 32u64) & 0xffu64) as u8 }
    else if i == 4 { ((n >> 24u64) & 0xffu64) as u8 }
    else if i == 5 { ((n >> 16u64) & 0xffu64) as u8 }
    else if i == 6 { ((n >> 8u64) & 0xffu64) as u8 }
    else { (n & 0xffu64) as u8 }
}

/// The eight-byte big-endian form of `n`.
pub open spec fn be_bytes(n: u64) -> Seq<u8> {
    Seq::new(8, |i: int| be_byte(n, i))
}

/// The number whose big-endian form starts `b` (its first eight bytes).
pub open spec fn be_value(b: Seq<u8>) -> u64 {
    ((b[0] as u64) << 56u64) | ((b[1] as u64) << 48u64) | ((b[2] as u64) << 40u64)
        | ((b[3] as u64) << 32u64) | ((b[4] as u64) << 24u64) | ((b[5] as u64) << 16u64)
        | ((b[6] as u64) << 8u64) | (b[7] as u64)
}

/// Lexicographic order on byte strings, the order in which an ordered
/// key-value store walks its keys.
pub open spec fn bytes_lt(a: Seq<u8>, b: Seq<u8>) -> bool {
    ||| exists|k: int| 0 <= k < a.len() && k < b.len() && a.take(k) == b.take(k) && #[trigger] a[k] < b[k]
    ||| (a.len() < b.len() && a == b.take(a.len() as int))
}

/// Encodes a log index as a storage key: its eight bytes, most significant
/// first.
pub fn id_to_bin(id: u64) -> (r: Vec<u8>)
    ensures
        r@ == be_bytes(id),
{
    let mut buf: Vec<u8> = Vec::with_capacity(8);
    buf.push(((id >> 56u64) & 0xffu64) as u8);
    buf.push(((id >> 48u64) & 0xffu64) as u8);
    buf.push(((id >> 40u64) & 0xffu64) as u8);
    buf.push(((id >> 32u64) & 0xffu64) as u8);
    buf.push(((id >> 24u64) & 0xffu64) as u8);
    buf.push(((id >> 16u64) & 0xffu64) as u8);
    buf.push(((id >> 8u64) & 0xffu64) as u8);
    buf.push((id & 0xffu64) as u8);
    assert(buf@ =~= be_bytes(id));
    buf
}

/// Decodes a storage key back to the log index: the big-endian value of
/// its first eight bytes.
pub fn bin_to_id(buf: &[u8]) -> (r: u64)
    requires
        buf@.len() >= 8,
    ensures
        r == be_value(buf@),
{
    ((buf[0] as u64) << 56u64) | ((buf[1] as u64) << 48u64) | ((buf[2] as u64) << 40u64)
        | ((buf[3] as u64) << 32u64) | ((buf[4] as u64) << 24u64) | ((buf[5] as u64) << 16u64)
        | ((buf[6] as u64) << 8u64) | (buf[7] as u64)
}

/// A storage key reads back as the log index it encodes.
pub proof fn lemma_key_round_trip(id: u64)
    ensures
        be_value(be_bytes(id)) == id,
{
    let b = be_bytes(id);
    let (b0, b1, b2, b3, b4, b5, b6, b7) = (b[0], b[1], b[2], b[3], b[4], b[5], b[6], b[7]);
    assert(((b0 as u64) << 56u64) | ((b1 as u64) << 48u64) | ((b2 as u64) << 40u64)
        | ((b3 as u64) << 32u64) | ((b4 as u64) << 24u64) | ((b5 as u64) << 16u64)
        | ((b6 as u64) << 8u64) | (b7 as u64) == id) by (bit_vector)
        requires
            b0 == ((id >> 56u64) & 0xffu64) as u8,
            b1 == ((id >> 48u64) & 0xffu64) as u8,
            b2 == ((id >> 40u64) & 0xffu64) as u8,
            b3 == ((id >> 32u64) & 0xffu64) as u8,
            b4 == ((id >> 24u64) & 0xffu64) as u8,
            b5 == ((id >> 16u64) & 0xffu64) as u8,
            b6 == ((id >> 8u64) & 0xffu64) as u8,
            b7 == (id & 0xffu64) as u8,
    ;
}


proof fn lemma_byte_prefix_lt(x: u64, y: u64, k: int)
    requires
        0 <= k < 8,
        forall|j: int| 0 <= j < k ==> be_byte(x, j) == be_byte(y, j),
        be_byte(x, k) < be_byte(y, k),
    ensures
        x < y,
{
    let e = |j: int| be_byte(x, j) == be_byte(y, j);
    if k > 0 { assert(e(0)); }
    if k > 1 { assert(e(1)); }
    if k > 2 { assert(e(2)); }
    if k > 3 { assert(e(3)); }
    if k > 4 { assert(e(4)); }
    if k > 5 { assert(e(5)); }
    if k > 6 { assert(e(6)); }
        if k == 0 {
            assert(x < y) by (bit_vector)
                requires
                    (((x >> 56u64) & 0xffu64) as u8) < (((y >> 56u64) & 0xffu64) as u8),
            ;
        }
        else if k == 1 {
            assert(x < y) by (bit_vector)
                requires
                    (((x >> 56u64) & 0xffu64) as u8) == (((y >> 56u64) & 0xffu64) as u8),
                    (((x >> 48u64) & 0xffu64) as u8) < (((y >> 48u64) & 0xffu64) as u8),
            ;
        }
        else if k == 2 {
            assert(x < y) by (bit_vector)
                requires
                    (((x >> 56u64) & 0xffu64) as u8) == (((y >> 56u64) & 0xffu64) as u8),
                    (((x >> 48u64) & 0xffu64) as u8) == (((y >> 48u64) & 0xffu64) as u8),
                    (((x >> 40u64) & 0xffu64) as u8) < (((y >> 40u64) & 0xffu64) as u8),
            ;
        }
        else if k == 3 {
            assert(x < y) by (bit_vector)
                requires
                    (((x >> 56u64) & 0xffu64) as u8) == (((y >> 56u64) & 0xffu64) as u8),
                    (((x >> 48u64) & 0xffu64) as u8) == (((y >> 48u64) & 0xffu64) as u8),
                    (((x >> 40u64) & 0xffu64) as u8) == (((y >> 40u64) & 0xffu64) as u8),
                    (((x >> 32u64) & 0xffu64) as u8) < (((y >> 32u64) & 0xffu64) as u8),
            ;
        }
        else if k == 4 {
            assert(x < y) by (bit_vector)
                requires
                    (((x >> 56u64) & 0xffu64) as u8) == (((y >> 56u64) & 0xffu64) as u8),
                    (((x >> 48u64) & 0xffu64) as u8) == (((y >> 48u64) & 0xffu64) as u8),
                    (((x >> 40u64) & 0xffu64) as u8) == (((y >> 40u64) & 0xffu64) as u8),
                    (((x >> 32u64) & 0xffu64) as u8) == (((y >> 32u64) & 0xffu64) as u8),
                    (((x >> 24u64) & 0xffu64) as u8) < (((y >> 24u64) & 0xffu64) as u8),
            ;
        }
        else if k == 5 {
            assert(x < y) by (bit_vector)
                requires
                    (((x >> 56u64) & 0xffu64) as u8) == (((y >> 56u64) & 0xffu64) as u8),
                    (((x >> 48u64) & 0xffu64) as u8) == (((y >> 48u64) & 0xffu64) as u8),
                    (((x >> 40u64) & 0xffu64) as u8) == (((y >> 40u64) & 0xffu64) as u8),
                    (((x >> 32u64) & 0xffu64) as u8) == (((y >> 32u64) & 0xffu64) as u8),
                    (((x >> 24u64) & 0xffu64) as u8) == (((y >> 24u64) & 0xffu64) as u8),
                    (((x >> 16u64) & 0xffu64) as u8) < (((y >> 16u64) & 0xffu64) as u8),
            ;
        }
        else if k == 6 {
            assert(x < y) by (bit_vector)
                requires
                    (((x >> 56u64) & 0xffu64) as u8) == (((y >> 56u64) & 0xffu64) as u8),
                    (((x >> 48u64) & 0xffu64) as u8) == (((y >> 48u64) & 0xffu64) as u8),
                    (((x >> 40u64) & 0xffu64) as u8) == (((y >> 40u64) & 0xffu64) as u8),
                    (((x >> 32u64) & 0xffu64) as u8) == (((y >> 32u64) & 0xffu64) as u8),
                    (((x >> 24u64) & 0xffu64) as u8) == (((y >> 24u64) & 0xffu64) as u8),
                    (((x >> 16u64) & 0xffu64) as u8) == (((y >> 16u64) & 0xffu64) as u8),
                    (((x >> 8u64) & 0xffu64) as u8) < (((y >> 8u64) & 0xffu64) as u8),
            ;
        }
        else if k == 7 {
            assert(x < y) by (bit_vector)
                requires
                    (((x >> 56u64) & 0xffu64) as u8) == (((y >> 56u64) & 0xffu64) as u8),
                    (((x >> 48u64) & 0xffu64) as u8) == (((y >> 48u64) & 0xffu64) as u8),
                    (((x >> 40u64) & 0xffu64) as u8) == (((y >> 40u64) & 0xffu64) as u8),
                    (((x >> 32u64) & 0xffu64) as u8) == (((y >> 32u64) & 0xffu64) as u8),
                    (((x >> 24u64) & 0xffu64) as u8) == (((y >> 24u64) & 0xffu64) as u8),
                    (((x >> 16u64) & 0xffu64) as u8) == (((y >> 16u64) & 0xffu64) as u8),
                    (((x >> 8u64) & 0xffu64) as u8) == (((y >> 8u64) & 0xffu64) as u8),
                    ((x & 0xffu64) as u8) < ((y & 0xffu64) as u8),
            ;
        }
}

proof fn lemma_byte_prefix_le(x: u64, y: u64, k: int)
    requires
        0 <= k < 8,
        x < y,
        forall|j: int| 0 <= j < k ==> be_byte(x, j) == be_byte(y, j),
    ensures
        be_byte(x, k) <= be_byte(y, k),
{
    let e = |j: int| be_byte(x, j) == be_byte(y, j);
    if k > 0 { assert(e(0)); }
    if k > 1 { assert(e(1)); }
    if k > 2 { assert(e(2)); }
    if k > 3 { assert(e(3)); }
    if k > 4 { assert(e(4)); }
    if k > 5 { assert(e(5)); }
    if k > 6 { assert(e(6)); }
        if k == 0 {
            assert((((x >> 56u64) & 0xffu64) as u8) <= (((y >> 56u64) & 0xffu64) as u8)) by (bit_vector)
                requires
                    x < y,
            ;
        }
        else if k == 1 {
            assert((((x >> 48u64) & 0xffu64) as u8) <= (((y >> 48u64) & 0xffu64) as u8)) by (bit_vector)
                requires
                    x < y,
                    (((x >> 56u64) & 0xffu64) as u8) == (((y >> 56u64) & 0xffu64) as u8),
            ;
        }
        else if k == 2 {
            assert((((x >> 40u64) & 0xffu64) as u8) <= (((y >> 40u64) & 0xffu64) as u8)) by (bit_vector)
                requires
                    x < y,
                    (((x >> 56u64) & 0xffu64) as u8) == (((y >> 56u64) & 0xffu64) as u8),
                    (((x >> 48u64) & 0xffu64) as u8) == (((y >> 48u64) & 0xffu64) as u8),
            ;
        }
        else if k == 3 {
            assert((((x >> 32u64) & 0xffu64) as u8) <= (((y >> 32u64) & 0xffu64) as u8)) by (bit_vector)
                requires
                    x < y,
                    (((x >> 56u64) & 0xffu64) as u8) == (((y >> 56u64) & 0xffu64) as u8),
                    (((x >> 48u64) & 0xffu64) as u8) == (((y >> 48u64) & 0xffu64) as u8),
                    (((x >> 40u64) & 0xffu64) as u8) == (((y >> 40u64) & 0xffu64) as u8),
            ;
        }
        else if k == 4 {
            assert((((x >> 24u64) & 0xffu64) as u8) <= (((y >> 24u64) & 0xffu64) as u8)) by (bit_vector)
                requires
                    x < y,
                    (((x >> 56u64) & 0xffu64) as u8) == (((y >> 56u64) & 0xffu64) as u8),
                    (((x >> 48u64) & 0xffu64) as u8) == (((y >> 48u64) & 0xffu64) as u8),
                    (((x >> 40u64) & 0xffu64) as u8) == (((y >> 40u64) & 0xffu64) as u8),
                    (((x >> 32u64) & 0xffu64) as u8) == (((y >> 32u64) & 0xffu64) as u8),
            ;
        }
        else if k == 5 {
            assert((((x >> 16u64) & 0xffu64) as u8) <= (((y >> 16u64) & 0xffu64) as u8)) by (bit_vector)
                requires
                    x < y,
                    (((x >> 56u64) & 0xffu64) as u8) == (((y >> 56u64) & 0xffu64) as u8),
                    (((x >> 48u64) & 0xffu64) as u8) == (((y >> 48u64) & 0xffu64) as u8),
                    (((x >> 40u64) & 0xffu64) as u8) == (((y >> 40u64) & 0xffu64) as u8),
                    (((x >> 32u64) & 0xffu64) as u8) == (((y >> 32u64) & 0xffu64) as u8),
                    (((x >> 24u64) & 0xffu64) as u8) == (((y >> 24u64) & 0xffu64) as u8),
            ;
        }
        else if k == 6 {
            assert((((x >> 8u64) & 0xffu64) as u8) <= (((y >> 8u64) & 0xffu64) as u8)) by (bit_vector)
                requires
                    x < y,
                    (((x >> 56u64) & 0xffu64) as u8) == (((y >> 56u64) & 0xffu64) as u8),
                    (((x >> 48u64) & 0xffu64) as u8) == (((y >> 48u64) & 0xffu64) as u8),
                    (((x >> 40u64) & 0xffu64) as u8) == (((y >> 40u64) & 0xffu64) as u8),
                    (((x >> 32u64) & 0xffu64) as u8) == (((y >> 32u64) & 0xffu64) as u8),
                    (((x >> 24u64) & 0xffu64) as u8) == (((y >> 24u64) & 0xffu64) as u8),
                    (((x >> 16u64) & 0xffu64) as u8) == (((y >> 16u64) & 0xffu64) as u8),
            ;
        }
        else if k == 7 {
            assert(((x & 0xffu64) as u8) <= ((y & 0xffu64) as u8)) by (bit_vector)
                requires
                    x < y,
                    (((x >> 56u64) & 0xffu64) as u8) == (((y >> 56u64) & 0xffu64) as u8),
                    (((x >> 48u64) & 0xffu64) as u8) == (((y >> 48u64) & 0xffu64) as u8),
                    (((x >> 40u64) & 0xffu64) as u8) == (((y >> 40u64) & 0xffu64) as u8),
                    (((x >> 32u64) & 0xffu64) as u8) == (((y >> 32u64) & 0xffu64) as u8),
                    (((x >> 24u64) & 0xffu64) as u8) == (((y >> 24u64) & 0xffu64) as u8),
                    (((x >> 16u64) & 0xffu64) as u8) == (((y >> 16u64) & 0xffu64) as u8),
                    (((x >> 8u64) & 0xffu64) as u8) == (((y >> 8u64) & 0xffu64) as u8),
            ;
        }
}

/// Storage keys sort as the log indices they encode: the big-endian form
/// of `x` comes before that of `y` exactly when `x < y`.
pub proof fn lemma_key_order(x: u64, y: u64)
    ensures
        x < y <==> bytes_lt(be_bytes(x), be_bytes(y)),
{
    let a = be_bytes(x);
    let b = be_bytes(y);
    if bytes_lt(a, b) {
        let k = choose|k: int| 0 <= k < a.len() && k < b.len() && a.take(k) == b.take(k) && #[trigger] a[k] < b[k];
        assert forall|j: int| 0 <= j < k implies be_byte(x, j) == be_byte(y, j) by {
            assert(a.take(k)[j] == a[j]);
            assert(b.take(k)[j] == b[j]);
        }
        lemma_byte_prefix_lt(x, y, k);
    }
    if x < y {
        lemma_key_round_trip(x);
        lemma_key_round_trip(y);
        assert(a != b);
        let k = choose|k: int| 0 <= k < 8 && a[k] != b[k] && forall|j: int| 0 <= j < k ==> a[j] == b[j];
        assert(exists|k: int| 0 <= k < 8 && a[k] != b[k] && forall|j: int| 0 <= j < k ==> a[j] == b[j]) by {
            first_difference(a, b);
        }
        lemma_byte_prefix_le(x, y, k);
        assert(a.take(k) =~= b.take(k));
        assert(a[k] < b[k]);
    }
}

proof fn first_difference(a: Seq<u8>, b: Seq<u8>)
    requires
        a.len() == 8,
        b.len() == 8,
        a != b,
    ensures
        exists|k: int| 0 <= k < 8 && a[k] != b[k] && forall|j: int| 0 <= j < k ==> a[j] == b[j],
{
    if forall|k: int| 0 <= k < 8 ==> a[k] == b[k] {
        assert(a =~= b);
    }
    first_difference_from(a, b, 0);
}

proof fn first_difference_from(a: Seq<u8>, b: Seq<u8>, k: int)
    requires
        a.len() == 8,
        b.len() == 8,
        0 <= k <= 8,
        forall|j: int| 0 <= j < k ==> a[j] == b[j],
        exists|i: int| k <= i < 8 && a[i] != b[i],
    ensures
        exists|i: int| 0 <= i < 8 && a[i] != b[i] && forall|j: int| 0 <= j < i ==> a[j] == b[j],
    decreases 8 - k,
{
    if a[k] != b[k] {
        assert(0 <= k < 8 && a[k] != b[k] && forall|j: int| 0 <= j < k ==> a[j] == b[j]);
    } else {
        first_difference_from(a, b, k + 1);
    }
}


/// The two lowercase hexadecimal digits of a byte (`format!("{:02x}", b)`).
pub open spec fn hex_byte(b: u8) -> Seq<char> {
    seq![hex_digit_char((b / 16) as nat), hex_digit_char((b % 16) as nat)]
}

/// The lowercase hexadecimal text of a byte string, two digits per byte.
pub open spec fn hex_bytes(s: Seq<u8>) -> Seq<char>
    decreases s.len(),
{
    if s.len() == 0 {
        Seq::empty()
    } else {
        hex_bytes(s.drop_last()) + hex_byte(s.last())
    }
}

/// Writes each byte as two lowercase hexadecimal digits, in order.
pub fn bytes_to_hex(data: &[u8]) -> (r: String)
    ensures
        r@ == hex_bytes(data@),
        r@.len() == 2 * data@.len(),
{
    let mut out = String::new();
    let mut i: usize = 0;
    while i < data.len()
        invariant
            i <= data@.len(),
            out@ == hex_bytes(data@.take(i as int)),
            out@.len() == 2 * i,
        decreases data@.len() - i,
    {
        let b = data[i];
        push_char(&mut out, digit_char((b / 16) as u64));
        push_char(&mut out, digit_char((b % 16) as u64));
        assert(data@.take(i + 1).drop_last() =~= data@.take(i as int));
        assert(data@.take(i + 1).last() == b);
        i = i + 1;
    }
    assert(data@.take(data@.len() as int) =~= data@);
    out
}

} // verus!
