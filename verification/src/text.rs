//! Text forms of bytes and numbers: lower-case hexadecimal and decimal.

use vstd::prelude::*;
use vstd::string::StringExecFns;
use vstd::string::StringSliceAdditionalSpecFns;

verus! {

/// The character that stands for a digit below sixteen: `0` to `9`, then `a` to `f`.
pub open spec fn digit_char(d: int) -> char {
    if d == 0 {
        '0'
    } else if d == 1 {
        '1'
    } else if d == 2 {
        '2'
    } else if d == 3 {
        '3'
    } else if d == 4 {
        '4'
    } else if d == 5 {
        '5'
    } else if d == 6 {
        '6'
    } else if d == 7 {
        '7'
    } else if d == 8 {
        '8'
    } else if d == 9 {
        '9'
    } else if d == 10 {
        'a'
    } else if d == 11 {
        'b'
    } else if d == 12 {
        'c'
    } else if d == 13 {
        'd'
    } else if d == 14 {
        'e'
    } else {
        'f'
    }
}

/// Lower-case hexadecimal text of a byte sequence: two digits per byte, high digit first.
pub open spec fn hex_chars(bytes: Seq<u8>) -> Seq<char>
    decreases bytes.len(),
{
    if bytes.len() == 0 {
        Seq::empty()
    } else {
        hex_chars(bytes.drop_last()).push(digit_char(bytes.last() as int / 16)).push(
            digit_char(bytes.last() as int % 16),
        )
    }
}

/// Decimal text of a number, most significant digit first, without leading zeros.
pub open spec fn decimal_chars(n: nat) -> Seq<char>
    decreases n,
{
    if n < 10 {
        seq![digit_char(n as int)]
    } else {
        decimal_chars(n / 10).push(digit_char((n % 10) as int))
    }
}

/// The value of an ASCII hexadecimal digit, in either case; `None` for any other byte.
pub open spec fn nibble_of(c: u8) -> Option<u8> {
    if 0x30 <= c <= 0x39 {
        Some((c - 0x30) as u8)
    } else if 0x61 <= c <= 0x66 {
        Some((c - 0x61 + 10) as u8)
    } else if 0x41 <= c <= 0x46 {
        Some((c - 0x41 + 10) as u8)
    } else {
        None
    }
}

/// Whether a text is hexadecimal: an even number of bytes, each a hexadecimal digit.
pub open spec fn is_hex(text: Seq<u8>) -> bool {
    &&& text.len() % 2 == 0
    &&& forall|i: int| 0 <= i < text.len() ==> (#[trigger] nibble_of(text[i])) is Some
}

/// The bytes that a hexadecimal text stands for: byte `i` is made of digits `2i` and `2i + 1`.
pub open spec fn hex_value(text: Seq<u8>) -> Seq<u8> {
    Seq::new(
        text.len() / 2,
        |i: int| (nibble_of(text[2 * i]).unwrap() * 16 + nibble_of(text[2 * i + 1]).unwrap()) as u8,
    )
}

/// The ASCII code of the digit character for `d`.
pub open spec fn digit_code(d: int) -> u8 {
    if d < 10 {
        (0x30 + d) as u8
    } else {
        (0x61 + d - 10) as u8
    }
}

/// The text of `hex_chars`, as ASCII codes.
pub open spec fn hex_codes(bytes: Seq<u8>) -> Seq<u8> {
    Seq::new(
        2 * bytes.len(),
        |i: int|
            if i % 2 == 0 {
                digit_code(bytes[i / 2] as int / 16)
            } else {
                digit_code(bytes[i / 2] as int % 16)
            },
    )
}

/// The one-character text of a digit below sixteen.
fn digit_str(d: u8) -> (s: &'static str)
    requires
        d < 16,
    ensures
        s@ == seq![digit_char(d as int)],
{
    proof {
        reveal_strlit("0");
        reveal_strlit("1");
        reveal_strlit("2");
        reveal_strlit("3");
        reveal_strlit("4");
        reveal_strlit("5");
        reveal_strlit("6");
        reveal_strlit("7");
        reveal_strlit("8");
        reveal_strlit("9");
        reveal_strlit("a");
        reveal_strlit("b");
        reveal_strlit("c");
        reveal_strlit("d");
        reveal_strlit("e");
        reveal_strlit("f");
    }
    let s: &'static str = match d {
        0 => "0",
        1 => "1",
        2 => "2",
        3 => "3",
        4 => "4",
        5 => "5",
        6 => "6",
        7 => "7",
        8 => "8",
        9 => "9",
        10 => "a",
        11 => "b",
        12 => "c",
        13 => "d",
        14 => "e",
        _ => "f",
    };
    assert(s@ =~= seq![digit_char(d as int)]);
    s
}

/// Writes bytes as lower-case hexadecimal text.
pub fn hex_str(value: &[u8]) -> (text: String)
    ensures
        text@ == hex_chars(value@),
{
    let mut text = String::new();
    let mut i: usize = 0;
    while i < value.len()
        invariant
            i <= value.len(),
            text@ == hex_chars(value@.take(i as int)),
        decreases value.len() - i,
    {
        let b: u8 = value[i];
        proof {
            let next = value@.take(i + 1);
            assert(next.drop_last() =~= value@.take(i as int));
            assert(next.last() == b);
        }
        text.append(digit_str(b / 16));
        text.append(digit_str(b % 16));
        assert(text@ =~= hex_chars(value@.take(i + 1)));
        i = i + 1;
    }
    assert(value@.take(i as int) =~= value@);
    text
}

/// Reads one hexadecimal digit, in either case.
pub fn nibble(c: u8) -> (r: Option<u8>)
    ensures
        r == nibble_of(c),
        r matches Some(v) ==> v < 16,
{
    if 0x30 <= c && c <= 0x39 {
        Some(c - 0x30)
    } else if 0x61 <= c && c <= 0x66 {
        Some(c - 0x61 + 10)
    } else if 0x41 <= c && c <= 0x46 {
        Some(c - 0x41 + 10)
    } else {
        None
    }
}

/// Reads hexadecimal text into bytes.
///
/// Succeeds exactly on texts of even length made of hexadecimal digits, in either case.
pub fn to_vec(hex: &str) -> (bytes: Option<Vec<u8>>)
    ensures
        bytes is Some <==> is_hex(hex.spec_bytes()),
        bytes matches Some(v) ==> v@ == hex_value(hex.spec_bytes()),
{
    let text = hex.as_bytes();
    if text.len() % 2 != 0 {
        return None;
    }
    let mut out: Vec<u8> = Vec::new();
    let mut i: usize = 0;
    while i < text.len()
        invariant
            text@ == hex.spec_bytes(),
            text@.len() % 2 == 0,
            i % 2 == 0,
            i <= text.len(),
            out@.len() == i / 2,
            forall|k: int| 0 <= k < i ==> (#[trigger] nibble_of(text@[k])) is Some,
            forall|k: int| 0 <= k < i / 2 ==> #[trigger] out@[k] == hex_value(text@)[k],
        decreases text.len() - i,
    {
        let high = nibble(text[i]);
        let low = nibble(text[i + 1]);
        match (high, low) {
            (Some(h), Some(l)) => {
                out.push(h * 16 + l);
            },
            _ => {
                assert(!is_hex(text@)) by {
                    if nibble_of(text@[i as int]) is None {
                    } else {
                        assert(nibble_of(text@[i + 1]) is None);
                    }
                }
                return None;
            },
        }
        i = i + 2;
    }
    assert(out@ =~= hex_value(text@));
    Some(out)
}

/// Appends the decimal text of a number.
fn push_decimal(n: u64, text: &mut String)
    ensures
        final(text)@ == old(text)@ + decimal_chars(n as nat),
    decreases n,
{
    if n >= 10 {
        push_decimal(n / 10, text);
    }
    text.append(digit_str((n % 10) as u8));
    assert(text@ =~= old(text)@ + decimal_chars(n as nat));
}

/// Writes a number as decimal text.
pub fn decimal(n: u64) -> (text: String)
    ensures
        text@ == decimal_chars(n as nat),
{
    let mut text = String::new();
    push_decimal(n, &mut text);
    assert(text@ =~= decimal_chars(n as nat));
    text
}

/// Reading back the hexadecimal text of bytes gives the bytes.
pub proof fn lemma_hex_round_trip(bytes: Seq<u8>)
    ensures
        is_hex(hex_codes(bytes)),
        hex_value(hex_codes(bytes)) == bytes,
{
    let text = hex_codes(bytes);
    assert forall|i: int| 0 <= i < text.len() implies (#[trigger] nibble_of(text[i])) is Some by {
        let b = bytes[i / 2];
        assert(0 <= b as int / 16 < 16);
        assert(0 <= b as int % 16 < 16);
    }
    assert forall|i: int| 0 <= i < bytes.len() implies #[trigger] hex_value(text)[i] == bytes[i] by {
        let b = bytes[i];
        assert((2 * i) / 2 == i);
        assert((2 * i + 1) / 2 == i);
        assert(text[2 * i] == digit_code(b as int / 16));
        assert(text[2 * i + 1] == digit_code(b as int % 16));
        assert(nibble_of(digit_code(b as int / 16)) == Some((b / 16) as u8));
        assert(nibble_of(digit_code(b as int % 16)) == Some((b % 16) as u8));
    }
    assert(hex_value(text) =~= bytes);
}

/// `hex_chars` and `hex_codes` are the same text: the codes are those of the characters.
pub proof fn lemma_hex_chars_codes(bytes: Seq<u8>)
    ensures
        hex_chars(bytes).len() == hex_codes(bytes).len(),
        forall|i: int|
            0 <= i < hex_codes(bytes).len() ==> (#[trigger] hex_chars(bytes)[i]) as u8 == hex_codes(
                bytes,
            )[i],
    decreases bytes.len(),
{
    if bytes.len() > 0 {
        let head = bytes.drop_last();
        lemma_hex_chars_codes(head);
        let n = head.len() as int;
        assert forall|i: int| 0 <= i < hex_codes(bytes).len() implies (#[trigger] hex_chars(
            bytes,
        )[i]) as u8 == hex_codes(bytes)[i] by {
            if i < 2 * n {
                assert(head[i / 2] == bytes[i / 2]);
                assert(hex_chars(bytes)[i] == hex_chars(head)[i]);
                assert(hex_codes(head)[i] == hex_codes(bytes)[i]);
            } else if i == 2 * n {
                lemma_digit_code(bytes.last() as int / 16);
            } else {
                lemma_digit_code(bytes.last() as int % 16);
            }
        }
    }
}

/// The code of each digit character.
proof fn lemma_digit_code(d: int)
    requires
        0 <= d < 16,
    ensures
        digit_char(d) as u8 == digit_code(d),
{
}

/// The ASCII codes of a text.
pub open spec fn codes(text: Seq<char>) -> Seq<u8> {
    Seq::new(text.len(), |i: int| text[i] as u8)
}

/// Whether a text is made of decimal digits, at least one.
pub open spec fn is_digits(text: Seq<u8>) -> bool {
    &&& text.len() > 0
    &&& forall|i: int| 0 <= i < text.len() ==> 0x30 <= #[trigger] text[i] <= 0x39
}

/// The number that a text of decimal digits stands for.
pub open spec fn digits_value(text: Seq<u8>) -> nat
    decreases text.len(),
{
    if text.len() == 0 {
        0
    } else {
        digits_value(text.drop_last()) * 10 + (text.last() - 0x30) as nat
    }
}

/// Whether a text is a number as `decimal` writes it: decimal digits without a leading
/// zero, but for the number zero itself.
pub open spec fn is_number(text: Seq<u8>) -> bool {
    is_digits(text) && (text.len() == 1 || text[0] != 0x30)
}

/// The number that a text stands for, where it is a number and no greater than `max`.
pub open spec fn number_of(text: Seq<u8>, max: nat) -> Option<nat> {
    if is_number(text) && digits_value(text) <= max {
        Some(digits_value(text))
    } else {
        None
    }
}

/// Reads a number from its decimal text.
///
/// Succeeds exactly on the texts that `decimal` writes: digits only, no leading zero,
/// and a value that fits.
pub fn parse_decimal(text: &[u8]) -> (number: Option<u64>)
    ensures
        match number_of(text@, u64::MAX as nat) {
            Some(n) => number == Some(n as u64),
            None => number is None,
        },
{
    if text.len() == 0 {
        return None;
    }
    if text.len() > 1 && text[0] == 0x30 {
        return None;
    }
    let mut value: u64 = 0;
    let mut i: usize = 0;
    proof {
        assert(text@.take(0) =~= Seq::<u8>::empty());
    }
    while i < text.len()
        invariant
            i <= text@.len(),
            forall|k: int| 0 <= k < i ==> 0x30 <= #[trigger] text@[k] <= 0x39,
            value == digits_value(text@.take(i as int)),
        decreases text@.len() - i,
    {
        let c: u8 = text[i];
        if c < 0x30 || c > 0x39 {
            return None;
        }
        proof {
            let next = text@.take(i + 1);
            assert(next.drop_last() =~= text@.take(i as int));
            assert(next.last() == c);
            lemma_digits_grow(text@, i + 1);
        }
        let shifted = match value.checked_mul(10) {
            Some(shifted) => shifted,
            None => {
                return None;
            },
        };
        value = match shifted.checked_add((c - 0x30) as u64) {
            Some(sum) => sum,
            None => {
                return None;
            },
        };
        i = i + 1;
    }
    proof {
        assert(text@.take(i as int) =~= text@);
    }
    Some(value)
}

/// The value of a text of digits is at least the value of each of its beginnings.
proof fn lemma_digits_grow(text: Seq<u8>, n: int)
    requires
        0 <= n <= text.len(),
    ensures
        digits_value(text.take(n)) <= digits_value(text),
    decreases text.len() - n,
{
    if n == text.len() {
        assert(text.take(n) =~= text);
    } else {
        let longer = text.take(n + 1);
        assert(longer.drop_last() =~= text.take(n));
        lemma_digits_grow(text, n + 1);
    }
}

/// The digits of a number in decimal text are ASCII characters: their codes are the text
/// in bytes.
pub proof fn lemma_decimal_is_ascii(n: nat)
    ensures
        vstd::utf8::is_ascii_chars(decimal_chars(n)),
        vstd::utf8::encode_utf8(decimal_chars(n)) == codes(decimal_chars(n)),
        decimal_chars(n).len() > 0,
    decreases n,
{
    if n >= 10 {
        lemma_decimal_is_ascii(n / 10);
    }
    let text = decimal_chars(n);
    assert forall|i: int| 0 <= i < text.len() implies '\0' <= #[trigger] text[i] <= '\u{7f}' by {
        if n >= 10 && i < text.len() - 1 {
            assert(text[i] == decimal_chars(n / 10)[i]);
        }
    }
    vstd::utf8::is_ascii_chars_encode_utf8(text);
    assert(vstd::utf8::encode_utf8(text) =~= codes(text));
}

/// Reading the decimal text of a number gives the number.
pub proof fn lemma_decimal_round_trip(n: nat, max: nat)
    requires
        n <= max,
    ensures
        number_of(codes(decimal_chars(n)), max) == Some(n),
    decreases n,
{
    lemma_decimal_value(n);
}

/// The decimal text of a number is a number in the sense of `is_number`, and stands for
/// it.
proof fn lemma_decimal_value(n: nat)
    ensures
        is_number(codes(decimal_chars(n))),
        digits_value(codes(decimal_chars(n))) == n,
        n > 0 ==> codes(decimal_chars(n))[0] != 0x30,
    decreases n,
{
    let text = codes(decimal_chars(n));
    if n < 10 {
        assert(text =~= seq![digit_char(n as int) as u8]);
        assert(text.drop_last() =~= Seq::<u8>::empty());
        assert(digits_value(text.drop_last()) == 0);
    } else {
        lemma_decimal_value(n / 10);
        let head = codes(decimal_chars(n / 10));
        assert(text.drop_last() =~= head);
        assert(text.last() == digit_char((n % 10) as int) as u8);
        assert(text[0] == head[0]);
        assert forall|i: int| 0 <= i < text.len() implies 0x30 <= #[trigger] text[i] <= 0x39 by {
            if i < head.len() {
                assert(text[i] == head[i]);
            }
        }
    }
}

/// Two numbers with the same decimal text are the same number.
pub proof fn lemma_decimal_is_injective(a: nat, b: nat)
    requires
        decimal_chars(a) == decimal_chars(b),
    ensures
        a == b,
{
    lemma_decimal_value(a);
    lemma_decimal_value(b);
}

} // verus!
