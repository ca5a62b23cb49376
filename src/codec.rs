//! Textual encodings found in chain events: decimal token amounts and
//! hexadecimal payloads.
use vstd::prelude::*;
use vstd::utf8::*;

verus! {

broadcast use vstd::string::group_string_axioms, vstd::utf8::is_ascii_chars_encode_utf8;

/// The value of a decimal digit `0`..`9` (code points 48 to 57).
pub open spec fn decimal_digit(c: char) -> Option<nat> {
    let n = c as u32;
    if 48 <= n <= 57 {
        Some((n - 48) as nat)
    } else {
        None
    }
}

pub open spec fn all_decimal(s: Seq<char>) -> bool {
    forall|i: int| 0 <= i < s.len() ==> #[trigger] decimal_digit(s[i]).is_some()
}

/// The number that a string of decimal digits writes, most significant first.
pub open spec fn decimal_value(s: Seq<char>) -> nat
    decreases s.len(),
{
    if s.len() == 0 {
        0
    } else {
        decimal_value(s.drop_last()) * 10 + decimal_digit(s.last()).unwrap_or(0)
    }
}

/// A token amount: one or more decimal digits whose value fits in 128 bits.
pub open spec fn amount_of(s: Seq<char>) -> Option<u128> {
    if s.len() > 0 && all_decimal(s) && decimal_value(s) <= u128::MAX {
        Some(decimal_value(s) as u128)
    } else {
        None
    }
}

proof fn lemma_ascii_char(c: char)
    ensures
        ('\0' <= c <= '\u{7f}') <==> (c as u32) < 128,
{
}

proof fn lemma_decimal_value_monotone(s: Seq<char>, i: int)
    requires
        0 <= i <= s.len(),
    ensures
        decimal_value(s.take(i)) <= decimal_value(s),
    decreases s.len() - i,
{
    if i < s.len() {
        lemma_decimal_value_monotone(s, i + 1);
        assert(s.take(i + 1).drop_last() =~= s.take(i));
        let x = decimal_value(s.take(i));
        assert(x * 10 + decimal_digit(s.take(i + 1).last()).unwrap_or(0) >= x) by (nonlinear_arith);
    } else {
        assert(s.take(i) =~= s);
    }
}

/// Reads a token amount written in decimal.
pub fn parse_amount(s: &String) -> (r: Option<u128>)
    ensures
        r == amount_of(s@),
{
    let text = s.as_str();
    if !text.is_ascii() {
        proof {
            let i = choose|i: int| 0 <= i < s@.len() && !('\0' <= #[trigger] s@[i] <= '\u{7f}');
            lemma_ascii_char(s@[i]);
            assert(decimal_digit(s@[i]).is_none());
        }
        return None;
    }
    let bytes = text.as_bytes();
    let n = bytes.len();
    proof {
        is_ascii_chars_encode_utf8(s@);
    }
    if n == 0 {
        return None;
    }
    let mut acc: u128 = 0;
    let mut i: usize = 0;
    while i < n
        invariant
            n == bytes@.len(),
            n == s@.len(),
            i <= n,
            forall|j: int| 0 <= j < n ==> s@[j] as u8 == #[trigger] bytes@[j],
            is_ascii_chars(s@),
            all_decimal(s@.take(i as int)),
            acc as nat == decimal_value(s@.take(i as int)),
        decreases n - i,
    {
        let b = bytes[i];
        let ghost c = s@[i as int];
        assert(c as u32 <= 0x7f);
        if b < 48 || b > 57 {
            assert(decimal_digit(c).is_none());
            return None;
        }
        assert(s@.take(i as int + 1).drop_last() =~= s@.take(i as int));
        assert(s@.take(i as int + 1).last() == c);
        let d = (b - 48) as u128;
        match acc.checked_mul(10) {
            Some(m) => match m.checked_add(d) {
                Some(next) => {
                    acc = next;
                },
                None => {
                    proof {
                        lemma_decimal_value_monotone(s@, i as int + 1);
                    }
                    return None;
                },
            },
            None => {
                proof {
                    lemma_decimal_value_monotone(s@, i as int + 1);
                }
                return None;
            },
        }
        i += 1;
    }
    assert(s@.take(n as int) =~= s@);
    Some(acc)
}

/// The value of a hexadecimal digit: `0`..`9` (code points 48 to 57),
/// `a`..`f` (97 to 102) or `A`..`F` (65 to 70).
pub open spec fn hex_digit(c: char) -> Option<nat> {
    let n = c as u32;
    if 48 <= n <= 57 {
        Some((n - 48) as nat)
    } else if 97 <= n <= 102 {
        Some((n - 87) as nat)
    } else if 65 <= n <= 70 {
        Some((n - 55) as nat)
    } else {
        None
    }
}

/// The digits of a hexadecimal payload: without its `0x` prefix, if it has one.
pub open spec fn hex_body(s: Seq<char>) -> Seq<char> {
    if s.len() >= 2 && s[0] as u32 == 48 && s[1] as u32 == 120 {
        s.subrange(2, s.len() as int)
    } else {
        s
    }
}

/// The bytes that a hexadecimal payload writes, two digits per byte; `None`
/// when a character is no hex digit or a digit is left over.
pub open spec fn hex_decode(s: Seq<char>) -> Option<Seq<u8>> {
    if hex_well_formed(hex_body(s)) {
        Some(hex_pairs(hex_body(s)))
    } else {
        None
    }
}

/// An even number of characters, each a hex digit.
pub open spec fn hex_well_formed(d: Seq<char>) -> bool {
    d.len() % 2 == 0 && forall|i: int| 0 <= i < d.len() ==> #[trigger] hex_digit(d[i]).is_some()
}

/// The bytes written by pairs of hex digits, high digit first.
pub open spec fn hex_pairs(d: Seq<char>) -> Seq<u8> {
    Seq::new(
        (d.len() / 2) as nat,
        |k: int| (hex_digit(d[2 * k]).unwrap() * 16 + hex_digit(d[2 * k + 1]).unwrap()) as u8,
    )
}

fn hex_digit_of_byte(b: u8) -> (r: Option<u8>)
    ensures
        forall|c: char| c as u32 == b as u32 ==> match #[trigger] hex_digit(c) {
            Some(v) => r == Some(v as u8),
            None => r.is_none(),
        },
        r.is_some() ==> r.unwrap() < 16,
{
    if 48 <= b && b <= 57 {
        Some(b - 48)
    } else if 97 <= b && b <= 102 {
        Some(b - 87)
    } else if 65 <= b && b <= 70 {
        Some(b - 55)
    } else {
        None
    }
}

/// Decodes a hexadecimal payload, with or without its `0x` prefix.
pub fn hex_bytes(s: &str) -> (r: Option<Vec<u8>>)
    ensures
        match hex_decode(s@) {
            Some(b) => r.is_some() && r.unwrap()@ == b,
            None => r.is_none(),
        },
{
    if !s.is_ascii() {
        proof {
            let i = choose|i: int| 0 <= i < s@.len() && !('\0' <= #[trigger] s@[i] <= '\u{7f}');
            lemma_ascii_char(s@[i]);
            let d = hex_body(s@);
            if s@.len() >= 2 && s@[0] as u32 == 48 && s@[1] as u32 == 120 {
                assert(i >= 2);
                assert(d[i - 2] == s@[i]);
                assert(!hex_digit(d[i - 2]).is_some());
                assert(hex_decode(s@).is_none());
            } else {
                assert(d == s@);
                assert(0 <= i < d.len());
                assert(!hex_digit(d[i]).is_some());
                assert(!hex_well_formed(d));
                assert(hex_decode(s@).is_none());
            }
        }
        return None;
    }
    let bytes = s.as_bytes();
    let n = bytes.len();
    proof {
        is_ascii_chars_encode_utf8(s@);
    }
    let start: usize = if n >= 2 && bytes[0] == 48 && bytes[1] == 120 {
        2
    } else {
        0
    };
    let ghost d = hex_body(s@);
    assert(start == 2 ==> d =~= s@.subrange(2, n as int));
    assert(start == 0 ==> d =~= s@);
    assert(forall|j: int| 0 <= j < d.len() ==> d[j] == s@[j + start]);
    if (n - start) % 2 != 0 {
        assert(d.len() == n - start);
        return None;
    }
    let mut out: Vec<u8> = Vec::new();
    let mut i: usize = start;
    while i < n
        invariant
            n == bytes@.len(),
            n == s@.len(),
            start <= i <= n,
            (i - start) % 2 == 0,
            (n - start) % 2 == 0,
            d == hex_body(s@),
            d.len() == n - start,
            forall|j: int| 0 <= j < d.len() ==> d[j] == s@[j + start],
            forall|j: int| 0 <= j < n ==> s@[j] as u8 == #[trigger] bytes@[j],
            is_ascii_chars(s@),
            forall|j: int| 0 <= j < i - start ==> #[trigger] hex_digit(d[j]).is_some(),
            out.len() == (i - start) / 2,
            forall|k: int|
                0 <= k < out.len() ==> #[trigger] out@[k] == (hex_digit(d[2 * k]).unwrap() * 16
                    + hex_digit(d[2 * k + 1]).unwrap()) as u8,
        decreases n - i,
    {
        let ghost c0 = s@[i as int];
        let ghost c1 = s@[i as int + 1];
        assert(c0 as u32 <= 0x7f && c1 as u32 <= 0x7f);
        assert(bytes@[i as int] as u32 == c0 as u32);
        assert(bytes@[i as int + 1] as u32 == c1 as u32);
        let hi = hex_digit_of_byte(bytes[i]);
        let lo = hex_digit_of_byte(bytes[i + 1]);
        match (hi, lo) {
            (Some(h), Some(l)) => {
                let ghost k = out.len() as int;
                assert(d[2 * k] == c0 && d[2 * k + 1] == c1);
                out.push(h * 16 + l);
                i += 2;
            },
            _ => {
                assert(d[i - start] == c0 && d[i - start + 1] == c1);
                assert(!(hex_digit(d[i - start]).is_some() && hex_digit(d[i - start + 1]).is_some()));
                return None;
            },
        }
    }
    assert(out@ =~= hex_decode(s@).unwrap());
    Some(out)
}

} // verus!
