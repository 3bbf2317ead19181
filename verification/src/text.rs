//! Small helpers on text: comparing, and reading numbers and flags.

use vstd::prelude::*;
use vstd::string::StringSliceAdditionalSpecFns;
use vstd::utf8::encode_utf8_decode_utf8;

verus! {

/// Whether two texts are the same.
pub fn same_text(a: &str, b: &str) -> (same: bool)
    ensures
        same == (a@ == b@),
{
    let x: &[u8] = a.as_bytes();
    let y: &[u8] = b.as_bytes();
    proof {
        encode_utf8_decode_utf8(a@);
        encode_utf8_decode_utf8(b@);
    }
    if x.len() != y.len() {
        return false;
    }
    let mut i: usize = 0;
    while i < x.len()
        invariant
            i <= x@.len(),
            x@.len() == y@.len(),
            x@ == a.spec_bytes(),
            y@ == b.spec_bytes(),
            x@.subrange(0, i as int) == y@.subrange(0, i as int),
        decreases x@.len() - i,
    {
        if x[i] != y[i] {
            assert(x@[i as int] != y@[i as int]);
            return false;
        }
        assert(x@.subrange(0, i + 1) =~= x@.subrange(0, i as int).push(x@[i as int]));
        assert(y@.subrange(0, i + 1) =~= y@.subrange(0, i as int).push(y@[i as int]));
        i += 1;
    }
    assert(x@ =~= x@.subrange(0, i as int));
    assert(y@ =~= y@.subrange(0, i as int));
    true
}

/// What a byte is worth as a digit: `0` to `9`, then the letters of either
/// case from ten on; nothing if that is not below the radix.
pub open spec fn digit(b: u8, radix: u32) -> Option<u32> {
    let worth: int = if 48 <= b <= 57 {
        b - 48
    } else if 97 <= b <= 122 {
        b - 97 + 10
    } else if 65 <= b <= 90 {
        b - 65 + 10
    } else {
        36
    };
    if worth < radix {
        Some(worth as u32)
    } else {
        None
    }
}

/// The number that a run of digits stands for, the most significant first;
/// nothing if a byte among them is no digit.
pub open spec fn digits(bytes: Seq<u8>, radix: u32) -> Option<nat>
    decreases bytes.len(),
{
    if bytes.len() == 0 {
        Some(0)
    } else {
        match (digits(bytes.drop_last(), radix), digit(bytes.last(), radix)) {
            (Some(high), Some(low)) => Some((high * radix + low) as nat),
            _ => None,
        }
    }
}

/// The number that a text stands for: an optional plus sign, then at least
/// one digit, and a value that 32 bits can hold.
pub open spec fn number(bytes: Seq<u8>, radix: u32) -> Option<u32> {
    let body = if bytes.len() > 0 && bytes[0] == 43 {
        bytes.skip(1)
    } else {
        bytes
    };
    if body.len() == 0 {
        None
    } else {
        match digits(body, radix) {
            Some(value) => if value <= u32::MAX {
                Some(value as u32)
            } else {
                None
            },
            None => None,
        }
    }
}

/// The number that an attribute of a numeric entry stands for: hexadecimal
/// behind `0x`, decimal otherwise.
pub open spec fn literal(bytes: Seq<u8>) -> Option<u32> {
    if bytes.len() >= 2 && bytes[0] == 48 && bytes[1] == 120 {
        number(bytes.skip(2), 16)
    } else {
        number(bytes, 10)
    }
}

/// The flag that a text stands for: `true` or `false`, spelled so.
pub open spec fn flag(text: Seq<char>) -> Option<bool> {
    if text == "true"@ {
        Some(true)
    } else if text == "false"@ {
        Some(false)
    } else {
        None
    }
}

/// A run of digits that goes wrong or beyond 32 bits stays so however it goes
/// on.
proof fn lemma_digits_grow(bytes: Seq<u8>, radix: u32, k: int)
    requires
        0 <= k <= bytes.len(),
        radix >= 2,
    ensures
        digits(bytes.take(k), radix) is None ==> digits(bytes, radix) is None,
        digits(bytes, radix) is Some ==> digits(bytes.take(k), radix).unwrap() <= digits(
            bytes,
            radix,
        ).unwrap(),
    decreases bytes.len() - k,
{
    if k == bytes.len() {
        assert(bytes.take(k) =~= bytes);
    } else {
        assert(bytes.drop_last().take(k) =~= bytes.take(k));
        lemma_digits_grow(bytes.drop_last(), radix, k);
        if digits(bytes, radix) is Some {
            let high = digits(bytes.drop_last(), radix).unwrap();
            assert(high * radix >= high) by (nonlinear_arith)
                requires
                    radix >= 2,
                    high >= 0,
            ;
        }
    }
}

/// Reads one digit.
fn read_digit(b: u8, radix: u32) -> (worth: Option<u32>)
    ensures
        worth == digit(b, radix),
{
    let worth: u32 = if 48 <= b && b <= 57 {
        (b - 48) as u32
    } else if 97 <= b && b <= 122 {
        (b - 97) as u32 + 10
    } else if 65 <= b && b <= 90 {
        (b - 65) as u32 + 10
    } else {
        36
    };
    if worth < radix {
        Some(worth)
    } else {
        None
    }
}

/// Reads the number that the bytes from `from` on stand for.
fn read_number(bytes: &[u8], from: usize, radix: u32) -> (value: Option<u32>)
    requires
        from <= bytes@.len(),
        2 <= radix <= 36,
    ensures
        value == number(bytes@.skip(from as int), radix),
{
    let ghost input = bytes@.skip(from as int);
    let n: usize = bytes.len();
    let start: usize = if from < n && bytes[from] == 43 {
        from + 1
    } else {
        from
    };
    let ghost body = bytes@.skip(start as int);
    assert(body =~= if input.len() > 0 && input[0] == 43 {
        input.skip(1)
    } else {
        input
    });
    if start == n {
        return None;
    }
    let ghost wanted = number(input, radix);
    assert(wanted == match digits(body, radix) {
        Some(value) => if value <= u32::MAX {
            Some(value as u32)
        } else {
            None
        },
        None => None,
    });
    assert(body.take(0) =~= Seq::<u8>::empty());
    let mut acc: u64 = 0;
    let mut i: usize = start;
    while i < n
        invariant
            start <= i <= n,
            n == bytes@.len(),
            2 <= radix <= 36,
            body == bytes@.skip(start as int),
            wanted == number(bytes@.skip(from as int), radix),
            wanted == match digits(body, radix) {
                Some(value) => if value <= u32::MAX {
                    Some(value as u32)
                } else {
                    None
                },
                None => None,
            },
            digits(body.take(i - start), radix) == Some(acc as nat),
            acc <= u32::MAX,
        decreases n - i,
    {
        let ghost upto = body.take(i - start + 1);
        proof {
            assert(upto.drop_last() =~= body.take(i - start));
            assert(upto.last() == bytes@[i as int]);
            lemma_digits_grow(body, radix, i - start + 1);
        }
        match read_digit(bytes[i], radix) {
            None => {
                return None;
            },
            Some(low) => {
                assert(acc * radix <= 36 * 0xffff_ffff) by (nonlinear_arith)
                    requires
                        acc <= 0xffff_ffff,
                        radix <= 36,
                ;
                acc = acc * (radix as u64) + low as u64;
                assert(digits(upto, radix) == Some(acc as nat));
                if acc > u32::MAX as u64 {
                    return None;
                }
            },
        }
        i += 1;
    }
    assert(body.take(i - start) =~= body);
    assert(wanted == number(bytes@.skip(from as int), radix));
    Some(acc as u32)
}

/// The number that a decimal text stands for.
pub fn parse_u32(text: &str) -> (value: Option<u32>)
    ensures
        value == number(text.spec_bytes(), 10),
{
    let bytes: &[u8] = text.as_bytes();
    assert(bytes@.skip(0) =~= bytes@);
    read_number(bytes, 0, 10)
}

/// The number that a literal stands for: hexadecimal behind `0x`, decimal
/// otherwise.
pub fn parse_literal(text: &str) -> (value: Option<u32>)
    ensures
        value == literal(text.spec_bytes()),
{
    let bytes: &[u8] = text.as_bytes();
    assert(bytes@.skip(0) =~= bytes@);
    if bytes.len() >= 2 && bytes[0] == 48 && bytes[1] == 120 {
        read_number(bytes, 2, 16)
    } else {
        read_number(bytes, 0, 10)
    }
}

/// The flag that a text stands for.
pub fn parse_flag(text: &str) -> (value: Option<bool>)
    ensures
        value == flag(text@),
{
    if same_text(text, "true") {
        Some(true)
    } else if same_text(text, "false") {
        Some(false)
    } else {
        None
    }
}

/// The characters of a text.
pub fn chars_of(text: &str) -> (chars: Vec<char>)
    ensures
        chars@ == text@,
{
    broadcast use vstd::string::group_string_axioms;

    let mut chars: Vec<char> = Vec::new();
    for c in it: text.chars()
        invariant
            chars@ == it.seq().take(it.index() as int),
            it.seq() == text@,
    {
        chars.push(c);
        assert(chars@ =~= it.seq().take(it.index() + 1));
    }
    assert(chars@ =~= text@);
    chars
}

/// `String::from_iter` over characters: the text that is made of the
/// characters, in their order.
#[verifier::external_body]
pub(crate) fn string_of(chars: &Vec<char>) -> (text: String)
    ensures
        text@ == chars@,
{
    String::from_iter(chars)
}

} // verus!
