//! Text in fields: decoding of field bytes, trimming, and unsigned decimal
//! numbers written and read as ASCII digits.

use crate::error::{IntErrorKind, ParseIntError};
use vstd::prelude::*;
use vstd::utf8::*;

verus! {

broadcast use group_utf8_lib;

/// The characters that `String::from_utf8_lossy` makes of `bytes` that are not
/// valid UTF-8: the valid sequences decoded, each invalid one replaced by U+FFFD.
pub uninterp spec fn utf8_lossy_of_invalid(bytes: Seq<u8>) -> Seq<char>;

/// The characters that `String::from_utf8_lossy` makes of `bytes`: their decoding
/// when they are valid UTF-8.
pub open spec fn utf8_lossy(bytes: Seq<u8>) -> Seq<char> {
    if valid_utf8(bytes) {
        decode_utf8(bytes)
    } else {
        utf8_lossy_of_invalid(bytes)
    }
}

/// `String::from_utf8_lossy`, as an owned `String`: bytes that are valid UTF-8 are
/// decoded as they are. What it makes of other bytes is named
/// [`utf8_lossy_of_invalid`]; how invalid sequences are replaced is left unsaid.
#[verifier::external_body]
pub fn string_from_utf8_lossy(bytes: &[u8]) -> (r: String)
    ensures
        r@ == (if valid_utf8(bytes@) {
            decode_utf8(bytes@)
        } else {
            utf8_lossy_of_invalid(bytes@)
        }),
{
    String::from_utf8_lossy(bytes).into_owned()
}

/// `String::from_utf8`: the string whose UTF-8 encoding is `bytes`, when they are
/// valid UTF-8.
#[verifier::external_body]
pub fn string_from_utf8(bytes: Vec<u8>) -> (r: Option<String>)
    ensures
        r is Some <==> valid_utf8(bytes@),
        r matches Some(s) ==> s@ == decode_utf8(bytes@),
{
    String::from_utf8(bytes).ok()
}

/// Whether `c` has the Unicode property White_Space, which is what `char::is_whitespace`
/// and `str::trim` go by.
pub open spec fn is_whitespace(c: char) -> bool {
    ||| '\u{9}' <= c <= '\u{d}'
    ||| c == ' '
    ||| c == '\u{85}'
    ||| c == '\u{a0}'
    ||| c == '\u{1680}'
    ||| '\u{2000}' <= c <= '\u{200a}'
    ||| c == '\u{2028}'
    ||| c == '\u{2029}'
    ||| c == '\u{202f}'
    ||| c == '\u{205f}'
    ||| c == '\u{3000}'
}

/// `s` without its leading whitespace.
pub open spec fn trim_start(s: Seq<char>) -> Seq<char>
    decreases s.len(),
{
    if s.len() > 0 && is_whitespace(s[0]) {
        trim_start(s.drop_first())
    } else {
        s
    }
}

/// `s` without its trailing whitespace.
pub open spec fn trim_end(s: Seq<char>) -> Seq<char>
    decreases s.len(),
{
    if s.len() > 0 && is_whitespace(s.last()) {
        trim_end(s.drop_last())
    } else {
        s
    }
}

/// `s` without its leading and trailing whitespace.
pub open spec fn trim(s: Seq<char>) -> Seq<char> {
    trim_end(trim_start(s))
}

/// `str::trim`: the slice without leading and trailing White_Space characters.
#[verifier::external_body]
pub fn str_trim<'a>(s: &'a str) -> (r: &'a str)
    ensures
        r@ == trim(s@),
{
    s.trim()
}

/// Whether `s` neither starts nor ends with whitespace.
pub open spec fn is_trimmed(s: Seq<char>) -> bool {
    s.len() > 0 ==> !is_whitespace(s[0]) && !is_whitespace(s.last())
}

/// A text that neither starts nor ends with whitespace is its own trim.
pub proof fn lemma_trim_of_trimmed(s: Seq<char>)
    requires
        is_trimmed(s),
    ensures
        trim(s) == s,
{
}

/// The trim of a text is empty exactly when the text is all whitespace.
pub proof fn lemma_trim_empty(s: Seq<char>)
    ensures
        trim(s).len() == 0 <==> forall|i: int| 0 <= i < s.len() ==> is_whitespace(#[trigger] s[i]),
    decreases s.len(),
{
    if s.len() > 0 && is_whitespace(s[0]) {
        lemma_trim_empty(s.drop_first());
        if forall|i: int| 0 <= i < s.drop_first().len() ==> is_whitespace(#[trigger] s.drop_first()[i]) {
            assert forall|i: int| 0 <= i < s.len() implies is_whitespace(#[trigger] s[i]) by {
                if i > 0 {
                    assert(s[i] == s.drop_first()[i - 1]);
                }
            }
        } else {
            let j = choose|j: int| 0 <= j < s.drop_first().len() && !is_whitespace(#[trigger] s.drop_first()[j]);
            assert(s[j + 1] == s.drop_first()[j]);
        }
    } else if s.len() > 0 {
        lemma_trim_end_keeps_first(s);
    }
}

/// Trimming the end of a text that starts with a non-whitespace character keeps
/// that character.
proof fn lemma_trim_end_keeps_first(s: Seq<char>)
    requires
        s.len() > 0,
        !is_whitespace(s[0]),
    ensures
        trim_end(s).len() > 0,
        trim_end(s)[0] == s[0],
    decreases s.len(),
{
    if is_whitespace(s.last()) {
        assert(s.len() > 1);
        lemma_trim_end_keeps_first(s.drop_last());
    }
}

/// Trimming the start removes a run of whitespace and stops at the first other
/// character: the result is the text from `i` on.
proof fn lemma_trim_start_shape(s: Seq<char>) -> (i: int)
    ensures
        0 <= i <= s.len(),
        trim_start(s) == s.subrange(i, s.len() as int),
        forall|k: int| 0 <= k < i ==> is_whitespace(#[trigger] s[k]),
        i < s.len() ==> !is_whitespace(s[i]),
    decreases s.len(),
{
    if s.len() > 0 && is_whitespace(s[0]) {
        let i0 = lemma_trim_start_shape(s.drop_first());
        assert(s.drop_first().subrange(i0, s.drop_first().len() as int) =~= s.subrange(
            i0 + 1,
            s.len() as int,
        ));
        assert forall|k: int| 0 <= k < i0 + 1 implies is_whitespace(#[trigger] s[k]) by {
            if k > 0 {
                assert(s[k] == s.drop_first()[k - 1]);
            }
        }
        i0 + 1
    } else {
        assert(s.subrange(0, s.len() as int) =~= s);
        0
    }
}

/// Trimming the end removes a run of whitespace and stops at the last other
/// character: the result is the text before `j`.
proof fn lemma_trim_end_shape(s: Seq<char>) -> (j: int)
    ensures
        0 <= j <= s.len(),
        trim_end(s) == s.subrange(0, j),
        forall|k: int| j <= k < s.len() ==> is_whitespace(#[trigger] s[k]),
        j > 0 ==> !is_whitespace(s[j - 1]),
    decreases s.len(),
{
    if s.len() > 0 && is_whitespace(s.last()) {
        let j0 = lemma_trim_end_shape(s.drop_last());
        assert(s.drop_last().subrange(0, j0) =~= s.subrange(0, j0));
        assert forall|k: int| j0 <= k < s.len() implies is_whitespace(#[trigger] s[k]) by {
            if k < s.len() - 1 {
                assert(s[k] == s.drop_last()[k]);
            }
        }
        j0
    } else {
        assert(s.subrange(0, s.len() as int) =~= s);
        s.len() as int
    }
}

/// Trimming keeps the run `s[i..j]` of the text and removes only whitespace around
/// it; the run neither starts nor ends with whitespace.
pub proof fn lemma_trim_shape(s: Seq<char>) -> (r: (int, int))
    ensures
        0 <= r.0 <= r.1 <= s.len(),
        trim(s) == s.subrange(r.0, r.1),
        forall|k: int| 0 <= k < r.0 ==> is_whitespace(#[trigger] s[k]),
        forall|k: int| r.1 <= k < s.len() ==> is_whitespace(#[trigger] s[k]),
        is_trimmed(trim(s)),
{
    let i = lemma_trim_start_shape(s);
    let t = s.subrange(i, s.len() as int);
    let j = lemma_trim_end_shape(t);
    assert(t.subrange(0, j) =~= s.subrange(i, i + j));
    assert forall|k: int| i + j <= k < s.len() implies is_whitespace(#[trigger] s[k]) by {
        assert(s[k] == t[k - i]);
    }
    if j > 0 {
        assert(t[j - 1] == s[i + j - 1]);
        assert(!is_whitespace(t[0]));
        assert(s.subrange(i, i + j)[0] == t[0]);
    }
    (i, i + j)
}

/// The characters of `bytes` read one for one, as for ASCII text.
pub open spec fn ascii_chars(bytes: Seq<u8>) -> Seq<char> {
    Seq::new(bytes.len(), |i: int| bytes[i] as char)
}

/// Whether every byte is an ASCII byte.
pub open spec fn is_ascii_bytes(bytes: Seq<u8>) -> bool {
    forall|i: int| 0 <= i < bytes.len() ==> #[trigger] bytes[i] < 0x80
}

/// ASCII bytes are valid UTF-8, and decode to one character per byte.
pub proof fn lemma_ascii_decode(bytes: Seq<u8>)
    requires
        is_ascii_bytes(bytes),
    ensures
        valid_utf8(bytes),
        decode_utf8(bytes) == ascii_chars(bytes),
        encode_utf8(ascii_chars(bytes)) == bytes,
{
    let chars = ascii_chars(bytes);
    assert(is_ascii_chars(chars)) by {
        assert forall|i: int| 0 <= i < chars.len() implies '\0' <= #[trigger] chars[i] <= '\u{7f}' by {
            let b = bytes[i];
            assert(b < 0x80);
        }
    }
    is_ascii_chars_encode_utf8(chars);
    assert forall|i: int| 0 <= i < bytes.len() implies #[trigger] encode_utf8(chars)[i] == bytes[i] by {
        let b = bytes[i];
        assert((b as char) as u8 == b);
    }
    assert(encode_utf8(chars) =~= bytes);
    encode_utf8_valid_utf8(chars);
    encode_utf8_decode_utf8(chars);
}

/// Whether `b` is an ASCII decimal digit.
pub open spec fn is_digit(b: u8) -> bool {
    0x30 <= b <= 0x39
}

/// The value of the digits in `s`, read from left to right as `u32::from_str` reads
/// them: the first non-digit fails with `InvalidDigit`, and a value past `u32::MAX`
/// fails with `PosOverflow`, whichever comes first.
pub open spec fn parse_digits(s: Seq<u8>) -> Result<u32, IntErrorKind>
    decreases s.len(),
{
    if s.len() == 0 {
        Ok(0)
    } else {
        match parse_digits(s.drop_last()) {
            Err(e) => Err(e),
            Ok(v) => {
                if !is_digit(s.last()) {
                    Err(IntErrorKind::InvalidDigit)
                } else if v * 10 + (s.last() - 0x30) > u32::MAX {
                    Err(IntErrorKind::PosOverflow)
                } else {
                    Ok((v * 10 + (s.last() - 0x30)) as u32)
                }
            },
        }
    }
}

/// What `u32::from_str` gives for the text whose bytes are `s`: an optional `+`
/// and then at least one digit.
pub open spec fn spec_parse_u32(s: Seq<u8>) -> Result<u32, IntErrorKind> {
    if s.len() == 0 {
        Err(IntErrorKind::Empty)
    } else if s.len() == 1 && (s[0] == 0x2b || s[0] == 0x2d) {
        Err(IntErrorKind::InvalidDigit)
    } else if s[0] == 0x2b {
        parse_digits(s.drop_first())
    } else {
        parse_digits(s)
    }
}

/// Parses the text whose bytes are `s` as an unsigned decimal number, as
/// `u32::from_str` does.
pub fn parse_u32(s: &[u8]) -> (r: Result<u32, ParseIntError>)
    ensures
        match spec_parse_u32(s@) {
            Ok(v) => r == Ok::<u32, ParseIntError>(v),
            Err(k) => r == Err::<u32, ParseIntError>(ParseIntError { kind: k }),
        },
{
    let len = s.len();
    if len == 0 {
        return Err(ParseIntError { kind: IntErrorKind::Empty });
    }
    if len == 1 && (s[0] == 0x2b || s[0] == 0x2d) {
        return Err(ParseIntError { kind: IntErrorKind::InvalidDigit });
    }
    let start: usize = if s[0] == 0x2b {
        1
    } else {
        0
    };
    let ghost digits = s@.subrange(start as int, len as int);
    assert(start == 1 ==> digits =~= s@.drop_first());
    assert(start == 0 ==> digits =~= s@);
    assert(s@.subrange(start as int, start as int) =~= Seq::<u8>::empty());
    let mut acc: u32 = 0;
    let mut i: usize = start;
    while i < len
        invariant
            start <= i <= len,
            len == s@.len(),
            digits == s@.subrange(start as int, len as int),
            spec_parse_u32(s@) == parse_digits(digits),
            parse_digits(s@.subrange(start as int, i as int)) == Ok::<u32, IntErrorKind>(acc),
        decreases len - i,
    {
        let ghost prefix = s@.subrange(start as int, i as int);
        let ghost next = s@.subrange(start as int, i + 1);
        assert(next.drop_last() =~= prefix);
        assert(next.last() == s@[i as int]);
        let b = s[i];
        if !(0x30 <= b && b <= 0x39) {
            proof {
                assert(digits.subrange(0, (i + 1 - start) as int) =~= next);
                lemma_parse_digits_error_extends(digits, (i + 1 - start) as nat);
            }
            return Err(ParseIntError { kind: IntErrorKind::InvalidDigit });
        }
        let d = (b - 0x30) as u32;
        if acc > 429496729 || (acc == 429496729 && d > 5) {
            proof {
                assert(digits.subrange(0, (i + 1 - start) as int) =~= next);
                lemma_parse_digits_error_extends(digits, (i + 1 - start) as nat);
            }
            return Err(ParseIntError { kind: IntErrorKind::PosOverflow });
        }
        acc = acc * 10 + d;
        i = i + 1;
    }
    assert(s@.subrange(start as int, len as int) =~= digits);
    Ok(acc)
}

/// Once a prefix of the digits fails, the whole text fails the same way.
proof fn lemma_parse_digits_error_extends(s: Seq<u8>, k: nat)
    requires
        k <= s.len(),
        parse_digits(s.subrange(0, k as int)) is Err,
    ensures
        parse_digits(s) == parse_digits(s.subrange(0, k as int)),
    decreases s.len() - k,
{
    if k < s.len() {
        let t = s.subrange(0, (k + 1) as int);
        assert(t.drop_last() =~= s.subrange(0, k as int));
        lemma_parse_digits_error_extends(s, k + 1);
    } else {
        assert(s.subrange(0, k as int) =~= s);
    }
}

/// The shortest decimal digits of `n`, as `{}` writes it.
pub open spec fn decimal_digits(n: nat) -> Seq<u8>
    decreases n,
{
    if n < 10 {
        seq![(0x30 + n) as u8]
    } else {
        decimal_digits(n / 10).push((0x30 + n % 10) as u8)
    }
}

/// The decimal digits of `n`, with zeros in front up to `width` bytes, as `{:0w$}` writes it.
pub open spec fn zero_padded(n: nat, width: nat) -> Seq<u8> {
    let d = decimal_digits(n);
    if d.len() < width {
        Seq::new((width - d.len()) as nat, |i: int| 0x30u8) + d
    } else {
        d
    }
}

/// The number of decimal digits of `n`.
pub open spec fn decimal_len(n: nat) -> nat
    decreases n,
{
    if n < 10 {
        1
    } else {
        decimal_len(n / 10) + 1
    }
}

/// The digits of a number are digits, as many as its decimal length.
pub proof fn lemma_decimal_digits(n: nat)
    ensures
        decimal_digits(n).len() == decimal_len(n),
        1 <= decimal_len(n),
        forall|i: int| 0 <= i < decimal_digits(n).len() ==> #[trigger] is_digit(decimal_digits(n)[i]),
        n <= u32::MAX ==> parse_digits(decimal_digits(n)) == Ok::<u32, IntErrorKind>(n as u32),
    decreases n,
{
    if n >= 10 {
        lemma_decimal_digits(n / 10);
        let s = decimal_digits(n);
        assert(s.drop_last() =~= decimal_digits(n / 10));
        let c = (0x30 + n % 10) as u8;
        assert(s.last() == c);
        assert(c - 0x30 == n % 10);
        assert((n / 10) * 10 + n % 10 == n);
        assert forall|i: int| 0 <= i < s.len() implies #[trigger] is_digit(s[i]) by {
            if i < s.len() - 1 {
                assert(s[i] == decimal_digits(n / 10)[i]);
            }
        }
    } else {
        assert(decimal_digits(n).drop_last() =~= Seq::<u8>::empty());
        assert(parse_digits(Seq::<u8>::empty()) == Ok::<u32, IntErrorKind>(0));
        assert(decimal_digits(n).last() - 0x30 == n);
    }
}

/// A number below `10^k` has at most `k` decimal digits, for `k` up to ten.
pub proof fn lemma_decimal_len_bound(n: nat)
    ensures
        n < 10 ==> decimal_len(n) == 1,
        n < 100 ==> decimal_len(n) <= 2,
        n < 1000 ==> decimal_len(n) <= 3,
        n < 10000 ==> decimal_len(n) <= 4,
        n < 100000 ==> decimal_len(n) <= 5,
        n < 1000000 ==> decimal_len(n) <= 6,
        n < 10000000 ==> decimal_len(n) <= 7,
        n < 100000000 ==> decimal_len(n) <= 8,
        n < 1000000000 ==> decimal_len(n) <= 9,
        n < 10000000000 ==> decimal_len(n) <= 10,
    decreases n,
{
    if n >= 10 {
        lemma_decimal_len_bound(n / 10);
        assert(n < 100 ==> n / 10 < 10);
        assert(n < 1000 ==> n / 10 < 100);
        assert(n < 10000 ==> n / 10 < 1000);
        assert(n < 100000 ==> n / 10 < 10000);
        assert(n < 1000000 ==> n / 10 < 100000);
        assert(n < 10000000 ==> n / 10 < 1000000);
        assert(n < 100000000 ==> n / 10 < 10000000);
        assert(n < 1000000000 ==> n / 10 < 100000000);
        assert(n < 10000000000 ==> n / 10 < 1000000000);
    }
}

/// Zeros in front do not change the value of the digits.
proof fn lemma_parse_digits_leading_zeros(z: nat, s: Seq<u8>)
    ensures
        parse_digits(Seq::new(z, |i: int| 0x30u8) + s) == parse_digits(s),
    decreases s.len(),
{
    let zs = Seq::new(z, |i: int| 0x30u8);
    if s.len() == 0 {
        assert(zs + s =~= zs);
        lemma_parse_zeros(z);
    } else {
        lemma_parse_digits_leading_zeros(z, s.drop_last());
        assert((zs + s).drop_last() =~= zs + s.drop_last());
        assert((zs + s).last() == s.last());
    }
}

/// A run of zeros is worth zero.
proof fn lemma_parse_zeros(z: nat)
    ensures
        parse_digits(Seq::new(z, |i: int| 0x30u8)) == Ok::<u32, IntErrorKind>(0),
    decreases z,
{
    if z > 0 {
        lemma_parse_zeros((z - 1) as nat);
        assert(Seq::new(z, |i: int| 0x30u8).drop_last() =~= Seq::new((z - 1) as nat, |i: int| 0x30u8));
    }
}

/// Digits written with zeros in front read back as the number written.
pub proof fn lemma_parse_zero_padded(n: nat, width: nat)
    requires
        n <= u32::MAX,
    ensures
        spec_parse_u32(zero_padded(n, width)) == Ok::<u32, IntErrorKind>(n as u32),
        zero_padded(n, width).len() == if decimal_len(n) < width { width } else { decimal_len(n) },
        forall|i: int| 0 <= i < zero_padded(n, width).len() ==> #[trigger] is_digit(zero_padded(n, width)[i]),
{
    lemma_decimal_digits(n);
    let d = decimal_digits(n);
    let s = zero_padded(n, width);
    if d.len() < width {
        let z = (width - d.len()) as nat;
        lemma_parse_digits_leading_zeros(z, d);
        assert forall|i: int| 0 <= i < s.len() implies #[trigger] is_digit(s[i]) by {
            if i >= z {
                assert(s[i] == d[i - z]);
            }
        }
    }
    assert(is_digit(s[0]));
}

/// Appends the decimal digits of `n` to `dst`.
pub fn push_decimal(n: u32, dst: &mut Vec<u8>)
    ensures
        final(dst)@ == old(dst)@ + decimal_digits(n as nat),
    decreases n,
{
    if n >= 10 {
        push_decimal(n / 10, dst);
    }
    let d = (n % 10) as u8;
    dst.push(0x30 + d);
    assert(final(dst)@ =~= old(dst)@ + decimal_digits(n as nat)) by {
        if n >= 10 {
            assert(decimal_digits(n as nat) == decimal_digits((n / 10) as nat).push((0x30 + n % 10) as u8));
        }
    }
}

/// The number of decimal digits of `n`.
fn count_decimal_digits(n: u32) -> (r: usize)
    ensures
        r == decimal_len(n as nat),
    decreases n,
{
    if n < 10 {
        1
    } else {
        proof {
            lemma_decimal_len_bound((n / 10) as nat);
        }
        count_decimal_digits(n / 10) + 1
    }
}

/// Appends the decimal digits of `n` to `dst`, with zeros in front up to `width`
/// bytes, as `write!(dst, "{:0width$}", n)` does.
pub fn push_zero_padded(n: u32, width: usize, dst: &mut Vec<u8>)
    ensures
        final(dst)@ == old(dst)@ + zero_padded(n as nat, width as nat),
{
    let len = count_decimal_digits(n);
    let ghost start = dst@;
    if len < width {
        let mut i: usize = len;
        while i < width
            invariant
                len <= i <= width,
                dst@ == start + Seq::new((i - len) as nat, |j: int| 0x30u8),
            decreases width - i,
        {
            dst.push(0x30);
            i = i + 1;
            assert(dst@ =~= start + Seq::new((i - len) as nat, |j: int| 0x30u8));
        }
    }
    let ghost mid = dst@;
    push_decimal(n, dst);
    proof {
        lemma_decimal_digits(n as nat);
        if len < width {
            assert(dst@ =~= start + (Seq::new((width - len) as nat, |j: int| 0x30u8) + decimal_digits(n as nat)));
        } else {
            assert(dst@ =~= start + decimal_digits(n as nat));
        }
    }
}

} // verus!
