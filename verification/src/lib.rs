//! Base62 codec for unsigned 64-bit integers, with batch variants.
//!
//! A number is written with the 62-symbol alphabet `0`-`9`, `A`-`Z`,
//! `a`-`z`, most significant symbol first; zero is the single symbol `0`.
//! Decoding rejects empty input, symbols outside the alphabet, and
//! values that do not fit in 64 bits.

use vstd::prelude::*;
use vstd::string::StrSliceExecFns;
use vstd::string::StringExecFns;

mod batch;

pub use batch::BatchError;
pub use batch::MAX_BATCH_SIZE;
pub use batch::decode_batch;
pub use batch::encode_batch;

verus! {

/// Why a string failed to decode.
#[derive(Clone, Copy, Debug, PartialEq, Eq, Structural)]
pub enum DecodeError {
    /// The input string was empty; no number is written as "".
    EmptyInput,
    /// The input held `ch` at 0-based position `pos`, which is not an
    /// alphabet symbol.
    InvalidCharacter { ch: char, pos: usize },
    /// The input names a value larger than `u64::MAX`.
    NumericOverflow,
}

/// A symbol of the Base62 alphabet: a decimal digit, an upper-case
/// letter, or a lower-case letter.
pub open spec fn is_b62_char(c: char) -> bool {
    ('0' <= c && c <= '9') || ('A' <= c && c <= 'Z') || ('a' <= c && c <= 'z')
}

/// The numeric value of an alphabet symbol: `0`-`9` are 0-9,
/// `A`-`Z` are 10-35, `a`-`z` are 36-61.
pub open spec fn char_val(c: char) -> int {
    if '0' <= c && c <= '9' {
        c as int - '0' as int
    } else if 'A' <= c && c <= 'Z' {
        c as int - 'A' as int + 10
    } else {
        c as int - 'a' as int + 36
    }
}

/// The alphabet symbol for a value in 0..62: the inverse of `char_val`.
pub open spec fn b62_digit(v: int) -> char {
    if v < 10 {
        (v + '0' as int) as u8 as char
    } else if v < 36 {
        (v - 10 + 'A' as int) as u8 as char
    } else {
        (v - 36 + 'a' as int) as u8 as char
    }
}

/// 62 raised to the power `k`.
pub open spec fn pow62(k: nat) -> nat
    decreases k,
{
    if k == 0 {
        1
    } else {
        62 * pow62((k - 1) as nat)
    }
}

/// The Base62 digits of `n`, most significant first; zero has no digits.
pub open spec fn b62_digits(n: nat) -> Seq<char>
    decreases n,
{
    if n == 0 {
        Seq::empty()
    } else {
        b62_digits(n / 62).push(b62_digit((n % 62) as int))
    }
}

/// The Base62 encoding of `n`: its digits, except that zero is "0".
pub open spec fn b62_of(n: nat) -> Seq<char> {
    if n == 0 {
        seq!['0']
    } else {
        b62_digits(n)
    }
}

/// The number a sequence of alphabet symbols names, most significant
/// symbol first.
pub open spec fn b62_val(s: Seq<char>) -> int
    decreases s.len(),
{
    if s.len() == 0 {
        0
    } else {
        char_val(s[0]) * pow62((s.len() - 1) as nat) + b62_val(s.drop_first())
    }
}

/// What decoding returns once the symbols before position `i` have been
/// folded into the accumulator `acc`: symbols are taken left to right,
/// each one first checked against the alphabet, then folded in as
/// `acc * 62 + value`, with both steps checked against 64-bit overflow.
pub open spec fn decode_from(s: Seq<char>, i: int, acc: u64) -> Result<u64, DecodeError>
    decreases s.len() - i,
{
    if i < 0 || i >= s.len() {
        Ok(acc)
    } else if !is_b62_char(s[i]) {
        Err(DecodeError::InvalidCharacter { ch: s[i], pos: i as usize })
    } else if acc * 62 > u64::MAX {
        Err(DecodeError::NumericOverflow)
    } else if acc * 62 + char_val(s[i]) > u64::MAX {
        Err(DecodeError::NumericOverflow)
    } else {
        decode_from(s, i + 1, (acc * 62 + char_val(s[i])) as u64)
    }
}

/// What decoding a whole string returns: `EmptyInput` for the empty
/// string, otherwise the left-to-right fold of its symbols.
pub open spec fn decode_spec(s: Seq<char>) -> Result<u64, DecodeError> {
    if s.len() == 0 {
        Err(DecodeError::EmptyInput)
    } else {
        decode_from(s, 0, 0)
    }
}

/// Each alphabet symbol names its own value: `char_val` inverts
/// `b62_digit` on 0..62.
pub proof fn lemma_b62_digit_val(v: int)
    requires
        0 <= v < 62,
    ensures
        is_b62_char(b62_digit(v)),
        char_val(b62_digit(v)) == v,
{
}

proof fn lemma_pow62_pos(k: nat)
    ensures
        pow62(k) >= 1,
    decreases k,
{
    if k > 0 {
        lemma_pow62_pos((k - 1) as nat);
    }
}

proof fn lemma_b62_val_nonneg(s: Seq<char>)
    requires
        forall|i: int| 0 <= i < s.len() ==> is_b62_char(s[i]),
    ensures
        b62_val(s) >= 0,
    decreases s.len(),
{
    if s.len() > 0 {
        let p = pow62((s.len() - 1) as nat);
        lemma_pow62_pos((s.len() - 1) as nat);
        assert(forall|i: int| 0 <= i < s.drop_first().len() ==> is_b62_char(s.drop_first()[i]));
        lemma_b62_val_nonneg(s.drop_first());
        assert(char_val(s[0]) * p >= 0) by (nonlinear_arith)
            requires
                char_val(s[0]) >= 0,
                p >= 1,
        ;
    }
}

/// Appending a symbol multiplies the value by 62 and adds the symbol's.
proof fn lemma_b62_val_push(s: Seq<char>, c: char)
    ensures
        b62_val(s.push(c)) == 62 * b62_val(s) + char_val(c),
    decreases s.len(),
{
    let t = s.push(c);
    if s.len() == 0 {
        assert(t.drop_first() =~= Seq::<char>::empty());
        assert(t.len() == 1 && t[0] == c);
        assert(pow62(0) == 1);
        assert(b62_val(Seq::<char>::empty()) == 0);
    } else {
        lemma_b62_val_push(s.drop_first(), c);
        assert(t.drop_first() =~= s.drop_first().push(c));
        let p = pow62((s.len() - 1) as nat);
        assert(pow62(s.len()) == 62 * p);
        assert(t[0] == s[0]);
        assert((t.len() - 1) as nat == s.len());
        assert(char_val(s[0]) * (62 * p) == 62 * (char_val(s[0]) * p)) by (nonlinear_arith);
        assert(b62_val(t) == char_val(s[0]) * (62 * p) + b62_val(t.drop_first()));
        assert(b62_val(t.drop_first()) == 62 * b62_val(s.drop_first()) + char_val(c));
        assert(b62_val(s) == char_val(s[0]) * p + b62_val(s.drop_first()));
    }
}

/// The digit sequence of `n` is made of alphabet symbols and names `n`.
proof fn lemma_b62_digits(n: nat)
    ensures
        forall|i: int| 0 <= i < b62_digits(n).len() ==> is_b62_char(#[trigger] b62_digits(n)[i]),
        b62_val(b62_digits(n)) == n,
        n > 0 ==> b62_digits(n).len() >= 1,
    decreases n,
{
    if n > 0 {
        let q = n / 62;
        let r = (n % 62) as int;
        vstd::arithmetic::div_mod::lemma_fundamental_div_mod(n as int, 62);
        assert(q < n) by (nonlinear_arith)
            requires
                n > 0,
                q == n / 62,
        ;
        lemma_b62_digits(q);
        lemma_b62_digit_val(r);
        lemma_b62_val_push(b62_digits(q), b62_digit(r));
        assert forall|i: int| 0 <= i < b62_digits(n).len() implies is_b62_char(
            #[trigger] b62_digits(n)[i],
        ) by {
            if i < b62_digits(q).len() {
                assert(b62_digits(n)[i] == b62_digits(q)[i]);
            } else {
                assert(b62_digits(n)[i] == b62_digit(r));
            }
        }
    }
}

/// Folding valid symbols left to right from a fitting accumulator never
/// overflows and yields the positional value.
proof fn lemma_decode_from_valid(s: Seq<char>, i: int, acc: u64)
    requires
        0 <= i <= s.len(),
        forall|k: int| i <= k < s.len() ==> is_b62_char(s[k]),
        acc * pow62((s.len() - i) as nat) + b62_val(s.skip(i)) <= u64::MAX,
    ensures
        decode_from(s, i, acc) == Ok::<u64, DecodeError>(
            (acc * pow62((s.len() - i) as nat) + b62_val(s.skip(i))) as u64,
        ),
    decreases s.len() - i,
{
    let m = (s.len() - i) as nat;
    let rest = s.skip(i);
    if i == s.len() {
        assert(rest =~= Seq::<char>::empty());
        assert(acc * pow62(0) == acc * 1);
    } else {
        let c = s[i];
        let cv = char_val(c);
        assert(is_b62_char(c));
        let p = pow62((m - 1) as nat);
        lemma_pow62_pos((m - 1) as nat);
        assert(pow62(m) == 62 * p);
        assert(rest.len() == m && rest[0] == c);
        assert(rest.drop_first() =~= s.skip(i + 1));
        let tail = s.skip(i + 1);
        assert(forall|k: int| 0 <= k < tail.len() ==> is_b62_char(tail[k]));
        lemma_b62_val_nonneg(tail);
        let restv = b62_val(tail);
        assert(b62_val(rest) == cv * p + restv);
        assert((acc * 62 + cv) * p == acc * (62 * p) + cv * p) by (nonlinear_arith);
        assert(acc * 62 + cv <= (acc * 62 + cv) * p) by (nonlinear_arith)
            requires
                p >= 1,
                acc >= 0,
                cv >= 0,
        ;
        assert(acc * 62 + cv <= u64::MAX);
        let acc2 = (acc * 62 + cv) as u64;
        lemma_decode_from_valid(s, i + 1, acc2);
        assert(decode_from(s, i, acc) == decode_from(s, i + 1, acc2));
    }
}

/// Round trip: decoding the encoding of any number gives that number
/// back, and never fails.
pub proof fn lemma_round_trip(n: u64)
    ensures
        decode_spec(b62_of(n as nat)) == Ok::<u64, DecodeError>(n),
{
    if n == 0 {
        let s = b62_of(0);
        assert(s == seq!['0']);
        assert(s.len() == 1 && s[0] == '0');
        assert(is_b62_char('0') && char_val('0') == 0);
        assert(decode_from(s, 1, 0) == Ok::<u64, DecodeError>(0));
        assert(decode_from(s, 0, 0) == Ok::<u64, DecodeError>(0));
    } else {
        let nn = n as nat;
        lemma_b62_digits(nn);
        let s = b62_digits(nn);
        assert(s.skip(0) =~= s);
        assert(0 * pow62(s.len()) == 0) by (nonlinear_arith);
        lemma_decode_from_valid(s, 0, 0);
        assert(b62_of(nn) == s);
        assert(s.len() >= 1);
    }
}

/// The characters that a sequence of ASCII bytes spells.
pub open spec fn chars_of_bytes(bs: Seq<u8>) -> Seq<char> {
    bs.map_values(|b: u8| b as char)
}

/// The numeric value of the alphabet symbol `c`, or `None` when `c` is
/// not in the alphabet.
fn symbol_value(c: char) -> (r: Option<u64>)
    ensures
        r == if is_b62_char(c) {
            Some(char_val(c) as u64)
        } else {
            None::<u64>
        },
{
    let u = c as u32;
    if 48 <= u && u <= 57 {
        Some((u - 48) as u64)
    } else if 65 <= u && u <= 90 {
        Some((u - 55) as u64)
    } else if 97 <= u && u <= 122 {
        Some((u - 61) as u64)
    } else {
        None
    }
}

/// The ASCII byte of the alphabet symbol for a value in 0..62.
fn digit_byte(v: u64) -> (b: u8)
    requires
        v < 62,
    ensures
        b as char == b62_digit(v as int),
        b < 128,
{
    if v < 10 {
        (v + 48) as u8
    } else if v < 36 {
        (v + 55) as u8
    } else {
        (v + 61) as u8
    }
}

/// Relies on `String::from_utf8`: a sequence of ASCII bytes is valid
/// UTF-8 and decodes to exactly the characters those bytes spell.
#[verifier::external_body]
fn ascii_bytes_to_string(bytes: Vec<u8>) -> (r: String)
    requires
        forall|i: int| 0 <= i < bytes@.len() ==> bytes@[i] < 128,
    ensures
        r@ == chars_of_bytes(bytes@),
{
    match String::from_utf8(bytes) {
        Ok(s) => s,
        Err(_) => String::new(),
    }
}

/// The Base62 digits of `num` as ASCII bytes, most significant first;
/// zero gives no bytes.
fn digit_bytes(num: u64) -> (r: Vec<u8>)
    ensures
        chars_of_bytes(r@) == b62_digits(num as nat),
        forall|i: int| 0 <= i < r@.len() ==> r@[i] < 128,
    decreases num,
{
    if num == 0 {
        let r = Vec::new();
        proof {
            assert(chars_of_bytes(r@) =~= b62_digits(0));
        }
        r
    } else {
        proof {
            assert(num / 62 < num) by (nonlinear_arith)
                requires
                    num > 0,
            ;
        }
        let mut r = digit_bytes(num / 62);
        let d = digit_byte(num % 62);
        r.push(d);
        proof {
            assert(chars_of_bytes(r@) =~= b62_digits(num as nat));
        }
        r
    }
}

/// Convert a number to its Base62 string: repeated division by 62
/// produces the digits, least significant first; zero is "0".
pub fn to_base62(num: u64) -> (r: String)
    ensures
        r@ == b62_of(num as nat),
{
    if num == 0 {
        let r = String::from_str("0");
        proof {
            reveal_strlit("0");
            assert(r@ =~= b62_of(0));
        }
        r
    } else {
        ascii_bytes_to_string(digit_bytes(num))
    }
}

/// Encode a number as a Base62 string. Infallible: every `u64` has an
/// encoding, and the encoding of zero is "0".
pub fn encode(num: u64) -> (r: String)
    ensures
        r@ == b62_of(num as nat),
{
    to_base62(num)
}

/// Decode a Base62 string to the number it names, reading symbols left
/// to right, or report the first reason it names none: empty input, the
/// first symbol outside the alphabet (with its position), or a value
/// that does not fit in 64 bits.
pub fn decode(s: &str) -> (r: Result<u64, DecodeError>)
    ensures
        r == decode_spec(s@),
{
    let n = s.unicode_len();
    if n == 0 {
        return Err(DecodeError::EmptyInput);
    }
    let mut acc: u64 = 0;
    let mut i: usize = 0;
    while i < n
        invariant
            n == s@.len(),
            i <= n,
            decode_from(s@, 0, 0) == decode_from(s@, i as int, acc),
        decreases n - i,
    {
        let c = s.get_char(i);
        match symbol_value(c) {
            None => {
                return Err(DecodeError::InvalidCharacter { ch: c, pos: i });
            },
            Some(val) => {
                match acc.checked_mul(62) {
                    None => {
                        return Err(DecodeError::NumericOverflow);
                    },
                    Some(m) => {
                        match m.checked_add(val) {
                            None => {
                                return Err(DecodeError::NumericOverflow);
                            },
                            Some(a) => {
                                acc = a;
                            },
                        }
                    },
                }
            },
        }
        i = i + 1;
    }
    Ok(acc)
}

/// Decode a Base62 string, reporting only whether it names a number.
pub fn from_base62(s: &str) -> (r: Option<u64>)
    ensures
        r == match decode_spec(s@) {
            Ok(v) => Some(v),
            Err(_) => None::<u64>,
        },
{
    match decode(s) {
        Ok(v) => Some(v),
        Err(_) => None,
    }
}

} // verus!
