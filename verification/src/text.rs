//! Specifications and helpers for text: decimal digits, UTF-8 bytes of
//! strings, and the string operations of std that the editor uses.

use vstd::prelude::*;
use vstd::utf8::*;

verus! {

broadcast use vstd::seq::group_seq_axioms, vstd::utf8::encode_utf8_valid_utf8;

/// The character of a decimal digit.
pub open spec fn digit_char(d: nat) -> char {
    ((48 + d) as u32) as char
}

/// The decimal digits of `n`, as `Display` writes an unsigned integer.
pub open spec fn decimal(n: nat) -> Seq<char>
    decreases n,
{
    if n < 10 {
        seq![digit_char(n)]
    } else {
        decimal(n / 10) + seq![digit_char(n % 10)]
    }
}

/// The UTF-8 bytes of a text.
pub open spec fn utf8(s: Seq<char>) -> Seq<u8> {
    encode_utf8(s)
}

/// The bytes of a text are the bytes of its parts, one after the other.
pub proof fn lemma_utf8_concat(a: Seq<char>, b: Seq<char>)
    ensures
        utf8(a + b) == utf8(a) + utf8(b),
    decreases a.len(),
{
    if a.len() == 0 {
        assert(a + b =~= b);
        assert(utf8(a) =~= Seq::<u8>::empty());
        assert(utf8(a) + utf8(b) =~= utf8(b));
    } else {
        lemma_utf8_concat(a.drop_first(), b);
        assert((a + b).drop_first() =~= a.drop_first() + b);
        assert((a + b)[0] == a[0]);
        assert(utf8(a + b) =~= utf8(a) + utf8(b));
    }
}

/// The bytes of an ASCII character.
pub proof fn lemma_utf8_ascii_char(c: char)
    requires
        (c as u32) < 128,
    ensures
        utf8(seq![c]) == seq![c as u8],
{
    let u = c as u32;
    reveal_with_fuel(encode_utf8, 2);
    assert(seq![c].drop_first() =~= Seq::<char>::empty());
    assert(has_width_1_encoding(u));
    assert(u as u8 == leading_byte_width_1(u)) by (bit_vector)
        requires
            u < 128,
    ;
    assert(c as u8 == u as u8);
    assert(utf8(seq![c]) =~= seq![c as u8]);
}

/// The bytes of a text are valid UTF-8.
pub proof fn lemma_utf8_valid(s: Seq<char>)
    ensures
        valid_utf8(utf8(s)),
        is_char_boundary(utf8(s), 0),
        is_char_boundary(utf8(s), utf8(s).len() as int),
{
    is_char_boundary_start_end_of_seq(utf8(s));
}

/// Calls `String::len`, which returns the number of UTF-8 bytes of the
/// string. std allocates at most `isize::MAX` bytes for one value, so the
/// count is exact as a `usize`.
#[verifier::external_body]
pub(crate) fn string_len(s: &String) -> (r: usize)
    ensures
        r == utf8(s@).len(),
{
    s.len()
}

/// Calls `str::len`, which returns the number of UTF-8 bytes of the slice.
/// A slice spans at most `isize::MAX` bytes, so the count is exact as a
/// `usize`.
#[verifier::external_body]
pub(crate) fn string_len_str(s: &str) -> (r: usize)
    ensures
        r == utf8(s@).len(),
{
    s.len()
}

/// The decimal digits of `n`, as `Display` writes a `usize`.
pub fn usize_text(n: usize) -> (r: String)
    ensures
        r@ == decimal(n as nat),
    decreases n,
{
    let d = (n % 10) as u8;
    let c = (48u8 + d) as char;
    proof {
        assert(c == digit_char((n % 10) as nat));
    }
    if n < 10 {
        let mut r = String::new();
        string_push(&mut r, c);
        proof {
            assert(r@ =~= seq![c]);
        }
        r
    } else {
        let mut r = usize_text(n / 10);
        string_push(&mut r, c);
        r
    }
}

/// A control character: Unicode's `Cc` category, which `char::is_control`
/// tests.
pub open spec fn is_control_char(c: char) -> bool {
    (c as u32) <= 0x1f || (0x7f <= (c as u32) && (c as u32) <= 0x9f)
}

/// ASCII white space as `char::is_ascii_whitespace` tests it: space, tab,
/// line feed, form feed and carriage return.
pub open spec fn is_ascii_white(c: char) -> bool {
    c == ' ' || c == '\t' || c == '\n' || c == '\x0C' || c == '\r'
}

/// Calls `String::push`, which appends the character to the string.
#[verifier::external_body]
pub(crate) fn string_push(s: &mut String, c: char)
    ensures
        final(s)@ == old(s)@.push(c),
{
    s.push(c)
}

/// `needle` occurs in `hay` as a run of consecutive characters; the empty
/// text occurs in every text.
pub open spec fn contains_chars(hay: Seq<char>, needle: Seq<char>) -> bool {
    exists|i: int|
        0 <= i && i + needle.len() <= hay.len() && #[trigger] hay.subrange(i, i + needle.len())
            == needle
}

/// Calls `str::contains` with a string pattern, which tells whether the
/// pattern occurs in the slice.
#[verifier::external_body]
pub(crate) fn str_contains(hay: &str, needle: &str) -> (r: bool)
    ensures
        r == contains_chars(hay@, needle@),
{
    hay.contains(needle)
}

/// A character that Unicode's `White_Space` property marks as white space,
/// which is what `char::is_whitespace` tests.
pub open spec fn is_white_space(c: char) -> bool {
    ||| '\t' <= c <= '\r'
    ||| c == ' '
    ||| c == '\u{85}'
    ||| c == '\u{a0}'
    ||| c == '\u{1680}'
    ||| '\u{2000}' <= c <= '\u{200a}'
    ||| c == '\u{2028}'
    ||| c == '\u{2029}'
    ||| c == '\u{202f}'
    ||| c == '\u{205f}'
    ||| c == '\u{3000}'
}

/// The text is `s` without its leading and trailing white space.
pub open spec fn is_trimmed_of(r: Seq<char>, s: Seq<char>) -> bool {
    exists|a: int, b: int|
        0 <= a <= b <= s.len() && r == s.subrange(a, b) && (forall|i: int|
            0 <= i < a ==> is_white_space(#[trigger] s[i])) && (forall|i: int|
            b <= i < s.len() ==> is_white_space(#[trigger] s[i])) && (a < b ==> (
        !is_white_space(s[a]) && !is_white_space(s[b - 1])))
}

/// Calls `str::trim`, which removes the leading and trailing white space of
/// the slice.
#[verifier::external_body]
pub(crate) fn str_trim(s: &str) -> (r: &str)
    ensures
        is_trimmed_of(r@, s@),
{
    s.trim()
}

/// Calls `String::insert_str`, which inserts `t` at byte `idx`. std panics
/// when `idx` is past the end or not on a character boundary; `requires`
/// leaves those inputs out.
#[verifier::external_body]
pub(crate) fn string_insert_str(s: &mut String, idx: usize, t: &str)
    requires
        is_char_boundary(utf8(old(s)@), idx as int),
    ensures
        utf8(final(s)@) == utf8(old(s)@).take(idx as int) + utf8(t@) + utf8(old(s)@).skip(
            idx as int,
        ),
{
    s.insert_str(idx, t)
}

/// Calls `String::replace_range` with an empty replacement, which removes
/// the bytes `start..end`. std panics when an end is past the end of the
/// string or not on a character boundary; `requires` leaves those inputs out.
#[verifier::external_body]
pub(crate) fn string_remove_range(s: &mut String, start: usize, end: usize)
    requires
        start <= end,
        is_char_boundary(utf8(old(s)@), start as int),
        is_char_boundary(utf8(old(s)@), end as int),
    ensures
        utf8(final(s)@) == utf8(old(s)@).take(start as int) + utf8(old(s)@).skip(end as int),
{
    s.replace_range(start..end, "")
}

/// Calls `String::split_off`, which keeps the bytes before `at` and returns
/// the rest. std panics when `at` is past the end or not on a character
/// boundary; `requires` leaves those inputs out.
#[verifier::external_body]
pub(crate) fn string_split_off(s: &mut String, at: usize) -> (r: String)
    requires
        is_char_boundary(utf8(old(s)@), at as int),
    ensures
        utf8(final(s)@) == utf8(old(s)@).take(at as int),
        utf8(r@) == utf8(old(s)@).skip(at as int),
{
    s.split_off(at)
}

/// Appends `t` to `s`.
pub fn string_push_str(s: &mut String, t: &str)
    ensures
        final(s)@ == old(s)@ + t@,
        utf8(final(s)@) == utf8(old(s)@) + utf8(t@),
{
    s.append(t);
    proof {
        lemma_utf8_concat(old(s)@, t@);
    }
}


/// The value of an ASCII digit byte in a radix: `0-9`, then `a-z` or `A-Z`
/// for ten and up; `None` when the byte is no digit of the radix.
pub open spec fn digit_value(b: u8, radix: nat) -> Option<nat> {
    let v: int = if 48 <= b <= 57 {
        b - 48
    } else if 97 <= b <= 122 {
        b - 97 + 10
    } else if 65 <= b <= 90 {
        b - 65 + 10
    } else {
        -1
    };
    if 0 <= v < radix {
        Some(v as nat)
    } else {
        None
    }
}

/// The value of a run of digit bytes, most significant first; `None` when a
/// byte is no digit.
pub open spec fn digits_value(b: Seq<u8>, radix: nat) -> Option<nat>
    decreases b.len(),
{
    if b.len() == 0 {
        Some(0)
    } else {
        match (digits_value(b.drop_last(), radix), digit_value(b.last(), radix)) {
            (Some(v), Some(d)) => Some(v * radix + d),
            _ => None,
        }
    }
}

/// The value that `from_str_radix` of an unsigned integer type reads from the
/// bytes: an optional `+`, then at least one digit, the value being at most
/// `max`; `None` otherwise.
pub open spec fn parse_unsigned(b: Seq<u8>, radix: nat, max: nat) -> Option<nat> {
    let body = if b.len() > 0 && b[0] == 43u8 {
        b.skip(1)
    } else {
        b
    };
    if body.len() == 0 {
        None
    } else {
        match digits_value(body, radix) {
            Some(v) => if v <= max {
                Some(v)
            } else {
                None
            },
            None => None,
        }
    }
}

proof fn lemma_digits_prefix(b: Seq<u8>, radix: nat, i: int)
    requires
        radix >= 1,
        0 <= i <= b.len(),
    ensures
        digits_value(b, radix) matches Some(v) ==> (digits_value(b.take(i), radix) matches Some(
            w,
        ) && w <= v),
    decreases b.len() - i,
{
    if i < b.len() {
        lemma_digits_prefix(b, radix, i + 1);
        assert(b.take(i + 1).drop_last() =~= b.take(i));
        if let Some(v) = digits_value(b, radix) {
            let w1 = digits_value(b.take(i + 1), radix)->0;
            let w = digits_value(b.take(i), radix)->0;
            let d = digit_value(b.take(i + 1).last(), radix)->0;
            assert(w1 == w * radix + d);
            assert(w * radix >= w) by (nonlinear_arith)
                requires
                    radix >= 1,
            ;
        }
    } else {
        assert(b.take(i) =~= b);
    }
}

/// Reads an unsigned integer in `radix` from `b[start..]`, as
/// `from_str_radix` of an unsigned integer type whose largest value is `max`
/// does.
pub fn parse_unsigned_bytes(b: &[u8], start: usize, radix: u64, max: u64) -> (r: Option<u64>)
    requires
        2 <= radix <= 36,
        start <= b@.len(),
    ensures
        r matches Some(v) ==> parse_unsigned(b@.skip(start as int), radix as nat, max as nat)
            == Some(v as nat),
        r is None ==> parse_unsigned(b@.skip(start as int), radix as nat, max as nat) is None,
{
    let ghost whole = b@.skip(start as int);
    let n = b.len();
    let mut i = start;
    if i < n && b[i] == 43u8 {
        i += 1;
    }
    let ghost body = b@.skip(i as int);
    proof {
        if start < n && b@[start as int] == 43u8 {
            assert(body =~= whole.skip(1));
        } else {
            assert(body =~= whole);
        }
    }
    if i == n {
        return None;
    }
    let first = i;
    let mut v: u64 = 0;
    assert(parse_unsigned(whole, radix as nat, max as nat) == match digits_value(body, radix as nat) {
        Some(w) => if w <= max {
            Some(w)
        } else {
            None
        },
        None => None,
    });
    proof {
        assert(body.take(0) =~= Seq::<u8>::empty());
    }
    while i < n
        invariant
            first <= i <= n,
            n == b@.len(),
            body == b@.skip(first as int),
            2 <= radix <= 36,
            digits_value(body.take(i - first), radix as nat) == Some(v as nat),
            v <= max,
            body.len() > 0,
            whole == b@.skip(start as int),
            parse_unsigned(whole, radix as nat, max as nat) == match digits_value(body, radix as nat) {
                Some(w) => if w <= max {
                    Some(w)
                } else {
                    None
                },
                None => None,
            },
        decreases n - i,
    {
        let c = b[i];
        let d: u64 = if 48 <= c && c <= 57 {
            (c - 48) as u64
        } else if 97 <= c && c <= 122 {
            (c - 97 + 10) as u64
        } else if 65 <= c && c <= 90 {
            (c - 65 + 10) as u64
        } else {
            radix
        };
        let ghost k = i - first;
        proof {
            assert(body.take(k + 1).drop_last() =~= body.take(k));
            assert(body.take(k + 1).last() == c);
        }
        if d >= radix {
            proof {
                assert(digit_value(c, radix as nat) is None);
                assert(digits_value(body.take(k + 1), radix as nat) is None);
                lemma_digits_prefix(body, radix as nat, k + 1);
                assert(digits_value(body, radix as nat) is None);
            }
            return None;
        }
        assert(digit_value(c, radix as nat) == Some(d as nat));
        if d > max {
            proof {
                assert(v * radix >= 0) by (nonlinear_arith);
                lemma_digits_prefix(body, radix as nat, k + 1);
            }
            return None;
        }
        let q = (max - d) / radix;
        if v > q {
            proof {
                assert(v * radix + d > max) by (nonlinear_arith)
                    requires
                        v > q,
                        q as int == (max as int - d as int) / (radix as int),
                        radix > 0,
                        d <= max,
                ;
                lemma_digits_prefix(body, radix as nat, k + 1);
            }
            return None;
        }
        proof {
            assert(v * radix + d <= max) by (nonlinear_arith)
                requires
                    v <= q,
                    q as int == (max as int - d as int) / (radix as int),
                    radix > 0,
                    d <= max,
            ;
        }
        v = v * radix + d;
        i += 1;
    }
    proof {
        assert(body.take(n - first) =~= body);
    }
    Some(v)
}

} // verus!
