//! Shared string and numeric utilities: character classification, trimming,
//! substring search, decimal formatting and parsing, and the two trusted
//! bridges to `std` string functions that vstd does not specify.

use vstd::prelude::*;
use vstd::string::StrSliceExecFns;

verus! {

/// Relies on `String::push`: appends exactly the given character.
#[verifier::external_body]
pub fn push_char(s: &mut String, c: char)
    ensures
        final(s)@ == old(s)@.push(c),
{
    s.push(c);
}

#[verifier::external_type_specification]
#[verifier::external_body]
pub struct ExFromUtf8Error(std::string::FromUtf8Error);

/// Relies on `String::from_utf8`: succeeds exactly on valid UTF-8 input and
/// returns a string holding those very bytes.
pub assume_specification[ String::from_utf8 ](v: Vec<u8>) -> (r: Result<
    String,
    std::string::FromUtf8Error,
>)
    ensures
        r.is_ok() == vstd::utf8::valid_utf8(v@),
        r matches Ok(s) ==> vstd::utf8::encode_utf8(s@) == v@,
;

/// The exact set of characters `char::is_whitespace` accepts.
pub open spec fn is_space_char(c: char) -> bool {
    ||| c == ' '
    ||| c == '\t'
    ||| c == '\n'
    ||| c == '\u{b}'
    ||| c == '\u{c}'
    ||| c == '\r'
    ||| c == '\u{85}'
    ||| c == '\u{a0}'
    ||| c == '\u{1680}'
    ||| ('\u{2000}' <= c && c <= '\u{200a}')
    ||| c == '\u{2028}'
    ||| c == '\u{2029}'
    ||| c == '\u{202f}'
    ||| c == '\u{205f}'
    ||| c == '\u{3000}'
}

pub fn is_space(c: char) -> (b: bool)
    ensures
        b == is_space_char(c),
{
    c == ' ' || c == '\t' || c == '\n' || c == '\u{b}' || c == '\u{c}' || c == '\r' || c == '\u{85}'
        || c == '\u{a0}' || c == '\u{1680}' || ('\u{2000}' <= c && c <= '\u{200a}') || c
        == '\u{2028}' || c == '\u{2029}' || c == '\u{202f}' || c == '\u{205f}' || c == '\u{3000}'
}

/// The sequence with leading whitespace removed.
pub open spec fn spec_trim_front(s: Seq<char>) -> Seq<char>
    decreases s.len(),
{
    if s.len() == 0 {
        s
    } else if is_space_char(s[0]) {
        spec_trim_front(s.skip(1))
    } else {
        s
    }
}

/// The sequence with trailing whitespace removed.
pub open spec fn spec_trim_back(s: Seq<char>) -> Seq<char>
    decreases s.len(),
{
    if s.len() == 0 {
        s
    } else if is_space_char(s[s.len() - 1]) {
        spec_trim_back(s.drop_last())
    } else {
        s
    }
}

/// The sequence with whitespace removed from both ends.
pub open spec fn spec_trim(s: Seq<char>) -> Seq<char> {
    spec_trim_back(spec_trim_front(s))
}

/// A fresh string holding `s` without leading or trailing whitespace.
pub fn str_trim(s: &str) -> (r: String)
    ensures
        r@ == spec_trim(s@),
{
    let n: usize = s.unicode_len();
    let mut i: usize = 0;
    proof {
        assert(s@.skip(0) =~= s@);
    }
    while i < n && is_space(s.get_char(i))
        invariant
            0 <= i <= n,
            n == s@.len(),
            spec_trim_front(s@) == spec_trim_front(s@.skip(i as int)),
        decreases n - i,
    {
        proof {
            assert(s@.skip(i as int).skip(1) =~= s@.skip(i + 1));
        }
        i = i + 1;
    }
    proof {
        if i < n {
            assert(spec_trim_front(s@.skip(i as int)) == s@.skip(i as int));
        } else {
            assert(s@.skip(i as int) =~= Seq::<char>::empty());
        }
    }
    let ghost front = s@.skip(i as int);
    let mut j: usize = n;
    while j > i && is_space(s.get_char(j - 1))
        invariant
            i <= j <= n,
            n == s@.len(),
            front == s@.skip(i as int),
            spec_trim_back(front) == spec_trim_back(s@.subrange(i as int, j as int)),
        decreases j,
    {
        proof {
            assert(s@.subrange(i as int, j as int).drop_last() =~= s@.subrange(
                i as int,
                j - 1,
            ));
            assert(s@.subrange(i as int, j as int).last() == s@[j - 1]);
        }
        j = j - 1;
    }
    proof {
        let sub = s@.subrange(i as int, j as int);
        if j > i {
            assert(sub.last() == s@[j - 1]);
            assert(spec_trim_back(sub) == sub);
        } else {
            assert(sub =~= Seq::<char>::empty());
        }
    }
    let mut r = String::new();
    let mut k: usize = i;
    while k < j
        invariant
            i <= k <= j <= n,
            n == s@.len(),
            r@ == s@.subrange(i as int, k as int),
        decreases j - k,
    {
        push_char(&mut r, s.get_char(k));
        proof {
            assert(s@.subrange(i as int, k as int).push(s@[k as int]) =~= s@.subrange(
                i as int,
                k + 1,
            ));
        }
        k = k + 1;
    }
    r
}

/// True when `n` occurs in `h` starting at offset `k`.
pub open spec fn spec_match_at(h: Seq<char>, n: Seq<char>, k: int) -> bool {
    0 <= k && k + n.len() <= h.len() && h.subrange(k, k + n.len()) == n
}

/// True when `n` occurs somewhere in `h`.
pub open spec fn spec_contains_seq(h: Seq<char>, n: Seq<char>) -> bool {
    exists|k: int| spec_match_at(h, n, k)
}

/// True when `h` begins with `n`.
pub open spec fn spec_starts_with(h: Seq<char>, n: Seq<char>) -> bool {
    spec_match_at(h, n, 0)
}

fn match_at(h: &str, n: &str, k: usize, hn: usize, nn: usize) -> (b: bool)
    requires
        hn == h@.len(),
        nn == n@.len(),
        k + nn <= hn,
    ensures
        b == spec_match_at(h@, n@, k as int),
{
    let mut t: usize = 0;
    while t < nn
        invariant
            0 <= t <= nn,
            hn == h@.len(),
            nn == n@.len(),
            k + nn <= hn,
            forall|u: int| 0 <= u < t ==> h@[k + u] == n@[u],
        decreases nn - t,
    {
        if h.get_char(k + t) != n.get_char(t) {
            proof {
                assert(h@.subrange(k as int, k + nn)[t as int] != n@[t as int]);
            }
            return false;
        }
        t = t + 1;
    }
    proof {
        assert(h@.subrange(k as int, k + nn) =~= n@);
    }
    true
}

/// True when `needle` occurs as a contiguous run of characters in `hay`.
pub fn str_contains(hay: &str, needle: &str) -> (b: bool)
    ensures
        b == spec_contains_seq(hay@, needle@),
{
    let hn: usize = hay.unicode_len();
    let nn: usize = needle.unicode_len();
    if nn > hn {
        proof {
            assert(forall|k: int| !spec_match_at(hay@, needle@, k));
        }
        return false;
    }
    if nn == 0 {
        proof {
            assert(hay@.subrange(0, 0) =~= needle@);
            assert(spec_match_at(hay@, needle@, 0));
        }
        return true;
    }
    let mut k: usize = 0;
    while k <= hn - nn
        invariant
            0 <= k <= hn - nn + 1,
            1 <= nn <= hn,
            hn == hay@.len(),
            nn == needle@.len(),
            forall|u: int| 0 <= u < k ==> !spec_match_at(hay@, needle@, u),
        decreases hn - k,
    {
        if match_at(hay, needle, k, hn, nn) {
            return true;
        }
        k = k + 1;
    }
    proof {
        assert(forall|u: int| spec_match_at(hay@, needle@, u) ==> 0 <= u <= hn - nn);
    }
    false
}

/// True when `hay` begins with `needle`.
pub fn str_starts_with(hay: &str, needle: &str) -> (b: bool)
    ensures
        b == spec_starts_with(hay@, needle@),
{
    let hn: usize = hay.unicode_len();
    let nn: usize = needle.unicode_len();
    if nn > hn {
        return false;
    }
    match_at(hay, needle, 0, hn, nn)
}

/// The decimal digit character for a value below ten.
pub open spec fn spec_digit_char(d: int) -> char {
    if d == 0 {
        '0'
    } else if d == 1 {
        '1'
    } else if d == 2 {
        '2'
    } else if d == 3 {
        '3'
    } else if d == 4 {
        '4'
    } else if d == 5 {
        '5'
    } else if d == 6 {
        '6'
    } else if d == 7 {
        '7'
    } else if d == 8 {
        '8'
    } else {
        '9'
    }
}

/// The usual decimal rendering of `n`, most significant digit first.
pub open spec fn spec_decimal(n: nat) -> Seq<char>
    decreases n,
{
    if n < 10 {
        Seq::<char>::empty().push(spec_digit_char(n as int))
    } else {
        spec_decimal(n / 10).push(spec_digit_char((n % 10) as int))
    }
}

fn digit_char(d: u64) -> (c: char)
    requires
        d < 10,
    ensures
        c == spec_digit_char(d as int),
{
    if d == 0 {
        '0'
    } else if d == 1 {
        '1'
    } else if d == 2 {
        '2'
    } else if d == 3 {
        '3'
    } else if d == 4 {
        '4'
    } else if d == 5 {
        '5'
    } else if d == 6 {
        '6'
    } else if d == 7 {
        '7'
    } else if d == 8 {
        '8'
    } else {
        '9'
    }
}

/// The decimal rendering of `n` as a string.
pub fn u64_to_string(n: u64) -> (s: String)
    ensures
        s@ == spec_decimal(n as nat),
    decreases n,
{
    if n < 10 {
        let mut s = String::new();
        push_char(&mut s, digit_char(n));
        s
    } else {
        let mut s = u64_to_string(n / 10);
        push_char(&mut s, digit_char(n % 10));
        s
    }
}

/// True when the character is a decimal digit.
pub open spec fn spec_is_digit(c: char) -> bool {
    '0' <= c && c <= '9'
}

/// A decimal rendering is never empty and consists of digits alone.
pub proof fn lemma_decimal_digits(n: nat)
    ensures
        spec_decimal(n).len() >= 1,
        spec_all_digits(spec_decimal(n)),
    decreases n,
{
    if n >= 10 {
        lemma_decimal_digits(n / 10);
        assert forall|i: int| 0 <= i < spec_decimal(n).len() implies spec_is_digit(
            #[trigger] spec_decimal(n)[i],
        ) by {
            if i < spec_decimal(n).len() - 1 {
                assert(spec_decimal(n)[i] == spec_decimal(n / 10)[i]);
            }
        }
    }
}

/// Distinct numbers render to distinct decimal strings.
pub proof fn lemma_decimal_injective(m: nat, n: nat)
    requires
        spec_decimal(m) == spec_decimal(n),
    ensures
        m == n,
    decreases m,
{
    lemma_decimal_digits(m);
    lemma_decimal_digits(n);
    if m < 10 && n < 10 {
        assert(spec_decimal(m)[0] == spec_digit_char(m as int));
        assert(spec_decimal(n)[0] == spec_digit_char(n as int));
    } else if m < 10 && n >= 10 {
        lemma_decimal_digits(n / 10);
        assert(spec_decimal(n).len() >= 2);
    } else if m >= 10 && n < 10 {
        lemma_decimal_digits(m / 10);
        assert(spec_decimal(m).len() >= 2);
    } else {
        assert(spec_decimal(m).last() == spec_digit_char((m % 10) as int));
        assert(spec_decimal(n).last() == spec_digit_char((n % 10) as int));
        assert(m % 10 == n % 10);
        assert(spec_decimal(m).drop_last() =~= spec_decimal(m / 10));
        assert(spec_decimal(n).drop_last() =~= spec_decimal(n / 10));
        lemma_decimal_injective(m / 10, n / 10);
    }
}

/// True when every character of `s` is a decimal digit.
pub open spec fn spec_all_digits(s: Seq<char>) -> bool {
    forall|i: int| 0 <= i < s.len() ==> spec_is_digit(#[trigger] s[i])
}

/// The numeric value of a digit character.
pub open spec fn spec_digit_val(c: char) -> int {
    c as int - '0' as int
}

/// The value of a sequence of decimal digits, most significant first.
pub open spec fn spec_digits_val(s: Seq<char>) -> int
    decreases s.len(),
{
    if s.len() == 0 {
        0
    } else {
        spec_digits_val(s.drop_last()) * 10 + spec_digit_val(s.last())
    }
}

proof fn lemma_digits_val_nonneg(s: Seq<char>)
    requires
        spec_all_digits(s),
    ensures
        spec_digits_val(s) >= 0,
    decreases s.len(),
{
    if s.len() > 0 {
        lemma_digits_val_nonneg(s.drop_last());
    }
}

proof fn lemma_digits_val_prefix_bound(s: Seq<char>, i: int)
    requires
        spec_all_digits(s),
        0 <= i < s.len(),
    ensures
        spec_digits_val(s) >= spec_digits_val(s.take(i + 1)),
        spec_digits_val(s.take(i + 1)) == spec_digits_val(s.take(i)) * 10 + spec_digit_val(s[i]),
    decreases s.len() - i,
{
    assert(s.take(i + 1).drop_last() =~= s.take(i));
    assert(s.take(i + 1).last() == s[i]);
    if i + 1 == s.len() {
        assert(s.take(i + 1) =~= s);
    } else {
        lemma_digits_val_prefix_bound(s, i + 1);
        assert(spec_all_digits(s.take(i + 1))) by {
            assert(forall|u: int|
                0 <= u < s.take(i + 1).len() ==> spec_is_digit(#[trigger] s.take(i + 1)[u]));
        }
        lemma_digits_val_nonneg(s.take(i + 1));
        assert(spec_digits_val(s.take(i + 2)) == spec_digits_val(s.take(i + 1)) * 10
            + spec_digit_val(s[i + 1])) by {
            assert(s.take(i + 2).drop_last() =~= s.take(i + 1));
            assert(s.take(i + 2).last() == s[i + 1]);
        }
        assert(spec_digits_val(s.take(i + 1)) * 10 >= spec_digits_val(s.take(i + 1)));
        assert(spec_digit_val(s[i + 1]) >= 0);
    }
}

/// What parsing a string as a `u64` yields: the value of a non-empty digit
/// run (after an optional leading `+`), or nothing on a stray character or
/// a value above `u64::MAX`.
pub open spec fn spec_parse_u64(s: Seq<char>) -> Option<int> {
    let digits = if s.len() > 0 && s[0] == '+' {
        s.skip(1)
    } else {
        s
    };
    if digits.len() > 0 && spec_all_digits(digits) && spec_digits_val(digits) <= u64::MAX {
        Some(spec_digits_val(digits))
    } else {
        None
    }
}

/// Parses a non-empty run of decimal digits (with an optional leading `+`)
/// as a `u64`, exactly as `str::parse::<u64>` does: `None` on an empty
/// string, a stray character, or a value above `u64::MAX`.
pub fn parse_u64(s: &str) -> (r: Option<u64>)
    ensures
        match r {
            Some(v) => spec_parse_u64(s@) == Some(v as int),
            None => spec_parse_u64(s@) is None,
        },
{
    let n: usize = s.unicode_len();
    let mut start: usize = 0;
    if n > 0 && s.get_char(0) == '+' {
        start = 1;
    }
    let ghost digits = if s@.len() > 0 && s@[0] == '+' {
        s@.skip(1)
    } else {
        s@
    };
    proof {
        assert(digits =~= s@.skip(start as int));
    }
    if start == n {
        return None;
    }
    let mut acc: u64 = 0;
    let mut i: usize = start;
    while i < n
        invariant
            start <= i <= n,
            n == s@.len(),
            start <= 1,
            digits == s@.skip(start as int),
            digits == (if s@.len() > 0 && s@[0] == '+' {
                s@.skip(1)
            } else {
                s@
            }),
            spec_all_digits(digits.take(i - start)),
            acc == spec_digits_val(digits.take(i - start)),
        decreases n - i,
    {
        let c = s.get_char(i);
        let cu: u32 = c as u32;
        if cu < 48 || cu > 57 {
            proof {
                assert(digits[i - start] == s@[i as int]);
                assert(!spec_is_digit(c));
            }
            return None;
        }
        let d: u64 = (cu - 48) as u64;
        proof {
            assert(spec_is_digit(s@[i as int]));
            assert(d == spec_digit_val(digits[i - start]));
            assert(d < 10);
        }
        if acc > 0xffff_ffff_ffff_ffffu64 / 10 || (acc == 0xffff_ffff_ffff_ffffu64 / 10 && d > 5) {
            proof {
                let j = i - start;
                assert(spec_digits_val(digits.take(j + 1)) == spec_digits_val(digits.take(j)) * 10
                    + spec_digit_val(digits[j])) by {
                    assert(digits.take(j + 1).drop_last() =~= digits.take(j));
                    assert(digits.take(j + 1).last() == digits[j]);
                }
                assert(spec_digits_val(digits.take(j + 1)) > u64::MAX);
                if !(digits.len() == 0 || !spec_all_digits(digits)) {
                    lemma_digits_val_prefix_bound(digits, j);
                }
            }
            return None;
        }
        acc = acc * 10 + d;
        proof {
            let j = i - start;
            assert(digits.take(j + 1).drop_last() =~= digits.take(j));
            assert(digits.take(j + 1).last() == digits[j]);
            assert(spec_all_digits(digits.take(j + 1))) by {
                assert(forall|u: int|
                    0 <= u < j + 1 ==> spec_is_digit(#[trigger] digits.take(j + 1)[u]));
            }
        }
        i = i + 1;
    }
    proof {
        assert(digits.take(n - start) =~= digits);
    }
    Some(acc)
}

} // verus!
