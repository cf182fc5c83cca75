//! Verified text helpers: equality, prefix, suffix and substring tests over
//! `&str`, decimal rendering of integers, and dash trimming. Everything is
//! specified over the character views of the strings involved.

use vstd::prelude::*;
use vstd::string::StrSliceExecFns;
use vstd::string::StringExecFns;

verus! {

/// `p` is a prefix of `s`.
pub open spec fn starts_with_spec(s: Seq<char>, p: Seq<char>) -> bool {
    s.len() >= p.len() && s.subrange(0, p.len() as int) == p
}

/// `p` is a suffix of `s`.
pub open spec fn ends_with_spec(s: Seq<char>, p: Seq<char>) -> bool {
    s.len() >= p.len() && s.subrange(s.len() - p.len(), s.len() as int) == p
}

/// `n` occurs somewhere in `s`.
pub open spec fn contains_spec(s: Seq<char>, n: Seq<char>) -> bool {
    exists|i: int|
        0 <= i && i + n.len() <= s.len() && #[trigger] s.subrange(i, i + n.len()) == n
}

/// `s` with every leading dash removed.
pub open spec fn trim_dashes_spec(s: Seq<char>) -> Seq<char>
    decreases s.len(),
{
    if s.len() > 0 && s[0] == '-' {
        trim_dashes_spec(s.subrange(1, s.len() as int))
    } else {
        s
    }
}

/// Whether `n` occurs in `s` starting at position `i`.
fn matches_at(s: &str, n: &str, i: usize, s_len: usize, n_len: usize) -> (r: bool)
    requires
        s_len == s@.len(),
        n_len == n@.len(),
        i + n_len <= s_len,
    ensures
        r == (s@.subrange(i as int, i + n@.len()) == n@),
{
    let mut j: usize = 0;
    while j < n_len
        invariant
            j <= n_len,
            s_len == s@.len(),
            n_len == n@.len(),
            i + n_len <= s_len,
            forall|k: int| 0 <= k < j ==> s@[i + k] == n@[k],
        decreases n_len - j,
    {
        if s.get_char(i + j) != n.get_char(j) {
            proof {
                assert(s@.subrange(i as int, i + n@.len())[j as int] != n@[j as int]);
            }
            return false;
        }
        j = j + 1;
    }
    proof {
        assert(s@.subrange(i as int, i + n@.len()) =~= n@);
    }
    true
}

/// Decides character-for-character string equality.
pub fn str_eq(a: &str, b: &str) -> (r: bool)
    ensures
        r == (a@ == b@),
{
    let a_len = a.unicode_len();
    let b_len = b.unicode_len();
    if a_len != b_len {
        proof {
            assert(a@ != b@);
        }
        return false;
    }
    let r = matches_at(a, b, 0, a_len, b_len);
    proof {
        assert(a@.subrange(0, a@.len() as int) =~= a@);
    }
    r
}

/// Decides [`starts_with_spec`].
pub fn str_starts_with(s: &str, p: &str) -> (r: bool)
    ensures
        r == starts_with_spec(s@, p@),
{
    let s_len = s.unicode_len();
    let p_len = p.unicode_len();
    if s_len < p_len {
        return false;
    }
    matches_at(s, p, 0, s_len, p_len)
}

/// Decides [`ends_with_spec`].
pub fn str_ends_with(s: &str, p: &str) -> (r: bool)
    ensures
        r == ends_with_spec(s@, p@),
{
    let s_len = s.unicode_len();
    let p_len = p.unicode_len();
    if s_len < p_len {
        return false;
    }
    matches_at(s, p, s_len - p_len, s_len, p_len)
}

/// Decides [`contains_spec`].
pub fn str_contains(s: &str, n: &str) -> (r: bool)
    ensures
        r == contains_spec(s@, n@),
{
    let s_len = s.unicode_len();
    let n_len = n.unicode_len();
    if n_len > s_len {
        return false;
    }
    if n_len == 0 {
        proof {
            assert(s@.subrange(0, 0 + n@.len() as int) =~= n@);
        }
        return true;
    }
    let mut i: usize = 0;
    while i <= s_len - n_len
        invariant
            s_len == s@.len(),
            n_len == n@.len(),
            1 <= n_len <= s_len,
            i <= s_len - n_len + 1,
            forall|k: int| 0 <= k < i ==> #[trigger] s@.subrange(k, k + n@.len()) != n@,
        decreases s_len - n_len + 1 - i,
    {
        if matches_at(s, n, i, s_len, n_len) {
            return true;
        }
        i = i + 1;
    }
    proof {
        if contains_spec(s@, n@) {
            let w = choose|k: int|
                0 <= k && k + n@.len() <= s@.len() && #[trigger] s@.subrange(k, k + n@.len())
                    == n@;
            assert(s@.subrange(w, w + n@.len()) != n@);
        }
    }
    false
}

/// A single decimal digit as a character.
pub open spec fn digit_char(d: nat) -> char {
    if d == 0 {
        '0'
    } else if d == 1 {
        '1'
    } else if d == 2 {
        '2'
    } else if d == 3 {
        '3'
    } else if d == 4 {
        '4'
    } else if d == 5 {
        '5'
    } else if d == 6 {
        '6'
    } else if d == 7 {
        '7'
    } else if d == 8 {
        '8'
    } else {
        '9'
    }
}

/// The decimal rendering of `n`, without leading zeroes.
pub open spec fn dec_str(n: nat) -> Seq<char>
    decreases n,
{
    if n < 10 {
        seq![digit_char(n)]
    } else {
        dec_str(n / 10) + seq![digit_char(n % 10)]
    }
}

/// The decimal rendering of a possibly negative integer.
pub open spec fn int_str(x: int) -> Seq<char> {
    if x < 0 {
        seq!['-'] + dec_str((-x) as nat)
    } else {
        dec_str(x as nat)
    }
}

/// A one-character string slice for a digit.
fn digit_str(d: u64) -> (r: &'static str)
    requires
        d < 10,
    ensures
        r@ == seq![digit_char(d as nat)],
{
    proof {
        reveal_strlit("0");
        reveal_strlit("1");
        reveal_strlit("2");
        reveal_strlit("3");
        reveal_strlit("4");
        reveal_strlit("5");
        reveal_strlit("6");
        reveal_strlit("7");
        reveal_strlit("8");
        reveal_strlit("9");
    }
    match d {
        0 => "0",
        1 => "1",
        2 => "2",
        3 => "3",
        4 => "4",
        5 => "5",
        6 => "6",
        7 => "7",
        8 => "8",
        _ => "9",
    }
}

/// Appends the decimal rendering of `n` to `out`.
fn push_dec(n: u64, out: &mut String)
    ensures
        final(out)@ == old(out)@ + dec_str(n as nat),
    decreases n,
{
    if n >= 10 {
        push_dec(n / 10, out);
    }
    out.append(digit_str(n % 10));
    proof {
        if n >= 10 {
            assert(final(out)@ =~= old(out)@ + dec_str(n as nat));
        } else {
            assert(final(out)@ =~= old(out)@ + dec_str(n as nat));
        }
    }
}

/// Renders `n` in decimal.
pub fn u64_to_string(n: u64) -> (r: String)
    ensures
        r@ == dec_str(n as nat),
{
    let mut out = String::new();
    push_dec(n, &mut out);
    proof {
        assert(out@ =~= dec_str(n as nat));
    }
    out
}

/// Renders `x` in decimal, with a sign for negative values.
pub fn i64_to_string(x: i64) -> (r: String)
    requires
        x > i64::MIN,
    ensures
        r@ == int_str(x as int),
{
    if x < 0 {
        let mut out = String::from_str("-");
        proof {
            reveal_strlit("-");
            assert(out@ =~= seq!['-']);
        }
        push_dec((-x) as u64, &mut out);
        out
    } else {
        u64_to_string(x as u64)
    }
}

/// A decimal digit character.
pub open spec fn is_digit(c: char) -> bool {
    '0' <= c <= '9'
}

/// The numeric value of a digit character.
pub open spec fn digit_val(c: char) -> nat {
    if c == '0' {
        0
    } else if c == '1' {
        1
    } else if c == '2' {
        2
    } else if c == '3' {
        3
    } else if c == '4' {
        4
    } else if c == '5' {
        5
    } else if c == '6' {
        6
    } else if c == '7' {
        7
    } else if c == '8' {
        8
    } else {
        9
    }
}

/// Every character of `s` is a decimal digit.
pub open spec fn all_digits(s: Seq<char>) -> bool {
    forall|i: int| 0 <= i < s.len() ==> is_digit(#[trigger] s[i])
}

/// The value of a digit string, most significant digit first.
pub open spec fn digits_val(s: Seq<char>) -> nat
    decreases s.len(),
{
    if s.len() == 0 {
        0
    } else {
        digits_val(s.drop_last()) * 10 + digit_val(s.last())
    }
}

/// What `str::parse::<u32>` yields on `s`: the value of a non-empty digit
/// string when it fits, and nothing otherwise.
pub open spec fn parse_u32_spec(s: Seq<char>) -> Option<u32> {
    if s.len() >= 1 && all_digits(s) && digits_val(s) <= u32::MAX {
        Some(digits_val(s) as u32)
    } else {
        None
    }
}

/// The value of a digit string never falls below the value of any prefix.
proof fn lemma_digits_val_prefix_mono(s: Seq<char>, i: int)
    requires
        0 <= i <= s.len(),
    ensures
        digits_val(s.take(i)) <= digits_val(s),
    decreases s.len() - i,
{
    if i < s.len() {
        lemma_digits_val_prefix_mono(s, i + 1);
        assert(s.take(i + 1).drop_last() =~= s.take(i));
        assert(s.take(i + 1).last() == s[i]);
        assert(digits_val(s.take(i)) <= digits_val(s.take(i)) * 10 + digit_val(s[i]))
            by (nonlinear_arith);
    } else {
        assert(s.take(i) =~= s);
    }
}

/// Parses a non-empty all-digit string into a `u32`.
pub fn parse_u32(s: &str) -> (r: Option<u32>)
    ensures
        r == parse_u32_spec(s@),
{
    let len = s.unicode_len();
    if len == 0 {
        return None;
    }
    let mut acc: u64 = 0;
    let mut i: usize = 0;
    while i < len
        invariant
            i <= len,
            len == s@.len(),
            1 <= len,
            all_digits(s@.take(i as int)),
            acc == digits_val(s@.take(i as int)),
            acc <= u32::MAX,
        decreases len - i,
    {
        let c = s.get_char(i);
        let d: u64 = match c {
            '0' => 0,
            '1' => 1,
            '2' => 2,
            '3' => 3,
            '4' => 4,
            '5' => 5,
            '6' => 6,
            '7' => 7,
            '8' => 8,
            '9' => 9,
            _ => {
                proof {
                    assert(!is_digit(s@[i as int]));
                }
                return None;
            },
        };
        proof {
            assert(s@.take(i + 1).drop_last() =~= s@.take(i as int));
            assert(s@.take(i + 1).last() == s@[i as int]);
            assert(digit_val(s@[i as int]) == d);
            assert(is_digit(s@[i as int]));
        }
        acc = acc * 10 + d;
        i = i + 1;
        if acc > 0xffff_ffff {
            proof {
                lemma_digits_val_prefix_mono(s@, i as int);
            }
            return None;
        }
    }
    proof {
        assert(s@.take(len as int) =~= s@);
    }
    Some(acc as u32)
}

/// The position of the first occurrence of `c` in `s`, or a negative value
/// when absent.
pub open spec fn first_index_of(s: Seq<char>, c: char) -> int
    decreases s.len(),
{
    if s.len() == 0 {
        -1
    } else if s[0] == c {
        0
    } else {
        let r = first_index_of(s.subrange(1, s.len() as int), c);
        if r < 0 {
            -1
        } else {
            r + 1
        }
    }
}

/// Finds the first occurrence of `c` in `s`.
pub fn find_char(s: &str, c: char) -> (r: Option<usize>)
    ensures
        match r {
            Some(i) => i < s@.len() && first_index_of(s@, c) == i as int,
            None => first_index_of(s@, c) < 0,
        },
{
    let len = s.unicode_len();
    let mut i: usize = 0;
    proof {
        assert(s@.subrange(0, len as int) =~= s@);
    }
    while i < len
        invariant
            i <= len,
            len == s@.len(),
            first_index_of(s@, c) == if first_index_of(
                s@.subrange(i as int, len as int),
                c,
            ) < 0 {
                -1int
            } else {
                first_index_of(s@.subrange(i as int, len as int), c) + i
            },
        decreases len - i,
    {
        let rest = Ghost(s@.subrange(i as int, len as int));
        if s.get_char(i) == c {
            proof {
                assert(rest@[0] == c);
            }
            return Some(i);
        }
        proof {
            assert(rest@[0] != c);
            assert(rest@.subrange(1, rest@.len() as int) =~= s@.subrange(
                i + 1,
                len as int,
            ));
        }
        i = i + 1;
    }
    proof {
        assert(s@.subrange(len as int, len as int).len() == 0);
    }
    None
}

/// Removes every leading dash from `arg`.
pub fn trim_dashes(arg: &str) -> (r: String)
    ensures
        r@ == trim_dashes_spec(arg@),
{
    let len = arg.unicode_len();
    let mut start: usize = 0;
    proof {
        assert(arg@.subrange(0, len as int) =~= arg@);
    }
    while start < len && arg.get_char(start) == '-'
        invariant
            start <= len,
            len == arg@.len(),
            trim_dashes_spec(arg@) == trim_dashes_spec(arg@.subrange(start as int, len as int)),
        decreases len - start,
    {
        proof {
            let rest = arg@.subrange(start as int, len as int);
            assert(rest[0] == '-');
            assert(rest.subrange(1, rest.len() as int) =~= arg@.subrange(
                start + 1,
                len as int,
            ));
        }
        start = start + 1;
    }
    let r = arg.substring_char(start, len);
    proof {
        let rest = arg@.subrange(start as int, len as int);
        if start < len {
            assert(rest[0] != '-');
        }
        assert(trim_dashes_spec(rest) == rest);
    }
    r.to_owned()
}

} // verus!
