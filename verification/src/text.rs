//! Character-level groundwork: decimal digits, rendering and reading of
//! numbers, and locating the last occurrence of a separator in a string.
//! Everything here works over `Seq<char>` views of `&str` and `String`.

use vstd::prelude::*;

verus! {

/// A decimal digit, `'0'` through `'9'`.
pub open spec fn is_digit(c: char) -> bool {
    48 <= c as int && c as int <= 57
}

/// Numeric value of a digit character (negative or wrong for non-digits).
pub open spec fn digit_val(c: char) -> int {
    (c as int) - 48
}

/// The digit character for a value in `0..=9`.
pub open spec fn digit_char(d: int) -> char {
    ((48 + d) as u32) as char
}

pub open spec fn all_digits(s: Seq<char>) -> bool {
    forall|i: int| 0 <= i < s.len() ==> is_digit(#[trigger] s[i])
}

/// The number denoted by a digit string, most significant digit first.
pub open spec fn str_val(s: Seq<char>) -> int
    decreases s.len(),
{
    if s.len() == 0 {
        0
    } else {
        str_val(s.drop_last()) * 10 + digit_val(s.last())
    }
}

/// A non-empty, all-digit token.
pub open spec fn is_numeric(s: Seq<char>) -> bool {
    s.len() > 0 && all_digits(s)
}

/// What reading a token as a `u32` yields: the denoted number, provided the
/// token is non-empty, all digits, and the value fits.
pub open spec fn spec_parse_u32(s: Seq<char>) -> Option<u32> {
    if is_numeric(s) && str_val(s) <= u32::MAX {
        Some(str_val(s) as u32)
    } else {
        None
    }
}

/// Canonical decimal rendering of a number, without leading zeros.
pub open spec fn dec_digits(n: nat) -> Seq<char>
    decreases n,
{
    if n < 10 {
        seq![digit_char(n as int)]
    } else {
        dec_digits(n / 10).push(digit_char((n % 10) as int))
    }
}

pub proof fn lemma_str_val_nonneg(s: Seq<char>)
    requires
        all_digits(s),
    ensures
        str_val(s) >= 0,
    decreases s.len(),
{
    if s.len() > 0 {
        lemma_str_val_nonneg(s.drop_last());
    }
}

/// The rendering of `n` is a digit string that reads back as `n`.
pub proof fn lemma_dec_digits(n: nat)
    ensures
        dec_digits(n).len() >= 1,
        all_digits(dec_digits(n)),
        str_val(dec_digits(n)) == n,
    decreases n,
{
    if n < 10 {
        assert(digit_char(n as int) as int == 48 + n);
        assert(str_val(dec_digits(n)) == str_val(seq![digit_char(n as int)]));
        assert(seq![digit_char(n as int)].drop_last() =~= Seq::<char>::empty());
        assert(str_val(Seq::<char>::empty()) == 0);
        assert(str_val(seq![digit_char(n as int)]) == digit_val(digit_char(n as int)));
    } else {
        lemma_dec_digits(n / 10);
        let d = dec_digits(n / 10);
        let c = digit_char((n % 10) as int);
        assert(d.push(c).drop_last() =~= d);
        assert(d.push(c).last() == c);
    }
}

/// Reading a longer prefix of a digit string never yields a smaller number.
pub proof fn lemma_str_val_prefix(s: Seq<char>, i: int)
    requires
        all_digits(s),
        0 <= i <= s.len(),
    ensures
        str_val(s.take(i)) <= str_val(s),
    decreases s.len() - i,
{
    if i < s.len() {
        let t = s.take(i + 1);
        assert(t.drop_last() =~= s.take(i));
        assert(t.last() == s[i]);
        lemma_str_val_nonneg(s.take(i));
        assert(str_val(s.take(i)) <= str_val(s.take(i + 1)));
        lemma_str_val_prefix(s, i + 1);
        assert(s.take(s.len() as int) =~= s);
    } else {
        assert(s.take(i) =~= s);
    }
}

/// Index of the last occurrence of `sep` in `s`, if any.
pub open spec fn find_last(s: Seq<char>, sep: char) -> Option<int>
    decreases s.len(),
{
    if s.len() == 0 {
        None
    } else if s.last() == sep {
        Some(s.len() - 1)
    } else {
        find_last(s.drop_last(), sep)
    }
}

/// `find_last` returns the position of `sep` with nothing but other
/// characters after it, or `None` when `sep` does not occur at all.
pub proof fn lemma_find_last(s: Seq<char>, sep: char)
    ensures
        match find_last(s, sep) {
            Some(i) => 0 <= i < s.len() && s[i] == sep && (forall|j: int|
                i < j < s.len() ==> s[j] != sep),
            None => forall|j: int| 0 <= j < s.len() ==> s[j] != sep,
        },
    decreases s.len(),
{
    if s.len() == 0 {
    } else if s.last() == sep {
    } else {
        lemma_find_last(s.drop_last(), sep);
        assert(forall|j: int| 0 <= j < s.len() - 1 ==> s.drop_last()[j] == s[j]);
    }
}

/// Conversely, a position of `sep` with no later occurrence is what
/// `find_last` returns.
pub proof fn lemma_find_last_at(s: Seq<char>, sep: char, i: int)
    requires
        0 <= i < s.len(),
        s[i] == sep,
        forall|j: int| i < j < s.len() ==> s[j] != sep,
    ensures
        find_last(s, sep) == Some(i),
{
    lemma_find_last(s, sep);
    match find_last(s, sep) {
        Some(k) => {
            if k < i {
                assert(s[i] != sep);
            } else if k > i {
                assert(s[k] != sep);
            }
        }
        None => {
            assert(s[i] != sep);
        }
    }
}

/// Split `s` at the last occurrence of `sep`: the parts before and after it.
pub open spec fn spec_rcut(s: Seq<char>, sep: char) -> Option<(Seq<char>, Seq<char>)> {
    match find_last(s, sep) {
        Some(i) => Some((s.subrange(0, i), s.subrange(i + 1, s.len() as int))),
        None => None,
    }
}

/// Cutting `a · sep · b` at the last `sep` recovers `a` and `b`, provided
/// `b` itself is free of `sep`.
pub proof fn lemma_rcut_concat(a: Seq<char>, sep: char, b: Seq<char>)
    requires
        forall|j: int| 0 <= j < b.len() ==> b[j] != sep,
    ensures
        spec_rcut(a + seq![sep] + b, sep) == Some((a, b)),
{
    let s = a + seq![sep] + b;
    let i = a.len() as int;
    assert(s[i] == sep);
    assert(forall|j: int| i < j < s.len() ==> s[j] == b[j - i - 1]);
    lemma_find_last_at(s, sep, i);
    assert(s.subrange(0, i) =~= a);
    assert(s.subrange(i + 1, s.len() as int) =~= b);
}

/// Position of the last occurrence of `sep` in `s`, if any.
pub fn find_last_sep(s: &str, sep: char) -> (r: Option<usize>)
    ensures
        match r {
            Some(i) => find_last(s@, sep) == Some(i as int),
            None => find_last(s@, sep) is None,
        },
{
    let n = s.unicode_len();
    let mut i: usize = n;
    while i > 0
        invariant
            i <= n,
            n == s@.len(),
            forall|j: int| i <= j < n ==> s@[j] != sep,
        decreases i,
    {
        i = i - 1;
        let c = s.get_char(i);
        if c == sep {
            proof {
                lemma_find_last_at(s@, sep, i as int);
            }
            return Some(i);
        }
    }
    proof {
        lemma_find_last(s@, sep);
    }
    None
}

/// Split `s` at the last occurrence of `sep`, as `spec_rcut` describes.
pub fn rcut<'a>(s: &'a str, sep: char) -> (r: Option<(&'a str, &'a str)>)
    ensures
        match r {
            Some(p) => spec_rcut(s@, sep) == Some((p.0@, p.1@)),
            None => spec_rcut(s@, sep) is None,
        },
{
    let n = s.unicode_len();
    match find_last_sep(s, sep) {
        Some(i) => {
            proof {
                lemma_find_last(s@, sep);
            }
            let x = s.substring_char(0, i);
            let y = s.substring_char(i + 1, n);
            Some((x, y))
        }
        None => None,
    }
}

/// Read a token as a `u32`: the number it denotes, or `None` when the token
/// is empty, holds a non-digit, or denotes a value above `u32::MAX`.
pub fn parse_u32(s: &str) -> (r: Option<u32>)
    ensures
        r == spec_parse_u32(s@),
{
    let n = s.unicode_len();
    if n == 0 {
        return None;
    }
    let mut acc: u64 = 0;
    let mut i: usize = 0;
    while i < n
        invariant
            0 <= i <= n,
            n == s@.len(),
            n > 0,
            all_digits(s@.take(i as int)),
            acc == str_val(s@.take(i as int)),
            acc <= u32::MAX,
        decreases n - i,
    {
        let c = s.get_char(i);
        let cv = c as u32;
        if cv < 48 || cv > 57 {
            proof {
                assert(!is_digit(s@[i as int]));
            }
            return None;
        }
        let d: u64 = (cv - 48) as u64;
        let next: u64 = acc * 10 + d;
        proof {
            let t = s@.take(i as int + 1);
            assert(t.drop_last() =~= s@.take(i as int));
            assert(t.last() == s@[i as int]);
        }
        if next > 0xffff_ffff {
            proof {
                if all_digits(s@) {
                    lemma_str_val_prefix(s@, i as int + 1);
                }
            }
            return None;
        }
        acc = next;
        i = i + 1;
    }
    proof {
        assert(s@.take(n as int) =~= s@);
    }
    Some(acc as u32)
}

/// The single-character string for a digit value.
pub fn digit_to_str(d: u32) -> (r: &'static str)
    requires
        d < 10,
    ensures
        r@ == seq![digit_char(d as int)],
{
    proof {
        reveal_strlit("0");
        reveal_strlit("1");
        reveal_strlit("2");
        reveal_strlit("3");
        reveal_strlit("4");
        reveal_strlit("5");
        reveal_strlit("6");
        reveal_strlit("7");
        reveal_strlit("8");
        reveal_strlit("9");
    }
    let r = match d {
        0 => "0",
        1 => "1",
        2 => "2",
        3 => "3",
        4 => "4",
        5 => "5",
        6 => "6",
        7 => "7",
        8 => "8",
        _ => "9",
    };
    proof {
        assert(r@ =~= seq![digit_char(d as int)]);
    }
    r
}

/// Render a number in decimal, most significant digit first.
pub fn u32_string(n: u32) -> (r: String)
    ensures
        r@ == dec_digits(n as nat),
    decreases n,
{
    if n < 10 {
        String::from_str(digit_to_str(n))
    } else {
        let mut s = u32_string(n / 10);
        s.append(digit_to_str(n % 10));
        proof {
            assert(dec_digits((n / 10) as nat).push(digit_char((n % 10) as int)) =~= dec_digits(
                (n / 10) as nat,
            ) + seq![digit_char((n % 10) as int)]);
        }
        s
    }
}

} // verus!
