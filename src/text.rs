//! Small text tests that the command-line decisions need.
use vstd::prelude::*;

verus! {

/// `f` occurs in `s` as a contiguous run of characters.
pub open spec fn has_fragment(s: Seq<char>, f: Seq<char>) -> bool {
    exists|i: int| 0 <= i && i + f.len() <= s.len() && #[trigger] s.subrange(i, i + f.len()) == f
}

/// Whether `f` occurs in `s`.
pub fn contains_fragment(s: &str, f: &str) -> (r: bool)
    ensures
        r == has_fragment(s@, f@),
{
    let n = s.unicode_len();
    let m = f.unicode_len();
    if m > n {
        proof {
            assert forall|i: int| 0 <= i && i + f@.len() <= s@.len() implies #[trigger] s@.subrange(
                i,
                i + f@.len(),
            ) != f@ by {}
        }
        return false;
    }
    let mut i: usize = 0;
    while i <= n - m
        invariant
            n == s@.len(),
            m == f@.len(),
            m <= n,
            forall|k: int| 0 <= k < i ==> #[trigger] s@.subrange(k, k + m) != f@,
        decreases n - m + 1 - i,
    {
        let mut j: usize = 0;
        let mut same = true;
        while j < m && same
            invariant
                n == s@.len(),
                m == f@.len(),
                i + m <= n,
                j <= m,
                same ==> forall|l: int| 0 <= l < j ==> s@[i + l] == f@[l],
                !same ==> j > 0 && s@[i + j - 1] != f@[j - 1],
            decreases m - j,
        {
            same = s.get_char(i + j) == f.get_char(j);
            j = j + 1;
        }
        if same {
            proof {
                assert(s@.subrange(i as int, i + m) =~= f@);
            }
            return true;
        }
        proof {
            assert(s@.subrange(i as int, i + m)[j - 1] != f@[j - 1]);
        }
        i = i + 1;
    }
    proof {
        assert forall|k: int| 0 <= k && k + f@.len() <= s@.len() implies #[trigger] s@.subrange(
            k,
            k + f@.len(),
        ) != f@ by {}
    }
    false
}

/// A decimal digit.
pub open spec fn is_digit(c: char) -> bool {
    '0' <= c <= '9'
}

/// The value of a run of decimal digits, most significant first.
pub open spec fn decimal_value(s: Seq<char>) -> int
    decreases s.len(),
{
    if s.len() == 0 {
        0
    } else {
        10 * decimal_value(s.drop_last()) + (s.last() as int - '0' as int)
    }
}

/// The digits of an unsigned number: the text with one leading `+` taken off.
pub open spec fn unsigned_digits(s: Seq<char>) -> Seq<char> {
    if s.len() > 0 && s[0] == '+' {
        s.drop_first()
    } else {
        s
    }
}

/// The 16-bit unsigned number that `s` spells: an optional `+`, then one or
/// more decimal digits, of value at most 65535.
pub open spec fn parsed_u16(s: Seq<char>) -> Option<u16> {
    let d = unsigned_digits(s);
    if d.len() > 0 && (forall|i: int| 0 <= i < d.len() ==> is_digit(#[trigger] d[i]))
        && decimal_value(d) <= u16::MAX {
        Some(decimal_value(d) as u16)
    } else {
        None
    }
}

/// Reads a 16-bit unsigned decimal number.
pub fn parse_u16(s: &str) -> (r: Option<u16>)
    ensures
        r == parsed_u16(s@),
{
    let n = s.unicode_len();
    let mut i: usize = 0;
    if n > 0 && s.get_char(0) == '+' {
        i = 1;
    }
    let start = i;
    let ghost d = unsigned_digits(s@);
    proof {
        assert(d =~= s@.subrange(start as int, n as int));
    }
    if i == n {
        return None;
    }
    let mut acc: u32 = 0;
    while i < n
        invariant
            start <= i <= n,
            n == s@.len(),
            d == s@.subrange(start as int, n as int),
            d == unsigned_digits(s@),
            forall|k: int| 0 <= k < i - start ==> is_digit(#[trigger] d[k]),
            decimal_value(d.subrange(0, i - start)) >= 0,
            acc as int == if decimal_value(d.subrange(0, i - start)) > 65535 {
                65536
            } else {
                decimal_value(d.subrange(0, i - start))
            },
        decreases n - i,
    {
        let c = s.get_char(i);
        if !('0' <= c && c <= '9') {
            proof {
                assert(d[i - start] == c);
                assert(!is_digit(d[i - start]));
            }
            return None;
        }
        let ghost prev = d.subrange(0, i - start);
        let ghost next = d.subrange(0, i + 1 - start);
        proof {
            assert(next.drop_last() =~= prev);
            assert(next.last() == c);
        }
        let digit: u32 = (c as u32) - ('0' as u32);
        acc = acc * 10 + digit;
        if acc > 65535 {
            acc = 65536;
        }
        proof {
            let v = decimal_value(prev);
            assert(decimal_value(next) == 10 * v + digit);
            if v > 65535 {
                assert(10 * v + digit > 65535);
            }
        }
        i = i + 1;
    }
    proof {
        assert(d.subrange(0, n - start) =~= d);
    }
    if acc > 65535 {
        None
    } else {
        Some(acc as u16)
    }
}

} // verus!
