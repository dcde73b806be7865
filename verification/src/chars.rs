//! Character-sequence operations with the meaning of their `str`
//! counterparts: `trim`, `find`, `split`, `replacen(.., 1)`, parsing and
//! printing of `usize`.

use vstd::prelude::*;
use crate::text::{is_space, is_space_char};

verus! {

/// `s` without leading white space (`str::trim_start`).
pub open spec fn trim_start(s: Seq<char>) -> Seq<char>
    decreases s.len(),
{
    if s.len() > 0 && is_space(s[0]) {
        trim_start(s.drop_first())
    } else {
        s
    }
}

/// `s` without trailing white space (`str::trim_end`).
pub open spec fn trim_end(s: Seq<char>) -> Seq<char>
    decreases s.len(),
{
    if s.len() > 0 && is_space(s.last()) {
        trim_end(s.drop_last())
    } else {
        s
    }
}

/// `s` without leading and trailing white space (`str::trim`).
pub open spec fn trim(s: Seq<char>) -> Seq<char> {
    trim_end(trim_start(s))
}

/// Position of the first `c` in `s` at or after `from`, or -1.
pub open spec fn find_from(s: Seq<char>, c: char, from: int) -> int
    decreases s.len() - from,
{
    if from < 0 || from >= s.len() {
        -1
    } else if s[from] == c {
        from
    } else {
        find_from(s, c, from + 1)
    }
}

/// The pieces of `s` between occurrences of `c` (`str::split`): always at
/// least one piece.
pub open spec fn split_on(s: Seq<char>, c: char) -> Seq<Seq<char>>
    decreases s.len(),
{
    let i = find_from(s, c, 0);
    proof {
        lemma_find_range(s, c, 0);
    }
    if i < 0 {
        seq![s]
    } else {
        seq![s.take(i)] + split_on(s.skip(i + 1), c)
    }
}

/// The position found is in range.
pub proof fn lemma_find_range(s: Seq<char>, c: char, from: int)
    ensures
        find_from(s, c, from) == -1 || (from <= find_from(s, c, from) < s.len() && s[find_from(s, c, from)] == c),
    decreases s.len() - from,
{
    if 0 <= from < s.len() && s[from] != c {
        lemma_find_range(s, c, from + 1);
    }
}

/// Whether `needle` occurs in `s` at `i`.
pub open spec fn occurs_at(s: Seq<char>, needle: Seq<char>, i: int) -> bool {
    0 <= i && i + needle.len() <= s.len() && s.subrange(i, i + needle.len()) == needle
}

/// Position of the first occurrence of `needle` in `s` at or after `from`,
/// or -1.
pub open spec fn first_occurrence(s: Seq<char>, needle: Seq<char>, from: int) -> int
    decreases s.len() + 1 - from,
{
    if from < 0 || from + needle.len() > s.len() {
        -1
    } else if occurs_at(s, needle, from) {
        from
    } else {
        first_occurrence(s, needle, from + 1)
    }
}

/// `s` with its first occurrence of `needle` replaced by `with`
/// (`str::replacen(needle, with, 1)` for a non-empty needle).
pub open spec fn replace_first(s: Seq<char>, needle: Seq<char>, with: Seq<char>) -> Seq<char> {
    let i = first_occurrence(s, needle, 0);
    if i < 0 {
        s
    } else {
        s.take(i) + with + s.skip(i + needle.len())
    }
}

/// Value of a decimal digit character.
pub open spec fn digit_value(c: char) -> int {
    (c as u32) as int - ('0' as u32) as int
}

/// Whether a character is an ASCII decimal digit.
pub open spec fn is_digit(c: char) -> bool {
    '0' <= c && c <= '9'
}

/// The number written by a sequence of decimal digits.
pub open spec fn digits_value(s: Seq<char>) -> nat
    decreases s.len(),
{
    if s.len() == 0 {
        0
    } else {
        (digits_value(s.drop_last()) * 10 + digit_value(s.last())) as nat
    }
}

/// The text after an optional leading `+`.
pub open spec fn unsigned_part(s: Seq<char>) -> Seq<char> {
    if s.len() > 0 && s[0] == '+' {
        s.drop_first()
    } else {
        s
    }
}

/// Whether every character of `s` is a decimal digit.
pub open spec fn all_digits(s: Seq<char>) -> bool {
    forall|i: int| 0 <= i < s.len() ==> is_digit(#[trigger] s[i])
}

/// `usize::from_str`: an optional `+`, then at least one decimal digit,
/// denoting a value that fits in `usize`.
pub open spec fn parse_usize(s: Seq<char>) -> Option<usize> {
    let digits = unsigned_part(s);
    if digits.len() == 0 || !all_digits(digits) {
        None
    } else if digits_value(digits) > usize::MAX {
        None
    } else {
        Some(digits_value(digits) as usize)
    }
}

/// The decimal text of a number (`to_string` of an unsigned integer).
pub open spec fn decimal(n: nat) -> Seq<char>
    decreases n,
{
    if n < 10 {
        seq![(('0' as u32) + n) as char]
    } else {
        decimal(n / 10).push((('0' as u32) + (n % 10)) as char)
    }
}

/// Positions `(a, b)` such that `s[a..b]` is `trim(s)`.
pub fn trim_bounds(s: &Vec<char>) -> (r: (usize, usize))
    ensures
        r.0 <= r.1 <= s@.len(),
        s@.subrange(r.0 as int, r.1 as int) == trim(s@),
{
    let mut a: usize = 0;
    assert(s@.skip(0) =~= s@);
    while a < s.len() && is_space_char(s[a])
        invariant
            a <= s@.len(),
            trim_start(s@) == trim_start(s@.skip(a as int)),
        decreases s.len() - a,
    {
        proof {
            assert(s@.skip(a as int).drop_first() =~= s@.skip(a + 1));
        }
        a = a + 1;
    }
    proof {
        assert(trim_start(s@.skip(a as int)) == s@.skip(a as int));
        assert(s@.skip(a as int) =~= s@.subrange(a as int, s@.len() as int));
    }
    let mut b: usize = s.len();
    while b > a && is_space_char(s[b - 1])
        invariant
            a <= b <= s@.len(),
            trim(s@) == trim_end(s@.subrange(a as int, b as int)),
        decreases b,
    {
        proof {
            assert(s@.subrange(a as int, b as int).drop_last() =~= s@.subrange(a as int, b - 1));
        }
        b = b - 1;
    }
    (a, b)
}

/// Position of the first `c` in `s` at or after `from`.
pub fn find_char(s: &Vec<char>, c: char, from: usize) -> (r: Option<usize>)
    ensures
        match r {
            Some(i) => i as int == find_from(s@, c, from as int) && i >= from && i < s@.len(),
            None => find_from(s@, c, from as int) == -1,
        },
{
    let mut i = from;
    while i < s.len()
        invariant
            from <= i,
            find_from(s@, c, from as int) == find_from(s@, c, i as int),
        decreases s.len() - i,
    {
        if s[i] == c {
            return Some(i);
        }
        i = i + 1;
    }
    None
}

/// The pieces of `s` between occurrences of `c`.
pub fn split_chars(s: &Vec<char>, c: char) -> (r: Vec<Vec<char>>)
    ensures
        r@.len() == split_on(s@, c).len(),
        forall|k: int| 0 <= k < r@.len() ==> #[trigger] r@[k]@ == split_on(s@, c)[k],
{
    let mut out: Vec<Vec<char>> = Vec::new();
    let mut start: usize = 0;
    assert(s@.skip(0) =~= s@);
    assert(pieces_view(out@) =~= Seq::<Seq<char>>::empty());
    assert(split_on(s@, c) =~= pieces_view(out@) + split_on(s@.skip(0), c));
    loop
        invariant_except_break
            start <= s@.len(),
            split_on(s@, c) == pieces_view(out@) + split_on(s@.skip(start as int), c),
        ensures
            split_on(s@, c) == pieces_view(out@),
        decreases s@.len() - start,
    {
        let ghost rest = s@.skip(start as int);
        match find_char(s, c, start) {
            Some(i) => {
                proof {
                    lemma_find_shift(s@, c, start as int);
                }
                let piece = slice_chars(s, start, i);
                let ghost before = out@;
                out.push(piece);
                proof {
                    assert(rest.take(i - start) =~= s@.subrange(start as int, i as int));
                    assert(rest.skip(i - start + 1) =~= s@.skip(i + 1));
                    assert(pieces_view(out@) =~= pieces_view(before).push(s@.subrange(start as int, i as int)));
                    assert(pieces_view(out@) + split_on(s@.skip(i + 1), c) =~= pieces_view(before) + (seq![
                        rest.take(i - start),
                    ] + split_on(rest.skip(i - start + 1), c)));
                }
                assert(i < s.len());
                start = i + 1;
            },
            None => {
                proof {
                    lemma_find_shift(s@, c, start as int);
                }
                let piece = slice_chars(s, start, s.len());
                let ghost before = out@;
                out.push(piece);
                proof {
                    assert(rest =~= s@.subrange(start as int, s@.len() as int));
                    assert(pieces_view(out@) =~= pieces_view(before).push(rest));
                    assert(pieces_view(out@) =~= pieces_view(before) + seq![rest]);
                }
                break;
            },
        }
    }
    proof {
        assert forall|k: int| 0 <= k < out@.len() implies #[trigger] out@[k]@ == split_on(s@, c)[k] by {
            assert(pieces_view(out@)[k] == out@[k]@);
        }
    }
    out
}

/// The views of character vectors.
pub open spec fn pieces_view(v: Seq<Vec<char>>) -> Seq<Seq<char>> {
    v.map_values(|x: Vec<char>| x@)
}

/// Searching `s` from `start` finds the position, in `s`, of the first `c`
/// in `s.skip(start)`.
proof fn lemma_find_shift(s: Seq<char>, c: char, start: int)
    requires
        0 <= start <= s.len(),
    ensures
        find_from(s.skip(start), c, 0) == if find_from(s, c, start) < 0 {
            -1
        } else {
            find_from(s, c, start) - start
        },
{
    lemma_find_shift_from(s, c, start, start);
}

proof fn lemma_find_shift_from(s: Seq<char>, c: char, start: int, i: int)
    requires
        0 <= start <= i <= s.len(),
    ensures
        find_from(s.skip(start), c, i - start) == if find_from(s, c, i) < 0 {
            -1
        } else {
            find_from(s, c, i) - start
        },
    decreases s.len() - i,
{
    if i < s.len() {
        lemma_find_shift_from(s, c, start, i + 1);
        assert(s.skip(start)[i - start] == s[i]);
    }
}

/// The characters `s[a..b]`.
pub fn slice_chars(s: &Vec<char>, a: usize, b: usize) -> (r: Vec<char>)
    requires
        a <= b <= s@.len(),
    ensures
        r@ == s@.subrange(a as int, b as int),
{
    let mut out: Vec<char> = Vec::new();
    let mut i = a;
    while i < b
        invariant
            a <= i <= b,
            b <= s@.len(),
            out@ == s@.subrange(a as int, i as int),
        decreases b - i,
    {
        out.push(s[i]);
        proof {
            assert(out@ =~= s@.subrange(a as int, i + 1));
        }
        i = i + 1;
    }
    out
}

/// Whether `needle` occurs in `s` at `i`.
fn occurs_at_exec(s: &Vec<char>, needle: &Vec<char>, i: usize) -> (r: bool)
    requires
        i + needle@.len() <= s@.len(),
    ensures
        r == occurs_at(s@, needle@, i as int),
{
    let mut k: usize = 0;
    while k < needle.len()
        invariant
            i + needle@.len() <= s@.len(),
            k <= needle@.len(),
            forall|q: int| 0 <= q < k ==> s@[i + q] == needle@[q],
        decreases needle.len() - k,
    {
        assert(i + k < s.len());
        if s[i + k] != needle[k] {
            assert(s@.subrange(i as int, i + needle@.len())[k as int] != needle@[k as int]);
            return false;
        }
        k = k + 1;
    }
    assert(s@.subrange(i as int, i + needle@.len()) =~= needle@);
    true
}

/// `s` with its first occurrence of `needle` replaced by `with`.
pub fn replace_first_chars(s: &Vec<char>, needle: &Vec<char>, with: &Vec<char>) -> (r: Vec<char>)
    ensures
        r@ == replace_first(s@, needle@, with@),
{
    let mut i: usize = 0;
    if needle.len() > s.len() {
        return slice_chars(s, 0, s.len());
    }
    let last = s.len() - needle.len();
    loop
        invariant
            needle@.len() <= s@.len(),
            last == s@.len() - needle@.len(),
            i <= last,
            first_occurrence(s@, needle@, 0) == first_occurrence(s@, needle@, i as int),
        decreases last + 1 - i,
    {
        if occurs_at_exec(s, needle, i) {
            let mut out = slice_chars(s, 0, i);
            let mut k: usize = 0;
            while k < with.len()
                invariant
                    k <= with@.len(),
                    out@ == s@.take(i as int) + with@.take(k as int),
                decreases with.len() - k,
            {
                out.push(with[k]);
                proof {
                    assert(out@ =~= s@.take(i as int) + with@.take(k + 1));
                }
                k = k + 1;
            }
            assert(i + needle.len() <= s.len());
            let tail = slice_chars(s, i + needle.len(), s.len());
            let mut m: usize = 0;
            let ghost mid = out@;
            while m < tail.len()
                invariant
                    m <= tail@.len(),
                    out@ == mid + tail@.take(m as int),
                decreases tail.len() - m,
            {
                out.push(tail[m]);
                proof {
                    assert(out@ =~= mid + tail@.take(m + 1));
                }
                m = m + 1;
            }
            proof {
                assert(with@.take(with@.len() as int) =~= with@);
                assert(tail@.take(tail@.len() as int) =~= tail@);
                assert(s@.skip(i + needle@.len()) =~= tail@);
                assert(out@ =~= s@.take(i as int) + with@ + s@.skip(i + needle@.len()));
            }
            return out;
        }
        if i == last {
            proof {
                assert(first_occurrence(s@, needle@, i + 1) == -1);
            }
            return slice_chars(s, 0, s.len());
        }
        i = i + 1;
    }
}

/// A number written with more digits is at least the one written by its
/// leading digits.
proof fn lemma_digits_prefix_bound(s: Seq<char>, k: int)
    requires
        0 <= k <= s.len(),
        forall|q: int| 0 <= q < s.len() ==> is_digit(#[trigger] s[q]),
    ensures
        digits_value(s) >= digits_value(s.take(k)),
    decreases s.len(),
{
    if k < s.len() {
        assert(s.drop_last().take(k) =~= s.take(k));
        assert forall|q: int| 0 <= q < s.drop_last().len() implies is_digit(#[trigger] s.drop_last()[q]) by {
            assert(s.drop_last()[q] == s[q]);
        }
        lemma_digits_prefix_bound(s.drop_last(), k);
        assert(is_digit(s.last()));
    } else {
        assert(s.take(k) =~= s);
    }
}

/// Parses an unsigned decimal number (`usize::from_str`).
pub fn parse_usize_chars(s: &Vec<char>) -> (r: Option<usize>)
    ensures
        r == parse_usize(s@),
{
    let start: usize = if s.len() > 0 && s[0] == '+' {
        1
    } else {
        0
    };
    let ghost digits = unsigned_part(s@);
    proof {
        assert(digits =~= s@.skip(start as int));
    }
    if start >= s.len() {
        assert(digits.len() == 0);
        return None;
    }
    let mut value: usize = 0;
    let mut i = start;
    while i < s.len()
        invariant
            start < s@.len(),
            start <= i <= s@.len(),
            digits == s@.skip(start as int),
            digits == unsigned_part(s@),
            forall|q: int| start <= q < i ==> is_digit(#[trigger] s@[q]),
            value as nat == digits_value(s@.subrange(start as int, i as int)),
        decreases s.len() - i,
    {
        let c = s[i];
        if !('0' <= c && c <= '9') {
            proof {
                assert(digits[i - start] == c);
                assert(!is_digit(digits[i - start]));
            }
            return None;
        }
        let d = (c as u32 - '0' as u32) as usize;
        proof {
            assert(s@.subrange(start as int, i + 1).drop_last() =~= s@.subrange(start as int, i as int));
        }
        if value > (usize::MAX - d) / 10 {
            proof {
                let pre = s@.subrange(start as int, i + 1);
                assert(digits_value(pre) == value * 10 + d);
                assert(value * 10 + d > usize::MAX) by (nonlinear_arith)
                    requires
                        value > (usize::MAX - d) / 10,
                        d <= 9,
                ;
                assert(pre =~= digits.take(i + 1 - start));
                if all_digits(digits) {
                    lemma_digits_prefix_bound(digits, i + 1 - start);
                }
            }
            return None;
        }
        value = value * 10 + d;
        i = i + 1;
    }
    proof {
        assert(s@.subrange(start as int, s@.len() as int) =~= digits);
    }
    Some(value)
}

/// Appends the decimal text of `n` to `out`.
pub fn push_decimal(n: u64, out: &mut Vec<char>)
    ensures
        final(out)@ == old(out)@ + decimal(n as nat),
    decreases n,
{
    if n < 10 {
        let c = char_of_digit(n);
        out.push(c);
        assert(old(out)@ + decimal(n as nat) =~= old(out)@.push(c));
    } else {
        push_decimal(n / 10, out);
        let c = char_of_digit(n % 10);
        let ghost mid = out@;
        out.push(c);
        assert(decimal(n as nat) == decimal((n / 10) as nat).push(c));
        assert(out@ =~= old(out)@ + decimal(n as nat));
    }
}

/// The digit character for a value below ten.
fn char_of_digit(d: u64) -> (c: char)
    requires
        d < 10,
    ensures
        c == (('0' as u32) + d) as char,
{
    match d {
        0 => '0',
        1 => '1',
        2 => '2',
        3 => '3',
        4 => '4',
        5 => '5',
        6 => '6',
        7 => '7',
        8 => '8',
        _ => '9',
    }
}

/// The decimal text of `n` (`n.to_string()`).
pub fn u64_text(n: u64) -> (r: Vec<char>)
    ensures
        r@ == decimal(n as nat),
{
    let mut out: Vec<char> = Vec::new();
    push_decimal(n, &mut out);
    assert(out@ =~= decimal(n as nat));
    out
}

/// Whether `needle` occurs somewhere in `s`.
pub open spec fn contains_text(s: Seq<char>, needle: Seq<char>) -> bool {
    first_occurrence(s, needle, 0) >= 0
}

/// A position of an occurrence found by [`first_occurrence`] holds it.
pub proof fn lemma_first_occurrence(s: Seq<char>, needle: Seq<char>, from: int)
    ensures
        first_occurrence(s, needle, from) == -1 || (from <= first_occurrence(s, needle, from) && occurs_at(
            s,
            needle,
            first_occurrence(s, needle, from),
        )),
    decreases s.len() + 1 - from,
{
    if 0 <= from && from + needle.len() <= s.len() && !occurs_at(s, needle, from) {
        lemma_first_occurrence(s, needle, from + 1);
    }
}

/// Whether `needle` occurs in `text` (`str::contains`).
pub fn text_contains(text: &str, needle: &str) -> (r: bool)
    ensures
        r == contains_text(text@, needle@),
{
    let s = crate::text::chars_of(text);
    let n = crate::text::chars_of(needle);
    if n.len() > s.len() {
        return false;
    }
    let last = s.len() - n.len();
    let mut i: usize = 0;
    loop
        invariant
            s@ == text@,
            n@ == needle@,
            n@.len() <= s@.len(),
            last == s@.len() - n@.len(),
            i <= last,
            first_occurrence(s@, n@, 0) == first_occurrence(s@, n@, i as int),
        decreases last - i,
    {
        if occurs_at_exec(&s, &n, i) {
            return true;
        }
        if i == last {
            proof {
                assert(first_occurrence(s@, n@, i + 1) == -1);
            }
            return false;
        }
        i = i + 1;
    }
}

} // verus!
