//! Character-level helpers over `str` and `String`.

use vstd::prelude::*;

verus! {

/// The characters of a string slice.
pub fn chars_of(s: &str) -> (v: Vec<char>)
    ensures
        v@ == s@,
{
    let n = s.unicode_len();
    let mut v: Vec<char> = Vec::new();
    let mut i: usize = 0;
    while i < n
        invariant
            n == s@.len(),
            i <= n,
            v@ == s@.subrange(0, i as int),
        decreases n - i,
    {
        v.push(s.get_char(i));
        i = i + 1;
    }
    v
}

/// Builds a string from its characters (`String::from_iter`).
#[verifier::external_body]
pub(crate) fn string_of(v: &[char]) -> (s: String)
    ensures
        s@ == v@,
{
    String::from_iter(v.iter())
}

/// Whether two string slices hold the same characters.
pub fn str_eq(a: &str, b: &str) -> (r: bool)
    ensures
        r == (a@ == b@),
{
    let n = a.unicode_len();
    if n != b.unicode_len() {
        return false;
    }
    let mut i: usize = 0;
    while i < n
        invariant
            n == a@.len(),
            n == b@.len(),
            i <= n,
            a@.subrange(0, i as int) == b@.subrange(0, i as int),
        decreases n - i,
    {
        if a.get_char(i) != b.get_char(i) {
            return false;
        }
        assert(a@.subrange(0, i + 1) =~= a@.subrange(0, i as int).push(a@[i as int]));
        assert(b@.subrange(0, i + 1) =~= b@.subrange(0, i as int).push(b@[i as int]));
        i = i + 1;
    }
    assert(a@ =~= a@.subrange(0, n as int));
    assert(b@ =~= b@.subrange(0, n as int));
    true
}

/// Whether two strings hold the same characters.
pub fn string_eq(a: &String, b: &String) -> (r: bool)
    ensures
        r == (a@ == b@),
{
    str_eq(a.as_str(), b.as_str())
}

/// Whether two character vectors are equal.
pub fn chars_eq(a: &Vec<char>, b: &Vec<char>) -> (r: bool)
    ensures
        r == (a@ == b@),
{
    if a.len() != b.len() {
        return false;
    }
    let mut i: usize = 0;
    while i < a.len()
        invariant
            a.len() == b.len(),
            i <= a.len(),
            a@.subrange(0, i as int) == b@.subrange(0, i as int),
        decreases a.len() - i,
    {
        if a[i] != b[i] {
            return false;
        }
        assert(a@.subrange(0, i + 1) =~= a@.subrange(0, i as int).push(a@[i as int]));
        assert(b@.subrange(0, i + 1) =~= b@.subrange(0, i as int).push(b@[i as int]));
        i = i + 1;
    }
    assert(a@ =~= a@.subrange(0, a.len() as int));
    assert(b@ =~= b@.subrange(0, b.len() as int));
    true
}

/// A copy of a list of strings.
pub fn copy_strings(v: &Vec<String>) -> (r: Vec<String>)
    ensures
        r@.len() == v@.len(),
        forall|i: int| 0 <= i < v@.len() ==> #[trigger] r@[i]@ == v@[i]@,
{
    let mut r: Vec<String> = Vec::new();
    let mut i: usize = 0;
    while i < v.len()
        invariant
            i <= v.len(),
            r@.len() == i,
            forall|k: int| 0 <= k < i ==> #[trigger] r@[k]@ == v@[k]@,
        decreases v.len() - i,
    {
        r.push(v[i].clone());
        i = i + 1;
    }
    r
}

/// The views of a list of strings.
pub open spec fn strings_view(v: Seq<String>) -> Seq<Seq<char>> {
    v.map_values(|s: String| s@)
}

/// The characters with the Unicode `White_Space` property
/// (`char::is_whitespace`).
pub open spec fn is_space(c: char) -> bool {
    ||| ('\u{9}' <= c && c <= '\u{d}')
    ||| c == ' '
    ||| c == '\u{85}'
    ||| c == '\u{a0}'
    ||| c == '\u{1680}'
    ||| ('\u{2000}' <= c && c <= '\u{200a}')
    ||| c == '\u{2028}'
    ||| c == '\u{2029}'
    ||| c == '\u{202f}'
    ||| c == '\u{205f}'
    ||| c == '\u{3000}'
}

/// Whether a character is white space.
pub fn is_space_char(c: char) -> (r: bool)
    ensures
        r == is_space(c),
{
    ('\u{9}' <= c && c <= '\u{d}') || c == ' ' || c == '\u{85}' || c == '\u{a0}' || c == '\u{1680}'
        || ('\u{2000}' <= c && c <= '\u{200a}') || c == '\u{2028}' || c == '\u{2029}' || c
        == '\u{202f}' || c == '\u{205f}' || c == '\u{3000}'
}

/// Every character of `s` is white space (`s.trim().is_empty()`).
pub open spec fn is_blank(s: Seq<char>) -> bool {
    forall|i: int| 0 <= i < s.len() ==> is_space(#[trigger] s[i])
}

/// Whether a string slice holds only white space.
pub fn blank(s: &str) -> (r: bool)
    ensures
        r == is_blank(s@),
{
    let n = s.unicode_len();
    let mut i: usize = 0;
    while i < n
        invariant
            n == s@.len(),
            i <= n,
            forall|k: int| 0 <= k < i ==> is_space(#[trigger] s@[k]),
        decreases n - i,
    {
        if !is_space_char(s.get_char(i)) {
            return false;
        }
        i = i + 1;
    }
    true
}

/// The distinct texts of a sequence, in the order in which they first
/// occur.
pub open spec fn distinct_texts(ts: Seq<Seq<char>>) -> Seq<Seq<char>>
    decreases ts.len(),
{
    if ts.len() == 0 {
        Seq::empty()
    } else {
        let rest = distinct_texts(ts.drop_last());
        if rest.contains(ts.last()) {
            rest
        } else {
            rest.push(ts.last())
        }
    }
}

/// How many times `t` occurs in `ts`.
pub open spec fn count_of(ts: Seq<Seq<char>>, t: Seq<char>) -> nat
    decreases ts.len(),
{
    if ts.len() == 0 {
        0
    } else {
        count_of(ts.drop_last(), t) + if ts.last() == t {
            1nat
        } else {
            0nat
        }
    }
}

/// A counted text is among the distinct texts.
pub proof fn lemma_counted_is_listed(ts: Seq<Seq<char>>, t: Seq<char>)
    ensures
        count_of(ts, t) > 0 ==> distinct_texts(ts).contains(t),
    decreases ts.len(),
{
    if ts.len() > 0 {
        let prefix = ts.drop_last();
        lemma_counted_is_listed(prefix, t);
        let rest = distinct_texts(prefix);
        if !rest.contains(ts.last()) {
            assert(rest.push(ts.last())[rest.len() as int] == ts.last());
            if rest.contains(t) {
                let j = choose|j: int| 0 <= j < rest.len() && rest[j] == t;
                assert(rest.push(ts.last())[j] == t);
            }
        }
    }
}

/// No text occurs twice among the distinct texts.
pub proof fn lemma_distinct_texts_unique(ts: Seq<Seq<char>>)
    ensures
        forall|a: int, b: int|
            0 <= a < b < distinct_texts(ts).len() ==> #[trigger] distinct_texts(ts)[a] != #[trigger] distinct_texts(
                ts,
            )[b],
    decreases ts.len(),
{
    if ts.len() > 0 {
        lemma_distinct_texts_unique(ts.drop_last());
        let rest = distinct_texts(ts.drop_last());
        if !rest.contains(ts.last()) {
            assert forall|a: int, b: int| 0 <= a < b < rest.len() + 1 implies #[trigger] rest.push(ts.last())[a]
                != #[trigger] rest.push(ts.last())[b] by {
                if b == rest.len() {
                    assert(rest[a] == rest.push(ts.last())[a]);
                }
            }
        }
    }
}

/// Position of the text `t` among `keys`.
pub fn position_of(keys: &Vec<String>, t: &String) -> (r: Option<usize>)
    ensures
        match r {
            Some(j) => j < keys@.len() && keys@[j as int]@ == t@,
            None => !strings_view(keys@).contains(t@),
        },
{
    let mut j: usize = 0;
    while j < keys.len()
        invariant
            j <= keys@.len(),
            forall|k: int| 0 <= k < j ==> keys@[k]@ != t@,
        decreases keys.len() - j,
    {
        if string_eq(&keys[j], t) {
            return Some(j);
        }
        j = j + 1;
    }
    proof {
        if strings_view(keys@).contains(t@) {
            let k = choose|k: int| 0 <= k < strings_view(keys@).len() && strings_view(keys@)[k] == t@;
            assert(keys@[k]@ == t@);
        }
    }
    None
}

/// The distinct texts of `texts`, in the order in which they first occur,
/// each with the number of times it occurs.
pub fn tally_texts(texts: &Vec<String>) -> (r: (Vec<String>, Vec<usize>))
    ensures
        strings_view(r.0@) == distinct_texts(strings_view(texts@)),
        r.1@.len() == r.0@.len(),
        forall|j: int| 0 <= j < r.1@.len() ==> #[trigger] r.1@[j] == count_of(strings_view(texts@), r.0@[j]@),
{
    let ghost all = strings_view(texts@);
    let mut keys: Vec<String> = Vec::new();
    let mut counts: Vec<usize> = Vec::new();
    let mut k: usize = 0;
    while k < texts.len()
        invariant
            k <= texts@.len(),
            all == strings_view(texts@),
            strings_view(keys@) == distinct_texts(all.take(k as int)),
            counts@.len() == keys@.len(),
            forall|j: int|
                0 <= j < counts@.len() ==> #[trigger] counts@[j] == count_of(all.take(k as int), keys@[j]@)
                    && counts@[j] <= k,
        decreases texts@.len() - k,
    {
        let t = &texts[k];
        let ghost before = all.take(k as int);
        let ghost next = all.take(k + 1);
        proof {
            assert(next.drop_last() =~= before);
            assert(next.last() == t@);
        }
        match position_of(&keys, t) {
            Some(j) => {
                let c = counts[j];
                counts.set(j, c + 1);
                proof {
                    lemma_distinct_texts_unique(before);
                    assert(strings_view(keys@)[j as int] == t@);
                    assert(strings_view(keys@).contains(t@));
                    assert forall|i: int| 0 <= i < counts@.len() implies #[trigger] counts@[i] == count_of(
                        next,
                        keys@[i]@,
                    ) && counts@[i] <= k + 1 by {
                        assert(strings_view(keys@)[i] == keys@[i]@);
                        if i != j {
                            if i < j {
                                assert(strings_view(keys@)[i] != strings_view(keys@)[j as int]);
                            } else {
                                assert(strings_view(keys@)[j as int] != strings_view(keys@)[i]);
                            }
                        }
                    }
                }
            },
            None => {
                proof {
                    lemma_counted_is_listed(before, t@);
                }
                let ghost old_keys = keys@;
                keys.push(t.clone());
                counts.push(1);
                proof {
                    assert(strings_view(keys@) =~= strings_view(old_keys).push(t@));
                    assert forall|i: int| 0 <= i < counts@.len() implies #[trigger] counts@[i] == count_of(
                        next,
                        keys@[i]@,
                    ) && counts@[i] <= k + 1 by {
                        if i < old_keys.len() {
                            assert(strings_view(old_keys)[i] == old_keys[i]@);
                            assert(keys@[i] == old_keys[i]);
                            if old_keys[i]@ == t@ {
                                assert(strings_view(old_keys).contains(t@));
                            }
                        }
                    }
                }
            },
        }
        k = k + 1;
    }
    proof {
        assert(all.take(texts@.len() as int) =~= all);
    }
    (keys, counts)
}

} // verus!
