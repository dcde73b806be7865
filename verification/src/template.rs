//! `{{...}}` template references: finding them in text, splitting their
//! dotted paths, and walking a path through a JSON value.

use vstd::prelude::*;
use crate::chars::{
    find_char, find_from, lemma_find_range, parse_usize, parse_usize_chars, slice_chars, split_chars,
    split_on, trim, trim_bounds,
};
use crate::entries::{find_key, get_entry};
use crate::json::{Json, JsonView, items_view, lemma_items_view, members_view};
use crate::text::{chars_of, chars_eq, string_of, strings_view};

verus! {

/// Position of the first `}}` at or after `from`, or -1.
pub open spec fn closing_from(c: Seq<char>, from: int) -> int
    decreases c.len() - from,
{
    if from < 0 || from + 1 >= c.len() {
        -1
    } else if c[from] == '}' && c[from + 1] == '}' {
        from
    } else {
        closing_from(c, from + 1)
    }
}

/// The position found is in range and holds `}}`.
pub proof fn lemma_closing_range(c: Seq<char>, from: int)
    ensures
        closing_from(c, from) == -1 || (from <= closing_from(c, from) && closing_from(c, from) + 1
            < c.len() && c[closing_from(c, from)] == '}' && c[closing_from(c, from) + 1] == '}'),
    decreases c.len() - from,
{
    if 0 <= from && from + 1 < c.len() && !(c[from] == '}' && c[from + 1] == '}') {
        lemma_closing_range(c, from + 1);
    }
}

/// The trimmed bodies of the `{{...}}` references in `c` found by scanning
/// from `i`.
pub open spec fn templates_from(c: Seq<char>, i: int) -> Seq<Seq<char>>
    decreases c.len() - i,
{
    if i < 0 || i + 1 >= c.len() {
        Seq::empty()
    } else if c[i] == '{' && c[i + 1] == '{' && closing_from(c, i + 2) >= 0 {
        let close = closing_from(c, i + 2);
        proof {
            lemma_closing_range(c, i + 2);
        }
        seq![trim(c.subrange(i + 2, close))] + templates_from(c, close + 2)
    } else {
        templates_from(c, i + 1)
    }
}

/// The trimmed bodies of the `{{...}}` references in a text, in order.
pub open spec fn templates_of(text: Seq<char>) -> Seq<Seq<char>> {
    templates_from(text, 0)
}

/// The bodies of the `{{...}}` references in `c` found by scanning from
/// `i`, as written between the braces.
pub open spec fn raw_templates_from(c: Seq<char>, i: int) -> Seq<Seq<char>>
    decreases c.len() - i,
{
    if i < 0 || i + 1 >= c.len() {
        Seq::empty()
    } else if c[i] == '{' && c[i + 1] == '{' && closing_from(c, i + 2) >= 0 {
        let close = closing_from(c, i + 2);
        proof {
            lemma_closing_range(c, i + 2);
        }
        seq![c.subrange(i + 2, close)] + raw_templates_from(c, close + 2)
    } else {
        raw_templates_from(c, i + 1)
    }
}

/// The bodies of the `{{...}}` references in a text, as written, in order.
pub open spec fn raw_templates_of(text: Seq<char>) -> Seq<Seq<char>> {
    raw_templates_from(text, 0)
}

/// A text has as many references written as trimmed.
pub proof fn lemma_raw_templates_len(c: Seq<char>, i: int)
    ensures
        raw_templates_from(c, i).len() == templates_from(c, i).len(),
    decreases c.len() - i,
{
    if i < 0 || i + 1 >= c.len() {
    } else if c[i] == '{' && c[i + 1] == '{' && closing_from(c, i + 2) >= 0 {
        lemma_closing_range(c, i + 2);
        lemma_raw_templates_len(c, closing_from(c, i + 2) + 2);
    } else {
        lemma_raw_templates_len(c, i + 1);
    }
}

/// `{{` + body + `}}`.
pub open spec fn braced(body: Seq<char>) -> Seq<char> {
    seq!['{', '{'] + body + seq!['}', '}']
}

/// Whether a text is exactly one reference, with nothing around it but
/// white space.
pub open spec fn whole_template(text: Seq<char>) -> bool {
    let rs = raw_templates_of(text);
    rs.len() == 1 && trim(text) == braced(rs[0])
}

/// The lookups of one dot-separated part: a field name, then `[..]`
/// index segments.
pub open spec fn part_segments(rest: Seq<char>) -> Seq<Seq<char>>
    decreases rest.len(),
{
    let idx = find_from(rest, '[', 0);
    proof {
        lemma_find_range(rest, '[', 0);
    }
    if idx < 0 {
        if rest.len() > 0 {
            seq![rest]
        } else {
            Seq::empty()
        }
    } else {
        let head = if idx > 0 {
            seq![rest.take(idx)]
        } else {
            Seq::<Seq<char>>::empty()
        };
        let close = find_from(rest.skip(idx), ']', 0);
        proof {
            lemma_find_range(rest.skip(idx), ']', 0);
        }
        if close < 0 {
            head + seq![rest.skip(idx)]
        } else {
            head + seq![seq!['['] + rest.subrange(idx + 1, idx + close) + seq![']']] + part_segments(
                rest.skip(idx + close + 1),
            )
        }
    }
}

/// The lookups of the parts, in order.
pub open spec fn parts_segments(parts: Seq<Seq<char>>) -> Seq<Seq<char>>
    decreases parts.len(),
{
    if parts.len() == 0 {
        Seq::empty()
    } else {
        parts_segments(parts.drop_last()) + part_segments(parts.last())
    }
}

/// The lookups of a dotted path such as `steps.search.results[0].path`.
pub open spec fn path_segments(expr: Seq<char>) -> Seq<Seq<char>> {
    parts_segments(split_on(expr, '.'))
}

/// Whether a segment is an index such as `[0]`.
pub open spec fn is_index_segment(seg: Seq<char>) -> bool {
    seg.len() > 0 && seg[0] == '[' && seg.last() == ']'
}

/// The member `key` of an object.
pub open spec fn json_field(v: JsonView, key: Seq<char>) -> Option<JsonView> {
    match v {
        JsonView::Object(members) => find_key(members, key),
        _ => None,
    }
}

/// The element `i` of an array.
pub open spec fn json_item(v: JsonView, i: int) -> Option<JsonView> {
    match v {
        JsonView::Array(items) => if 0 <= i < items.len() {
            Some(items[i])
        } else {
            None
        },
        _ => None,
    }
}

/// One lookup step: `None` when the value has no such member or element.
pub open spec fn step_into(v: JsonView, seg: Seq<char>) -> Option<JsonView> {
    if is_index_segment(seg) {
        match parse_usize(seg.subrange(1, seg.len() - 1)) {
            Some(i) => json_item(v, i as int),
            None => None,
        }
    } else {
        json_field(v, seg)
    }
}

/// Walks the segments from `v`: the value reached, or the first segment
/// that could not be followed.
pub open spec fn walk(v: JsonView, segs: Seq<Seq<char>>) -> Result<JsonView, Seq<char>>
    decreases segs.len(),
{
    if segs.len() == 0 {
        Ok(v)
    } else {
        match step_into(v, segs[0]) {
            Some(next) => walk(next, segs.drop_first()),
            None => Err(segs[0]),
        }
    }
}

/// Position just past the first `}}` at or after `from`, with the text
/// between: `chars[from..i]` and `i + 2`.
pub fn find_closing(chars: &[char], from: usize) -> (r: Option<(String, usize)>)
    ensures
        match r {
            None => closing_from(chars@, from as int) == -1,
            Some((body, next)) => {
                let i = closing_from(chars@, from as int);
                &&& i >= from
                &&& next == i + 2
                &&& body@ == chars@.subrange(from as int, i)
            },
        },
{
    let mut i = from;
    while i < chars.len() && chars.len() - i > 1
        invariant
            from <= i,
            closing_from(chars@, from as int) == closing_from(chars@, i as int),
        decreases chars.len() - i,
    {
        if chars[i] == '}' && chars[i + 1] == '}' {
            let mut body: Vec<char> = Vec::new();
            let mut k = from;
            while k < i
                invariant
                    from <= k <= i,
                    i < chars@.len(),
                    body@ == chars@.subrange(from as int, k as int),
                decreases i - k,
            {
                body.push(chars[k]);
                proof {
                    assert(body@ =~= chars@.subrange(from as int, k + 1));
                }
                k = k + 1;
            }
            return Some((string_of(body.as_slice()), i + 2));
        }
        i = i + 1;
    }
    None
}

/// The trimmed bodies of the `{{...}}` references in `input`, in order.
pub fn extract_templates(input: &str) -> (r: Vec<String>)
    ensures
        r@.len() == templates_of(input@).len(),
        forall|k: int| 0 <= k < r@.len() ==> #[trigger] r@[k]@ == templates_of(input@)[k],
{
    let chars = chars_of(input);
    let mut out: Vec<String> = Vec::new();
    let mut i: usize = 0;
    while i < chars.len() && chars.len() - i > 1
        invariant
            chars@ == input@,
            templates_of(input@) == strings_view(out@) + templates_from(chars@, i as int),
        decreases chars.len() - i,
    {
        if chars[i] == '{' && chars[i + 1] == '{' {
            match find_closing(chars.as_slice(), i + 2) {
                Some((body, next)) => {
                    let body_chars = chars_of(body.as_str());
                    let (a, b) = trim_bounds(&body_chars);
                    let trimmed = slice_chars(&body_chars, a, b);
                    let ghost before = out@;
                    out.push(string_of(trimmed.as_slice()));
                    proof {
                        lemma_closing_range(chars@, i + 2);
                        assert(strings_view(out@) =~= strings_view(before).push(trim(body@)));
                    }
                    i = next;
                    continue;
                },
                None => {},
            }
        }
        i = i + 1;
    }
    proof {
        assert forall|k: int| 0 <= k < out@.len() implies #[trigger] out@[k]@ == templates_of(input@)[k] by {
            assert(strings_view(out@)[k] == out@[k]@);
        }
    }
    out
}

/// The bodies of the `{{...}}` references in `input`, as written, in order.
pub fn extract_raw_templates(input: &str) -> (r: Vec<String>)
    ensures
        r@.len() == raw_templates_of(input@).len(),
        forall|k: int| 0 <= k < r@.len() ==> #[trigger] r@[k]@ == raw_templates_of(input@)[k],
{
    let chars = chars_of(input);
    let mut out: Vec<String> = Vec::new();
    let mut i: usize = 0;
    while i < chars.len() && chars.len() - i > 1
        invariant
            chars@ == input@,
            raw_templates_of(input@) == strings_view(out@) + raw_templates_from(chars@, i as int),
        decreases chars.len() - i,
    {
        if chars[i] == '{' && chars[i + 1] == '{' {
            match find_closing(chars.as_slice(), i + 2) {
                Some((body, next)) => {
                    let ghost before = out@;
                    let ghost b = body@;
                    out.push(body);
                    proof {
                        lemma_closing_range(chars@, i + 2);
                        assert(strings_view(out@) =~= strings_view(before).push(b));
                    }
                    i = next;
                    continue;
                },
                None => {},
            }
        }
        i = i + 1;
    }
    proof {
        assert forall|k: int| 0 <= k < out@.len() implies #[trigger] out@[k]@ == raw_templates_of(input@)[k] by {
            assert(strings_view(out@)[k] == out@[k]@);
        }
    }
    out
}

/// Whether `input` is exactly one `{{...}}` reference, with nothing around
/// it but white space.
pub fn is_whole_template(input: &str) -> (r: bool)
    ensures
        r == whole_template(input@),
{
    let templates = extract_raw_templates(input);
    if templates.len() != 1 {
        return false;
    }
    let body = chars_of(templates[0].as_str());
    let chars = chars_of(input);
    let (a, b) = trim_bounds(&chars);
    let trimmed = slice_chars(&chars, a, b);
    let mut whole: Vec<char> = Vec::new();
    whole.push('{');
    whole.push('{');
    append_chars(&mut whole, &body);
    whole.push('}');
    whole.push('}');
    proof {
        assert(whole@ =~= braced(body@));
    }
    chars_eq(&whole, &trimmed)
}

/// Appends the characters of `more` to `out`.
pub fn append_chars(out: &mut Vec<char>, more: &Vec<char>)
    ensures
        final(out)@ == old(out)@ + more@,
{
    let mut k: usize = 0;
    while k < more.len()
        invariant
            k <= more@.len(),
            out@ == old(out)@ + more@.take(k as int),
        decreases more.len() - k,
    {
        out.push(more[k]);
        proof {
            assert(out@ =~= old(out)@ + more@.take(k + 1));
        }
        k = k + 1;
    }
    proof {
        assert(more@.take(more@.len() as int) =~= more@);
    }
}

/// Appends the lookups of one dot-separated part to `out`.
fn push_part_segments(part: Vec<char>, out: &mut Vec<String>)
    ensures
        strings_view(final(out)@) == strings_view(old(out)@) + part_segments(part@),
{
    let mut rest = part;
    loop
        invariant_except_break
            strings_view(old(out)@) + part_segments(part@) == strings_view(out@) + part_segments(rest@),
        ensures
            strings_view(final(out)@) == strings_view(old(out)@) + part_segments(part@),
        decreases rest@.len(),
    {
        let ghost before = out@;
        proof {
            lemma_find_range(rest@, '[', 0);
        }
        match find_char(&rest, '[', 0) {
            None => {
                if rest.len() > 0 {
                    let text = string_of(rest.as_slice());
                    out.push(text);
                    proof {
                        assert(strings_view(out@) =~= strings_view(before) + seq![rest@]);
                    }
                } else {
                    assert(strings_view(out@) =~= strings_view(before) + Seq::<Seq<char>>::empty());
                }
                break;
            },
            Some(idx) => {
                let ghost head = if idx > 0 {
                    seq![rest@.take(idx as int)]
                } else {
                    Seq::<Seq<char>>::empty()
                };
                if idx > 0 {
                    let first = slice_chars(&rest, 0, idx);
                    out.push(string_of(first.as_slice()));
                }
                proof {
                    assert(strings_view(out@) =~= strings_view(before) + head);
                }
                let tail = slice_chars(&rest, idx, rest.len());
                proof {
                    assert(tail@ =~= rest@.skip(idx as int));
                    lemma_find_range(tail@, ']', 0);
                }
                match find_char(&tail, ']', 0) {
                    None => {
                        let ghost mid = out@;
                        out.push(string_of(tail.as_slice()));
                        proof {
                            assert(strings_view(out@) =~= strings_view(mid) + seq![rest@.skip(idx as int)]);
                        }
                        break;
                    },
                    Some(close) => {
                        let mut seg: Vec<char> = Vec::new();
                        seg.push('[');
                        let inner = slice_chars(&rest, idx + 1, idx + close);
                        append_chars(&mut seg, &inner);
                        seg.push(']');
                        let ghost mid = out@;
                        out.push(string_of(seg.as_slice()));
                        let next = slice_chars(&rest, idx + close + 1, rest.len());
                        proof {
                            assert(seg@ =~= seq!['['] + rest@.subrange(idx + 1, idx + close) + seq![']']);
                            assert(next@ =~= rest@.skip(idx + close + 1));
                            assert(strings_view(out@) =~= strings_view(mid) + seq![seg@]);
                        }
                        rest = next;
                    },
                }
            },
        }
    }
}

/// Splits a dotted path into its lookups, expanding index suffixes such as
/// `results[0]` into `results` and `[0]`.
pub fn split_path(expr: &str) -> (r: Vec<String>)
    ensures
        strings_view(r@) == path_segments(expr@),
{
    let chars = chars_of(expr);
    let parts = split_chars(&chars, '.');
    let ghost pieces = split_on(expr@, '.');
    let mut out: Vec<String> = Vec::new();
    let mut k: usize = 0;
    while k < parts.len()
        invariant
            chars@ == expr@,
            pieces == split_on(expr@, '.'),
            parts@.len() == pieces.len(),
            forall|q: int| 0 <= q < parts@.len() ==> #[trigger] parts@[q]@ == pieces[q],
            k <= parts@.len(),
            strings_view(out@) == parts_segments(pieces.take(k as int)),
        decreases parts.len() - k,
    {
        let part = slice_chars(&parts[k], 0, parts[k].len());
        assert(parts@[k as int]@.subrange(0, parts@[k as int]@.len() as int) =~= parts@[k as int]@);
        push_part_segments(part, &mut out);
        proof {
            assert(pieces.take(k + 1).drop_last() =~= pieces.take(k as int));
            assert(pieces.take(k + 1).last() == pieces[k as int]);
            assert(part@ == pieces[k as int]);
        }
        k = k + 1;
    }
    proof {
        assert(pieces.take(pieces.len() as int) =~= pieces);
    }
    out
}

/// One lookup step on a value: a copy of the member or element reached.
pub fn step_into_value(v: &Json, seg: &str) -> (r: Option<Json>)
    ensures
        match r {
            None => step_into(v@, seg@) is None,
            Some(x) => step_into(v@, seg@) == Some(x@),
        },
{
    let chars = chars_of(seg);
    let n = chars.len();
    if n > 0 && chars[0] == '[' && chars[n - 1] == ']' {
        let inner = slice_chars(&chars, 1, n - 1);
        match parse_usize_chars(&inner) {
            None => None,
            Some(i) => match v {
                Json::Array(items) => {
                    proof {
                        lemma_items_view(items@);
                    }
                    if i < items.len() {
                        Some(items[i].copy())
                    } else {
                        None
                    }
                },
                _ => None,
            },
        }
    } else {
        match v {
            Json::Object(members) => match get_entry(members, seg) {
                None => None,
                Some(x) => Some(x.copy()),
            },
            _ => None,
        }
    }
}

} // verus!
