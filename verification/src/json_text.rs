//! Compact JSON text of a [`Json`] value: no white space between tokens,
//! members in stored order, strings escaped as JSON requires (`"` and `\`
//! with a backslash; backspace, form feed, newline, carriage return and tab
//! by their short escapes; other control characters as `\u00XX` with
//! lower-case hex digits).

use vstd::prelude::*;
use crate::json::{Json, JsonView, items_view, lemma_items_view, lemma_members_view, members_view};
use crate::text::string_of;

verus! {

/// Lower-case hex digit of a value below 16.
pub open spec fn hex_digit(v: nat) -> char {
    if v < 10 {
        (('0' as u32) + v) as char
    } else {
        (('a' as u32) + (v - 10)) as char
    }
}

/// The escaped form of one character inside a JSON string.
pub open spec fn escape_char(c: char) -> Seq<char> {
    if c == '"' {
        seq!['\\', '"']
    } else if c == '\\' {
        seq!['\\', '\\']
    } else if c == '\u{8}' {
        seq!['\\', 'b']
    } else if c == '\u{c}' {
        seq!['\\', 'f']
    } else if c == '\n' {
        seq!['\\', 'n']
    } else if c == '\r' {
        seq!['\\', 'r']
    } else if c == '\t' {
        seq!['\\', 't']
    } else if (c as u32) < 0x20 {
        seq!['\\', 'u', '0', '0', hex_digit((c as u32 / 16) as nat), hex_digit((c as u32 % 16) as nat)]
    } else {
        seq![c]
    }
}

/// The escaped characters of a string.
pub open spec fn escape_chars(s: Seq<char>) -> Seq<char>
    decreases s.len(),
{
    if s.len() == 0 {
        Seq::empty()
    } else {
        escape_chars(s.drop_last()) + escape_char(s.last())
    }
}

/// A JSON string literal.
pub open spec fn quoted(s: Seq<char>) -> Seq<char> {
    seq!['"'] + escape_chars(s) + seq!['"']
}

/// The compact JSON text of a value.
pub open spec fn json_text(j: JsonView) -> Seq<char>
    decreases j, 0nat,
{
    match j {
        JsonView::Null => "null"@,
        JsonView::Bool(b) => if b {
            "true"@
        } else {
            "false"@
        },
        JsonView::Number(n) => n,
        JsonView::Str(s) => quoted(s),
        JsonView::Array(items) => seq!['['] + items_text(items) + seq![']'],
        JsonView::Object(members) => seq!['{'] + members_text(members) + seq!['}'],
    }
}

/// The comma-separated texts of array items.
pub open spec fn items_text(items: Seq<JsonView>) -> Seq<char>
    decreases items, 1nat,
{
    if items.len() == 0 {
        Seq::empty()
    } else if items.len() == 1 {
        json_text(items[0])
    } else {
        items_text(items.drop_last()) + seq![','] + json_text(items.last())
    }
}

/// The comma-separated `"key":value` texts of object members.
pub open spec fn members_text(members: Seq<(Seq<char>, JsonView)>) -> Seq<char>
    decreases members, 1nat,
{
    if members.len() == 0 {
        Seq::empty()
    } else if members.len() == 1 {
        quoted(members[0].0) + seq![':'] + json_text(members[0].1)
    } else {
        members_text(members.drop_last()) + seq![','] + quoted(members.last().0) + seq![':'] + json_text(
            members.last().1,
        )
    }
}

fn push_hex(out: &mut Vec<char>, v: u32)
    requires
        v < 16,
    ensures
        final(out)@ == old(out)@.push(hex_digit(v as nat)),
{
    let c = match v {
        0 => '0',
        1 => '1',
        2 => '2',
        3 => '3',
        4 => '4',
        5 => '5',
        6 => '6',
        7 => '7',
        8 => '8',
        9 => '9',
        10 => 'a',
        11 => 'b',
        12 => 'c',
        13 => 'd',
        14 => 'e',
        _ => 'f',
    };
    out.push(c);
}

/// Appends the escaped characters of `s` to `out`.
fn push_escaped(out: &mut Vec<char>, s: &str)
    ensures
        final(out)@ == old(out)@ + escape_chars(s@),
{
    let n = s.unicode_len();
    let mut i: usize = 0;
    let ghost start = out@;
    while i < n
        invariant
            n == s@.len(),
            i <= n,
            out@ == start + escape_chars(s@.take(i as int)),
        decreases n - i,
    {
        let c = s.get_char(i);
        proof {
            assert(s@.take(i + 1).drop_last() =~= s@.take(i as int));
        }
        let ghost before = out@;
        if c == '"' {
            out.push('\\');
            out.push('"');
        } else if c == '\\' {
            out.push('\\');
            out.push('\\');
        } else if c == '\u{8}' {
            out.push('\\');
            out.push('b');
        } else if c == '\u{c}' {
            out.push('\\');
            out.push('f');
        } else if c == '\n' {
            out.push('\\');
            out.push('n');
        } else if c == '\r' {
            out.push('\\');
            out.push('r');
        } else if c == '\t' {
            out.push('\\');
            out.push('t');
        } else if (c as u32) < 0x20 {
            out.push('\\');
            out.push('u');
            out.push('0');
            out.push('0');
            push_hex(out, (c as u32) / 16);
            push_hex(out, (c as u32) % 16);
        } else {
            out.push(c);
        }
        proof {
            assert(out@ =~= before + escape_char(c));
            assert(escape_chars(s@.take(i + 1)) =~= escape_chars(s@.take(i as int)) + escape_char(c));
        }
        i = i + 1;
    }
    proof {
        assert(s@.take(n as int) =~= s@);
    }
}

/// Appends the characters of `s` to `out`.
pub fn push_str(out: &mut Vec<char>, s: &str)
    ensures
        final(out)@ == old(out)@ + s@,
{
    let n = s.unicode_len();
    let mut i: usize = 0;
    let ghost start = out@;
    while i < n
        invariant
            n == s@.len(),
            i <= n,
            out@ == start + s@.take(i as int),
        decreases n - i,
    {
        out.push(s.get_char(i));
        proof {
            assert(out@ =~= start + s@.take(i + 1));
        }
        i = i + 1;
    }
    proof {
        assert(s@.take(n as int) =~= s@);
    }
}

/// Appends the compact JSON text of `j` to `out`.
pub fn push_json(out: &mut Vec<char>, j: &Json)
    ensures
        final(out)@ == old(out)@ + json_text(j@),
    decreases j,
{
    let ghost start = out@;
    match j {
        Json::Null => {
            push_str(out, "null");
            proof { reveal_strlit("null"); }
        },
        Json::Bool(b) => {
            if *b {
                push_str(out, "true");
            } else {
                push_str(out, "false");
            }
        },
        Json::Number(n) => {
            push_str(out, n.as_str());
        },
        Json::Str(s) => {
            out.push('"');
            push_escaped(out, s.as_str());
            out.push('"');
            proof {
                assert(out@ =~= start + quoted(s@));
            }
        },
        Json::Array(items) => {
            out.push('[');
            let mut i: usize = 0;
            proof {
                lemma_items_view(items@);
            }
            while i < items.len()
                invariant
                    *j == Json::Array(*items),
                    i <= items@.len(),
                    items_view(items@).len() == items@.len(),
                    forall|k: int| 0 <= k < items@.len() ==> #[trigger] items_view(items@)[k] == items@[k]@,
                    out@ == start + seq!['['] + items_text(items_view(items@).take(i as int)),
                decreases items.len() - i,
            {
                let ghost iv = items_view(items@);
                proof {
                    assert(iv.take(i + 1).drop_last() =~= iv.take(i as int));
                    broadcast use vstd::std_specs::vec::axiom_vec_index_decreases;
                    assert(decreases_to!(items => items[i as int]));
                    assert(decreases_to!(*j => j->Array_0));
                }
                if i > 0 {
                    out.push(',');
                }
                push_json(out, &items[i]);
                proof {
                    if i == 0 {
                        assert(iv.take(1) =~= seq![iv[0]]);
                    }
                    assert(out@ =~= start + seq!['['] + items_text(iv.take(i + 1)));
                }
                i = i + 1;
            }
            out.push(']');
            proof {
                assert(items_view(items@).take(items@.len() as int) =~= items_view(items@));
            }
        },
        Json::Object(members) => {
            out.push('{');
            let mut i: usize = 0;
            proof {
                lemma_members_view(members@);
            }
            while i < members.len()
                invariant
                    *j == Json::Object(*members),
                    i <= members@.len(),
                    members_view(members@).len() == members@.len(),
                    forall|k: int|
                        0 <= k < members@.len() ==> #[trigger] members_view(members@)[k] == (
                            members@[k].0@,
                            members@[k].1@,
                        ),
                    out@ == start + seq!['{'] + members_text(members_view(members@).take(i as int)),
                decreases members.len() - i,
            {
                let ghost mv = members_view(members@);
                let member = &members[i];
                proof {
                    assert(mv.take(i + 1).drop_last() =~= mv.take(i as int));
                    broadcast use vstd::std_specs::vec::axiom_vec_index_decreases;
                    assert(decreases_to!(members => members[i as int]));
                    assert(decreases_to!(members[i as int] => members[i as int].1));
                    assert(decreases_to!(*j => j->Object_0));
                }
                if i > 0 {
                    out.push(',');
                }
                out.push('"');
                push_escaped(out, member.0.as_str());
                out.push('"');
                out.push(':');
                push_json(out, &member.1);
                proof {
                    if i == 0 {
                        assert(mv.take(1) =~= seq![mv[0]]);
                    }
                    assert(out@ =~= start + seq!['{'] + members_text(mv.take(i + 1)));
                }
                i = i + 1;
            }
            out.push('}');
            proof {
                assert(members_view(members@).take(members@.len() as int) =~= members_view(members@));
            }
        },
    }
}

/// The compact JSON text of a value.
pub fn json_to_text(j: &Json) -> (s: String)
    ensures
        s@ == json_text(j@),
{
    let mut out: Vec<char> = Vec::new();
    push_json(&mut out, j);
    assert(out@ =~= json_text(j@));
    string_of(out.as_slice())
}

} // verus!
