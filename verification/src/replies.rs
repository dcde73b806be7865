//! The replies of the copilot's intent handlers, computed from what the
//! tools returned: workspace lists and details, timeline search results,
//! activity summaries, resume and question answers, and the suggested
//! follow-up actions.

use vstd::prelude::*;
use crate::ids::DAY_NANOS;
use crate::chars::{decimal, push_decimal};
use crate::entries::get_entry;
use crate::ids::{id_text, uuid_text};
use crate::intent::Intent;
use crate::json::{Json, JsonView, items_view, lemma_items_view, lemma_members_view, members_view};
use crate::json_text::push_str;
use crate::models::{DailyBriefing, Source, SourceType, SuggestedAction, WorkspaceStats};
use crate::template::json_field;
use crate::text::{
    count_of, distinct_texts, is_space, is_space_char, lemma_counted_is_listed, lemma_distinct_texts_unique, position_of,
    string_of, strings_view,
};

verus! {

/// The words of `s`: its maximal runs of non-white-space characters, in
/// order (`str::split_whitespace`).
pub open spec fn split_words(s: Seq<char>) -> Seq<Seq<char>>
    decreases s.len(),
{
    if s.len() == 0 {
        Seq::empty()
    } else {
        let words = split_words(s.drop_last());
        let c = s.last();
        if is_space(c) {
            words
        } else if s.len() >= 2 && !is_space(s[s.len() - 2]) {
            words.update(words.len() - 1, words.last().push(c))
        } else {
            words.push(seq![c])
        }
    }
}

/// The number of UTF-8 bytes of a character.
pub open spec fn utf8_width(c: char) -> nat {
    if (c as u32) < 0x80 {
        1
    } else if (c as u32) < 0x800 {
        2
    } else if (c as u32) < 0x10000 {
        3
    } else {
        4
    }
}

/// The number of UTF-8 bytes of a text (`str::len`).
pub open spec fn utf8_len(s: Seq<char>) -> nat
    decreases s.len(),
{
    if s.len() == 0 {
        0
    } else {
        utf8_len(s.drop_last()) + utf8_width(s.last())
    }
}

/// A word kept as a search term: longer than three bytes and not one of
/// the command words.
pub open spec fn is_search_term(w: Seq<char>) -> bool {
    utf8_len(w) > 3 && w != "search"@ && w != "find"@ && w != "show"@ && w != "what"@
}

/// The words kept as search terms, in order.
pub open spec fn search_terms_of(words: Seq<Seq<char>>) -> Seq<Seq<char>>
    decreases words.len(),
{
    if words.len() == 0 {
        Seq::empty()
    } else {
        let rest = search_terms_of(words.drop_last());
        if is_search_term(words.last()) {
            rest.push(words.last())
        } else {
            rest
        }
    }
}

/// Texts joined by single spaces.
pub open spec fn join_spaced(ts: Seq<Seq<char>>) -> Seq<char>
    decreases ts.len(),
{
    if ts.len() == 0 {
        Seq::empty()
    } else if ts.len() == 1 {
        ts[0]
    } else {
        join_spaced(ts.drop_last()) + " "@ + ts.last()
    }
}

/// The search query of a message: its search terms joined by spaces.
pub open spec fn search_query_of(message: Seq<char>) -> Seq<char> {
    join_spaced(search_terms_of(split_words(message)))
}

/// The words of a text.
fn words_of(s: &Vec<char>) -> (r: Vec<Vec<char>>)
    ensures
        r@.map_values(|w: Vec<char>| w@) == split_words(s@),
{
    let mut words: Vec<Vec<char>> = Vec::new();
    let mut current: Vec<char> = Vec::new();
    let mut i: usize = 0;
    while i < s.len()
        invariant
            i <= s@.len(),
            current@.len() > 0 <==> (i > 0 && !is_space(s@[i - 1])),
            split_words(s@.take(i as int)) == words@.map_values(|w: Vec<char>| w@) + if current@.len() > 0 {
                seq![current@]
            } else {
                Seq::<Seq<char>>::empty()
            },
        decreases s@.len() - i,
    {
        let c = s[i];
        let ghost before = words@.map_values(|w: Vec<char>| w@);
        proof {
            assert(s@.take(i + 1).drop_last() =~= s@.take(i as int));
            assert(s@.take(i + 1).last() == c);
            if i > 0 {
                assert(s@.take(i + 1)[i - 1] == s@[i - 1]);
            }
        }
        if is_space_char(c) {
            if current.len() > 0 {
                let done = current;
                words.push(done);
                current = Vec::new();
                proof {
                    assert(words@.map_values(|w: Vec<char>| w@) =~= before.push(done@));
                }
            }
            proof {
                assert(words@.map_values(|w: Vec<char>| w@) + Seq::<Seq<char>>::empty() =~= words@.map_values(
                    |w: Vec<char>| w@,
                ));
            }
        } else {
            let ghost was = current@;
            current.push(c);
            proof {
                if was.len() > 0 {
                    assert((before + seq![was]).update((before + seq![was]).len() - 1, was.push(c)) =~= before
                        + seq![current@]);
                } else {
                    assert(before + Seq::<Seq<char>>::empty() =~= before);
                    assert(current@ =~= seq![c]);
                    assert(before.push(seq![c]) =~= before + seq![current@]);
                }
            }
        }
        i = i + 1;
    }
    proof {
        assert(s@.take(s@.len() as int) =~= s@);
    }
    if current.len() > 0 {
        let ghost before = words@.map_values(|w: Vec<char>| w@);
        let done = current;
        words.push(done);
        proof {
            assert(words@.map_values(|w: Vec<char>| w@) =~= before + seq![done@]);
        }
    } else {
        proof {
            assert(words@.map_values(|w: Vec<char>| w@) + Seq::<Seq<char>>::empty() =~= words@.map_values(
                |w: Vec<char>| w@,
            ));
        }
    }
    words
}

/// Whether a text is longer than three UTF-8 bytes.
fn longer_than_three_bytes(w: &Vec<char>) -> (r: bool)
    ensures
        r == (utf8_len(w@) > 3),
{
    let mut bytes: usize = 0;
    let mut k: usize = 0;
    while k < w.len()
        invariant
            k <= w@.len(),
            bytes == utf8_len(w@.take(k as int)),
            bytes <= 3,
        decreases w@.len() - k,
    {
        proof {
            assert(w@.take(k + 1).drop_last() =~= w@.take(k as int));
        }
        let code = w[k] as u32;
        let width: usize = if code < 0x80 {
            1
        } else if code < 0x800 {
            2
        } else if code < 0x10000 {
            3
        } else {
            4
        };
        if bytes + width > 3 {
            proof {
                lemma_utf8_len_prefix(w@, k + 1);
            }
            return true;
        }
        bytes = bytes + width;
        k = k + 1;
    }
    proof {
        assert(w@.take(w@.len() as int) =~= w@);
    }
    false
}

/// A prefix has no more UTF-8 bytes than the whole.
proof fn lemma_utf8_len_prefix(s: Seq<char>, k: int)
    requires
        0 <= k <= s.len(),
    ensures
        utf8_len(s.take(k)) <= utf8_len(s),
    decreases s.len() - k,
{
    if k < s.len() {
        lemma_utf8_len_prefix(s, k + 1);
        assert(s.take(k + 1).drop_last() =~= s.take(k));
    } else {
        assert(s.take(k) =~= s);
    }
}

/// Whether two character vectors hold the same text as `b`.
fn chars_equal_str(a: &Vec<char>, b: &str) -> (r: bool)
    ensures
        r == (a@ == b@),
{
    let n = b.unicode_len();
    if a.len() != n {
        return false;
    }
    let mut i: usize = 0;
    while i < n
        invariant
            n == b@.len(),
            n == a@.len(),
            i <= n,
            a@.take(i as int) == b@.take(i as int),
        decreases n - i,
    {
        if a[i] != b.get_char(i) {
            return false;
        }
        assert(a@.take(i + 1) =~= a@.take(i as int).push(a@[i as int]));
        assert(b@.take(i + 1) =~= b@.take(i as int).push(b@[i as int]));
        i = i + 1;
    }
    assert(a@ =~= a@.take(n as int));
    assert(b@ =~= b@.take(n as int));
    true
}

/// The search query of a message: the words longer than three bytes that
/// are not the command words `search`, `find`, `show`, `what`, joined by
/// single spaces.
pub fn search_query(message: &str) -> (r: String)
    ensures
        r@ == search_query_of(message@),
{
    let mut chars: Vec<char> = Vec::new();
    let n = message.unicode_len();
    let mut i: usize = 0;
    while i < n
        invariant
            n == message@.len(),
            i <= n,
            chars@ == message@.take(i as int),
        decreases n - i,
    {
        chars.push(message.get_char(i));
        assert(chars@ =~= message@.take(i + 1));
        i = i + 1;
    }
    assert(chars@ =~= message@);
    let words = words_of(&chars);
    let ghost ws = words@.map_values(|w: Vec<char>| w@);
    let mut out: Vec<char> = Vec::new();
    let mut kept: usize = 0;
    let mut k: usize = 0;
    while k < words.len()
        invariant
            ws == words@.map_values(|w: Vec<char>| w@),
            k <= words@.len(),
            kept == search_terms_of(ws.take(k as int)).len(),
            out@ == join_spaced(search_terms_of(ws.take(k as int))),
        decreases words@.len() - k,
    {
        let w = &words[k];
        proof {
            assert(ws.take(k + 1).drop_last() =~= ws.take(k as int));
            assert(ws.take(k + 1).last() == w@);
            assert(search_terms_of(ws.take(k as int)).len() <= k) by {
                lemma_terms_len(ws.take(k as int));
            }
        }
        let keep = longer_than_three_bytes(w) && !chars_equal_str(w, "search") && !chars_equal_str(w, "find")
            && !chars_equal_str(w, "show") && !chars_equal_str(w, "what");
        if keep {
            let ghost prev = search_terms_of(ws.take(k as int));
            if kept > 0 {
                out.push(' ');
                proof {
                    reveal_strlit(" ");
                    assert(out@ =~= join_spaced(prev) + " "@);
                }
            }
            let mut j: usize = 0;
            let ghost start = out@;
            while j < w.len()
                invariant
                    j <= w@.len(),
                    out@ == start + w@.take(j as int),
                decreases w@.len() - j,
            {
                out.push(w[j]);
                assert(out@ =~= start + w@.take(j + 1));
                j = j + 1;
            }
            proof {
                assert(w@.take(w@.len() as int) =~= w@);
                let next = prev.push(w@);
                assert(next.drop_last() =~= prev);
                if kept == 0 {
                    assert(start =~= Seq::<char>::empty());
                    assert(out@ =~= w@);
                } else {
                    assert(out@ =~= join_spaced(prev) + " "@ + w@);
                    assert(next.len() >= 2);
                }
            }
            kept = kept + 1;
        }
        k = k + 1;
    }
    proof {
        assert(ws.take(ws.len() as int) =~= ws);
    }
    string_of(out.as_slice())
}

proof fn lemma_terms_len(ws: Seq<Seq<char>>)
    ensures
        search_terms_of(ws).len() <= ws.len(),
    decreases ws.len(),
{
    if ws.len() > 0 {
        lemma_terms_len(ws.drop_last());
    }
}

/// A handler's reply: the text shown and the source it cites, if any.
pub struct HandlerReply {
    pub content: String,
    pub source: Option<Source>,
}

/// The string member `key` of a JSON value, if it has one.
pub open spec fn text_member(v: JsonView, key: Seq<char>) -> Option<Seq<char>> {
    match json_field(v, key) {
        Some(JsonView::Str(s)) => Some(s),
        _ => None,
    }
}

/// The string member `key` of a JSON value, or `default`.
pub open spec fn text_or(v: JsonView, key: Seq<char>, default: Seq<char>) -> Seq<char> {
    match text_member(v, key) {
        Some(s) => s,
        None => default,
    }
}

/// Whether `s` is the source of the given kind, title, reference and
/// relevance (in thousandths).
pub open spec fn is_source(s: Source, kind: SourceType, title: Seq<char>, reference: Seq<char>, relevance: u32) -> bool {
    &&& s.source_type == kind
    &&& s.title@ == title
    &&& s.reference@ == reference
    &&& s.relevance == relevance
}

/// The smaller of a count and a limit.
pub open spec fn at_most(n: nat, limit: nat) -> nat {
    if n < limit {
        n
    } else {
        limit
    }
}

/// The string member `key` of a value.
fn member_text<'a>(v: &'a Json, key: &str) -> (r: Option<&'a String>)
    ensures
        match r {
            Some(s) => text_member(v@, key@) == Some(s@),
            None => text_member(v@, key@) is None,
        },
{
    match v {
        Json::Object(members) => match get_entry(members, key) {
            Some(Json::Str(s)) => Some(s),
            _ => None,
        },
        _ => None,
    }
}

/// Appends the string member `key` of a value, or `default`, to `out`.
fn push_member_text(out: &mut Vec<char>, v: &Json, key: &str, default: &str)
    ensures
        final(out)@ == old(out)@ + text_or(v@, key@, default@),
{
    match member_text(v, key) {
        Some(s) => push_str(out, s.as_str()),
        None => push_str(out, default),
    }
}

/// The line of the `n`-th listed workspace.
pub open spec fn workspace_line(n: nat, ws: JsonView) -> Seq<char> {
    decimal(n) + ". "@ + text_or(ws, "name"@, "Unknown"@) + " ("@ + text_or(ws, "status"@, "unknown"@) + ")\n"@
}

/// The numbered lines of listed workspaces.
pub open spec fn workspace_lines(items: Seq<JsonView>) -> Seq<char>
    decreases items.len(),
{
    if items.len() == 0 {
        Seq::empty()
    } else {
        workspace_lines(items.drop_last()) + workspace_line(items.len(), items.last())
    }
}

/// The reply to a request for the workspace list: the number of
/// workspaces and the first ten, numbered, with their status.
pub open spec fn workspace_list_text(items: Seq<JsonView>) -> Seq<char> {
    if items.len() == 0 {
        "You don't have any workspaces yet. Start working in a project directory and I'll automatically detect it!"@
    } else {
        "You have "@ + decimal(items.len()) + " workspace(s):\n\n"@ + workspace_lines(items.take(at_most(items.len(), 10) as int))
    }
}

/// Replies to a request for the workspace list, given the workspaces that
/// the `list_workspaces` tool returned. The workspace table is cited.
pub fn list_workspaces_reply(workspaces: &Vec<Json>) -> (r: HandlerReply)
    ensures
        r.content@ == workspace_list_text(items_view(workspaces@)),
        r.source matches Some(s) && is_source(
            s,
            SourceType::WorkspaceFile,
            "Workspace Database"@,
            "workspaces table"@,
            1000,
        ),
{
    proof {
        lemma_items_view(workspaces@);
    }
    let ghost items = items_view(workspaces@);
    let source = Source {
        source_type: SourceType::WorkspaceFile,
        title: String::from_str("Workspace Database"),
        reference: String::from_str("workspaces table"),
        relevance: 1000,
    };
    let mut out: Vec<char> = Vec::new();
    if workspaces.len() == 0 {
        push_str(
            &mut out,
            "You don't have any workspaces yet. Start working in a project directory and I'll automatically detect it!",
        );
    } else {
        push_str(&mut out, "You have ");
        push_decimal(workspaces.len() as u64, &mut out);
        push_str(&mut out, " workspace(s):\n\n");
        let ghost head = out@;
        let shown: usize = if workspaces.len() < 10 {
            workspaces.len()
        } else {
            10
        };
        let mut i: usize = 0;
        while i < shown
            invariant
                shown <= workspaces@.len(),
                i <= shown,
                items == items_view(workspaces@),
                items.len() == workspaces@.len(),
                forall|k: int| 0 <= k < workspaces@.len() ==> #[trigger] items[k] == workspaces@[k]@,
                out@ == head + workspace_lines(items.take(i as int)),
            decreases shown - i,
        {
            let ws = &workspaces[i];
            let ghost before = out@;
            push_decimal((i + 1) as u64, &mut out);
            push_str(&mut out, ". ");
            push_member_text(&mut out, ws, "name", "Unknown");
            push_str(&mut out, " (");
            push_member_text(&mut out, ws, "status", "unknown");
            push_str(&mut out, ")\n");
            proof {
                let t = items.take(i + 1);
                assert(t.drop_last() =~= items.take(i as int));
                assert(t.last() == ws@);
                assert(out@ =~= before + workspace_line((i + 1) as nat, ws@));
            }
            i = i + 1;
        }
    }
    HandlerReply { content: string_of(out.as_slice()), source: Some(source) }
}

/// The reply to a request for a workspace's details.
pub open spec fn workspace_info_text(workspace: JsonView) -> Seq<char> {
    "Workspace '"@ + text_or(workspace, "name"@, "Unknown"@) + "' is currently "@ + text_or(
        workspace,
        "status"@,
        "unknown"@,
    ) + ". Let me know if you'd like to resume work or see recent activity!"@
}

/// Replies to a request for a workspace's details. Without a workspace the
/// user is asked which one is meant and nothing is cited; otherwise the
/// reply gives the name and status of the record that the `get_workspace`
/// tool returned and cites that workspace.
pub fn workspace_info_reply(workspace_id: Option<u128>, workspace: &Json) -> (r: HandlerReply)
    ensures
        workspace_id is None ==> r.content@
            == "Please specify a workspace or let me know which workspace you're asking about."@
            && r.source is None,
        workspace_id matches Some(id) ==> r.content@ == workspace_info_text(workspace@)
            && (r.source matches Some(s) && is_source(
            s,
            SourceType::WorkspaceFile,
            "Workspace: "@ + text_or(workspace@, "name"@, "Unknown"@),
            uuid_text(id),
            1000,
        )),
{
    match workspace_id {
        None => HandlerReply {
            content: String::from_str(
                "Please specify a workspace or let me know which workspace you're asking about.",
            ),
            source: None,
        },
        Some(id) => {
            let mut title: Vec<char> = Vec::new();
            push_str(&mut title, "Workspace: ");
            push_member_text(&mut title, workspace, "name", "Unknown");
            let mut out: Vec<char> = Vec::new();
            push_str(&mut out, "Workspace '");
            push_member_text(&mut out, workspace, "name", "Unknown");
            push_str(&mut out, "' is currently ");
            push_member_text(&mut out, workspace, "status", "unknown");
            push_str(&mut out, ". Let me know if you'd like to resume work or see recent activity!");
            let source = Source {
                source_type: SourceType::WorkspaceFile,
                title: string_of(title.as_slice()),
                reference: id_text(id),
                relevance: 1000,
            };
            HandlerReply { content: string_of(out.as_slice()), source: Some(source) }
        },
    }
}

/// The line of the `n`-th listed event.
pub open spec fn event_line(n: nat, event: JsonView) -> Seq<char> {
    decimal(n) + ". "@ + text_or(event, "event_type"@, "unknown"@) + ": "@ + text_or(event, "file_path"@, "N/A"@)
        + "\n"@
}

/// The numbered lines of listed events.
pub open spec fn event_lines(items: Seq<JsonView>) -> Seq<char>
    decreases items.len(),
{
    if items.len() == 0 {
        Seq::empty()
    } else {
        event_lines(items.drop_last()) + event_line(items.len(), items.last())
    }
}

/// The reply to a history search for `query` that found `events`: the
/// first five, numbered, and how many more there are.
pub open spec fn search_text(query: Seq<char>, events: Seq<JsonView>) -> Seq<char> {
    if query.len() == 0 {
        "What would you like me to search for in your history?"@
    } else if events.len() == 0 {
        "I couldn't find any events matching '"@ + query + "'"@
    } else {
        "Found "@ + decimal(events.len()) + " events matching '"@ + query + "':\n\n"@ + event_lines(
            events.take(at_most(events.len(), 5) as int),
        ) + if events.len() > 5 {
            "\n...and "@ + decimal((events.len() - 5) as nat) + " more."@
        } else {
            Seq::empty()
        }
    }
}

/// Replies to a history search, given the search query of the message
/// ([`search_query`]) and the events that the `search_timeline` tool
/// returned for it. An empty query asks what to search for; found events
/// cite the timeline.
#[verifier::spinoff_prover]
pub fn search_reply(query: &str, events: &Vec<Json>) -> (r: HandlerReply)
    ensures
        r.content@ == search_text(query@, items_view(events@)),
        (query@.len() == 0 || events@.len() == 0) ==> r.source is None,
        (query@.len() > 0 && events@.len() > 0) ==> (r.source matches Some(s) && is_source(
            s,
            SourceType::TimelineEvent,
            "Timeline Events"@,
            decimal(events@.len()) + " events found"@,
            900,
        )),
{
    proof {
        lemma_items_view(events@);
    }
    let ghost items = items_view(events@);
    let mut out: Vec<char> = Vec::new();
    if query.unicode_len() == 0 {
        push_str(&mut out, "What would you like me to search for in your history?");
        return HandlerReply { content: string_of(out.as_slice()), source: None };
    }
    if events.len() == 0 {
        push_str(&mut out, "I couldn't find any events matching '");
        push_str(&mut out, query);
        push_str(&mut out, "'");
        return HandlerReply { content: string_of(out.as_slice()), source: None };
    }
    let mut reference: Vec<char> = Vec::new();
    push_decimal(events.len() as u64, &mut reference);
    push_str(&mut reference, " events found");
    let source = Source {
        source_type: SourceType::TimelineEvent,
        title: String::from_str("Timeline Events"),
        reference: string_of(reference.as_slice()),
        relevance: 900,
    };
    push_str(&mut out, "Found ");
    push_decimal(events.len() as u64, &mut out);
    push_str(&mut out, " events matching '");
    push_str(&mut out, query);
    push_str(&mut out, "':\n\n");
    let ghost head = out@;
    let shown: usize = if events.len() < 5 {
        events.len()
    } else {
        5
    };
    let mut i: usize = 0;
    while i < shown
        invariant
            shown <= events@.len(),
            i <= shown,
            items == items_view(events@),
            items.len() == events@.len(),
            forall|k: int| 0 <= k < events@.len() ==> #[trigger] items[k] == events@[k]@,
            out@ == head + event_lines(items.take(i as int)),
        decreases shown - i,
    {
        let event = &events[i];
        let ghost before = out@;
        push_decimal((i + 1) as u64, &mut out);
        push_str(&mut out, ". ");
        push_member_text(&mut out, event, "event_type", "unknown");
        push_str(&mut out, ": ");
        push_member_text(&mut out, event, "file_path", "N/A");
        push_str(&mut out, "\n");
        proof {
            let t = items.take(i + 1);
            assert(t.drop_last() =~= items.take(i as int));
            assert(t.last() == event@);
            assert(out@ =~= before + event_line((i + 1) as nat, event@));
        }
        i = i + 1;
    }
    let ghost listed = out@;
    if events.len() > 5 {
        push_str(&mut out, "\n...and ");
        push_decimal((events.len() - 5) as u64, &mut out);
        push_str(&mut out, " more.");
        proof {
            assert(out@ =~= listed + ("\n...and "@ + decimal((events@.len() - 5) as nat) + " more."@));
        }
    } else {
        proof {
            assert(out@ =~= listed + Seq::<char>::empty());
        }
    }
    HandlerReply { content: string_of(out.as_slice()), source: Some(source) }
}

/// Replies to a request to resume work. Without a workspace the user is
/// asked which one; otherwise the reply says whether the previous session
/// summary could be loaded (`loaded`, the outcome of the
/// `get_session_summary` tool) and cites the session history.
pub fn resume_reply(workspace_id: Option<u128>, loaded: bool) -> (r: HandlerReply)
    ensures
        workspace_id is None ==> r.content@ == "Which workspace would you like to resume?"@ && r.source is None,
        workspace_id matches Some(id) ==> (r.source matches Some(s) && is_source(
            s,
            SourceType::SessionHistory,
            "Session Summary"@,
            uuid_text(id),
            900,
        )) && r.content@ == if loaded {
            "Ready to resume work in workspace "@ + uuid_text(id)
                + "! Your previous session context has been loaded."@
        } else {
            "Starting fresh in workspace "@ + uuid_text(id) + ". Let's get to work!"@
        },
{
    match workspace_id {
        None => HandlerReply { content: String::from_str("Which workspace would you like to resume?"), source: None },
        Some(id) => {
            let text = id_text(id);
            let mut out: Vec<char> = Vec::new();
            if loaded {
                push_str(&mut out, "Ready to resume work in workspace ");
                push_str(&mut out, text.as_str());
                push_str(&mut out, "! Your previous session context has been loaded.");
            } else {
                push_str(&mut out, "Starting fresh in workspace ");
                push_str(&mut out, text.as_str());
                push_str(&mut out, ". Let's get to work!");
            }
            let source = Source {
                source_type: SourceType::SessionHistory,
                title: String::from_str("Session Summary"),
                reference: text,
                relevance: 900,
            };
            HandlerReply { content: string_of(out.as_slice()), source: Some(source) }
        },
    }
}

/// Replies to a general question: the question is quoted and the scope of
/// the help offered is the given workspace or all of them. The context
/// analysis is cited.
pub fn question_reply(question: &str, workspace_id: Option<u128>) -> (r: HandlerReply)
    ensures
        r.content@ == "Regarding your question: \""@ + question@ + "\"\n\n"@ + match workspace_id {
            Some(id) => "Based on workspace "@ + uuid_text(id)
                + ", I can help you explore your work history and patterns."@,
            None => "I can help you explore your work history and patterns across all workspaces."@,
        },
        r.source matches Some(s) && is_source(
            s,
            SourceType::ContextMemory,
            "Context Analysis"@,
            "reasoning_engine"@,
            700,
        ),
{
    let mut out: Vec<char> = Vec::new();
    push_str(&mut out, "Regarding your question: \"");
    push_str(&mut out, question);
    push_str(&mut out, "\"\n\n");
    let ghost head = out@;
    match workspace_id {
        Some(id) => {
            let text = id_text(id);
            push_str(&mut out, "Based on workspace ");
            push_str(&mut out, text.as_str());
            push_str(&mut out, ", I can help you explore your work history and patterns.");
            proof {
                assert(out@ =~= head + ("Based on workspace "@ + uuid_text(id)
                    + ", I can help you explore your work history and patterns."@));
            }
        },
        None => {
            push_str(&mut out, "I can help you explore your work history and patterns across all workspaces.");
        },
    }
    let source = Source {
        source_type: SourceType::ContextMemory,
        title: String::from_str("Context Analysis"),
        reference: String::from_str("reasoning_engine"),
        relevance: 700,
    };
    HandlerReply { content: string_of(out.as_slice()), source: Some(source) }
}

/// The string members `key` of values, in order; values without one are
/// skipped.
pub open spec fn member_texts(items: Seq<JsonView>, key: Seq<char>) -> Seq<Seq<char>>
    decreases items.len(),
{
    if items.len() == 0 {
        Seq::empty()
    } else {
        let rest = member_texts(items.drop_last(), key);
        match text_member(items.last(), key) {
            Some(t) => rest.push(t),
            None => rest,
        }
    }
}

/// One line per event type in `kinds`: how many of `all` have it.
pub open spec fn count_lines(kinds: Seq<Seq<char>>, all: Seq<Seq<char>>) -> Seq<char>
    decreases kinds.len(),
{
    if kinds.len() == 0 {
        Seq::empty()
    } else {
        count_lines(kinds.drop_last(), all) + "\u{2022} "@ + decimal(count_of(all, kinds.last())) + " "@
            + kinds.last() + " events\n"@
    }
}

/// The summary of recent events: how many there are, how many distinct
/// files they touched, and how many there are of each event type, the
/// types in the order in which they first occur.
pub open spec fn summary_text(events: Seq<JsonView>) -> Seq<char> {
    if events.len() == 0 {
        "No recent activity to summarize."@
    } else {
        let kinds = member_texts(events, "event_type"@);
        "Recent activity summary (last "@ + decimal(events.len()) + " events):\n\n"@ + "\u{2022} "@ + decimal(
            distinct_texts(member_texts(events, "file_path"@)).len(),
        ) + " unique files modified\n"@ + count_lines(distinct_texts(kinds), kinds)
    }
}

/// Replies to a request for an activity summary, given the recent events
/// that the `get_recent_events` tool returned (see [`summary_text`]). A
/// non-empty summary cites the timeline.
#[verifier::spinoff_prover]
#[verifier::rlimit(30)]
pub fn activity_summary(events: &Vec<Json>) -> (r: HandlerReply)
    ensures
        r.content@ == summary_text(items_view(events@)),
        events@.len() == 0 ==> r.source is None,
        events@.len() > 0 ==> (r.source matches Some(s) && is_source(
            s,
            SourceType::TimelineEvent,
            "Recent Timeline Events"@,
            decimal(events@.len()) + " events"@,
            1000,
        )),
{
    proof {
        lemma_items_view(events@);
    }
    let ghost items = items_view(events@);
    if events.len() == 0 {
        return HandlerReply { content: String::from_str("No recent activity to summarize."), source: None };
    }
    let mut kinds: Vec<String> = Vec::new();
    let mut counts: Vec<usize> = Vec::new();
    let mut files: Vec<String> = Vec::new();
    let mut k: usize = 0;
    while k < events.len()
        invariant
            k <= events@.len(),
            items == items_view(events@),
            items.len() == events@.len(),
            forall|i: int| 0 <= i < events@.len() ==> #[trigger] items[i] == events@[i]@,
            strings_view(kinds@) == distinct_texts(member_texts(items.take(k as int), "event_type"@)),
            counts@.len() == kinds@.len(),
            forall|j: int|
                0 <= j < counts@.len() ==> #[trigger] counts@[j] == count_of(
                    member_texts(items.take(k as int), "event_type"@),
                    kinds@[j]@,
                ) && counts@[j] <= k,
            strings_view(files@) == distinct_texts(member_texts(items.take(k as int), "file_path"@)),
        decreases events@.len() - k,
    {
        let event = &events[k];
        let ghost prefix = items.take(k as int);
        let ghost next = items.take(k + 1);
        proof {
            assert(next.drop_last() =~= prefix);
            assert(next.last() == event@);
        }
        let ghost before_kinds = member_texts(prefix, "event_type"@);
        match member_text(event, "event_type") {
            Some(t) => {
                let ghost all = before_kinds.push(t@);
                proof {
                    assert(all.drop_last() =~= before_kinds);
                }
                match position_of(&kinds, t) {
                    Some(j) => {
                        let c = counts[j];
                        counts.set(j, c + 1);
                        proof {
                            lemma_distinct_texts_unique(before_kinds);
                            assert(strings_view(kinds@)[j as int] == t@);
                            assert(strings_view(kinds@).contains(t@));
                            assert forall|i: int| 0 <= i < counts@.len() implies #[trigger] counts@[i] == count_of(
                                all,
                                kinds@[i]@,
                            ) && counts@[i] <= k + 1 by {
                                assert(strings_view(kinds@)[i] == kinds@[i]@);
                                if i != j {
                                    if i < j {
                                        assert(strings_view(kinds@)[i] != strings_view(kinds@)[j as int]);
                                    } else {
                                        assert(strings_view(kinds@)[j as int] != strings_view(kinds@)[i]);
                                    }
                                }
                            }
                        }
                    },
                    None => {
                        proof {
                            lemma_counted_is_listed(before_kinds, t@);
                        }
                        let ghost old_kinds = kinds@;
                        kinds.push(t.clone());
                        counts.push(1);
                        proof {
                            assert(strings_view(kinds@) =~= strings_view(old_kinds).push(t@));
                            assert forall|i: int| 0 <= i < counts@.len() implies #[trigger] counts@[i] == count_of(
                                all,
                                kinds@[i]@,
                            ) && counts@[i] <= k + 1 by {
                                if i < old_kinds.len() {
                                    assert(strings_view(old_kinds)[i] == old_kinds[i]@);
                                    assert(kinds@[i] == old_kinds[i]);
                                    if old_kinds[i]@ == t@ {
                                        assert(strings_view(old_kinds).contains(t@));
                                    }
                                }
                            }
                        }
                    },
                }
            },
            None => {},
        }
        let ghost before_files = member_texts(prefix, "file_path"@);
        match member_text(event, "file_path") {
            Some(f) => {
                let ghost all = before_files.push(f@);
                proof {
                    assert(all.drop_last() =~= before_files);
                }
                match position_of(&files, f) {
                    Some(j) => {
                        proof {
                            assert(strings_view(files@)[j as int] == f@);
                        }
                    },
                    None => {
                        let ghost old_files = files@;
                        files.push(f.clone());
                        proof {
                            assert(strings_view(files@) =~= strings_view(old_files).push(f@));
                        }
                    },
                }
            },
            None => {},
        }
        k = k + 1;
    }
    proof {
        assert(items.take(events@.len() as int) =~= items);
    }
    let ghost all_kinds = member_texts(items, "event_type"@);
    let mut out: Vec<char> = Vec::new();
    push_str(&mut out, "Recent activity summary (last ");
    push_decimal(events.len() as u64, &mut out);
    push_str(&mut out, " events):\n\n");
    push_str(&mut out, "\u{2022} ");
    push_decimal(files.len() as u64, &mut out);
    push_str(&mut out, " unique files modified\n");
    let ghost head = out@;
    let mut j: usize = 0;
    while j < kinds.len()
        invariant
            j <= kinds@.len(),
            counts@.len() == kinds@.len(),
            forall|i: int| 0 <= i < counts@.len() ==> #[trigger] counts@[i] == count_of(all_kinds, kinds@[i]@),
            out@ == head + count_lines(strings_view(kinds@).take(j as int), all_kinds),
        decreases kinds@.len() - j,
    {
        let ghost before = out@;
        push_str(&mut out, "\u{2022} ");
        push_decimal(counts[j] as u64, &mut out);
        push_str(&mut out, " ");
        push_str(&mut out, kinds[j].as_str());
        push_str(&mut out, " events\n");
        proof {
            let t = strings_view(kinds@).take(j + 1);
            assert(t.drop_last() =~= strings_view(kinds@).take(j as int));
            assert(t.last() == kinds@[j as int]@);
            assert(out@ =~= before + ("\u{2022} "@ + decimal(count_of(all_kinds, kinds@[j as int]@)) + " "@
                + kinds@[j as int]@ + " events\n"@));
        }
        j = j + 1;
    }
    proof {
        assert(strings_view(kinds@).take(kinds@.len() as int) =~= strings_view(kinds@));
    }
    let mut reference: Vec<char> = Vec::new();
    push_decimal(events.len() as u64, &mut reference);
    push_str(&mut reference, " events");
    let source = Source {
        source_type: SourceType::TimelineEvent,
        title: String::from_str("Recent Timeline Events"),
        reference: string_of(reference.as_slice()),
        relevance: 1000,
    };
    HandlerReply { content: string_of(out.as_slice()), source: Some(source) }
}

/// The general help shown when a message's intent is unclear.
pub fn help_text() -> (r: String)
    ensures
        r@ == "I can help you with:\n- Listing and managing workspaces\n- Searching your work history\n- Summarizing recent activity\n- Explaining recommendations\n- Resuming previous work\n- Answering questions about your projects\n\nWhat would you like to know?"@,
{
    String::from_str(
        "I can help you with:\n- Listing and managing workspaces\n- Searching your work history\n- Summarizing recent activity\n- Explaining recommendations\n- Resuming previous work\n- Answering questions about your projects\n\nWhat would you like to know?",
    )
}

/// The name of an intent as `Debug` renders it.
pub open spec fn intent_name(i: Intent) -> Seq<char> {
    match i {
        Intent::ListWorkspaces => "ListWorkspaces"@,
        Intent::GetWorkspaceInfo => "GetWorkspaceInfo"@,
        Intent::SearchHistory => "SearchHistory"@,
        Intent::SummarizeActivity => "SummarizeActivity"@,
        Intent::ExplainRecommendation => "ExplainRecommendation"@,
        Intent::ResumeWork => "ResumeWork"@,
        Intent::AskQuestion => "AskQuestion"@,
        Intent::Unknown => "Unknown"@,
    }
}

/// The step taken for an intent.
pub open spec fn intent_step(i: Intent) -> Seq<char> {
    match i {
        Intent::ListWorkspaces => "Fetching workspace list"@,
        Intent::GetWorkspaceInfo => "Retrieving workspace information"@,
        Intent::SearchHistory => "Searching timeline history"@,
        Intent::SummarizeActivity => "Generating activity summary"@,
        Intent::ExplainRecommendation => "Explaining recommendation logic"@,
        Intent::ResumeWork => "Preparing workspace resume"@,
        Intent::AskQuestion => "Answering question using semantic search"@,
        Intent::Unknown => "Intent unclear, providing general help"@,
    }
}

/// The reasoning recorded with a reply: the intent found and the step taken
/// for it, joined by an arrow.
pub fn reasoning_text(intent: Intent) -> (r: String)
    ensures
        r@ == "Intent classified as: "@ + intent_name(intent) + " \u{2192} "@ + intent_step(intent),
{
    let mut out: Vec<char> = Vec::new();
    push_str(&mut out, "Intent classified as: ");
    match intent {
        Intent::ListWorkspaces => push_str(&mut out, "ListWorkspaces"),
        Intent::GetWorkspaceInfo => push_str(&mut out, "GetWorkspaceInfo"),
        Intent::SearchHistory => push_str(&mut out, "SearchHistory"),
        Intent::SummarizeActivity => push_str(&mut out, "SummarizeActivity"),
        Intent::ExplainRecommendation => push_str(&mut out, "ExplainRecommendation"),
        Intent::ResumeWork => push_str(&mut out, "ResumeWork"),
        Intent::AskQuestion => push_str(&mut out, "AskQuestion"),
        Intent::Unknown => push_str(&mut out, "Unknown"),
    }
    push_str(&mut out, " \u{2192} ");
    match intent {
        Intent::ListWorkspaces => push_str(&mut out, "Fetching workspace list"),
        Intent::GetWorkspaceInfo => push_str(&mut out, "Retrieving workspace information"),
        Intent::SearchHistory => push_str(&mut out, "Searching timeline history"),
        Intent::SummarizeActivity => push_str(&mut out, "Generating activity summary"),
        Intent::ExplainRecommendation => push_str(&mut out, "Explaining recommendation logic"),
        Intent::ResumeWork => push_str(&mut out, "Preparing workspace resume"),
        Intent::AskQuestion => push_str(&mut out, "Answering question using semantic search"),
        Intent::Unknown => push_str(&mut out, "Intent unclear, providing general help"),
    }
    string_of(out.as_slice())
}

/// The arguments of the suggested look at a workspace's recent activity.
pub open spec fn recent_activity_arguments(id: u128) -> JsonView {
    JsonView::Object(seq![("limit"@, JsonView::Number("10"@)), ("workspace_id"@, JsonView::Str(uuid_text(id)))])
}

/// Whether `a` is the suggested action with the given texts and arguments,
/// needing no confirmation.
pub open spec fn is_action(
    a: SuggestedAction,
    title: Seq<char>,
    description: Seq<char>,
    tool_name: Seq<char>,
    arguments: JsonView,
) -> bool {
    &&& a.title@ == title
    &&& a.description@ == description
    &&& a.tool_name@ == tool_name
    &&& a.arguments@ == arguments
    &&& !a.requires_confirmation
}

/// The follow-up actions suggested with a reply: in a workspace, a look at
/// its recent activity (ten events); always, the list of all workspaces.
pub fn suggested_actions(workspace_id: Option<u128>) -> (r: Vec<SuggestedAction>)
    ensures
        r@.len() == if workspace_id is Some {
            2int
        } else {
            1int
        },
        is_action(
            r@.last(),
            "List All Workspaces"@,
            "Show all available workspaces"@,
            "list_workspaces"@,
            JsonView::Object(Seq::empty()),
        ),
        workspace_id matches Some(id) ==> is_action(
            r@[0],
            "View Recent Activity"@,
            "See recent timeline events in this workspace"@,
            "get_recent_events"@,
            recent_activity_arguments(id),
        ),
{
    let mut actions: Vec<SuggestedAction> = Vec::new();
    match workspace_id {
        Some(id) => {
            let mut members: Vec<(String, Json)> = Vec::new();
            members.push((String::from_str("limit"), Json::Number(String::from_str("10"))));
            members.push((String::from_str("workspace_id"), Json::Str(id_text(id))));
            proof {
                lemma_members_view(members@);
                assert(members_view(members@) =~= seq![
                    ("limit"@, JsonView::Number("10"@)),
                    ("workspace_id"@, JsonView::Str(uuid_text(id))),
                ]);
            }
            actions.push(
                SuggestedAction {
                    title: String::from_str("View Recent Activity"),
                    description: String::from_str("See recent timeline events in this workspace"),
                    tool_name: String::from_str("get_recent_events"),
                    arguments: Json::Object(members),
                    requires_confirmation: false,
                },
            );
        },
        None => {},
    }
    let no_members: Vec<(String, Json)> = Vec::new();
    proof {
        assert(members_view(no_members@) =~= Seq::<(Seq<char>, JsonView)>::empty());
    }
    actions.push(
        SuggestedAction {
            title: String::from_str("List All Workspaces"),
            description: String::from_str("Show all available workspaces"),
            tool_name: String::from_str("list_workspaces"),
            arguments: Json::Object(no_members),
            requires_confirmation: false,
        },
    );
    actions
}

/// What a briefing reads of a timeline event: when it happened (nanoseconds
/// since the Unix epoch) and the file it concerns, if any.
#[derive(Clone, Copy)]
pub struct TimelineEntry {
    pub occurred_at: i128,
    pub file_id: Option<u128>,
}

/// The UTC day of a time: whole days since the Unix epoch, rounded down.
pub open spec fn utc_day(t: i128) -> int {
    (t as int) / (DAY_NANOS as int)
}

/// The UTC day of a time.
pub fn utc_day_of(t: i128) -> (d: i128)
    ensures
        d == utc_day(t),
{
    if t >= 0 {
        t / DAY_NANOS
    } else {
        let a: i128 = -(t + 1);
        let q: i128 = a / DAY_NANOS;
        proof {
            assert(a == q * DAY_NANOS + a % DAY_NANOS);
            assert(t == (-q - 1) * DAY_NANOS + (DAY_NANOS - 1 - a % DAY_NANOS));
            assert(utc_day(t) == -q - 1);
        }
        -q - 1
    }
}

/// The entries of a day.
pub open spec fn entries_on(entries: Seq<TimelineEntry>, day: int) -> Seq<TimelineEntry> {
    entries.filter(|e: TimelineEntry| utc_day(e.occurred_at) == day)
}

/// The distinct identifiers, in the order in which they first occur.
pub open spec fn distinct_ids(ids: Seq<u128>) -> Seq<u128>
    decreases ids.len(),
{
    if ids.len() == 0 {
        Seq::empty()
    } else {
        let rest = distinct_ids(ids.drop_last());
        if rest.contains(ids.last()) {
            rest
        } else {
            rest.push(ids.last())
        }
    }
}

/// The files of entries that name one, in order.
pub open spec fn entry_files(entries: Seq<TimelineEntry>) -> Seq<u128>
    decreases entries.len(),
{
    if entries.len() == 0 {
        Seq::empty()
    } else {
        let rest = entry_files(entries.drop_last());
        match entries.last().file_id {
            Some(f) => rest.push(f),
            None => rest,
        }
    }
}

/// The briefing of a day with `events` events touching `files` distinct
/// files: its summary.
pub open spec fn briefing_summary(events: nat, files: nat) -> Seq<char> {
    if events == 0 {
        "No activity recorded today yet."@
    } else {
        "Today you've worked on "@ + decimal(files) + " files with "@ + decimal(events) + " events recorded."@
    }
}

/// The briefing of the day of `now`: how many of the workspace's recent
/// events happened that UTC day and how many distinct files they touched,
/// and the first three recommendation titles. Without a workspace there
/// are no events and no recommendations.
pub fn daily_briefing(
    now: i128,
    workspace_id: Option<u128>,
    events: &Vec<TimelineEntry>,
    recommendation_titles: &Vec<String>,
) -> (r: DailyBriefing)
    ensures
        ({
            let today = if workspace_id is Some {
                entries_on(events@, utc_day(now))
            } else {
                Seq::empty()
            };
            let files = distinct_ids(entry_files(today)).len();
            &&& r.date == now
            &&& r.summary@ == briefing_summary(today.len(), files)
            &&& strings_view(r.highlights@) == seq![
                decimal(today.len()) + " timeline events"@,
                decimal(files) + " files modified"@,
            ]
            &&& r.pending_tasks@.len() == 0
            &&& strings_view(r.recommendations@) == if workspace_id is Some {
                strings_view(recommendation_titles@).take(at_most(recommendation_titles@.len(), 3) as int)
            } else {
                Seq::empty()
            }
            &&& r.workspace_stats.active_workspaces == 1
            &&& r.workspace_stats.files_modified == files
            &&& r.workspace_stats.time_tracked == 0
            &&& r.workspace_stats.sessions_completed == 0
        }),
{
    let day = utc_day_of(now);
    let mut count: usize = 0;
    let mut files: Vec<u128> = Vec::new();
    let ghost mut today: Seq<TimelineEntry> = Seq::empty();
    if workspace_id.is_some() {
        let mut i: usize = 0;
        while i < events.len()
            invariant
                i <= events@.len(),
                day == utc_day(now),
                today == entries_on(events@.take(i as int), day as int),
                count == today.len(),
                count <= i,
                files@ == distinct_ids(entry_files(today)),
            decreases events@.len() - i,
        {
            let e = events[i];
            proof {
                let t = events@.take(i + 1);
                assert(t.drop_last() =~= events@.take(i as int));
                assert(t.last() == e);
                reveal(Seq::filter);
                assert(entries_on(t, day as int) == if utc_day(e.occurred_at) == day {
                    entries_on(events@.take(i as int), day as int).push(e)
                } else {
                    entries_on(events@.take(i as int), day as int)
                });
            }
            if utc_day_of(e.occurred_at) == day {
                let ghost before = today;
                proof {
                    today = today.push(e);
                    assert(today.drop_last() =~= before);
                }
                count = count + 1;
                match e.file_id {
                    Some(f) => {
                        let mut seen = false;
                        let mut k: usize = 0;
                        while k < files.len() && !seen
                            invariant
                                k <= files@.len(),
                                files@ == distinct_ids(entry_files(before)),
                                seen ==> files@.contains(f),
                                !seen ==> forall|x: int| 0 <= x < k ==> files@[x] != f,
                            decreases files@.len() - k + if seen {
                                0int
                            } else {
                                1int
                            },
                        {
                            if files[k] == f {
                                seen = true;
                                proof {
                                    assert(files@[k as int] == f);
                                }
                            } else {
                                k = k + 1;
                            }
                        }
                        proof {
                            assert(entry_files(today) == entry_files(before).push(f));
                            assert(entry_files(before).push(f).drop_last() =~= entry_files(before));
                            assert(entry_files(before).push(f).last() == f);
                        }
                        if !seen {
                            files.push(f);
                        }
                    },
                    None => {
                        proof {
                            assert(entry_files(today) == entry_files(before));
                        }
                    },
                }
            }
            i = i + 1;
        }
        proof {
            assert(events@.take(events@.len() as int) =~= events@);
        }
    } else {
        proof {
            assert(files@ =~= distinct_ids(entry_files(today)));
        }
    }
    let mut summary: Vec<char> = Vec::new();
    if count == 0 {
        push_str(&mut summary, "No activity recorded today yet.");
    } else {
        push_str(&mut summary, "Today you've worked on ");
        push_decimal(files.len() as u64, &mut summary);
        push_str(&mut summary, " files with ");
        push_decimal(count as u64, &mut summary);
        push_str(&mut summary, " events recorded.");
    }
    let mut first: Vec<char> = Vec::new();
    push_decimal(count as u64, &mut first);
    push_str(&mut first, " timeline events");
    let mut second: Vec<char> = Vec::new();
    push_decimal(files.len() as u64, &mut second);
    push_str(&mut second, " files modified");
    let mut highlights: Vec<String> = Vec::new();
    highlights.push(string_of(first.as_slice()));
    highlights.push(string_of(second.as_slice()));
    proof {
        assert(strings_view(highlights@) =~= seq![
            decimal(count as nat) + " timeline events"@,
            decimal(files@.len()) + " files modified"@,
        ]);
    }
    let mut recommendations: Vec<String> = Vec::new();
    if workspace_id.is_some() {
        let mut j: usize = 0;
        while j < recommendation_titles.len() && j < 3
            invariant
                j <= recommendation_titles@.len(),
                j <= 3,
                strings_view(recommendations@) == strings_view(recommendation_titles@).take(j as int),
            decreases recommendation_titles@.len() - j,
        {
            let ghost before = recommendations@;
            let title = recommendation_titles[j].clone();
            recommendations.push(title);
            proof {
                assert(strings_view(recommendations@) =~= strings_view(before).push(recommendation_titles@[j as int]@));
                assert(strings_view(recommendation_titles@).take(j + 1) =~= strings_view(recommendation_titles@).take(
                    j as int,
                ).push(recommendation_titles@[j as int]@));
            }
            j = j + 1;
        }
    }
    let stats = WorkspaceStats {
        active_workspaces: 1,
        files_modified: files.len(),
        time_tracked: 0,
        sessions_completed: 0,
    };
    DailyBriefing {
        date: now,
        summary: string_of(summary.as_slice()),
        highlights,
        pending_tasks: Vec::new(),
        recommendations,
        workspace_stats: stats,
    }
}

} // verus!
