//! The variable binding store of a running plan execution: the outputs of
//! completed steps and shared variables, through which `{{...}}` template
//! references in tool arguments are resolved before a tool runs.

use vstd::prelude::*;
use crate::chars::{replace_first, replace_first_chars, trim, trim_bounds, slice_chars, u64_text, decimal};
use crate::entries::{
    find_key, get_entry, lemma_set_keeps_unique, lemma_set_then_find, put_entry, set_entry, unique_keys,
};
use crate::ids::{id_text, uuid_text};
use crate::json::{Json, JsonView, items_view, lemma_items_view, lemma_members_view, members_view};
use crate::json_text::{json_text, push_str, json_to_text};
use crate::template::{
    append_chars, braced, extract_templates, is_whole_template, path_segments, split_path, step_into_value,
    templates_of, walk, whole_template, extract_raw_templates, raw_templates_of, lemma_raw_templates_len,
};
use crate::text::{chars_of, str_eq, string_of, strings_view};

verus! {

/// Text with which every message about an unresolvable variable begins.
pub const UNRESOLVED_VARIABLE_MARKER: &'static str = "unresolved variable";

/// Errors produced while resolving `{{...}}` references.
pub enum ContextError {
    /// No variable has the reference's root name.
    Unresolved(String),
    /// The referenced step has no stored output.
    MissingStep(String),
    /// A segment of the reference's path could not be followed.
    MissingField { template: String, field: String },
    /// The reference is empty or has no path.
    Malformed(String),
}

/// The mathematical value of a [`ContextError`].
pub enum ContextErrorView {
    Unresolved(Seq<char>),
    MissingStep(Seq<char>),
    MissingField { template: Seq<char>, field: Seq<char> },
    Malformed(Seq<char>),
}

impl View for ContextError {
    type V = ContextErrorView;

    open spec fn view(&self) -> ContextErrorView {
        match self {
            ContextError::Unresolved(s) => ContextErrorView::Unresolved(s@),
            ContextError::MissingStep(s) => ContextErrorView::MissingStep(s@),
            ContextError::MissingField { template, field } => ContextErrorView::MissingField {
                template: template@,
                field: field@,
            },
            ContextError::Malformed(s) => ContextErrorView::Malformed(s@),
        }
    }
}

/// The text of an error.
pub open spec fn context_error_text(e: ContextErrorView) -> Seq<char> {
    match e {
        ContextErrorView::Unresolved(s) => "unresolved variable: "@ + s,
        ContextErrorView::MissingStep(s) => "unresolved variable: step '"@ + s + "' has no stored output"@,
        ContextErrorView::MissingField { template, field } => "unresolved variable: missing field '"@ + field
            + "' in '"@ + template + "'"@,
        ContextErrorView::Malformed(s) => "invalid template: "@ + s,
    }
}

impl ContextError {
    /// Whether this error describes an unresolvable variable reference, as
    /// opposed to a malformed template.
    pub fn is_unresolved(&self) -> (r: bool)
        ensures
            r == !(self@ is Malformed),
    {
        match self {
            ContextError::Malformed(_) => false,
            _ => true,
        }
    }

    /// The error's message.
    pub fn message(&self) -> (r: String)
        ensures
            r@ == context_error_text(self@),
    {
        let mut out: Vec<char> = Vec::new();
        match self {
            ContextError::Unresolved(s) => {
                push_str(&mut out, "unresolved variable: ");
                push_str(&mut out, s.as_str());
            },
            ContextError::MissingStep(s) => {
                push_str(&mut out, "unresolved variable: step '");
                push_str(&mut out, s.as_str());
                push_str(&mut out, "' has no stored output");
            },
            ContextError::MissingField { template, field } => {
                push_str(&mut out, "unresolved variable: missing field '");
                push_str(&mut out, field.as_str());
                push_str(&mut out, "' in '");
                push_str(&mut out, template.as_str());
                push_str(&mut out, "'");
            },
            ContextError::Malformed(s) => {
                push_str(&mut out, "invalid template: ");
                push_str(&mut out, s.as_str());
            },
        }
        proof {
            assert(out@ =~= context_error_text(self@));
        }
        string_of(out.as_slice())
    }
}

/// The mathematical value of an [`ExecutionContext`]: its variables and its
/// stored step outputs, each as keyed entries in the order first bound.
pub struct ContextView {
    pub variables: Seq<(Seq<char>, JsonView)>,
    pub steps: Seq<(Seq<char>, JsonView)>,
}

/// Execution-scoped variable binding store.
pub struct ExecutionContext {
    variables: Vec<(String, Json)>,
    steps: Vec<(String, Json)>,
}

impl View for ExecutionContext {
    type V = ContextView;

    closed spec fn view(&self) -> ContextView {
        ContextView { variables: members_view(self.variables@), steps: members_view(self.steps@) }
    }
}

/// The result of a lookup that failed at `field`, for the reference
/// `template`.
pub open spec fn missing_field(template: Seq<char>, field: Seq<char>) -> ContextErrorView {
    ContextErrorView::MissingField { template, field }
}

/// Walking `segs` from `base`, with a failed segment reported as a missing
/// field of `template`.
pub open spec fn lookup_result(base: JsonView, segs: Seq<Seq<char>>, template: Seq<char>) -> Result<
    JsonView,
    ContextErrorView,
> {
    match walk(base, segs) {
        Ok(v) => Ok(v),
        Err(seg) => Err(missing_field(template, seg)),
    }
}

/// The value of one `{{...}}` reference body.
pub open spec fn template_value(ctx: ContextView, expr: Seq<char>) -> Result<JsonView, ContextErrorView> {
    let e = trim(expr);
    if e.len() == 0 {
        Err(ContextErrorView::Malformed("empty template"@))
    } else {
        let parts = path_segments(e);
        if parts.len() == 0 {
            Err(ContextErrorView::Malformed(e))
        } else if parts[0] == "steps"@ {
            if parts.len() < 2 {
                Err(ContextErrorView::Malformed(e))
            } else {
                match find_key(ctx.steps, parts[1]) {
                    None => Err(ContextErrorView::MissingStep(parts[1])),
                    Some(out) => lookup_result(out, parts.skip(2), e),
                }
            }
        } else {
            match find_key(ctx.variables, parts[0]) {
                None => Err(ContextErrorView::Unresolved(e)),
                Some(base) => lookup_result(base, parts.skip(1), e),
            }
        }
    }
}

/// The text a bound value contributes inside a longer string: a string as
/// it is, anything else as its JSON text.
pub open spec fn embed_text(v: JsonView) -> Seq<char> {
    match v {
        JsonView::Str(s) => s,
        _ => json_text(v),
    }
}

/// Replaces, for each reference in turn (its body as written), the first
/// `{{body}}` of the text by the text of its value; the first failing
/// reference decides.
pub open spec fn substitute(ctx: ContextView, text: Seq<char>, ts: Seq<Seq<char>>) -> Result<
    Seq<char>,
    ContextErrorView,
>
    decreases ts.len(),
{
    if ts.len() == 0 {
        Ok(text)
    } else {
        match template_value(ctx, ts[0]) {
            Err(e) => Err(e),
            Ok(v) => substitute(ctx, replace_first(text, braced(ts[0]), embed_text(v)), ts.drop_first()),
        }
    }
}

/// The value of a string that may hold references: the string itself when
/// it holds none, the referenced value when it is one whole reference, and
/// the string with each reference replaced by its text otherwise.
pub open spec fn string_value(ctx: ContextView, text: Seq<char>) -> Result<JsonView, ContextErrorView> {
    let ts = raw_templates_of(text);
    if ts.len() == 0 {
        Ok(JsonView::Str(text))
    } else if ts.len() == 1 && whole_template(text) {
        template_value(ctx, ts[0])
    } else {
        match substitute(ctx, text, ts) {
            Ok(s) => Ok(JsonView::Str(s)),
            Err(e) => Err(e),
        }
    }
}

/// A value with every string in it resolved; the first failure decides.
pub open spec fn resolved_value(ctx: ContextView, v: JsonView) -> Result<JsonView, ContextErrorView>
    decreases v, 0nat,
{
    match v {
        JsonView::Str(s) => string_value(ctx, s),
        JsonView::Array(items) => match resolved_items(ctx, items) {
            Ok(rs) => Ok(JsonView::Array(rs)),
            Err(e) => Err(e),
        },
        JsonView::Object(members) => match resolved_members(ctx, members) {
            Ok(rs) => Ok(JsonView::Object(rs)),
            Err(e) => Err(e),
        },
        _ => Ok(v),
    }
}

/// Array items resolved in order.
pub open spec fn resolved_items(ctx: ContextView, items: Seq<JsonView>) -> Result<Seq<JsonView>, ContextErrorView>
    decreases items, 1nat,
{
    if items.len() == 0 {
        Ok(Seq::empty())
    } else {
        match resolved_items(ctx, items.drop_last()) {
            Err(e) => Err(e),
            Ok(rs) => match resolved_value(ctx, items.last()) {
                Err(e) => Err(e),
                Ok(r) => Ok(rs.push(r)),
            },
        }
    }
}

/// Object members resolved in order, keeping their keys.
pub open spec fn resolved_members(ctx: ContextView, members: Seq<(Seq<char>, JsonView)>) -> Result<
    Seq<(Seq<char>, JsonView)>,
    ContextErrorView,
>
    decreases members, 1nat,
{
    if members.len() == 0 {
        Ok(Seq::empty())
    } else {
        match resolved_members(ctx, members.drop_last()) {
            Err(e) => Err(e),
            Ok(rs) => match resolved_value(ctx, members.last().1) {
                Err(e) => Err(e),
                Ok(r) => Ok(rs.push((members.last().0, r))),
            },
        }
    }
}

/// The view of a resolution result.
pub open spec fn result_view(r: Result<Json, ContextError>) -> Result<JsonView, ContextErrorView> {
    match r {
        Ok(v) => Ok(v@),
        Err(e) => Err(e@),
    }
}

/// The variables a new context starts with: the goal, and the workspace
/// when there is one.
pub open spec fn initial_variables(workspace_id: Option<u128>, goal: Seq<char>) -> Seq<(Seq<char>, JsonView)> {
    let g = seq![("goal"@, JsonView::Str(goal))];
    match workspace_id {
        None => g,
        Some(id) => g.push(
            (
                "workspace"@,
                JsonView::Object(
                    seq![("id"@, JsonView::Str(uuid_text(id))), ("workspace_id"@, JsonView::Str(uuid_text(id)))],
                ),
            ),
        ),
    }
}

impl ExecutionContext {
    #[verifier::type_invariant]
    spec fn keys_unique(self) -> bool {
        unique_keys(members_view(self.variables@)) && unique_keys(members_view(self.steps@))
    }

    /// A context holding the goal text and, when the execution has one, the
    /// workspace (`{"id": .., "workspace_id": ..}`), and no step outputs.
    pub fn new(workspace_id: Option<u128>, goal: String) -> (r: Self)
        ensures
            r@.variables == initial_variables(workspace_id, goal@),
            r@.steps == Seq::<(Seq<char>, JsonView)>::empty(),
    {
        let ghost g = goal@;
        let mut variables: Vec<(String, Json)> = Vec::new();
        variables.push((String::from_str("goal"), Json::Str(goal)));
        match workspace_id {
            Some(id) => {
                let mut members: Vec<(String, Json)> = Vec::new();
                members.push((String::from_str("id"), Json::Str(id_text(id))));
                members.push((String::from_str("workspace_id"), Json::Str(id_text(id))));
                proof {
                    lemma_members_view(members@);
                    assert(members_view(members@) =~= seq![
                        ("id"@, JsonView::Str(uuid_text(id))),
                        ("workspace_id"@, JsonView::Str(uuid_text(id))),
                    ]);
                }
                variables.push((String::from_str("workspace"), Json::Object(members)));
            },
            None => {},
        }
        proof {
            lemma_members_view(variables@);
            assert(members_view(variables@) =~= initial_variables(workspace_id, g));
            reveal_strlit("goal");
            reveal_strlit("workspace");
            assert("goal"@.len() != "workspace"@.len());
            assert(unique_keys(members_view(variables@)));
            let ghost empty: Seq<(String, Json)> = Seq::empty();
            assert(members_view(empty) =~= Seq::<(Seq<char>, JsonView)>::empty());
        }
        let steps: Vec<(String, Json)> = Vec::new();
        proof {
            assert(members_view(steps@) =~= Seq::<(Seq<char>, JsonView)>::empty());
        }
        ExecutionContext { variables, steps }
    }

    /// Sets (or overwrites) a named execution variable.
    pub fn set_variable(&mut self, name: &str, value: Json)
        ensures
            final(self)@.variables == set_entry(old(self)@.variables, name@, value@),
            final(self)@.steps == old(self)@.steps,
    {
        proof {
            use_type_invariant(&*self);
            lemma_set_keeps_unique(members_view(self.variables@), name@, value@);
        }
        let mut vars: Vec<(String, Json)> = Vec::new();
        std::mem::swap(&mut vars, &mut self.variables);
        put_entry(&mut vars, String::from_str(name), value);
        self.variables = vars;
    }

    /// Records a completed step's output under its tool name, when it has
    /// one, and then under its step number.
    pub fn set_step_output(&mut self, step: usize, name: Option<&str>, output: Json)
        ensures
            final(self)@.variables == old(self)@.variables,
            final(self)@.steps == set_entry(
                match name {
                    Some(n) => set_entry(old(self)@.steps, n@, output@),
                    None => old(self)@.steps,
                },
                decimal(step as nat),
                output@,
            ),
    {
        proof {
            use_type_invariant(&*self);
        }
        let mut steps: Vec<(String, Json)> = Vec::new();
        std::mem::swap(&mut steps, &mut self.steps);
        match name {
            Some(n) => {
                let copy = output.copy();
                proof {
                    lemma_set_keeps_unique(members_view(steps@), n@, output@);
                }
                put_entry(&mut steps, String::from_str(n), copy);
            },
            None => {},
        }
        let key = u64_text(step as u64);
        proof {
            lemma_set_keeps_unique(members_view(steps@), key@, output@);
        }
        put_entry(&mut steps, string_of(key.as_slice()), output);
        self.steps = steps;
    }

    /// Stores a step output under an opaque key.
    pub fn save_step_output(&mut self, key: String, output: Json)
        ensures
            final(self)@.variables == old(self)@.variables,
            final(self)@.steps == set_entry(old(self)@.steps, key@, output@),
    {
        proof {
            use_type_invariant(&*self);
            lemma_set_keeps_unique(members_view(self.steps@), key@, output@);
        }
        let mut steps: Vec<(String, Json)> = Vec::new();
        std::mem::swap(&mut steps, &mut self.steps);
        put_entry(&mut steps, key, output);
        self.steps = steps;
    }

    /// Whether any output has been stored for `name`.
    pub fn has_step(&self, name: &str) -> (r: bool)
        ensures
            r == (find_key(self@.steps, name@) is Some),
    {
        get_entry(&self.steps, name).is_some()
    }

    /// The stored output for a step, if any.
    pub fn step_output(&self, name: &str) -> (r: Option<&Json>)
        ensures
            match r {
                None => find_key(self@.steps, name@) is None,
                Some(v) => find_key(self@.steps, name@) == Some(v@),
            },
    {
        get_entry(&self.steps, name)
    }

    /// The stored step outputs, keyed by step name or number, in the order
    /// their keys were first bound.
    pub fn snapshot(&self) -> (r: Vec<(String, Json)>)
        ensures
            members_view(r@) == self@.steps,
            unique_keys(members_view(r@)),
    {
        proof {
            use_type_invariant(self);
            lemma_members_view(self.steps@);
        }
        let mut out: Vec<(String, Json)> = Vec::new();
        let mut i: usize = 0;
        while i < self.steps.len()
            invariant
                i <= self.steps@.len(),
                members_view(self.steps@).len() == self.steps@.len(),
                forall|k: int|
                    0 <= k < self.steps@.len() ==> #[trigger] members_view(self.steps@)[k] == (
                        self.steps@[k].0@,
                        self.steps@[k].1@,
                    ),
                members_view(out@) == members_view(self.steps@).take(i as int),
            decreases self.steps.len() - i,
        {
            let key = self.steps[i].0.clone();
            let value = self.steps[i].1.copy();
            let ghost before = out@;
            out.push((key, value));
            proof {
                lemma_members_view(out@);
                lemma_members_view(before);
                assert(members_view(out@) =~= members_view(self.steps@).take(i + 1));
            }
            i = i + 1;
        }
        proof {
            assert(members_view(self.steps@).take(self.steps@.len() as int) =~= members_view(self.steps@));
        }
        out
    }

    /// Resolves the body of a single `{{...}}` reference (without braces).
    pub fn resolve_template(&self, expr: &str) -> (r: Result<Json, ContextError>)
        ensures
            result_view(r) == template_value(self@, expr@),
    {
        let chars = chars_of(expr);
        let (a, b) = trim_bounds(&chars);
        let trimmed = string_of(slice_chars(&chars, a, b).as_slice());
        let e = trimmed.as_str();
        if a == b {
            return Err(ContextError::Malformed(String::from_str("empty template")));
        }
        let parts = split_path(e);
        proof {
            assert(strings_view(parts@).len() == parts@.len());
        }
        if parts.len() == 0 {
            return Err(ContextError::Malformed(trimmed.clone()));
        }
        proof {
            assert(strings_view(parts@)[0] == parts@[0]@);
        }
        if str_eq(parts[0].as_str(), "steps") {
            if parts.len() < 2 {
                return Err(ContextError::Malformed(trimmed.clone()));
            }
            proof {
                assert(strings_view(parts@)[1] == parts@[1]@);
            }
            match get_entry(&self.steps, parts[1].as_str()) {
                None => Err(ContextError::MissingStep(parts[1].clone())),
                Some(output) => {
                    let rest = tail_strings(&parts, 2);
                    proof {
                        assert(strings_view(rest@) =~= strings_view(parts@).skip(2));
                    }
                    lookup(output, rest.as_slice(), e)
                },
            }
        } else {
            match get_entry(&self.variables, parts[0].as_str()) {
                None => Err(ContextError::Unresolved(trimmed.clone())),
                Some(base) => {
                    let rest = tail_strings(&parts, 1);
                    proof {
                        assert(strings_view(rest@) =~= strings_view(parts@).skip(1));
                    }
                    lookup(base, rest.as_slice(), e)
                },
            }
        }
    }
}

impl ExecutionContext {
    /// Resolves a single string, which may hold zero, one or many `{{...}}`
    /// references.
    pub fn resolve_string(&self, input: &str) -> (r: Result<Json, ContextError>)
        ensures
            result_view(r) == string_value(self@, input@),
    {
        let templates = extract_raw_templates(input);
        let ghost ts = raw_templates_of(input@);
        if templates.len() == 0 {
            return Ok(Json::Str(String::from_str(input)));
        }
        if templates.len() == 1 && is_whole_template(input) {
            return self.resolve_template(templates[0].as_str());
        }
        let mut out = chars_of(input);
        let mut k: usize = 0;
        assert(ts.skip(0) =~= ts);
        while k < templates.len()
            invariant
                templates@.len() == ts.len(),
                ts == raw_templates_of(input@),
                ts.len() > 0,
                !(ts.len() == 1 && whole_template(input@)),
                forall|q: int| 0 <= q < ts.len() ==> #[trigger] templates@[q]@ == ts[q],
                k <= ts.len(),
                substitute(self@, input@, ts) == substitute(self@, out@, ts.skip(k as int)),
            decreases templates.len() - k,
        {
            let ghost rest = ts.skip(k as int);
            proof {
                assert(rest[0] == ts[k as int]);
                assert(rest.drop_first() =~= ts.skip(k + 1));
            }
            let value = match self.resolve_template(templates[k].as_str()) {
                Ok(v) => v,
                Err(e) => {
                    proof {
                        assert(template_value(self@, rest[0]) == Err::<JsonView, ContextErrorView>(e@));
                        assert(substitute(self@, out@, rest) == Err::<Seq<char>, ContextErrorView>(e@));
                    }
                    return Err(e);
                },
            };
            let text = chars_of(to_text(&value).as_str());
            let body = chars_of(templates[k].as_str());
            let mut needle: Vec<char> = Vec::new();
            needle.push('{');
            needle.push('{');
            append_chars(&mut needle, &body);
            needle.push('}');
            needle.push('}');
            proof {
                assert(needle@ =~= braced(ts[k as int]));
            }
            out = replace_first_chars(&out, &needle, &text);
            k = k + 1;
        }
        proof {
            assert(ts.skip(k as int).len() == 0);
        }
        Ok(Json::Str(string_of(out.as_slice())))
    }

    /// Resolves every reference in a value, returning a copy with the
    /// referenced values substituted; strings without references pass
    /// through.
    pub fn resolve(&self, value: &Json) -> (r: Result<Json, ContextError>)
        ensures
            result_view(r) == resolved_value(self@, value@),
        decreases value,
    {
        match value {
            Json::Str(s) => self.resolve_string(s.as_str()),
            Json::Array(items) => {
                let ghost iv = items_view(items@);
                proof {
                    lemma_items_view(items@);
                }
                let mut out: Vec<Json> = Vec::new();
                let mut i: usize = 0;
                proof {
                    lemma_items_view(out@);
                    assert(iv.take(0) =~= Seq::<JsonView>::empty());
                    assert(items_view(out@) =~= Seq::<JsonView>::empty());
                }
                while i < items.len()
                    invariant
                        *value == Json::Array(*items),
                        iv == items_view(items@),
                        i <= items@.len(),
                        iv.len() == items@.len(),
                        forall|k: int| 0 <= k < items@.len() ==> #[trigger] iv[k] == items@[k]@,
                        resolved_items(self@, iv.take(i as int)) == Ok::<Seq<JsonView>, ContextErrorView>(
                            items_view(out@),
                        ),
                    decreases items.len() - i,
                {
                    proof {
                        broadcast use vstd::std_specs::vec::axiom_vec_index_decreases;
                        assert(decreases_to!(items => items[i as int]));
                        assert(decreases_to!(*value => value->Array_0));
                        assert(iv.take(i + 1).drop_last() =~= iv.take(i as int));
                        assert(iv.take(i + 1).last() == items@[i as int]@);
                    }
                    match self.resolve(&items[i]) {
                        Err(e) => {
                            proof {
                                lemma_items_error_extends(self@, iv, i + 1);
                            }
                            return Err(e);
                        },
                        Ok(r) => {
                            let ghost before = out@;
                            out.push(r);
                            proof {
                                lemma_items_view(out@);
                                lemma_items_view(before);
                                assert(items_view(out@) =~= items_view(before).push(out@.last()@));
                            }
                        },
                    }
                    i = i + 1;
                }
                proof {
                    assert(iv.take(i as int) =~= iv);
                }
                Ok(Json::Array(out))
            },
            Json::Object(members) => {
                let ghost mv = members_view(members@);
                proof {
                    lemma_members_view(members@);
                }
                let mut out: Vec<(String, Json)> = Vec::new();
                let mut i: usize = 0;
                proof {
                    lemma_members_view(out@);
                    assert(mv.take(0) =~= Seq::<(Seq<char>, JsonView)>::empty());
                    assert(members_view(out@) =~= Seq::<(Seq<char>, JsonView)>::empty());
                }
                while i < members.len()
                    invariant
                        *value == Json::Object(*members),
                        mv == members_view(members@),
                        i <= members@.len(),
                        mv.len() == members@.len(),
                        forall|k: int|
                            0 <= k < members@.len() ==> #[trigger] mv[k] == (members@[k].0@, members@[k].1@),
                        resolved_members(self@, mv.take(i as int)) == Ok::<
                            Seq<(Seq<char>, JsonView)>,
                            ContextErrorView,
                        >(members_view(out@)),
                    decreases members.len() - i,
                {
                    let member = &members[i];
                    proof {
                        broadcast use vstd::std_specs::vec::axiom_vec_index_decreases;
                        assert(decreases_to!(members => members[i as int]));
                        assert(decreases_to!(members[i as int] => members[i as int].1));
                        assert(decreases_to!(*value => value->Object_0));
                        assert(mv.take(i + 1).drop_last() =~= mv.take(i as int));
                        assert(mv.take(i + 1).last() == mv[i as int]);
                    }
                    match self.resolve(&member.1) {
                        Err(e) => {
                            proof {
                                lemma_members_error_extends(self@, mv, i + 1);
                            }
                            return Err(e);
                        },
                        Ok(r) => {
                            let ghost before = out@;
                            out.push((member.0.clone(), r));
                            proof {
                                lemma_members_view(out@);
                                lemma_members_view(before);
                                assert(members_view(out@) =~= members_view(before).push((mv[i as int].0, out@.last().1@)));
                            }
                        },
                    }
                    i = i + 1;
                }
                proof {
                    assert(mv.take(i as int) =~= mv);
                }
                Ok(Json::Object(out))
            },
            Json::Null => Ok(Json::Null),
            Json::Bool(b) => Ok(Json::Bool(*b)),
            Json::Number(n) => Ok(Json::Number(n.clone())),
        }
    }
}

/// A failure among the first `n` items is the failure of all of them.
proof fn lemma_items_error_extends(ctx: ContextView, items: Seq<JsonView>, n: int)
    requires
        0 <= n <= items.len(),
        resolved_items(ctx, items.take(n)) is Err,
    ensures
        resolved_items(ctx, items) == resolved_items(ctx, items.take(n)),
    decreases items.len() - n,
{
    if n < items.len() {
        assert(items.take(n + 1).drop_last() =~= items.take(n));
        lemma_items_error_extends(ctx, items, n + 1);
    } else {
        assert(items.take(n) =~= items);
    }
}

/// A failure among the first `n` members is the failure of all of them.
proof fn lemma_members_error_extends(ctx: ContextView, members: Seq<(Seq<char>, JsonView)>, n: int)
    requires
        0 <= n <= members.len(),
        resolved_members(ctx, members.take(n)) is Err,
    ensures
        resolved_members(ctx, members) == resolved_members(ctx, members.take(n)),
    decreases members.len() - n,
{
    if n < members.len() {
        assert(members.take(n + 1).drop_last() =~= members.take(n));
        lemma_members_error_extends(ctx, members, n + 1);
    } else {
        assert(members.take(n) =~= members);
    }
}

/// The strings of `v` from position `from` on.
fn tail_strings(v: &Vec<String>, from: usize) -> (r: Vec<String>)
    requires
        from <= v@.len(),
    ensures
        strings_view(r@) == strings_view(v@).skip(from as int),
{
    let mut out: Vec<String> = Vec::new();
    let mut i = from;
    while i < v.len()
        invariant
            from <= i <= v@.len(),
            out@.len() == i - from,
            forall|k: int| 0 <= k < out@.len() ==> #[trigger] out@[k]@ == v@[from + k]@,
        decreases v.len() - i,
    {
        out.push(v[i].clone());
        i = i + 1;
    }
    proof {
        assert forall|k: int| 0 <= k < out@.len() implies #[trigger] strings_view(out@)[k] == strings_view(v@).skip(from as int)[k] by {
            assert(out@[k]@ == v@[from + k]@);
        }
        assert(strings_view(out@) =~= strings_view(v@).skip(from as int));
    }
    out
}

/// Follows a path of lookups from `base`; a segment that cannot be followed
/// is reported as a missing field of `template`.
pub fn lookup(base: &Json, segments: &[String], template: &str) -> (r: Result<Json, ContextError>)
    ensures
        result_view(r) == lookup_result(base@, segments@.map_values(|s: String| s@), template@),
{
    let ghost segs = segments@.map_values(|s: String| s@);
    let mut current = base.copy();
    let mut i: usize = 0;
    assert(segs.skip(0) =~= segs);
    while i < segments.len()
        invariant
            i <= segments@.len(),
            segs == segments@.map_values(|s: String| s@),
            walk(base@, segs) == walk(current@, segs.skip(i as int)),
        decreases segments.len() - i,
    {
        proof {
            assert(segs.skip(i as int)[0] == segments@[i as int]@);
            assert(segs.skip(i as int).drop_first() =~= segs.skip(i + 1));
        }
        match step_into_value(&current, segments[i].as_str()) {
            None => {
                return Err(
                    ContextError::MissingField {
                        template: String::from_str(template),
                        field: segments[i].clone(),
                    },
                );
            },
            Some(next) => {
                current = next;
            },
        }
        i = i + 1;
    }
    proof {
        assert(segs.skip(i as int).len() == 0);
    }
    Ok(current)
}

/// Renders a bound value as embeddable text: a string as it is, anything
/// else as its JSON text.
pub fn to_text(value: &Json) -> (r: String)
    ensures
        r@ == embed_text(value@),
{
    match value {
        Json::Str(s) => s.clone(),
        _ => json_to_text(value),
    }
}

/// A string without references resolves to itself, and a value with no
/// string in it (null, a boolean, a number) resolves to itself.
pub proof fn lemma_plain_values_resolve_to_themselves(ctx: ContextView, v: JsonView)
    requires
        match v {
            JsonView::Str(s) => templates_of(s).len() == 0,
            JsonView::Array(_) => false,
            JsonView::Object(_) => false,
            _ => true,
        },
    ensures
        resolved_value(ctx, v) == Ok::<JsonView, ContextErrorView>(v),
{
    if let JsonView::Str(s) = v {
        lemma_raw_templates_len(s, 0);
    }
}

} // verus!
