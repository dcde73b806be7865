//! Reading stored executions and steps back: the text columns of a stored
//! row decoded into the library's records, failing on the first column
//! that does not decode, in column order.

use vstd::prelude::*;
use crate::execution::{
    ExecutionStatus, ExecutionStep, PlanExecution, StepStatus, execution_status_of, step_status_of,
};
use crate::json::Json;
use crate::models::{Conversation, Message, MessageRole, Source, ToolCall, message_role_of};
use crate::json_text::push_str;
use crate::text::string_of;
use crate::ids::{instant, instant_of};

verus! {

/// A stored execution row: identifiers and times as text, steps as stored
/// integers.
pub struct ExecutionRow {
    pub id: String,
    pub plan_id: String,
    pub conversation_id: Option<String>,
    pub status: String,
    pub current_step: i64,
    pub total_steps: i64,
    pub started_at: Option<String>,
    pub completed_at: Option<String>,
    pub error: Option<String>,
    pub created_at: String,
    pub updated_at: String,
}

/// A stored step row. Its arguments are the stored JSON already read, or
/// none when the column is empty or does not hold JSON.
pub struct StepRow {
    pub id: String,
    pub execution_id: String,
    pub step_number: i64,
    pub description: String,
    pub tool_name: Option<String>,
    pub arguments: Option<Json>,
    pub status: String,
    pub result: Option<String>,
    pub error: Option<String>,
    pub started_at: Option<String>,
    pub completed_at: Option<String>,
    pub created_at: String,
}

/// What `uuid::Uuid::parse_str` gives for a text: the identifier's 128-bit
/// value, or the text of the parse error.
pub uninterp spec fn uuid_parse_result(s: Seq<char>) -> Result<u128, Seq<char>>;

/// What `chrono::DateTime::parse_from_rfc3339` gives for a text: the
/// time's whole seconds since the Unix epoch and its sub-second
/// nanoseconds, or the text of the parse error.
pub uninterp spec fn rfc3339_result(s: Seq<char>) -> Result<(i64, u32), Seq<char>>;

/// A stored time read from its text: nanoseconds since the Unix epoch, or
/// the text of the parse error.
pub open spec fn time_result(s: Seq<char>) -> Result<i128, Seq<char>> {
    match rfc3339_result(s) {
        Ok((secs, nanos)) => Ok(instant(secs, nanos)),
        Err(e) => Err(e),
    }
}

/// Reads an identifier: `uuid::Uuid::parse_str`, the value taken as its
/// 128-bit number and the error by its `to_string`. The outcome is named
/// [`uuid_parse_result`] of the text; which texts parse is not stated.
#[verifier::external_body]
fn parse_uuid(s: &str) -> (r: Result<u128, String>)
    ensures
        match r {
            Ok(v) => uuid_parse_result(s@) == Ok::<u128, Seq<char>>(v),
            Err(e) => uuid_parse_result(s@) == Err::<u128, Seq<char>>(e@),
        },
{
    match uuid::Uuid::parse_str(s) {
        Ok(u) => Ok(u.as_u128()),
        Err(e) => Err(e.to_string()),
    }
}

/// Reads a time: `chrono::DateTime::parse_from_rfc3339`, the value taken as
/// its `timestamp()` and `timestamp_subsec_nanos()` and the error by its
/// `to_string`. The outcome is named [`rfc3339_result`] of the text; which
/// texts parse is not stated.
#[verifier::external_body]
fn parse_rfc3339(s: &str) -> (r: Result<(i64, u32), String>)
    ensures
        match r {
            Ok(v) => rfc3339_result(s@) == Ok::<(i64, u32), Seq<char>>(v),
            Err(e) => rfc3339_result(s@) == Err::<(i64, u32), Seq<char>>(e@),
        },
{
    match chrono::DateTime::parse_from_rfc3339(s) {
        Ok(dt) => Ok((dt.timestamp(), dt.timestamp_subsec_nanos())),
        Err(e) => Err(e.to_string()),
    }
}

/// Reads a stored time, in nanoseconds since the Unix epoch.
pub fn parse_time(s: &str) -> (r: Result<i128, String>)
    ensures
        match r {
            Ok(v) => time_result(s@) == Ok::<i128, Seq<char>>(v),
            Err(e) => time_result(s@) == Err::<i128, Seq<char>>(e@),
        },
{
    match parse_rfc3339(s) {
        Ok((secs, nanos)) => Ok(instant_of(secs, nanos)),
        Err(e) => Err(e),
    }
}

/// An optional identifier column.
pub open spec fn opt_uuid_result(o: Option<String>) -> Result<Option<u128>, Seq<char>> {
    match o {
        None => Ok(None),
        Some(s) => match uuid_parse_result(s@) {
            Ok(v) => Ok(Some(v)),
            Err(e) => Err(e),
        },
    }
}

/// An optional time column.
pub open spec fn opt_time_result(o: Option<String>) -> Result<Option<i128>, Seq<char>> {
    match o {
        None => Ok(None),
        Some(s) => match time_result(s@) {
            Ok(v) => Ok(Some(v)),
            Err(e) => Err(e),
        },
    }
}

/// An execution status column.
pub open spec fn execution_status_result(s: Seq<char>) -> Result<ExecutionStatus, Seq<char>> {
    match execution_status_of(s) {
        Some(x) => Ok(x),
        None => Err("Unknown execution status: "@ + s),
    }
}

/// A step status column.
pub open spec fn step_status_result(s: Seq<char>) -> Result<StepStatus, Seq<char>> {
    match step_status_of(s) {
        Some(x) => Ok(x),
        None => Err("Unknown step status: "@ + s),
    }
}

/// Reads an optional identifier column.
fn read_opt_uuid(o: &Option<String>) -> (r: Result<Option<u128>, String>)
    ensures
        match r {
            Ok(v) => opt_uuid_result(*o) == Ok::<Option<u128>, Seq<char>>(v),
            Err(e) => opt_uuid_result(*o) == Err::<Option<u128>, Seq<char>>(e@),
        },
{
    match o {
        None => Ok(None),
        Some(s) => match parse_uuid(s.as_str()) {
            Ok(v) => Ok(Some(v)),
            Err(e) => Err(e),
        },
    }
}

/// Reads an optional time column.
fn read_opt_time(o: &Option<String>) -> (r: Result<Option<i128>, String>)
    ensures
        match r {
            Ok(v) => opt_time_result(*o) == Ok::<Option<i128>, Seq<char>>(v),
            Err(e) => opt_time_result(*o) == Err::<Option<i128>, Seq<char>>(e@),
        },
{
    match o {
        None => Ok(None),
        Some(s) => match parse_time(s.as_str()) {
            Ok(v) => Ok(Some(v)),
            Err(e) => Err(e),
        },
    }
}

/// Reads an execution status column; an unknown text is an error naming
/// it.
pub fn parse_execution_status(s: &str) -> (r: Result<ExecutionStatus, String>)
    ensures
        match r {
            Ok(x) => execution_status_result(s@) == Ok::<ExecutionStatus, Seq<char>>(x),
            Err(e) => execution_status_result(s@) == Err::<ExecutionStatus, Seq<char>>(e@),
        },
{
    match ExecutionStatus::parse(s) {
        Some(x) => Ok(x),
        None => {
            let mut out: Vec<char> = Vec::new();
            push_str(&mut out, "Unknown execution status: ");
            push_str(&mut out, s);
            Err(string_of(out.as_slice()))
        },
    }
}

/// Reads a step status column; an unknown text is an error naming it.
pub fn parse_step_status(s: &str) -> (r: Result<StepStatus, String>)
    ensures
        match r {
            Ok(x) => step_status_result(s@) == Ok::<StepStatus, Seq<char>>(x),
            Err(e) => step_status_result(s@) == Err::<StepStatus, Seq<char>>(e@),
        },
{
    match StepStatus::parse(s) {
        Some(x) => Ok(x),
        None => {
            let mut out: Vec<char> = Vec::new();
            push_str(&mut out, "Unknown step status: ");
            push_str(&mut out, s);
            Err(string_of(out.as_slice()))
        },
    }
}

/// The execution a row decodes to, or the error of its first column that
/// does not decode. Stored step counters are taken as `usize` (`as`).
pub open spec fn decoded_execution(row: ExecutionRow) -> Result<PlanExecution, Seq<char>> {
    match uuid_parse_result(row.id@) {
        Err(e) => Err(e),
        Ok(id) => match uuid_parse_result(row.plan_id@) {
            Err(e) => Err(e),
            Ok(plan_id) => match opt_uuid_result(row.conversation_id) {
                Err(e) => Err(e),
                Ok(conversation_id) => match execution_status_result(row.status@) {
                    Err(e) => Err(e),
                    Ok(status) => match opt_time_result(row.started_at) {
                        Err(e) => Err(e),
                        Ok(started_at) => match opt_time_result(row.completed_at) {
                            Err(e) => Err(e),
                            Ok(completed_at) => match time_result(row.created_at@) {
                                Err(e) => Err(e),
                                Ok(created_at) => match time_result(row.updated_at@) {
                                    Err(e) => Err(e),
                                    Ok(updated_at) => Ok(
                                        PlanExecution {
                                            id,
                                            plan_id,
                                            conversation_id,
                                            status,
                                            current_step: row.current_step as usize,
                                            total_steps: row.total_steps as usize,
                                            started_at,
                                            completed_at,
                                            error: row.error,
                                            created_at,
                                            updated_at,
                                        },
                                    ),
                                },
                            },
                        },
                    },
                },
            },
        },
    }
}

/// Decodes a stored execution row (see [`decoded_execution`]).
pub fn execution_from_row(row: ExecutionRow) -> (r: Result<PlanExecution, String>)
    ensures
        match r {
            Ok(x) => decoded_execution(row) == Ok::<PlanExecution, Seq<char>>(x),
            Err(e) => decoded_execution(row) == Err::<PlanExecution, Seq<char>>(e@),
        },
{
    let id = match parse_uuid(row.id.as_str()) {
        Ok(v) => v,
        Err(e) => return Err(e),
    };
    let plan_id = match parse_uuid(row.plan_id.as_str()) {
        Ok(v) => v,
        Err(e) => return Err(e),
    };
    let conversation_id = match read_opt_uuid(&row.conversation_id) {
        Ok(v) => v,
        Err(e) => return Err(e),
    };
    let status = match parse_execution_status(row.status.as_str()) {
        Ok(v) => v,
        Err(e) => return Err(e),
    };
    let started_at = match read_opt_time(&row.started_at) {
        Ok(v) => v,
        Err(e) => return Err(e),
    };
    let completed_at = match read_opt_time(&row.completed_at) {
        Ok(v) => v,
        Err(e) => return Err(e),
    };
    let created_at = match parse_time(row.created_at.as_str()) {
        Ok(v) => v,
        Err(e) => return Err(e),
    };
    let updated_at = match parse_time(row.updated_at.as_str()) {
        Ok(v) => v,
        Err(e) => return Err(e),
    };
    Ok(
        PlanExecution {
            id,
            plan_id,
            conversation_id,
            status,
            current_step: row.current_step as usize,
            total_steps: row.total_steps as usize,
            started_at,
            completed_at,
            error: row.error,
            created_at,
            updated_at,
        },
    )
}

/// The step a row decodes to, or the error of its first column that does
/// not decode. The stored step number is taken as `usize` (`as`).
pub open spec fn decoded_step(row: StepRow) -> Result<ExecutionStep, Seq<char>> {
    match uuid_parse_result(row.id@) {
        Err(e) => Err(e),
        Ok(id) => match uuid_parse_result(row.execution_id@) {
            Err(e) => Err(e),
            Ok(execution_id) => match step_status_result(row.status@) {
                Err(e) => Err(e),
                Ok(status) => match opt_time_result(row.started_at) {
                    Err(e) => Err(e),
                    Ok(started_at) => match opt_time_result(row.completed_at) {
                        Err(e) => Err(e),
                        Ok(completed_at) => match time_result(row.created_at@) {
                            Err(e) => Err(e),
                            Ok(created_at) => Ok(
                                ExecutionStep {
                                    id,
                                    execution_id,
                                    step_number: row.step_number as usize,
                                    description: row.description,
                                    tool_name: row.tool_name,
                                    arguments: row.arguments,
                                    status,
                                    result: row.result,
                                    error: row.error,
                                    started_at,
                                    completed_at,
                                    created_at,
                                },
                            ),
                        },
                    },
                },
            },
        },
    }
}

/// Decodes a stored step row (see [`decoded_step`]).
pub fn step_from_row(row: StepRow) -> (r: Result<ExecutionStep, String>)
    ensures
        match r {
            Ok(x) => decoded_step(row) == Ok::<ExecutionStep, Seq<char>>(x),
            Err(e) => decoded_step(row) == Err::<ExecutionStep, Seq<char>>(e@),
        },
{
    let id = match parse_uuid(row.id.as_str()) {
        Ok(v) => v,
        Err(e) => return Err(e),
    };
    let execution_id = match parse_uuid(row.execution_id.as_str()) {
        Ok(v) => v,
        Err(e) => return Err(e),
    };
    let status = match parse_step_status(row.status.as_str()) {
        Ok(v) => v,
        Err(e) => return Err(e),
    };
    let started_at = match read_opt_time(&row.started_at) {
        Ok(v) => v,
        Err(e) => return Err(e),
    };
    let completed_at = match read_opt_time(&row.completed_at) {
        Ok(v) => v,
        Err(e) => return Err(e),
    };
    let created_at = match parse_time(row.created_at.as_str()) {
        Ok(v) => v,
        Err(e) => return Err(e),
    };
    Ok(
        ExecutionStep {
            id,
            execution_id,
            step_number: row.step_number as usize,
            description: row.description,
            tool_name: row.tool_name,
            arguments: row.arguments,
            status,
            result: row.result,
            error: row.error,
            started_at,
            completed_at,
            created_at,
        },
    )
}

/// The steps that rows decode to, in order, or the error of the first
/// row that does not decode.
pub open spec fn decoded_steps(rows: Seq<StepRow>) -> Result<Seq<ExecutionStep>, Seq<char>>
    decreases rows.len(),
{
    if rows.len() == 0 {
        Ok(Seq::empty())
    } else {
        match decoded_steps(rows.drop_last()) {
            Err(e) => Err(e),
            Ok(prefix) => match decoded_step(rows.last()) {
                Err(e) => Err(e),
                Ok(x) => Ok(prefix.push(x)),
            },
        }
    }
}

/// An error in a prefix of the rows is the error of all of them.
proof fn lemma_steps_error_persists(rows: Seq<StepRow>, j: int, e: Seq<char>)
    requires
        0 <= j <= rows.len(),
        decoded_steps(rows.take(j)) == Err::<Seq<ExecutionStep>, Seq<char>>(e),
    ensures
        decoded_steps(rows) == Err::<Seq<ExecutionStep>, Seq<char>>(e),
    decreases rows.len() - j,
{
    if j < rows.len() {
        assert(rows.take(j + 1).drop_last() =~= rows.take(j));
        lemma_steps_error_persists(rows, j + 1, e);
    } else {
        assert(rows.take(j) =~= rows);
    }
}

/// Decodes stored rows in order, stopping at the first that does not
/// decode (see [`decoded_steps`]).
pub fn steps_from_rows(rows: Vec<StepRow>) -> (r: Result<Vec<ExecutionStep>, String>)
    ensures
        match r {
            Ok(xs) => decoded_steps(rows@) == Ok::<Seq<ExecutionStep>, Seq<char>>(xs@),
            Err(e) => decoded_steps(rows@) == Err::<Seq<ExecutionStep>, Seq<char>>(e@),
        },
{
    let ghost all = rows@;
    let total = rows.len();
    let mut rest = rows;
    let mut out: Vec<ExecutionStep> = Vec::new();
    let mut k: usize = 0;
    proof {
        assert(all.take(0) =~= Seq::<StepRow>::empty());
        assert(rest@ =~= all.skip(0));
    }
    while rest.len() > 0
        invariant
            k + rest@.len() == all.len(),
            all.len() == total,
            all == rows@,
            rest@ == all.skip(k as int),
            decoded_steps(all.take(k as int)) == Ok::<Seq<ExecutionStep>, Seq<char>>(out@),
        decreases rest@.len(),
    {
        let row = rest.remove(0);
        proof {
            assert(row == all[k as int]);
            assert(rest@ =~= all.skip(k + 1));
            assert(all.take(k + 1).drop_last() =~= all.take(k as int));
            assert(all.take(k + 1).last() == row);
        }
        match step_from_row(row) {
            Ok(x) => {
                out.push(x);
            },
            Err(e) => {
                proof {
                    assert(decoded_steps(all.take(k + 1)) == Err::<Seq<ExecutionStep>, Seq<char>>(e@));
                    lemma_steps_error_persists(all, k + 1, e@);
                }
                return Err(e);
            },
        }
        k = k + 1;
    }
    proof {
        assert(all.take(k as int) =~= all);
    }
    Ok(out)
}

/// The executions that rows decode to, in order, or the error of the first
/// row that does not decode.
pub open spec fn decoded_executions(rows: Seq<ExecutionRow>) -> Result<Seq<PlanExecution>, Seq<char>>
    decreases rows.len(),
{
    if rows.len() == 0 {
        Ok(Seq::empty())
    } else {
        match decoded_executions(rows.drop_last()) {
            Err(e) => Err(e),
            Ok(prefix) => match decoded_execution(rows.last()) {
                Err(e) => Err(e),
                Ok(x) => Ok(prefix.push(x)),
            },
        }
    }
}

/// An error in a prefix of the rows is the error of all of them.
proof fn lemma_executions_error_persists(rows: Seq<ExecutionRow>, j: int, e: Seq<char>)
    requires
        0 <= j <= rows.len(),
        decoded_executions(rows.take(j)) == Err::<Seq<PlanExecution>, Seq<char>>(e),
    ensures
        decoded_executions(rows) == Err::<Seq<PlanExecution>, Seq<char>>(e),
    decreases rows.len() - j,
{
    if j < rows.len() {
        assert(rows.take(j + 1).drop_last() =~= rows.take(j));
        lemma_executions_error_persists(rows, j + 1, e);
    } else {
        assert(rows.take(j) =~= rows);
    }
}

/// Decodes stored rows in order, stopping at the first that does not
/// decode (see [`decoded_executions`]).
pub fn executions_from_rows(rows: Vec<ExecutionRow>) -> (r: Result<Vec<PlanExecution>, String>)
    ensures
        match r {
            Ok(xs) => decoded_executions(rows@) == Ok::<Seq<PlanExecution>, Seq<char>>(xs@),
            Err(e) => decoded_executions(rows@) == Err::<Seq<PlanExecution>, Seq<char>>(e@),
        },
{
    let ghost all = rows@;
    let total = rows.len();
    let mut rest = rows;
    let mut out: Vec<PlanExecution> = Vec::new();
    let mut k: usize = 0;
    proof {
        assert(all.take(0) =~= Seq::<ExecutionRow>::empty());
        assert(rest@ =~= all.skip(0));
    }
    while rest.len() > 0
        invariant
            k + rest@.len() == all.len(),
            all.len() == total,
            all == rows@,
            rest@ == all.skip(k as int),
            decoded_executions(all.take(k as int)) == Ok::<Seq<PlanExecution>, Seq<char>>(out@),
        decreases rest@.len(),
    {
        let row = rest.remove(0);
        proof {
            assert(row == all[k as int]);
            assert(rest@ =~= all.skip(k + 1));
            assert(all.take(k + 1).drop_last() =~= all.take(k as int));
            assert(all.take(k + 1).last() == row);
        }
        match execution_from_row(row) {
            Ok(x) => {
                out.push(x);
            },
            Err(e) => {
                proof {
                    assert(decoded_executions(all.take(k + 1)) == Err::<Seq<PlanExecution>, Seq<char>>(e@));
                    lemma_executions_error_persists(all, k + 1, e@);
                }
                return Err(e);
            },
        }
        k = k + 1;
    }
    proof {
        assert(all.take(k as int) =~= all);
    }
    Ok(out)
}

/// A stored conversation row.
pub struct ConversationRow {
    pub id: String,
    pub workspace_id: Option<String>,
    pub title: String,
    pub created_at: String,
    pub updated_at: String,
    pub message_count: i32,
}

/// A stored message row. Its tool calls and sources are the stored JSON
/// already read, or none when the column is empty or does not hold them.
pub struct MessageRow {
    pub id: String,
    pub conversation_id: String,
    pub role: String,
    pub content: String,
    pub tool_calls: Option<Vec<ToolCall>>,
    pub reasoning: Option<String>,
    pub sources: Option<Vec<Source>>,
    pub created_at: String,
}

/// The conversation a row decodes to, or the error of its first column
/// that does not decode.
pub open spec fn decoded_conversation(row: ConversationRow) -> Result<Conversation, Seq<char>> {
    match uuid_parse_result(row.id@) {
        Err(e) => Err(e),
        Ok(id) => match opt_uuid_result(row.workspace_id) {
            Err(e) => Err(e),
            Ok(workspace_id) => match time_result(row.created_at@) {
                Err(e) => Err(e),
                Ok(created_at) => match time_result(row.updated_at@) {
                    Err(e) => Err(e),
                    Ok(updated_at) => Ok(
                        Conversation {
                            id,
                            workspace_id,
                            title: row.title,
                            created_at,
                            updated_at,
                            message_count: row.message_count,
                        },
                    ),
                },
            },
        },
    }
}

/// Decodes a stored conversation row (see [`decoded_conversation`]).
pub fn conversation_from_row(row: ConversationRow) -> (r: Result<Conversation, String>)
    ensures
        match r {
            Ok(x) => decoded_conversation(row) == Ok::<Conversation, Seq<char>>(x),
            Err(e) => decoded_conversation(row) == Err::<Conversation, Seq<char>>(e@),
        },
{
    let id = match parse_uuid(row.id.as_str()) {
        Ok(v) => v,
        Err(e) => return Err(e),
    };
    let workspace_id = match read_opt_uuid(&row.workspace_id) {
        Ok(v) => v,
        Err(e) => return Err(e),
    };
    let created_at = match parse_time(row.created_at.as_str()) {
        Ok(v) => v,
        Err(e) => return Err(e),
    };
    let updated_at = match parse_time(row.updated_at.as_str()) {
        Ok(v) => v,
        Err(e) => return Err(e),
    };
    Ok(Conversation { id, workspace_id, title: row.title, created_at, updated_at, message_count: row.message_count })
}

/// A message role column; an unknown text is an error naming it.
pub open spec fn role_result(s: Seq<char>) -> Result<MessageRole, Seq<char>> {
    match message_role_of(s) {
        Some(x) => Ok(x),
        None => Err("Invalid role: "@ + s),
    }
}

/// The message a row decodes to, or the error of its first column that
/// does not decode.
pub open spec fn decoded_message(row: MessageRow) -> Result<Message, Seq<char>> {
    match uuid_parse_result(row.id@) {
        Err(e) => Err(e),
        Ok(id) => match uuid_parse_result(row.conversation_id@) {
            Err(e) => Err(e),
            Ok(conversation_id) => match role_result(row.role@) {
                Err(e) => Err(e),
                Ok(role) => match time_result(row.created_at@) {
                    Err(e) => Err(e),
                    Ok(created_at) => Ok(
                        Message {
                            id,
                            conversation_id,
                            role,
                            content: row.content,
                            tool_calls: row.tool_calls,
                            reasoning: row.reasoning,
                            sources: row.sources,
                            created_at,
                        },
                    ),
                },
            },
        },
    }
}

/// Decodes a stored message row (see [`decoded_message`]).
pub fn message_from_row(row: MessageRow) -> (r: Result<Message, String>)
    ensures
        match r {
            Ok(x) => decoded_message(row) == Ok::<Message, Seq<char>>(x),
            Err(e) => decoded_message(row) == Err::<Message, Seq<char>>(e@),
        },
{
    let id = match parse_uuid(row.id.as_str()) {
        Ok(v) => v,
        Err(e) => return Err(e),
    };
    let conversation_id = match parse_uuid(row.conversation_id.as_str()) {
        Ok(v) => v,
        Err(e) => return Err(e),
    };
    let role = match MessageRole::parse(row.role.as_str()) {
        Some(x) => x,
        None => {
            let mut out: Vec<char> = Vec::new();
            push_str(&mut out, "Invalid role: ");
            push_str(&mut out, row.role.as_str());
            return Err(string_of(out.as_slice()));
        },
    };
    let created_at = match parse_time(row.created_at.as_str()) {
        Ok(v) => v,
        Err(e) => return Err(e),
    };
    Ok(
        Message {
            id,
            conversation_id,
            role,
            content: row.content,
            tool_calls: row.tool_calls,
            reasoning: row.reasoning,
            sources: row.sources,
            created_at,
        },
    )
}

/// The conversations that rows decode to, in order, or the error of the first
/// row that does not decode.
pub open spec fn decoded_conversations(rows: Seq<ConversationRow>) -> Result<Seq<Conversation>, Seq<char>>
    decreases rows.len(),
{
    if rows.len() == 0 {
        Ok(Seq::empty())
    } else {
        match decoded_conversations(rows.drop_last()) {
            Err(e) => Err(e),
            Ok(prefix) => match decoded_conversation(rows.last()) {
                Err(e) => Err(e),
                Ok(x) => Ok(prefix.push(x)),
            },
        }
    }
}

/// An error in a prefix of the rows is the error of all of them.
proof fn lemma_conversations_error_persists(rows: Seq<ConversationRow>, j: int, e: Seq<char>)
    requires
        0 <= j <= rows.len(),
        decoded_conversations(rows.take(j)) == Err::<Seq<Conversation>, Seq<char>>(e),
    ensures
        decoded_conversations(rows) == Err::<Seq<Conversation>, Seq<char>>(e),
    decreases rows.len() - j,
{
    if j < rows.len() {
        assert(rows.take(j + 1).drop_last() =~= rows.take(j));
        lemma_conversations_error_persists(rows, j + 1, e);
    } else {
        assert(rows.take(j) =~= rows);
    }
}

/// Decodes stored rows in order, stopping at the first that does not
/// decode (see [`decoded_conversations`]).
pub fn conversations_from_rows(rows: Vec<ConversationRow>) -> (r: Result<Vec<Conversation>, String>)
    ensures
        match r {
            Ok(xs) => decoded_conversations(rows@) == Ok::<Seq<Conversation>, Seq<char>>(xs@),
            Err(e) => decoded_conversations(rows@) == Err::<Seq<Conversation>, Seq<char>>(e@),
        },
{
    let ghost all = rows@;
    let total = rows.len();
    let mut rest = rows;
    let mut out: Vec<Conversation> = Vec::new();
    let mut k: usize = 0;
    proof {
        assert(all.take(0) =~= Seq::<ConversationRow>::empty());
        assert(rest@ =~= all.skip(0));
    }
    while rest.len() > 0
        invariant
            k + rest@.len() == all.len(),
            all.len() == total,
            all == rows@,
            rest@ == all.skip(k as int),
            decoded_conversations(all.take(k as int)) == Ok::<Seq<Conversation>, Seq<char>>(out@),
        decreases rest@.len(),
    {
        let row = rest.remove(0);
        proof {
            assert(row == all[k as int]);
            assert(rest@ =~= all.skip(k + 1));
            assert(all.take(k + 1).drop_last() =~= all.take(k as int));
            assert(all.take(k + 1).last() == row);
        }
        match conversation_from_row(row) {
            Ok(x) => {
                out.push(x);
            },
            Err(e) => {
                proof {
                    assert(decoded_conversations(all.take(k + 1)) == Err::<Seq<Conversation>, Seq<char>>(e@));
                    lemma_conversations_error_persists(all, k + 1, e@);
                }
                return Err(e);
            },
        }
        k = k + 1;
    }
    proof {
        assert(all.take(k as int) =~= all);
    }
    Ok(out)
}

/// The messages that rows decode to, in order, or the error of the first
/// row that does not decode.
pub open spec fn decoded_messages(rows: Seq<MessageRow>) -> Result<Seq<Message>, Seq<char>>
    decreases rows.len(),
{
    if rows.len() == 0 {
        Ok(Seq::empty())
    } else {
        match decoded_messages(rows.drop_last()) {
            Err(e) => Err(e),
            Ok(prefix) => match decoded_message(rows.last()) {
                Err(e) => Err(e),
                Ok(x) => Ok(prefix.push(x)),
            },
        }
    }
}

/// An error in a prefix of the rows is the error of all of them.
proof fn lemma_messages_error_persists(rows: Seq<MessageRow>, j: int, e: Seq<char>)
    requires
        0 <= j <= rows.len(),
        decoded_messages(rows.take(j)) == Err::<Seq<Message>, Seq<char>>(e),
    ensures
        decoded_messages(rows) == Err::<Seq<Message>, Seq<char>>(e),
    decreases rows.len() - j,
{
    if j < rows.len() {
        assert(rows.take(j + 1).drop_last() =~= rows.take(j));
        lemma_messages_error_persists(rows, j + 1, e);
    } else {
        assert(rows.take(j) =~= rows);
    }
}

/// Decodes stored rows in order, stopping at the first that does not
/// decode (see [`decoded_messages`]).
pub fn messages_from_rows(rows: Vec<MessageRow>) -> (r: Result<Vec<Message>, String>)
    ensures
        match r {
            Ok(xs) => decoded_messages(rows@) == Ok::<Seq<Message>, Seq<char>>(xs@),
            Err(e) => decoded_messages(rows@) == Err::<Seq<Message>, Seq<char>>(e@),
        },
{
    let ghost all = rows@;
    let total = rows.len();
    let mut rest = rows;
    let mut out: Vec<Message> = Vec::new();
    let mut k: usize = 0;
    proof {
        assert(all.take(0) =~= Seq::<MessageRow>::empty());
        assert(rest@ =~= all.skip(0));
    }
    while rest.len() > 0
        invariant
            k + rest@.len() == all.len(),
            all.len() == total,
            all == rows@,
            rest@ == all.skip(k as int),
            decoded_messages(all.take(k as int)) == Ok::<Seq<Message>, Seq<char>>(out@),
        decreases rest@.len(),
    {
        let row = rest.remove(0);
        proof {
            assert(row == all[k as int]);
            assert(rest@ =~= all.skip(k + 1));
            assert(all.take(k + 1).drop_last() =~= all.take(k as int));
            assert(all.take(k + 1).last() == row);
        }
        match message_from_row(row) {
            Ok(x) => {
                out.push(x);
            },
            Err(e) => {
                proof {
                    assert(decoded_messages(all.take(k + 1)) == Err::<Seq<Message>, Seq<char>>(e@));
                    lemma_messages_error_persists(all, k + 1, e@);
                }
                return Err(e);
            },
        }
        k = k + 1;
    }
    proof {
        assert(all.take(k as int) =~= all);
    }
    Ok(out)
}

} // verus!
