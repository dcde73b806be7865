//! What a chat message asks the copilot for, read from its words.

use vstd::prelude::*;
use crate::chars::{contains_text, text_contains};
use crate::memory::{lowercase, to_lowercase};
use crate::scheduler::{starts_with, text_starts_with};

verus! {

/// What a message asks for.
#[derive(Debug, Clone, Copy, PartialEq, Eq, Structural)]
pub enum Intent {
    ListWorkspaces,
    GetWorkspaceInfo,
    SearchHistory,
    SummarizeActivity,
    ExplainRecommendation,
    ResumeWork,
    AskQuestion,
    Unknown,
}

/// The intent of a lower-cased message: the first rule that its words
/// match, in the order listed.
pub open spec fn intent_of(m: Seq<char>) -> Intent {
    if contains_text(m, "list"@) && contains_text(m, "workspace"@) {
        Intent::ListWorkspaces
    } else if contains_text(m, "what"@) && contains_text(m, "workspace"@) {
        Intent::GetWorkspaceInfo
    } else if contains_text(m, "search"@) || contains_text(m, "find"@) {
        Intent::SearchHistory
    } else if contains_text(m, "summarize"@) || contains_text(m, "summary"@) || contains_text(m, "what did i"@) {
        Intent::SummarizeActivity
    } else if contains_text(m, "why"@) || contains_text(m, "explain"@) {
        Intent::ExplainRecommendation
    } else if contains_text(m, "resume"@) || contains_text(m, "continue"@) || contains_text(m, "back to"@) {
        Intent::ResumeWork
    } else if starts_with(m, "what"@) || starts_with(m, "how"@) || starts_with(m, "when"@) || starts_with(
        m,
        "where"@,
    ) {
        Intent::AskQuestion
    } else {
        Intent::Unknown
    }
}

/// Classifies a message by the words of its lower-cased text.
pub fn classify_intent(message: &str) -> (r: Intent)
    ensures
        r == intent_of(lowercase(message@)),
{
    let lower = to_lowercase(message);
    let m = lower.as_str();
    if text_contains(m, "list") && text_contains(m, "workspace") {
        Intent::ListWorkspaces
    } else if text_contains(m, "what") && text_contains(m, "workspace") {
        Intent::GetWorkspaceInfo
    } else if text_contains(m, "search") || text_contains(m, "find") {
        Intent::SearchHistory
    } else if text_contains(m, "summarize") || text_contains(m, "summary") || text_contains(m, "what did i") {
        Intent::SummarizeActivity
    } else if text_contains(m, "why") || text_contains(m, "explain") {
        Intent::ExplainRecommendation
    } else if text_contains(m, "resume") || text_contains(m, "continue") || text_contains(m, "back to") {
        Intent::ResumeWork
    } else if text_starts_with(m, "what") || text_starts_with(m, "how") || text_starts_with(m, "when")
        || text_starts_with(m, "where") {
        Intent::AskQuestion
    } else {
        Intent::Unknown
    }
}

} // verus!
