use copilot_core::intent::{classify_intent, Intent};
use copilot_core::json::Json;
use copilot_core::models::SourceType;
use copilot_core::replies::{
    activity_summary, daily_briefing, help_text, list_workspaces_reply, question_reply, reasoning_text,
    resume_reply, search_query, search_reply, suggested_actions, utc_day_of, workspace_info_reply,
    TimelineEntry,
};

fn object(members: Vec<(&str, Json)>) -> Json {
    Json::Object(members.into_iter().map(|(k, v)| (k.to_string(), v)).collect())
}

fn text(s: &str) -> Json {
    Json::Str(s.to_string())
}

fn event(kind: &str, path: &str) -> Json {
    object(vec![("event_type", text(kind)), ("file_path", text(path))])
}

#[test]
fn search_query_keeps_long_words_that_are_not_commands() {
    assert_eq!(search_query("search for database migrations"), "database migrations");
    assert_eq!(search_query("find   the  auth   module"), "auth module");
    assert_eq!(search_query("show what"), "");
    assert_eq!(search_query("Search tokens"), "Search tokens");
}

#[test]
fn search_query_counts_bytes_not_characters() {
    // Two characters of two bytes each make a four-byte word, which is kept.
    assert_eq!(search_query("find \u{e9}\u{e9} ab"), "\u{e9}\u{e9}");
}

#[test]
fn intents_follow_the_rule_order() {
    assert_eq!(classify_intent("List my workspaces"), Intent::ListWorkspaces);
    assert_eq!(classify_intent("What workspace is this?"), Intent::GetWorkspaceInfo);
    assert_eq!(classify_intent("find the parser"), Intent::SearchHistory);
    assert_eq!(classify_intent("What did I do today"), Intent::SummarizeActivity);
    assert_eq!(classify_intent("why this?"), Intent::ExplainRecommendation);
    assert_eq!(classify_intent("let's continue"), Intent::ResumeWork);
    assert_eq!(classify_intent("how does it work"), Intent::AskQuestion);
    assert_eq!(classify_intent("hello"), Intent::Unknown);
}

#[test]
fn empty_workspace_list_invites_work() {
    let reply = list_workspaces_reply(&vec![]);
    assert_eq!(
        reply.content,
        "You don't have any workspaces yet. Start working in a project directory and I'll automatically detect it!"
    );
    let source = reply.source.expect("the workspace table is cited");
    assert_eq!(source.source_type, SourceType::WorkspaceFile);
    assert_eq!(source.title, "Workspace Database");
    assert_eq!(source.reference, "workspaces table");
    assert_eq!(source.relevance, 1000);
}

#[test]
fn workspace_list_numbers_the_first_ten_with_defaults() {
    let mut workspaces = vec![
        object(vec![("name", text("alpha")), ("status", text("active"))]),
        object(vec![("name", Json::Null)]),
    ];
    for i in 0..10 {
        workspaces.push(object(vec![("name", text(&format!("w{i}"))), ("status", text("idle"))]));
    }
    let reply = list_workspaces_reply(&workspaces);
    let mut expected = String::from("You have 12 workspace(s):\n\n1. alpha (active)\n2. Unknown (unknown)\n");
    for i in 0..8 {
        expected.push_str(&format!("{}. w{} (idle)\n", i + 3, i));
    }
    assert_eq!(reply.content, expected);
}

#[test]
fn workspace_info_needs_a_workspace() {
    let reply = workspace_info_reply(None, &Json::Null);
    assert_eq!(
        reply.content,
        "Please specify a workspace or let me know which workspace you're asking about."
    );
    assert!(reply.source.is_none());
}

#[test]
fn workspace_info_names_the_workspace() {
    let id = uuid::Uuid::parse_str("67e55044-10b1-426f-9247-bb680e5fe0c8").unwrap();
    let record = object(vec![("name", text("core")), ("status", text("paused"))]);
    let reply = workspace_info_reply(Some(id.as_u128()), &record);
    assert_eq!(
        reply.content,
        "Workspace 'core' is currently paused. Let me know if you'd like to resume work or see recent activity!"
    );
    let source = reply.source.unwrap();
    assert_eq!(source.title, "Workspace: core");
    assert_eq!(source.reference, "67e55044-10b1-426f-9247-bb680e5fe0c8");
    assert_eq!(source.relevance, 1000);
}

#[test]
fn search_reply_with_no_query_asks_for_one() {
    let reply = search_reply("", &vec![event("edit", "a.rs")]);
    assert_eq!(reply.content, "What would you like me to search for in your history?");
    assert!(reply.source.is_none());
}

#[test]
fn search_reply_without_events_says_so() {
    let reply = search_reply("parser", &vec![]);
    assert_eq!(reply.content, "I couldn't find any events matching 'parser'");
    assert!(reply.source.is_none());
}

#[test]
fn search_reply_lists_five_and_counts_the_rest() {
    let mut events = vec![object(vec![("event_type", text("edit"))])];
    for i in 0..6 {
        events.push(event("save", &format!("f{i}.rs")));
    }
    let reply = search_reply("parser", &events);
    assert_eq!(
        reply.content,
        "Found 7 events matching 'parser':\n\n1. edit: N/A\n2. save: f0.rs\n3. save: f1.rs\n4. save: f2.rs\n5. save: f3.rs\n\n...and 2 more."
    );
    let source = reply.source.unwrap();
    assert_eq!(source.source_type, SourceType::TimelineEvent);
    assert_eq!(source.title, "Timeline Events");
    assert_eq!(source.reference, "7 events found");
    assert_eq!(source.relevance, 900);
}

#[test]
fn search_reply_with_few_events_has_no_tail() {
    let reply = search_reply("auth", &vec![event("open", "auth.rs")]);
    assert_eq!(reply.content, "Found 1 events matching 'auth':\n\n1. open: auth.rs\n");
}

#[test]
fn activity_summary_of_nothing() {
    let reply = activity_summary(&vec![]);
    assert_eq!(reply.content, "No recent activity to summarize.");
    assert!(reply.source.is_none());
}

#[test]
fn activity_summary_counts_files_and_types() {
    let events = vec![
        event("edit", "a.rs"),
        event("save", "a.rs"),
        event("edit", "b.rs"),
        object(vec![("event_type", text("edit"))]),
        object(vec![("file_path", text("c.rs"))]),
    ];
    let reply = activity_summary(&events);
    assert_eq!(
        reply.content,
        "Recent activity summary (last 5 events):\n\n\u{2022} 3 unique files modified\n\u{2022} 3 edit events\n\u{2022} 1 save events\n"
    );
    let source = reply.source.unwrap();
    assert_eq!(source.title, "Recent Timeline Events");
    assert_eq!(source.reference, "5 events");
    assert_eq!(source.relevance, 1000);
}

#[test]
fn resume_reply_depends_on_the_loaded_session() {
    let id = uuid::Uuid::parse_str("67e55044-10b1-426f-9247-bb680e5fe0c8").unwrap().as_u128();
    assert_eq!(resume_reply(None, true).content, "Which workspace would you like to resume?");
    let loaded = resume_reply(Some(id), true);
    assert_eq!(
        loaded.content,
        "Ready to resume work in workspace 67e55044-10b1-426f-9247-bb680e5fe0c8! Your previous session context has been loaded."
    );
    let fresh = resume_reply(Some(id), false);
    assert_eq!(
        fresh.content,
        "Starting fresh in workspace 67e55044-10b1-426f-9247-bb680e5fe0c8. Let's get to work!"
    );
    let source = fresh.source.unwrap();
    assert_eq!(source.source_type, SourceType::SessionHistory);
    assert_eq!(source.reference, "67e55044-10b1-426f-9247-bb680e5fe0c8");
    assert_eq!(source.relevance, 900);
}

#[test]
fn question_reply_quotes_the_question() {
    let reply = question_reply("how do builds run?", None);
    assert_eq!(
        reply.content,
        "Regarding your question: \"how do builds run?\"\n\nI can help you explore your work history and patterns across all workspaces."
    );
    let source = reply.source.unwrap();
    assert_eq!(source.source_type, SourceType::ContextMemory);
    assert_eq!(source.reference, "reasoning_engine");
    assert_eq!(source.relevance, 700);
}

#[test]
fn reasoning_names_the_intent_and_step() {
    assert_eq!(
        reasoning_text(Intent::SearchHistory),
        "Intent classified as: SearchHistory \u{2192} Searching timeline history"
    );
    assert!(help_text().starts_with("I can help you with:\n- Listing and managing workspaces"));
}

#[test]
fn suggestions_depend_on_the_workspace() {
    let none = suggested_actions(None);
    assert_eq!(none.len(), 1);
    assert_eq!(none[0].tool_name, "list_workspaces");
    assert!(matches!(&none[0].arguments, Json::Object(m) if m.is_empty()));
    let id = uuid::Uuid::parse_str("67e55044-10b1-426f-9247-bb680e5fe0c8").unwrap().as_u128();
    let some = suggested_actions(Some(id));
    assert_eq!(some.len(), 2);
    assert_eq!(some[0].title, "View Recent Activity");
    assert_eq!(some[0].tool_name, "get_recent_events");
    match &some[0].arguments {
        Json::Object(m) => {
            assert_eq!(m.len(), 2);
            assert_eq!(m[0].0, "limit");
            assert!(matches!(&m[0].1, Json::Number(n) if n == "10"));
            assert_eq!(m[1].0, "workspace_id");
            assert!(matches!(&m[1].1, Json::Str(s) if s == "67e55044-10b1-426f-9247-bb680e5fe0c8"));
        }
        _ => panic!("arguments are an object"),
    }
    assert!(!some[0].requires_confirmation);
}

const DAY: i128 = 86_400_000_000_000;

#[test]
fn utc_days_round_down() {
    assert_eq!(utc_day_of(0), 0);
    assert_eq!(utc_day_of(DAY - 1), 0);
    assert_eq!(utc_day_of(DAY), 1);
    assert_eq!(utc_day_of(-1), -1);
    assert_eq!(utc_day_of(-DAY), -1);
    assert_eq!(utc_day_of(-DAY - 1), -2);
    assert_eq!(utc_day_of(i128::MIN), i128::MIN.div_euclid(DAY));
}

#[test]
fn briefing_counts_todays_events_and_files() {
    let now = 20_000 * DAY + 5_000;
    let events = vec![
        TimelineEntry { occurred_at: 20_000 * DAY + 1, file_id: Some(7) },
        TimelineEntry { occurred_at: 20_000 * DAY + 2, file_id: Some(7) },
        TimelineEntry { occurred_at: 20_000 * DAY + 3, file_id: Some(9) },
        TimelineEntry { occurred_at: 20_000 * DAY + 4, file_id: None },
        TimelineEntry { occurred_at: 19_999 * DAY + 4, file_id: Some(11) },
    ];
    let titles = vec!["a".to_string(), "b".to_string(), "c".to_string(), "d".to_string()];
    let briefing = daily_briefing(now, Some(1), &events, &titles);
    assert_eq!(briefing.date, now);
    assert_eq!(briefing.summary, "Today you've worked on 2 files with 4 events recorded.");
    assert_eq!(briefing.highlights, vec!["4 timeline events".to_string(), "2 files modified".to_string()]);
    assert!(briefing.pending_tasks.is_empty());
    assert_eq!(briefing.recommendations, vec!["a".to_string(), "b".to_string(), "c".to_string()]);
    assert_eq!(briefing.workspace_stats.active_workspaces, 1);
    assert_eq!(briefing.workspace_stats.files_modified, 2);
    assert_eq!(briefing.workspace_stats.time_tracked, 0);
    assert_eq!(briefing.workspace_stats.sessions_completed, 0);
}

#[test]
fn briefing_without_a_workspace_is_empty() {
    let events = vec![TimelineEntry { occurred_at: 5, file_id: Some(1) }];
    let briefing = daily_briefing(10, None, &events, &vec!["a".to_string()]);
    assert_eq!(briefing.summary, "No activity recorded today yet.");
    assert_eq!(briefing.highlights, vec!["0 timeline events".to_string(), "0 files modified".to_string()]);
    assert!(briefing.recommendations.is_empty());
}
