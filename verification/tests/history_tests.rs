use book_teacher::history::{estimate_message, HistoryError, HistoryManager};
use book_teacher::message::{Message, Role, ToolInvocation};

fn user(text: &str) -> Message {
    Message {
        role: Role::User,
        content: Some(text.to_string()),
        refusal: None,
        tool_calls: Vec::new(),
        tool_call_id: None,
    }
}

fn assistant_with_call(id: &str) -> Message {
    Message {
        role: Role::Assistant,
        content: None,
        refusal: None,
        tool_calls: vec![ToolInvocation {
            id: id.to_string(),
            name: "GetChapterContent".to_string(),
            arguments: "1.".to_string(),
        }],
        tool_call_id: None,
    }
}

fn tool_answer(id: &str) -> Message {
    Message {
        role: Role::Tool,
        content: Some("result".to_string()),
        refusal: None,
        tool_calls: Vec::new(),
        tool_call_id: Some(id.to_string()),
    }
}

#[test]
fn estimate_counts_fixed_cost_plus_text_lengths() {
    assert_eq!(estimate_message(&user("aaaa")), 8);
    assert_eq!(estimate_message(&assistant_with_call("c1")), 4 + 2 + 17 + 2);
    assert_eq!(estimate_message(&tool_answer("c1")), 4 + 6 + 2);
}

#[test]
fn load_keeps_most_recent_suffix_within_budget() {
    // Each message costs 4 plus its content length: "aaaa" -> 8.
    let stored = vec![user("aaaa"), user("bbbb"), user("cccc")];
    let h = HistoryManager::load(1, 2, "ctx".to_string(), stored, 20, None);
    let kept = h.messages();
    assert_eq!(kept.len(), 2);
    assert_eq!(kept[0].content, Some("bbbb".to_string()));
    assert_eq!(kept[1].content, Some("cccc".to_string()));
}

#[test]
fn load_drops_everything_when_nothing_fits() {
    let stored = vec![user("aaaa"), user("bbbb")];
    let h = HistoryManager::load(1, 2, "ctx".to_string(), stored, 3, None);
    assert_eq!(h.messages().len(), 0);
}

#[test]
fn load_seeds_context_when_nothing_is_stored() {
    let h = HistoryManager::load(1, 2, "welcome".to_string(), Vec::new(), 1000, None);
    let msgs = h.messages();
    assert_eq!(msgs.len(), 1);
    assert_eq!(msgs[0].role, Role::User);
    assert_eq!(msgs[0].content, Some("welcome".to_string()));
}

#[test]
fn round_trip_with_unbounded_budget_is_identity() {
    let stored = vec![user("one"), assistant_with_call("c1"), tool_answer("c1")];
    let mut h = HistoryManager::load(1, 2, "ctx".to_string(), stored, u64::MAX, Some(100));
    h.append(user("two")).unwrap();
    let persisted = h.messages();
    let reloaded = HistoryManager::load(1, 2, "ctx".to_string(), persisted, u64::MAX, Some(100));
    let a = h.messages();
    let b = reloaded.messages();
    assert_eq!(a.len(), b.len());
    for i in 0..a.len() {
        assert_eq!(a[i].role, b[i].role);
        assert_eq!(a[i].content, b[i].content);
        assert_eq!(a[i].tool_call_id, b[i].tool_call_id);
        assert_eq!(a[i].tool_calls.len(), b[i].tool_calls.len());
    }
}

#[test]
fn tool_message_must_answer_preceding_assistant() {
    let mut h = HistoryManager::load(1, 2, "ctx".to_string(), Vec::new(), u64::MAX, Some(100));
    h.append(assistant_with_call("c1")).unwrap();
    // Wrong id: rejected, log unchanged.
    assert_eq!(
        h.append(tool_answer("other")),
        Err(HistoryError::MismatchedToolResult)
    );
    let before = h.messages().len();
    // Matching id: accepted.
    assert!(h.append(tool_answer("c1")).is_ok());
    assert_eq!(h.messages().len(), before + 1);
}

#[test]
fn tool_message_without_id_is_rejected() {
    let mut h = HistoryManager::load(1, 2, "ctx".to_string(), Vec::new(), u64::MAX, Some(100));
    h.append(assistant_with_call("c1")).unwrap();
    let bad = Message {
        role: Role::Tool,
        content: Some("x".to_string()),
        refusal: None,
        tool_calls: Vec::new(),
        tool_call_id: None,
    };
    assert_eq!(h.append(bad), Err(HistoryError::MissingToolCallId));
}

#[test]
fn tool_message_after_another_tool_message_still_matches_assistant() {
    let mut h = HistoryManager::load(1, 2, "ctx".to_string(), Vec::new(), u64::MAX, Some(100));
    let mut a = assistant_with_call("c1");
    a.tool_calls.push(ToolInvocation {
        id: "c2".to_string(),
        name: "BookJump".to_string(),
        arguments: "1.".to_string(),
    });
    h.append(a).unwrap();
    assert!(h.append(tool_answer("c1")).is_ok());
    assert!(h.append(tool_answer("c2")).is_ok());
}

#[test]
fn auto_save_threshold_flushes_exactly_on_third_append() {
    let mut h = HistoryManager::load(1, 2, "ctx".to_string(), vec![user("old")], u64::MAX, Some(3));
    assert_eq!(h.append(user("one")).unwrap(), false);
    assert_eq!(h.append(user("two")).unwrap(), false);
    assert_eq!(h.append(user("three")).unwrap(), true);
    // The fourth append is retained in memory and waits for the next window.
    assert_eq!(h.append(user("four")).unwrap(), false);
    assert_eq!(h.messages().last().unwrap().content, Some("four".to_string()));
    assert_eq!(h.append(user("five")).unwrap(), false);
    assert_eq!(h.append(user("six")).unwrap(), true);
}

#[test]
fn absent_threshold_flushes_every_append() {
    let mut h = HistoryManager::load(1, 2, "ctx".to_string(), vec![user("old")], u64::MAX, None);
    assert_eq!(h.append(user("one")).unwrap(), true);
    assert_eq!(h.append(user("two")).unwrap(), true);
}
