use book_teacher::chapter::{Chapter, ChapterNumber, ChapterPlan};
use book_teacher::message::Role;
use book_teacher::stream::{Fragment, StreamAssembler, ToolCallDelta};
use book_teacher::teacher::{fragment_events, AgentSettings, ResponseEvent, TeacherAgent};
use book_teacher::tools::{Book, Library};

fn small_library() -> Library {
    Library {
        books: vec![(
            1,
            Book {
                chapters: vec![Chapter {
                    name: "One".to_string(),
                    number: ChapterNumber(vec![1, 2]),
                    path: None,
                    content: "first text".to_string(),
                    chapter_plan: ChapterPlan {
                        plan: "plan".to_string(),
                        summary: "summary".to_string(),
                    },
                }],
            },
        )],
    }
}

fn agent() -> TeacherAgent {
    TeacherAgent::new(
        7,
        1,
        AgentSettings {
            ai_model: "test-model".to_string(),
            token_budget: 100000,
            auto_save: Some(100),
        },
        "You teach from this book.".to_string(),
        Vec::new(),
        small_library(),
    )
}

fn text_fragment(s: &str) -> Fragment {
    Fragment {
        content: Some(s.to_string()),
        refusal: None,
        tool_calls: Vec::new(),
    }
}

#[test]
fn plain_answer_emits_content_and_appends_two_messages() {
    let mut a = agent();
    let before = a.messages.messages().len();
    a.begin_input("Hi".to_string());

    let f = text_fragment("Hello!");
    let events = fragment_events(&f);
    assert_eq!(events.len(), 1);
    assert!(matches!(&events[0], ResponseEvent::Content(c) if c == "Hello!"));

    let mut assembler = StreamAssembler::new();
    assembler.process_fragment(&f);
    let step = a.apply_turn(assembler.finalize());
    assert!(step.finished);
    assert_eq!(step.events.len(), 0);

    let msgs = a.messages.messages();
    assert_eq!(msgs.len(), before + 2);
    assert_eq!(msgs[msgs.len() - 2].role, Role::User);
    assert_eq!(msgs[msgs.len() - 2].content, Some("Hi".to_string()));
    assert_eq!(msgs[msgs.len() - 1].role, Role::Assistant);
    assert_eq!(msgs[msgs.len() - 1].content, Some("Hello!".to_string()));
}

#[test]
fn tool_round_dispatches_and_appends_results_in_order() {
    let mut a = agent();
    a.begin_input("Teach chapter 1.2".to_string());

    let mut assembler = StreamAssembler::new();
    assembler.process_fragment(&Fragment {
        content: None,
        refusal: None,
        tool_calls: vec![ToolCallDelta {
            index: 0,
            id: Some("c1".to_string()),
            name: Some("GetChapterContent".to_string()),
            arguments: Some("1.".to_string()),
        }],
    });
    assembler.process_fragment(&Fragment {
        content: None,
        refusal: None,
        tool_calls: vec![ToolCallDelta {
            index: 0,
            id: None,
            name: None,
            arguments: Some("2.".to_string()),
        }],
    });
    let turn = assembler.finalize();
    assert_eq!(turn.invocations[0].arguments, "1.2.");

    let step = a.apply_turn(turn);
    assert!(!step.finished);
    assert_eq!(step.events.len(), 2);
    assert!(matches!(&step.events[0], ResponseEvent::ToolCall(t) if t.id == "c1"));
    match &step.events[1] {
        ResponseEvent::ToolResult(m) => {
            assert_eq!(m.role, Role::Tool);
            assert_eq!(m.tool_call_id, Some("c1".to_string()));
            assert_eq!(
                m.content,
                Some("1.2. One\nfirst text\nplan\nsummary".to_string())
            );
        }
        other => panic!("expected a tool result event, got {:?}", other),
    }
    let msgs = a.messages.messages();
    assert_eq!(msgs[msgs.len() - 1].role, Role::Tool);
    assert_eq!(msgs[msgs.len() - 2].role, Role::Assistant);
}

#[test]
fn unregistered_tool_becomes_error_result_not_abort() {
    let mut a = agent();
    a.begin_input("Hi".to_string());
    let mut assembler = StreamAssembler::new();
    assembler.process_fragment(&Fragment {
        content: None,
        refusal: None,
        tool_calls: vec![ToolCallDelta {
            index: 0,
            id: Some("c9".to_string()),
            name: Some("NoSuchTool".to_string()),
            arguments: Some("{}".to_string()),
        }],
    });
    let step = a.apply_turn(assembler.finalize());
    assert!(!step.finished);
    match &step.events[1] {
        ResponseEvent::ToolResult(m) => {
            assert_eq!(m.content, Some("Unknown tool: NoSuchTool".to_string()));
        }
        other => panic!("expected a tool result event, got {:?}", other),
    }
}

#[test]
fn refusal_is_emitted_once_when_present() {
    let mut a = agent();
    a.begin_input("Hi".to_string());
    let mut assembler = StreamAssembler::new();
    assembler.process_fragment(&Fragment {
        content: None,
        refusal: Some("I must decline.".to_string()),
        tool_calls: Vec::new(),
    });
    let step = a.apply_turn(assembler.finalize());
    assert!(step.finished);
    assert_eq!(step.events.len(), 1);
    assert!(matches!(&step.events[0], ResponseEvent::Refusal(r) if r == "I must decline."));
    let msgs = a.messages.messages();
    assert_eq!(msgs[msgs.len() - 1].refusal, Some("I must decline.".to_string()));
    assert_eq!(msgs[msgs.len() - 1].content, None);
}

#[test]
fn finished_turn_evicts_oldest_down_to_budget() {
    let mut a = TeacherAgent::new(
        7,
        1,
        AgentSettings {
            ai_model: "test-model".to_string(),
            token_budget: 25,
            auto_save: Some(100),
        },
        "ctx".to_string(),
        Vec::new(),
        small_library(),
    );
    // Sizes: context 7, user message 6, assistant answer 14.
    a.begin_input("Hi".to_string());
    let mut assembler = StreamAssembler::new();
    assembler.process_fragment(&text_fragment("0123456789"));
    let step = a.apply_turn(assembler.finalize());
    assert!(step.finished);
    // 7 + 6 + 14 exceeds 25: the oldest message (the context) is evicted
    // once the turn completes, and what stays fits the budget.
    let msgs = a.messages.messages();
    assert_eq!(msgs.len(), 2);
    assert_eq!(msgs[0].content, Some("Hi".to_string()));
    assert_eq!(msgs[1].content, Some("0123456789".to_string()));
}

#[test]
fn begin_input_trims_oldest_to_budget() {
    let mut a = TeacherAgent::new(
        7,
        1,
        AgentSettings {
            ai_model: "test-model".to_string(),
            token_budget: 20,
            auto_save: Some(100),
        },
        "aaaa".to_string(),
        Vec::new(),
        small_library(),
    );
    // The seeded context message costs 8; the new user message costs 10.
    a.begin_input("long question".to_string().chars().take(6).collect());
    let msgs = a.messages.messages();
    assert_eq!(msgs.len(), 2);
    a.begin_input("cccccccc".to_string());
    // 8 + 10 + 12 exceeds 20: oldest messages are evicted.
    let msgs = a.messages.messages();
    assert!(msgs.len() < 3);
    assert_eq!(msgs.last().unwrap().content, Some("cccccccc".to_string()));
}
