use book_teacher::stream::{Fragment, StreamAssembler, ToolCallDelta};

fn text_fragment(s: &str) -> Fragment {
    Fragment {
        content: Some(s.to_string()),
        refusal: None,
        tool_calls: Vec::new(),
    }
}

fn delta(
    index: u64,
    id: Option<&str>,
    name: Option<&str>,
    arguments: Option<&str>,
) -> ToolCallDelta {
    ToolCallDelta {
        index,
        id: id.map(|s| s.to_string()),
        name: name.map(|s| s.to_string()),
        arguments: arguments.map(|s| s.to_string()),
    }
}

fn delta_fragment(deltas: Vec<ToolCallDelta>) -> Fragment {
    Fragment {
        content: None,
        refusal: None,
        tool_calls: deltas,
    }
}

#[test]
fn text_assembly_is_split_invariant() {
    let mut a = StreamAssembler::new();
    a.process_fragment(&text_fragment("Hel"));
    a.process_fragment(&text_fragment("lo!"));
    let one = a.finalize();

    let mut b = StreamAssembler::new();
    b.process_fragment(&text_fragment("H"));
    b.process_fragment(&text_fragment("ello"));
    b.process_fragment(&text_fragment("!"));
    let two = b.finalize();

    assert_eq!(one.content, "Hello!");
    assert_eq!(two.content, "Hello!");
    assert_eq!(one.refusal, two.refusal);
    assert_eq!(one.invocations.len(), 0);
    assert_eq!(two.invocations.len(), 0);
}

#[test]
fn tool_call_arguments_concatenate_across_fragments() {
    let mut a = StreamAssembler::new();
    a.process_fragment(&delta_fragment(vec![delta(
        0,
        Some("call1"),
        Some("GetChapterContent"),
        Some("1."),
    )]));
    a.process_fragment(&delta_fragment(vec![delta(0, None, None, Some("2."))]));
    let turn = a.finalize();
    assert_eq!(turn.invocations.len(), 1);
    assert_eq!(turn.invocations[0].id, "call1");
    assert_eq!(turn.invocations[0].name, "GetChapterContent");
    assert_eq!(turn.invocations[0].arguments, "1.2.");
}

#[test]
fn interleaved_indices_accumulate_separately() {
    let mut a = StreamAssembler::new();
    a.process_fragment(&delta_fragment(vec![
        delta(0, Some("a"), Some("First"), Some("x")),
        delta(1, Some("b"), Some("Second"), Some("1")),
    ]));
    a.process_fragment(&delta_fragment(vec![
        delta(1, None, None, Some("2")),
        delta(0, None, None, Some("y")),
    ]));
    let turn = a.finalize();
    assert_eq!(turn.invocations.len(), 2);
    assert_eq!(turn.invocations[0].name, "First");
    assert_eq!(turn.invocations[0].arguments, "xy");
    assert_eq!(turn.invocations[1].name, "Second");
    assert_eq!(turn.invocations[1].arguments, "12");
}

#[test]
fn invocations_come_out_in_index_order() {
    let mut a = StreamAssembler::new();
    a.process_fragment(&delta_fragment(vec![delta(2, Some("late"), None, None)]));
    a.process_fragment(&delta_fragment(vec![delta(0, Some("early"), None, None)]));
    let turn = a.finalize();
    assert_eq!(turn.invocations.len(), 2);
    assert_eq!(turn.invocations[0].id, "early");
    assert_eq!(turn.invocations[1].id, "late");
}

#[test]
fn refusal_text_accumulates_in_order() {
    let mut a = StreamAssembler::new();
    a.process_fragment(&Fragment {
        content: None,
        refusal: Some("I cannot ".to_string()),
        tool_calls: Vec::new(),
    });
    a.process_fragment(&Fragment {
        content: None,
        refusal: Some("do that.".to_string()),
        tool_calls: Vec::new(),
    });
    let turn = a.finalize();
    assert_eq!(turn.refusal, "I cannot do that.");
    assert_eq!(turn.content, "");
}
