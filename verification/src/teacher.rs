//! The conversation orchestrator: it owns one conversation's history and
//! tool registry and applies one assembled turn at a time. The turn loop
//! itself — provider requests, stream reads, event delivery — is driven by
//! the caller, which hands every assembled turn back in; a turn without
//! tool invocations ends the current input.
use vstd::prelude::*;

use crate::history::{
    batch_ok, cap64, history_size, preceding_anchor, lemma_batch_of_tools_ok, lemma_trim_fits,
    spec_any_flush, spec_threshold, spec_trim, spec_unflushed_after, HistoryManager,
};
use crate::message::{
    dup_invocations, invocations_model, messages_model, InvocationModel, Message, MessageModel,
    Role, ToolInvocation,
};
use crate::stream::{AssembledTurn, Fragment};
use crate::tools::{
    spec_tool_result, BookJumpTool, GetChapterTool, RegisteredTool, ToolBackend, ToolDefinition,
    ToolRegistry, Library,
};

verus! {

/// The agent's configuration: which model to ask, the token budget of the
/// retained history, and the auto-save threshold (absent: flush on every
/// append).
#[derive(Debug)]
pub struct AgentSettings {
    pub ai_model: String,
    pub token_budget: u64,
    pub auto_save: Option<u64>,
}

/// One emission to the consumer, delivered in production order.
#[derive(Debug)]
pub enum ResponseEvent {
    Content(String),
    Refusal(String),
    ToolCall(ToolInvocation),
    ToolResult(Message),
}

/// Model of an emitted event.
#[verifier::ext_equal]
pub ghost enum EventModel {
    Content(Seq<char>),
    Refusal(Seq<char>),
    ToolCall(InvocationModel),
    ToolResult(MessageModel),
}

impl View for ResponseEvent {
    type V = EventModel;

    open spec fn view(&self) -> EventModel {
        match self {
            ResponseEvent::Content(s) => EventModel::Content(s@),
            ResponseEvent::Refusal(s) => EventModel::Refusal(s@),
            ResponseEvent::ToolCall(t) => EventModel::ToolCall(t@),
            ResponseEvent::ToolResult(m) => EventModel::ToolResult(m@),
        }
    }
}

pub open spec fn events_model(s: Seq<ResponseEvent>) -> Seq<EventModel> {
    s.map_values(|e: ResponseEvent| e@)
}

/// The teacher agent for one (student, book) conversation.
#[derive(Debug)]
pub struct TeacherAgent {
    pub ai_model: String,
    pub messages: HistoryManager,
    pub tool_manager: ToolRegistry,
}

/// What applying one assembled turn produced: the events to deliver in
/// order, whether the log is due for a flush, and whether the turn ended
/// the current input (no tool invocations).
#[derive(Debug)]
pub struct TurnStep {
    pub events: Vec<ResponseEvent>,
    pub flush: bool,
    pub finished: bool,
}

/// The assistant message an assembled turn is recorded as: text and
/// refusal only when non-empty, plus the completed invocations.
pub open spec fn spec_assistant_message(turn: AssembledTurn) -> MessageModel {
    MessageModel {
        role: Role::Assistant,
        content: if turn.content@.len() > 0 {
            Some(turn.content@)
        } else {
            None
        },
        refusal: if turn.refusal@.len() > 0 {
            Some(turn.refusal@)
        } else {
            None
        },
        tool_calls: invocations_model(turn.invocations@),
        tool_call_id: None,
    }
}

/// The incremental events one fragment produces while the stream is read:
/// one Content event per text delta.
pub fn fragment_events(f: &Fragment) -> (r: Vec<ResponseEvent>)
    ensures
        events_model(r@) == (match f.content {
            Some(c) => seq![EventModel::Content(c@)],
            None => Seq::<EventModel>::empty(),
        }),
{
    let mut r: Vec<ResponseEvent> = Vec::new();
    match &f.content {
        Some(c) => {
            r.push(ResponseEvent::Content(c.clone()));
        },
        None => {},
    }
    proof {
        assert(events_model(r@) =~= (match f.content {
            Some(c) => seq![EventModel::Content(c@)],
            None => Seq::<EventModel>::empty(),
        }));
    }
    r
}

impl TeacherAgent {
    /// Builds the agent for an identity: restores the persisted history
    /// under the budget and registers the two book tools.
    pub fn new(
        student_id: i64,
        book_id: i64,
        settings: AgentSettings,
        context: String,
        stored: Vec<Message>,
        library: Library,
    ) -> (r: TeacherAgent)
        ensures
            r.ai_model@ == settings.ai_model@,
            r.messages.wf(),
            r.messages.student_id == student_id,
            r.messages.book_id == book_id,
            r.messages.token_budget == settings.token_budget,
            r.messages.auto_save == settings.auto_save,
            r.messages.unflushed == 0,
            r.messages@ == (if messages_model(stored@).len() == 0 {
                seq![
                    (MessageModel {
                        role: Role::User,
                        content: Some(context@),
                        refusal: None,
                        tool_calls: Seq::empty(),
                        tool_call_id: None,
                    }),
                ]
            } else {
                spec_trim(messages_model(stored@), settings.token_budget)
            }),
            r.tool_manager.tools@.len() == 2,
            r.tool_manager.tools@[0].definition.name@ == "GetChapterContent"@,
            r.tool_manager.tools@[0].definition.description@
                == "Query the content of a chapter from the book. Before starting to teach a new chapter, use this tool to get the content of this chapter"@,
            r.tool_manager.tools@[0].definition.parameters@
                == "The chapter number to query, like 1.2."@,
            r.tool_manager.tools@[0].backend matches ToolBackend::GetChapter(t) && t.book_id
                == book_id && t.library@ == library@,
            r.tool_manager.tools@[1].definition.name@ == "BookJump"@,
            r.tool_manager.tools@[1].definition.description@
                == "Use this tool to navigate to a specific chapter or section in the book when you need the student to read particular content. It helps direct the student's attention to the relevant material."@,
            r.tool_manager.tools@[1].definition.parameters@
                == "The chapter number to navigate to, optionally followed by # and a section title, like 1.2.#Exercises"@,
            r.tool_manager.tools@[1].backend matches ToolBackend::BookJump(t) && t.book_id
                == book_id && t.library@ == library@,
    {
        let messages = HistoryManager::load(
            student_id,
            book_id,
            context,
            stored,
            settings.token_budget,
            settings.auto_save,
        );
        let mut tool_manager = ToolRegistry::new();
        let query_chapter_tool = GetChapterTool::new(book_id, library.duplicate());
        tool_manager.add_tool(
            RegisteredTool {
                definition: ToolDefinition {
                    name: String::from_str("GetChapterContent"),
                    description: String::from_str(
                        "Query the content of a chapter from the book. Before starting to teach a new chapter, use this tool to get the content of this chapter",
                    ),
                    parameters: String::from_str(
                        "The chapter number to query, like 1.2.",
                    ),
                },
                backend: ToolBackend::GetChapter(query_chapter_tool),
            },
        );
        let book_jump_tool = BookJumpTool::new(book_id, library);
        tool_manager.add_tool(
            RegisteredTool {
                definition: ToolDefinition {
                    name: String::from_str("BookJump"),
                    description: String::from_str(
                        "Use this tool to navigate to a specific chapter or section in the book when you need the student to read particular content. It helps direct the student's attention to the relevant material.",
                    ),
                    parameters: String::from_str(
                        "The chapter number to navigate to, optionally followed by # and a section title, like 1.2.#Exercises",
                    ),
                },
                backend: ToolBackend::BookJump(book_jump_tool),
            },
        );
        TeacherAgent { ai_model: settings.ai_model, messages, tool_manager }
    }

    /// Admits a new user input: appends the user message and then evicts
    /// oldest messages until the history fits the budget again. Returns
    /// whether the log is due for a flush.
    pub fn begin_input(&mut self, text: String) -> (flush: bool)
        requires
            old(self).messages.wf(),
        ensures
            final(self).messages.wf(),
            final(self).ai_model == old(self).ai_model,
            final(self).tool_manager == old(self).tool_manager,
            final(self).messages.student_id == old(self).messages.student_id,
            final(self).messages.book_id == old(self).messages.book_id,
            final(self).messages.token_budget == old(self).messages.token_budget,
            final(self).messages.auto_save == old(self).messages.auto_save,
            final(self).messages@ == spec_trim(
                old(self).messages@ + seq![
                    (MessageModel {
                        role: Role::User,
                        content: Some(text@),
                        refusal: None,
                        tool_calls: Seq::empty(),
                        tool_call_id: None,
                    }),
                ],
                old(self).messages.token_budget,
            ),
            flush <==> old(self).messages.unflushed as int + 1 >= spec_threshold(
                old(self).messages.auto_save,
            ),
    {
        let m = Message::user(text);
        let r = self.messages.append(m);
        let flush = match r {
            Ok(f) => f,
            Err(_) => {
                proof {
                    assert(false);
                }
                false
            },
        };
        self.messages.trim_to_budget();
        flush
    }

    /// Records one assembled turn and dispatches its tool invocations.
    ///
    /// The assistant message is appended first. A turn without invocations
    /// finishes the current input. Otherwise every invocation is answered
    /// by the registry, the answers are appended as tool-role messages in
    /// invocation order — each provably answering an invocation of the
    /// assistant message just appended — and the caller goes back to the
    /// provider for the next turn. Once the turn's appends are in, oldest
    /// messages are evicted until the history fits the budget again, so a
    /// completed turn never leaves the history above the budget and the
    /// next provider round starts within it.
    pub fn apply_turn(&mut self, turn: AssembledTurn) -> (r: TurnStep)
        requires
            old(self).messages.wf(),
        ensures
            final(self).messages.wf(),
            final(self).ai_model == old(self).ai_model,
            final(self).tool_manager == old(self).tool_manager,
            final(self).messages.student_id == old(self).messages.student_id,
            final(self).messages.book_id == old(self).messages.book_id,
            final(self).messages.token_budget == old(self).messages.token_budget,
            final(self).messages.auto_save == old(self).messages.auto_save,
            r.finished <==> invocations_model(turn.invocations@).len() == 0,
            ({
                let am = spec_assistant_message(turn);
                let invs = invocations_model(turn.invocations@);
                let results = invs.map_values(
                    |inv: InvocationModel| spec_tool_result(old(self).tool_manager.tools@, inv),
                );
                let appended: nat = if r.finished {
                    1
                } else {
                    1 + results.len()
                };
                &&& final(self).messages@ == spec_trim(
                    old(self).messages@ + seq![am] + (if r.finished {
                        Seq::<MessageModel>::empty()
                    } else {
                        results
                    }),
                    old(self).messages.token_budget,
                )
                &&& cap64(history_size(final(self).messages@) as int) <= old(
                    self,
                ).messages.token_budget
                &&& events_model(r.events@) == (if turn.refusal@.len() > 0 {
                    seq![EventModel::Refusal(turn.refusal@)]
                } else {
                    Seq::<EventModel>::empty()
                }) + (if r.finished {
                    Seq::<EventModel>::empty()
                } else {
                    invs.map_values(|inv: InvocationModel| EventModel::ToolCall(inv))
                        + results.map_values(|m: MessageModel| EventModel::ToolResult(m))
                })
                &&& r.flush == spec_any_flush(
                    old(self).messages.unflushed,
                    appended,
                    spec_threshold(old(self).messages.auto_save),
                )
                &&& final(self).messages.unflushed == spec_unflushed_after(
                    old(self).messages.unflushed,
                    appended,
                    spec_threshold(old(self).messages.auto_save),
                )
            }),
    {
        let ghost turn0 = turn;
        let ghost t = spec_threshold(self.messages.auto_save);
        let ghost u0 = self.messages.unflushed;
        let mut events: Vec<ResponseEvent> = Vec::new();
        let content_opt: Option<String> = if turn.content.as_str().is_empty() {
            None
        } else {
            Some(turn.content)
        };
        let refusal_opt: Option<String> = if turn.refusal.as_str().is_empty() {
            None
        } else {
            events.push(ResponseEvent::Refusal(turn.refusal.clone()));
            Some(turn.refusal)
        };
        let assistant = Message {
            role: Role::Assistant,
            content: content_opt,
            refusal: refusal_opt,
            tool_calls: dup_invocations(&turn.invocations),
            tool_call_id: None,
        };
        proof {
            assert(assistant@ =~= spec_assistant_message(turn0));
        }
        let ghost am = assistant@;
        let ghost base = self.messages@ + seq![am];
        let res = self.messages.append(assistant);
        let flush1 = match res {
            Ok(f) => f,
            Err(_) => {
                proof {
                    assert(false);
                }
                false
            },
        };
        if turn.invocations.len() == 0 {
            proof {
                assert(old(self).messages@ + seq![am] + Seq::<MessageModel>::empty()
                    =~= self.messages@);
                assert(events_model(events@) =~= (if turn0.refusal@.len() > 0 {
                    seq![EventModel::Refusal(turn0.refusal@)]
                } else {
                    Seq::<EventModel>::empty()
                }) + Seq::<EventModel>::empty());
                let u1: u64 = if u0 as int + 1 >= t {
                    0u64
                } else {
                    (u0 + 1) as u64
                };
                assert(spec_any_flush(u1, 0, t) == false);
                assert(spec_any_flush(u0, 1, t) == ((u0 as int + 1 >= t) || spec_any_flush(
                    u1,
                    0,
                    t,
                )));
                assert(spec_unflushed_after(u1, 0, t) == u1);
                assert(spec_unflushed_after(u0, 1, t) == spec_unflushed_after(u1, 0, t));
            }
            let ghost pre = self.messages@;
            self.messages.trim_to_budget();
            proof {
                lemma_trim_fits(pre, self.messages.token_budget);
            }
            return TurnStep { events, flush: flush1, finished: true };
        }
        let ghost invs = invocations_model(turn.invocations@);
        let ghost results_m = invs.map_values(
            |inv: InvocationModel| spec_tool_result(self.tool_manager.tools@, inv),
        );
        let mut i: usize = 0;
        let ghost events0 = events@;
        proof {
            assert(events_model(events0) =~= (if turn0.refusal@.len() > 0 {
                seq![EventModel::Refusal(turn0.refusal@)]
            } else {
                Seq::<EventModel>::empty()
            }));
        }
        while i < turn.invocations.len()
            invariant
                i <= turn.invocations.len(),
                invs == invocations_model(turn.invocations@),
                events@.len() == events0.len() + i,
                events@.subrange(0, events0.len() as int) =~= events0,
                forall|j: int|
                    0 <= j < i ==> events@[events0.len() + j]@ == EventModel::ToolCall(
                        #[trigger] invs[j],
                    ),
            decreases turn.invocations.len() - i,
        {
            proof {
                assert(invs[i as int] == turn.invocations@[i as int]@);
            }
            events.push(ResponseEvent::ToolCall(turn.invocations[i].duplicate()));
            i = i + 1;
        }
        let results = self.tool_manager.call(&turn.invocations);
        let ghost events1 = events@;
        let mut j: usize = 0;
        while j < results.len()
            invariant
                j <= results.len(),
                messages_model(results@) == results_m,
                results_m.len() == invs.len(),
                events@.len() == events1.len() + j,
                events@.subrange(0, events1.len() as int) =~= events1,
                forall|q: int|
                    0 <= q < j ==> events@[events1.len() + q]@ == EventModel::ToolResult(
                        #[trigger] results_m[q],
                    ),
            decreases results.len() - j,
        {
            proof {
                assert(results_m[j as int] == results@[j as int]@);
            }
            events.push(ResponseEvent::ToolResult(results[j].duplicate()));
            j = j + 1;
        }
        proof {
            assert(base.last() == am);
            assert(base.drop_last() =~= old(self).messages@);
            assert(preceding_anchor(base) == Some(am));
            assert(forall|q: int|
                0 <= q < results_m.len() ==> crate::history::tool_answering(
                    #[trigger] results_m[q],
                    am,
                )) by {
                assert(forall|q: int|
                    0 <= q < invs.len() ==> #[trigger] results_m[q] == spec_tool_result(
                        self.tool_manager.tools@,
                        invs[q],
                    ));
                assert forall|q: int| 0 <= q < results_m.len() implies crate::history::tool_answering(
                    #[trigger] results_m[q],
                    am,
                ) by {
                    assert(results_m[q].tool_call_id == Some(invs[q].id));
                    assert(am.tool_calls == invs);
                    assert(crate::history::has_invocation(am.tool_calls, invs[q].id));
                }
            }
            lemma_batch_of_tools_ok(base, am, results_m);
        }
        let flush2 = self.messages.append_many(results);
        proof {
            let k = results_m.len();
            let u1: u64 = if u0 as int + 1 >= t {
                0u64
            } else {
                (u0 + 1) as u64
            };
            assert(spec_any_flush(u0, (1 + k) as nat, t) == ((u0 as int + 1 >= t)
                || spec_any_flush(u1, k, t)));
            assert(spec_unflushed_after(u0, (1 + k) as nat, t) == spec_unflushed_after(
                u1,
                k,
                t,
            ));
            assert(events_model(events@) =~= (if turn.refusal@.len() > 0 {
                seq![EventModel::Refusal(turn.refusal@)]
            } else {
                Seq::<EventModel>::empty()
            }) + (invs.map_values(|inv: InvocationModel| EventModel::ToolCall(inv))
                + results_m.map_values(|m: MessageModel| EventModel::ToolResult(m))));
            assert(self.messages@ =~= old(self).messages@ + seq![am] + results_m);
        }
        let ghost pre = self.messages@;
        self.messages.trim_to_budget();
        proof {
            lemma_trim_fits(pre, self.messages.token_budget);
        }
        TurnStep { events, flush: flush1 || flush2, finished: false }
    }
}

} // verus!
