//! The ordered message log of one conversation: token-budget trimming on
//! load, validated appends, and the auto-save counter that decides when the
//! log is flushed to storage.
use vstd::prelude::*;

use crate::message::{
    dup_messages, messages_model, InvocationModel, Message, MessageModel, Role,
};

verus! {

/// Errors of the history log. A tool-role message must carry the id of the
/// invocation it answers, and that id must belong to an invocation of the
/// immediately preceding assistant message.
#[derive(Debug, Clone, Copy, PartialEq, Eq, Structural)]
pub enum HistoryError {
    MissingToolCallId,
    MismatchedToolResult,
}

pub open spec fn cap64(n: int) -> int {
    if n > u64::MAX {
        u64::MAX as int
    } else {
        n
    }
}

pub open spec fn opt_len(o: Option<Seq<char>>) -> nat {
    match o {
        Some(s) => s.len(),
        None => 0,
    }
}

pub open spec fn invocation_size(t: InvocationModel) -> nat {
    t.id.len() + t.name.len() + t.arguments.len()
}

pub open spec fn invocations_size(ts: Seq<InvocationModel>) -> nat
    decreases ts.len(),
{
    if ts.len() == 0 {
        0
    } else {
        invocation_size(ts[0]) + invocations_size(ts.drop_first())
    }
}

/// Deterministic, monotonic token estimate of one message: a small fixed
/// cost plus the length of every text it carries. The estimator is fixed
/// here rather than supplied by the caller, so budget enforcement is
/// reproducible by construction.
pub open spec fn message_size(m: MessageModel) -> nat {
    4 + opt_len(m.content) + opt_len(m.refusal) + invocations_size(m.tool_calls) + opt_len(
        m.tool_call_id,
    )
}

/// Total token estimate of a message sequence.
pub open spec fn history_size(ms: Seq<MessageModel>) -> nat
    decreases ms.len(),
{
    if ms.len() == 0 {
        0
    } else {
        message_size(ms[0]) + history_size(ms.drop_first())
    }
}

proof fn lemma_invocations_size_push(ts: Seq<InvocationModel>, x: InvocationModel)
    ensures
        invocations_size(ts + seq![x]) == invocations_size(ts) + invocation_size(x),
    decreases ts.len(),
{
    assert(invocations_size(ts + seq![x]) == invocation_size((ts + seq![x])[0])
        + invocations_size((ts + seq![x]).drop_first()));
    if ts.len() == 0 {
        assert((ts + seq![x])[0] == x);
        assert((ts + seq![x]).drop_first() =~= Seq::<InvocationModel>::empty());
        assert(invocations_size(Seq::<InvocationModel>::empty()) == 0);
    } else {
        assert((ts + seq![x])[0] == ts[0]);
        assert((ts + seq![x]).drop_first() =~= ts.drop_first() + seq![x]);
        lemma_invocations_size_push(ts.drop_first(), x);
    }
}

proof fn lemma_history_size_push(ms: Seq<MessageModel>, x: MessageModel)
    ensures
        history_size(ms + seq![x]) == history_size(ms) + message_size(x),
    decreases ms.len(),
{
    assert(history_size(ms + seq![x]) == message_size((ms + seq![x])[0]) + history_size(
        (ms + seq![x]).drop_first(),
    ));
    if ms.len() == 0 {
        assert((ms + seq![x])[0] == x);
        assert((ms + seq![x]).drop_first() =~= Seq::<MessageModel>::empty());
        assert(history_size(Seq::<MessageModel>::empty()) == 0);
    } else {
        assert((ms + seq![x])[0] == ms[0]);
        assert((ms + seq![x]).drop_first() =~= ms.drop_first() + seq![x]);
        lemma_history_size_push(ms.drop_first(), x);
    }
}

/// Addition that sticks at the largest counter value instead of wrapping.
fn sat_add(a: u64, b: u64) -> (r: u64)
    ensures
        r as int == cap64(a as int + b as int),
{
    if a > u64::MAX - b {
        u64::MAX
    } else {
        a + b
    }
}

fn opt_text_len(o: &Option<String>) -> (r: u64)
    ensures
        r as int == opt_len(crate::message::opt_text_model(*o)),
{
    match o {
        Some(s) => s.as_str().unicode_len() as u64,
        None => 0,
    }
}

/// Token estimate of one message, saturating at the largest counter value.
pub fn estimate_message(m: &Message) -> (r: u64)
    ensures
        r as int == cap64(message_size(m@) as int),
{
    let mut r: u64 = 4;
    r = sat_add(r, opt_text_len(&m.content));
    r = sat_add(r, opt_text_len(&m.refusal));
    let ghost ts = crate::message::invocations_model(m.tool_calls@);
    let ghost base = 4 + opt_len(m@.content) + opt_len(m@.refusal);
    let mut i: usize = 0;
    while i < m.tool_calls.len()
        invariant
            i <= m.tool_calls.len(),
            ts == crate::message::invocations_model(m.tool_calls@),
            base == 4 + opt_len(m@.content) + opt_len(m@.refusal),
            r as int == cap64(base + invocations_size(ts.subrange(0, i as int)) as int),
        decreases m.tool_calls.len() - i,
    {
        let t = &m.tool_calls[i];
        let mut sz: u64 = t.id.as_str().unicode_len() as u64;
        sz = sat_add(sz, t.name.as_str().unicode_len() as u64);
        sz = sat_add(sz, t.arguments.as_str().unicode_len() as u64);
        proof {
            assert(ts[i as int] == m.tool_calls@[i as int]@);
            assert(sz as int == cap64(invocation_size(ts[i as int]) as int));
            assert(ts.subrange(0, i as int) + seq![ts[i as int]] =~= ts.subrange(0, i + 1));
            lemma_invocations_size_push(ts.subrange(0, i as int), ts[i as int]);
        }
        r = sat_add(r, sz);
        i = i + 1;
    }
    proof {
        assert(ts.subrange(0, ts.len() as int) =~= ts);
    }
    r = sat_add(r, opt_text_len(&m.tool_call_id));
    r
}

/// Saturated token estimate of a whole message list.
pub fn estimate_messages(v: &Vec<Message>) -> (r: u64)
    ensures
        r as int == cap64(history_size(messages_model(v@)) as int),
{
    let ghost ms = messages_model(v@);
    let mut r: u64 = 0;
    let mut i: usize = 0;
    while i < v.len()
        invariant
            i <= v.len(),
            ms == messages_model(v@),
            r as int == cap64(history_size(ms.subrange(0, i as int)) as int),
        decreases v.len() - i,
    {
        let est = estimate_message(&v[i]);
        proof {
            assert(ms[i as int] == v@[i as int]@);
            assert(ms.subrange(0, i as int) + seq![ms[i as int]] =~= ms.subrange(0, i + 1));
            lemma_history_size_push(ms.subrange(0, i as int), ms[i as int]);
        }
        r = sat_add(r, est);
        i = i + 1;
    }
    proof {
        assert(ms.subrange(0, ms.len() as int) =~= ms);
    }
    r
}

/// The estimated size of the log, as the saturating counter sees it, is
/// within the budget.
pub open spec fn fits(ms: Seq<MessageModel>, budget: u64) -> bool {
    cap64(history_size(ms) as int) <= budget
}

/// Budget enforcement: drop oldest messages until the log fits. No message
/// is pinned: under a tight enough budget eviction may take every message,
/// the seeded context message too.
pub open spec fn spec_trim(ms: Seq<MessageModel>, budget: u64) -> Seq<MessageModel>
    decreases ms.len(),
{
    if fits(ms, budget) || ms.len() == 0 {
        ms
    } else {
        spec_trim(ms.drop_first(), budget)
    }
}

/// What trimming keeps always fits the budget.
pub proof fn lemma_trim_fits(ms: Seq<MessageModel>, budget: u64)
    ensures
        fits(spec_trim(ms, budget), budget),
    decreases ms.len(),
{
    if !(fits(ms, budget) || ms.len() == 0) {
        lemma_trim_fits(ms.drop_first(), budget);
    }
}

/// An invocation with the given id is among `ts`.
pub open spec fn has_invocation(ts: Seq<InvocationModel>, id: Seq<char>) -> bool {
    exists|x: int| 0 <= x < ts.len() && (#[trigger] ts[x]).id == id
}

/// The id answers an invocation of the nearest preceding non-tool message,
/// which must be an assistant message.
pub open spec fn answers_preceding(ms: Seq<MessageModel>, id: Seq<char>) -> bool
    decreases ms.len(),
{
    if ms.len() == 0 {
        false
    } else if ms.last().role == Role::Tool {
        answers_preceding(ms.drop_last(), id)
    } else {
        ms.last().role == Role::Assistant && has_invocation(ms.last().tool_calls, id)
    }
}

/// Whether a message may be appended to the log: tool-role messages must
/// answer an invocation of the preceding assistant message.
pub open spec fn append_ok(ms: Seq<MessageModel>, m: MessageModel) -> bool {
    m.role == Role::Tool ==> match m.tool_call_id {
        Some(id) => answers_preceding(ms, id),
        None => false,
    }
}

fn check_tool_target(msgs: &Vec<Message>, id: &String) -> (r: bool)
    ensures
        r == answers_preceding(messages_model(msgs@), id@),
{
    let ghost full = messages_model(msgs@);
    proof {
        assert(full.subrange(0, full.len() as int) =~= full);
    }
    let mut i: usize = msgs.len();
    loop
        invariant
            i <= msgs.len(),
            full == messages_model(msgs@),
            answers_preceding(full, id@) == answers_preceding(full.subrange(0, i as int), id@),
        decreases i,
    {
        let ghost pre = full.subrange(0, i as int);
        if i == 0 {
            proof {
                assert(pre.len() == 0);
            }
            return false;
        }
        let m = &msgs[i - 1];
        proof {
            assert(pre.last() == full[i - 1]);
            assert(full[i - 1] == msgs@[i - 1]@);
            assert(pre.drop_last() =~= full.subrange(0, i - 1));
        }
        match m.role {
            Role::Tool => {
                i = i - 1;
            },
            Role::Assistant => {
                let ghost ts = pre.last().tool_calls;
                proof {
                    assert(answers_preceding(full, id@) == has_invocation(ts, id@));
                }
                let mut j: usize = 0;
                while j < m.tool_calls.len()
                    invariant
                        j <= m.tool_calls.len(),
                        ts == crate::message::invocations_model(m.tool_calls@),
                        answers_preceding(messages_model(msgs@), id@) == has_invocation(
                            ts,
                            id@,
                        ),
                        forall|x: int| 0 <= x < j ==> (#[trigger] ts[x]).id != id@,
                    decreases m.tool_calls.len() - j,
                {
                    proof {
                        assert(ts[j as int] == m.tool_calls@[j as int]@);
                    }
                    if m.tool_calls[j].id == *id {
                        proof {
                            assert(has_invocation(ts, id@));
                        }
                        return true;
                    }
                    j = j + 1;
                }
                proof {
                    assert(!has_invocation(ts, id@));
                }
                return false;
            },
            Role::User => {
                return false;
            },
        }
    }
}

/// How many appends since the last flush force the next flush: an absent
/// setting means the log is flushed on every append.
pub open spec fn spec_threshold(auto_save: Option<u64>) -> u64 {
    match auto_save {
        Some(t) => if t == 0 {
            1
        } else {
            t
        },
        None => 1,
    }
}

/// The unflushed-append counter after `n` more appends.
pub open spec fn spec_unflushed_after(u: u64, n: nat, t: u64) -> u64
    recommends
        t >= 1,
    decreases n,
{
    if n == 0 {
        u
    } else {
        spec_unflushed_after(
            if u as int + 1 >= t {
                0u64
            } else {
                (u + 1) as u64
            },
            (n - 1) as nat,
            t,
        )
    }
}

/// Whether any of `n` more appends triggers a flush.
pub open spec fn spec_any_flush(u: u64, n: nat, t: u64) -> bool
    decreases n,
{
    if n == 0 {
        false
    } else {
        u as int + 1 >= t || spec_any_flush(
            if u as int + 1 >= t {
                0u64
            } else {
                (u + 1) as u64
            },
            (n - 1) as nat,
            t,
        )
    }
}

/// The ordered message log of one conversation, owned by one orchestrator
/// at a time, with its token budget and auto-save counter.
#[derive(Debug)]
pub struct HistoryManager {
    pub student_id: i64,
    pub book_id: i64,
    pub messages: Vec<Message>,
    pub token_count: u64,
    pub token_budget: u64,
    pub auto_save: Option<u64>,
    pub unflushed: u64,
}

impl View for HistoryManager {
    type V = Seq<MessageModel>;

    open spec fn view(&self) -> Seq<MessageModel> {
        messages_model(self.messages@)
    }
}

impl HistoryManager {
    /// The running token count mirrors the log and the flush counter has
    /// not yet reached the threshold.
    pub open spec fn wf(&self) -> bool {
        &&& self.token_count as int == cap64(history_size(self@) as int)
        &&& self.unflushed < spec_threshold(self.auto_save)
    }

    pub fn threshold(&self) -> (t: u64)
        ensures
            t == spec_threshold(self.auto_save),
    {
        match self.auto_save {
            Some(t) => if t == 0 {
                1
            } else {
                t
            },
            None => 1,
        }
    }

    /// Drops oldest messages until the log fits the budget. Called before
    /// a new turn is admitted, never in the middle of one.
    pub fn trim_to_budget(&mut self)
        ensures
            final(self)@ == spec_trim(old(self)@, old(self).token_budget),
            final(self).token_count as int == cap64(history_size(final(self)@) as int),
            final(self).student_id == old(self).student_id,
            final(self).book_id == old(self).book_id,
            final(self).token_budget == old(self).token_budget,
            final(self).auto_save == old(self).auto_save,
            final(self).unflushed == old(self).unflushed,
    {
        let ghost start = self@;
        loop
            invariant
                spec_trim(self@, self.token_budget) == spec_trim(start, self.token_budget),
                self.student_id == old(self).student_id,
                self.book_id == old(self).book_id,
                self.token_budget == old(self).token_budget,
                self.auto_save == old(self).auto_save,
                self.unflushed == old(self).unflushed,
                start == old(self)@,
            decreases self.messages.len(),
        {
            let total = estimate_messages(&self.messages);
            if total <= self.token_budget {
                self.token_count = total;
                return ;
            }
            proof {
                assert(self@.len() > 0);
            }
            let ghost cur = self@;
            self.messages.remove(0);
            proof {
                assert(messages_model(self.messages@) =~= cur.drop_first());
            }
        }
    }

    /// Restores a conversation for an identity: the stored log trimmed to
    /// the budget, or a fresh context message when nothing is stored. The
    /// seeded context message is kept even when it alone exceeds the
    /// budget; later eviction pins nothing.
    pub fn load(
        student_id: i64,
        book_id: i64,
        context: String,
        stored: Vec<Message>,
        token_budget: u64,
        auto_save: Option<u64>,
    ) -> (h: HistoryManager)
        ensures
            h@ == (if messages_model(stored@).len() == 0 {
                seq![
                    (MessageModel {
                        role: Role::User,
                        content: Some(context@),
                        refusal: None,
                        tool_calls: Seq::empty(),
                        tool_call_id: None,
                    }),
                ]
            } else {
                spec_trim(messages_model(stored@), token_budget)
            }),
            h.wf(),
            h.student_id == student_id,
            h.book_id == book_id,
            h.token_budget == token_budget,
            h.auto_save == auto_save,
            h.unflushed == 0,
    {
        let mut h = HistoryManager {
            student_id,
            book_id,
            messages: stored,
            token_count: 0,
            token_budget,
            auto_save,
            unflushed: 0,
        };
        if h.messages.len() == 0 {
            h.messages.push(Message::user(context));
            proof {
                assert(messages_model(h.messages@) =~= seq![h.messages@[0]@]);
            }
            h.token_count = estimate_messages(&h.messages);
        } else {
            h.trim_to_budget();
        }
        h
    }

    /// A snapshot of the log, oldest first, suitable for the next
    /// provider request.
    pub fn messages(&self) -> (r: Vec<Message>)
        ensures
            messages_model(r@) == self@,
    {
        dup_messages(&self.messages)
    }

    /// Appends one message. A tool-role message is rejected unless it
    /// answers an invocation of the immediately preceding assistant
    /// message. Returns whether the log is now due to be flushed.
    pub fn append(&mut self, m: Message) -> (r: Result<bool, HistoryError>)
        requires
            old(self).wf(),
        ensures
            final(self).wf(),
            final(self).student_id == old(self).student_id,
            final(self).book_id == old(self).book_id,
            final(self).token_budget == old(self).token_budget,
            final(self).auto_save == old(self).auto_save,
            match r {
                Ok(flush) => {
                    &&& append_ok(old(self)@, m@)
                    &&& final(self)@ == old(self)@ + seq![m@]
                    &&& (flush <==> old(self).unflushed as int + 1 >= spec_threshold(
                        old(self).auto_save,
                    ))
                    &&& final(self).unflushed == (if flush {
                        0u64
                    } else {
                        (old(self).unflushed + 1) as u64
                    })
                },
                Err(e) => {
                    &&& !append_ok(old(self)@, m@)
                    &&& *final(self) == *old(self)
                    &&& e == (if m@.tool_call_id is None {
                        HistoryError::MissingToolCallId
                    } else {
                        HistoryError::MismatchedToolResult
                    })
                },
            },
    {
        match m.role {
            Role::Tool => {
                match &m.tool_call_id {
                    None => {
                        return Err(HistoryError::MissingToolCallId);
                    },
                    Some(id) => {
                        if !check_tool_target(&self.messages, id) {
                            return Err(HistoryError::MismatchedToolResult);
                        }
                    },
                }
            },
            _ => {},
        }
        let est = estimate_message(&m);
        self.token_count = sat_add(self.token_count, est);
        let ghost before = self@;
        self.messages.push(m);
        proof {
            assert(messages_model(self.messages@) =~= before + seq![self.messages@.last()@]);
            lemma_history_size_push(before, self.messages@.last()@);
        }
        self.unflushed = self.unflushed + 1;
        let t = self.threshold();
        if self.unflushed >= t {
            self.unflushed = 0;
            Ok(true)
        } else {
            Ok(false)
        }
    }
}

/// Every message of a batch may be appended in order.
pub open spec fn batch_ok(ms: Seq<MessageModel>, batch: Seq<MessageModel>) -> bool
    decreases batch.len(),
{
    if batch.len() == 0 {
        true
    } else {
        append_ok(ms, batch[0]) && batch_ok(ms + seq![batch[0]], batch.drop_first())
    }
}

impl HistoryManager {
    /// Appends a batch of messages in order. Returns whether any of the
    /// appends made the log due for a flush.
    pub fn append_many(&mut self, batch: Vec<Message>) -> (r: bool)
        requires
            old(self).wf(),
            batch_ok(old(self)@, messages_model(batch@)),
        ensures
            final(self).wf(),
            final(self).student_id == old(self).student_id,
            final(self).book_id == old(self).book_id,
            final(self).token_budget == old(self).token_budget,
            final(self).auto_save == old(self).auto_save,
            final(self)@ == old(self)@ + messages_model(batch@),
            final(self).unflushed == spec_unflushed_after(
                old(self).unflushed,
                batch@.len(),
                spec_threshold(old(self).auto_save),
            ),
            r == spec_any_flush(
                old(self).unflushed,
                batch@.len(),
                spec_threshold(old(self).auto_save),
            ),
    {
        let ghost bs = messages_model(batch@);
        let ghost t = spec_threshold(self.auto_save);
        proof {
            assert(old(self)@ + bs.subrange(0, 0) =~= old(self)@);
            assert(bs.subrange(0, bs.len() as int) =~= bs);
        }
        let mut any: bool = false;
        let mut i: usize = 0;
        while i < batch.len()
            invariant
                i <= batch.len(),
                bs == messages_model(batch@),
                t == spec_threshold(self.auto_save),
                self.wf(),
                self.student_id == old(self).student_id,
                self.book_id == old(self).book_id,
                self.token_budget == old(self).token_budget,
                self.auto_save == old(self).auto_save,
                self@ == old(self)@ + bs.subrange(0, i as int),
                batch_ok(self@, bs.subrange(i as int, bs.len() as int)),
                spec_unflushed_after(self.unflushed, (bs.len() - i) as nat, t)
                    == spec_unflushed_after(old(self).unflushed, bs.len(), t),
                (any || spec_any_flush(self.unflushed, (bs.len() - i) as nat, t))
                    == spec_any_flush(old(self).unflushed, bs.len(), t),
            decreases batch.len() - i,
        {
            let ghost rest = bs.subrange(i as int, bs.len() as int);
            proof {
                assert(rest[0] == bs[i as int]);
                assert(bs[i as int] == batch@[i as int]@);
                assert(rest.drop_first() =~= bs.subrange(i + 1, bs.len() as int));
                assert(self@ + seq![bs[i as int]] =~= old(self)@ + bs.subrange(0, i + 1));
            }
            let m = batch[i].duplicate();
            let res = self.append(m);
            match res {
                Ok(flush) => {
                    any = any || flush;
                },
                Err(_) => {
                    proof {
                        assert(false);
                    }
                },
            }
            i = i + 1;
        }
        any
    }
}

proof fn lemma_trim_len(ms: Seq<MessageModel>, budget: u64)
    ensures
        spec_trim(ms, budget).len() <= ms.len(),
    decreases ms.len(),
{
    if !(fits(ms, budget) || ms.len() == 0) {
        lemma_trim_len(ms.drop_first(), budget);
    }
}

/// The nearest preceding non-tool message, skipping over tool results.
pub open spec fn preceding_anchor(ms: Seq<MessageModel>) -> Option<MessageModel>
    decreases ms.len(),
{
    if ms.len() == 0 {
        None
    } else if ms.last().role == Role::Tool {
        preceding_anchor(ms.drop_last())
    } else {
        Some(ms.last())
    }
}

proof fn lemma_answers_via_anchor(ms: Seq<MessageModel>, id: Seq<char>)
    ensures
        answers_preceding(ms, id) == (match preceding_anchor(ms) {
            Some(a) => a.role == Role::Assistant && has_invocation(a.tool_calls, id),
            None => false,
        }),
    decreases ms.len(),
{
    if ms.len() > 0 && ms.last().role == Role::Tool {
        lemma_answers_via_anchor(ms.drop_last(), id);
    }
}

/// A tool message that answers one of the anchor's invocations.
pub open spec fn tool_answering(m: MessageModel, anchor: MessageModel) -> bool {
    m.role == Role::Tool && match m.tool_call_id {
        Some(id) => has_invocation(anchor.tool_calls, id),
        None => false,
    }
}

/// A batch of tool messages that all answer invocations of the preceding
/// assistant message may be appended whole.
pub proof fn lemma_batch_of_tools_ok(
    base: Seq<MessageModel>,
    anchor: MessageModel,
    batch: Seq<MessageModel>,
)
    requires
        preceding_anchor(base) == Some(anchor),
        anchor.role == Role::Assistant,
        forall|i: int| 0 <= i < batch.len() ==> tool_answering(#[trigger] batch[i], anchor),
    ensures
        batch_ok(base, batch),
    decreases batch.len(),
{
    if batch.len() > 0 {
        match batch[0].tool_call_id {
            Some(id) => {
                lemma_answers_via_anchor(base, id);
                assert(append_ok(base, batch[0]));
                let base2 = base + seq![batch[0]];
                assert(base2.last() == batch[0]);
                assert(base2.drop_last() =~= base);
                assert(preceding_anchor(base2) == Some(anchor));
                assert(forall|i: int|
                    0 <= i < batch.drop_first().len() ==> tool_answering(
                        #[trigger] batch.drop_first()[i],
                        anchor,
                    )) by {
                    assert(forall|i: int|
                        0 <= i < batch.len() - 1 ==> #[trigger] batch.drop_first()[i]
                            == batch[i + 1]);
                }
                lemma_batch_of_tools_ok(base2, anchor, batch.drop_first());
            },
            None => {
                assert(false);
            },
        }
    }
}

/// A loaded log respects the budget: what trimming keeps is a suffix of
/// the stored log whose estimated size is at most the budget.
pub proof fn lemma_load_within_budget(ms: Seq<MessageModel>, budget: u64)
    requires
        budget < u64::MAX,
    ensures
        history_size(spec_trim(ms, budget)) <= budget,
        spec_trim(ms, budget) == ms.subrange(
            ms.len() - spec_trim(ms, budget).len(),
            ms.len() as int,
        ),
    decreases ms.len(),
{
    if fits(ms, budget) || ms.len() == 0 {
        assert(ms.subrange(0, ms.len() as int) =~= ms);
    } else {
        lemma_load_within_budget(ms.drop_first(), budget);
        let r = spec_trim(ms, budget);
        let d = ms.drop_first();
        assert(r == spec_trim(d, budget));
        lemma_trim_len(d, budget);
        assert(r.len() <= d.len());
        assert(forall|q: int| 0 <= q < d.len() ==> #[trigger] d[q] == ms[q + 1]);
        assert(d.subrange(d.len() - r.len(), d.len() as int) =~= ms.subrange(
            ms.len() - r.len(),
            ms.len() as int,
        ));
    }
}

/// Round trip: a persisted log reloaded with an unbounded budget is kept
/// whole, in the same order.
pub proof fn lemma_round_trip(ms: Seq<MessageModel>)
    ensures
        spec_trim(ms, u64::MAX) == ms,
{
    assert(fits(ms, u64::MAX));
}

} // verus!
