//! Assembly of streamed partial response fragments into a finished turn:
//! text and refusal deltas are concatenated in arrival order, and indexed
//! tool-call deltas are merged into per-index accumulators.
use vstd::prelude::*;

use crate::message::{InvocationModel, ToolInvocation};

verus! {

/// One partial tool-call update: which in-progress invocation it extends
/// (by index), and the id/name/argument text it contributes.
#[derive(Debug)]
pub struct ToolCallDelta {
    pub index: u64,
    pub id: Option<String>,
    pub name: Option<String>,
    pub arguments: Option<String>,
}

/// Model of a tool-call delta: an absent text contributes nothing.
#[verifier::ext_equal]
pub ghost struct DeltaModel {
    pub index: u64,
    pub id: Seq<char>,
    pub name: Seq<char>,
    pub arguments: Seq<char>,
}

pub open spec fn opt_chars(o: Option<String>) -> Seq<char> {
    match o {
        Some(s) => s@,
        None => Seq::empty(),
    }
}

impl View for ToolCallDelta {
    type V = DeltaModel;

    open spec fn view(&self) -> DeltaModel {
        DeltaModel {
            index: self.index,
            id: opt_chars(self.id),
            name: opt_chars(self.name),
            arguments: opt_chars(self.arguments),
        }
    }
}

/// One unit of a streamed response: partial text, partial refusal text,
/// and any number of tool-call deltas.
#[derive(Debug)]
pub struct Fragment {
    pub content: Option<String>,
    pub refusal: Option<String>,
    pub tool_calls: Vec<ToolCallDelta>,
}

#[verifier::ext_equal]
pub ghost struct FragmentModel {
    pub content: Seq<char>,
    pub refusal: Seq<char>,
    pub tool_calls: Seq<DeltaModel>,
}

pub open spec fn deltas_model(s: Seq<ToolCallDelta>) -> Seq<DeltaModel> {
    s.map_values(|d: ToolCallDelta| d@)
}

impl View for Fragment {
    type V = FragmentModel;

    open spec fn view(&self) -> FragmentModel {
        FragmentModel {
            content: opt_chars(self.content),
            refusal: opt_chars(self.refusal),
            tool_calls: deltas_model(self.tool_calls@),
        }
    }
}

/// The in-progress accumulator for one invocation index.
#[derive(Debug)]
pub struct ToolCallAcc {
    pub index: u64,
    pub id: String,
    pub name: String,
    pub arguments: String,
}

#[verifier::ext_equal]
pub ghost struct AccModel {
    pub index: u64,
    pub id: Seq<char>,
    pub name: Seq<char>,
    pub arguments: Seq<char>,
}

impl View for ToolCallAcc {
    type V = AccModel;

    open spec fn view(&self) -> AccModel {
        AccModel { index: self.index, id: self.id@, name: self.name@, arguments: self.arguments@ }
    }
}

pub open spec fn accs_model(s: Seq<ToolCallAcc>) -> Seq<AccModel> {
    s.map_values(|a: ToolCallAcc| a@)
}

/// The accumulator a delta opens at a fresh index.
pub open spec fn new_acc(d: DeltaModel) -> AccModel {
    AccModel { index: d.index, id: d.id, name: d.name, arguments: d.arguments }
}

/// An existing accumulator extended by a delta: every part is appended,
/// never overwritten.
pub open spec fn extended_acc(a: AccModel, d: DeltaModel) -> AccModel {
    AccModel {
        index: a.index,
        id: a.id + d.id,
        name: a.name + d.name,
        arguments: a.arguments + d.arguments,
    }
}

/// Effect of one delta on the accumulator list, which is kept sorted by
/// index: extend the matching entry, or insert a fresh one in order.
pub open spec fn spec_apply_delta(cs: Seq<AccModel>, d: DeltaModel) -> Seq<AccModel>
    decreases cs.len(),
{
    if cs.len() == 0 {
        seq![new_acc(d)]
    } else if cs[0].index == d.index {
        seq![extended_acc(cs[0], d)] + cs.drop_first()
    } else if d.index < cs[0].index {
        seq![new_acc(d)] + cs
    } else {
        seq![cs[0]] + spec_apply_delta(cs.drop_first(), d)
    }
}

/// Effect of a delta sequence, applied in arrival order.
pub open spec fn spec_apply_deltas(cs: Seq<AccModel>, ds: Seq<DeltaModel>) -> Seq<AccModel>
    decreases ds.len(),
{
    if ds.len() == 0 {
        cs
    } else {
        spec_apply_deltas(spec_apply_delta(cs, ds[0]), ds.drop_first())
    }
}

/// Model of the whole assembler state.
#[verifier::ext_equal]
pub ghost struct AssemblerModel {
    pub content: Seq<char>,
    pub refusal: Seq<char>,
    pub calls: Seq<AccModel>,
}

/// Effect of one fragment on the assembler state.
pub open spec fn spec_apply_fragment(m: AssemblerModel, f: FragmentModel) -> AssemblerModel {
    AssemblerModel {
        content: m.content + f.content,
        refusal: m.refusal + f.refusal,
        calls: spec_apply_deltas(m.calls, f.tool_calls),
    }
}

/// Effect of a fragment sequence, in arrival order.
pub open spec fn spec_apply_fragments(m: AssemblerModel, fs: Seq<FragmentModel>) -> AssemblerModel
    decreases fs.len(),
{
    if fs.len() == 0 {
        m
    } else {
        spec_apply_fragments(spec_apply_fragment(m, fs[0]), fs.drop_first())
    }
}

/// Accumulator indices are strictly increasing.
pub open spec fn accs_sorted(cs: Seq<AccModel>) -> bool {
    forall|i: int, j: int| 0 <= i < j < cs.len() ==> cs[i].index < cs[j].index
}

/// Merges partial response fragments into a finished turn. All state is
/// turn-scoped: a fresh assembler is made at turn start and consumed at
/// turn end.
#[derive(Debug)]
pub struct StreamAssembler {
    pub content: String,
    pub refusal: String,
    pub calls: Vec<ToolCallAcc>,
}

impl View for StreamAssembler {
    type V = AssemblerModel;

    open spec fn view(&self) -> AssemblerModel {
        AssemblerModel {
            content: self.content@,
            refusal: self.refusal@,
            calls: accs_model(self.calls@),
        }
    }
}

/// A finished turn: final text, final refusal, and the completed
/// invocations in index order.
#[derive(Debug)]
pub struct AssembledTurn {
    pub content: String,
    pub refusal: String,
    pub invocations: Vec<ToolInvocation>,
}

/// The invocation an accumulator completes into.
pub open spec fn acc_invocation(a: AccModel) -> InvocationModel {
    InvocationModel { id: a.id, name: a.name, arguments: a.arguments }
}

pub open spec fn accs_invocations(cs: Seq<AccModel>) -> Seq<InvocationModel> {
    cs.map_values(|a: AccModel| acc_invocation(a))
}

fn opt_str(o: &Option<String>) -> (r: &str)
    ensures
        r@ == opt_chars(*o),
{
    match o {
        Some(s) => s.as_str(),
        None => {
            proof {
                reveal_strlit("");
                assert(""@ =~= Seq::<char>::empty());
            }
            ""
        },
    }
}

/// Splitting at a position whose left side has only smaller indices
/// commutes with applying a delta.
proof fn lemma_apply_delta_split(cs: Seq<AccModel>, d: DeltaModel, i: int)
    requires
        0 <= i <= cs.len(),
        forall|j: int| 0 <= j < i ==> cs[j].index < d.index,
    ensures
        spec_apply_delta(cs, d) == cs.subrange(0, i) + spec_apply_delta(
            cs.subrange(i, cs.len() as int),
            d,
        ),
    decreases i,
{
    if i == 0 {
        assert(cs.subrange(0, cs.len() as int) =~= cs);
        assert(cs.subrange(0, 0) + spec_apply_delta(cs, d) =~= spec_apply_delta(cs, d));
    } else {
        assert(cs.len() > 0 && cs[0].index < d.index);
        let rest = cs.drop_first();
        assert(forall|j: int| 0 <= j < i - 1 ==> #[trigger] rest[j].index == cs[j + 1].index);
        lemma_apply_delta_split(rest, d, i - 1);
        assert(rest.subrange(0, i - 1) =~= cs.subrange(1, i));
        assert(rest.subrange(i - 1, rest.len() as int) =~= cs.subrange(i, cs.len() as int));
        assert(seq![cs[0]] + (cs.subrange(1, i) + spec_apply_delta(
            cs.subrange(i, cs.len() as int),
            d,
        )) =~= cs.subrange(0, i) + spec_apply_delta(cs.subrange(i, cs.len() as int), d));
    }
}

/// Applying a delta keeps the accumulator list sorted by index.
proof fn lemma_apply_delta_sorted(cs: Seq<AccModel>, d: DeltaModel)
    requires
        accs_sorted(cs),
    ensures
        accs_sorted(spec_apply_delta(cs, d)),
        spec_apply_delta(cs, d).len() >= 1,
        forall|j: int|
            0 <= j < spec_apply_delta(cs, d).len() ==> #[trigger] spec_apply_delta(cs, d)[j].index
                >= vstd::math::min(
                d.index as int,
                if cs.len() == 0 { d.index as int } else { cs[0].index as int },
            ),
    decreases cs.len(),
{
    if cs.len() == 0 {
    } else if cs[0].index == d.index {
    } else if d.index < cs[0].index {
    } else {
        let rest = cs.drop_first();
        assert(accs_sorted(rest)) by {
            assert(forall|j: int| 0 <= j < rest.len() ==> #[trigger] rest[j] == cs[j + 1]);
        }
        lemma_apply_delta_sorted(rest, d);
    }
}

impl StreamAssembler {
    /// A fresh assembler with empty buffers and no in-progress invocations.
    pub fn new() -> (r: StreamAssembler)
        ensures
            r@ == (AssemblerModel {
                content: Seq::<char>::empty(),
                refusal: Seq::<char>::empty(),
                calls: Seq::<AccModel>::empty(),
            }),
            accs_sorted(r@.calls),
    {
        let r = StreamAssembler {
            content: String::new(),
            refusal: String::new(),
            calls: Vec::new(),
        };
        proof {
            assert(accs_model(r.calls@) =~= Seq::<AccModel>::empty());
            assert(r@ =~= (AssemblerModel {
                content: Seq::<char>::empty(),
                refusal: Seq::<char>::empty(),
                calls: Seq::<AccModel>::empty(),
            }));
        }
        r
    }

    /// Merges one tool-call delta into the accumulator list.
    fn merge_delta(&mut self, d: &ToolCallDelta)
        requires
            accs_sorted(old(self)@.calls),
        ensures
            final(self)@.calls == spec_apply_delta(old(self)@.calls, d@),
            final(self)@.content == old(self)@.content,
            final(self)@.refusal == old(self)@.refusal,
            accs_sorted(final(self)@.calls),
    {
        let ghost cs = accs_model(self.calls@);
        let mut i: usize = 0;
        loop
            invariant
                i <= self.calls.len(),
                cs == accs_model(self.calls@),
                accs_sorted(cs),
                self.content == old(self).content,
                self.refusal == old(self).refusal,
                self.calls == old(self).calls,
                forall|j: int| 0 <= j < i ==> cs[j].index < d.index,
            decreases self.calls.len() - i,
        {
            proof {
                lemma_apply_delta_split(cs, d@, i as int);
            }
            if i == self.calls.len() {
                self.calls.push(
                    ToolCallAcc {
                        index: d.index,
                        id: opt_str(&d.id).to_owned(),
                        name: opt_str(&d.name).to_owned(),
                        arguments: opt_str(&d.arguments).to_owned(),
                    },
                );
                proof {
                    assert(cs.subrange(i as int, cs.len() as int).len() == 0);
                    assert(spec_apply_delta(cs, d@) =~= cs + seq![new_acc(d@)]);
                    assert(accs_model(self.calls@) =~= cs + seq![new_acc(d@)]);
                    lemma_apply_delta_sorted(cs, d@);
                }
                return ;
            }
            let same = self.calls[i].index == d.index;
            let later = d.index < self.calls[i].index;
            proof {
                assert(cs[i as int] == self.calls@[i as int]@);
            }
            if same {
                let mut a = self.calls.remove(i);
                a.id.append(opt_str(&d.id));
                a.name.append(opt_str(&d.name));
                a.arguments.append(opt_str(&d.arguments));
                self.calls.insert(i, a);
                proof {
                    let ghost tail = cs.subrange(i as int, cs.len() as int);
                    assert(tail[0] == cs[i as int]);
                    assert(tail[0].index == d@.index);
                    assert(spec_apply_delta(tail, d@) == seq![extended_acc(tail[0], d@)]
                        + tail.drop_first());
                    assert(accs_model(self.calls@) =~= cs.subrange(0, i as int) + (seq![
                        extended_acc(tail[0], d@),
                    ] + tail.drop_first()));
                    assert(accs_model(self.calls@) =~= spec_apply_delta(cs, d@));
                    lemma_apply_delta_sorted(cs, d@);
                }
                return ;
            }
            if later {
                self.calls.insert(
                    i,
                    ToolCallAcc {
                        index: d.index,
                        id: opt_str(&d.id).to_owned(),
                        name: opt_str(&d.name).to_owned(),
                        arguments: opt_str(&d.arguments).to_owned(),
                    },
                );
                proof {
                    let ghost tail = cs.subrange(i as int, cs.len() as int);
                    assert(tail[0] == cs[i as int]);
                    assert(d@.index < tail[0].index);
                    assert(spec_apply_delta(tail, d@) == seq![new_acc(d@)] + tail);
                    assert(accs_model(self.calls@) =~= cs.subrange(0, i as int) + (seq![
                        new_acc(d@),
                    ] + tail));
                    assert(accs_model(self.calls@) =~= spec_apply_delta(cs, d@));
                    lemma_apply_delta_sorted(cs, d@);
                }
                return ;
            }
            i = i + 1;
        }
    }

    /// Folds one fragment into the assembler: text and refusal deltas are
    /// appended in arrival order, tool-call deltas are merged by index.
    pub fn process_fragment(&mut self, f: &Fragment)
        requires
            accs_sorted(old(self)@.calls),
        ensures
            final(self)@ == spec_apply_fragment(old(self)@, f@),
            accs_sorted(final(self)@.calls),
    {
        match &f.content {
            Some(c) => self.content.append(c.as_str()),
            None => {
                proof {
                    assert(self.content@ + opt_chars(f.content) =~= self.content@);
                }
            },
        }
        match &f.refusal {
            Some(r) => self.refusal.append(r.as_str()),
            None => {
                proof {
                    assert(self.refusal@ + opt_chars(f.refusal) =~= self.refusal@);
                }
            },
        }
        let ghost start = self@;
        let ghost ds = deltas_model(f.tool_calls@);
        proof {
            assert(ds.subrange(0, ds.len() as int) =~= ds);
        }
        let mut i: usize = 0;
        while i < f.tool_calls.len()
            invariant
                i <= f.tool_calls.len(),
                ds == deltas_model(f.tool_calls@),
                accs_sorted(self@.calls),
                self@.content == start.content,
                self@.refusal == start.refusal,
                spec_apply_deltas(self@.calls, ds.subrange(i as int, ds.len() as int))
                    == spec_apply_deltas(start.calls, ds),
            decreases f.tool_calls.len() - i,
        {
            let ghost rest = ds.subrange(i as int, ds.len() as int);
            proof {
                assert(rest[0] == ds[i as int]);
                assert(ds[i as int] == f.tool_calls@[i as int]@);
                assert(rest.drop_first() =~= ds.subrange(i + 1, ds.len() as int));
            }
            self.merge_delta(&f.tool_calls[i]);
            i = i + 1;
        }
        proof {
            assert(ds.subrange(ds.len() as int, ds.len() as int).len() == 0);
            assert(final(self)@ =~= spec_apply_fragment(old(self)@, f@));
        }
    }

    /// Finishes the turn: the accumulated text and refusal, and one
    /// completed invocation per accumulator, in index order.
    pub fn finalize(self) -> (r: AssembledTurn)
        ensures
            r.content@ == self@.content,
            r.refusal@ == self@.refusal,
            r.invocations@.map_values(|t: ToolInvocation| t@) == accs_invocations(self@.calls),
    {
        let mut invocations: Vec<ToolInvocation> = Vec::new();
        let mut i: usize = 0;
        while i < self.calls.len()
            invariant
                i <= self.calls.len(),
                invocations@.len() == i,
                forall|j: int|
                    0 <= j < i ==> invocations@[j]@ == acc_invocation(
                        #[trigger] self.calls@[j]@,
                    ),
            decreases self.calls.len() - i,
        {
            let a = &self.calls[i];
            invocations.push(
                ToolInvocation {
                    id: a.id.clone(),
                    name: a.name.clone(),
                    arguments: a.arguments.clone(),
                },
            );
            i = i + 1;
        }
        proof {
            assert(invocations@.map_values(|t: ToolInvocation| t@) =~= accs_invocations(
                self@.calls,
            ));
        }
        AssembledTurn { content: self.content, refusal: self.refusal, invocations }
    }
}

/// The text of a fragment sequence, concatenated in arrival order.
pub open spec fn flat_content(fs: Seq<FragmentModel>) -> Seq<char>
    decreases fs.len(),
{
    if fs.len() == 0 {
        Seq::empty()
    } else {
        fs[0].content + flat_content(fs.drop_first())
    }
}

pub open spec fn flat_refusal(fs: Seq<FragmentModel>) -> Seq<char>
    decreases fs.len(),
{
    if fs.len() == 0 {
        Seq::empty()
    } else {
        fs[0].refusal + flat_refusal(fs.drop_first())
    }
}

pub open spec fn flat_deltas(fs: Seq<FragmentModel>) -> Seq<DeltaModel>
    decreases fs.len(),
{
    if fs.len() == 0 {
        Seq::empty()
    } else {
        fs[0].tool_calls + flat_deltas(fs.drop_first())
    }
}

proof fn lemma_apply_deltas_concat(cs: Seq<AccModel>, d1: Seq<DeltaModel>, d2: Seq<DeltaModel>)
    ensures
        spec_apply_deltas(cs, d1 + d2) == spec_apply_deltas(spec_apply_deltas(cs, d1), d2),
    decreases d1.len(),
{
    if d1.len() == 0 {
        assert(d1 + d2 =~= d2);
    } else {
        assert((d1 + d2)[0] == d1[0]);
        assert((d1 + d2).drop_first() =~= d1.drop_first() + d2);
        lemma_apply_deltas_concat(spec_apply_delta(cs, d1[0]), d1.drop_first(), d2);
    }
}

/// What a fragment sequence assembles to depends only on the concatenated
/// text, the concatenated refusal text, and the flattened delta sequence.
pub proof fn lemma_assembled_from_flats(m: AssemblerModel, fs: Seq<FragmentModel>)
    ensures
        spec_apply_fragments(m, fs) == (AssemblerModel {
            content: m.content + flat_content(fs),
            refusal: m.refusal + flat_refusal(fs),
            calls: spec_apply_deltas(m.calls, flat_deltas(fs)),
        }),
    decreases fs.len(),
{
    if fs.len() == 0 {
        assert(m.content + flat_content(fs) =~= m.content);
        assert(m.refusal + flat_refusal(fs) =~= m.refusal);
        assert(m =~= (AssemblerModel {
            content: m.content + flat_content(fs),
            refusal: m.refusal + flat_refusal(fs),
            calls: spec_apply_deltas(m.calls, flat_deltas(fs)),
        }));
    } else {
        let m1 = spec_apply_fragment(m, fs[0]);
        lemma_assembled_from_flats(m1, fs.drop_first());
        lemma_apply_deltas_concat(m.calls, fs[0].tool_calls, flat_deltas(fs.drop_first()));
        assert(m.content + fs[0].content + flat_content(fs.drop_first()) =~= m.content
            + flat_content(fs));
        assert(m.refusal + fs[0].refusal + flat_refusal(fs.drop_first()) =~= m.refusal
            + flat_refusal(fs));
        assert(spec_apply_fragments(m, fs) =~= (AssemblerModel {
            content: m.content + flat_content(fs),
            refusal: m.refusal + flat_refusal(fs),
            calls: spec_apply_deltas(m.calls, flat_deltas(fs)),
        }));
    }
}

/// However a stream is split into fragments, the assembled turn is the
/// same: two fragment sequences with the same concatenated text, refusal
/// and delta sequence assemble to the same state.
pub proof fn lemma_split_invariance(
    m: AssemblerModel,
    fs1: Seq<FragmentModel>,
    fs2: Seq<FragmentModel>,
)
    requires
        flat_content(fs1) == flat_content(fs2),
        flat_refusal(fs1) == flat_refusal(fs2),
        flat_deltas(fs1) == flat_deltas(fs2),
    ensures
        spec_apply_fragments(m, fs1) == spec_apply_fragments(m, fs2),
{
    lemma_assembled_from_flats(m, fs1);
    lemma_assembled_from_flats(m, fs2);
}

/// The accumulator holding index `k`, if one exists.
pub open spec fn entry_for(cs: Seq<AccModel>, k: u64) -> Option<AccModel>
    decreases cs.len(),
{
    if cs.len() == 0 {
        None
    } else if cs[0].index == k {
        Some(cs[0])
    } else {
        entry_for(cs.drop_first(), k)
    }
}

/// Some delta in `ds` is addressed to index `k`.
pub open spec fn has_index(ds: Seq<DeltaModel>, k: u64) -> bool
    decreases ds.len(),
{
    if ds.len() == 0 {
        false
    } else {
        ds[0].index == k || has_index(ds.drop_first(), k)
    }
}

/// Concatenation, in arrival order, of the id texts of the deltas
/// addressed to index `k`.
pub open spec fn ids_to(ds: Seq<DeltaModel>, k: u64) -> Seq<char>
    decreases ds.len(),
{
    if ds.len() == 0 {
        Seq::empty()
    } else {
        (if ds[0].index == k {
            ds[0].id
        } else {
            Seq::empty()
        }) + ids_to(ds.drop_first(), k)
    }
}

pub open spec fn names_to(ds: Seq<DeltaModel>, k: u64) -> Seq<char>
    decreases ds.len(),
{
    if ds.len() == 0 {
        Seq::empty()
    } else {
        (if ds[0].index == k {
            ds[0].name
        } else {
            Seq::empty()
        }) + names_to(ds.drop_first(), k)
    }
}

pub open spec fn args_to(ds: Seq<DeltaModel>, k: u64) -> Seq<char>
    decreases ds.len(),
{
    if ds.len() == 0 {
        Seq::empty()
    } else {
        (if ds[0].index == k {
            ds[0].arguments
        } else {
            Seq::empty()
        }) + args_to(ds.drop_first(), k)
    }
}

proof fn lemma_entry_index(cs: Seq<AccModel>, k: u64)
    ensures
        entry_for(cs, k) matches Some(e) ==> e.index == k,
    decreases cs.len(),
{
    if cs.len() > 0 && cs[0].index != k {
        lemma_entry_index(cs.drop_first(), k);
    }
}

proof fn lemma_entry_absent(cs: Seq<AccModel>, k: u64)
    requires
        forall|j: int| 0 <= j < cs.len() ==> #[trigger] cs[j].index != k,
    ensures
        entry_for(cs, k) is None,
    decreases cs.len(),
{
    if cs.len() > 0 {
        let rest = cs.drop_first();
        assert(forall|j: int| 0 <= j < rest.len() ==> #[trigger] rest[j] == cs[j + 1]);
        lemma_entry_absent(rest, k);
    }
}

proof fn lemma_entry_after_delta(cs: Seq<AccModel>, d: DeltaModel, k: u64)
    requires
        accs_sorted(cs),
    ensures
        entry_for(spec_apply_delta(cs, d), k) == (if k == d.index {
            Some(
                match entry_for(cs, k) {
                    Some(e) => extended_acc(e, d),
                    None => new_acc(d),
                },
            )
        } else {
            entry_for(cs, k)
        }),
    decreases cs.len(),
{
    let a = spec_apply_delta(cs, d);
    if cs.len() == 0 {
        assert(a == seq![new_acc(d)]);
        assert(a[0] == new_acc(d));
        assert(a.drop_first() =~= Seq::<AccModel>::empty());
        assert(entry_for(cs, k) is None);
        if k == d.index {
            assert(entry_for(a, k) == Some(new_acc(d)));
        } else {
            assert(entry_for(a, k) == entry_for(a.drop_first(), k));
            assert(entry_for(a.drop_first(), k) is None);
        }
    } else if cs[0].index == d.index {
        assert(a == seq![extended_acc(cs[0], d)] + cs.drop_first());
        assert(a[0] == extended_acc(cs[0], d));
        assert(a.drop_first() =~= cs.drop_first());
        if k == d.index {
            assert(entry_for(a, k) == Some(extended_acc(cs[0], d)));
            assert(entry_for(cs, k) == Some(cs[0]));
        } else {
            assert(entry_for(a, k) == entry_for(cs.drop_first(), k));
            assert(entry_for(cs, k) == entry_for(cs.drop_first(), k));
        }
    } else if d.index < cs[0].index {
        assert(a == seq![new_acc(d)] + cs);
        assert(a[0] == new_acc(d));
        assert(a.drop_first() =~= cs);
        if k == d.index {
            assert(forall|j: int| 0 <= j < cs.len() ==> #[trigger] cs[j].index != k) by {
                assert(forall|j: int|
                    1 <= j < cs.len() ==> cs[0].index < #[trigger] cs[j].index);
            }
            lemma_entry_absent(cs, k);
            assert(entry_for(a, k) == Some(new_acc(d)));
        } else {
            assert(entry_for(a, k) == entry_for(cs, k));
        }
    } else {
        let rest = cs.drop_first();
        assert(forall|j: int| 0 <= j < rest.len() ==> #[trigger] rest[j] == cs[j + 1]);
        assert(accs_sorted(rest));
        lemma_entry_after_delta(rest, d, k);
        assert(a == seq![cs[0]] + spec_apply_delta(rest, d));
        assert(a[0] == cs[0]);
        assert(a.drop_first() =~= spec_apply_delta(rest, d));
        if k == cs[0].index {
            assert(k != d.index);
            assert(entry_for(a, k) == Some(cs[0]));
            assert(entry_for(cs, k) == Some(cs[0]));
        } else {
            assert(entry_for(a, k) == entry_for(spec_apply_delta(rest, d), k));
            assert(entry_for(cs, k) == entry_for(rest, k));
        }
    }
}

proof fn lemma_accumulation_general(cs: Seq<AccModel>, ds: Seq<DeltaModel>, k: u64)
    requires
        accs_sorted(cs),
    ensures
        entry_for(spec_apply_deltas(cs, ds), k) == (match entry_for(cs, k) {
            Some(e) => Some(
                AccModel {
                    index: e.index,
                    id: e.id + ids_to(ds, k),
                    name: e.name + names_to(ds, k),
                    arguments: e.arguments + args_to(ds, k),
                },
            ),
            None => if has_index(ds, k) {
                Some(
                    AccModel {
                        index: k,
                        id: ids_to(ds, k),
                        name: names_to(ds, k),
                        arguments: args_to(ds, k),
                    },
                )
            } else {
                None
            },
        }),
    decreases ds.len(),
{
    lemma_entry_index(cs, k);
    if ds.len() == 0 {
        match entry_for(cs, k) {
            Some(e) => {
                assert(e.id + ids_to(ds, k) =~= e.id);
                assert(e.name + names_to(ds, k) =~= e.name);
                assert(e.arguments + args_to(ds, k) =~= e.arguments);
                assert(Some(
                    AccModel {
                        index: e.index,
                        id: e.id + ids_to(ds, k),
                        name: e.name + names_to(ds, k),
                        arguments: e.arguments + args_to(ds, k),
                    },
                ) =~= Some(e));
            },
            None => {},
        }
    } else {
        let d0 = ds[0];
        let dd = ds.drop_first();
        let cs1 = spec_apply_delta(cs, d0);
        lemma_apply_delta_sorted(cs, d0);
        lemma_entry_after_delta(cs, d0, k);
        lemma_entry_index(cs1, k);
        lemma_accumulation_general(cs1, dd, k);
        if k == d0.index {
            match entry_for(cs, k) {
                Some(e) => {
                    assert(entry_for(cs1, k) == Some(extended_acc(e, d0)));
                    assert((e.id + d0.id) + ids_to(dd, k) =~= e.id + ids_to(ds, k));
                    assert((e.name + d0.name) + names_to(dd, k) =~= e.name + names_to(ds, k));
                    assert((e.arguments + d0.arguments) + args_to(dd, k) =~= e.arguments
                        + args_to(ds, k));
                    assert(entry_for(spec_apply_deltas(cs, ds), k) =~= Some(
                        AccModel {
                            index: e.index,
                            id: e.id + ids_to(ds, k),
                            name: e.name + names_to(ds, k),
                            arguments: e.arguments + args_to(ds, k),
                        },
                    ));
                },
                None => {
                    assert(entry_for(cs1, k) == Some(new_acc(d0)));
                    assert(d0.id + ids_to(dd, k) =~= ids_to(ds, k));
                    assert(d0.name + names_to(dd, k) =~= names_to(ds, k));
                    assert(d0.arguments + args_to(dd, k) =~= args_to(ds, k));
                    assert(entry_for(spec_apply_deltas(cs, ds), k) =~= Some(
                        AccModel {
                            index: k,
                            id: ids_to(ds, k),
                            name: names_to(ds, k),
                            arguments: args_to(ds, k),
                        },
                    ));
                },
            }
        } else {
            assert(entry_for(cs1, k) == entry_for(cs, k));
            assert(ids_to(ds, k) =~= ids_to(dd, k));
            assert(names_to(ds, k) =~= names_to(dd, k));
            assert(args_to(ds, k) =~= args_to(dd, k));
            assert(has_index(ds, k) == has_index(dd, k));
        }
    }
}

/// However deltas for distinct indices are interleaved, each index's
/// accumulator ends up holding exactly the concatenation, in arrival
/// order, of the id, name and argument texts addressed to that index.
pub proof fn lemma_interleaved_accumulation(ds: Seq<DeltaModel>, k: u64)
    ensures
        entry_for(spec_apply_deltas(Seq::empty(), ds), k) == (if has_index(ds, k) {
            Some(
                AccModel {
                    index: k,
                    id: ids_to(ds, k),
                    name: names_to(ds, k),
                    arguments: args_to(ds, k),
                },
            )
        } else {
            None::<AccModel>
        }),
{
    lemma_accumulation_general(Seq::empty(), ds, k);
}

} // verus!
