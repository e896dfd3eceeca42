//! The extraction orchestrator's decision core: sizing a run, chunking the
//! identifier batch, collecting one outcome per dispatched identifier, and
//! planning the persistence writes for a batch of outcomes. The worker
//! pool, the result channel and the storage engine live outside; they hand
//! plain values in and take plain values back.

use vstd::prelude::*;
use crate::content::ArxivPaperContent;
use crate::err::kind_code;
use crate::extraction::ExtractError;
use crate::extraction::ExtractResultRecord;
use crate::text::string_views;

verus! {

/// The per-identifier result of the pipeline: content on full success, a
/// tagged failure otherwise — never both, never neither.
#[derive(Debug)]
pub enum ExtractionOutcome {
    Success(ArxivPaperContent),
    Failure(ExtractError),
}

impl ExtractionOutcome {
    /// The identifier the outcome belongs to.
    pub open spec fn id_spec(&self) -> Seq<char> {
        match self {
            ExtractionOutcome::Success(c) => c.id@,
            ExtractionOutcome::Failure(e) => e.arxiv_id@,
        }
    }

    pub fn id(&self) -> (r: &str)
        ensures
            r@ == self.id_spec(),
    {
        match self {
            ExtractionOutcome::Success(c) => c.id.as_str(),
            ExtractionOutcome::Failure(e) => e.arxiv_id.as_str(),
        }
    }
}

/// The identifiers of a batch of outcomes, in order.
pub open spec fn outcome_ids(os: Seq<ExtractionOutcome>) -> Seq<Seq<char>> {
    os.map_values(|o: ExtractionOutcome| o.id_spec())
}

pub open spec fn count_successes(os: Seq<ExtractionOutcome>) -> nat
    decreases os.len(),
{
    if os.len() == 0 {
        0
    } else {
        count_successes(os.drop_last()) + if os.last() is Success {
            1nat
        } else {
            0nat
        }
    }
}

pub open spec fn count_failures(os: Seq<ExtractionOutcome>) -> nat
    decreases os.len(),
{
    if os.len() == 0 {
        0
    } else {
        count_failures(os.drop_last()) + if os.last() is Failure {
            1nat
        } else {
            0nat
        }
    }
}

/// Law: every outcome is a success or a failure and never both, so over any
/// batch the success count and the failure count add up to the batch size.
pub proof fn lemma_outcome_counts(os: Seq<ExtractionOutcome>)
    ensures
        count_successes(os) + count_failures(os) == os.len(),
    decreases os.len(),
{
    if os.len() > 0 {
        lemma_outcome_counts(os.drop_last());
    }
}

/// Collects the outcomes of one dispatched batch. An outcome is accepted
/// only against a dispatched identifier still awaiting one, so a complete
/// batch holds exactly one outcome per dispatched identifier.
pub struct BatchCollector {
    /// The dispatched identifiers that have not answered yet.
    pub pending: Vec<String>,
    /// The outcomes received so far, in arrival order.
    pub outcomes: Vec<ExtractionOutcome>,
}

/// One acceptance step keeps the collector's accounting: moving one pending
/// identifier over to the outcomes leaves the combined identifier multiset
/// unchanged.
proof fn lemma_accounting_step(
    out0: Seq<ExtractionOutcome>,
    pend0: Seq<String>,
    o: ExtractionOutcome,
    i: int,
    d: Seq<Seq<char>>,
)
    requires
        0 <= i < pend0.len(),
        string_views(pend0)[i] == o.id_spec(),
        outcome_ids(out0).to_multiset().add(string_views(pend0).to_multiset()) == d.to_multiset(),
    ensures
        outcome_ids(out0.push(o)).to_multiset().add(
            string_views(pend0.remove(i)).to_multiset(),
        ) == d.to_multiset(),
{
    broadcast use vstd::seq_lib::to_multiset_build;
    broadcast use vstd::seq_lib::to_multiset_remove;
    broadcast use vstd::seq_lib::to_multiset_contains;
    broadcast use vstd::multiset::group_multiset_axioms;

    let a = outcome_ids(out0).to_multiset();
    let b = string_views(pend0).to_multiset();
    let id = o.id_spec();
    assert(outcome_ids(out0.push(o)) =~= outcome_ids(out0).push(id));
    assert(string_views(pend0.remove(i)) =~= string_views(pend0).remove(i));
    assert(outcome_ids(out0).push(id).to_multiset() =~= a.insert(id));
    assert(string_views(pend0).remove(i).to_multiset() =~= b.remove(id));
    assert(b.count(id) >= 1) by {
        assert(string_views(pend0).contains(id));
    }
    assert(a.insert(id).add(b.remove(id)) =~= a.add(b));
}

proof fn lemma_empty_multiset_add(s: Seq<Seq<char>>)
    ensures
        Seq::<Seq<char>>::empty().to_multiset().add(s.to_multiset()) == s.to_multiset(),
{
    broadcast use vstd::seq_lib::to_multiset_len;
    broadcast use vstd::multiset::group_multiset_axioms;

    let e = Seq::<Seq<char>>::empty().to_multiset();
    assert(e.len() == 0);
    assert forall|x: Seq<char>| e.count(x) == 0 by {
        assert(e.count(x) <= e.len());
    }
    assert(e.add(s.to_multiset()) =~= s.to_multiset());
}

impl BatchCollector {
    /// The batch is complete when every dispatched identifier has answered.
    pub open spec fn complete(&self) -> bool {
        self.pending@.len() == 0
    }

    /// The collector accounts for the dispatched identifiers `d`: the
    /// identifiers of the received outcomes, together with those still
    /// awaited, are exactly `d` as a multiset.
    pub open spec fn accounts_for(&self, d: Seq<Seq<char>>) -> bool {
        outcome_ids(self.outcomes@).to_multiset().add(string_views(self.pending@).to_multiset())
            == d.to_multiset()
    }

    /// A collector for the batch of dispatched identifiers.
    pub fn new(ids: Vec<String>) -> (r: Self)
        ensures
            r.pending@ == ids@,
            r.outcomes@.len() == 0,
            r.accounts_for(string_views(ids@)),
    {
        let r = BatchCollector { pending: ids, outcomes: Vec::new() };
        proof {
            assert(outcome_ids(r.outcomes@) =~= Seq::<Seq<char>>::empty());
            lemma_empty_multiset_add(string_views(r.pending@));
        }
        r
    }

    /// Receives one outcome; outcomes may arrive in any order. The outcome
    /// is accepted only against a dispatched identifier still awaiting one;
    /// one with any other identifier is refused, leaving the collector
    /// unchanged. Either way the accounting is kept.
    pub fn record(&mut self, o: ExtractionOutcome) -> (accepted: bool)
        ensures
            accepted ==> {
                &&& final(self).outcomes@ == old(self).outcomes@.push(o)
                &&& exists|idx: int|
                    0 <= idx < old(self).pending@.len() && string_views(old(self).pending@)[idx]
                        == o.id_spec() && final(self).pending@ == old(self).pending@.remove(idx)
            },
            !accepted ==> {
                &&& final(self).pending@ == old(self).pending@
                &&& final(self).outcomes@ == old(self).outcomes@
                &&& !string_views(old(self).pending@).contains(o.id_spec())
            },
            forall|d: Seq<Seq<char>>|
                old(self).accounts_for(d) ==> #[trigger] final(self).accounts_for(d),
    {
        let n = self.pending.len();
        let mut i: usize = 0;
        while i < n
            invariant
                0 <= i <= n,
                n == self.pending@.len(),
                self.pending@ == old(self).pending@,
                self.outcomes@ == old(self).outcomes@,
                forall|t: int| 0 <= t < i ==> string_views(self.pending@)[t] != o.id_spec(),
            decreases n - i,
        {
            let matched = crate::text::str_eq(self.pending[i].as_str(), o.id());
            if matched {
                let ghost pend0 = self.pending@;
                let ghost out0 = self.outcomes@;
                self.pending.remove(i);
                self.outcomes.push(o);
                proof {
                    assert(string_views(pend0)[i as int] == o.id_spec());
                    assert forall|d: Seq<Seq<char>>| old(self).accounts_for(d) implies #[trigger]
                        self.accounts_for(d) by {
                        lemma_accounting_step(out0, pend0, o, i as int, d);
                    }
                }
                return true;
            }
            i += 1;
        }
        proof {
            if string_views(self.pending@).contains(o.id_spec()) {
                let t = choose|t: int|
                    0 <= t < string_views(self.pending@).len() && string_views(self.pending@)[t]
                        == o.id_spec();
                assert(false);
            }
        }
        false
    }

    pub fn is_complete(&self) -> (r: bool)
        ensures
            r == self.complete(),
    {
        self.pending.len() == 0
    }

    /// Hands the batch over for persistence; only a complete batch can be
    /// handed over.
    pub fn into_outcomes(self) -> (r: Vec<ExtractionOutcome>)
        requires
            self.complete(),
        ensures
            r@ == self.outcomes@,
    {
        self.outcomes
    }
}

/// Law: a complete batch's outcomes carry exactly the dispatched
/// identifiers — one outcome per dispatched identifier, counted with
/// multiplicity — and the success and failure counts sum to the batch size.
pub proof fn lemma_complete_batch_accounts(c: BatchCollector, dispatched: Seq<Seq<char>>)
    requires
        c.accounts_for(dispatched),
        c.complete(),
    ensures
        outcome_ids(c.outcomes@).to_multiset() == dispatched.to_multiset(),
        c.outcomes@.len() == dispatched.len(),
        count_successes(c.outcomes@) + count_failures(c.outcomes@) == dispatched.len(),
{
    broadcast use vstd::seq_lib::to_multiset_len;
    broadcast use vstd::multiset::group_multiset_axioms;

    assert(string_views(c.pending@) =~= Seq::<Seq<char>>::empty());
    lemma_empty_multiset_add(string_views(c.pending@));
    let om = outcome_ids(c.outcomes@).to_multiset();
    let pm = string_views(c.pending@).to_multiset();
    assert(pm.len() == 0);
    assert forall|x: Seq<char>| pm.count(x) == 0 by {
        assert(pm.count(x) <= pm.len());
    }
    assert(om.add(pm) =~= om);
    assert(om.len() == dispatched.to_multiset().len());
    assert(outcome_ids(c.outcomes@).len() == c.outcomes@.len());
    lemma_outcome_counts(c.outcomes@);
}

/// One write against the durable store.
#[derive(Debug)]
pub enum DbAction {
    /// Upsert the extracted content row for the outcome's identifier.
    UpdateContent(ArxivPaperContent),
    /// Append one row to the status trail.
    AppendStatus(ExtractResultRecord),
}

/// The identifier a write is keyed by.
pub open spec fn action_id(a: DbAction) -> Seq<char> {
    match a {
        DbAction::UpdateContent(c) => c.id@,
        DbAction::AppendStatus(rec) => rec.arxiv_id@,
    }
}

/// An `OK` status row for the given identifier.
pub open spec fn is_ok_status(a: DbAction, id: Seq<char>) -> bool {
    a matches DbAction::AppendStatus(rec) && rec.arxiv_id@ == id && rec.extract_status@ == "OK"@
        && rec.extract_msg is None
}

/// The status row recording the given failure: its identifier, its kind's
/// code, and its message.
pub open spec fn is_failure_status(a: DbAction, e: ExtractError) -> bool {
    a matches DbAction::AppendStatus(rec) && rec.arxiv_id@ == e.arxiv_id@ && rec.extract_status@
        == kind_code(e.err.kind_spec()) && (rec.extract_msg matches Some(m) && m@
        == e.err.message_spec())
}

/// How many writes one outcome contributes.
pub open spec fn outcome_plan_len(o: ExtractionOutcome, sampled: bool) -> int {
    if o is Success && sampled {
        2
    } else {
        1
    }
}

/// The writes owed to one outcome: a success writes its content row,
/// preceded in sampled mode by an `OK` status row; a failure appends only
/// the status row of its kind and message, and no content write.
pub open spec fn outcome_plan_shape(o: ExtractionOutcome, sampled: bool, acts: Seq<DbAction>) -> bool {
    match o {
        ExtractionOutcome::Success(c) => if sampled {
            &&& acts.len() == 2
            &&& is_ok_status(acts[0], c.id@)
            &&& acts[1] == DbAction::UpdateContent(c)
        } else {
            &&& acts.len() == 1
            &&& acts[0] == DbAction::UpdateContent(c)
        },
        ExtractionOutcome::Failure(e) => {
            &&& acts.len() == 1
            &&& is_failure_status(acts[0], e)
        },
    }
}

/// The plan is exactly the per-outcome write groups, one after another, in
/// the order the outcomes stand.
pub open spec fn plan_matches(
    outcomes: Seq<ExtractionOutcome>,
    sampled: bool,
    plan: Seq<DbAction>,
) -> bool
    decreases outcomes.len(),
{
    if outcomes.len() == 0 {
        plan.len() == 0
    } else {
        let k = outcome_plan_len(outcomes[0], sampled);
        &&& plan.len() >= k
        &&& outcome_plan_shape(outcomes[0], sampled, plan.take(k))
        &&& plan_matches(outcomes.skip(1), sampled, plan.skip(k))
    }
}

/// Appending one outcome's writes to a matching plan keeps it matching.
proof fn lemma_plan_matches_extend(
    os: Seq<ExtractionOutcome>,
    sampled: bool,
    p: Seq<DbAction>,
    o: ExtractionOutcome,
    acts: Seq<DbAction>,
)
    requires
        plan_matches(os, sampled, p),
        outcome_plan_shape(o, sampled, acts),
    ensures
        plan_matches(os.push(o), sampled, p + acts),
    decreases os.len(),
{
    let osp = os.push(o);
    if os.len() == 0 {
        assert(p.len() == 0);
        assert(p + acts =~= acts);
        assert(osp[0] == o);
        let k = outcome_plan_len(o, sampled);
        assert(acts.len() == k);
        assert(acts.take(k) =~= acts);
        assert(osp.skip(1) =~= Seq::<ExtractionOutcome>::empty());
        assert(acts.skip(k) =~= Seq::<DbAction>::empty());
        assert(plan_matches(Seq::<ExtractionOutcome>::empty(), sampled, Seq::<DbAction>::empty()));
        assert(plan_matches(osp.skip(1), sampled, acts.skip(k)));
    } else {
        let k0 = outcome_plan_len(os[0], sampled);
        assert(p.len() >= k0);
        assert((p + acts).take(k0) =~= p.take(k0));
        assert((p + acts).skip(k0) =~= p.skip(k0) + acts);
        assert(osp[0] == os[0]);
        assert(osp.skip(1) =~= os.skip(1).push(o));
        lemma_plan_matches_extend(os.skip(1), sampled, p.skip(k0), o, acts);
    }
}

/// The writes persisting one outcome. A success writes its content row,
/// preceded in sampled mode by an `OK` status row; a failure only appends a
/// status row carrying its kind and message, leaving content untouched.
pub fn plan_outcome(o: ExtractionOutcome, sampled: bool) -> (r: Vec<DbAction>)
    ensures
        forall|t: int| 0 <= t < r@.len() ==> action_id(#[trigger] r@[t]) == o.id_spec(),
        outcome_plan_shape(o, sampled, r@),
{
    let mut r: Vec<DbAction> = Vec::new();
    match o {
        ExtractionOutcome::Success(c) => {
            if sampled {
                let rec = ExtractResultRecord::success(c.id.as_str());
                r.push(DbAction::AppendStatus(rec));
            }
            r.push(DbAction::UpdateContent(c));
        },
        ExtractionOutcome::Failure(e) => {
            let rec = ExtractResultRecord::from_error(e);
            r.push(DbAction::AppendStatus(rec));
        },
    }
    r
}

/// The writes persisting a whole batch, outcome by outcome in the order the
/// outcomes were received. Every write is keyed by an identifier of the
/// batch, and in sampled mode every outcome — success or failure — leaves a
/// status row, which is what the unprocessed-only filter later relies on.
pub fn plan_batch(outcomes: Vec<ExtractionOutcome>, sampled: bool) -> (r: Vec<DbAction>)
    ensures
        plan_matches(outcomes@, sampled, r@),
        r@.len() == if sampled {
            outcomes@.len() + count_successes(outcomes@)
        } else {
            outcomes@.len() as nat
        },
        forall|t: int|
            0 <= t < r@.len() ==> outcome_ids(outcomes@).contains(action_id(#[trigger] r@[t])),
        sampled ==> forall|t: int|
            0 <= t < outcomes@.len() ==> exists|u: int|
                0 <= u < r@.len() && (#[trigger] r@[u]) is AppendStatus && action_id(r@[u]) == (
                #[trigger] outcomes@[t]).id_spec(),
        forall|t: int|
            0 <= t < outcomes@.len() && outcomes@[t] is Success ==> exists|u: int|
                0 <= u < r@.len() && (#[trigger] r@[u]) is UpdateContent && action_id(r@[u]) == (
                #[trigger] outcomes@[t]).id_spec(),
{
    let ghost orig = outcomes@;
    let n = outcomes.len();
    let mut rem = outcomes;
    let mut r: Vec<DbAction> = Vec::new();
    let mut i: usize = 0;
    proof {
        assert(orig.take(0) =~= Seq::<ExtractionOutcome>::empty());
        assert(rem@ =~= orig.skip(0));
        assert(plan_matches(orig.take(0), sampled, r@));
    }
    while rem.len() > 0
        invariant
            0 <= i <= n,
            n == orig.len(),
            rem@ == orig.skip(i as int),
            plan_matches(orig.take(i as int), sampled, r@),
            r@.len() == if sampled {
                orig.take(i as int).len() + count_successes(orig.take(i as int))
            } else {
                orig.take(i as int).len()
            },
            forall|t: int|
                0 <= t < r@.len() ==> outcome_ids(orig).contains(action_id(#[trigger] r@[t])),
            sampled ==> forall|t: int|
                0 <= t < i ==> exists|u: int|
                    0 <= u < r@.len() && (#[trigger] r@[u]) is AppendStatus && action_id(r@[u])
                        == (#[trigger] orig[t]).id_spec(),
            forall|t: int|
                0 <= t < i && orig[t] is Success ==> exists|u: int|
                    0 <= u < r@.len() && (#[trigger] r@[u]) is UpdateContent && action_id(r@[u])
                        == (#[trigger] orig[t]).id_spec(),
        decreases rem@.len(),
    {
        let o = rem.remove(0);
        proof {
            assert(orig.skip(i as int).remove(0) =~= orig.skip(i + 1 as int));
            assert(o == orig[i as int]);
        }
        let ghost r0 = r@;
        let mut acts = plan_outcome(o, sampled);
        let ghost acts0 = acts@;
        r.append(&mut acts);
        proof {
            assert(r@ == r0 + acts0);
            lemma_plan_matches_extend(orig.take(i as int), sampled, r0, o, acts0);
            assert(orig.take(i as int).push(o) =~= orig.take(i + 1 as int));
            assert(orig.take(i + 1 as int).drop_last() =~= orig.take(i as int));
            assert(orig.take(i + 1 as int).last() == orig[i as int]);
            assert(outcome_ids(orig)[i as int] == orig[i as int].id_spec());
            assert forall|t: int| 0 <= t < r@.len() implies outcome_ids(orig).contains(
                action_id(#[trigger] r@[t]),
            ) by {
                if t < r0.len() {
                    assert(r@[t] == r0[t]);
                } else {
                    assert(r@[t] == acts0[t - r0.len()]);
                    assert(action_id(r@[t]) == orig[i as int].id_spec());
                }
            }
            if sampled {
                assert(r@[r0.len() as int] == acts0[0]);
                assert(r@[r0.len() as int] is AppendStatus && action_id(r@[r0.len() as int])
                    == orig[i as int].id_spec());
                assert forall|t: int| 0 <= t < i + 1 implies exists|u: int|
                    0 <= u < r@.len() && (#[trigger] r@[u]) is AppendStatus && action_id(r@[u])
                        == (#[trigger] orig[t]).id_spec() by {
                    if t < i {
                        let u0 = choose|u0: int|
                            0 <= u0 < r0.len() && (#[trigger] r0[u0]) is AppendStatus && action_id(
                                r0[u0],
                            ) == orig[t].id_spec();
                        assert(r@[u0] == r0[u0]);
                        assert(0 <= u0 < r@.len() && r@[u0] is AppendStatus && action_id(r@[u0])
                            == orig[t].id_spec());
                    } else {
                        assert(0 <= r0.len() < r@.len() && r@[r0.len() as int] is AppendStatus
                            && action_id(r@[r0.len() as int]) == orig[t].id_spec());
                    }
                }
            }
            assert forall|t: int| 0 <= t < i + 1 && orig[t] is Success implies exists|u: int|
                0 <= u < r@.len() && (#[trigger] r@[u]) is UpdateContent && action_id(r@[u])
                    == orig[t].id_spec() by {
                if t < i {
                    let u0 = choose|u0: int|
                        0 <= u0 < r0.len() && (#[trigger] r0[u0]) is UpdateContent && action_id(
                            r0[u0],
                        ) == orig[t].id_spec();
                    assert(r@[u0] == r0[u0]);
                    assert(0 <= u0 < r@.len() && r@[u0] is UpdateContent && action_id(r@[u0])
                        == orig[t].id_spec());
                } else {
                    let cu = r0.len() + if sampled {
                        1int
                    } else {
                        0int
                    };
                    assert(r@[cu] == acts0[cu - r0.len()]);
                    assert(r@[cu] is UpdateContent && action_id(r@[cu]) == orig[t].id_spec());
                }
            }
        }
        i += 1;
    }
    proof {
        assert(orig.skip(i as int).len() == 0);
        assert(i == orig.len());
        assert(orig.take(i as int) =~= orig);
    }
    r
}

/// How a run's identifier universe is sized: a requested count switches the
/// run to sampled mode; otherwise every identifier is processed, paged.
pub fn run_universe(count: Option<u64>, total: u64) -> (r: (u64, bool))
    ensures
        match count {
            Some(n) => r.0 == n && r.1 == true,
            None => r.0 == total && r.1 == false,
        },
{
    match count {
        Some(n) => (n, true),
        None => (total, false),
    }
}

/// How the worker-pool size is resolved: zero means all available hardware
/// parallelism.
pub fn effective_parallelism(requested: usize, available: usize) -> (r: usize)
    ensures
        r == if requested == 0 {
            available as int
        } else {
            requested as int
        },
{
    if requested == 0 {
        available
    } else {
        requested
    }
}

/// Splits a sampled identifier set into dispatch batches: every batch but
/// the last holds exactly `batch_size` identifiers, the last holds the
/// remainder, and together, in order, they are exactly the identifier set.
pub fn chunk_ids(ids: Vec<String>, batch_size: usize) -> (r: Vec<Vec<String>>)
    requires
        batch_size >= 1,
    ensures
        ids@.len() == 0 ==> r@.len() == 0,
        ids@.len() > 0 ==> r@.len() >= 1 && (r@.len() - 1) * batch_size < ids@.len() && ids@.len()
            <= r@.len() * batch_size,
        forall|t: int|
            0 <= t < r@.len() ==> (#[trigger] r@[t])@ == ids@.subrange(
                t * batch_size,
                if (t + 1) * batch_size <= ids@.len() {
                    (t + 1) * batch_size
                } else {
                    ids@.len() as int
                },
            ),
{
    let ghost orig = ids@;
    let n = ids.len();
    let mut rem = ids;
    let mut r: Vec<Vec<String>> = Vec::new();
    proof {
        assert(rem@ =~= orig.skip(0));
        assert(r@.len() * batch_size == 0) by (nonlinear_arith)
            requires
                r@.len() == 0,
        ;
    }
    while rem.len() > 0
        invariant
            batch_size >= 1,
            n == orig.len(),
            rem@.len() > 0 ==> r@.len() * batch_size + rem@.len() == orig.len() && rem@
                == orig.skip((r@.len() * batch_size) as int),
            rem@.len() == 0 ==> (orig.len() == 0 ==> r@.len() == 0) && (orig.len() > 0 ==> r@.len()
                >= 1 && (r@.len() - 1) * batch_size < orig.len() && orig.len() <= r@.len()
                * batch_size),
            forall|t: int|
                0 <= t < r@.len() ==> (#[trigger] r@[t])@ == orig.subrange(
                    t * batch_size,
                    if (t + 1) * batch_size <= orig.len() {
                        (t + 1) * batch_size
                    } else {
                        orig.len() as int
                    },
                ),
        decreases rem@.len(),
    {
        let ghost done = r@.len() * batch_size;
        let ghost rlen0 = r@.len();
        proof {
            assert(0 <= done && done + rem@.len() == orig.len());
        }
        let mut chunk: Vec<String> = Vec::new();
        proof {
            assert(chunk@ =~= orig.subrange(done as int, done as int));
        }
        while chunk.len() < batch_size && rem.len() > 0
            invariant
                batch_size >= 1,
                0 <= done,
                done + chunk@.len() + rem@.len() == orig.len(),
                chunk@.len() <= batch_size,
                chunk@ == orig.subrange(done as int, done + chunk@.len()),
                rem@ == orig.skip(done + chunk@.len()),
            decreases rem@.len(),
        {
            let s = rem.remove(0);
            proof {
                assert(orig.skip(done + chunk@.len()).remove(0) =~= orig.skip(
                    done + chunk@.len() + 1,
                ));
                assert(s == orig[done + chunk@.len()]);
            }
            chunk.push(s);
            proof {
                assert(chunk@ =~= orig.subrange(done as int, done + chunk@.len()));
            }
        }
        let ghost clen = chunk@.len();
        let ghost rall0 = r@;
        proof {
            assert(clen >= 1);
        }
        r.push(chunk);
        proof {
            assert((rlen0 + 1) * batch_size == rlen0 * batch_size + batch_size)
                by (nonlinear_arith);
            assert(r@.len() == rlen0 + 1);
            assert(r@[rlen0 as int]@ == orig.subrange(done as int, done + clen));
            if clen < batch_size {
                assert(rem@.len() == 0);
                assert(done + clen == orig.len());
            }
            assert forall|t: int| 0 <= t < r@.len() implies (#[trigger] r@[t])@ == orig.subrange(
                t * batch_size,
                if (t + 1) * batch_size <= orig.len() {
                    (t + 1) * batch_size
                } else {
                    orig.len() as int
                },
            ) by {
                if t < rlen0 {
                    assert(r@[t] == rall0[t]);
                } else {
                    assert(t == rlen0);
                    assert(t * batch_size == done) by (nonlinear_arith)
                        requires
                            t == rlen0,
                            done == rlen0 * batch_size,
                    ;
                }
            }
        }
    }
    proof {
        if orig.len() > 0 && r@.len() == 0 {
            assert(rem@ =~= orig.skip(0));
            assert(false);
        }
    }
    r
}

/// An unprocessed-only sample: none of its identifiers has a status row.
pub open spec fn is_unprocessed_sample(recorded: Seq<Seq<char>>, sample: Seq<Seq<char>>) -> bool {
    forall|t: int| 0 <= t < sample.len() ==> !recorded.contains(#[trigger] sample[t])
}

/// Law (idempotence of unprocessed-only runs): a sampled run appends a
/// status row for every identifier it processed, so the status trail after
/// a first run covers all of that run's identifiers. A second
/// unprocessed-only sample is drawn only from identifiers with no status
/// row, so every write its persisting phase plans — content rows included —
/// is keyed by an identifier that neither the first run processed nor the
/// trail already held: no identifier already marked `OK` has content
/// persisted twice.
pub proof fn lemma_unprocessed_only_idempotent(
    recorded: Seq<Seq<char>>,
    outcomes1: Seq<ExtractionOutcome>,
    outcomes2: Seq<ExtractionOutcome>,
    plan2: Seq<DbAction>,
)
    requires
        is_unprocessed_sample(recorded + outcome_ids(outcomes1), outcome_ids(outcomes2)),
        forall|t: int|
            0 <= t < plan2.len() ==> outcome_ids(outcomes2).contains(
                action_id(#[trigger] plan2[t]),
            ),
    ensures
        forall|t: int|
            0 <= t < plan2.len() ==> !outcome_ids(outcomes1).contains(
                action_id(#[trigger] plan2[t]),
            ) && !recorded.contains(action_id(plan2[t])),
{
    let ids1 = outcome_ids(outcomes1);
    let ids2 = outcome_ids(outcomes2);
    assert forall|t: int| 0 <= t < plan2.len() implies !ids1.contains(
        action_id(#[trigger] plan2[t]),
    ) && !recorded.contains(action_id(plan2[t])) by {
        let a = action_id(plan2[t]);
        let u = choose|u: int| 0 <= u < ids2.len() && ids2[u] == a;
        assert(!(recorded + ids1).contains(ids2[u]));
        if ids1.contains(a) {
            let v = choose|v: int| 0 <= v < ids1.len() && ids1[v] == a;
            assert((recorded + ids1)[recorded.len() + v] == a);
            assert(false);
        }
        if recorded.contains(a) {
            let v = choose|v: int| 0 <= v < recorded.len() && recorded[v] == a;
            assert((recorded + ids1)[v] == a);
            assert(false);
        }
    }
}

} // verus!
