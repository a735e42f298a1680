use vstd::prelude::*;
use crate::check::{assert_expr, diagnostic, holds, AssertDiagnostic};
use crate::collector::{bucket_or_default, store_wf, values_of, BucketModel, CollectedData};
use crate::error::TestFailure;
use crate::json::JsonModel;
use crate::test_spec::{ExprModel, WaitSpec};

verus! {

broadcast use vstd::std_specs::vec::group_vec_axioms;

/// Mathematical model of a wait condition.
pub struct WaitSpecModel {
    pub target: Seq<char>,
    pub condition: ExprModel,
    pub timeout: u16,
}

impl View for WaitSpec {
    type V = WaitSpecModel;

    open spec fn view(&self) -> WaitSpecModel {
        WaitSpecModel { target: self.target@, condition: self.condition@, timeout: self.timeout }
    }
}

pub open spec fn waits_model(s: Seq<WaitSpec>) -> Seq<WaitSpecModel> {
    Seq::new(s.len(), |i: int| s[i]@)
}

/// The values a wait condition is checked against: those of its target bucket.
pub open spec fn target_values(w: WaitSpecModel, bs: Seq<(Seq<char>, BucketModel)>) -> Seq<JsonModel> {
    values_of(bucket_or_default(bs, w.target).data)
}

pub open spec fn satisfied(w: WaitSpecModel, bs: Seq<(Seq<char>, BucketModel)>) -> bool {
    holds(target_values(w, bs), w.condition)
}

/// The conditions of `ws` that do not hold on `bs`, in order.
pub open spec fn failing(ws: Seq<WaitSpecModel>, bs: Seq<(Seq<char>, BucketModel)>) -> Seq<WaitSpecModel>
    decreases ws.len(),
{
    if ws.len() == 0 {
        Seq::empty()
    } else if satisfied(ws.last(), bs) {
        failing(ws.drop_last(), bs)
    } else {
        failing(ws.drop_last(), bs).push(ws.last())
    }
}

/// The largest timeout of `ws`, in seconds.
pub open spec fn max_timeout(ws: Seq<WaitSpecModel>) -> nat
    decreases ws.len(),
{
    if ws.len() == 0 {
        0
    } else {
        let m = max_timeout(ws.drop_last());
        if ws.last().timeout as nat > m {
            ws.last().timeout as nat
        } else {
            m
        }
    }
}

/// Cycles of 100 ms that a wait may take: the largest timeout, in tenths of a second,
/// times the rounded-up timeout scaling.
pub open spec fn budget(ws: Seq<WaitSpecModel>, scaling_ceil: nat) -> nat {
    max_timeout(ws) * 10 * scaling_ceil
}

/// What one poll of a wait decided.
#[derive(Debug)]
pub enum WaitPoll {
    /// Sleep one cycle, then poll again.
    Sleep,
    /// Every condition holds.
    Satisfied,
    /// Time is up; these conditions still fail.
    Failed(Vec<TestFailure>),
}

/// The kinds of decision a poll makes.
pub enum PollKind {
    Sleep,
    Satisfied,
    Failed,
}

/// The state of a wait: the conditions not yet seen to hold, and the cycles left.
pub struct WaitState {
    pub pending: Seq<WaitSpecModel>,
    pub cycles_left: nat,
}

/// One poll of a wait against the store `bs`: while cycles are left and conditions pending,
/// drop the conditions that hold and use a cycle; else the wait is over.
pub open spec fn poll_spec(s: WaitState, bs: Seq<(Seq<char>, BucketModel)>) -> (WaitState, PollKind) {
    if s.cycles_left > 0 && s.pending.len() > 0 {
        (WaitState { pending: failing(s.pending, bs), cycles_left: (s.cycles_left - 1) as nat }, PollKind::Sleep)
    } else if s.pending.len() == 0 || failing(s.pending, bs).len() == 0 {
        (WaitState { pending: Seq::empty(), cycles_left: s.cycles_left }, PollKind::Satisfied)
    } else {
        (WaitState { pending: Seq::empty(), cycles_left: s.cycles_left }, PollKind::Failed)
    }
}

/// The state and decision after `k + 1` polls against the same store `bs`.
pub open spec fn run(s: WaitState, bs: Seq<(Seq<char>, BucketModel)>, k: nat) -> (WaitState, PollKind)
    decreases k,
{
    if k == 0 {
        poll_spec(s, bs)
    } else {
        poll_spec(run(s, bs, (k - 1) as nat).0, bs)
    }
}

/// A wait in progress over a list of conditions.
pub struct Waiter {
    pub pending: Vec<WaitSpec>,
    pub cycles_left: u64,
}

impl View for Waiter {
    type V = WaitState;

    open spec fn view(&self) -> WaitState {
        WaitState { pending: waits_model(self.pending@), cycles_left: self.cycles_left as nat }
    }
}

/// Checks the condition of `spec` against the objects of its target bucket
/// (an absent bucket has none).
pub fn check_spec_against_data(spec: &WaitSpec, data: &CollectedData) -> (r: Result<
    (),
    AssertDiagnostic,
>)
    requires
        store_wf(data@),
    ensures
        r is Ok <==> satisfied(spec@, data@),
        r matches Err(d) ==> d@ == diagnostic(target_values(spec@, data@), spec.condition@),
{
    let values = data.snapshot(&spec.target);
    assert_expr(&values, &spec.condition)
}

pub fn max_timeout_of(specs: &Vec<WaitSpec>) -> (r: u16)
    ensures
        r as nat == max_timeout(waits_model(specs@)),
{
    let mut m: u16 = 0;
    let mut i: usize = 0;
    while i < specs.len()
        invariant
            i <= specs@.len(),
            m as nat == max_timeout(waits_model(specs@.subrange(0, i as int))),
        decreases specs@.len() - i,
    {
        proof {
            assert(waits_model(specs@.subrange(0, i + 1)).drop_last() =~= waits_model(
                specs@.subrange(0, i as int),
            ));
        }
        if specs[i].timeout > m {
            m = specs[i].timeout;
        }
        i = i + 1;
    }
    proof {
        assert(specs@.subrange(0, i as int) =~= specs@);
    }
    m
}

impl Waiter {
    /// Starts a wait over `specs`; `scaling_ceil` is the timeout scaling rounded up.
    pub fn new(specs: Vec<WaitSpec>, scaling_ceil: u32) -> (r: Waiter)
        ensures
            r@.pending == waits_model(specs@),
            r@.cycles_left == budget(waits_model(specs@), scaling_ceil as nat),
    {
        let m = max_timeout_of(&specs);
        let tenths: u64 = (m as u64) * 10;
        proof {
            assert(tenths * (scaling_ceil as u64) <= 655350 * 4294967295) by (nonlinear_arith)
                requires
                    tenths <= 655350,
                    scaling_ceil <= 4294967295u32,
            ;
        }
        let cycles = tenths * (scaling_ceil as u64);
        Waiter { pending: specs, cycles_left: cycles }
    }

    /// One poll against the current store; see `poll_spec`. On `Failed` the conditions that
    /// still fail come back, each with a fresh diagnostic against `data`.
    pub fn poll(&mut self, data: &CollectedData) -> (r: WaitPoll)
        requires
            store_wf(data@),
        ensures
            (final(self)@, match r {
                WaitPoll::Sleep => PollKind::Sleep,
                WaitPoll::Satisfied => PollKind::Satisfied,
                WaitPoll::Failed(_) => PollKind::Failed,
            }) == poll_spec(old(self)@, data@),
            r matches WaitPoll::Failed(fs) ==> failures_model(fs@) == failing(
                old(self)@.pending,
                data@,
            ) && forall|i: int|
                0 <= i < fs@.len() ==> (#[trigger] fs@[i]).assert_diagnostic@ == diagnostic(
                    target_values(fs@[i].spec@, data@),
                    fs@[i].spec@.condition,
                ),
    {
        let mut pending: Vec<WaitSpec> = Vec::new();
        std::mem::swap(&mut pending, &mut self.pending);
        let ghost ps = waits_model(pending@);
        let sleeping = self.cycles_left > 0 && pending.len() > 0;
        let mut still: Vec<WaitSpec> = Vec::new();
        let mut failures: Vec<TestFailure> = Vec::new();
        let total = pending.len();
        let ghost n = total as nat;
        let ghost orig = pending@;
        let mut k: usize = 0;
        while pending.len() > 0
            invariant
                k <= n,
                pending@ == orig.subrange(k as int, n as int),
                n == orig.len(),
                ps == waits_model(orig),
                store_wf(data@),
                n <= usize::MAX,
                sleeping ==> waits_model(still@) == failing(ps.subrange(0, k as int), data@),
                !sleeping ==> failures_model(failures@) == failing(ps.subrange(0, k as int), data@),
                forall|i: int|
                    0 <= i < failures@.len() ==> (#[trigger] failures@[i]).assert_diagnostic@
                        == diagnostic(target_values(failures@[i].spec@, data@), failures@[i].spec@.condition),
            decreases pending@.len(),
        {
            let w = pending.remove(0);
            proof {
                assert(w == orig[k as int]);
                assert(ps.subrange(0, k + 1).drop_last() =~= ps.subrange(0, k as int));
                assert(ps.subrange(0, k + 1).last() == w@);
                assert(pending@ =~= orig.subrange(k + 1, n as int));
            }
            let res = check_spec_against_data(&w, data);
            match res {
                Ok(()) => {},
                Err(d) => {
                    if sleeping {
                        let ghost before = still@;
                        still.push(w);
                        proof {
                            assert(waits_model(still@) =~= waits_model(before).push(still@.last()@));
                        }
                    } else {
                        let ghost before = failures@;
                        failures.push(TestFailure { assert_diagnostic: d, spec: w });
                        proof {
                            assert(failures_model(failures@) =~= failures_model(before).push(
                                failures@.last().spec@,
                            ));
                        }
                    }
                },
            }
            proof {
                if sleeping {
                    assert(waits_model(still@) == failing(ps.subrange(0, k + 1), data@));
                } else {
                    assert(failures_model(failures@) == failing(ps.subrange(0, k + 1), data@));
                }
            }
            k = k + 1;
        }
        proof {
            assert(ps.subrange(0, k as int) =~= ps);
        }
        if sleeping {
            self.pending = still;
            self.cycles_left = self.cycles_left - 1;
            WaitPoll::Sleep
        } else if failures.len() == 0 {
            proof {
                assert(waits_model(self.pending@) =~= Seq::<WaitSpecModel>::empty());
            }
            WaitPoll::Satisfied
        } else {
            proof {
                assert(waits_model(self.pending@) =~= Seq::<WaitSpecModel>::empty());
            }
            WaitPoll::Failed(failures)
        }
    }
}

pub open spec fn failures_model(fs: Seq<TestFailure>) -> Seq<WaitSpecModel> {
    Seq::new(fs.len(), |i: int| fs[i].spec@)
}

proof fn lemma_failing_all(ws: Seq<WaitSpecModel>, bs: Seq<(Seq<char>, BucketModel)>)
    requires
        forall|i: int| 0 <= i < ws.len() ==> !satisfied(#[trigger] ws[i], bs),
    ensures
        failing(ws, bs) == ws,
    decreases ws.len(),
{
    if ws.len() > 0 {
        assert(!satisfied(ws[ws.len() - 1], bs));
        lemma_failing_all(ws.drop_last(), bs);
        assert(ws.drop_last().push(ws.last()) =~= ws);
    }
}

proof fn lemma_failing_none(ws: Seq<WaitSpecModel>, bs: Seq<(Seq<char>, BucketModel)>)
    requires
        forall|i: int| 0 <= i < ws.len() ==> satisfied(#[trigger] ws[i], bs),
    ensures
        failing(ws, bs).len() == 0,
    decreases ws.len(),
{
    if ws.len() > 0 {
        assert(satisfied(ws[ws.len() - 1], bs));
        lemma_failing_none(ws.drop_last(), bs);
    }
}

/// While the store stays the same and every pending condition fails on it, each poll uses one
/// cycle and sleeps; the poll after the last cycle reports the failure.
pub proof fn lemma_fails_after_budget(s: WaitState, bs: Seq<(Seq<char>, BucketModel)>, k: nat)
    requires
        s.pending.len() > 0,
        forall|i: int| 0 <= i < s.pending.len() ==> !satisfied(#[trigger] s.pending[i], bs),
    ensures
        k < s.cycles_left ==> run(s, bs, k) == (
            WaitState { pending: s.pending, cycles_left: (s.cycles_left - k - 1) as nat },
            PollKind::Sleep,
        ),
        k == s.cycles_left ==> run(s, bs, k).1 is Failed,
    decreases k,
{
    lemma_failing_all(s.pending, bs);
    if k > 0 {
        lemma_fails_after_budget(s, bs, (k - 1) as nat);
    }
}

/// A wait for one condition `size == 1` on a bucket that stays empty sleeps through its whole
/// budget (the timeout in tenths of a second times the rounded-up scaling) and then fails.
pub proof fn lemma_size_one_on_empty_bucket_times_out(
    w: WaitSpecModel,
    bs: Seq<(Seq<char>, BucketModel)>,
    scaling_ceil: nat,
    k: nat,
)
    requires
        w.condition == ExprModel::Size(1),
        target_values(w, bs).len() == 0,
    ensures
        budget(seq![w], scaling_ceil) == w.timeout * 10 * scaling_ceil,
        k < budget(seq![w], scaling_ceil) ==> run(
            WaitState { pending: seq![w], cycles_left: budget(seq![w], scaling_ceil) },
            bs,
            k,
        ).1 is Sleep,
        run(
            WaitState { pending: seq![w], cycles_left: budget(seq![w], scaling_ceil) },
            bs,
            budget(seq![w], scaling_ceil),
        ).1 is Failed,
{
    assert(seq![w].drop_last() =~= Seq::<WaitSpecModel>::empty());
    assert(max_timeout(Seq::<WaitSpecModel>::empty()) == 0);
    assert(seq![w].last() == w);
    assert(max_timeout(seq![w]) == w.timeout as nat);
    let s = WaitState { pending: seq![w], cycles_left: budget(seq![w], scaling_ceil) };
    assert(!satisfied(seq![w][0], bs));
    lemma_fails_after_budget(s, bs, k);
    lemma_fails_after_budget(s, bs, s.cycles_left);
}

/// Once every pending condition holds on the store, the poll in that cycle drops them all,
/// and the next poll reports success whatever the store is then.
pub proof fn lemma_satisfied_within_one_cycle(
    s: WaitState,
    bs: Seq<(Seq<char>, BucketModel)>,
    later: Seq<(Seq<char>, BucketModel)>,
)
    requires
        s.cycles_left > 0,
        forall|i: int| 0 <= i < s.pending.len() ==> satisfied(#[trigger] s.pending[i], bs),
    ensures
        poll_spec(s, bs).0.pending.len() == 0,
        poll_spec(poll_spec(s, bs).0, later).1 is Satisfied,
{
    lemma_failing_none(s.pending, bs);
}

} // verus!
