//! What every compiled candidate plan satisfies, whatever it was compiled
//! from.

use vstd::prelude::*;
use super::model::strs;
use super::plan::{insert_at, sorted_selections, SelectionView, TransitionView};
use super::candidate::{dedup_steps, same_step, start_missing, step_seen, required_starts};
use super::compile::{
    plan_blocked, plan_executable, plan_reasons, plan_selections, plan_state, plan_transitions,
    CompileResourceCandidatePlanInput, ResourceCandidatePlanState,
};
use super::execution::{rollback_of, rollback_plan, CompletedStep};
use crate::text::{lemma_lex_total, lemma_lex_trans, lex_le};

verus! {

pub open spec fn ids_sorted(s: Seq<SelectionView>) -> bool {
    forall|a: int, b: int| 0 <= a < b < s.len() ==> lex_le(s[a].adapter_id, s[b].adapter_id)
}

proof fn lemma_dedup_from(s: Seq<TransitionView>)
    ensures
        forall|k: int|
            0 <= k < dedup_steps(s).len() ==> exists|j: int| 0 <= j < s.len() && #[trigger] dedup_steps(s)[k] == s[j],
    decreases s.len(),
{
    if s.len() > 0 {
        let p = s.drop_last();
        lemma_dedup_from(p);
        assert forall|k: int| 0 <= k < dedup_steps(s).len() implies exists|j: int|
            0 <= j < s.len() && #[trigger] dedup_steps(s)[k] == s[j] by {
            if k < dedup_steps(p).len() {
                let j = choose|j: int| 0 <= j < p.len() && dedup_steps(p)[k] == p[j];
                assert(s[j] == p[j]);
            } else {
                assert(dedup_steps(s)[k] == s[s.len() - 1]);
            }
        }
    }
}

proof fn lemma_dedup_distinct(s: Seq<TransitionView>)
    ensures
        forall|a: int, b: int| 0 <= a < b < dedup_steps(s).len() ==> !same_step(dedup_steps(s)[a], dedup_steps(s)[b]),
    decreases s.len(),
{
    if s.len() > 0 {
        let p = s.drop_last();
        lemma_dedup_distinct(p);
        lemma_dedup_from(p);
        if !step_seen(p, s.last()) {
            let d = dedup_steps(s);
            let dp = dedup_steps(p);
            assert forall|a: int, b: int| 0 <= a < b < d.len() implies !same_step(d[a], d[b]) by {
                if b == dp.len() {
                    if same_step(d[a], d[b]) {
                        let j = choose|j: int| 0 <= j < p.len() && dp[a] == p[j];
                        assert(same_step(p[j], s.last()));
                        assert(step_seen(p, s.last()));
                    }
                } else {
                    assert(d[a] == dp[a] && d[b] == dp[b]);
                }
            }
        } else {
            assert(dedup_steps(s) == dedup_steps(p));
        }
    }
}

/// A compiled plan never repeats a step: no two of its transitions act on
/// the same adapter with the same operation and profile.
pub proof fn law_plan_steps_distinct(i: CompileResourceCandidatePlanInput)
    ensures
        forall|a: int, b: int|
            0 <= a < b < plan_transitions(i).len() ==> !same_step(plan_transitions(i)[a], plan_transitions(i)[b]),
{
    lemma_dedup_distinct(super::candidate::raw_transitions(i.scheduling.intent, i.adapters@, plan_selections(i).0));
}

proof fn lemma_lex_le_of_not_lt(x: Seq<char>, a: Seq<char>)
    requires
        !(lex_le(x, a) && x != a),
    ensures
        lex_le(a, x),
{
    lemma_lex_total(a, x);
    lemma_lex_total(x, x);
}

proof fn lemma_insert_at(acc: Seq<SelectionView>, x: SelectionView)
    requires
        ids_sorted(acc),
    ensures
        0 <= insert_at(acc, x) <= acc.len(),
        forall|k: int| 0 <= k < insert_at(acc, x) ==> lex_le(acc[k].adapter_id, x.adapter_id),
        forall|k: int| insert_at(acc, x) <= k < acc.len() ==> lex_le(x.adapter_id, acc[k].adapter_id),
    decreases acc.len(),
{
    if acc.len() > 0 {
        let rest = acc.drop_first();
        assert(ids_sorted(rest)) by {
            assert forall|a: int, b: int| 0 <= a < b < rest.len() implies lex_le(rest[a].adapter_id, rest[b].adapter_id) by {
                assert(rest[a] == acc[a + 1] && rest[b] == acc[b + 1]);
            }
        }
        if lex_le(x.adapter_id, acc[0].adapter_id) && x.adapter_id != acc[0].adapter_id {
            assert forall|k: int| 0 <= k < acc.len() implies lex_le(x.adapter_id, acc[k].adapter_id) by {
                if k > 0 {
                    lemma_lex_trans(x.adapter_id, acc[0].adapter_id, acc[k].adapter_id);
                }
            }
        } else {
            lemma_insert_at(rest, x);
            lemma_lex_le_of_not_lt(x.adapter_id, acc[0].adapter_id);
            assert forall|k: int| 0 <= k < insert_at(acc, x) implies lex_le(acc[k].adapter_id, x.adapter_id) by {
                if k > 0 {
                    assert(acc[k] == rest[k - 1]);
                }
            }
            assert forall|k: int| insert_at(acc, x) <= k < acc.len() implies lex_le(x.adapter_id, acc[k].adapter_id) by {
                assert(acc[k] == rest[k - 1]);
            }
        }
    }
}

proof fn lemma_sorted_selections(s: Seq<SelectionView>)
    ensures
        ids_sorted(sorted_selections(s)),
        sorted_selections(s).len() == s.len(),
    decreases s.len(),
{
    if s.len() > 0 {
        let acc = sorted_selections(s.drop_last());
        let x = s.last();
        lemma_sorted_selections(s.drop_last());
        lemma_insert_at(acc, x);
        let p = insert_at(acc, x);
        let r = acc.insert(p, x);
        assert forall|a: int, b: int| 0 <= a < b < r.len() implies lex_le(r[a].adapter_id, r[b].adapter_id) by {
            if b < p {
                assert(r[a] == acc[a] && r[b] == acc[b]);
            } else if b == p {
                assert(r[a] == acc[a]);
            } else if a < p {
                assert(r[a] == acc[a] && r[b] == acc[b - 1]);
                lemma_lex_trans(acc[a].adapter_id, x.adapter_id, acc[b - 1].adapter_id);
            } else if a == p {
                assert(r[b] == acc[b - 1]);
            } else {
                assert(r[a] == acc[a - 1] && r[b] == acc[b - 1]);
            }
        }
    }
}

/// A compiled plan lists its profile selections in adapter-id order.
pub proof fn law_plan_selections_sorted(i: CompileResourceCandidatePlanInput)
    ensures
        ids_sorted(plan_selections(i).0),
{
    let intent = i.scheduling.intent;
    lemma_sorted_selections(
        super::plan::sel_fold(i.adapters@, super::plan::referenced_ids(intent), intent.commands@, intent.strategy).0,
    );
}

/// A plan is ready exactly when it reports no reason code, and blocked
/// exactly when some check blocks it.
pub proof fn law_plan_ready_iff_no_reasons(i: CompileResourceCandidatePlanInput)
    ensures
        (plan_state(i) == ResourceCandidatePlanState::Ready) <==> (plan_reasons(i) == Set::<Seq<char>>::empty()),
        (plan_state(i) == ResourceCandidatePlanState::Blocked) <==> (plan_blocked(i) != Set::<Seq<char>>::empty()),
{
    if plan_blocked(i) != Set::<Seq<char>>::empty() {
        if !(exists|x: Seq<char>| plan_blocked(i).contains(x)) {
            assert(plan_blocked(i) =~= Set::<Seq<char>>::empty());
        }
        let x = choose|x: Seq<char>| plan_blocked(i).contains(x);
        assert(plan_reasons(i).contains(x));
    }
}

/// An executable plan is never blocked, every one of its steps has a
/// controller and a rollback, and every adapter it must start is started
/// or already resident.
pub proof fn law_executable_plan_is_fully_controlled(i: CompileResourceCandidatePlanInput)
    requires
        plan_executable(i),
    ensures
        plan_state(i) != ResourceCandidatePlanState::Blocked,
        forall|k: int|
            0 <= k < plan_transitions(i).len() ==> strs(i.controller_ids@).contains(plan_transitions(i)[k].adapter_id)
                && plan_transitions(i)[k].rollback_operation is Some,
        forall|k: int|
            0 <= k < required_starts(i.scheduling.intent).len() ==> !start_missing(
                i.adapters@,
                plan_transitions(i),
                required_starts(i.scheduling.intent)[k],
            ),
{
}

/// When a plan step fails, the step completed last is undone first, and a
/// completed step that changed nothing is not undone.
pub proof fn law_rollback_undoes_latest_first(ts: Seq<TransitionView>, done: Seq<CompletedStep>, step: CompletedStep)
    ensures
        step.changed_state ==> rollback_plan(ts, done.push(step)) == seq![rollback_of(ts[step.index as int])]
            + rollback_plan(ts, done),
        !step.changed_state ==> rollback_plan(ts, done.push(step)) == rollback_plan(ts, done),
{
    assert(done.push(step).drop_last() =~= done);
    if !step.changed_state {
        assert(Seq::<super::execution::RollbackView>::empty() + rollback_plan(ts, done) =~= rollback_plan(ts, done));
    }
}

pub open spec fn changed_count(done: Seq<CompletedStep>) -> nat
    decreases done.len(),
{
    if done.len() == 0 {
        0
    } else {
        changed_count(done.drop_last()) + if done.last().changed_state { 1nat } else { 0nat }
    }
}

/// Every completed step that changed state is undone exactly once.
pub proof fn law_rollback_once_per_changed_step(ts: Seq<TransitionView>, done: Seq<CompletedStep>)
    ensures
        rollback_plan(ts, done).len() == changed_count(done),
    decreases done.len(),
{
    if done.len() > 0 {
        law_rollback_once_per_changed_step(ts, done.drop_last());
    }
}

/// When a plan run stops at a failed step, each rollback undoes a step that
/// ran before it and changed state; the failed step and those after it are
/// never undone.
pub proof fn law_rollback_only_completed_steps(ts: Seq<TransitionView>, done: Seq<CompletedStep>)
    requires
        done.len() <= ts.len(),
        forall|k: int| 0 <= k < done.len() ==> #[trigger] done[k].index == k,
    ensures
        forall|m: int|
            #![trigger rollback_plan(ts, done)[m]]
            0 <= m < rollback_plan(ts, done).len() ==> exists|j: int|
                0 <= j < done.len() && #[trigger] done[j].changed_state && rollback_plan(ts, done)[m] == rollback_of(
                    ts[j],
                ),
    decreases done.len(),
{
    if done.len() > 0 {
        let pre = done.drop_last();
        law_rollback_only_completed_steps(ts, pre);
        let rest = rollback_plan(ts, pre);
        let last = done.last();
        let j0 = done.len() - 1;
        assert(done[j0] == last);
        assert forall|m: int| #![trigger rollback_plan(ts, done)[m]] 0 <= m < rollback_plan(ts, done).len() implies exists|j: int|
            0 <= j < done.len() && #[trigger] done[j].changed_state && rollback_plan(ts, done)[m] == rollback_of(ts[j]) by {
            if last.changed_state {
                if m == 0 {
                    assert(done[j0].changed_state);
                } else {
                    assert(rollback_plan(ts, done)[m] == rest[m - 1]);
                    let j = choose|j: int| 0 <= j < pre.len() && #[trigger] pre[j].changed_state && rest[m - 1] == rollback_of(ts[j]);
                    assert(done[j] == pre[j]);
                }
            } else {
                assert(rollback_plan(ts, done) =~= rest);
                let j = choose|j: int| 0 <= j < pre.len() && #[trigger] pre[j].changed_state && rest[m] == rollback_of(ts[j]);
                assert(done[j] == pre[j]);
            }
        }
    }
}

/// How fast an execution target answers: GPU first, then hybrid, then CPU,
/// then an external service.
pub open spec fn speed_rank(t: super::coordinator::ResourceExecutionTarget) -> int {
    match t {
        super::coordinator::ResourceExecutionTarget::Gpu => 0,
        super::coordinator::ResourceExecutionTarget::Hybrid => 1,
        super::coordinator::ResourceExecutionTarget::Cpu => 2,
        super::coordinator::ResourceExecutionTarget::External => 3,
    }
}

/// Profile `j` of `ps` is selectable and no selectable profile of `ps` runs
/// on a faster target.
pub open spec fn fastest_selectable(ps: Seq<super::coordinator::ResourceOperatingProfile>, j: int) -> bool {
    &&& 0 <= j < ps.len()
    &&& ps[j].coordinator_selectable
    &&& forall|m: int|
        0 <= m < ps.len() && #[trigger] ps[m].coordinator_selectable ==> speed_rank(ps[j].execution_target)
            <= speed_rank(ps[m].execution_target)
}

proof fn lemma_latency_best(ps: Seq<super::coordinator::ResourceOperatingProfile>)
    ensures
        super::plan::best_profile(ps, super::plan::ResourceSchedulingStrategy::LatencyFirst) matches Some(j)
            ==> fastest_selectable(ps, j),
        super::plan::best_profile(ps, super::plan::ResourceSchedulingStrategy::LatencyFirst) is None ==> forall|m: int|
            0 <= m < ps.len() ==> !(#[trigger] ps[m].coordinator_selectable),
    decreases ps.len(),
{
    let s = super::plan::ResourceSchedulingStrategy::LatencyFirst;
    if ps.len() > 0 {
        let pre = ps.drop_last();
        lemma_latency_best(pre);
        let n = ps.len() - 1;
        let last = ps[n];
        assert forall|m: int| 0 <= m < n implies #[trigger] pre[m] == ps[m] by {}
        let prev = super::plan::best_profile(pre, s);
        if !last.coordinator_selectable {
            if let Some(b) = prev {
                assert(pre[b] == ps[b]);
                assert forall|m: int| 0 <= m < ps.len() && #[trigger] ps[m].coordinator_selectable implies speed_rank(
                    ps[b].execution_target,
                ) <= speed_rank(ps[m].execution_target) by {
                    assert(pre[m] == ps[m]);
                }
            } else {
                assert forall|m: int| 0 <= m < ps.len() implies !(#[trigger] ps[m].coordinator_selectable) by {
                    if m < n {
                        assert(pre[m] == ps[m]);
                    }
                }
            }
        } else {
            match prev {
                None => {
                    assert forall|m: int| 0 <= m < ps.len() && #[trigger] ps[m].coordinator_selectable implies speed_rank(
                        ps[n].execution_target,
                    ) <= speed_rank(ps[m].execution_target) by {
                        if m < n {
                            assert(pre[m] == ps[m]);
                        }
                    }
                },
                Some(b) => {
                    assert(pre[b] == ps[b]);
                    if super::plan::profile_before(last, ps[b], s) {
                        assert(speed_rank(last.execution_target) <= speed_rank(ps[b].execution_target));
                        assert forall|m: int| 0 <= m < ps.len() && #[trigger] ps[m].coordinator_selectable implies speed_rank(
                            ps[n].execution_target,
                        ) <= speed_rank(ps[m].execution_target) by {
                            if m < n {
                                assert(pre[m] == ps[m]);
                                assert(pre[m].coordinator_selectable);
                            }
                        }
                    } else {
                        assert(speed_rank(ps[b].execution_target) <= speed_rank(last.execution_target));
                        assert forall|m: int| 0 <= m < ps.len() && #[trigger] ps[m].coordinator_selectable implies speed_rank(
                            ps[b].execution_target,
                        ) <= speed_rank(ps[m].execution_target) by {
                            if m < n {
                                assert(pre[m] == ps[m]);
                                assert(pre[m].coordinator_selectable);
                            }
                        }
                    }
                },
            }
        }
    }
}

proof fn lemma_sorted_members(s: Seq<SelectionView>)
    ensures
        forall|q: int| 0 <= q < sorted_selections(s).len() ==> s.contains(#[trigger] sorted_selections(s)[q]),
    decreases s.len(),
{
    lemma_sorted_selections(s);
    if s.len() > 0 {
        let acc = sorted_selections(s.drop_last());
        lemma_sorted_members(s.drop_last());
        lemma_sorted_selections(s.drop_last());
        lemma_insert_at(acc, s.last());
        let p = insert_at(acc, s.last());
        assert forall|q: int| 0 <= q < sorted_selections(s).len() implies s.contains(#[trigger] sorted_selections(s)[q]) by {
            let r = sorted_selections(s);
            if q == p {
                assert(s[s.len() - 1] == r[q]);
            } else {
                let q2 = if q < p { q } else { q - 1 };
                assert(r[q] == acc[q2]);
                assert(s.drop_last().contains(acc[q2]));
                let w = choose|w: int| 0 <= w < s.drop_last().len() && s.drop_last()[w] == acc[q2];
                assert(s[w] == r[q]);
            }
        }
    }
}

proof fn lemma_fold_members(
    ads: Seq<super::plan::ResourceAdapterDiagnostic>,
    refs: Seq<Seq<char>>,
    cmds: Seq<super::plan::ResourceSchedulingCommand>,
    strat: super::plan::ResourceSchedulingStrategy,
)
    ensures
        forall|q: int|
            0 <= q < super::plan::sel_fold(ads, refs, cmds, strat).0.len() ==> exists|k: int|
                0 <= k < ads.len() && super::plan::select_spec(
                    ads[k],
                    super::plan::fallback_for(cmds, ads[k].descriptor.adapter_id@),
                    strat,
                ) == Some(#[trigger] super::plan::sel_fold(ads, refs, cmds, strat).0[q]),
    decreases ads.len(),
{
    if ads.len() > 0 {
        let pre = ads.drop_last();
        lemma_fold_members(pre, refs, cmds, strat);
        let f0 = super::plan::sel_fold(pre, refs, cmds, strat).0;
        let f = super::plan::sel_fold(ads, refs, cmds, strat).0;
        assert forall|q: int| 0 <= q < f.len() implies exists|k: int|
            0 <= k < ads.len() && super::plan::select_spec(
                ads[k],
                super::plan::fallback_for(cmds, ads[k].descriptor.adapter_id@),
                strat,
            ) == Some(#[trigger] f[q]) by {
            if q < f0.len() {
                assert(f[q] == f0[q]);
                let k = choose|k: int|
                    0 <= k < pre.len() && super::plan::select_spec(
                        pre[k],
                        super::plan::fallback_for(cmds, pre[k].descriptor.adapter_id@),
                        strat,
                    ) == Some(#[trigger] f0[q]);
                assert(ads[k] == pre[k]);
            } else {
                assert(ads[ads.len() - 1] == ads.last());
            }
        }
    }
}

/// Under the latency-first strategy, a profile chosen by strategy (the
/// adapter has no usable current profile) belongs to the adapter it is
/// chosen for, is selectable, and runs on the fastest target among that
/// adapter's selectable profiles: GPU before hybrid, CPU, external.
pub proof fn law_latency_first_picks_fastest_target(i: CompileResourceCandidatePlanInput)
    requires
        i.scheduling.intent.strategy == super::plan::ResourceSchedulingStrategy::LatencyFirst,
    ensures
        forall|q: int|
            0 <= q < plan_selections(i).0.len() && (#[trigger] plan_selections(i).0[q]).source
                == super::plan::ResourceProfileSelectionSource::Strategy ==> exists|k: int, j: int|
                0 <= k < i.adapters@.len() && i.adapters@[k].descriptor.adapter_id@ == plan_selections(i).0[q].adapter_id
                    && #[trigger] fastest_selectable(i.adapters@[k].descriptor.profiles@, j)
                    && i.adapters@[k].descriptor.profiles@[j].profile_id@ == plan_selections(i).0[q].profile_id,
{
    let intent = i.scheduling.intent;
    let refs = super::plan::referenced_ids(intent);
    let cmds = intent.commands@;
    let strat = intent.strategy;
    let f = super::plan::sel_fold(i.adapters@, refs, cmds, strat).0;
    lemma_sorted_members(f);
    lemma_fold_members(i.adapters@, refs, cmds, strat);
    assert forall|q: int|
        0 <= q < plan_selections(i).0.len() && (#[trigger] plan_selections(i).0[q]).source
            == super::plan::ResourceProfileSelectionSource::Strategy implies exists|k: int, j: int|
        0 <= k < i.adapters@.len() && i.adapters@[k].descriptor.adapter_id@ == plan_selections(i).0[q].adapter_id
            && #[trigger] fastest_selectable(i.adapters@[k].descriptor.profiles@, j)
            && i.adapters@[k].descriptor.profiles@[j].profile_id@ == plan_selections(i).0[q].profile_id by {
        let sel = plan_selections(i).0[q];
        assert(sorted_selections(f)[q] == sel);
        assert(f.contains(sel));
        let w = choose|w: int| 0 <= w < f.len() && f[w] == sel;
        assert(f[w] == sel);
        let k = choose|k: int|
            0 <= k < i.adapters@.len() && super::plan::select_spec(
                i.adapters@[k],
                super::plan::fallback_for(cmds, i.adapters@[k].descriptor.adapter_id@),
                strat,
            ) == Some(#[trigger] f[w]);
        let a = i.adapters@[k];
        let ps = a.descriptor.profiles@;
        lemma_latency_best(ps);
        let j = super::plan::best_profile(ps, strat)->0;
        assert(fastest_selectable(ps, j));
    }
}

} // verus!
