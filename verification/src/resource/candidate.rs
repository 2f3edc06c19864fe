//! Assembly of a candidate plan's transitions: what the scheduling
//! commands ask for, the primary adapter under a primary-first strategy,
//! and profile changes of resident adapters, without repeated steps.

use vstd::prelude::*;
use super::model::{opt_str_eq, opt_view, strs, ResourceAdapterOperation};
use super::plan::{
    adapter_at, adapter_at_exec, adapter_is_resident, lemma_adapter_at_bound, opt_seq, opt_transition,
    profile_transition, profile_transition_exec, push_opt, resident, selection_for, selection_for_exec,
    selection_views, start_transition, start_transition_exec, transition_views, yield_transition,
    yield_transition_exec, ResourceAdapterDiagnostic, ResourceCandidateTransition, ResourceProfileSelection,
    ResourceResidencyPreference, ResourceSchedulingCommand, ResourceSchedulingIntent, ResourceSchedulingStrategy,
    SelectionView, TransitionView,
};

verus! {

/// The adapter listed under `id` (the last one listed wins).
pub open spec fn lookup(ads: Seq<ResourceAdapterDiagnostic>, id: Seq<char>) -> Option<ResourceAdapterDiagnostic> {
    match adapter_at(ads, id) {
        Some(i) => Some(ads[i]),
        None => None,
    }
}

/// Yield adapter `id` when it is resident.
pub open spec fn yield_if_resident(
    ads: Seq<ResourceAdapterDiagnostic>,
    id: Seq<char>,
    by: Option<Seq<char>>,
    reason: Seq<char>,
) -> Seq<TransitionView> {
    match lookup(ads, id) {
        Some(a) => if resident(a) { opt_seq(yield_transition(a, by, reason)) } else { Seq::empty() },
        None => Seq::empty(),
    }
}

/// Start adapter `id` on its selection when it is not resident.
pub open spec fn start_if_idle(
    ads: Seq<ResourceAdapterDiagnostic>,
    sels: Seq<SelectionView>,
    id: Seq<char>,
    by: Option<Seq<char>>,
    reason: Seq<char>,
) -> Seq<TransitionView> {
    match lookup(ads, id) {
        Some(a) => if !resident(a) {
            opt_seq(start_transition(a, selection_for(sels, id), by, reason))
        } else {
            Seq::empty()
        },
        None => Seq::empty(),
    }
}

/// The resident adapters of an exclusive group, in the group's order.
pub open spec fn exclusive_active(ads: Seq<ResourceAdapterDiagnostic>, ids: Seq<Seq<char>>) -> Seq<
    ResourceAdapterDiagnostic,
>
    decreases ids.len(),
{
    if ids.len() == 0 {
        Seq::empty()
    } else {
        let prev = exclusive_active(ads, ids.drop_last());
        match lookup(ads, ids.last()) {
            Some(a) => if resident(a) { prev.push(a) } else { prev },
            None => prev,
        }
    }
}

pub open spec fn has_adapter_id(s: Seq<ResourceAdapterDiagnostic>, id: Seq<char>) -> bool {
    exists|k: int| 0 <= k < s.len() && s[k].descriptor.adapter_id@ == id
}

/// The member of an exclusive group that keeps running: the primary
/// adapter when it is among the active ones, else the first active one.
pub open spec fn survivor(active: Seq<ResourceAdapterDiagnostic>, primary: Option<Seq<char>>) -> Seq<char> {
    match primary {
        Some(p) => if has_adapter_id(active, p) { p } else { active[0].descriptor.adapter_id@ },
        None => active[0].descriptor.adapter_id@,
    }
}

/// Every active member but the survivor yields to it.
pub open spec fn exclusive_yields(active: Seq<ResourceAdapterDiagnostic>, surv: Seq<char>) -> Seq<TransitionView>
    decreases active.len(),
{
    if active.len() == 0 {
        Seq::empty()
    } else {
        let prev = exclusive_yields(active.drop_last(), surv);
        let a = active.last();
        if a.descriptor.adapter_id@ != surv {
            prev + opt_seq(yield_transition(a, Some(surv), "resource_plan_exclusive_group"@))
        } else {
            prev
        }
    }
}

/// The transitions one scheduling command asks for.
pub open spec fn command_transitions(
    c: ResourceSchedulingCommand,
    ads: Seq<ResourceAdapterDiagnostic>,
    sels: Seq<SelectionView>,
    primary: Option<Seq<char>>,
) -> Seq<TransitionView> {
    match c {
        ResourceSchedulingCommand::YieldThenRun { yielding_adapter_id, target_adapter_id } => yield_if_resident(
            ads,
            yielding_adapter_id@,
            Some(target_adapter_id@),
            "resource_plan_yield_before_run"@,
        ) + start_if_idle(
            ads,
            sels,
            target_adapter_id@,
            Some(yielding_adapter_id@),
            "resource_plan_run_after_yield"@,
        ),
        ResourceSchedulingCommand::Residency { adapter_id, mode } => if mode == ResourceResidencyPreference::Resident {
            start_if_idle(ads, sels, adapter_id@, None, "resource_plan_residency_requested"@)
        } else {
            Seq::empty()
        },
        ResourceSchedulingCommand::Exclusive { adapter_ids } => {
            let active = exclusive_active(ads, strs(adapter_ids@));
            if active.len() > 1 {
                exclusive_yields(active, survivor(active, primary))
            } else {
                Seq::empty()
            }
        },
        _ => Seq::empty(),
    }
}

/// The adapters a command requires to end up started.
pub open spec fn command_required(c: ResourceSchedulingCommand) -> Seq<Seq<char>> {
    match c {
        ResourceSchedulingCommand::YieldThenRun { target_adapter_id, .. } => seq![target_adapter_id@],
        ResourceSchedulingCommand::Residency { adapter_id, mode } => if mode == ResourceResidencyPreference::Resident {
            seq![adapter_id@]
        } else {
            Seq::empty()
        },
        _ => Seq::empty(),
    }
}

pub open spec fn commands_transitions(
    cs: Seq<ResourceSchedulingCommand>,
    ads: Seq<ResourceAdapterDiagnostic>,
    sels: Seq<SelectionView>,
    primary: Option<Seq<char>>,
) -> Seq<TransitionView>
    decreases cs.len(),
{
    if cs.len() == 0 {
        Seq::empty()
    } else {
        commands_transitions(cs.drop_last(), ads, sels, primary) + command_transitions(cs.last(), ads, sels, primary)
    }
}

pub open spec fn commands_required(cs: Seq<ResourceSchedulingCommand>) -> Seq<Seq<char>>
    decreases cs.len(),
{
    if cs.len() == 0 {
        Seq::empty()
    } else {
        commands_required(cs.drop_last()) + command_required(cs.last())
    }
}

/// The primary adapter when the strategy puts it first.
pub open spec fn primary_first(intent: ResourceSchedulingIntent) -> Option<Seq<char>> {
    if intent.strategy == ResourceSchedulingStrategy::PrimaryFirst {
        opt_view(intent.primary_adapter_id)
    } else {
        None
    }
}

/// Restart a resident adapter whose selected profile differs from its
/// current one.
pub open spec fn profile_change(ads: Seq<ResourceAdapterDiagnostic>, sel: SelectionView) -> Seq<TransitionView> {
    match lookup(ads, sel.adapter_id) {
        Some(a) => if opt_view(a.current_profile_id) != Some(sel.profile_id) && resident(a) {
            opt_seq(profile_transition(a, sel))
        } else {
            Seq::empty()
        },
        None => Seq::empty(),
    }
}

pub open spec fn profile_changes(ads: Seq<ResourceAdapterDiagnostic>, sels: Seq<SelectionView>) -> Seq<TransitionView>
    decreases sels.len(),
{
    if sels.len() == 0 {
        Seq::empty()
    } else {
        profile_changes(ads, sels.drop_last()) + profile_change(ads, sels.last())
    }
}

/// Every transition the intent asks for, in order, repeats included.
pub open spec fn raw_transitions(
    intent: ResourceSchedulingIntent,
    ads: Seq<ResourceAdapterDiagnostic>,
    sels: Seq<SelectionView>,
) -> Seq<TransitionView> {
    let primary_part = match primary_first(intent) {
        Some(p) => start_if_idle(ads, sels, p, None, "resource_plan_primary_first"@),
        None => Seq::empty(),
    };
    commands_transitions(intent.commands@, ads, sels, opt_view(intent.primary_adapter_id)) + primary_part
        + profile_changes(ads, sels)
}

/// The adapters that must end up started.
pub open spec fn required_starts(intent: ResourceSchedulingIntent) -> Seq<Seq<char>> {
    commands_required(intent.commands@) + opt_seq(primary_first(intent))
}

/// Two transitions are the same step: same adapter, operation and profile.
pub open spec fn same_step(a: TransitionView, b: TransitionView) -> bool {
    a.adapter_id == b.adapter_id && a.operation == b.operation && a.profile_id == b.profile_id
}

pub open spec fn step_seen(s: Seq<TransitionView>, t: TransitionView) -> bool {
    exists|k: int| 0 <= k < s.len() && same_step(s[k], t)
}

/// The transitions with each step kept at its first occurrence only.
pub open spec fn dedup_steps(s: Seq<TransitionView>) -> Seq<TransitionView>
    decreases s.len(),
{
    if s.len() == 0 {
        Seq::empty()
    } else {
        let prev = dedup_steps(s.drop_last());
        if step_seen(s.drop_last(), s.last()) { prev } else { prev.push(s.last()) }
    }
}

/// Some transition starts or resumes adapter `id`.
pub open spec fn starts(ts: Seq<TransitionView>, id: Seq<char>) -> bool {
    exists|k: int|
        0 <= k < ts.len() && ts[k].adapter_id == id && (ts[k].operation == ResourceAdapterOperation::Start
            || ts[k].operation == ResourceAdapterOperation::Resume)
}

/// A required adapter is idle and nothing starts it.
pub open spec fn start_missing(ads: Seq<ResourceAdapterDiagnostic>, ts: Seq<TransitionView>, id: Seq<char>) -> bool {
    match lookup(ads, id) {
        Some(a) => !resident(a) && !starts(ts, id),
        None => false,
    }
}

pub open spec fn unexecutable_start(
    ads: Seq<ResourceAdapterDiagnostic>,
    ts: Seq<TransitionView>,
    req: Seq<Seq<char>>,
) -> bool {
    exists|k: int| 0 <= k < req.len() && start_missing(ads, ts, req[k])
}

proof fn lemma_lookup(ads: Seq<ResourceAdapterDiagnostic>, id: Seq<char>, i: usize)
    requires
        adapter_at(ads, id) == Some(i as int),
    ensures
        i < ads.len(),
        lookup(ads, id) == Some(ads[i as int]),
{
    lemma_adapter_at_bound(ads, id);
}

fn yield_if_resident_exec(
    ts: &mut Vec<ResourceCandidateTransition>,
    ads: &Vec<ResourceAdapterDiagnostic>,
    id: &str,
    by: Option<String>,
    reason: &str,
)
    ensures
        transition_views(final(ts)@) == transition_views(old(ts)@) + yield_if_resident(ads@, id@, opt_view(by), reason@),
{
    let ghost before = transition_views(ts@);
    match adapter_at_exec(ads, id) {
        Some(i) => {
            proof { lemma_lookup(ads@, id@, i); }
            if adapter_is_resident(&ads[i]) {
                let t = yield_transition_exec(&ads[i], by, reason);
                push_opt(ts, t);
            } else {
                assert(before + Seq::<TransitionView>::empty() =~= before);
            }
        },
        None => {
            assert(before + Seq::<TransitionView>::empty() =~= before);
        },
    }
}

fn start_if_idle_exec(
    ts: &mut Vec<ResourceCandidateTransition>,
    ads: &Vec<ResourceAdapterDiagnostic>,
    sels: &Vec<ResourceProfileSelection>,
    id: &str,
    by: Option<String>,
    reason: &str,
)
    ensures
        transition_views(final(ts)@) == transition_views(old(ts)@) + start_if_idle(
            ads@,
            selection_views(sels@),
            id@,
            opt_view(by),
            reason@,
        ),
{
    let ghost before = transition_views(ts@);
    match adapter_at_exec(ads, id) {
        Some(i) => {
            proof { lemma_lookup(ads@, id@, i); }
            if !adapter_is_resident(&ads[i]) {
                let sel = selection_for_exec(sels, id);
                let t = start_transition_exec(&ads[i], sel, by, reason);
                push_opt(ts, t);
            } else {
                assert(before + Seq::<TransitionView>::empty() =~= before);
            }
        },
        None => {
            assert(before + Seq::<TransitionView>::empty() =~= before);
        },
    }
}


pub open spec fn adapters_at(ads: Seq<ResourceAdapterDiagnostic>, idx: Seq<usize>) -> Seq<ResourceAdapterDiagnostic> {
    idx.map_values(|i: usize| ads[i as int])
}

/// Positions of the resident members of an exclusive group.
fn exclusive_active_exec(ads: &Vec<ResourceAdapterDiagnostic>, ids: &Vec<String>) -> (r: Vec<usize>)
    ensures
        forall|k: int| 0 <= k < r@.len() ==> r@[k] < ads@.len(),
        adapters_at(ads@, r@) == exclusive_active(ads@, strs(ids@)),
{
    let mut r: Vec<usize> = Vec::new();
    let mut i: usize = 0;
    while i < ids.len()
        invariant
            i <= ids.len(),
            forall|k: int| 0 <= k < r@.len() ==> r@[k] < ads@.len(),
            adapters_at(ads@, r@) == exclusive_active(ads@, strs(ids@).take(i as int)),
        decreases ids.len() - i,
    {
        assert(strs(ids@).take(i + 1).drop_last() =~= strs(ids@).take(i as int));
        assert(strs(ids@).take(i + 1).last() == ids@[i as int]@);
        let ghost before = r@;
        match adapter_at_exec(ads, ids[i].as_str()) {
            Some(j) => {
                proof { lemma_lookup(ads@, ids@[i as int]@, j); }
                if adapter_is_resident(&ads[j]) {
                    r.push(j);
                    assert(adapters_at(ads@, r@) =~= adapters_at(ads@, before).push(ads@[j as int]));
                }
            },
            None => {},
        }
        i = i + 1;
    }
    assert(strs(ids@).take(i as int) =~= strs(ids@));
    r
}

fn survivor_exec(ads: &Vec<ResourceAdapterDiagnostic>, idx: &Vec<usize>, primary: &Option<String>) -> (r: String)
    requires
        idx@.len() > 0,
        forall|k: int| 0 <= k < idx@.len() ==> idx@[k] < ads@.len(),
    ensures
        r@ == survivor(adapters_at(ads@, idx@), opt_view(*primary)),
{
    let ghost act = adapters_at(ads@, idx@);
    let first = ads[idx[0]].descriptor.adapter_id.clone();
    match primary {
        Some(p) => {
            let mut k: usize = 0;
            while k < idx.len()
                invariant
                    k <= idx@.len(),
                    act == adapters_at(ads@, idx@),
                    opt_view(*primary) == Some(p@),
                    first@ == act[0].descriptor.adapter_id@,
                    forall|k: int| 0 <= k < idx@.len() ==> idx@[k] < ads@.len(),
                    forall|j: int| 0 <= j < k ==> act[j].descriptor.adapter_id@ != p@,
                decreases idx.len() - k,
            {
                if crate::text::str_eq(ads[idx[k]].descriptor.adapter_id.as_str(), p.as_str()) {
                    assert(act[k as int].descriptor.adapter_id@ == p@);
                    assert(has_adapter_id(act, p@));
                    let r = p.clone();
                    assert(r@ == p@);
                    return r;
                }
                k = k + 1;
            }
            first
        },
        None => first,
    }
}

fn exclusive_yields_exec(
    ts: &mut Vec<ResourceCandidateTransition>,
    ads: &Vec<ResourceAdapterDiagnostic>,
    idx: &Vec<usize>,
    surv: &String,
)
    requires
        forall|k: int| 0 <= k < idx@.len() ==> idx@[k] < ads@.len(),
    ensures
        transition_views(final(ts)@) == transition_views(old(ts)@) + exclusive_yields(adapters_at(ads@, idx@), surv@),
{
    let ghost start = transition_views(ts@);
    let ghost act = adapters_at(ads@, idx@);
    let mut k: usize = 0;
    assert(start + exclusive_yields(act.take(0), surv@) =~= start);
    while k < idx.len()
        invariant
            k <= idx@.len(),
            act == adapters_at(ads@, idx@),
            forall|k: int| 0 <= k < idx@.len() ==> idx@[k] < ads@.len(),
            transition_views(ts@) == start + exclusive_yields(act.take(k as int), surv@),
        decreases idx.len() - k,
    {
        assert(act.take(k + 1).drop_last() =~= act.take(k as int));
        assert(act.take(k + 1).last() == ads@[idx@[k as int] as int]);
        let a = &ads[idx[k]];
        let ghost before = transition_views(ts@);
        if !crate::text::str_eq(a.descriptor.adapter_id.as_str(), surv.as_str()) {
            let t = yield_transition_exec(a, Some(surv.clone()), "resource_plan_exclusive_group");
            push_opt(ts, t);
            assert(transition_views(ts@) =~= start + exclusive_yields(act.take(k + 1), surv@));
        }
        k = k + 1;
    }
    assert(act.take(k as int) =~= act);
}

fn push_string(req: &mut Vec<String>, s: &String)
    ensures
        strs(final(req)@) == strs(old(req)@).push(s@),
{
    let ghost before = strs(req@);
    req.push(s.clone());
    assert(strs(req@) =~= before.push(s@));
}

/// Apply one command: its transitions and the starts it requires.
fn command_step(
    ts: &mut Vec<ResourceCandidateTransition>,
    req: &mut Vec<String>,
    c: &ResourceSchedulingCommand,
    ads: &Vec<ResourceAdapterDiagnostic>,
    sels: &Vec<ResourceProfileSelection>,
    primary: &Option<String>,
)
    ensures
        transition_views(final(ts)@) == transition_views(old(ts)@) + command_transitions(
            *c,
            ads@,
            selection_views(sels@),
            opt_view(*primary),
        ),
        strs(final(req)@) == strs(old(req)@) + command_required(*c),
{
    let ghost t0 = transition_views(ts@);
    let ghost r0 = strs(req@);
    match c {
        ResourceSchedulingCommand::YieldThenRun { yielding_adapter_id, target_adapter_id } => {
            push_string(req, target_adapter_id);
            assert(r0.push(target_adapter_id@) =~= r0 + seq![target_adapter_id@]);
            yield_if_resident_exec(
                ts,
                ads,
                yielding_adapter_id.as_str(),
                Some(target_adapter_id.clone()),
                "resource_plan_yield_before_run",
            );
            let ghost t1 = transition_views(ts@);
            start_if_idle_exec(
                ts,
                ads,
                sels,
                target_adapter_id.as_str(),
                Some(yielding_adapter_id.clone()),
                "resource_plan_run_after_yield",
            );
            assert(transition_views(ts@) =~= t0 + command_transitions(
                *c,
                ads@,
                selection_views(sels@),
                opt_view(*primary),
            ));
        },
        ResourceSchedulingCommand::Residency { adapter_id, mode } => {
            match mode {
                ResourceResidencyPreference::Resident => {
                    push_string(req, adapter_id);
                    assert(r0.push(adapter_id@) =~= r0 + seq![adapter_id@]);
                    start_if_idle_exec(ts, ads, sels, adapter_id.as_str(), None, "resource_plan_residency_requested");
                },
                ResourceResidencyPreference::OnDemand => {
                    assert(t0 + Seq::<TransitionView>::empty() =~= t0);
                    assert(r0 + Seq::<Seq<char>>::empty() =~= r0);
                },
            }
        },
        ResourceSchedulingCommand::Exclusive { adapter_ids } => {
            assert(r0 + Seq::<Seq<char>>::empty() =~= r0);
            let idx = exclusive_active_exec(ads, adapter_ids);
            if idx.len() > 1 {
                let surv = survivor_exec(ads, &idx, primary);
                exclusive_yields_exec(ts, ads, &idx, &surv);
            } else {
                assert(t0 + Seq::<TransitionView>::empty() =~= t0);
            }
        },
        _ => {
            assert(t0 + Seq::<TransitionView>::empty() =~= t0);
            assert(r0 + Seq::<Seq<char>>::empty() =~= r0);
        },
    }
}


fn profile_change_exec(
    ts: &mut Vec<ResourceCandidateTransition>,
    ads: &Vec<ResourceAdapterDiagnostic>,
    sel: &ResourceProfileSelection,
)
    ensures
        transition_views(final(ts)@) == transition_views(old(ts)@) + profile_change(ads@, sel@),
{
    let ghost before = transition_views(ts@);
    match adapter_at_exec(ads, sel.adapter_id.as_str()) {
        Some(i) => {
            proof { lemma_lookup(ads@, sel.adapter_id@, i); }
            let a = &ads[i];
            let same = match &a.current_profile_id {
                Some(c) => crate::text::str_eq(c.as_str(), sel.profile_id.as_str()),
                None => false,
            };
            if !same && adapter_is_resident(a) {
                let t = profile_transition_exec(a, sel);
                push_opt(ts, t);
            } else {
                assert(before + Seq::<TransitionView>::empty() =~= before);
            }
        },
        None => {
            assert(before + Seq::<TransitionView>::empty() =~= before);
        },
    }
}

/// Every transition the intent asks for, repeats included, and the
/// adapters it requires to end up started.
pub(crate) fn raw_transitions_exec(
    intent: &ResourceSchedulingIntent,
    ads: &Vec<ResourceAdapterDiagnostic>,
    sels: &Vec<ResourceProfileSelection>,
) -> (r: (Vec<ResourceCandidateTransition>, Vec<String>))
    ensures
        transition_views(r.0@) == raw_transitions(*intent, ads@, selection_views(sels@)),
        strs(r.1@) == required_starts(*intent),
{
    let ghost sv = selection_views(sels@);
    let ghost primary = opt_view(intent.primary_adapter_id);
    let mut ts: Vec<ResourceCandidateTransition> = Vec::new();
    let mut req: Vec<String> = Vec::new();
    let cs = &intent.commands;
    let mut i: usize = 0;
    assert(transition_views(ts@) =~= commands_transitions(cs@.take(0), ads@, sv, primary));
    assert(strs(req@) =~= commands_required(cs@.take(0)));
    while i < cs.len()
        invariant
            i <= cs.len(),
            cs == &intent.commands,
            sv == selection_views(sels@),
            primary == opt_view(intent.primary_adapter_id),
            transition_views(ts@) == commands_transitions(cs@.take(i as int), ads@, sv, primary),
            strs(req@) == commands_required(cs@.take(i as int)),
        decreases cs.len() - i,
    {
        assert(cs@.take(i + 1).drop_last() =~= cs@.take(i as int));
        assert(cs@.take(i + 1).last() == cs@[i as int]);
        command_step(&mut ts, &mut req, &cs[i], ads, sels, &intent.primary_adapter_id);
        i = i + 1;
    }
    assert(cs@.take(i as int) =~= cs@);
    let ghost t1 = transition_views(ts@);
    let ghost r1 = strs(req@);
    match intent.strategy {
        ResourceSchedulingStrategy::PrimaryFirst => match &intent.primary_adapter_id {
            Some(p) => {
                push_string(&mut req, p);
                assert(r1.push(p@) =~= r1 + seq![p@]);
                start_if_idle_exec(&mut ts, ads, sels, p.as_str(), None, "resource_plan_primary_first");
            },
            None => {
                assert(t1 + Seq::<TransitionView>::empty() =~= t1);
                assert(r1 + Seq::<Seq<char>>::empty() =~= r1);
            },
        },
        _ => {
            assert(t1 + Seq::<TransitionView>::empty() =~= t1);
            assert(r1 + Seq::<Seq<char>>::empty() =~= r1);
        },
    }
    let ghost t2 = transition_views(ts@);
    let mut k: usize = 0;
    assert(t2 + profile_changes(ads@, sv.take(0)) =~= t2);
    while k < sels.len()
        invariant
            k <= sels.len(),
            sv == selection_views(sels@),
            transition_views(ts@) == t2 + profile_changes(ads@, sv.take(k as int)),
        decreases sels.len() - k,
    {
        assert(sv.take(k + 1).drop_last() =~= sv.take(k as int));
        assert(sv.take(k + 1).last() == sels@[k as int]@);
        let ghost before = transition_views(ts@);
        profile_change_exec(&mut ts, ads, &sels[k]);
        assert(transition_views(ts@) =~= t2 + profile_changes(ads@, sv.take(k + 1)));
        k = k + 1;
    }
    assert(sv.take(k as int) =~= sv);
    (ts, req)
}

fn same_step_exec(a: &ResourceCandidateTransition, b: &ResourceCandidateTransition) -> (r: bool)
    ensures
        r == same_step(a@, b@),
{
    crate::text::str_eq(a.adapter_id.as_str(), b.adapter_id.as_str()) && a.operation == b.operation && opt_str_eq(
        &a.profile_id,
        &b.profile_id,
    )
}

fn seen_before(ts: &Vec<ResourceCandidateTransition>, i: usize) -> (r: bool)
    requires
        i < ts@.len(),
    ensures
        r == step_seen(transition_views(ts@).take(i as int), ts@[i as int]@),
{
    let ghost tv = transition_views(ts@);
    let mut k: usize = 0;
    while k < i
        invariant
            k <= i < ts@.len(),
            tv == transition_views(ts@),
            forall|j: int| 0 <= j < k ==> !same_step(tv[j], ts@[i as int]@),
        decreases i - k,
    {
        if same_step_exec(&ts[k], &ts[i]) {
            assert(tv.take(i as int)[k as int] == tv[k as int]);
            return true;
        }
        k = k + 1;
    }
    assert forall|j: int| 0 <= j < tv.take(i as int).len() implies !same_step(tv.take(i as int)[j], ts@[i as int]@) by {
        assert(tv.take(i as int)[j] == tv[j]);
    }
    false
}

/// The transitions with each step kept at its first occurrence only.
pub(crate) fn dedup_exec(ts: Vec<ResourceCandidateTransition>) -> (r: Vec<ResourceCandidateTransition>)
    ensures
        transition_views(r@) == dedup_steps(transition_views(ts@)),
{
    let ghost tv = transition_views(ts@);
    let mut keep: Vec<bool> = Vec::new();
    let mut i: usize = 0;
    while i < ts.len()
        invariant
            i <= ts@.len(),
            tv == transition_views(ts@),
            keep@.len() == i,
            forall|j: int| 0 <= j < i ==> keep@[j] == !step_seen(tv.take(j), tv[j]),
        decreases ts.len() - i,
    {
        let seen = seen_before(&ts, i);
        keep.push(!seen);
        i = i + 1;
    }
    let mut out: Vec<ResourceCandidateTransition> = Vec::new();
    assert(tv.len() == ts.len());
    let mut rest = ts;
    let mut j: usize = 0;
    assert(transition_views(out@) =~= dedup_steps(tv.take(0)));
    assert(transition_views(rest@) =~= tv.skip(0));
    while rest.len() > 0
        invariant
            tv.len() <= usize::MAX,
            keep@.len() == tv.len(),
            forall|j: int| 0 <= j < tv.len() ==> keep@[j] == !step_seen(tv.take(j), tv[j]),
            j <= tv.len(),
            j + rest@.len() == tv.len(),
            transition_views(rest@) == tv.skip(j as int),
            transition_views(out@) == dedup_steps(tv.take(j as int)),
        decreases rest.len(),
    {
        assert(tv.skip(j as int)[0] == rest@[0]@);
        let ghost old_rest = rest@;
        let x = rest.remove(0);
        assert(rest@ =~= old_rest.drop_first());
        assert(transition_views(rest@) =~= transition_views(old_rest).drop_first());
        assert(x@ == tv[j as int]);
        assert(tv.take(j + 1).drop_last() =~= tv.take(j as int));
        assert(tv.take(j + 1).last() == tv[j as int]);
        let ghost before = transition_views(out@);
        if keep[j] {
            out.push(x);
            assert(transition_views(out@) =~= before.push(tv[j as int]));
        }
        j = j + 1;
        assert(transition_views(rest@) =~= tv.skip(j as int));
    }
    assert(tv.take(j as int) =~= tv);
    out
}

fn starts_exec(ts: &Vec<ResourceCandidateTransition>, id: &str) -> (r: bool)
    ensures
        r == starts(transition_views(ts@), id@),
{
    let ghost tv = transition_views(ts@);
    let mut k: usize = 0;
    while k < ts.len()
        invariant
            k <= ts@.len(),
            tv == transition_views(ts@),
            forall|j: int|
                0 <= j < k ==> !(tv[j].adapter_id == id@ && (tv[j].operation == ResourceAdapterOperation::Start
                    || tv[j].operation == ResourceAdapterOperation::Resume)),
        decreases ts.len() - k,
    {
        let t = &ts[k];
        let op_starts = match t.operation {
            ResourceAdapterOperation::Start | ResourceAdapterOperation::Resume => true,
            _ => false,
        };
        if op_starts && crate::text::str_eq(t.adapter_id.as_str(), id) {
            assert(tv[k as int] == t@);
            return true;
        }
        k = k + 1;
    }
    false
}

/// Some required adapter is idle and no transition starts it.
pub(crate) fn unexecutable_start_exec(
    ads: &Vec<ResourceAdapterDiagnostic>,
    ts: &Vec<ResourceCandidateTransition>,
    req: &Vec<String>,
) -> (r: bool)
    ensures
        r == unexecutable_start(ads@, transition_views(ts@), strs(req@)),
{
    let ghost tv = transition_views(ts@);
    let ghost rv = strs(req@);
    let mut k: usize = 0;
    while k < req.len()
        invariant
            k <= req@.len(),
            tv == transition_views(ts@),
            rv == strs(req@),
            forall|j: int| 0 <= j < k ==> !start_missing(ads@, tv, rv[j]),
        decreases req.len() - k,
    {
        assert(rv[k as int] == req@[k as int]@);
        match adapter_at_exec(ads, req[k].as_str()) {
            Some(i) => {
                proof { lemma_lookup(ads@, req@[k as int]@, i); }
                if !adapter_is_resident(&ads[i]) && !starts_exec(ts, req[k].as_str()) {
                    assert(start_missing(ads@, tv, rv[k as int]));
                    return true;
                }
            },
            None => {},
        }
        k = k + 1;
    }
    false
}

} // verus!
