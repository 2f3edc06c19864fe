//! Identity of a candidate plan: a byte encoding of what was compiled
//! and the SHA-256 digest of it, shown as a short hex id.

use vstd::prelude::*;
use sha2::Digest;
use super::model::{opt_view, strs, ResourceAdapterOperation};
use super::plan::{
    selection_views, transition_views, ResourceCandidateTransition, ResourceProfileSelection,
    ResourceProfileSelectionSource, ResourceResidencyPreference, ResourceSchedulingCommand, ResourceSchedulingIntent,
    ResourceSchedulingStrategy, SelectionView, TransitionView,
};

verus! {

/// The `n` low bytes of `x`, least significant first.
pub open spec fn le_bytes(x: nat, n: nat) -> Seq<u8>
    decreases n,
{
    if n == 0 {
        Seq::empty()
    } else {
        seq![(x % 256) as u8] + le_bytes(x / 256, (n - 1) as nat)
    }
}

pub open spec fn enc_u64(x: nat) -> Seq<u8> {
    le_bytes(x, 8)
}

pub open spec fn enc_chars(s: Seq<char>) -> Seq<u8>
    decreases s.len(),
{
    if s.len() == 0 {
        Seq::empty()
    } else {
        enc_chars(s.drop_last()) + le_bytes(s.last() as u32 as nat, 4)
    }
}

/// A string: its length, then each character as four bytes.
pub open spec fn enc_str(s: Seq<char>) -> Seq<u8> {
    enc_u64(s.len()) + enc_chars(s)
}

pub open spec fn enc_opt_str(o: Option<Seq<char>>) -> Seq<u8> {
    match o {
        Some(s) => seq![1u8] + enc_str(s),
        None => seq![0u8],
    }
}

pub open spec fn enc_str_items(ss: Seq<Seq<char>>) -> Seq<u8>
    decreases ss.len(),
{
    if ss.len() == 0 {
        Seq::empty()
    } else {
        enc_str_items(ss.drop_last()) + enc_str(ss.last())
    }
}

pub open spec fn enc_strs(ss: Seq<Seq<char>>) -> Seq<u8> {
    enc_u64(ss.len()) + enc_str_items(ss)
}

pub open spec fn enc_opt_u64(o: Option<u64>) -> Seq<u8> {
    match o {
        Some(x) => seq![1u8] + enc_u64(x as nat),
        None => seq![0u8],
    }
}

pub open spec fn enc_opt_u16(o: Option<u16>) -> Seq<u8> {
    match o {
        Some(x) => seq![1u8] + le_bytes(x as nat, 2),
        None => seq![0u8],
    }
}

pub open spec fn operation_tag(op: ResourceAdapterOperation) -> u8 {
    match op {
        ResourceAdapterOperation::Observe => 0,
        ResourceAdapterOperation::Start => 1,
        ResourceAdapterOperation::Resume => 2,
        ResourceAdapterOperation::Suspend => 3,
        ResourceAdapterOperation::Unload => 4,
        ResourceAdapterOperation::Release => 5,
    }
}

pub open spec fn strategy_tag(s: ResourceSchedulingStrategy) -> u8 {
    match s {
        ResourceSchedulingStrategy::PrimaryFirst => 0,
        ResourceSchedulingStrategy::LatencyFirst => 1,
        ResourceSchedulingStrategy::CompatibilityFirst => 2,
        ResourceSchedulingStrategy::Custom => 3,
    }
}

pub open spec fn source_tag(s: ResourceProfileSelectionSource) -> u8 {
    match s {
        ResourceProfileSelectionSource::Current => 0,
        ResourceProfileSelectionSource::Fallback => 1,
        ResourceProfileSelectionSource::Strategy => 2,
    }
}

pub open spec fn enc_command(c: ResourceSchedulingCommand) -> Seq<u8> {
    match c {
        ResourceSchedulingCommand::Require { adapter_id } => seq![0u8] + enc_str(adapter_id@),
        ResourceSchedulingCommand::Residency { adapter_id, mode } => seq![1u8] + enc_str(adapter_id@) + seq![
            if mode == ResourceResidencyPreference::Resident { 0u8 } else { 1u8 },
        ],
        ResourceSchedulingCommand::Fallback { adapter_id, profile_ids } => seq![2u8] + enc_str(adapter_id@) + enc_strs(
            strs(profile_ids@),
        ),
        ResourceSchedulingCommand::Coexist { adapter_ids } => seq![3u8] + enc_strs(strs(adapter_ids@)),
        ResourceSchedulingCommand::Exclusive { adapter_ids } => seq![4u8] + enc_strs(strs(adapter_ids@)),
        ResourceSchedulingCommand::YieldThenRun { yielding_adapter_id, target_adapter_id } => seq![5u8] + enc_str(
            yielding_adapter_id@,
        ) + enc_str(target_adapter_id@),
    }
}

pub open spec fn enc_commands(cs: Seq<ResourceSchedulingCommand>) -> Seq<u8>
    decreases cs.len(),
{
    if cs.len() == 0 {
        Seq::empty()
    } else {
        enc_commands(cs.drop_last()) + enc_command(cs.last())
    }
}

pub open spec fn enc_intent(i: ResourceSchedulingIntent) -> Seq<u8> {
    seq![strategy_tag(i.strategy)] + enc_opt_str(opt_view(i.primary_adapter_id)) + enc_u64(i.commands@.len())
        + enc_commands(i.commands@)
}

pub open spec fn enc_selection(s: SelectionView) -> Seq<u8> {
    enc_str(s.adapter_id) + enc_str(s.profile_id) + seq![source_tag(s.source)] + enc_opt_u64(
        s.estimated_reservation_mib,
    ) + enc_opt_u64(s.estimated_ram_mib) + enc_opt_u16(s.estimated_cpu_threads)
}

pub open spec fn enc_selection_items(ss: Seq<SelectionView>) -> Seq<u8>
    decreases ss.len(),
{
    if ss.len() == 0 {
        Seq::empty()
    } else {
        enc_selection_items(ss.drop_last()) + enc_selection(ss.last())
    }
}

pub open spec fn enc_opt_operation(o: Option<ResourceAdapterOperation>) -> Seq<u8> {
    match o {
        Some(op) => seq![1u8, operation_tag(op)],
        None => seq![0u8],
    }
}

/// A transition: what it does, then how it is undone and why.
pub open spec fn enc_transition_step(t: TransitionView) -> Seq<u8> {
    enc_str(t.adapter_id) + seq![operation_tag(t.operation)] + enc_opt_str(t.profile_id)
}

pub open spec fn enc_transition_rest(t: TransitionView) -> Seq<u8> {
    enc_opt_operation(t.rollback_operation) + enc_opt_str(t.rollback_profile_id) + enc_opt_str(
        t.requested_by_adapter_id,
    ) + enc_strs(t.reason_codes)
}

pub open spec fn enc_transition(t: TransitionView) -> Seq<u8> {
    enc_transition_step(t) + enc_transition_rest(t)
}

pub open spec fn enc_transition_items(ts: Seq<TransitionView>) -> Seq<u8>
    decreases ts.len(),
{
    if ts.len() == 0 {
        Seq::empty()
    } else {
        enc_transition_items(ts.drop_last()) + enc_transition(ts.last())
    }
}

/// The bytes a plan id digests: the revision, the intent, the selections
/// and the transitions.
pub open spec fn plan_payload(
    revision: u64,
    intent: ResourceSchedulingIntent,
    sels: Seq<SelectionView>,
    ts: Seq<TransitionView>,
) -> Seq<u8> {
    enc_u64(revision as nat) + enc_intent(intent) + enc_u64(sels.len()) + enc_selection_items(sels) + enc_u64(ts.len())
        + enc_transition_items(ts)
}


fn push_le(v: &mut Vec<u8>, x: u64, n: usize)
    ensures
        final(v)@ == old(v)@ + le_bytes(x as nat, n as nat),
{
    let ghost target = v@ + le_bytes(x as nat, n as nat);
    let mut y: u64 = x;
    let mut k: usize = 0;
    assert(v@ + le_bytes(y as nat, (n - k) as nat) == target);
    while k < n
        invariant
            k <= n,
            v@ + le_bytes(y as nat, (n - k) as nat) == target,
        decreases n - k,
    {
        let ghost before = v@;
        let b = (y % 256) as u8;
        v.push(b);
        assert(le_bytes(y as nat, (n - k) as nat) == seq![b] + le_bytes((y / 256) as nat, (n - k - 1) as nat));
        assert(before + (seq![b] + le_bytes((y / 256) as nat, (n - k - 1) as nat)) =~= v@ + le_bytes(
            (y / 256) as nat,
            (n - k - 1) as nat,
        ));
        y = y / 256;
        k = k + 1;
    }
    assert(le_bytes(y as nat, 0) =~= Seq::<u8>::empty());
    assert(v@ =~= v@ + Seq::<u8>::empty());
}

fn push_str(v: &mut Vec<u8>, s: &str)
    ensures
        final(v)@ == old(v)@ + enc_str(s@),
{
    let ghost v0 = v@;
    let cs = crate::text::chars_of(s);
    push_le(v, cs.len() as u64, 8);
    let ghost v1 = v@;
    let mut i: usize = 0;
    assert(enc_chars(cs@.take(0)) =~= Seq::<u8>::empty());
    assert(v@ =~= v1 + enc_chars(cs@.take(0)));
    while i < cs.len()
        invariant
            i <= cs@.len(),
            cs@ == s@,
            v@ == v1 + enc_chars(cs@.take(i as int)),
        decreases cs.len() - i,
    {
        assert(cs@.take(i + 1).drop_last() =~= cs@.take(i as int));
        assert(cs@.take(i + 1).last() == cs@[i as int]);
        let c = cs[i];
        push_le(v, c as u32 as u64, 4);
        assert(v@ =~= v1 + enc_chars(cs@.take(i + 1)));
        i = i + 1;
    }
    assert(cs@.take(i as int) =~= cs@);
    assert(v@ =~= v0 + enc_str(s@));
}

fn push_opt_str(v: &mut Vec<u8>, o: &Option<String>)
    ensures
        final(v)@ == old(v)@ + enc_opt_str(opt_view(*o)),
{
    let ghost v0 = v@;
    match o {
        Some(s) => {
            v.push(1u8);
            push_str(v, s.as_str());
            assert(v@ =~= v0 + enc_opt_str(opt_view(*o)));
        },
        None => {
            v.push(0u8);
            assert(v@ =~= v0 + enc_opt_str(opt_view(*o)));
        },
    }
}

fn push_strs(v: &mut Vec<u8>, ss: &Vec<String>)
    ensures
        final(v)@ == old(v)@ + enc_strs(strs(ss@)),
{
    let ghost v0 = v@;
    let ghost sv = strs(ss@);
    push_le(v, ss.len() as u64, 8);
    let ghost v1 = v@;
    let mut i: usize = 0;
    assert(v@ =~= v1 + enc_str_items(sv.take(0)));
    while i < ss.len()
        invariant
            i <= ss@.len(),
            sv == strs(ss@),
            v@ == v1 + enc_str_items(sv.take(i as int)),
        decreases ss.len() - i,
    {
        assert(sv.take(i + 1).drop_last() =~= sv.take(i as int));
        assert(sv.take(i + 1).last() == ss@[i as int]@);
        push_str(v, ss[i].as_str());
        assert(v@ =~= v1 + enc_str_items(sv.take(i + 1)));
        i = i + 1;
    }
    assert(sv.take(i as int) =~= sv);
    assert(v@ =~= v0 + enc_strs(sv));
}

fn push_opt_u64(v: &mut Vec<u8>, o: Option<u64>)
    ensures
        final(v)@ == old(v)@ + enc_opt_u64(o),
{
    let ghost v0 = v@;
    match o {
        Some(x) => {
            v.push(1u8);
            push_le(v, x, 8);
        },
        None => {
            v.push(0u8);
        },
    }
    assert(v@ =~= v0 + enc_opt_u64(o));
}

fn push_opt_u16(v: &mut Vec<u8>, o: Option<u16>)
    ensures
        final(v)@ == old(v)@ + enc_opt_u16(o),
{
    let ghost v0 = v@;
    match o {
        Some(x) => {
            v.push(1u8);
            push_le(v, x as u64, 2);
        },
        None => {
            v.push(0u8);
        },
    }
    assert(v@ =~= v0 + enc_opt_u16(o));
}

fn operation_byte(op: ResourceAdapterOperation) -> (r: u8)
    ensures
        r == operation_tag(op),
{
    match op {
        ResourceAdapterOperation::Observe => 0,
        ResourceAdapterOperation::Start => 1,
        ResourceAdapterOperation::Resume => 2,
        ResourceAdapterOperation::Suspend => 3,
        ResourceAdapterOperation::Unload => 4,
        ResourceAdapterOperation::Release => 5,
    }
}

fn push_command(v: &mut Vec<u8>, c: &ResourceSchedulingCommand)
    ensures
        final(v)@ == old(v)@ + enc_command(*c),
{
    let ghost v0 = v@;
    match c {
        ResourceSchedulingCommand::Require { adapter_id } => {
            v.push(0u8);
            push_str(v, adapter_id.as_str());
        },
        ResourceSchedulingCommand::Residency { adapter_id, mode } => {
            v.push(1u8);
            push_str(v, adapter_id.as_str());
            match mode {
                ResourceResidencyPreference::Resident => v.push(0u8),
                ResourceResidencyPreference::OnDemand => v.push(1u8),
            }
        },
        ResourceSchedulingCommand::Fallback { adapter_id, profile_ids } => {
            v.push(2u8);
            push_str(v, adapter_id.as_str());
            push_strs(v, profile_ids);
        },
        ResourceSchedulingCommand::Coexist { adapter_ids } => {
            v.push(3u8);
            push_strs(v, adapter_ids);
        },
        ResourceSchedulingCommand::Exclusive { adapter_ids } => {
            v.push(4u8);
            push_strs(v, adapter_ids);
        },
        ResourceSchedulingCommand::YieldThenRun { yielding_adapter_id, target_adapter_id } => {
            v.push(5u8);
            push_str(v, yielding_adapter_id.as_str());
            push_str(v, target_adapter_id.as_str());
        },
    }
    assert(v@ =~= v0 + enc_command(*c));
}

fn push_intent(v: &mut Vec<u8>, intent: &ResourceSchedulingIntent)
    ensures
        final(v)@ == old(v)@ + enc_intent(*intent),
{
    let ghost v0 = v@;
    let tag: u8 = match intent.strategy {
        ResourceSchedulingStrategy::PrimaryFirst => 0,
        ResourceSchedulingStrategy::LatencyFirst => 1,
        ResourceSchedulingStrategy::CompatibilityFirst => 2,
        ResourceSchedulingStrategy::Custom => 3,
    };
    v.push(tag);
    push_opt_str(v, &intent.primary_adapter_id);
    let cs = &intent.commands;
    push_le(v, cs.len() as u64, 8);
    let ghost v1 = v@;
    let mut i: usize = 0;
    assert(v@ =~= v1 + enc_commands(cs@.take(0)));
    while i < cs.len()
        invariant
            i <= cs@.len(),
            cs == &intent.commands,
            v@ == v1 + enc_commands(cs@.take(i as int)),
        decreases cs.len() - i,
    {
        assert(cs@.take(i + 1).drop_last() =~= cs@.take(i as int));
        assert(cs@.take(i + 1).last() == cs@[i as int]);
        push_command(v, &cs[i]);
        assert(v@ =~= v1 + enc_commands(cs@.take(i + 1)));
        i = i + 1;
    }
    assert(cs@.take(i as int) =~= cs@);
    assert(v@ =~= v0 + enc_intent(*intent));
}

fn push_selection(v: &mut Vec<u8>, s: &ResourceProfileSelection)
    ensures
        final(v)@ == old(v)@ + enc_selection(s@),
{
    let ghost v0 = v@;
    push_str(v, s.adapter_id.as_str());
    push_str(v, s.profile_id.as_str());
    let tag: u8 = match s.source {
        ResourceProfileSelectionSource::Current => 0,
        ResourceProfileSelectionSource::Fallback => 1,
        ResourceProfileSelectionSource::Strategy => 2,
    };
    v.push(tag);
    push_opt_u64(v, s.estimated_reservation_mib);
    push_opt_u64(v, s.estimated_ram_mib);
    push_opt_u16(v, s.estimated_cpu_threads);
    assert(v@ =~= v0 + enc_selection(s@));
}

fn push_transition_step(v: &mut Vec<u8>, t: &ResourceCandidateTransition)
    ensures
        final(v)@ == old(v)@ + enc_transition_step(t@),
{
    let ghost v0 = v@;
    push_str(v, t.adapter_id.as_str());
    v.push(operation_byte(t.operation));
    push_opt_str(v, &t.profile_id);
    assert(v@ =~= v0 + enc_transition_step(t@));
}

fn push_transition_rest(v: &mut Vec<u8>, t: &ResourceCandidateTransition)
    ensures
        final(v)@ == old(v)@ + enc_transition_rest(t@),
{
    let ghost v0 = v@;
    match t.rollback_operation {
        Some(op) => {
            v.push(1u8);
            v.push(operation_byte(op));
        },
        None => v.push(0u8),
    }
    assert(v@ =~= v0 + enc_opt_operation(t.rollback_operation));
    let ghost v1 = v@;
    push_opt_str(v, &t.rollback_profile_id);
    push_opt_str(v, &t.requested_by_adapter_id);
    push_strs(v, &t.reason_codes);
    assert(v@ =~= v1 + (enc_opt_str(t@.rollback_profile_id) + enc_opt_str(t@.requested_by_adapter_id) + enc_strs(
        t@.reason_codes,
    )));
    assert(v@ =~= v0 + enc_transition_rest(t@));
}

fn push_transition(v: &mut Vec<u8>, t: &ResourceCandidateTransition)
    ensures
        final(v)@ == old(v)@ + enc_transition(t@),
{
    let ghost v0 = v@;
    push_transition_step(v, t);
    push_transition_rest(v, t);
    assert(v@ =~= v0 + enc_transition(t@));
}

/// The bytes a candidate plan's id digests.
pub fn candidate_plan_payload(
    revision: u64,
    intent: &ResourceSchedulingIntent,
    selections: &Vec<ResourceProfileSelection>,
    transitions: &Vec<ResourceCandidateTransition>,
) -> (r: Vec<u8>)
    ensures
        r@ == plan_payload(revision, *intent, selection_views(selections@), transition_views(transitions@)),
{
    let ghost sv = selection_views(selections@);
    let ghost tv = transition_views(transitions@);
    let mut v: Vec<u8> = Vec::new();
    push_le(&mut v, revision, 8);
    push_intent(&mut v, intent);
    push_le(&mut v, selections.len() as u64, 8);
    let ghost v1 = v@;
    let mut i: usize = 0;
    assert(v@ =~= v1 + enc_selection_items(sv.take(0)));
    while i < selections.len()
        invariant
            i <= selections@.len(),
            sv == selection_views(selections@),
            v@ == v1 + enc_selection_items(sv.take(i as int)),
        decreases selections.len() - i,
    {
        assert(sv.take(i + 1).drop_last() =~= sv.take(i as int));
        assert(sv.take(i + 1).last() == selections@[i as int]@);
        push_selection(&mut v, &selections[i]);
        assert(v@ =~= v1 + enc_selection_items(sv.take(i + 1)));
        i = i + 1;
    }
    assert(sv.take(i as int) =~= sv);
    push_le(&mut v, transitions.len() as u64, 8);
    let ghost v2 = v@;
    let mut k: usize = 0;
    assert(v@ =~= v2 + enc_transition_items(tv.take(0)));
    while k < transitions.len()
        invariant
            k <= transitions@.len(),
            tv == transition_views(transitions@),
            v@ == v2 + enc_transition_items(tv.take(k as int)),
        decreases transitions.len() - k,
    {
        assert(tv.take(k + 1).drop_last() =~= tv.take(k as int));
        assert(tv.take(k + 1).last() == transitions@[k as int]@);
        push_transition(&mut v, &transitions[k]);
        assert(v@ =~= v2 + enc_transition_items(tv.take(k + 1)));
        k = k + 1;
    }
    assert(tv.take(k as int) =~= tv);
    assert(v@ =~= plan_payload(revision, *intent, sv, tv));
    v
}


/// The SHA-256 digest of `data`, as `sha2` computes it.
pub uninterp spec fn sha256_of(data: Seq<u8>) -> Seq<u8>;

/// Calls `sha2::Sha256::digest`. Trusted: the result is the digest of
/// `data` and, SHA-256 being a 256-bit hash, 32 bytes long.
#[verifier::external_body]
fn sha256_digest(data: &Vec<u8>) -> (r: Vec<u8>)
    ensures
        r@ == sha256_of(data@),
        r@.len() == 32,
{
    sha2::Sha256::digest(data.as_slice()).to_vec()
}

/// A lowercase hex digit.
pub open spec fn hex_char(n: u8) -> char {
    if n < 10 {
        (48 + n) as char
    } else {
        (87 + n) as char
    }
}

/// Each of the first `n` bytes as two lowercase hex digits.
pub open spec fn hex_prefix(bytes: Seq<u8>, n: nat) -> Seq<char>
    decreases n,
{
    if n == 0 || bytes.len() == 0 {
        Seq::empty()
    } else {
        seq![hex_char(bytes[0] / 16), hex_char(bytes[0] % 16)] + hex_prefix(bytes.drop_first(), (n - 1) as nat)
    }
}

/// The id of a plan compiled from `revision`.
pub open spec fn plan_id_of(
    revision: u64,
    intent: ResourceSchedulingIntent,
    sels: Seq<SelectionView>,
    ts: Seq<TransitionView>,
) -> Seq<char> {
    "resource-plan-"@ + hex_prefix(sha256_of(plan_payload(revision, intent, sels, ts)), 8)
}

fn hex_digit(n: u8) -> (r: char)
    requires
        n < 16,
    ensures
        r == hex_char(n),
{
    if n < 10 {
        (48u8 + n) as char
    } else {
        (87u8 + n) as char
    }
}

fn hex_prefix_exec(bytes: &Vec<u8>, n: usize) -> (r: Vec<char>)
    ensures
        r@ == hex_prefix(bytes@, n as nat),
{
    let mut r: Vec<char> = Vec::new();
    let mut i: usize = 0;
    let ghost target = hex_prefix(bytes@, n as nat);
    assert(bytes@.skip(0) =~= bytes@);
    while i < n && i < bytes.len()
        invariant
            i <= n,
            i <= bytes@.len(),
            r@ + hex_prefix(bytes@.skip(i as int), (n - i) as nat) == target,
        decreases n - i,
    {
        let b = bytes[i];
        let ghost before = r@;
        assert(bytes@.skip(i as int)[0] == b);
        assert(bytes@.skip(i as int).drop_first() =~= bytes@.skip(i + 1));
        r.push(hex_digit(b / 16));
        r.push(hex_digit(b % 16));
        assert(r@ =~= before + seq![hex_char(b / 16), hex_char(b % 16)]);
        assert(before + (seq![hex_char(b / 16), hex_char(b % 16)] + hex_prefix(bytes@.skip(i + 1), (n - i - 1) as nat))
            =~= r@ + hex_prefix(bytes@.skip(i + 1), (n - i - 1) as nat));
        i = i + 1;
    }
    assert(hex_prefix(bytes@.skip(i as int), (n - i) as nat) =~= Seq::<char>::empty());
    assert(r@ =~= r@ + Seq::<char>::empty());
    r
}

/// The id of a candidate plan: a digest of what it was compiled from and
/// into, as `resource-plan-` and the first eight digest bytes in hex.
pub fn candidate_plan_id(
    revision: u64,
    intent: &ResourceSchedulingIntent,
    selections: &Vec<ResourceProfileSelection>,
    transitions: &Vec<ResourceCandidateTransition>,
) -> (r: String)
    ensures
        r@ == plan_id_of(revision, *intent, selection_views(selections@), transition_views(transitions@)),
{
    let payload = candidate_plan_payload(revision, intent, selections, transitions);
    let digest = sha256_digest(&payload);
    let hex = hex_prefix_exec(&digest, 8);
    let mut id = crate::text::owned("resource-plan-");
    crate::text::append_chars(&mut id, hex.as_slice());
    id
}

} // verus!
