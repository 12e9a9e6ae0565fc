//! The order in which the engine runs a frame.
//!
//! A frame calls every module's frame-start hooks, runs the phases in a
//! fixed order, then calls every module's frame-end hook. A phase calls
//! every module's start hook, then for each entity points at it and calls
//! every module's entity-start hook, then the same for the entity-end
//! hooks, then every module's end hook. The schedules below are that
//! order, as data; the engine walks them and makes each call.

use vstd::prelude::*;

verus! {

/// Phase names in the engine.
#[derive(Debug, Clone, Copy, PartialEq, Eq, Structural)]
pub enum Phase {
    AI,
    Input,
    Init,
    Action,
    Subentity,
    Physics,
    Reaction,
    Freeze,
}

/// The name of a phase.
pub open spec fn phase_name(p: Phase) -> Seq<char> {
    match p {
        Phase::AI => "AI"@,
        Phase::Input => "Input"@,
        Phase::Init => "Init"@,
        Phase::Action => "Action"@,
        Phase::Subentity => "Subentity"@,
        Phase::Physics => "Physics"@,
        Phase::Reaction => "Reaction"@,
        Phase::Freeze => "Freeze"@,
    }
}

impl Phase {
    /// The name of the phase.
    pub fn as_str(&self) -> (r: &'static str)
        ensures
            r@ == phase_name(*self),
    {
        match self {
            Phase::AI => "AI",
            Phase::Input => "Input",
            Phase::Init => "Init",
            Phase::Action => "Action",
            Phase::Subentity => "Subentity",
            Phase::Physics => "Physics",
            Phase::Reaction => "Reaction",
            Phase::Freeze => "Freeze",
        }
    }
}

/// The hooks of a phase, in the order a phase calls them.
#[derive(Debug, Clone, Copy, PartialEq, Eq, Structural)]
pub enum PhaseHook {
    Start,
    StartEntity,
    EndEntity,
    End,
}

/// The hooks of a frame outside its phases.
#[derive(Debug, Clone, Copy, PartialEq, Eq, Structural)]
pub enum FrameHook {
    PreStart,
    Start,
    End,
}

/// One step of a schedule.
#[derive(Debug, Clone, Copy, PartialEq, Eq, Structural)]
pub enum EngineStep {
    /// Set the state handle's phase.
    SetPhase(Phase),
    /// Point the state handle at an entity.
    PointToEntity(i32),
    /// Call a phase hook of the module at this index.
    PhaseCall(Phase, PhaseHook, usize),
    /// Call a frame hook of the module at this index.
    FrameCall(FrameHook, usize),
}

/// A phase hook of every module, in module order.
pub open spec fn phase_calls(p: Phase, h: PhaseHook, n: nat) -> Seq<EngineStep> {
    Seq::new(n, |i: int| EngineStep::PhaseCall(p, h, i as usize))
}

/// A frame hook of every module, in module order.
pub open spec fn frame_calls(h: FrameHook, n: nat) -> Seq<EngineStep> {
    Seq::new(n, |i: int| EngineStep::FrameCall(h, i as usize))
}

/// For each entity in turn: point at it, then a hook of every module.
pub open spec fn entity_pass(p: Phase, h: PhaseHook, eids: Seq<i32>, n: nat) -> Seq<EngineStep>
    decreases eids.len(),
{
    if eids.len() == 0 {
        Seq::empty()
    } else {
        entity_pass(p, h, eids.drop_last(), n) + seq![EngineStep::PointToEntity(eids.last())] + phase_calls(p, h, n)
    }
}

/// The steps of a phase.
pub open spec fn phase_steps(p: Phase, eids: Seq<i32>, n: nat) -> Seq<EngineStep> {
    seq![EngineStep::SetPhase(p)] + phase_calls(p, PhaseHook::Start, n) + entity_pass(
        p,
        PhaseHook::StartEntity,
        eids,
        n,
    ) + entity_pass(p, PhaseHook::EndEntity, eids, n) + phase_calls(p, PhaseHook::End, n)
}

/// The phases of a frame, in order.
pub open spec fn frame_phases() -> Seq<Phase> {
    seq![Phase::AI, Phase::Input, Phase::Init, Phase::Action, Phase::Physics, Phase::Reaction]
}

/// The steps of the phases of `ps`, one after another.
pub open spec fn phases_steps(ps: Seq<Phase>, eids: Seq<i32>, n: nat) -> Seq<EngineStep>
    decreases ps.len(),
{
    if ps.len() == 0 {
        Seq::empty()
    } else {
        phases_steps(ps.drop_last(), eids, n) + phase_steps(ps.last(), eids, n)
    }
}

/// The steps of a frame.
pub open spec fn frame_steps(eids: Seq<i32>, n: nat) -> Seq<EngineStep> {
    frame_calls(FrameHook::PreStart, n) + frame_calls(FrameHook::Start, n) + phases_steps(
        frame_phases(),
        eids,
        n,
    ) + frame_calls(FrameHook::End, n)
}

/// Appends a phase hook of every module.
fn push_phase_calls(steps: &mut Vec<EngineStep>, p: Phase, h: PhaseHook, module_count: usize)
    ensures
        final(steps)@ == old(steps)@ + phase_calls(p, h, module_count as nat),
{
    let ghost s0 = steps@;
    let mut i: usize = 0;
    while i < module_count
        invariant
            i <= module_count,
            steps@ == s0 + phase_calls(p, h, i as nat),
        decreases module_count - i,
    {
        steps.push(EngineStep::PhaseCall(p, h, i));
        assert(steps@ =~= s0 + phase_calls(p, h, (i + 1) as nat));
        i = i + 1;
    }
}

/// Appends a frame hook of every module.
fn push_frame_calls(steps: &mut Vec<EngineStep>, h: FrameHook, module_count: usize)
    ensures
        final(steps)@ == old(steps)@ + frame_calls(h, module_count as nat),
{
    let ghost s0 = steps@;
    let mut i: usize = 0;
    while i < module_count
        invariant
            i <= module_count,
            steps@ == s0 + frame_calls(h, i as nat),
        decreases module_count - i,
    {
        steps.push(EngineStep::FrameCall(h, i));
        assert(steps@ =~= s0 + frame_calls(h, (i + 1) as nat));
        i = i + 1;
    }
}

/// Appends an entity pass.
fn push_entity_pass(steps: &mut Vec<EngineStep>, p: Phase, h: PhaseHook, eids: &[i32], module_count: usize)
    ensures
        final(steps)@ == old(steps)@ + entity_pass(p, h, eids@, module_count as nat),
{
    let ghost s0 = steps@;
    let mut i: usize = 0;
    assert(eids@.take(0) =~= Seq::<i32>::empty());
    assert(s0 + entity_pass(p, h, eids@.take(0), module_count as nat) =~= s0);
    while i < eids.len()
        invariant
            i <= eids.len(),
            steps@ == s0 + entity_pass(p, h, eids@.take(i as int), module_count as nat),
        decreases eids.len() - i,
    {
        steps.push(EngineStep::PointToEntity(eids[i]));
        push_phase_calls(steps, p, h, module_count);
        assert(eids@.take(i as int + 1).drop_last() =~= eids@.take(i as int));
        assert(steps@ =~= s0 + entity_pass(p, h, eids@.take(i as int + 1), module_count as nat));
        i = i + 1;
    }
    assert(eids@.take(eids.len() as int) =~= eids@);
}

/// Appends the steps of a phase.
fn push_phase(steps: &mut Vec<EngineStep>, phase: Phase, eids: &[i32], module_count: usize)
    ensures
        final(steps)@ == old(steps)@ + phase_steps(phase, eids@, module_count as nat),
{
    let ghost s0 = steps@;
    steps.push(EngineStep::SetPhase(phase));
    push_phase_calls(steps, phase, PhaseHook::Start, module_count);
    push_entity_pass(steps, phase, PhaseHook::StartEntity, eids, module_count);
    push_entity_pass(steps, phase, PhaseHook::EndEntity, eids, module_count);
    push_phase_calls(steps, phase, PhaseHook::End, module_count);
    assert(steps@ =~= s0 + phase_steps(phase, eids@, module_count as nat));
}

/// The steps of a phase over the entities `eids` with `module_count`
/// modules.
pub fn phase_schedule(phase: Phase, eids: &[i32], module_count: usize) -> (r: Vec<EngineStep>)
    ensures
        r@ == phase_steps(phase, eids@, module_count as nat),
{
    let mut steps: Vec<EngineStep> = Vec::new();
    push_phase(&mut steps, phase, eids, module_count);
    assert(steps@ =~= phase_steps(phase, eids@, module_count as nat));
    steps
}

/// The steps of a frame over the entities `eids` with `module_count`
/// modules.
pub fn frame_schedule(eids: &[i32], module_count: usize) -> (r: Vec<EngineStep>)
    ensures
        r@ == frame_steps(eids@, module_count as nat),
{
    let ghost n = module_count as nat;
    let mut steps: Vec<EngineStep> = Vec::new();
    push_frame_calls(&mut steps, FrameHook::PreStart, module_count);
    push_frame_calls(&mut steps, FrameHook::Start, module_count);
    let ghost s0 = steps@;
    let phases = vec![Phase::AI, Phase::Input, Phase::Init, Phase::Action, Phase::Physics, Phase::Reaction];
    let ghost ps = frame_phases();
    assert(phases@ =~= ps);
    assert(ps.take(0) =~= Seq::<Phase>::empty());
    assert(steps@ =~= s0 + phases_steps(ps.take(0), eids@, n));
    let mut i: usize = 0;
    while i < phases.len()
        invariant
            i <= phases@.len(),
            phases@ == ps,
            n == module_count as nat,
            steps@ == s0 + phases_steps(ps.take(i as int), eids@, n),
        decreases phases@.len() - i,
    {
        push_phase(&mut steps, phases[i], eids, module_count);
        assert(ps.take(i + 1).drop_last() =~= ps.take(i as int));
        assert(steps@ =~= s0 + phases_steps(ps.take(i + 1), eids@, n));
        i = i + 1;
    }
    assert(ps.take(6) =~= ps);
    push_frame_calls(&mut steps, FrameHook::End, module_count);
    assert(steps@ =~= frame_steps(eids@, n));
    steps
}

// ---------------------------------------------------------------------------
// Laws

/// An entity pass has, for each entity, one pointing step and one call
/// per module.
pub proof fn lemma_entity_pass_len(p: Phase, h: PhaseHook, eids: Seq<i32>, n: nat)
    ensures
        entity_pass(p, h, eids, n).len() == eids.len() * (n + 1),
    decreases eids.len(),
{
    if eids.len() > 0 {
        lemma_entity_pass_len(p, h, eids.drop_last(), n);
        assert((eids.len() - 1) * (n + 1) + 1 + n == eids.len() * (n + 1)) by (nonlinear_arith);
    }
}

/// A phase sets the phase once, then calls each module's start and end
/// hooks once and each module's entity hooks once per entity: its first
/// calls are the start hooks in module order, its last the end hooks.
pub proof fn lemma_phase_shape(p: Phase, eids: Seq<i32>, n: nat)
    ensures
        phase_steps(p, eids, n).len() == 1 + 2 * n + 2 * eids.len() * (n + 1),
        phase_steps(p, eids, n)[0] == EngineStep::SetPhase(p),
        phase_steps(p, eids, n).subrange(1, 1 + n as int) == phase_calls(p, PhaseHook::Start, n),
        phase_steps(p, eids, n).subrange(
            phase_steps(p, eids, n).len() - n,
            phase_steps(p, eids, n).len() as int,
        ) == phase_calls(p, PhaseHook::End, n),
{
    lemma_entity_pass_len(p, PhaseHook::StartEntity, eids, n);
    lemma_entity_pass_len(p, PhaseHook::EndEntity, eids, n);
    let s = phase_steps(p, eids, n);
    let a = seq![EngineStep::SetPhase(p)] + phase_calls(p, PhaseHook::Start, n);
    let b = entity_pass(p, PhaseHook::StartEntity, eids, n);
    let c = entity_pass(p, PhaseHook::EndEntity, eids, n);
    let d = phase_calls(p, PhaseHook::End, n);
    assert(s == a + b + c + d);
    assert(2 * eids.len() * (n + 1) == eids.len() * (n + 1) + eids.len() * (n + 1)) by (nonlinear_arith);
    assert(s.subrange(1, 1 + n as int) =~= phase_calls(p, PhaseHook::Start, n));
    assert(s.subrange(s.len() - n, s.len() as int) =~= d);
}

/// A frame runs the pre-start and start hooks of every module, then each
/// phase of the frame in the order AI, Input, Init, Action, Physics,
/// Reaction over the same entities, then the end hooks; so it has
/// `3n + 6(1 + 2n + 2e(n + 1))` steps for `n` modules and `e` entities.
pub proof fn lemma_frame_shape(eids: Seq<i32>, n: nat)
    ensures
        frame_steps(eids, n) == frame_calls(FrameHook::PreStart, n) + frame_calls(FrameHook::Start, n)
            + phase_steps(Phase::AI, eids, n) + phase_steps(Phase::Input, eids, n) + phase_steps(
            Phase::Init,
            eids,
            n,
        ) + phase_steps(Phase::Action, eids, n) + phase_steps(Phase::Physics, eids, n) + phase_steps(
            Phase::Reaction,
            eids,
            n,
        ) + frame_calls(FrameHook::End, n),
        frame_steps(eids, n).len() == 3 * n + 6 * (1 + 2 * n + 2 * eids.len() * (n + 1)),
{
    let ps = frame_phases();
    reveal_with_fuel(phases_steps, 7);
    assert(ps.drop_last().drop_last().drop_last().drop_last().drop_last().drop_last() =~= Seq::<Phase>::empty());
    assert(phases_steps(ps, eids, n) =~= phase_steps(Phase::AI, eids, n) + phase_steps(Phase::Input, eids, n)
        + phase_steps(Phase::Init, eids, n) + phase_steps(Phase::Action, eids, n) + phase_steps(
        Phase::Physics,
        eids,
        n,
    ) + phase_steps(Phase::Reaction, eids, n));
    lemma_phase_shape(Phase::AI, eids, n);
    lemma_phase_shape(Phase::Input, eids, n);
    lemma_phase_shape(Phase::Init, eids, n);
    lemma_phase_shape(Phase::Action, eids, n);
    lemma_phase_shape(Phase::Physics, eids, n);
    lemma_phase_shape(Phase::Reaction, eids, n);
}

} // verus!
