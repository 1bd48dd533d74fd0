//! The migration state machine.
//!
//! `Healthy -> Suspect -> Challenging -> Migrating -> Healthy`, where a
//! suspect or challenging path may also recover to `Healthy` directly.

use vstd::prelude::*;

verus! {

/// The recovery state of the active path.
#[derive(Debug, Clone, Copy, PartialEq, Eq, Structural)]
pub enum MigrationState {
    Healthy,
    Suspect,
    Challenging,
    Migrating,
}

/// Why a transition was taken.
#[derive(Debug, Clone, Copy, PartialEq, Eq, Structural)]
pub enum MigrationReason {
    ControlledTrigger,
    ConditionCleared,
    ConditionPersisted,
    AlternatePathReady,
    MigrationCompleted,
    AckProgressTimeout,
    AckProgressRecovered,
    PathDegradationPersisted,
}

/// A transition that the state machine refused.
#[derive(Debug, Clone, Copy, PartialEq, Eq, Structural)]
pub struct InvalidTransition {
    pub from: MigrationState,
    pub to: MigrationState,
}

/// A transition that the state machine took.
#[derive(Debug, Clone, Copy, PartialEq, Eq, Structural)]
pub struct MigrationTransition {
    pub from: MigrationState,
    pub to: MigrationState,
    pub reason: MigrationReason,
}

impl MigrationState {
    /// The state's name as it appears in logs.
    pub fn as_str(&self) -> (r: &'static str)
        ensures
            r@ == match *self {
                MigrationState::Healthy => "Healthy"@,
                MigrationState::Suspect => "Suspect"@,
                MigrationState::Challenging => "Challenging"@,
                MigrationState::Migrating => "Migrating"@,
            },
    {
        match self {
            MigrationState::Healthy => "Healthy",
            MigrationState::Suspect => "Suspect",
            MigrationState::Challenging => "Challenging",
            MigrationState::Migrating => "Migrating",
        }
    }
}

impl MigrationReason {
    /// The reason's name as it appears in logs.
    pub fn as_str(&self) -> (r: &'static str)
        ensures
            r@ == match *self {
                MigrationReason::ControlledTrigger => "controlled_trigger"@,
                MigrationReason::ConditionCleared => "condition_cleared"@,
                MigrationReason::ConditionPersisted => "condition_persisted"@,
                MigrationReason::AlternatePathReady => "alternate_path_ready"@,
                MigrationReason::MigrationCompleted => "migration_completed"@,
                MigrationReason::AckProgressTimeout => "ack_progress_timeout"@,
                MigrationReason::AckProgressRecovered => "ack_progress_recovered"@,
                MigrationReason::PathDegradationPersisted => "path_degradation_persisted"@,
            },
    {
        match self {
            MigrationReason::ControlledTrigger => "controlled_trigger",
            MigrationReason::ConditionCleared => "condition_cleared",
            MigrationReason::ConditionPersisted => "condition_persisted",
            MigrationReason::AlternatePathReady => "alternate_path_ready",
            MigrationReason::MigrationCompleted => "migration_completed",
            MigrationReason::AckProgressTimeout => "ack_progress_timeout",
            MigrationReason::AckProgressRecovered => "ack_progress_recovered",
            MigrationReason::PathDegradationPersisted => "path_degradation_persisted",
        }
    }
}

/// The transitions the state machine allows.
pub open spec fn valid_transition(current: MigrationState, next: MigrationState) -> bool {
    match (current, next) {
        (MigrationState::Healthy, MigrationState::Suspect) => true,
        (MigrationState::Suspect, MigrationState::Healthy) => true,
        (MigrationState::Suspect, MigrationState::Challenging) => true,
        (MigrationState::Challenging, MigrationState::Healthy) => true,
        (MigrationState::Challenging, MigrationState::Migrating) => true,
        (MigrationState::Migrating, MigrationState::Healthy) => true,
        _ => false,
    }
}

/// Whether the state machine allows `current -> next`.
pub fn is_valid_transition(current: MigrationState, next: MigrationState) -> (r: bool)
    ensures
        r == valid_transition(current, next),
{
    match (current, next) {
        (MigrationState::Healthy, MigrationState::Suspect) => true,
        (MigrationState::Suspect, MigrationState::Healthy) => true,
        (MigrationState::Suspect, MigrationState::Challenging) => true,
        (MigrationState::Challenging, MigrationState::Healthy) => true,
        (MigrationState::Challenging, MigrationState::Migrating) => true,
        (MigrationState::Migrating, MigrationState::Healthy) => true,
        _ => false,
    }
}

/// Holds the migration state and takes only allowed transitions.
#[derive(Debug)]
pub struct MigrationController {
    state: MigrationState,
}

impl MigrationController {
    /// The current state.
    pub closed spec fn spec_state(&self) -> MigrationState {
        self.state
    }

    /// A controller in the `Healthy` state.
    pub fn new() -> (r: MigrationController)
        ensures
            r.spec_state() == MigrationState::Healthy,
    {
        MigrationController { state: MigrationState::Healthy }
    }

    /// The current state.
    pub fn state(&self) -> (r: MigrationState)
        ensures
            r == self.spec_state(),
    {
        self.state
    }

    /// Moves to `next` if the transition is allowed; otherwise reports it and
    /// keeps the current state.
    pub fn transition(&mut self, next: MigrationState, reason: MigrationReason) -> (r: Result<
        MigrationTransition,
        InvalidTransition,
    >)
        ensures
            valid_transition(old(self).spec_state(), next) ==> {
                &&& r == Ok::<MigrationTransition, InvalidTransition>(
                    MigrationTransition { from: old(self).spec_state(), to: next, reason },
                )
                &&& final(self).spec_state() == next
            },
            !valid_transition(old(self).spec_state(), next) ==> {
                &&& r == Err::<MigrationTransition, InvalidTransition>(
                    InvalidTransition { from: old(self).spec_state(), to: next },
                )
                &&& final(self).spec_state() == old(self).spec_state()
            },
    {
        if !is_valid_transition(self.state, next) {
            return Err(InvalidTransition { from: self.state, to: next });
        }
        let previous = self.state;
        self.state = next;
        Ok(MigrationTransition { from: previous, to: next, reason })
    }
}

/// Every path to `Migrating` from `Healthy` passes through `Suspect` and
/// `Challenging`: `Migrating` is entered only from `Challenging`, which is
/// entered only from `Suspect`, which is entered only from `Healthy`.
pub proof fn lemma_migration_requires_escalation(current: MigrationState, next: MigrationState)
    ensures
        valid_transition(current, next) && next == MigrationState::Migrating ==> current
            == MigrationState::Challenging,
        valid_transition(current, next) && next == MigrationState::Challenging ==> current
            == MigrationState::Suspect,
        valid_transition(current, next) && next == MigrationState::Suspect ==> current
            == MigrationState::Healthy,
        valid_transition(current, next) ==> current != next,
{
}

/// Every state other than `Healthy` can return to `Healthy` in one step.
pub proof fn lemma_recovery_always_possible(current: MigrationState)
    ensures
        current != MigrationState::Healthy ==> valid_transition(current, MigrationState::Healthy),
{
}

} // verus!
