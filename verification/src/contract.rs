//! The contract that every part of the room state keeps.
//!
//! A part can be checked against the room it belongs to, summarized,
//! compared with the summary a peer sent, and merged with the delta a peer
//! sent. Whatever the part, a merge is checked before it is committed, and a
//! rejected merge changes nothing.

use vstd::prelude::*;
use crate::error::StateError;

verus! {

/// A state that can be checked, summarized, compared and merged.
pub trait ComposableState: Sized {
    /// The state this one is a part of.
    type ParentState;

    /// What is fixed for the room.
    type Parameters;

    /// What a peer needs to know of this state to tell what it lacks.
    type Summary;

    /// What a peer lacks.
    type Delta;

    /// Every invariant of this state holds in the room `parent_state`.
    spec fn holds(&self, parent_state: &Self::ParentState, parameters: &Self::Parameters) -> bool;

    /// `summary` is the summary of this state.
    spec fn summarized_by(&self, summary: &Self::Summary) -> bool;

    /// This state is `before` with `delta` merged into it.
    spec fn merges(&self, before: &Self, delta: &Self::Delta) -> bool;

    /// Succeeds exactly when every invariant holds.
    fn verify(&self, parent_state: &Self::ParentState, parameters: &Self::Parameters) -> (outcome: Result<
        (),
        StateError,
    >)
        ensures
            outcome is Ok <==> self.holds(parent_state, parameters),
    ;

    /// Gives the summary of this state.
    fn summarize(&self, parent_state: &Self::ParentState, parameters: &Self::Parameters) -> (summary: Self::Summary)
        ensures
            self.summarized_by(&summary),
    ;

    /// Gives what a peer with the summary `old_state_summary` lacks. A peer
    /// that has the summary of this very state lacks nothing.
    fn delta(
        &self,
        parent_state: &Self::ParentState,
        parameters: &Self::Parameters,
        old_state_summary: &Self::Summary,
    ) -> (delta: Option<Self::Delta>)
        ensures
            self.summarized_by(old_state_summary) ==> delta is None,
    ;

    /// Merges `delta`. On success the state is the old one with the delta
    /// merged, and every invariant holds. On failure nothing has changed.
    fn apply_delta(
        &mut self,
        parent_state: &Self::ParentState,
        parameters: &Self::Parameters,
        delta: &Self::Delta,
    ) -> (outcome: Result<(), StateError>)
        ensures
            outcome is Ok ==> final(self).merges(old(self), delta) && final(self).holds(parent_state, parameters),
            outcome is Err ==> *final(self) == *old(self),
    ;
}

} // verus!
