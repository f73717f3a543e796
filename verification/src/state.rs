//! The room state as a whole, and the parameters it is checked against.
//!
//! The room state is made of parts, each of which can be checked,
//! summarized, compared with a summary and merged with a delta. The whole
//! does the same part by part. A delta is merged into all parts of a copy,
//! and the copy replaces the state only if it is valid as a whole.

use vstd::prelude::*;
use crate::ban::{ban_id_of, bans_fail_with, bans_stand, AuthorizedUserBan, BansV1};
use crate::ban_rules::BanId;
use crate::configuration::AuthorizedConfigurationV1;
use crate::contract::ComposableState;
use crate::error::StateError;
use crate::invite::MemberId;
use crate::member::{member_id_of, members_fail_with, members_valid, AuthorizedMember, MembersV1};
use crate::sync::{delta_for, ids_of};

verus! {

/// What is fixed when a room is created and never changes.
#[derive(Clone, Copy, Debug, PartialEq, Eq)]
pub struct ChatRoomParametersV1 {
    /// The identifier of the room owner.
    pub owner: MemberId,
}

impl ChatRoomParametersV1 {
    /// The identifier of the room owner.
    pub fn owner_id(&self) -> (id: MemberId)
        ensures
            id == self.owner,
    {
        self.owner
    }
}

/// The state of a room: its configuration, its members and its bans.
#[derive(Clone, Debug, PartialEq, Eq)]
pub struct ChatRoomStateV1 {
    pub configuration: AuthorizedConfigurationV1,
    pub members: MembersV1,
    pub bans: BansV1,
}

/// The summary of a room state: the summary of each part.
#[derive(Clone, Debug, PartialEq, Eq)]
pub struct ChatRoomStateV1Summary {
    pub configuration: u32,
    pub members: Vec<MemberId>,
    pub bans: Vec<BanId>,
}

/// What a replica lacks of a room state: the delta of each part, where the
/// part has one.
#[derive(Clone, Debug, PartialEq, Eq)]
pub struct ChatRoomStateV1Delta {
    pub configuration: Option<AuthorizedConfigurationV1>,
    pub members: Option<Vec<AuthorizedMember>>,
    pub bans: Option<Vec<AuthorizedUserBan>>,
}

/// The room is valid: the owner has signed the configuration, every member
/// is the owner or validly invited, and every ban stands.
pub open spec fn room_valid(
    configuration: AuthorizedConfigurationV1,
    members: Seq<AuthorizedMember>,
    bans: Seq<AuthorizedUserBan>,
    owner: MemberId,
) -> bool {
    &&& configuration.status(members, owner) is Ok
    &&& members_valid(members, owner)
    &&& bans_stand(bans, members, owner, configuration.configuration.max_user_bans as nat)
}

/// The room is not valid, and `e` is what is wrong with the first part that
/// fails: the configuration, then the members, then the bans.
pub open spec fn room_fails_with(
    configuration: AuthorizedConfigurationV1,
    members: Seq<AuthorizedMember>,
    bans: Seq<AuthorizedUserBan>,
    owner: MemberId,
    e: StateError,
) -> bool {
    match configuration.status(members, owner) {
        Err(c) => e == c,
        Ok(()) => if members_valid(members, owner) {
            bans_fail_with(bans, members, owner, configuration.configuration.max_user_bans as nat, e)
        } else {
            members_fail_with(members, owner, e)
        },
    }
}

/// The records of a delta, if there is one.
pub open spec fn records_view<T>(records: Option<Vec<T>>) -> Option<Seq<T>> {
    match records {
        Some(v) => Some(v@),
        None => None,
    }
}

/// The records of a part after a delta has been merged into it.
pub open spec fn merged_records<T>(current: Seq<T>, offered: Option<Vec<T>>) -> Seq<T> {
    match offered {
        Some(v) => current + v@,
        None => current,
    }
}

/// The configuration after a delta has been merged.
pub open spec fn merged_configuration(
    current: AuthorizedConfigurationV1,
    offered: Option<AuthorizedConfigurationV1>,
) -> AuthorizedConfigurationV1 {
    match offered {
        Some(c) => c,
        None => current,
    }
}

/// The offered configuration does not supersede the current one.
pub open spec fn is_stale(current: AuthorizedConfigurationV1, offered: Option<AuthorizedConfigurationV1>) -> bool {
    offered matches Some(c) && c.configuration.configuration_version
        <= current.configuration.configuration_version
}

impl ChatRoomStateV1Summary {
    /// This is the summary of `state`.
    pub open spec fn summarizes(&self, state: &ChatRoomStateV1) -> bool {
        &&& self.configuration == state.configuration.configuration.configuration_version
        &&& self.members@ == ids_of(state.members@, member_id_of())
        &&& self.bans@ == ids_of(state.bans@, ban_id_of())
    }
}

impl ChatRoomStateV1Delta {
    /// This is what a replica with the summary `known` lacks of `state`.
    pub open spec fn completes(&self, state: &ChatRoomStateV1, known: &ChatRoomStateV1Summary) -> bool {
        &&& self.configuration == state.configuration.spec_delta(known.configuration)
        &&& records_view(self.members) == delta_for(state.members@, member_id_of(), known.members@)
        &&& records_view(self.bans) == delta_for(state.bans@, ban_id_of(), known.bans@)
    }

    /// The delta holds nothing.
    pub open spec fn is_empty(&self) -> bool {
        self.configuration is None && self.members is None && self.bans is None
    }
}

impl ChatRoomStateV1 {
    /// The room is valid under `parameters`.
    pub open spec fn valid(&self, parameters: &ChatRoomParametersV1) -> bool {
        room_valid(self.configuration, self.members@, self.bans@, parameters.owner)
    }

    /// Checks the configuration, the members and the bans, each against the
    /// room as a whole, and reports the first failure.
    pub fn verify(&self, parameters: &ChatRoomParametersV1) -> (outcome: Result<(), StateError>)
        ensures
            match outcome {
                Ok(()) => self.valid(parameters),
                Err(e) => room_fails_with(self.configuration, self.members@, self.bans@, parameters.owner, e),
            },
    {
        match self.configuration.verify(self, parameters) {
            Err(e) => {
                return Err(e);
            },
            Ok(()) => {},
        }
        match self.members.verify(self, parameters) {
            Err(e) => {
                return Err(e);
            },
            Ok(()) => {},
        }
        self.bans.verify(self, parameters)
    }

    /// Summarizes each part.
    pub fn summarize(&self, parameters: &ChatRoomParametersV1) -> (summary: ChatRoomStateV1Summary)
        ensures
            summary.summarizes(self),
    {
        ChatRoomStateV1Summary {
            configuration: self.configuration.summarize(self, parameters),
            members: self.members.summarize(self, parameters),
            bans: self.bans.summarize(self, parameters),
        }
    }

    /// What a replica with the summary `old_state_summary` lacks, part by
    /// part, or `None` if it lacks nothing.
    pub fn delta(&self, parameters: &ChatRoomParametersV1, old_state_summary: &ChatRoomStateV1Summary) -> (delta:
        Option<ChatRoomStateV1Delta>)
        ensures
            match delta {
                Some(d) => d.completes(self, old_state_summary) && !d.is_empty(),
                None => {
                    &&& self.configuration.spec_delta(old_state_summary.configuration) is None
                    &&& delta_for(self.members@, member_id_of(), old_state_summary.members@) is None
                    &&& delta_for(self.bans@, ban_id_of(), old_state_summary.bans@) is None
                },
            },
            old_state_summary.summarizes(self) ==> delta is None,
    {
        let configuration = self.configuration.delta(self, parameters, &old_state_summary.configuration);
        let members = self.members.delta(self, parameters, &old_state_summary.members);
        let bans = self.bans.delta(self, parameters, &old_state_summary.bans);
        if configuration.is_none() && members.is_none() && bans.is_none() {
            None
        } else {
            Some(ChatRoomStateV1Delta { configuration, members, bans })
        }
    }

    /// Merges `delta` into every part if the room is valid with it and an
    /// offered configuration has a higher version; otherwise changes
    /// nothing.
    pub fn apply_delta(&mut self, parameters: &ChatRoomParametersV1, delta: &ChatRoomStateV1Delta) -> (outcome:
        Result<(), StateError>)
        ensures
            ({
                let configuration = merged_configuration(old(self).configuration, delta.configuration);
                let members = merged_records(old(self).members@, delta.members);
                let bans = merged_records(old(self).bans@, delta.bans);
                match outcome {
                    Ok(()) => {
                        &&& room_valid(configuration, members, bans, parameters.owner)
                        &&& !is_stale(old(self).configuration, delta.configuration)
                        &&& final(self).configuration == configuration
                        &&& final(self).members@ == members
                        &&& final(self).bans@ == bans
                    },
                    Err(e) => {
                        &&& *final(self) == *old(self)
                        &&& if room_valid(configuration, members, bans, parameters.owner) {
                            is_stale(old(self).configuration, delta.configuration) && e
                                == StateError::StaleConfiguration
                        } else {
                            room_fails_with(configuration, members, bans, parameters.owner, e)
                        }
                    },
                }
            }),
    {
        let configuration = match &delta.configuration {
            Some(offered) => offered.duplicate(),
            None => self.configuration.duplicate(),
        };
        let mut members = self.members.members.clone();
        match &delta.members {
            Some(offered) => {
                members.extend_from_slice(offered.as_slice());
            },
            None => {},
        }
        assert(members@ =~= merged_records(self.members@, delta.members));
        let mut bans = self.bans.0.clone();
        match &delta.bans {
            Some(offered) => {
                bans.extend_from_slice(offered.as_slice());
            },
            None => {},
        }
        assert(bans@ =~= merged_records(self.bans@, delta.bans));
        let candidate = ChatRoomStateV1 { configuration, members: MembersV1 { members }, bans: BansV1(bans) };
        match candidate.verify(parameters) {
            Err(e) => {
                return Err(e);
            },
            Ok(()) => {},
        }
        let stale = match &delta.configuration {
            Some(offered) => offered.configuration.configuration_version
                <= self.configuration.configuration.configuration_version,
            None => false,
        };
        if stale {
            return Err(StateError::StaleConfiguration);
        }
        *self = candidate;
        Ok(())
    }
}

impl Default for ChatRoomStateV1 {
    /// A room with the default configuration, no members and no bans.
    fn default() -> (state: ChatRoomStateV1)
        ensures
            state.configuration.configuration.configuration_version == 1,
            state.configuration.configuration.name@ == Seq::<char>::empty(),
            state.configuration.configuration.max_user_bans == 5,
            state.configuration.signature@ == Seq::new(64, |i: int| 0u8),
            state.members@ == Seq::<AuthorizedMember>::empty(),
            state.bans@ == Seq::<AuthorizedUserBan>::empty(),
    {
        ChatRoomStateV1 {
            configuration: AuthorizedConfigurationV1::default(),
            members: MembersV1::default(),
            bans: BansV1::default(),
        }
    }
}

} // verus!
