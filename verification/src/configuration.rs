//! The room configuration: a versioned record signed by the room owner.

use vstd::prelude::*;
use vstd::bytes::{spec_u64_to_le_bytes, u64_to_le_bytes};
use vstd::utf8::encode_utf8;
use crate::contract::ComposableState;
use crate::crypto::{signature_accepted, signature_of, Signature, SigningKey, VerifyingKey};
use crate::error::StateError;
use crate::invite::{find, position, MemberId};
use crate::member::{links_of, AuthorizedMember};
use crate::state::{ChatRoomParametersV1, ChatRoomStateV1};

verus! {

/// The settings of a room.
#[derive(Clone, Debug, PartialEq, Eq)]
pub struct Configuration {
    /// Counts the revisions of the configuration. A higher one supersedes a
    /// lower one.
    pub configuration_version: u32,
    /// The name the room is shown under.
    pub name: String,
    /// How many bans the room keeps.
    pub max_user_bans: usize,
}

impl Configuration {
    /// The bytes that the owner signs: the version and the maximum number of
    /// bans, eight bytes each, then the name in UTF-8.
    pub open spec fn spec_bytes(&self) -> Seq<u8> {
        spec_u64_to_le_bytes(self.configuration_version as u64) + spec_u64_to_le_bytes(
            self.max_user_bans as u64,
        ) + encode_utf8(self.name@)
    }

    /// The canonical serialization of the configuration.
    pub fn to_bytes(&self) -> (bytes: Vec<u8>)
        ensures
            bytes@ == self.spec_bytes(),
    {
        let mut out = u64_to_le_bytes(self.configuration_version as u64);
        let mut max = u64_to_le_bytes(self.max_user_bans as u64);
        out.append(&mut max);
        out.extend_from_slice(self.name.as_str().as_bytes());
        assert(out@ =~= self.spec_bytes());
        out
    }

    /// A copy of the configuration.
    pub fn duplicate(&self) -> (copy: Configuration)
        ensures
            copy == *self,
    {
        Configuration {
            configuration_version: self.configuration_version,
            name: self.name.clone(),
            max_user_bans: self.max_user_bans,
        }
    }
}

impl Default for Configuration {
    /// Version 1 of a room without a name that keeps five bans.
    fn default() -> (configuration: Configuration)
        ensures
            configuration.configuration_version == 1,
            configuration.name@ == Seq::<char>::empty(),
            configuration.max_user_bans == 5,
    {
        Configuration { configuration_version: 1, name: String::new(), max_user_bans: 5 }
    }
}

/// A configuration together with the owner's signature over it.
#[derive(Clone, Debug, PartialEq, Eq)]
pub struct AuthorizedConfigurationV1 {
    pub configuration: Configuration,
    pub signature: Signature,
}

/// What a check of the configuration reports, given whether the owner is in
/// the member directory and whether the owner's key accepts the signature.
pub open spec fn configuration_status(owner_found: bool, accepted: bool) -> Result<(), StateError> {
    if !owner_found {
        Err(StateError::OwnerNotFound)
    } else if !accepted {
        Err(StateError::InvalidSignature)
    } else {
        Ok(())
    }
}

/// Decides on a configuration from what was found out about it.
pub fn judge_configuration(owner_found: bool, accepted: bool) -> (outcome: Result<(), StateError>)
    ensures
        outcome == configuration_status(owner_found, accepted),
{
    if !owner_found {
        Err(StateError::OwnerNotFound)
    } else if !accepted {
        Err(StateError::InvalidSignature)
    } else {
        Ok(())
    }
}

/// What replacing a configuration of version `current` by one of version
/// `offered` reports, where `checked` is the outcome of checking the offered
/// one: its failure if it has one, else `StaleConfiguration` unless the
/// offered version is higher.
pub open spec fn replacement_status(checked: Result<(), StateError>, current: u32, offered: u32) -> Result<
    (),
    StateError,
> {
    match checked {
        Err(e) => Err(e),
        Ok(()) => if offered > current {
            Ok(())
        } else {
            Err(StateError::StaleConfiguration)
        },
    }
}

/// Decides whether an offered configuration replaces the current one.
pub fn judge_replacement(checked: Result<(), StateError>, current: u32, offered: u32) -> (outcome: Result<
    (),
    StateError,
>)
    ensures
        outcome == replacement_status(checked, current, offered),
{
    match checked {
        Err(e) => Err(e),
        Ok(()) => if offered > current {
            Ok(())
        } else {
            Err(StateError::StaleConfiguration)
        },
    }
}

impl AuthorizedConfigurationV1 {
    /// Signs `configuration` with the key of the owner.
    pub fn new(configuration: Configuration, owner_signing_key: &SigningKey) -> (authorized: AuthorizedConfigurationV1)
        ensures
            authorized.configuration == configuration,
            authorized.signature@ == signature_of(owner_signing_key@, configuration.spec_bytes()),
    {
        let bytes = configuration.to_bytes();
        let signature = owner_signing_key.sign(bytes.as_slice());
        AuthorizedConfigurationV1 { configuration, signature }
    }

    /// Whether `owner_vk` accepts the signature of this configuration.
    pub open spec fn signed_by(&self, owner_vk: VerifyingKey) -> bool {
        signature_accepted(owner_vk@, self.configuration.spec_bytes(), self.signature@)
    }

    /// Checks the signature against the key of the owner.
    pub fn verify_signature(&self, owner_vk: &VerifyingKey) -> (outcome: Result<(), StateError>)
        ensures
            outcome == crate::crypto::signature_outcome(self.signed_by(*owner_vk)),
    {
        let bytes = self.configuration.to_bytes();
        owner_vk.verify(bytes.as_slice(), &self.signature)
    }

    /// A copy of the signed configuration.
    pub fn duplicate(&self) -> (copy: AuthorizedConfigurationV1)
        ensures
            copy == *self,
    {
        AuthorizedConfigurationV1 { configuration: self.configuration.duplicate(), signature: self.signature }
    }

    /// Whether the key of the owner, as the directory `members` holds it,
    /// accepts the signature.
    pub open spec fn owner_accepts(&self, members: Seq<AuthorizedMember>, owner: MemberId) -> bool {
        match position(links_of(members), owner) {
            Some(place) => self.signed_by(members[place].member.member_vk),
            None => false,
        }
    }

    /// The outcome of checking this configuration in a room with the member
    /// directory `members` and the owner `owner`.
    pub open spec fn status(&self, members: Seq<AuthorizedMember>, owner: MemberId) -> Result<(), StateError> {
        configuration_status(position(links_of(members), owner) is Some, self.owner_accepts(members, owner))
    }

    /// What a replica with the summary `old_version` lacks.
    pub open spec fn spec_delta(&self, old_version: u32) -> Option<AuthorizedConfigurationV1> {
        if self.configuration.configuration_version > old_version {
            Some(*self)
        } else {
            None
        }
    }

    /// The outcome of replacing this configuration by `delta`.
    pub open spec fn replacement(
        &self,
        members: Seq<AuthorizedMember>,
        owner: MemberId,
        delta: &AuthorizedConfigurationV1,
    ) -> Result<(), StateError> {
        replacement_status(
            delta.status(members, owner),
            self.configuration.configuration_version,
            delta.configuration.configuration_version,
        )
    }

}

impl ComposableState for AuthorizedConfigurationV1 {
    type ParentState = ChatRoomStateV1;

    type Parameters = ChatRoomParametersV1;

    type Summary = u32;

    type Delta = AuthorizedConfigurationV1;

    /// The owner is a member of the room and has signed the configuration.
    open spec fn holds(&self, parent_state: &ChatRoomStateV1, parameters: &ChatRoomParametersV1) -> bool {
        self.status(parent_state.members@, parameters.owner) is Ok
    }

    /// The summary is the version.
    open spec fn summarized_by(&self, summary: &u32) -> bool {
        *summary == self.configuration.configuration_version
    }

    /// The configuration is the delta, which has a higher version than the
    /// one that was there.
    open spec fn merges(&self, before: &AuthorizedConfigurationV1, delta: &AuthorizedConfigurationV1) -> bool {
        *self == *delta && delta.configuration.configuration_version > before.configuration.configuration_version
    }

    /// The configuration is valid when the owner is a member and has signed it.
    fn verify(&self, parent_state: &ChatRoomStateV1, parameters: &ChatRoomParametersV1) -> (outcome: Result<
        (),
        StateError,
    >)
        ensures
            outcome == self.status(parent_state.members@, parameters.owner),
    {
        let links = parent_state.members.links();
        match find(&links, parameters.owner) {
            None => judge_configuration(false, false),
            Some(place) => {
                let accepted = self.verify_signature(&parent_state.members.members[place].member.member_vk).is_ok();
                judge_configuration(true, accepted)
            },
        }
    }

    /// The summary of a configuration is its version.
    fn summarize(&self, parent_state: &ChatRoomStateV1, parameters: &ChatRoomParametersV1) -> (summary: u32)
        ensures
            summary == self.configuration.configuration_version,
    {
        self.configuration.configuration_version
    }

    /// The configuration itself, if it supersedes the summarized version.
    fn delta(
        &self,
        parent_state: &ChatRoomStateV1,
        parameters: &ChatRoomParametersV1,
        old_state_summary: &u32,
    ) -> (delta: Option<AuthorizedConfigurationV1>)
        ensures
            delta == self.spec_delta(*old_state_summary),
    {
        if self.configuration.configuration_version > *old_state_summary {
            Some(self.duplicate())
        } else {
            None
        }
    }

    /// Replaces the configuration by `delta` if that is valid and has a
    /// higher version; otherwise changes nothing.
    fn apply_delta(
        &mut self,
        parent_state: &ChatRoomStateV1,
        parameters: &ChatRoomParametersV1,
        delta: &AuthorizedConfigurationV1,
    ) -> (outcome: Result<(), StateError>)
        ensures
            outcome == old(self).replacement(parent_state.members@, parameters.owner, delta),
            outcome is Ok ==> *final(self) == *delta,
            outcome is Err ==> *final(self) == *old(self),
    {
        let checked = delta.verify(parent_state, parameters);
        let outcome = judge_replacement(
            checked,
            self.configuration.configuration_version,
            delta.configuration.configuration_version,
        );
        if outcome.is_ok() {
            *self = delta.duplicate();
        }
        outcome
    }
}

impl Default for AuthorizedConfigurationV1 {
    /// The default configuration with a signature of zeros, which no key is
    /// known to accept.
    fn default() -> (authorized: AuthorizedConfigurationV1)
        ensures
            authorized.configuration.configuration_version == 1,
            authorized.configuration.name@ == Seq::<char>::empty(),
            authorized.configuration.max_user_bans == 5,
            authorized.signature@ == Seq::new(64, |i: int| 0u8),
    {
        let signature = Signature { bytes: [0u8; 64] };
        assert(signature@ =~= Seq::new(64, |i: int| 0u8));
        AuthorizedConfigurationV1 { configuration: Configuration::default(), signature }
    }
}

} // verus!
