//! Error values returned by the state components.

use vstd::prelude::*;

verus! {

/// The three classes of failure a caller can react to.
#[derive(Clone, Copy, Debug, PartialEq, Eq, Structural)]
pub enum ErrorKind {
    /// A signature did not verify, or a record names a member that is unknown
    /// or not entitled to issue it.
    Authorization,
    /// A bounded collection holds more records than its configured maximum.
    Quota,
    /// The records contradict each other: a broken or cyclic invite chain, or
    /// an identifier that occurs twice.
    Integrity,
}

/// A violated invariant of the room state.
#[derive(Clone, Copy, Debug, PartialEq, Eq, Structural)]
pub enum StateError {
    /// A record's signature is not accepted under the key of its issuer.
    InvalidSignature,
    /// The member who issued a ban is not in the member directory.
    BannerNotFound,
    /// The member a ban is aimed at is not in the member directory.
    TargetNotFound,
    /// The banner is neither the owner nor in the invite chain of the target.
    BannerNotAuthorized,
    /// The ban is among the oldest beyond the configured maximum.
    TooManyBans,
    /// Another ban earlier in the collection has the same identifier.
    DuplicateBan,
    /// Another member earlier in the directory has the same identifier.
    DuplicateMember,
    /// A member other than the owner names no inviter, or names one that is
    /// not in the directory.
    MissingInviter,
    /// The invite chain did not reach the owner within as many hops as the
    /// directory has members, so it runs in a cycle.
    UnterminatedChain,
    /// The configuration does not supersede the one it is meant to replace.
    StaleConfiguration,
    /// The room owner is not in the member directory, so nothing can be
    /// checked against the owner's key.
    OwnerNotFound,
}

impl StateError {
    /// The class this error belongs to.
    pub open spec fn spec_kind(&self) -> ErrorKind {
        match *self {
            StateError::InvalidSignature => ErrorKind::Authorization,
            StateError::BannerNotFound => ErrorKind::Authorization,
            StateError::TargetNotFound => ErrorKind::Authorization,
            StateError::BannerNotAuthorized => ErrorKind::Authorization,
            StateError::TooManyBans => ErrorKind::Quota,
            StateError::DuplicateBan => ErrorKind::Integrity,
            StateError::DuplicateMember => ErrorKind::Integrity,
            StateError::MissingInviter => ErrorKind::Integrity,
            StateError::UnterminatedChain => ErrorKind::Integrity,
            StateError::StaleConfiguration => ErrorKind::Integrity,
            StateError::OwnerNotFound => ErrorKind::Authorization,
        }
    }

    /// The text shown for this error.
    pub open spec fn spec_message(&self) -> Seq<char> {
        match *self {
            StateError::InvalidSignature => "Invalid signature"@,
            StateError::BannerNotFound => "Banning member not found in member list"@,
            StateError::TargetNotFound => "Banned member not found in member list"@,
            StateError::BannerNotAuthorized => "Banner is not in the invite chain of the banned member"@,
            StateError::TooManyBans => "Exceeded maximum number of user bans"@,
            StateError::DuplicateBan => "Ban is already present"@,
            StateError::DuplicateMember => "Member is already present"@,
            StateError::MissingInviter => "Inviter not found in member list"@,
            StateError::UnterminatedChain => "Invite chain does not reach the room owner"@,
            StateError::StaleConfiguration => "Configuration version must be higher"@,
            StateError::OwnerNotFound => "Room owner not found in member list"@,
        }
    }

    #[verifier::when_used_as_spec(spec_kind)]
    pub fn kind(&self) -> (k: ErrorKind)
        ensures
            k == self.spec_kind(),
    {
        match self {
            StateError::InvalidSignature => ErrorKind::Authorization,
            StateError::BannerNotFound => ErrorKind::Authorization,
            StateError::TargetNotFound => ErrorKind::Authorization,
            StateError::BannerNotAuthorized => ErrorKind::Authorization,
            StateError::TooManyBans => ErrorKind::Quota,
            StateError::DuplicateBan => ErrorKind::Integrity,
            StateError::DuplicateMember => ErrorKind::Integrity,
            StateError::MissingInviter => ErrorKind::Integrity,
            StateError::UnterminatedChain => ErrorKind::Integrity,
            StateError::StaleConfiguration => ErrorKind::Integrity,
            StateError::OwnerNotFound => ErrorKind::Authorization,
        }
    }

    /// A human-readable description of the error.
    pub fn message(&self) -> (text: String)
        ensures
            text@ == self.spec_message(),
    {
        match self {
            StateError::InvalidSignature => "Invalid signature".to_owned(),
            StateError::BannerNotFound => "Banning member not found in member list".to_owned(),
            StateError::TargetNotFound => "Banned member not found in member list".to_owned(),
            StateError::BannerNotAuthorized => "Banner is not in the invite chain of the banned member".to_owned(),
            StateError::TooManyBans => "Exceeded maximum number of user bans".to_owned(),
            StateError::DuplicateBan => "Ban is already present".to_owned(),
            StateError::DuplicateMember => "Member is already present".to_owned(),
            StateError::MissingInviter => "Inviter not found in member list".to_owned(),
            StateError::UnterminatedChain => "Invite chain does not reach the room owner".to_owned(),
            StateError::StaleConfiguration => "Configuration version must be higher".to_owned(),
            StateError::OwnerNotFound => "Room owner not found in member list".to_owned(),
        }
    }
}

} // verus!
