//! The member directory: who belongs to the room, and on whose invitation.

use vstd::prelude::*;
use vstd::bytes::{lemma_auto_spec_u64_to_from_le_bytes, spec_u64_from_le_bytes, spec_u64_to_le_bytes, u64_to_le_bytes};
use crate::contract::ComposableState;
use crate::crypto::{fast_hash, fast_hash_of, signature_accepted, signature_of, Signature, SigningKey, VerifyingKey};
use crate::error::StateError;
use crate::invite::{
    chain_contains, check_directory, directory_valid, distinct_ids, find, first_member_failure, invite_chain,
    is_repeat, lemma_chain_members, lemma_member_has_position, lemma_same_chain, lemma_same_lookup, member_status,
    position, same_members, walk_invite_chain, MemberId, MemberLink,
};
use crate::state::{ChatRoomParametersV1, ChatRoomStateV1};
use crate::sync::{
    delta_for, ids_of, law_delta_completes, law_own_summary_lacks_nothing, lemma_missing_of_none,
    lemma_missing_step, lemma_same_records_same_len, missing, same_records,
};

verus! {

impl MemberId {
    /// The identifier of the member with verifying key `member_vk`.
    pub open spec fn spec_new(member_vk: VerifyingKey) -> MemberId {
        MemberId(fast_hash_of(member_vk@))
    }

    /// Derives the identifier of a member from its verifying key.
    pub fn new(member_vk: &VerifyingKey) -> (id: MemberId)
        ensures
            id == MemberId::spec_new(*member_vk),
    {
        MemberId(fast_hash(member_vk.bytes.as_slice()))
    }
}

/// The eight bytes that stand for an identifier in a signed record.
pub open spec fn id_bytes(id: MemberId) -> Seq<u8> {
    spec_u64_to_le_bytes(id.0 as u64)
}

/// Identifiers with the same bytes are the same, and the bytes are eight.
pub proof fn lemma_id_bytes(a: MemberId, b: MemberId)
    ensures
        id_bytes(a).len() == 8,
        id_bytes(a) == id_bytes(b) ==> a == b,
{
    lemma_auto_spec_u64_to_from_le_bytes();
    let x = a.0;
    let y = b.0;
    assert((x as u64) == (y as u64) ==> x == y) by (bit_vector);
    if id_bytes(a) == id_bytes(b) {
        assert(spec_u64_from_le_bytes(id_bytes(a)) == a.0 as u64);
        assert(spec_u64_from_le_bytes(id_bytes(b)) == b.0 as u64);
    }
}

/// Appends the bytes of `id` to `out`.
pub fn push_id_bytes(out: &mut Vec<u8>, id: MemberId)
    ensures
        final(out)@ == old(out)@ + id_bytes(id),
{
    let mut bytes = u64_to_le_bytes(id.0 as u64);
    out.append(&mut bytes);
}

/// A member of the room: its key, and who invited it.
#[derive(Clone, Copy, Debug, PartialEq, Eq)]
pub struct Member {
    /// The member who invited this one. The owner has no inviter.
    pub invited_by: Option<MemberId>,
    /// The key that identifies the member and verifies what it signs.
    pub member_vk: VerifyingKey,
}

impl Member {
    pub fn new(member_vk: VerifyingKey, invited_by: Option<MemberId>) -> (member: Member)
        ensures
            member == (Member { invited_by, member_vk }),
    {
        Member { invited_by, member_vk }
    }

    pub open spec fn spec_id(&self) -> MemberId {
        MemberId::spec_new(self.member_vk)
    }

    /// The member's identifier.
    pub fn id(&self) -> (id: MemberId)
        ensures
            id == self.spec_id(),
    {
        MemberId::new(&self.member_vk)
    }

    /// The bytes that an inviter signs: a tag that tells whether there is an
    /// inviter, the inviter's identifier (zero if there is none), and the
    /// member's key. Always 41 bytes.
    pub open spec fn spec_bytes(&self) -> Seq<u8> {
        match self.invited_by {
            None => seq![0u8] + id_bytes(MemberId(0)) + self.member_vk@,
            Some(inviter) => seq![1u8] + id_bytes(inviter) + self.member_vk@,
        }
    }

    /// The canonical serialization of the member.
    pub fn to_bytes(&self) -> (bytes: Vec<u8>)
        ensures
            bytes@ == self.spec_bytes(),
    {
        let mut out: Vec<u8> = Vec::new();
        match self.invited_by {
            None => {
                out.push(0u8);
                push_id_bytes(&mut out, MemberId(0));
            },
            Some(inviter) => {
                out.push(1u8);
                push_id_bytes(&mut out, inviter);
            },
        }
        out.extend_from_slice(self.member_vk.bytes.as_slice());
        assert(out@ =~= self.spec_bytes());
        out
    }
}

/// No two members have the same bytes.
pub proof fn law_member_bytes_distinct(a: Member, b: Member)
    requires
        a.spec_bytes() == b.spec_bytes(),
    ensures
        a.invited_by == b.invited_by,
        a.member_vk@ == b.member_vk@,
{
    let ia = match a.invited_by {
        Some(id) => id,
        None => MemberId(0),
    };
    let ib = match b.invited_by {
        Some(id) => id,
        None => MemberId(0),
    };
    lemma_id_bytes(ia, ib);
    lemma_id_bytes(ib, ia);
    let ta: u8 = if a.invited_by is Some { 1 } else { 0 };
    let tb: u8 = if b.invited_by is Some { 1 } else { 0 };
    assert(a.spec_bytes() =~= seq![ta] + id_bytes(ia) + a.member_vk@);
    assert(b.spec_bytes() =~= seq![tb] + id_bytes(ib) + b.member_vk@);
    assert(a.spec_bytes()[0] == ta);
    assert(b.spec_bytes()[0] == tb);
    assert(a.spec_bytes().subrange(1, 9) =~= id_bytes(ia));
    assert(b.spec_bytes().subrange(1, 9) =~= id_bytes(ib));
    assert(a.spec_bytes().subrange(9, a.spec_bytes().len() as int) =~= a.member_vk@);
    assert(b.spec_bytes().subrange(9, b.spec_bytes().len() as int) =~= b.member_vk@);
}

/// A member together with the signature of whoever invited it.
#[derive(Clone, Copy, Debug, PartialEq, Eq)]
pub struct AuthorizedMember {
    pub member: Member,
    /// The inviter's signature over the member's bytes.
    pub signature: Signature,
}

impl AuthorizedMember {
    /// Signs `member` with the key of its inviter.
    pub fn new(member: Member, inviter_signing_key: &SigningKey) -> (authorized: AuthorizedMember)
        ensures
            authorized.member == member,
            authorized.signature@ == signature_of(inviter_signing_key@, member.spec_bytes()),
    {
        let bytes = member.to_bytes();
        AuthorizedMember { member, signature: inviter_signing_key.sign(bytes.as_slice()) }
    }

    /// Whether `inviter_vk` accepts the signature of this member.
    pub open spec fn signed_by(&self, inviter_vk: VerifyingKey) -> bool {
        signature_accepted(inviter_vk@, self.member.spec_bytes(), self.signature@)
    }

    /// Checks the signature against the key of the inviter.
    pub fn verify_signature(&self, inviter_vk: &VerifyingKey) -> (outcome: Result<(), StateError>)
        ensures
            outcome == crate::crypto::signature_outcome(self.signed_by(*inviter_vk)),
    {
        let bytes = self.member.to_bytes();
        inviter_vk.verify(bytes.as_slice(), &self.signature)
    }

    pub open spec fn spec_id(&self) -> MemberId {
        self.member.spec_id()
    }

    /// The member's identifier.
    pub fn id(&self) -> (id: MemberId)
        ensures
            id == self.spec_id(),
    {
        self.member.id()
    }

    /// What the invite rules read of this member.
    pub open spec fn spec_link(&self) -> MemberLink {
        MemberLink { id: self.spec_id(), invited_by: self.member.invited_by }
    }

    pub fn link(&self) -> (link: MemberLink)
        ensures
            link == self.spec_link(),
    {
        MemberLink { id: self.id(), invited_by: self.member.invited_by }
    }
}

/// What the invite rules read of the members, in the order of the directory.
pub open spec fn links_of(members: Seq<AuthorizedMember>) -> Seq<MemberLink> {
    members.map_values(|m: AuthorizedMember| m.spec_link())
}

/// The function that gives a member its identifier.
pub open spec fn member_id_of() -> spec_fn(AuthorizedMember) -> MemberId {
    |m: AuthorizedMember| m.spec_id()
}

/// Whether the signature of member `i` is accepted under the key of its
/// inviter, as the directory holds it. It is not where the member names no
/// inviter or the directory does not hold the inviter.
pub open spec fn inviter_accepts(members: Seq<AuthorizedMember>, i: int) -> bool {
    match members[i].member.invited_by {
        None => false,
        Some(inviter) => match position(links_of(members), inviter) {
            None => false,
            Some(place) => members[i].signed_by(members[place].member.member_vk),
        },
    }
}

/// For each member, whether its inviter accepts its signature.
pub open spec fn verdicts_of(members: Seq<AuthorizedMember>) -> Seq<bool> {
    Seq::new(members.len(), |i: int| inviter_accepts(members, i))
}

/// Every member is the owner or was validly invited: see
/// [`crate::invite::member_status`].
pub open spec fn members_valid(members: Seq<AuthorizedMember>, owner: MemberId) -> bool {
    directory_valid(links_of(members), verdicts_of(members), owner)
}

/// Some member fails a check, and the first that does fails with `e`.
pub open spec fn members_fail_with(members: Seq<AuthorizedMember>, owner: MemberId, e: StateError) -> bool {
    exists|i: int| first_member_failure(links_of(members), verdicts_of(members), owner, i, e)
}

/// The invite chain of `member` as records of the directory.
pub open spec fn chain_records(members: Seq<AuthorizedMember>, owner: MemberId, member: AuthorizedMember) -> Result<
    Seq<AuthorizedMember>,
    StateError,
> {
    match invite_chain(links_of(members), owner, member.spec_link(), members.len()) {
        Ok(ids) => Ok(ids.map_values(|id: MemberId| members[position(links_of(members), id).unwrap()])),
        Err(e) => Err(e),
    }
}

/// The member directory of a room.
#[derive(Clone, Debug, PartialEq, Eq)]
pub struct MembersV1 {
    pub members: Vec<AuthorizedMember>,
}

impl View for MembersV1 {
    type V = Seq<AuthorizedMember>;

    open spec fn view(&self) -> Seq<AuthorizedMember> {
        self.members@
    }
}

impl Default for MembersV1 {
    /// The empty directory.
    fn default() -> (members: MembersV1)
        ensures
            members@ == Seq::<AuthorizedMember>::empty(),
    {
        MembersV1 { members: Vec::new() }
    }
}

impl MembersV1 {
    /// Derives the identifier of every member.
    pub fn links(&self) -> (links: Vec<MemberLink>)
        ensures
            links@ == links_of(self@),
    {
        let mut links: Vec<MemberLink> = Vec::new();
        let mut i: usize = 0;
        while i < self.members.len()
            invariant
                i <= self.members.len(),
                links.len() == i,
                forall|j: int| 0 <= j < i ==> links@[j] == self@[j].spec_link(),
            decreases self.members.len() - i,
        {
            links.push(self.members[i].link());
            i += 1;
        }
        assert(links@ =~= links_of(self@));
        links
    }

    /// Checks the signature of every member against the key of its inviter.
    pub fn signature_verdicts(&self) -> (verdicts: Vec<bool>)
        ensures
            verdicts@ == verdicts_of(self@),
    {
        let links = self.links();
        let mut verdicts: Vec<bool> = Vec::new();
        let mut i: usize = 0;
        while i < self.members.len()
            invariant
                i <= self.members.len(),
                links@ == links_of(self@),
                verdicts.len() == i,
                forall|j: int| 0 <= j < i ==> verdicts@[j] == inviter_accepts(self@, j),
            decreases self.members.len() - i,
        {
            let member = &self.members[i];
            let accepted = match member.member.invited_by {
                None => false,
                Some(inviter) => match find(&links, inviter) {
                    None => false,
                    Some(place) => member.verify_signature(&self.members[place].member.member_vk).is_ok(),
                },
            };
            verdicts.push(accepted);
            i += 1;
        }
        assert(verdicts@ =~= verdicts_of(self@));
        verdicts
    }

    /// The members who stand between `member` and the owner: its inviter,
    /// the inviter's inviter and so on, the owner last.
    pub fn get_invite_chain(&self, member: &AuthorizedMember, parameters: &ChatRoomParametersV1) -> (chain: Result<
        Vec<AuthorizedMember>,
        StateError,
    >)
        ensures
            match chain {
                Ok(records) => chain_records(self@, parameters.owner, *member) == Ok::<
                    Seq<AuthorizedMember>,
                    StateError,
                >(records@),
                Err(e) => chain_records(self@, parameters.owner, *member) == Err::<
                    Seq<AuthorizedMember>,
                    StateError,
                >(e),
            },
    {
        let links = self.links();
        let ids = match walk_invite_chain(&links, parameters.owner, member.link()) {
            Err(e) => {
                return Err(e);
            },
            Ok(ids) => ids,
        };
        proof {
            lemma_chain_members(links@, parameters.owner, member.spec_link(), links@.len());
        }
        let ghost expected = chain_records(self@, parameters.owner, *member).unwrap();
        let mut records: Vec<AuthorizedMember> = Vec::new();
        let mut k: usize = 0;
        while k < ids.len()
            invariant
                k <= ids.len(),
                links@ == links_of(self@),
                expected.len() == ids.len(),
                forall|j: int| 0 <= j < ids.len() ==> position(links@, #[trigger] ids@[j]) is Some,
                forall|j: int|
                    0 <= j < ids.len() ==> expected[j] == self@[position(links@, #[trigger] ids@[j]).unwrap()],
                records.len() == k,
                forall|j: int| 0 <= j < k ==> records@[j] == expected[j],
            decreases ids.len() - k,
        {
            let place = find(&links, ids[k]);
            assert(place is Some);
            records.push(self.members[place.unwrap()]);
            k += 1;
        }
        assert(records@ =~= expected);
        Ok(records)
    }

    /// Whether `candidate` lies in the invite chain of `member`.
    pub fn is_in_invite_chain(
        &self,
        candidate: MemberId,
        member: &AuthorizedMember,
        parameters: &ChatRoomParametersV1,
    ) -> (found: bool)
        ensures
            found == crate::invite::in_invite_chain(links_of(self@), parameters.owner, candidate, member.spec_link()),
    {
        let links = self.links();
        match walk_invite_chain(&links, parameters.owner, member.link()) {
            Err(_) => false,
            Ok(ids) => chain_contains(&ids, candidate),
        }
    }
}

impl ComposableState for MembersV1 {
    type ParentState = ChatRoomStateV1;

    type Parameters = ChatRoomParametersV1;

    type Summary = Vec<MemberId>;

    type Delta = Vec<AuthorizedMember>;

    /// Every member is the owner or was validly invited. The directory is
    /// checked against itself: nothing of `parent_state` is read.
    open spec fn holds(&self, parent_state: &ChatRoomStateV1, parameters: &ChatRoomParametersV1) -> bool {
        members_valid(self@, parameters.owner)
    }

    /// The summary lists the identifiers of the members, in order.
    open spec fn summarized_by(&self, summary: &Vec<MemberId>) -> bool {
        summary@ == ids_of(self@, member_id_of())
    }

    /// The members of the delta follow those that were there.
    open spec fn merges(&self, before: &MembersV1, delta: &Vec<AuthorizedMember>) -> bool {
        self@ == before@ + delta@
    }

    /// Checks the directory and reports what is wrong with the first member
    /// that fails.
    fn verify(&self, parent_state: &ChatRoomStateV1, parameters: &ChatRoomParametersV1) -> (outcome: Result<
        (),
        StateError,
    >)
        ensures
            match outcome {
                Ok(()) => members_valid(self@, parameters.owner),
                Err(e) => members_fail_with(self@, parameters.owner, e),
            },
    {
        let links = self.links();
        let verdicts = self.signature_verdicts();
        check_directory(&links, &verdicts, parameters.owner)
    }

    /// The identifiers of the members, in the order of the directory.
    fn summarize(&self, parent_state: &ChatRoomStateV1, parameters: &ChatRoomParametersV1) -> (summary: Vec<
        MemberId,
    >)
        ensures
            summary@ == ids_of(self@, member_id_of()),
    {
        let mut summary: Vec<MemberId> = Vec::new();
        let mut i: usize = 0;
        while i < self.members.len()
            invariant
                i <= self.members.len(),
                summary.len() == i,
                forall|j: int| 0 <= j < i ==> summary@[j] == self@[j].spec_id(),
            decreases self.members.len() - i,
        {
            summary.push(self.members[i].id());
            i += 1;
        }
        assert(summary@ =~= ids_of(self@, member_id_of()));
        summary
    }

    /// The members that a replica with the summary `old_state_summary` lacks,
    /// or `None` if it lacks none.
    fn delta(
        &self,
        parent_state: &ChatRoomStateV1,
        parameters: &ChatRoomParametersV1,
        old_state_summary: &Vec<MemberId>,
    ) -> (delta: Option<Vec<AuthorizedMember>>)
        ensures
            match delta {
                Some(records) => delta_for(self@, member_id_of(), old_state_summary@) == Some(records@),
                None => delta_for(self@, member_id_of(), old_state_summary@) is None,
            },
            old_state_summary@ == ids_of(self@, member_id_of()) ==> delta is None,
    {
        proof {
            law_own_summary_lacks_nothing(self@, member_id_of());
        }
        let mut lacking: Vec<AuthorizedMember> = Vec::new();
        let mut i: usize = 0;
        proof {
            lemma_missing_of_none(self@, member_id_of(), old_state_summary@);
        }
        while i < self.members.len()
            invariant
                i <= self.members.len(),
                lacking@ == missing(self@.take(i as int), member_id_of(), old_state_summary@),
            decreases self.members.len() - i,
        {
            proof {
                lemma_missing_step(self@, member_id_of(), old_state_summary@, i as int);
            }
            if !chain_contains(old_state_summary, self.members[i].id()) {
                lacking.push(self.members[i]);
            }
            i += 1;
        }
        assert(self@.take(i as int) =~= self@);
        if lacking.len() == 0 {
            None
        } else {
            Some(lacking)
        }
    }

    /// Adds the members of `delta` if the directory is valid with them;
    /// otherwise changes nothing.
    fn apply_delta(
        &mut self,
        parent_state: &ChatRoomStateV1,
        parameters: &ChatRoomParametersV1,
        delta: &Vec<AuthorizedMember>,
    ) -> (outcome: Result<(), StateError>)
        ensures
            match outcome {
                Ok(()) => members_valid(old(self)@ + delta@, parameters.owner) && final(self)@ == old(self)@ + delta@,
                Err(e) => members_fail_with(old(self)@ + delta@, parameters.owner, e) && *final(self) == *old(self),
            },
    {
        let mut merged = self.members.clone();
        merged.extend_from_slice(delta.as_slice());
        assert(merged@ =~= self@ + delta@);
        let candidate = MembersV1 { members: merged };
        match candidate.verify(parent_state, parameters) {
            Err(e) => Err(e),
            Ok(()) => {
                *self = candidate;
                Ok(())
            },
        }
    }
}

/// Directories that hold the same records, with distinct identifiers in
/// each, are equally long and hold the same links, with distinct
/// identifiers.
pub proof fn lemma_same_directory(a: Seq<AuthorizedMember>, b: Seq<AuthorizedMember>)
    requires
        ids_of(a, member_id_of()).no_duplicates(),
        ids_of(b, member_id_of()).no_duplicates(),
        same_records(a, b),
    ensures
        a.len() == b.len(),
        same_members(links_of(a), links_of(b)),
        distinct_ids(links_of(a)),
        distinct_ids(links_of(b)),
{
    lemma_same_records_same_len(a, b, member_id_of());
    let la = links_of(a);
    let lb = links_of(b);
    assert forall|i: int, j: int| 0 <= i < la.len() && 0 <= j < la.len() && i != j implies (#[trigger] la[i]).id != (
    #[trigger] la[j]).id by {
        assert(ids_of(a, member_id_of())[i] != ids_of(a, member_id_of())[j]);
    }
    assert forall|i: int, j: int| 0 <= i < lb.len() && 0 <= j < lb.len() && i != j implies (#[trigger] lb[i]).id != (
    #[trigger] lb[j]).id by {
        assert(ids_of(b, member_id_of())[i] != ids_of(b, member_id_of())[j]);
    }
    assert forall|l: MemberLink| la.contains(l) <==> lb.contains(l) by {
        if la.contains(l) {
            let k = choose|k: int| 0 <= k < la.len() && la[k] == l;
            assert(a.contains(a[k]));
            let q = choose|q: int| 0 <= q < b.len() && b[q] == a[k];
            assert(lb[q] == l);
        }
        if lb.contains(l) {
            let k = choose|k: int| 0 <= k < lb.len() && lb[k] == l;
            assert(b.contains(b[k]));
            let q = choose|q: int| 0 <= q < a.len() && a[q] == b[k];
            assert(la[q] == l);
        }
    }
}

/// A record passes the same checks wherever it stands.
proof fn lemma_status_carries_over(
    a: Seq<AuthorizedMember>,
    b: Seq<AuthorizedMember>,
    owner: MemberId,
    i: int,
    j: int,
)
    requires
        ids_of(a, member_id_of()).no_duplicates(),
        ids_of(b, member_id_of()).no_duplicates(),
        same_records(a, b),
        0 <= i < a.len(),
        0 <= j < b.len(),
        a[i] == b[j],
    ensures
        member_status(links_of(a), verdicts_of(a), owner, i) == member_status(links_of(b), verdicts_of(b), owner, j),
{
    lemma_same_directory(a, b);
    let la = links_of(a);
    let lb = links_of(b);
    assert(la[i] == lb[j]);
    assert(!is_repeat(la, i)) by {
        if is_repeat(la, i) {
            let k = choose|k: int| 0 <= k < i && (#[trigger] la[k]).id == la[i].id;
            assert(la[k].id != la[i].id);
        }
    }
    assert(!is_repeat(lb, j)) by {
        if is_repeat(lb, j) {
            let k = choose|k: int| 0 <= k < j && (#[trigger] lb[k]).id == lb[j].id;
            assert(lb[k].id != lb[j].id);
        }
    }
    lemma_same_chain(la, lb, owner, la[i], la.len());
    if let Some(inviter) = a[i].member.invited_by {
        lemma_same_lookup(la, lb, inviter);
        lemma_member_has_position(la, inviter);
        lemma_member_has_position(lb, inviter);
        if let Some(p) = position(la, inviter) {
            let found = position(lb, inviter).unwrap();
            assert(a.contains(a[p]));
            let q = choose|q: int| 0 <= q < b.len() && b[q] == a[p];
            assert(lb[q].id == inviter);
            if q != found {
                assert(lb[q].id != lb[found].id);
            }
            assert(a[p] == b[found]);
        }
    }
    assert(inviter_accepts(a, i) == inviter_accepts(b, j));
}

/// The order of the directory is immaterial.
///
/// Let two directories hold the same records, with distinct identifiers in
/// each. Then the one is valid exactly when the other is.
pub proof fn law_member_order_immaterial(a: Seq<AuthorizedMember>, b: Seq<AuthorizedMember>, owner: MemberId)
    requires
        ids_of(a, member_id_of()).no_duplicates(),
        ids_of(b, member_id_of()).no_duplicates(),
        same_records(a, b),
    ensures
        members_valid(a, owner) <==> members_valid(b, owner),
{
    if members_valid(b, owner) {
        assert forall|i: int| 0 <= i < a.len() implies member_status(links_of(a), verdicts_of(a), owner, i)
            is None by {
            assert(a.contains(a[i]));
            let j = choose|j: int| 0 <= j < b.len() && b[j] == a[i];
            lemma_status_carries_over(a, b, owner, i, j);
        }
    }
    if members_valid(a, owner) {
        assert forall|j: int| 0 <= j < b.len() implies member_status(links_of(b), verdicts_of(b), owner, j)
            is None by {
            assert(b.contains(b[j]));
            let i = choose|i: int| 0 <= i < a.len() && a[i] == b[j];
            lemma_status_carries_over(a, b, owner, i, j);
        }
    }
}

/// Merging a delta brings a directory up to date.
///
/// Let `older` hold some of the members of `newer`, and let identifiers be
/// distinct within each. Then `older` followed by the delta of `newer`
/// against the summary of `older` holds exactly the members of `newer`, each
/// once, and is valid exactly when `newer` is.
pub proof fn law_member_round_trip(newer: Seq<AuthorizedMember>, older: Seq<AuthorizedMember>, owner: MemberId)
    requires
        ids_of(newer, member_id_of()).no_duplicates(),
        ids_of(older, member_id_of()).no_duplicates(),
        forall|i: int| 0 <= i < older.len() ==> newer.contains(#[trigger] older[i]),
    ensures
        ({
            let merged = older + missing(newer, member_id_of(), ids_of(older, member_id_of()));
            &&& merged.len() == newer.len()
            &&& same_records(merged, newer)
            &&& members_valid(merged, owner) <==> members_valid(newer, owner)
        }),
{
    let merged = older + missing(newer, member_id_of(), ids_of(older, member_id_of()));
    law_delta_completes(newer, older, member_id_of());
    law_member_order_immaterial(merged, newer, owner);
}

} // verus!
