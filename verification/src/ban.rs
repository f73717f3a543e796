//! Bans: signed records by which one member removes another.

use vstd::prelude::*;
use vstd::bytes::{lemma_auto_spec_u64_to_from_le_bytes, spec_u64_from_le_bytes, spec_u64_to_le_bytes, u64_to_le_bytes};
use crate::ban_rules::{
    bans_valid, check_bans, classify_bans, entry_ids, first_ban_failure, invalid_bans, is_authorized, law_bans_valid,
    law_quota_evicts_oldest, lemma_authorized_in_same_directory, BanEntry, BanId, InvalidBan,
};
use crate::contract::ComposableState;
use crate::crypto::{fast_hash, fast_hash_of, public_key_of, signature_accepted, signature_of, Signature, SigningKey, VerifyingKey};
use crate::error::StateError;
use crate::invite::MemberId;
use crate::member::{
    id_bytes, lemma_id_bytes, lemma_same_directory, links_of, member_id_of, push_id_bytes, AuthorizedMember,
};
use crate::state::{ChatRoomParametersV1, ChatRoomStateV1};
use crate::sync::{
    delta_for, ids_of, law_delta_completes, law_own_summary_lacks_nothing, lemma_missing_of_none, lemma_missing_step,
    lemma_merge_order, lemma_same_records_same_len, missing, same_records,
};

verus! {

/// The statement that a member is banned.
#[derive(Clone, Copy, Debug, PartialEq, Eq, Hash)]
pub struct UserBan {
    /// The owner of the room the ban belongs to.
    pub owner_member_id: MemberId,
    /// When the ban was issued, in nanoseconds since the Unix epoch.
    pub banned_at: u64,
    /// The member who is banned.
    pub banned_user: MemberId,
}

impl UserBan {
    /// The bytes that the banner signs: the owner, the time and the banned
    /// member, eight bytes each.
    pub open spec fn spec_bytes(&self) -> Seq<u8> {
        id_bytes(self.owner_member_id) + spec_u64_to_le_bytes(self.banned_at) + id_bytes(self.banned_user)
    }

    /// The canonical serialization of the ban.
    pub fn to_bytes(&self) -> (bytes: Vec<u8>)
        ensures
            bytes@ == self.spec_bytes(),
    {
        let mut out: Vec<u8> = Vec::new();
        push_id_bytes(&mut out, self.owner_member_id);
        let mut time = u64_to_le_bytes(self.banned_at);
        out.append(&mut time);
        push_id_bytes(&mut out, self.banned_user);
        assert(out@ =~= self.spec_bytes());
        out
    }
}

/// No two bans have the same bytes.
pub proof fn law_ban_bytes_distinct(a: UserBan, b: UserBan)
    requires
        a.spec_bytes() == b.spec_bytes(),
    ensures
        a == b,
{
    lemma_auto_spec_u64_to_from_le_bytes();
    lemma_id_bytes(a.owner_member_id, b.owner_member_id);
    lemma_id_bytes(b.owner_member_id, a.owner_member_id);
    lemma_id_bytes(a.banned_user, b.banned_user);
    lemma_id_bytes(b.banned_user, a.banned_user);
    assert(a.spec_bytes().subrange(0, 8) =~= id_bytes(a.owner_member_id));
    assert(b.spec_bytes().subrange(0, 8) =~= id_bytes(b.owner_member_id));
    assert(a.spec_bytes().subrange(8, 16) =~= spec_u64_to_le_bytes(a.banned_at));
    assert(b.spec_bytes().subrange(8, 16) =~= spec_u64_to_le_bytes(b.banned_at));
    assert(a.spec_bytes().subrange(16, 24) =~= id_bytes(a.banned_user));
    assert(b.spec_bytes().subrange(16, 24) =~= id_bytes(b.banned_user));
    assert(spec_u64_from_le_bytes(spec_u64_to_le_bytes(a.banned_at)) == a.banned_at);
    assert(spec_u64_from_le_bytes(spec_u64_to_le_bytes(b.banned_at)) == b.banned_at);
}

/// A ban together with its banner and the banner's signature.
#[derive(Clone, Copy, Debug, PartialEq, Eq, Hash)]
pub struct AuthorizedUserBan {
    pub ban: UserBan,
    /// The member who issued the ban.
    pub banned_by: MemberId,
    /// The banner's signature over the bytes of the ban.
    pub signature: Signature,
}

impl AuthorizedUserBan {
    /// Whether `banned_by` is the identifier that belongs to the signing key.
    pub open spec fn key_belongs_to(banner_signing_key: &SigningKey, banned_by: MemberId) -> bool {
        banned_by == MemberId(fast_hash_of(public_key_of(banner_signing_key@)))
    }

    /// Signs `ban` with the key of the banner. The key must be the banner's.
    pub fn new(ban: UserBan, banned_by: MemberId, banner_signing_key: &SigningKey) -> (authorized: AuthorizedUserBan)
        requires
            Self::key_belongs_to(banner_signing_key, banned_by),
        ensures
            authorized.ban == ban,
            authorized.banned_by == banned_by,
            authorized.signature@ == signature_of(banner_signing_key@, ban.spec_bytes()),
    {
        let bytes = ban.to_bytes();
        AuthorizedUserBan { ban, banned_by, signature: banner_signing_key.sign(bytes.as_slice()) }
    }

    /// Signs `ban` with the key of the banner, or returns `None` if the key
    /// is not the one that `banned_by` is derived from.
    pub fn try_new(ban: UserBan, banned_by: MemberId, banner_signing_key: &SigningKey) -> (authorized: Option<
        AuthorizedUserBan,
    >)
        ensures
            authorized is Some <==> Self::key_belongs_to(banner_signing_key, banned_by),
            authorized matches Some(a) ==> a.ban == ban && a.banned_by == banned_by && a.signature@ == signature_of(
                banner_signing_key@,
                ban.spec_bytes(),
            ),
    {
        let key = banner_signing_key.verifying_key();
        if MemberId::new(&key) == banned_by {
            Some(AuthorizedUserBan::new(ban, banned_by, banner_signing_key))
        } else {
            None
        }
    }

    /// Whether `banner_verifying_key` accepts the signature of this ban.
    pub open spec fn signed_by(&self, banner_verifying_key: VerifyingKey) -> bool {
        signature_accepted(banner_verifying_key@, self.ban.spec_bytes(), self.signature@)
    }

    /// Checks the signature against the key of the banner.
    pub fn verify_signature(&self, banner_verifying_key: &VerifyingKey) -> (outcome: Result<(), StateError>)
        ensures
            outcome == crate::crypto::signature_outcome(self.signed_by(*banner_verifying_key)),
    {
        let bytes = self.ban.to_bytes();
        banner_verifying_key.verify(bytes.as_slice(), &self.signature)
    }

    pub open spec fn spec_id(&self) -> BanId {
        BanId(fast_hash_of(self.signature@))
    }

    /// The identifier of the ban: the content hash of its signature.
    pub fn id(&self) -> (id: BanId)
        ensures
            id == self.spec_id(),
    {
        BanId(fast_hash(self.signature.bytes.as_slice()))
    }

    /// What the ban rules read of this ban.
    pub open spec fn spec_entry(&self) -> BanEntry {
        BanEntry {
            id: self.spec_id(),
            banned_by: self.banned_by,
            banned_user: self.ban.banned_user,
            banned_at: self.ban.banned_at,
        }
    }

    pub fn entry(&self) -> (entry: BanEntry)
        ensures
            entry == self.spec_entry(),
    {
        BanEntry {
            id: self.id(),
            banned_by: self.banned_by,
            banned_user: self.ban.banned_user,
            banned_at: self.ban.banned_at,
        }
    }
}

/// What the ban rules read of the bans, in the order of the collection.
pub open spec fn entries_of(bans: Seq<AuthorizedUserBan>) -> Seq<BanEntry> {
    bans.map_values(|b: AuthorizedUserBan| b.spec_entry())
}

/// The function that gives a ban its identifier.
pub open spec fn ban_id_of() -> spec_fn(AuthorizedUserBan) -> BanId {
    |b: AuthorizedUserBan| b.spec_id()
}

/// Every ban of `bans` stands in a room with the member directory `members`,
/// the owner `owner` and room for `max` bans.
pub open spec fn bans_stand(bans: Seq<AuthorizedUserBan>, members: Seq<AuthorizedMember>, owner: MemberId, max: nat) -> bool {
    bans_valid(entries_of(bans), links_of(members), owner, max)
}

/// Some ban of `bans` does not stand, and the first that does not fails
/// with `e`.
pub open spec fn bans_fail_with(
    bans: Seq<AuthorizedUserBan>,
    members: Seq<AuthorizedMember>,
    owner: MemberId,
    max: nat,
    e: StateError,
) -> bool {
    exists|i: int| first_ban_failure(entries_of(bans), links_of(members), owner, max, i, e)
}

/// What it takes for every ban to stand: there are no more bans than `max`,
/// no two have the same identifier, and for each the banner and the target
/// are members and the banner is the owner or lies in the invite chain of
/// the target.
pub open spec fn bans_acceptable(
    bans: Seq<AuthorizedUserBan>,
    members: Seq<AuthorizedMember>,
    owner: MemberId,
    max: nat,
) -> bool {
    &&& bans.len() <= max
    &&& ids_of(bans, ban_id_of()).no_duplicates()
    &&& forall|i: int|
        0 <= i < bans.len() ==> is_authorized(links_of(members), owner, (#[trigger] bans[i]).spec_entry())
}

/// Every ban stands exactly when the bans are acceptable.
pub proof fn law_bans_stand(bans: Seq<AuthorizedUserBan>, members: Seq<AuthorizedMember>, owner: MemberId, max: nat)
    ensures
        bans_stand(bans, members, owner, max) <==> bans_acceptable(bans, members, owner, max),
{
    let entries = entries_of(bans);
    law_bans_valid(entries, links_of(members), owner, max);
    assert(entry_ids(entries) =~= ids_of(bans, ban_id_of()));
    if bans_acceptable(bans, members, owner, max) {
        assert forall|i: int| 0 <= i < entries.len() implies is_authorized(
            links_of(members),
            owner,
            #[trigger] entries[i],
        ) by {
            assert(entries[i] == bans[i].spec_entry());
        }
    }
    if bans_stand(bans, members, owner, max) {
        assert forall|i: int| 0 <= i < bans.len() implies is_authorized(
            links_of(members),
            owner,
            (#[trigger] bans[i]).spec_entry(),
        ) by {
            assert(entries[i] == bans[i].spec_entry());
        }
    }
}

/// The order of the bans is immaterial.
///
/// Let two collections hold the same bans, with distinct identifiers in
/// each. Then every ban stands in the one exactly when it does in the
/// other.
pub proof fn law_ban_order_immaterial(
    a: Seq<AuthorizedUserBan>,
    b: Seq<AuthorizedUserBan>,
    members: Seq<AuthorizedMember>,
    owner: MemberId,
    max: nat,
)
    requires
        ids_of(a, ban_id_of()).no_duplicates(),
        ids_of(b, ban_id_of()).no_duplicates(),
        same_records(a, b),
    ensures
        bans_stand(a, members, owner, max) <==> bans_stand(b, members, owner, max),
{
    lemma_same_records_same_len(a, b, ban_id_of());
    law_bans_stand(a, members, owner, max);
    law_bans_stand(b, members, owner, max);
    if bans_acceptable(b, members, owner, max) {
        assert forall|i: int| 0 <= i < a.len() implies is_authorized(
            links_of(members),
            owner,
            (#[trigger] a[i]).spec_entry(),
        ) by {
            assert(a.contains(a[i]));
            let k = choose|k: int| 0 <= k < b.len() && b[k] == a[i];
            assert(is_authorized(links_of(members), owner, b[k].spec_entry()));
        }
    }
    if bans_acceptable(a, members, owner, max) {
        assert forall|i: int| 0 <= i < b.len() implies is_authorized(
            links_of(members),
            owner,
            (#[trigger] b[i]).spec_entry(),
        ) by {
            assert(b.contains(b[i]));
            let k = choose|k: int| 0 <= k < a.len() && a[k] == b[i];
            assert(is_authorized(links_of(members), owner, a[k].spec_entry()));
        }
    }
}

/// One ban too many evicts the oldest.
///
/// Let a room for `max` bans hold one more, all of them authorized, with
/// distinct identifiers and distinct times. Then exactly one ban does not
/// stand: the one issued first, and it is reported as beyond the maximum.
pub proof fn law_one_ban_too_many(
    bans: Seq<AuthorizedUserBan>,
    members: Seq<AuthorizedMember>,
    owner: MemberId,
    max: nat,
    oldest: int,
)
    requires
        bans.len() == max + 1,
        ids_of(bans, ban_id_of()).no_duplicates(),
        forall|i: int|
            0 <= i < bans.len() ==> is_authorized(links_of(members), owner, (#[trigger] bans[i]).spec_entry()),
        forall|i: int, j: int|
            0 <= i < bans.len() && 0 <= j < bans.len() && i != j ==> (#[trigger] bans[i]).ban.banned_at != (
            #[trigger] bans[j]).ban.banned_at,
        0 <= oldest < bans.len(),
        forall|j: int| 0 <= j < bans.len() ==> bans[oldest].ban.banned_at <= (#[trigger] bans[j]).ban.banned_at,
    ensures
        invalid_bans(entries_of(bans), links_of(members), owner, max) == seq![
            InvalidBan { id: bans[oldest].spec_id(), reason: StateError::TooManyBans },
        ],
        !bans_stand(bans, members, owner, max),
{
    let entries = entries_of(bans);
    assert(entry_ids(entries) =~= ids_of(bans, ban_id_of()));
    assert forall|i: int| 0 <= i < entries.len() implies is_authorized(
        links_of(members),
        owner,
        #[trigger] entries[i],
    ) by {
        assert(entries[i] == bans[i].spec_entry());
    }
    assert forall|i: int, j: int| 0 <= i < entries.len() && 0 <= j < entries.len() && i != j implies (
    #[trigger] entries[i]).banned_at != (#[trigger] entries[j]).banned_at by {
        assert(bans[i].ban.banned_at != bans[j].ban.banned_at);
    }
    assert forall|j: int| 0 <= j < entries.len() implies entries[oldest].banned_at <= (
    #[trigger] entries[j]).banned_at by {
        assert(bans[oldest].ban.banned_at <= bans[j].ban.banned_at);
    }
    law_quota_evicts_oldest(entries, links_of(members), owner, max, oldest);
    law_bans_stand(bans, members, owner, max);
}

/// The order of the member directory is immaterial to the bans.
///
/// Let two directories hold the same records, with distinct identifiers in
/// each. Then every ban stands under the one exactly when it does under the
/// other.
pub proof fn law_directory_order_immaterial(
    bans: Seq<AuthorizedUserBan>,
    a: Seq<AuthorizedMember>,
    b: Seq<AuthorizedMember>,
    owner: MemberId,
    max: nat,
)
    requires
        ids_of(a, member_id_of()).no_duplicates(),
        ids_of(b, member_id_of()).no_duplicates(),
        same_records(a, b),
    ensures
        bans_stand(bans, a, owner, max) <==> bans_stand(bans, b, owner, max),
{
    lemma_same_directory(a, b);
    law_bans_stand(bans, a, owner, max);
    law_bans_stand(bans, b, owner, max);
    assert forall|i: int| 0 <= i < bans.len() implies (is_authorized(
        links_of(a),
        owner,
        (#[trigger] bans[i]).spec_entry(),
    ) <==> is_authorized(links_of(b), owner, bans[i].spec_entry())) by {
        lemma_authorized_in_same_directory(links_of(a), links_of(b), owner, bans[i].spec_entry());
    }
}

/// Deltas may arrive in either order.
///
/// Let a replica have accepted `first` and then `second`. Then a replica
/// with the same bans that receives `second` before `first` accepts both as
/// well, and the two end up with the same bans.
pub proof fn law_deltas_commute(
    base: Seq<AuthorizedUserBan>,
    first: Seq<AuthorizedUserBan>,
    second: Seq<AuthorizedUserBan>,
    members: Seq<AuthorizedMember>,
    owner: MemberId,
    max: nat,
)
    requires
        bans_stand(base + first + second, members, owner, max),
    ensures
        bans_stand(base + second, members, owner, max),
        bans_stand(base + second + first, members, owner, max),
        same_records(base + first + second, base + second + first),
{
    let one = base + first + second;
    let other = base + second + first;
    law_bans_stand(one, members, owner, max);
    law_bans_stand(other, members, owner, max);
    law_bans_stand(base + second, members, owner, max);
    lemma_merge_order(base, first, second, ban_id_of());
    law_ban_order_immaterial(one, other, members, owner, max);
    assert forall|i: int| 0 <= i < (base + second).len() implies is_authorized(
        links_of(members),
        owner,
        (#[trigger] (base + second)[i]).spec_entry(),
    ) by {
        assert((base + second)[i] == other[i]);
        assert(is_authorized(links_of(members), owner, other[i].spec_entry()));
    }
}

/// Merging a delta brings a replica up to date.
///
/// Let `older` hold some of the bans of `newer`, and let identifiers be
/// distinct within each. Then `older` followed by the delta of `newer`
/// against the summary of `older` holds exactly the bans of `newer`, each
/// once, and every ban stands in the one exactly when it does in the other.
pub proof fn law_round_trip(
    newer: Seq<AuthorizedUserBan>,
    older: Seq<AuthorizedUserBan>,
    members: Seq<AuthorizedMember>,
    owner: MemberId,
    max: nat,
)
    requires
        ids_of(newer, ban_id_of()).no_duplicates(),
        ids_of(older, ban_id_of()).no_duplicates(),
        forall|i: int| 0 <= i < older.len() ==> newer.contains(#[trigger] older[i]),
    ensures
        ({
            let merged = older + missing(newer, ban_id_of(), ids_of(older, ban_id_of()));
            &&& merged.len() == newer.len()
            &&& same_records(merged, newer)
            &&& bans_stand(merged, members, owner, max) <==> bans_stand(newer, members, owner, max)
        }),
{
    let merged = older + missing(newer, ban_id_of(), ids_of(older, ban_id_of()));
    law_delta_completes(newer, older, ban_id_of());
    law_ban_order_immaterial(merged, newer, members, owner, max);
}

/// How many bans the room `parent_state` keeps.
pub open spec fn ban_limit(parent_state: &ChatRoomStateV1) -> nat {
    parent_state.configuration.configuration.max_user_bans as nat
}

/// Whether `known` holds `id`.
pub fn contains_ban_id(known: &Vec<BanId>, id: BanId) -> (found: bool)
    ensures
        found == known@.contains(id),
{
    let mut i: usize = 0;
    while i < known.len()
        invariant
            i <= known.len(),
            forall|j: int| 0 <= j < i ==> known@[j] != id,
        decreases known.len() - i,
    {
        if known[i] == id {
            return true;
        }
        i += 1;
    }
    false
}

/// The bans of a room.
#[derive(Clone, Debug, PartialEq, Eq)]
pub struct BansV1(pub Vec<AuthorizedUserBan>);

impl View for BansV1 {
    type V = Seq<AuthorizedUserBan>;

    open spec fn view(&self) -> Seq<AuthorizedUserBan> {
        self.0@
    }
}

impl Default for BansV1 {
    /// No bans.
    fn default() -> (bans: BansV1)
        ensures
            bans@ == Seq::<AuthorizedUserBan>::empty(),
    {
        BansV1(Vec::new())
    }
}

impl BansV1 {
    /// Derives the identifier of every ban.
    pub fn entries(&self) -> (entries: Vec<BanEntry>)
        ensures
            entries@ == entries_of(self@),
    {
        let mut entries: Vec<BanEntry> = Vec::new();
        let mut i: usize = 0;
        while i < self.0.len()
            invariant
                i <= self.0.len(),
                entries.len() == i,
                forall|j: int| 0 <= j < i ==> entries@[j] == self@[j].spec_entry(),
            decreases self.0.len() - i,
        {
            entries.push(self.0[i].entry());
            i += 1;
        }
        assert(entries@ =~= entries_of(self@));
        entries
    }

    /// The bans that do not stand in the room `parent_state`, in the order of
    /// the collection, each with its reason.
    pub open spec fn spec_invalid_bans(
        &self,
        parent_state: &ChatRoomStateV1,
        parameters: &ChatRoomParametersV1,
    ) -> Seq<InvalidBan> {
        invalid_bans(entries_of(self@), links_of(parent_state.members@), parameters.owner, ban_limit(parent_state))
    }

    /// Lists the bans that do not stand, each with the reason: see
    /// [`crate::ban_rules::ban_status`].
    pub fn get_invalid_bans(&self, parent_state: &ChatRoomStateV1, parameters: &ChatRoomParametersV1) -> (invalid:
        Vec<InvalidBan>)
        ensures
            invalid@ == self.spec_invalid_bans(parent_state, parameters),
    {
        let entries = self.entries();
        let links = parent_state.members.links();
        classify_bans(&entries, &links, parameters.owner_id(), parent_state.configuration.configuration.max_user_bans)
    }
}

impl ComposableState for BansV1 {
    type ParentState = ChatRoomStateV1;

    type Parameters = ChatRoomParametersV1;

    type Summary = Vec<BanId>;

    type Delta = Vec<AuthorizedUserBan>;

    /// Every ban stands in the room `parent_state`.
    open spec fn holds(&self, parent_state: &ChatRoomStateV1, parameters: &ChatRoomParametersV1) -> bool {
        bans_stand(self@, parent_state.members@, parameters.owner, ban_limit(parent_state))
    }

    /// The summary lists the identifiers of the bans, in order.
    open spec fn summarized_by(&self, summary: &Vec<BanId>) -> bool {
        summary@ == ids_of(self@, ban_id_of())
    }

    /// The bans of the delta follow those that were there.
    open spec fn merges(&self, before: &BansV1, delta: &Vec<AuthorizedUserBan>) -> bool {
        self@ == before@ + delta@
    }

    /// Succeeds when every ban stands, and otherwise reports why the first
    /// invalid ban does not.
    fn verify(&self, parent_state: &ChatRoomStateV1, parameters: &ChatRoomParametersV1) -> (outcome: Result<
        (),
        StateError,
    >)
        ensures
            match outcome {
                Ok(()) => bans_stand(self@, parent_state.members@, parameters.owner, ban_limit(parent_state)),
                Err(e) => bans_fail_with(self@, parent_state.members@, parameters.owner, ban_limit(parent_state), e),
            },
            outcome is Ok <==> bans_acceptable(
                self@,
                parent_state.members@,
                parameters.owner,
                ban_limit(parent_state),
            ),
    {
        proof {
            law_bans_stand(self@, parent_state.members@, parameters.owner, ban_limit(parent_state));
        }
        let entries = self.entries();
        let links = parent_state.members.links();
        check_bans(&entries, &links, parameters.owner_id(), parent_state.configuration.configuration.max_user_bans)
    }

    /// The identifiers of the bans, in the order of the collection.
    fn summarize(&self, parent_state: &ChatRoomStateV1, parameters: &ChatRoomParametersV1) -> (summary: Vec<
        BanId,
    >)
        ensures
            summary@ == ids_of(self@, ban_id_of()),
    {
        let mut summary: Vec<BanId> = Vec::new();
        let mut i: usize = 0;
        while i < self.0.len()
            invariant
                i <= self.0.len(),
                summary.len() == i,
                forall|j: int| 0 <= j < i ==> summary@[j] == self@[j].spec_id(),
            decreases self.0.len() - i,
        {
            summary.push(self.0[i].id());
            i += 1;
        }
        assert(summary@ =~= ids_of(self@, ban_id_of()));
        summary
    }

    /// The bans that a replica with the summary `old_state_summary` lacks,
    /// or `None` if it lacks none.
    fn delta(
        &self,
        parent_state: &ChatRoomStateV1,
        parameters: &ChatRoomParametersV1,
        old_state_summary: &Vec<BanId>,
    ) -> (delta: Option<Vec<AuthorizedUserBan>>)
        ensures
            match delta {
                Some(records) => delta_for(self@, ban_id_of(), old_state_summary@) == Some(records@),
                None => delta_for(self@, ban_id_of(), old_state_summary@) is None,
            },
            old_state_summary@ == ids_of(self@, ban_id_of()) ==> delta is None,
    {
        proof {
            law_own_summary_lacks_nothing(self@, ban_id_of());
        }
        let mut lacking: Vec<AuthorizedUserBan> = Vec::new();
        let mut i: usize = 0;
        proof {
            lemma_missing_of_none(self@, ban_id_of(), old_state_summary@);
        }
        while i < self.0.len()
            invariant
                i <= self.0.len(),
                lacking@ == missing(self@.take(i as int), ban_id_of(), old_state_summary@),
            decreases self.0.len() - i,
        {
            proof {
                lemma_missing_step(self@, ban_id_of(), old_state_summary@, i as int);
            }
            if !contains_ban_id(old_state_summary, self.0[i].id()) {
                lacking.push(self.0[i]);
            }
            i += 1;
        }
        assert(self@.take(i as int) =~= self@);
        if lacking.len() == 0 {
            None
        } else {
            Some(lacking)
        }
    }

    /// Adds the bans of `delta` if every ban stands with them; otherwise
    /// changes nothing.
    fn apply_delta(
        &mut self,
        parent_state: &ChatRoomStateV1,
        parameters: &ChatRoomParametersV1,
        delta: &Vec<AuthorizedUserBan>,
    ) -> (outcome: Result<(), StateError>)
        ensures
            match outcome {
                Ok(()) => final(self)@ == old(self)@ + delta@ && bans_stand(
                    old(self)@ + delta@,
                    parent_state.members@,
                    parameters.owner,
                    ban_limit(parent_state),
                ),
                Err(e) => *final(self) == *old(self) && bans_fail_with(
                    old(self)@ + delta@,
                    parent_state.members@,
                    parameters.owner,
                    ban_limit(parent_state),
                    e,
                ),
            },
            outcome is Ok <==> bans_acceptable(
                old(self)@ + delta@,
                parent_state.members@,
                parameters.owner,
                ban_limit(parent_state),
            ),
            old(self)@.len() + delta@.len() > ban_limit(parent_state) ==> outcome is Err,
            (exists|i: int, j: int|
                0 <= i < old(self)@.len() && 0 <= j < delta@.len() && (#[trigger] old(self)@[i]).spec_id() == (
                #[trigger] delta@[j]).spec_id()) ==> outcome is Err,
            (exists|j: int|
                0 <= j < delta@.len() && !is_authorized(
                    links_of(parent_state.members@),
                    parameters.owner,
                    (#[trigger] delta@[j]).spec_entry(),
                )) ==> outcome is Err,
    {
        let mut merged = self.0.clone();
        merged.extend_from_slice(delta.as_slice());
        assert(merged@ =~= self@ + delta@);
        proof {
            let all = self@ + delta@;
            let ids = ids_of(all, ban_id_of());
            if exists|i: int, j: int|
                0 <= i < self@.len() && 0 <= j < delta@.len() && (#[trigger] self@[i]).spec_id() == (
                #[trigger] delta@[j]).spec_id() {
                let (i, j) = choose|i: int, j: int|
                    0 <= i < self@.len() && 0 <= j < delta@.len() && (#[trigger] self@[i]).spec_id() == (
                    #[trigger] delta@[j]).spec_id();
                assert(ids[i] == all[i].spec_id());
                assert(ids[self@.len() + j] == all[self@.len() + j].spec_id());
                assert(ids[i] == ids[self@.len() + j]);
            }
            if exists|j: int|
                0 <= j < delta@.len() && !is_authorized(
                    links_of(parent_state.members@),
                    parameters.owner,
                    (#[trigger] delta@[j]).spec_entry(),
                ) {
                let j = choose|j: int|
                    0 <= j < delta@.len() && !is_authorized(
                        links_of(parent_state.members@),
                        parameters.owner,
                        (#[trigger] delta@[j]).spec_entry(),
                    );
                assert(all[self@.len() + j] == delta@[j]);
            }
        }
        let candidate = BansV1(merged);
        match candidate.verify(parent_state, parameters) {
            Err(e) => Err(e),
            Ok(()) => {
                *self = candidate;
                Ok(())
            },
        }
    }
}

} // verus!
