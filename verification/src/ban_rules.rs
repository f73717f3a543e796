//! The rules that decide which bans stand.
//!
//! A ban stands when its banner and its target are members, the banner is
//! the owner or lies in the invite chain of the target, the ban is not among
//! the oldest beyond the configured maximum, and no earlier ban has the same
//! identifier. The rules read only identifiers and times: a [`BanEntry`]
//! holds what they need of one ban.

use vstd::prelude::*;
use crate::error::StateError;
use crate::invite::{
    chain_contains, distinct_ids, find, in_invite_chain, invite_chain, is_member, lemma_member_has_position,
    lemma_same_chain, lemma_same_lookup, position, same_members, walk_invite_chain, MemberId, MemberLink,
};

verus! {

/// Identifies a ban. It is derived from the ban's signature.
#[derive(Clone, Copy, Debug, PartialEq, Eq, Hash, Structural)]
pub struct BanId(pub i64);

/// What the ban rules read of one ban.
#[derive(Clone, Copy, Debug, PartialEq, Eq)]
pub struct BanEntry {
    pub id: BanId,
    /// The member who issued the ban.
    pub banned_by: MemberId,
    /// The member the ban is aimed at.
    pub banned_user: MemberId,
    /// When the ban was issued, in nanoseconds since the Unix epoch.
    pub banned_at: u64,
}

/// A ban that does not stand, and why.
#[derive(Clone, Copy, Debug, PartialEq, Eq)]
pub struct InvalidBan {
    pub id: BanId,
    pub reason: StateError,
}

/// `a` goes before `b` when bans are evicted: it was issued earlier, or at
/// the same time and with the smaller identifier.
pub open spec fn older(a: BanEntry, b: BanEntry) -> bool {
    a.banned_at < b.banned_at || (a.banned_at == b.banned_at && a.id.0 < b.id.0)
}

/// How many of the first `n` entries are older than `e`.
pub open spec fn older_count(entries: Seq<BanEntry>, e: BanEntry, n: int) -> nat
    decreases n,
{
    if n <= 0 {
        0
    } else {
        older_count(entries, e, n - 1) + if older(entries[n - 1], e) {
            1nat
        } else {
            0nat
        }
    }
}

/// Ban `i` is evicted: the collection holds more than `max` bans, and fewer
/// bans are older than this one than there are bans beyond the maximum.
pub open spec fn is_evicted(entries: Seq<BanEntry>, max: nat, i: int) -> bool {
    older_count(entries, entries[i], entries.len() as int) < entries.len() - max
}

/// Ban `i` has the identifier of a ban that stands before it.
pub open spec fn is_repeat_ban(entries: Seq<BanEntry>, i: int) -> bool {
    exists|j: int| 0 <= j < i && (#[trigger] entries[j]).id == entries[i].id
}

/// The banner of `e` may ban its target: both are members, and the banner is
/// the owner or lies in the invite chain of the target.
pub open spec fn is_authorized(links: Seq<MemberLink>, owner: MemberId, e: BanEntry) -> bool {
    &&& is_member(links, e.banned_by)
    &&& is_member(links, e.banned_user)
    &&& (e.banned_by == owner || in_invite_chain(
        links,
        owner,
        e.banned_by,
        links[position(links, e.banned_user).unwrap()],
    ))
}

/// The first of the membership rules that `e` breaks, or `None`.
///
/// In order: the banner must be a member; the target must be a member; and
/// unless the banner is the owner, the invite chain of the target must reach
/// the owner and hold the banner.
pub open spec fn authorization_failure(links: Seq<MemberLink>, owner: MemberId, e: BanEntry) -> Option<
    StateError,
> {
    if position(links, e.banned_by) is None {
        Some(StateError::BannerNotFound)
    } else {
        match position(links, e.banned_user) {
            None => Some(StateError::TargetNotFound),
            Some(target) => if e.banned_by == owner {
                None
            } else {
                match invite_chain(links, owner, links[target], links.len()) {
                    Err(err) => Some(err),
                    Ok(chain) => if chain.contains(e.banned_by) {
                        None
                    } else {
                        Some(StateError::BannerNotAuthorized)
                    },
                }
            },
        }
    }
}

/// Why ban `i` does not stand, or `None` if it stands.
///
/// An evicted ban is reported as such whatever else is wrong with it. Then
/// come the membership rules, and last the repeated identifier.
pub open spec fn ban_status(
    entries: Seq<BanEntry>,
    links: Seq<MemberLink>,
    owner: MemberId,
    max: nat,
    i: int,
) -> Option<StateError> {
    if is_evicted(entries, max, i) {
        Some(StateError::TooManyBans)
    } else {
        match authorization_failure(links, owner, entries[i]) {
            Some(e) => Some(e),
            None => if is_repeat_ban(entries, i) {
                Some(StateError::DuplicateBan)
            } else {
                None
            },
        }
    }
}

/// The bans among the first `n` that do not stand, in the order of the
/// collection, each with its reason.
pub open spec fn invalid_among(
    entries: Seq<BanEntry>,
    links: Seq<MemberLink>,
    owner: MemberId,
    max: nat,
    n: int,
) -> Seq<InvalidBan>
    decreases n,
{
    if n <= 0 {
        Seq::empty()
    } else {
        let before = invalid_among(entries, links, owner, max, n - 1);
        match ban_status(entries, links, owner, max, n - 1) {
            Some(reason) => before.push(InvalidBan { id: entries[n - 1].id, reason }),
            None => before,
        }
    }
}

/// All bans that do not stand.
pub open spec fn invalid_bans(entries: Seq<BanEntry>, links: Seq<MemberLink>, owner: MemberId, max: nat) -> Seq<
    InvalidBan,
> {
    invalid_among(entries, links, owner, max, entries.len() as int)
}

/// Every ban stands.
pub open spec fn bans_valid(entries: Seq<BanEntry>, links: Seq<MemberLink>, owner: MemberId, max: nat) -> bool {
    forall|i: int| 0 <= i < entries.len() ==> ban_status(entries, links, owner, max, i) is None
}

/// Ban `i` is the first that does not stand, and the reason is `e`.
pub open spec fn first_ban_failure(
    entries: Seq<BanEntry>,
    links: Seq<MemberLink>,
    owner: MemberId,
    max: nat,
    i: int,
    e: StateError,
) -> bool {
    &&& 0 <= i < entries.len()
    &&& ban_status(entries, links, owner, max, i) == Some(e)
    &&& forall|j: int| 0 <= j < i ==> ban_status(entries, links, owner, max, j) is None
}

/// Counts the entries that are older than `e`.
pub fn count_older(entries: &Vec<BanEntry>, e: &BanEntry) -> (count: usize)
    ensures
        count == older_count(entries@, *e, entries@.len() as int),
{
    let mut count: usize = 0;
    let mut j: usize = 0;
    while j < entries.len()
        invariant
            j <= entries.len(),
            count <= j,
            count == older_count(entries@, *e, j as int),
        decreases entries.len() - j,
    {
        let other = &entries[j];
        if other.banned_at < e.banned_at || (other.banned_at == e.banned_at && other.id.0 < e.id.0) {
            count += 1;
        }
        j += 1;
    }
    count
}

/// Whether ban `i` is evicted under the maximum `max`.
pub fn evicted(entries: &Vec<BanEntry>, max: usize, i: usize) -> (gone: bool)
    requires
        i < entries.len(),
    ensures
        gone == is_evicted(entries@, max as nat, i as int),
{
    if entries.len() <= max {
        return false;
    }
    count_older(entries, &entries[i]) < entries.len() - max
}

/// Whether an earlier ban has the identifier of ban `i`.
pub fn repeats_earlier(entries: &Vec<BanEntry>, i: usize) -> (repeat: bool)
    requires
        i < entries.len(),
    ensures
        repeat == is_repeat_ban(entries@, i as int),
{
    let mut j: usize = 0;
    while j < i
        invariant
            j <= i,
            i < entries.len(),
            forall|k: int| 0 <= k < j ==> (#[trigger] entries@[k]).id != entries@[i as int].id,
        decreases i - j,
    {
        if entries[j].id == entries[i].id {
            return true;
        }
        j += 1;
    }
    false
}

/// Applies the membership rules to one ban.
pub fn check_authorization(links: &Vec<MemberLink>, owner: MemberId, e: &BanEntry) -> (failure: Option<
    StateError,
>)
    ensures
        failure == authorization_failure(links@, owner, *e),
{
    if find(links, e.banned_by).is_none() {
        return Some(StateError::BannerNotFound);
    }
    let target = match find(links, e.banned_user) {
        None => {
            return Some(StateError::TargetNotFound);
        },
        Some(target) => target,
    };
    if e.banned_by == owner {
        return None;
    }
    match walk_invite_chain(links, owner, links[target]) {
        Err(err) => Some(err),
        Ok(chain) => if chain_contains(&chain, e.banned_by) {
            None
        } else {
            Some(StateError::BannerNotAuthorized)
        },
    }
}

/// Applies all rules to ban `i`.
pub fn check_ban(entries: &Vec<BanEntry>, links: &Vec<MemberLink>, owner: MemberId, max: usize, i: usize) -> (status:
    Option<StateError>)
    requires
        i < entries.len(),
    ensures
        status == ban_status(entries@, links@, owner, max as nat, i as int),
{
    if evicted(entries, max, i) {
        return Some(StateError::TooManyBans);
    }
    match check_authorization(links, owner, &entries[i]) {
        Some(e) => Some(e),
        None => if repeats_earlier(entries, i) {
            Some(StateError::DuplicateBan)
        } else {
            None
        },
    }
}

/// Lists the bans that do not stand, each with its reason.
pub fn classify_bans(entries: &Vec<BanEntry>, links: &Vec<MemberLink>, owner: MemberId, max: usize) -> (invalid:
    Vec<InvalidBan>)
    ensures
        invalid@ == invalid_bans(entries@, links@, owner, max as nat),
{
    let mut invalid: Vec<InvalidBan> = Vec::new();
    let mut i: usize = 0;
    while i < entries.len()
        invariant
            i <= entries.len(),
            invalid@ == invalid_among(entries@, links@, owner, max as nat, i as int),
        decreases entries.len() - i,
    {
        match check_ban(entries, links, owner, max, i) {
            Some(reason) => {
                invalid.push(InvalidBan { id: entries[i].id, reason });
            },
            None => {},
        }
        i += 1;
    }
    invalid
}

/// The list of invalid bans is empty exactly when every ban stands, and
/// otherwise starts with the first ban that does not.
pub proof fn lemma_invalid_among(entries: Seq<BanEntry>, links: Seq<MemberLink>, owner: MemberId, max: nat, n: int)
    requires
        0 <= n <= entries.len(),
    ensures
        invalid_among(entries, links, owner, max, n).len() == 0 <==> forall|i: int|
            0 <= i < n ==> ban_status(entries, links, owner, max, i) is None,
        invalid_among(entries, links, owner, max, n).len() > 0 ==> exists|f: int|
            f < n && first_ban_failure(
                entries,
                links,
                owner,
                max,
                f,
                invalid_among(entries, links, owner, max, n)[0].reason,
            ) && invalid_among(entries, links, owner, max, n)[0].id == entries[f].id,
    decreases n,
{
    if n > 0 {
        lemma_invalid_among(entries, links, owner, max, n - 1);
        let before = invalid_among(entries, links, owner, max, n - 1);
        let all = invalid_among(entries, links, owner, max, n);
        if before.len() > 0 {
            assert(all[0] == before[0]);
        } else {
            match ban_status(entries, links, owner, max, n - 1) {
                Some(reason) => {
                    assert(all[0] == InvalidBan { id: entries[n - 1].id, reason });
                    assert(first_ban_failure(entries, links, owner, max, n - 1, reason));
                },
                None => {},
            }
        }
    }
}

/// Checks all bans and reports the reason of the first that does not stand.
pub fn check_bans(entries: &Vec<BanEntry>, links: &Vec<MemberLink>, owner: MemberId, max: usize) -> (outcome:
    Result<(), StateError>)
    ensures
        match outcome {
            Ok(()) => bans_valid(entries@, links@, owner, max as nat),
            Err(e) => exists|i: int| first_ban_failure(entries@, links@, owner, max as nat, i, e),
        },
{
    let invalid = classify_bans(entries, links, owner, max);
    proof {
        lemma_invalid_among(entries@, links@, owner, max as nat, entries@.len() as int);
    }
    if invalid.len() == 0 {
        Ok(())
    } else {
        Err(invalid[0].reason)
    }
}

/// The identifiers of the entries, in order.
pub open spec fn entry_ids(entries: Seq<BanEntry>) -> Seq<BanId> {
    entries.map_values(|e: BanEntry| e.id)
}

/// A ban breaks none of the membership rules exactly when it is authorized.
pub proof fn lemma_authorization(links: Seq<MemberLink>, owner: MemberId, e: BanEntry)
    ensures
        authorization_failure(links, owner, e) is None <==> is_authorized(links, owner, e),
{
    lemma_member_has_position(links, e.banned_by);
    lemma_member_has_position(links, e.banned_user);
}

/// No entry among the first `n` is older than `e` exactly when their count
/// is zero.
pub proof fn lemma_none_older(entries: Seq<BanEntry>, e: BanEntry, n: int)
    requires
        0 <= n <= entries.len(),
    ensures
        older_count(entries, e, n) == 0 <==> forall|j: int| 0 <= j < n ==> !older(#[trigger] entries[j], e),
    decreases n,
{
    if n > 0 {
        lemma_none_older(entries, e, n - 1);
    }
}

/// Among the first `n` entries there is one that none of them is older than.
pub proof fn lemma_oldest_exists(entries: Seq<BanEntry>, n: int) -> (oldest: int)
    requires
        0 < n <= entries.len(),
    ensures
        0 <= oldest < n,
        forall|j: int| 0 <= j < n ==> !older(#[trigger] entries[j], entries[oldest]),
    decreases n,
{
    if n == 1 {
        0
    } else {
        let before = lemma_oldest_exists(entries, n - 1);
        if older(entries[n - 1], entries[before]) {
            n - 1
        } else {
            before
        }
    }
}

/// No identifier repeats an earlier one exactly when all are distinct.
pub proof fn lemma_no_repeats(entries: Seq<BanEntry>)
    ensures
        entry_ids(entries).no_duplicates() <==> forall|i: int| 0 <= i < entries.len() ==> !is_repeat_ban(entries, i),
{
    let ids = entry_ids(entries);
    if ids.no_duplicates() {
        assert forall|i: int| 0 <= i < entries.len() implies !is_repeat_ban(entries, i) by {
            if is_repeat_ban(entries, i) {
                let j = choose|j: int| 0 <= j < i && (#[trigger] entries[j]).id == entries[i].id;
                assert(ids[j] == ids[i]);
            }
        }
    }
    if forall|i: int| 0 <= i < entries.len() ==> !is_repeat_ban(entries, i) {
        assert forall|i: int, j: int| 0 <= i < ids.len() && 0 <= j < ids.len() && i != j implies ids[i] != ids[j] by {
            if ids[i] == ids[j] {
                if i < j {
                    assert(entries[i].id == entries[j].id);
                    assert(is_repeat_ban(entries, j));
                } else {
                    assert(entries[j].id == entries[i].id);
                    assert(is_repeat_ban(entries, i));
                }
            }
        }
    }
}

/// When every ban stands.
///
/// Every ban stands exactly when there are no more bans than the maximum,
/// no two bans have the same identifier, and for each ban the banner and the
/// target are members and the banner is the owner or lies in the invite chain
/// of the target.
pub proof fn law_bans_valid(entries: Seq<BanEntry>, links: Seq<MemberLink>, owner: MemberId, max: nat)
    ensures
        bans_valid(entries, links, owner, max) <==> {
            &&& entries.len() <= max
            &&& entry_ids(entries).no_duplicates()
            &&& forall|i: int| 0 <= i < entries.len() ==> is_authorized(links, owner, #[trigger] entries[i])
        },
{
    lemma_no_repeats(entries);
    assert forall|i: int| 0 <= i < entries.len() implies (authorization_failure(links, owner, #[trigger] entries[i])
        is None <==> is_authorized(links, owner, entries[i])) by {
        lemma_authorization(links, owner, entries[i]);
    }
    if bans_valid(entries, links, owner, max) {
        if entries.len() > max {
            let oldest = lemma_oldest_exists(entries, entries.len() as int);
            lemma_none_older(entries, entries[oldest], entries.len() as int);
            assert(is_evicted(entries, max, oldest));
            assert(ban_status(entries, links, owner, max, oldest) is Some);
        }
        assert forall|i: int| 0 <= i < entries.len() implies is_authorized(links, owner, #[trigger] entries[i])
            && !is_repeat_ban(entries, i) by {
            assert(ban_status(entries, links, owner, max, i) is None);
        }
    }
}

/// The authorization rule.
///
/// As long as there are no more bans than the maximum and no two have the
/// same identifier, every ban stands exactly when for each of them the
/// banner and the target are members and the banner is the owner or lies in
/// the invite chain of the target.
pub proof fn law_authorization(entries: Seq<BanEntry>, links: Seq<MemberLink>, owner: MemberId, max: nat)
    requires
        entries.len() <= max,
        entry_ids(entries).no_duplicates(),
    ensures
        bans_valid(entries, links, owner, max) <==> forall|i: int|
            0 <= i < entries.len() ==> is_authorized(links, owner, #[trigger] entries[i]),
{
    law_bans_valid(entries, links, owner, max);
}

/// A ban whose identifier is already present does not stand.
pub proof fn law_duplicate_rejected(
    entries: Seq<BanEntry>,
    links: Seq<MemberLink>,
    owner: MemberId,
    max: nat,
    i: int,
    j: int,
)
    requires
        0 <= i < j < entries.len(),
        entries[i].id == entries[j].id,
    ensures
        !bans_valid(entries, links, owner, max),
        ban_status(entries, links, owner, max, j) is Some,
{
    assert(is_repeat_ban(entries, j));
}

/// One ban too many evicts the oldest.
///
/// Let the collection hold one ban more than the maximum, all of them
/// authorized, with distinct identifiers and distinct times. Then exactly
/// one ban does not stand: the one issued first, and it is reported as
/// beyond the maximum.
pub proof fn law_quota_evicts_oldest(
    entries: Seq<BanEntry>,
    links: Seq<MemberLink>,
    owner: MemberId,
    max: nat,
    oldest: int,
)
    requires
        entries.len() == max + 1,
        entry_ids(entries).no_duplicates(),
        forall|i: int| 0 <= i < entries.len() ==> is_authorized(links, owner, #[trigger] entries[i]),
        forall|i: int, j: int|
            0 <= i < entries.len() && 0 <= j < entries.len() && i != j ==> (#[trigger] entries[i]).banned_at != (
            #[trigger] entries[j]).banned_at,
        0 <= oldest < entries.len(),
        forall|j: int| 0 <= j < entries.len() ==> entries[oldest].banned_at <= (#[trigger] entries[j]).banned_at,
    ensures
        invalid_bans(entries, links, owner, max) == seq![
            InvalidBan { id: entries[oldest].id, reason: StateError::TooManyBans },
        ],
{
    lemma_no_repeats(entries);
    assert forall|i: int| 0 <= i < entries.len() implies ban_status(entries, links, owner, max, i) == if i == oldest {
        Some(StateError::TooManyBans)
    } else {
        None::<StateError>
    } by {
        lemma_authorization(links, owner, entries[i]);
        lemma_none_older(entries, entries[i], entries.len() as int);
        if i != oldest {
            assert(older(entries[oldest], entries[i]));
        } else {
            assert forall|j: int| 0 <= j < entries.len() implies !older(#[trigger] entries[j], entries[oldest]) by {
                if j != oldest {
                    assert(entries[j].banned_at != entries[oldest].banned_at);
                }
            }
        }
    }
    lemma_single_failure(entries, links, owner, max, oldest, entries.len() as int);
}

/// If only ban `only` fails, the invalid bans among the first `n` are that
/// one, once `n` is past it.
proof fn lemma_single_failure(
    entries: Seq<BanEntry>,
    links: Seq<MemberLink>,
    owner: MemberId,
    max: nat,
    only: int,
    n: int,
)
    requires
        0 <= n <= entries.len(),
        0 <= only < entries.len(),
        ban_status(entries, links, owner, max, only) is Some,
        forall|i: int| 0 <= i < entries.len() && i != only ==> ban_status(entries, links, owner, max, i) is None,
    ensures
        invalid_among(entries, links, owner, max, n) == if only < n {
            seq![InvalidBan { id: entries[only].id, reason: ban_status(entries, links, owner, max, only).unwrap() }]
        } else {
            Seq::<InvalidBan>::empty()
        },
    decreases n,
{
    if n > 0 {
        lemma_single_failure(entries, links, owner, max, only, n - 1);
        if only == n - 1 {
            let reason = ban_status(entries, links, owner, max, only).unwrap();
            assert(Seq::<InvalidBan>::empty().push(InvalidBan { id: entries[only].id, reason }) =~= seq![
                InvalidBan { id: entries[only].id, reason },
            ]);
        }
    }
}

/// Whether a ban is authorized does not depend on the order of the member
/// directory.
pub proof fn lemma_authorized_in_same_directory(a: Seq<MemberLink>, b: Seq<MemberLink>, owner: MemberId, e: BanEntry)
    requires
        same_members(a, b),
        distinct_ids(a),
        distinct_ids(b),
        a.len() == b.len(),
    ensures
        is_authorized(a, owner, e) <==> is_authorized(b, owner, e),
{
    lemma_member_has_position(a, e.banned_by);
    lemma_member_has_position(b, e.banned_by);
    lemma_member_has_position(a, e.banned_user);
    lemma_member_has_position(b, e.banned_user);
    lemma_same_lookup(a, b, e.banned_by);
    lemma_same_lookup(a, b, e.banned_user);
    if let Some(t) = position(a, e.banned_user) {
        lemma_same_chain(a, b, owner, a[t], a.len());
    }
}

} // verus!
