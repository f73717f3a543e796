//! The invite graph: who invited whom, and the walk from a member back to
//! the room owner.
//!
//! The rules here read only identifiers. A [`MemberLink`] holds what they
//! need of one member, so that they can be stated and checked without any
//! key or signature in sight.

use vstd::prelude::*;
use vstd::seq_lib::seq_to_set_is_finite;
use vstd::set_lib::lemma_len_subset;
use crate::error::StateError;

verus! {

/// Identifies a member. It is derived from the member's verifying key.
#[derive(Clone, Copy, Debug, PartialEq, Eq, Hash, Structural)]
pub struct MemberId(pub i64);

/// What the invite rules read of one member.
#[derive(Clone, Copy, Debug, PartialEq, Eq)]
pub struct MemberLink {
    /// The member's own identifier.
    pub id: MemberId,
    /// The identifier of the member who invited this one; `None` for a member
    /// that names no inviter, as the owner does.
    pub invited_by: Option<MemberId>,
}

/// `i` is the first place in `links` that holds a member with identifier `id`.
pub open spec fn is_first(links: Seq<MemberLink>, id: MemberId, i: int) -> bool {
    &&& 0 <= i < links.len()
    &&& links[i].id == id
    &&& forall|j: int| 0 <= j < i ==> (#[trigger] links[j]).id != id
}

/// Where the directory holds the member with identifier `id`: the first such
/// place, or `None` if there is none.
pub open spec fn position(links: Seq<MemberLink>, id: MemberId) -> Option<int> {
    if exists|i: int| is_first(links, id, i) {
        Some(choose|i: int| is_first(links, id, i))
    } else {
        None
    }
}

/// Whether the directory holds a member with identifier `id`.
pub open spec fn is_member(links: Seq<MemberLink>, id: MemberId) -> bool {
    exists|i: int| 0 <= i < links.len() && (#[trigger] links[i]).id == id
}

/// The first place is unique, so it is the position.
pub proof fn lemma_first_is_position(links: Seq<MemberLink>, id: MemberId, i: int)
    requires
        is_first(links, id, i),
    ensures
        position(links, id) == Some(i),
{
    let c = choose|c: int| is_first(links, id, c);
    assert(is_first(links, id, c));
    if c < i {
        assert(links[c].id != id);
    }
    if i < c {
        assert(links[i].id != id);
    }
}

/// A member is in the directory exactly when it has a position there.
pub proof fn lemma_member_has_position(links: Seq<MemberLink>, id: MemberId)
    ensures
        is_member(links, id) <==> position(links, id) is Some,
        position(links, id) matches Some(i) ==> is_first(links, id, i),
{
    if is_member(links, id) {
        let k = choose|k: int| 0 <= k < links.len() && (#[trigger] links[k]).id == id;
        lemma_least_place(links, id, k);
    }
    if position(links, id) is Some {
        let c = choose|c: int| is_first(links, id, c);
        assert(is_first(links, id, c));
    }
}

/// If some place up to `k` holds `id`, a first such place exists.
proof fn lemma_least_place(links: Seq<MemberLink>, id: MemberId, k: int)
    requires
        0 <= k < links.len(),
        links[k].id == id,
    ensures
        exists|i: int| is_first(links, id, i),
    decreases k,
{
    if exists|j: int| 0 <= j < k && (#[trigger] links[j]).id == id {
        let j = choose|j: int| 0 <= j < k && (#[trigger] links[j]).id == id;
        lemma_least_place(links, id, j);
    } else {
        assert(is_first(links, id, k));
    }
}

/// Looks up the member with identifier `id`.
pub fn find(links: &Vec<MemberLink>, id: MemberId) -> (found: Option<usize>)
    ensures
        match found {
            Some(i) => position(links@, id) == Some(i as int) && is_first(links@, id, i as int),
            None => position(links@, id) is None && !is_member(links@, id),
        },
{
    let mut i: usize = 0;
    while i < links.len()
        invariant
            i <= links.len(),
            forall|j: int| 0 <= j < i ==> (#[trigger] links@[j]).id != id,
        decreases links.len() - i,
    {
        if links[i].id == id {
            proof {
                lemma_first_is_position(links@, id, i as int);
            }
            return Some(i);
        }
        i += 1;
    }
    proof {
        lemma_member_has_position(links@, id);
    }
    None
}

/// The invite chain of `member`: the identifiers of its inviter, of the
/// inviter's inviter and so on, up to and including the owner.
///
/// The walk follows `invited_by` through the directory for at most `hops`
/// steps. It fails with `MissingInviter` where a member other than the owner
/// names no inviter or one that is not in the directory, and with
/// `UnterminatedChain` where the owner is not reached within `hops` steps.
pub open spec fn invite_chain(
    links: Seq<MemberLink>,
    owner: MemberId,
    member: MemberLink,
    hops: nat,
) -> Result<Seq<MemberId>, StateError>
    decreases hops,
{
    if member.id == owner {
        Ok(Seq::empty())
    } else if hops == 0 {
        Err(StateError::UnterminatedChain)
    } else {
        match member.invited_by {
            None => Err(StateError::MissingInviter),
            Some(inviter) => match position(links, inviter) {
                None => Err(StateError::MissingInviter),
                Some(i) => match invite_chain(links, owner, links[i], (hops - 1) as nat) {
                    Ok(rest) => Ok(seq![inviter] + rest),
                    Err(e) => Err(e),
                },
            },
        }
    }
}

/// Whether `candidate` lies in the invite chain of `member`.
pub open spec fn in_invite_chain(
    links: Seq<MemberLink>,
    owner: MemberId,
    candidate: MemberId,
    member: MemberLink,
) -> bool {
    match invite_chain(links, owner, member, links.len()) {
        Ok(chain) => chain.contains(candidate),
        Err(_) => false,
    }
}

/// `rest` with `prefix` put in front of a chain, an error left as it is.
pub open spec fn extend_chain(prefix: Seq<MemberId>, rest: Result<Seq<MemberId>, StateError>) -> Result<
    Seq<MemberId>,
    StateError,
> {
    match rest {
        Ok(tail) => Ok(prefix + tail),
        Err(e) => Err(e),
    }
}

/// Walks the invite chain of `member` through the directory, with as many
/// hops allowed as the directory has members.
pub fn walk_invite_chain(links: &Vec<MemberLink>, owner: MemberId, member: MemberLink) -> (walk: Result<
    Vec<MemberId>,
    StateError,
>)
    ensures
        match walk {
            Ok(chain) => invite_chain(links@, owner, member, links@.len()) == Ok::<Seq<MemberId>, StateError>(chain@),
            Err(e) => invite_chain(links@, owner, member, links@.len()) == Err::<Seq<MemberId>, StateError>(e),
        },
{
    let mut chain: Vec<MemberId> = Vec::new();
    let mut current = member;
    let mut hops: usize = links.len();
    let ghost whole = invite_chain(links@, owner, member, links@.len());
    assert(extend_chain(chain@, invite_chain(links@, owner, current, hops as nat)) == whole) by {
        let r = invite_chain(links@, owner, current, hops as nat);
        if let Ok(tail) = r {
            assert(chain@ + tail =~= tail);
        }
    }
    loop
        invariant
            whole == invite_chain(links@, owner, member, links@.len()),
            extend_chain(chain@, invite_chain(links@, owner, current, hops as nat)) == whole,
        decreases hops,
    {
        if current.id == owner {
            assert(chain@ + Seq::<MemberId>::empty() =~= chain@);
            return Ok(chain);
        }
        if hops == 0 {
            return Err(StateError::UnterminatedChain);
        }
        let inviter = match current.invited_by {
            None => {
                return Err(StateError::MissingInviter);
            },
            Some(inviter) => inviter,
        };
        let place = match find(links, inviter) {
            None => {
                return Err(StateError::MissingInviter);
            },
            Some(place) => place,
        };
        proof {
            let rest = invite_chain(links@, owner, links@[place as int], (hops - 1) as nat);
            if let Ok(tail) = rest {
                assert(chain@ + (seq![inviter] + tail) =~= chain@.push(inviter) + tail);
            }
        }
        chain.push(inviter);
        current = links[place];
        hops -= 1;
    }
}

/// Whether `candidate` occurs in `chain`.
pub fn chain_contains(chain: &Vec<MemberId>, candidate: MemberId) -> (found: bool)
    ensures
        found == chain@.contains(candidate),
{
    let mut i: usize = 0;
    while i < chain.len()
        invariant
            i <= chain.len(),
            forall|j: int| 0 <= j < i ==> chain@[j] != candidate,
        decreases chain.len() - i,
    {
        if chain[i] == candidate {
            return true;
        }
        i += 1;
    }
    false
}

/// Member `i` has the identifier of a member that stands before it.
pub open spec fn is_repeat(links: Seq<MemberLink>, i: int) -> bool {
    exists|j: int| 0 <= j < i && (#[trigger] links[j]).id == links[i].id
}

/// Whether the list of signature verdicts accepts member `i`. A member the
/// list does not reach is not accepted.
pub open spec fn accepted_at(accepted: Seq<bool>, i: int) -> bool {
    0 <= i < accepted.len() && accepted[i]
}

/// What is wrong with member `i` of the directory, or `None` if nothing is.
///
/// `accepted[i]` says whether the signature of member `i` was accepted under
/// the key of its inviter. The checks, in order: the identifier must not
/// repeat an earlier one; the owner needs nothing more; any other member
/// needs an invite chain that reaches the owner, and an accepted signature.
pub open spec fn member_status(links: Seq<MemberLink>, accepted: Seq<bool>, owner: MemberId, i: int) -> Option<
    StateError,
> {
    if is_repeat(links, i) {
        Some(StateError::DuplicateMember)
    } else if links[i].id == owner {
        None
    } else {
        match invite_chain(links, owner, links[i], links.len()) {
            Err(e) => Some(e),
            Ok(_) => if accepted_at(accepted, i) {
                None
            } else {
                Some(StateError::InvalidSignature)
            },
        }
    }
}

/// Every member of the directory passes its checks.
pub open spec fn directory_valid(links: Seq<MemberLink>, accepted: Seq<bool>, owner: MemberId) -> bool {
    forall|i: int| 0 <= i < links.len() ==> member_status(links, accepted, owner, i) is None
}

/// Member `i` is the first that fails a check, and fails it with `e`.
pub open spec fn first_member_failure(
    links: Seq<MemberLink>,
    accepted: Seq<bool>,
    owner: MemberId,
    i: int,
    e: StateError,
) -> bool {
    &&& 0 <= i < links.len()
    &&& member_status(links, accepted, owner, i) == Some(e)
    &&& forall|j: int| 0 <= j < i ==> member_status(links, accepted, owner, j) is None
}

/// Checks member `i` of the directory.
pub fn check_member(links: &Vec<MemberLink>, accepted: &Vec<bool>, owner: MemberId, i: usize) -> (status: Option<
    StateError,
>)
    requires
        i < links.len(),
    ensures
        status == member_status(links@, accepted@, owner, i as int),
{
    let link = links[i];
    let first = find(links, link.id);
    assert(first is Some) by {
        assert(links@[i as int].id == link.id);
    }
    let first = first.unwrap();
    assert(first <= i) by {
        if first > i {
            assert(links@[i as int].id != link.id);
        }
    }
    if first < i {
        assert(links@[first as int].id == links@[i as int].id);
        return Some(StateError::DuplicateMember);
    }
    if link.id == owner {
        return None;
    }
    match walk_invite_chain(links, owner, link) {
        Err(e) => Some(e),
        Ok(_) => if i < accepted.len() && accepted[i] {
            None
        } else {
            Some(StateError::InvalidSignature)
        },
    }
}

/// Checks the whole directory and reports the first failure.
pub fn check_directory(links: &Vec<MemberLink>, accepted: &Vec<bool>, owner: MemberId) -> (outcome: Result<
    (),
    StateError,
>)
    ensures
        match outcome {
            Ok(()) => directory_valid(links@, accepted@, owner),
            Err(e) => exists|i: int| first_member_failure(links@, accepted@, owner, i, e),
        },
{
    let mut i: usize = 0;
    while i < links.len()
        invariant
            i <= links.len(),
            forall|j: int| 0 <= j < i ==> member_status(links@, accepted@, owner, j) is None,
        decreases links.len() - i,
    {
        match check_member(links, accepted, owner, i) {
            Some(e) => {
                assert(first_member_failure(links@, accepted@, owner, i as int, e));
                return Err(e);
            },
            None => {},
        }
        i += 1;
    }
    Ok(())
}

/// Every identifier in an invite chain belongs to a member of the directory.
pub proof fn lemma_chain_members(links: Seq<MemberLink>, owner: MemberId, member: MemberLink, hops: nat)
    ensures
        invite_chain(links, owner, member, hops) matches Ok(chain) ==> forall|k: int|
            0 <= k < chain.len() ==> position(links, #[trigger] chain[k]) is Some,
    decreases hops,
{
    if member.id != owner && hops > 0 {
        if let Some(inviter) = member.invited_by {
            if let Some(i) = position(links, inviter) {
                lemma_chain_members(links, owner, links[i], (hops - 1) as nat);
            }
        }
    }
}

/// No two members of the directory have the same identifier.
pub open spec fn distinct_ids(links: Seq<MemberLink>) -> bool {
    forall|i: int, j: int|
        0 <= i < links.len() && 0 <= j < links.len() && i != j ==> (#[trigger] links[i]).id != (#[trigger] links[j]).id
}

/// The two directories hold the same members, in whatever order.
pub open spec fn same_members(a: Seq<MemberLink>, b: Seq<MemberLink>) -> bool {
    forall|l: MemberLink| a.contains(l) <==> b.contains(l)
}

/// Directories with the same members find the same member under an
/// identifier.
pub proof fn lemma_same_lookup(a: Seq<MemberLink>, b: Seq<MemberLink>, id: MemberId)
    requires
        same_members(a, b),
        distinct_ids(a),
        distinct_ids(b),
    ensures
        position(a, id) is Some <==> position(b, id) is Some,
        position(a, id) is Some ==> a[position(a, id).unwrap()] == b[position(b, id).unwrap()],
{
    lemma_member_has_position(a, id);
    lemma_member_has_position(b, id);
    if let Some(p) = position(a, id) {
        assert(a.contains(a[p]));
        let q = choose|q: int| 0 <= q < b.len() && b[q] == a[p];
        assert(b[q].id == id);
        let found = position(b, id).unwrap();
        if found != q {
            assert(b[found].id != b[q].id);
        }
    }
    if let Some(p) = position(b, id) {
        assert(b.contains(b[p]));
        let q = choose|q: int| 0 <= q < a.len() && a[q] == b[p];
        assert(a[q].id == id);
    }
}

/// The invite chain of a member does not depend on the order of the
/// directory.
pub proof fn lemma_same_chain(a: Seq<MemberLink>, b: Seq<MemberLink>, owner: MemberId, member: MemberLink, hops: nat)
    requires
        same_members(a, b),
        distinct_ids(a),
        distinct_ids(b),
    ensures
        invite_chain(a, owner, member, hops) == invite_chain(b, owner, member, hops),
    decreases hops,
{
    if member.id != owner && hops > 0 {
        if let Some(inviter) = member.invited_by {
            lemma_same_lookup(a, b, inviter);
            if let Some(i) = position(a, inviter) {
                lemma_same_chain(a, b, owner, a[i], (hops - 1) as nat);
            }
        }
    }
}

/// A chain that reaches the owner is no longer than the hops allowed.
pub proof fn lemma_chain_length(links: Seq<MemberLink>, owner: MemberId, member: MemberLink, hops: nat)
    requires
        invite_chain(links, owner, member, hops) is Ok,
    ensures
        invite_chain(links, owner, member, hops).unwrap().len() <= hops,
    decreases hops,
{
    if member.id != owner {
        let inviter = member.invited_by.unwrap();
        let i = position(links, inviter).unwrap();
        let rest = invite_chain(links, owner, links[i], (hops - 1) as nat).unwrap();
        assert((seq![inviter] + rest).len() == rest.len() + 1);
        lemma_chain_length(links, owner, links[i], (hops - 1) as nat);
    }
}

/// A chain that reaches the owner is found with any number of hops that is
/// at least its length.
pub proof fn lemma_more_hops(links: Seq<MemberLink>, owner: MemberId, member: MemberLink, hops: nat, more: nat)
    requires
        invite_chain(links, owner, member, hops) is Ok,
        more >= invite_chain(links, owner, member, hops).unwrap().len(),
    ensures
        invite_chain(links, owner, member, more) == invite_chain(links, owner, member, hops),
    decreases hops,
{
    if member.id != owner {
        let inviter = member.invited_by.unwrap();
        let i = position(links, inviter).unwrap();
        let rest = invite_chain(links, owner, links[i], (hops - 1) as nat).unwrap();
        assert((seq![inviter] + rest).len() == rest.len() + 1);
        lemma_more_hops(links, owner, links[i], (hops - 1) as nat, (more - 1) as nat);
    }
}

/// The chain of the member at place `k` of a chain is the rest of that
/// chain.
pub proof fn lemma_rest_of_chain(links: Seq<MemberLink>, owner: MemberId, member: MemberLink, hops: nat, k: int)
    requires
        invite_chain(links, owner, member, hops) is Ok,
        0 <= k < invite_chain(links, owner, member, hops).unwrap().len(),
    ensures
        ({
            let chain = invite_chain(links, owner, member, hops).unwrap();
            &&& position(links, chain[k]) is Some
            &&& invite_chain(links, owner, links[position(links, chain[k]).unwrap()], hops) == Ok::<
                Seq<MemberId>,
                StateError,
            >(chain.skip(k + 1))
        }),
    decreases hops,
{
    let chain = invite_chain(links, owner, member, hops).unwrap();
    let inviter = member.invited_by.unwrap();
    let i = position(links, inviter).unwrap();
    let rest = invite_chain(links, owner, links[i], (hops - 1) as nat).unwrap();
    assert(chain =~= seq![inviter] + rest);
    if k == 0 {
        assert(chain.skip(1) =~= rest);
        lemma_chain_length(links, owner, links[i], (hops - 1) as nat);
        lemma_more_hops(links, owner, links[i], (hops - 1) as nat, hops);
    } else {
        lemma_rest_of_chain(links, owner, links[i], (hops - 1) as nat, k - 1);
        assert(chain[k] == rest[k - 1]);
        assert(chain.skip(k + 1) =~= rest.skip(k));
        let next = links[position(links, chain[k]).unwrap()];
        lemma_chain_length(links, owner, next, (hops - 1) as nat);
        lemma_more_hops(links, owner, next, (hops - 1) as nat, hops);
    }
}

/// No member occurs twice in a chain that reaches the owner.
pub proof fn lemma_chain_has_no_cycle(links: Seq<MemberLink>, owner: MemberId, member: MemberLink, hops: nat)
    requires
        invite_chain(links, owner, member, hops) is Ok,
    ensures
        invite_chain(links, owner, member, hops).unwrap().no_duplicates(),
{
    let chain = invite_chain(links, owner, member, hops).unwrap();
    assert forall|i: int, j: int| 0 <= i < chain.len() && 0 <= j < chain.len() && i != j implies chain[i]
        != chain[j] by {
        if chain[i] == chain[j] {
            lemma_rest_of_chain(links, owner, member, hops, i);
            lemma_rest_of_chain(links, owner, member, hops, j);
            assert(chain.skip(i + 1).len() != chain.skip(j + 1).len());
        }
    }
}

/// The hop bound cuts no chain short.
///
/// A chain that reaches the owner, with however many hops, is found with as
/// many hops as the directory has members: a walk that needs more runs in a
/// cycle.
pub proof fn law_hop_bound_suffices(links: Seq<MemberLink>, owner: MemberId, member: MemberLink, hops: nat)
    requires
        invite_chain(links, owner, member, hops) is Ok,
    ensures
        invite_chain(links, owner, member, links.len()) == invite_chain(links, owner, member, hops),
{
    let chain = invite_chain(links, owner, member, hops).unwrap();
    let ids = links.map_values(|l: MemberLink| l.id);
    lemma_chain_has_no_cycle(links, owner, member, hops);
    lemma_chain_members(links, owner, member, hops);
    assert(chain.to_set().subset_of(ids.to_set())) by {
        assert forall|id: MemberId| chain.to_set().contains(id) implies ids.to_set().contains(id) by {
            let k = choose|k: int| 0 <= k < chain.len() && chain[k] == id;
            lemma_member_has_position(links, chain[k]);
            let place = position(links, chain[k]).unwrap();
            assert(ids[place] == id);
        }
    }
    seq_to_set_is_finite(ids);
    lemma_len_subset(chain.to_set(), ids.to_set());
    chain.unique_seq_to_set();
    ids.lemma_cardinality_of_set();
    lemma_more_hops(links, owner, member, hops, links.len());
}

} // verus!
