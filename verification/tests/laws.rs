use room_state::ban::{AuthorizedUserBan, BansV1, UserBan};
use room_state::ban_rules::InvalidBan;
use room_state::configuration::AuthorizedConfigurationV1;
use room_state::contract::ComposableState;
use room_state::crypto::SigningKey;
use room_state::error::{ErrorKind, StateError};
use room_state::invite::MemberId;
use room_state::member::{AuthorizedMember, Member, MembersV1};
use room_state::state::{ChatRoomParametersV1, ChatRoomStateV1};

fn key(seed: u8) -> SigningKey {
    SigningKey::from_bytes([seed; 32])
}

fn id(signing_key: &SigningKey) -> MemberId {
    MemberId::new(&signing_key.verifying_key())
}

fn invited(member: &SigningKey, inviter: &SigningKey) -> AuthorizedMember {
    AuthorizedMember::new(Member::new(member.verifying_key(), Some(id(inviter))), inviter)
}

/// The owner (1) invited Alice (2) and Carol (4); Alice invited Bob (3).
fn room() -> ChatRoomStateV1 {
    ChatRoomStateV1 {
        configuration: AuthorizedConfigurationV1::default(),
        members: MembersV1 {
            members: vec![
                AuthorizedMember::new(Member::new(key(1).verifying_key(), None), &key(1)),
                invited(&key(2), &key(1)),
                invited(&key(3), &key(2)),
                invited(&key(4), &key(1)),
            ],
        },
        bans: Default::default(),
    }
}

fn parameters() -> ChatRoomParametersV1 {
    ChatRoomParametersV1 { owner: id(&key(1)) }
}

fn ban(banner: &SigningKey, target: &SigningKey, banned_at: u64) -> AuthorizedUserBan {
    AuthorizedUserBan::new(
        UserBan { owner_member_id: id(&key(1)), banned_at, banned_user: id(target) },
        id(banner),
        banner,
    )
}

#[test]
fn default_room_keeps_five_bans() {
    let state = ChatRoomStateV1::default();
    assert_eq!(state.configuration.configuration.max_user_bans, 5);
    assert_eq!(state.configuration.configuration.configuration_version, 1);
    assert_eq!(state.configuration.configuration.name, "");
    assert_eq!(state, room_without_members());
    assert_eq!(BansV1::default().0, vec![]);
}

fn room_without_members() -> ChatRoomStateV1 {
    ChatRoomStateV1 {
        configuration: AuthorizedConfigurationV1::default(),
        members: MembersV1::default(),
        bans: BansV1::default(),
    }
}

#[test]
fn entries_hold_what_the_rules_read() {
    let first = ban(&key(2), &key(3), 77);
    let bans = BansV1(vec![first]);
    let entries = bans.entries();
    assert_eq!(entries.len(), 1);
    assert_eq!(entries[0], first.entry());
    assert_eq!(entries[0].id, first.id());
    assert_eq!(entries[0].banned_by, id(&key(2)));
    assert_eq!(entries[0].banned_user, id(&key(3)));
    assert_eq!(entries[0].banned_at, 77);
}

#[test]
fn delta_of_bans_against_own_summary_is_none() {
    let state = room();
    let bans = BansV1(vec![ban(&key(1), &key(2), 1), ban(&key(2), &key(3), 2), ban(&key(1), &key(4), 3)]);
    let summary = bans.summarize(&state, &parameters());
    assert_eq!(bans.delta(&state, &parameters(), &summary), None);
    let none = BansV1::default();
    assert_eq!(none.delta(&state, &parameters(), &none.summarize(&state, &parameters())), None);
}

#[test]
fn delta_keeps_the_order_of_the_collection() {
    let state = room();
    let all = vec![ban(&key(1), &key(2), 3), ban(&key(2), &key(3), 1), ban(&key(1), &key(4), 2)];
    let bans = BansV1(all.clone());
    assert_eq!(bans.delta(&state, &parameters(), &vec![all[1].id()]), Some(vec![all[0], all[2]]));
}

#[test]
fn round_trip_brings_the_bans_up_to_date() {
    let state = room();
    let all = vec![
        ban(&key(1), &key(2), 10),
        ban(&key(2), &key(3), 20),
        ban(&key(1), &key(4), 30),
        ban(&key(1), &key(3), 40),
    ];
    let newer = BansV1(all.clone());
    let mut older = BansV1(vec![all[2], all[0]]);
    let summary = older.summarize(&state, &parameters());
    let delta = newer.delta(&state, &parameters(), &summary).unwrap();
    assert_eq!(delta, vec![all[1], all[3]]);
    assert_eq!(older.apply_delta(&state, &parameters(), &delta), Ok(()));
    assert_eq!(older.0, vec![all[2], all[0], all[1], all[3]]);
    assert_eq!(older.0.len(), newer.0.len());
    for record in &newer.0 {
        assert!(older.0.contains(record));
    }
    assert_eq!(older.verify(&state, &parameters()), newer.verify(&state, &parameters()));
    assert_eq!(newer.delta(&state, &parameters(), &older.summarize(&state, &parameters())), None);
}

#[test]
fn round_trip_keeps_an_invalid_state_invalid() {
    let state = room();
    // Carol is not in the invite chain of Bob.
    let all = vec![ban(&key(1), &key(2), 10), ban(&key(4), &key(3), 20)];
    let newer = BansV1(all.clone());
    let mut older = BansV1(vec![all[0]]);
    let summary = older.summarize(&state, &parameters());
    let delta = newer.delta(&state, &parameters(), &summary).unwrap();
    assert!(newer.verify(&state, &parameters()).is_err());
    assert!(older.apply_delta(&state, &parameters(), &delta).is_err());
    assert_eq!(older.0, vec![all[0]]);
}

#[test]
fn ban_stands_exactly_when_the_banner_is_upstream() {
    let state = room();
    let keys = [key(1), key(2), key(3), key(4)];
    // Who may ban whom: the owner everyone, Alice Bob, nobody else anybody.
    for (b, banner) in keys.iter().enumerate() {
        for (t, target) in keys.iter().enumerate() {
            let outcome = BansV1(vec![ban(banner, target, 1)]).verify(&state, &parameters());
            let upstream = b == 0 || (b == 1 && t == 2);
            assert_eq!(outcome.is_ok(), upstream, "banner {} target {}", b, t);
            if !upstream {
                assert_eq!(outcome, Err(StateError::BannerNotAuthorized));
            }
        }
    }
}

#[test]
fn banner_and_target_must_be_members() {
    let state = room();
    let stranger = key(9);
    let by_stranger = BansV1(vec![ban(&stranger, &key(3), 1)]);
    assert_eq!(by_stranger.verify(&state, &parameters()), Err(StateError::BannerNotFound));
    let of_stranger = BansV1(vec![ban(&key(1), &stranger, 1)]);
    assert_eq!(of_stranger.verify(&state, &parameters()), Err(StateError::TargetNotFound));
    assert_eq!(StateError::BannerNotFound.kind(), ErrorKind::Authorization);
    assert_eq!(StateError::TargetNotFound.kind(), ErrorKind::Authorization);
    // Without members nobody can ban, not even the owner.
    let alone = room_without_members();
    assert_eq!(BansV1(vec![ban(&key(1), &key(2), 1)]).verify(&alone, &parameters()), Err(StateError::BannerNotFound));
}

#[test]
fn six_bans_in_a_room_for_five_evict_the_oldest() {
    let state = room();
    assert_eq!(state.configuration.configuration.max_user_bans, 5);
    let all = vec![
        ban(&key(1), &key(2), 500),
        ban(&key(1), &key(3), 300),
        ban(&key(2), &key(3), 100),
        ban(&key(1), &key(4), 600),
        ban(&key(1), &key(2), 200),
        ban(&key(1), &key(3), 400),
    ];
    let five = BansV1(all[..5].to_vec());
    assert_eq!(five.verify(&state, &parameters()), Ok(()));
    assert_eq!(five.get_invalid_bans(&state, &parameters()), vec![]);

    let six = BansV1(all.clone());
    let outcome = six.verify(&state, &parameters());
    assert_eq!(outcome, Err(StateError::TooManyBans));
    assert_eq!(outcome.unwrap_err().kind(), ErrorKind::Quota);
    assert_eq!(
        six.get_invalid_bans(&state, &parameters()),
        vec![InvalidBan { id: all[2].id(), reason: StateError::TooManyBans }]
    );
}

#[test]
fn eviction_does_not_depend_on_the_order() {
    let state = room();
    let mut all = vec![
        ban(&key(1), &key(2), 500),
        ban(&key(1), &key(3), 300),
        ban(&key(2), &key(3), 100),
        ban(&key(1), &key(4), 600),
        ban(&key(1), &key(2), 200),
        ban(&key(1), &key(3), 400),
    ];
    let oldest = all[2].id();
    for _ in 0..6 {
        all.rotate_left(1);
        assert_eq!(
            BansV1(all.clone()).get_invalid_bans(&state, &parameters()),
            vec![InvalidBan { id: oldest, reason: StateError::TooManyBans }]
        );
    }
}

#[test]
fn larger_room_keeps_more_bans() {
    let mut state = room();
    state.configuration.configuration.max_user_bans = 6;
    let all: Vec<AuthorizedUserBan> = (0..7).map(|i| ban(&key(1), &key(2), 100 + i)).collect();
    assert_eq!(BansV1(all[..6].to_vec()).verify(&state, &parameters()), Ok(()));
    assert_eq!(
        BansV1(all.clone()).get_invalid_bans(&state, &parameters()),
        vec![InvalidBan { id: all[0].id(), reason: StateError::TooManyBans }]
    );
    state.configuration.configuration.max_user_bans = 0;
    assert_eq!(BansV1(vec![all[0]]).verify(&state, &parameters()), Err(StateError::TooManyBans));
    assert_eq!(BansV1::default().verify(&state, &parameters()), Ok(()));
}

#[test]
fn delta_beyond_the_quota_changes_nothing() {
    let state = room();
    let held = vec![ban(&key(1), &key(2), 1), ban(&key(1), &key(3), 2), ban(&key(1), &key(4), 3)];
    let mut bans = BansV1(held.clone());
    let delta = vec![ban(&key(1), &key(2), 4), ban(&key(1), &key(3), 5), ban(&key(1), &key(4), 6)];
    let outcome = bans.apply_delta(&state, &parameters(), &delta);
    assert_eq!(outcome, Err(StateError::TooManyBans));
    assert_eq!(bans.0, held);
    // Two of them fit.
    assert_eq!(bans.apply_delta(&state, &parameters(), &delta[..2].to_vec()), Ok(()));
    assert_eq!(bans.0.len(), 5);
}

#[test]
fn unauthorized_delta_changes_nothing() {
    let state = room();
    let held = vec![ban(&key(1), &key(2), 1)];
    let mut bans = BansV1(held.clone());
    // The first record of the delta is fine, the second is not.
    let delta = vec![ban(&key(2), &key(3), 2), ban(&key(4), &key(3), 3)];
    let outcome = bans.apply_delta(&state, &parameters(), &delta);
    assert_eq!(outcome, Err(StateError::BannerNotAuthorized));
    assert_eq!(outcome.unwrap_err().kind(), ErrorKind::Authorization);
    assert_eq!(bans.0, held);
}

#[test]
fn ban_that_is_already_there_is_rejected() {
    let state = room();
    let first = ban(&key(2), &key(3), 1);
    let second = ban(&key(1), &key(4), 2);
    let mut bans = BansV1(vec![first, second]);
    let outcome = bans.apply_delta(&state, &parameters(), &vec![second]);
    assert_eq!(outcome, Err(StateError::DuplicateBan));
    assert_eq!(outcome.unwrap_err().kind(), ErrorKind::Integrity);
    assert_eq!(bans.0, vec![first, second]);
    // Twice within one delta.
    let third = ban(&key(1), &key(2), 3);
    assert_eq!(bans.apply_delta(&state, &parameters(), &vec![third, third]), Err(StateError::DuplicateBan));
    assert_eq!(bans.0.len(), 2);
    assert_eq!(
        BansV1(vec![first, second, first]).get_invalid_bans(&state, &parameters()),
        vec![InvalidBan { id: first.id(), reason: StateError::DuplicateBan }]
    );
}

#[test]
fn empty_delta_is_accepted_by_a_valid_state() {
    let state = room();
    let held = vec![ban(&key(1), &key(2), 1)];
    let mut bans = BansV1(held.clone());
    assert_eq!(bans.apply_delta(&state, &parameters(), &vec![]), Ok(()));
    assert_eq!(bans.0, held);
}

#[test]
fn owner_invites_a_who_invites_b() {
    let owner = key(21);
    let a = key(22);
    let b = key(23);
    let c = key(24);
    let parameters = ChatRoomParametersV1 { owner: id(&owner) };
    let mut state = room_without_members();
    state.members.members.push(AuthorizedMember::new(Member::new(owner.verifying_key(), None), &owner));
    state.members.members.push(invited(&a, &owner));
    state.members.members.push(invited(&b, &a));
    state.members.members.push(invited(&c, &owner));
    assert_eq!(state.members.members[1].member.invited_by, Some(id(&owner)));
    assert_eq!(state.members.members[1].verify_signature(&owner.verifying_key()), Ok(()));
    assert_eq!(state.members.members[2].verify_signature(&a.verifying_key()), Ok(()));
    assert_eq!(state.members.verify(&state, &parameters), Ok(()));

    let by_a = AuthorizedUserBan::new(
        UserBan { owner_member_id: id(&owner), banned_at: 10, banned_user: id(&b) },
        id(&a),
        &a,
    );
    assert_eq!(BansV1(vec![by_a]).verify(&state, &parameters), Ok(()));

    let by_c = AuthorizedUserBan::new(
        UserBan { owner_member_id: id(&owner), banned_at: 11, banned_user: id(&b) },
        id(&c),
        &c,
    );
    let outcome = BansV1(vec![by_c]).verify(&state, &parameters);
    assert!(outcome.is_err());
    assert_eq!(outcome.unwrap_err().kind(), ErrorKind::Authorization);
    assert_eq!(
        BansV1(vec![by_a, by_c]).get_invalid_bans(&state, &parameters),
        vec![InvalidBan { id: by_c.id(), reason: StateError::BannerNotAuthorized }]
    );
}

#[test]
fn deltas_may_arrive_in_either_order() {
    let state = room();
    let base = vec![ban(&key(1), &key(2), 10)];
    let first = vec![ban(&key(2), &key(3), 20), ban(&key(1), &key(4), 30)];
    let second = vec![ban(&key(1), &key(3), 40)];

    let mut one = BansV1(base.clone());
    assert_eq!(one.apply_delta(&state, &parameters(), &first), Ok(()));
    assert_eq!(one.apply_delta(&state, &parameters(), &second), Ok(()));

    let mut other = BansV1(base.clone());
    assert_eq!(other.apply_delta(&state, &parameters(), &second), Ok(()));
    assert_eq!(other.apply_delta(&state, &parameters(), &first), Ok(()));

    assert_eq!(one.0.len(), other.0.len());
    for record in &one.0 {
        assert!(other.0.contains(record));
    }
    assert_eq!(one.verify(&state, &parameters()), other.verify(&state, &parameters()));
    assert_eq!(one.delta(&state, &parameters(), &other.summarize(&state, &parameters())), None);
    assert_eq!(other.delta(&state, &parameters(), &one.summarize(&state, &parameters())), None);
}

#[test]
fn order_of_the_directory_is_immaterial() {
    let state = room();
    let mut shuffled = room();
    shuffled.members.members.reverse();
    assert_eq!(state.members.verify(&state, &parameters()), Ok(()));
    assert_eq!(shuffled.members.verify(&shuffled, &parameters()), Ok(()));
    let bans = BansV1(vec![ban(&key(2), &key(3), 1), ban(&key(4), &key(3), 2), ban(&key(1), &key(2), 3)]);
    assert_eq!(bans.get_invalid_bans(&state, &parameters()), bans.get_invalid_bans(&shuffled, &parameters()));
    assert_eq!(
        shuffled.members.get_invite_chain(&shuffled.members.members[1], &parameters()),
        Ok(vec![state.members.members[1], state.members.members[0]])
    );
}
