use rand::RngCore;
use room_state::ban::{AuthorizedUserBan, BansV1, UserBan};
use room_state::configuration::AuthorizedConfigurationV1;
use room_state::contract::ComposableState;
use room_state::crypto::SigningKey;
use room_state::invite::MemberId;
use room_state::member::{AuthorizedMember, Member, MembersV1};
use room_state::state::{ChatRoomParametersV1, ChatRoomStateV1};
use std::time::{Duration, SystemTime, UNIX_EPOCH};

fn generate_key() -> SigningKey {
    let mut bytes = [0u8; 32];
    rand::thread_rng().fill_bytes(&mut bytes);
    SigningKey::from_bytes(bytes)
}

fn nanos(time: SystemTime) -> u64 {
    u64::try_from(time.duration_since(UNIX_EPOCH).unwrap().as_nanos()).unwrap()
}

fn create_test_chat_room_state() -> ChatRoomStateV1 {
    ChatRoomStateV1 {
        configuration: AuthorizedConfigurationV1::default(),
        members: MembersV1::default(),
        bans: Default::default(),
    }
}

fn create_test_parameters(owner: MemberId) -> ChatRoomParametersV1 {
    ChatRoomParametersV1 { owner }
}

#[test]
fn test_bans_verify() {
    let mut state = create_test_chat_room_state();

    // Create some test members
    let owner_key = generate_key();
    let owner_id = MemberId::new(&owner_key.verifying_key());
    let member1_key = generate_key();
    let member1_id = MemberId::new(&member1_key.verifying_key());
    let member2_key = generate_key();
    let member2_id = MemberId::new(&member2_key.verifying_key());
    let params = create_test_parameters(owner_id);

    // Add members to the state
    state.members.members.push(AuthorizedMember::new(Member::new(owner_key.verifying_key(), None), &owner_key));
    state.members.members.push(AuthorizedMember::new(
        Member::new(member1_key.verifying_key(), Some(owner_id)),
        &owner_key,
    ));
    state.members.members.push(AuthorizedMember::new(
        Member::new(member2_key.verifying_key(), Some(owner_id)),
        &owner_key,
    ));

    // Test 1: Valid ban by owner
    let ban1 = AuthorizedUserBan::new(
        UserBan { owner_member_id: owner_id, banned_at: nanos(SystemTime::now()), banned_user: member1_id },
        owner_id,
        &owner_key,
    );

    let bans = BansV1(vec![ban1]);
    assert!(bans.verify(&state, &params).is_ok());

    // Test 2: Invalid ban (banning member not in member list)
    let invalid_key = generate_key();
    let invalid_id = MemberId::new(&invalid_key.verifying_key());
    let invalid_ban = AuthorizedUserBan::new(
        UserBan { owner_member_id: owner_id, banned_at: nanos(SystemTime::now()), banned_user: member2_id },
        invalid_id,
        &invalid_key,
    );

    let invalid_bans = BansV1(vec![invalid_ban]);
    assert!(invalid_bans.verify(&state, &params).is_err());

    // Test 3: Exceeding max_user_bans
    let mut many_bans = Vec::new();
    for _ in 0..6 {
        many_bans.push(AuthorizedUserBan::new(
            UserBan { owner_member_id: owner_id, banned_at: nanos(SystemTime::now()), banned_user: member1_id },
            owner_id,
            &owner_key,
        ));
    }
    let too_many_bans = BansV1(many_bans);
    assert!(too_many_bans.verify(&state, &params).is_err());
}

#[test]
fn test_bans_summarize() {
    let state = create_test_chat_room_state();

    let key = generate_key();
    let id = MemberId::new(&key.verifying_key());
    let params = create_test_parameters(MemberId::new(&generate_key().verifying_key()));

    let ban1 = AuthorizedUserBan::new(
        UserBan { owner_member_id: id, banned_at: nanos(SystemTime::now()), banned_user: id },
        id,
        &key,
    );

    let ban2 = AuthorizedUserBan::new(
        UserBan {
            owner_member_id: id,
            banned_at: nanos(SystemTime::now() + Duration::from_secs(1)),
            banned_user: id,
        },
        id,
        &key,
    );

    let bans = BansV1(vec![ban1.clone(), ban2.clone()]);
    let summary = bans.summarize(&state, &params);

    assert_eq!(summary.len(), 2);
    assert!(summary.contains(&ban1.id()));
    assert!(summary.contains(&ban2.id()));
}

#[test]
fn test_bans_delta() {
    let state = create_test_chat_room_state();

    let key = generate_key();
    let id = MemberId::new(&key.verifying_key());
    let params = create_test_parameters(MemberId::new(&generate_key().verifying_key()));

    let ban1 = AuthorizedUserBan::new(
        UserBan { owner_member_id: id, banned_at: nanos(SystemTime::now()), banned_user: id },
        id,
        &key,
    );

    let ban2 = AuthorizedUserBan::new(
        UserBan {
            owner_member_id: id,
            banned_at: nanos(SystemTime::now() + Duration::from_secs(1)),
            banned_user: id,
        },
        id,
        &key,
    );

    let bans = BansV1(vec![ban1.clone(), ban2.clone()]);

    // Test 1: Empty old summary
    let empty_summary = Vec::new();
    let delta = bans.delta(&state, &params, &empty_summary);
    assert_eq!(delta, Some(vec![ban1.clone(), ban2.clone()]));

    // Test 2: Partial old summary
    let partial_summary = vec![ban1.id()];
    let delta = bans.delta(&state, &params, &partial_summary);
    assert_eq!(delta, Some(vec![ban2.clone()]));

    // Test 3: Full old summary
    let full_summary = vec![ban1.id(), ban2.id()];
    let delta = bans.delta(&state, &params, &full_summary);
    assert_eq!(delta, None);
}

#[test]
fn test_bans_apply_delta() {
    let mut state = create_test_chat_room_state();

    let owner_key = generate_key();
    let owner_id = MemberId::new(&owner_key.verifying_key());
    let member_key = generate_key();
    let member_id = MemberId::new(&member_key.verifying_key());
    let params = create_test_parameters(owner_id);

    // Add members to the state
    state.members.members.push(AuthorizedMember::new(Member::new(owner_key.verifying_key(), None), &owner_key));
    state.members.members.push(AuthorizedMember::new(
        Member::new(member_key.verifying_key(), Some(owner_id)),
        &owner_key,
    ));

    let mut bans = BansV1::default();

    let new_ban = AuthorizedUserBan::new(
        UserBan { owner_member_id: owner_id, banned_at: nanos(SystemTime::now()), banned_user: member_id },
        owner_id,
        &owner_key,
    );

    // Test 1: Apply valid delta
    let delta = vec![new_ban.clone()];
    assert!(bans.apply_delta(&state, &params, &delta).is_ok());
    assert_eq!(bans.0.len(), 1);
    assert_eq!(bans.0[0], new_ban);

    // Test 2: Apply invalid delta (duplicate ban)
    let invalid_delta = vec![new_ban.clone()];
    assert!(bans.apply_delta(&state, &params, &invalid_delta).is_err());
    assert_eq!(bans.0.len(), 1); // State should not change

    // Test 3: Apply delta exceeding max_user_bans
    let mut many_bans = Vec::new();
    for _ in 0..5 {
        many_bans.push(AuthorizedUserBan::new(
            UserBan { owner_member_id: owner_id, banned_at: nanos(SystemTime::now()), banned_user: member_id },
            owner_id,
            &owner_key,
        ));
    }
    assert!(bans.apply_delta(&state, &params, &many_bans).is_err());
    assert_eq!(bans.0.len(), 1); // State should not change
}

#[test]
fn test_authorized_user_ban() {
    let owner_key = generate_key();
    let owner_id = MemberId::new(&owner_key.verifying_key());
    let member_key = generate_key();
    let member_id = MemberId::new(&member_key.verifying_key());

    let ban = UserBan { owner_member_id: owner_id, banned_at: nanos(SystemTime::now()), banned_user: member_id };

    let authorized_ban = AuthorizedUserBan::new(ban.clone(), owner_id, &owner_key);

    // Test 1: Verify signature
    assert!(authorized_ban.verify_signature(&owner_key.verifying_key()).is_ok());

    // Test 2: Verify signature with wrong key
    let wrong_key = generate_key();
    assert!(authorized_ban.verify_signature(&wrong_key.verifying_key()).is_err());

    // Test 3: Check ban ID
    let id1 = authorized_ban.id();
    let id2 = authorized_ban.id();
    assert_eq!(id1, id2);

    // Test 4: Different bans should have different IDs
    let another_ban = AuthorizedUserBan::new(
        UserBan {
            owner_member_id: owner_id,
            banned_at: nanos(SystemTime::now() + Duration::from_secs(1)),
            banned_user: member_id,
        },
        owner_id,
        &owner_key,
    );
    assert_ne!(authorized_ban.id(), another_ban.id());
}
