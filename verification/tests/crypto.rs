use room_state::ban::{AuthorizedUserBan, UserBan};
use room_state::crypto::{fast_hash, Signature, SigningKey, VerifyingKey};
use room_state::error::{ErrorKind, StateError};
use room_state::invite::MemberId;
use room_state::member::{AuthorizedMember, Member};

// The first test vector of RFC 8032, section 7.1: the empty message.
const SECRET: [u8; 32] = [
    0x9d, 0x61, 0xb1, 0x9d, 0xef, 0xfd, 0x5a, 0x60, 0xba, 0x84, 0x4a, 0xf4, 0x92, 0xec, 0x2c, 0xc4, 0x44, 0x49,
    0xc5, 0x69, 0x7b, 0x32, 0x69, 0x19, 0x70, 0x3b, 0xac, 0x03, 0x1c, 0xae, 0x7f, 0x60,
];

const PUBLIC: [u8; 32] = [
    0xd7, 0x5a, 0x98, 0x01, 0x82, 0xb1, 0x0a, 0xb7, 0xd5, 0x4b, 0xfe, 0xd3, 0xc9, 0x64, 0x07, 0x3a, 0x0e, 0xe1,
    0x72, 0xf3, 0xda, 0xa6, 0x23, 0x25, 0xaf, 0x02, 0x1a, 0x68, 0xf7, 0x07, 0x51, 0x1a,
];

const SIGNATURE: [u8; 64] = [
    0xe5, 0x56, 0x43, 0x00, 0xc3, 0x60, 0xac, 0x72, 0x90, 0x86, 0xe2, 0xcc, 0x80, 0x6e, 0x82, 0x8a, 0x84, 0x87,
    0x7f, 0x1e, 0xb8, 0xe5, 0xd9, 0x74, 0xd8, 0x73, 0xe0, 0x65, 0x22, 0x49, 0x01, 0x55, 0x5f, 0xb8, 0x82, 0x15,
    0x90, 0xa3, 0x3b, 0xac, 0xc6, 0x1e, 0x39, 0x70, 0x1c, 0xf9, 0xb4, 0x6b, 0xd2, 0x5b, 0xf5, 0xf0, 0x59, 0x5b,
    0xbe, 0x24, 0x65, 0x51, 0x41, 0x43, 0x8e, 0x7a, 0x10, 0x0b,
];

#[test]
fn fast_hash_of_nothing_is_zero() {
    assert_eq!(fast_hash(&[]), 0);
}

#[test]
fn fast_hash_is_the_polynomial_in_31() {
    // ((97 * 31) + 98) * 31 + 99
    assert_eq!(fast_hash(b"abc"), 96354);
    assert_eq!(fast_hash(&[1]), 1);
    assert_eq!(fast_hash(&[1, 0]), 31);
}

#[test]
fn fast_hash_wraps_around() {
    let bytes = [0xffu8; 32];
    let mut expected: i64 = 0;
    for byte in bytes {
        expected = expected.wrapping_mul(31).wrapping_add(i64::from(byte));
    }
    assert_eq!(fast_hash(&bytes), expected);
    assert_ne!(fast_hash(&bytes), fast_hash(&[0xffu8; 31]));
}

#[test]
fn verifying_key_follows_the_standard() {
    let key = SigningKey::from_bytes(SECRET);
    assert_eq!(key.verifying_key().to_bytes(), PUBLIC);
    assert_eq!(key.verifying_key(), VerifyingKey::from_bytes(PUBLIC));
}

#[test]
fn signature_follows_the_standard() {
    let key = SigningKey::from_bytes(SECRET);
    assert_eq!(key.sign(&[]).to_bytes(), SIGNATURE);
    assert_eq!(key.sign(&[]), Signature::from_bytes(SIGNATURE));
}

#[test]
fn signing_is_deterministic() {
    let key = SigningKey::from_bytes([7u8; 32]);
    assert_eq!(key.sign(b"a message"), key.sign(b"a message"));
    assert_ne!(key.sign(b"a message"), key.sign(b"another message"));
}

#[test]
fn verification_accepts_what_was_signed() {
    let public = VerifyingKey::from_bytes(PUBLIC);
    assert_eq!(public.verify(&[], &Signature::from_bytes(SIGNATURE)), Ok(()));
}

#[test]
fn verification_rejects_another_message() {
    let public = VerifyingKey::from_bytes(PUBLIC);
    assert_eq!(public.verify(&[0], &Signature::from_bytes(SIGNATURE)), Err(StateError::InvalidSignature));
}

#[test]
fn verification_rejects_a_changed_signature() {
    let public = VerifyingKey::from_bytes(PUBLIC);
    let mut changed = SIGNATURE;
    changed[0] ^= 1;
    assert_eq!(public.verify(&[], &Signature::from_bytes(changed)), Err(StateError::InvalidSignature));
}

#[test]
fn verification_rejects_another_key() {
    let other = SigningKey::from_bytes([3u8; 32]).verifying_key();
    assert_eq!(other.verify(&[], &Signature::from_bytes(SIGNATURE)), Err(StateError::InvalidSignature));
}

#[test]
fn verification_rejects_bytes_that_are_no_key() {
    // y = 2 is not the y-coordinate of a point of the curve.
    let mut bytes = [0u8; 32];
    bytes[0] = 2;
    let no_key = VerifyingKey::from_bytes(bytes);
    let signature = SigningKey::from_bytes(SECRET).sign(b"text");
    assert_eq!(no_key.verify(b"text", &signature), Err(StateError::InvalidSignature));
}

#[test]
fn encoded_key_has_prefix_and_base58() {
    let zero = VerifyingKey::from_bytes([0u8; 32]);
    assert_eq!(zero.to_encoded_string(), format!("river:user:vk:{}", "1".repeat(32)));
    let mut bytes = [0u8; 32];
    bytes[31] = 58;
    // 31 leading zero bytes, then 58 = "21" in base 58.
    assert_eq!(VerifyingKey::from_bytes(bytes).to_encoded_string(), format!("river:user:vk:{}21", "1".repeat(31)));
}

#[test]
fn member_id_is_the_hash_of_the_key() {
    let key = VerifyingKey::from_bytes(PUBLIC);
    assert_eq!(MemberId::new(&key), MemberId(fast_hash(&PUBLIC)));
    assert_eq!(Member::new(key, None).id(), MemberId(fast_hash(&PUBLIC)));
}

#[test]
fn ban_id_is_the_hash_of_the_signature() {
    let key = SigningKey::from_bytes(SECRET);
    let owner = MemberId::new(&key.verifying_key());
    let ban = UserBan { owner_member_id: owner, banned_at: 17, banned_user: MemberId(5) };
    let authorized = AuthorizedUserBan::new(ban, owner, &key);
    assert_eq!(authorized.id().0, fast_hash(&authorized.signature.to_bytes()));
    assert_eq!(authorized.signature, key.sign(&ban.to_bytes()));
}

#[test]
fn ban_bytes_are_three_little_endian_words() {
    let ban = UserBan { owner_member_id: MemberId(1), banned_at: 0x0102, banned_user: MemberId(-1) };
    let mut expected = vec![1u8, 0, 0, 0, 0, 0, 0, 0];
    expected.extend_from_slice(&[2, 1, 0, 0, 0, 0, 0, 0]);
    expected.extend_from_slice(&[0xff; 8]);
    assert_eq!(ban.to_bytes(), expected);
}

#[test]
fn member_bytes_are_tag_inviter_and_key() {
    let key = VerifyingKey::from_bytes(PUBLIC);
    let invited = Member::new(key, Some(MemberId(0x0a0b)));
    let mut expected = vec![1u8, 0x0b, 0x0a, 0, 0, 0, 0, 0, 0];
    expected.extend_from_slice(&PUBLIC);
    assert_eq!(invited.to_bytes(), expected);

    let founder = Member::new(key, None);
    let mut expected = vec![0u8; 9];
    expected.extend_from_slice(&PUBLIC);
    assert_eq!(founder.to_bytes(), expected);
    assert_eq!(founder.to_bytes().len(), 41);
}

#[test]
fn inviter_without_and_with_identifier_zero_differ() {
    let key = VerifyingKey::from_bytes(PUBLIC);
    assert_ne!(Member::new(key, None).to_bytes(), Member::new(key, Some(MemberId(0))).to_bytes());
}

#[test]
fn try_new_wants_the_key_of_the_banner() {
    let key = SigningKey::from_bytes(SECRET);
    let banner = MemberId::new(&key.verifying_key());
    let ban = UserBan { owner_member_id: banner, banned_at: 1, banned_user: MemberId(2) };
    let made = AuthorizedUserBan::try_new(ban, banner, &key);
    assert_eq!(made, Some(AuthorizedUserBan::new(ban, banner, &key)));
    assert_eq!(AuthorizedUserBan::try_new(ban, MemberId(banner.0.wrapping_add(1)), &key), None);
}

#[test]
fn member_signature_is_checked_against_the_inviter() {
    let inviter = SigningKey::from_bytes([1u8; 32]);
    let stranger = SigningKey::from_bytes([2u8; 32]);
    let member = Member::new(
        SigningKey::from_bytes([3u8; 32]).verifying_key(),
        Some(MemberId::new(&inviter.verifying_key())),
    );
    let authorized = AuthorizedMember::new(member, &inviter);
    assert_eq!(authorized.verify_signature(&inviter.verifying_key()), Ok(()));
    assert_eq!(authorized.verify_signature(&stranger.verifying_key()), Err(StateError::InvalidSignature));
    assert_eq!(authorized.id(), member.id());
}

#[test]
fn every_error_has_its_kind() {
    assert_eq!(StateError::InvalidSignature.kind(), ErrorKind::Authorization);
    assert_eq!(StateError::BannerNotFound.kind(), ErrorKind::Authorization);
    assert_eq!(StateError::TargetNotFound.kind(), ErrorKind::Authorization);
    assert_eq!(StateError::BannerNotAuthorized.kind(), ErrorKind::Authorization);
    assert_eq!(StateError::OwnerNotFound.kind(), ErrorKind::Authorization);
    assert_eq!(StateError::TooManyBans.kind(), ErrorKind::Quota);
    assert_eq!(StateError::DuplicateBan.kind(), ErrorKind::Integrity);
    assert_eq!(StateError::DuplicateMember.kind(), ErrorKind::Integrity);
    assert_eq!(StateError::MissingInviter.kind(), ErrorKind::Integrity);
    assert_eq!(StateError::UnterminatedChain.kind(), ErrorKind::Integrity);
    assert_eq!(StateError::StaleConfiguration.kind(), ErrorKind::Integrity);
}

#[test]
fn errors_describe_themselves() {
    assert_eq!(StateError::BannerNotFound.message(), "Banning member not found in member list");
    assert_eq!(StateError::TargetNotFound.message(), "Banned member not found in member list");
    assert_eq!(
        StateError::BannerNotAuthorized.message(),
        "Banner is not in the invite chain of the banned member"
    );
    assert_eq!(StateError::TooManyBans.message(), "Exceeded maximum number of user bans");
}
