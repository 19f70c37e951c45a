use occult_core::gate::AccessGate;
use occult_core::invite::InviteRegistry;
use occult_core::requests::CreateInviteRequest;
use occult_core::users::{parse_bearer_token, UserDirectory};
use occult_core::wire::UserStatus;
use occult_core::ChatError;

const SERVER: u128 = 77;
const OWNER: u128 = 1;

fn setup() -> (AccessGate, InviteRegistry) {
    let mut gate = AccessGate::new();
    gate.add_server(SERVER, OWNER).unwrap();
    (gate, InviteRegistry::new())
}

#[test]
fn invite_code_is_eight_alphanumerics() {
    let (_gate, mut reg) = setup();
    let code = reg
        .create(
            SERVER,
            OWNER,
            CreateInviteRequest {
                max_uses: None,
                expires_in: None,
            },
            1000,
        )
        .unwrap();
    assert_eq!(code.chars().count(), 8);
    assert!(code.chars().all(|c| c.is_ascii_alphanumeric()));
}

#[test]
fn issued_codes_are_distinct() {
    let (_gate, mut reg) = setup();
    let req = CreateInviteRequest {
        max_uses: None,
        expires_in: None,
    };
    let a = reg.create(SERVER, OWNER, req, 1).unwrap();
    let b = reg.create(SERVER, OWNER, req, 2).unwrap();
    assert_ne!(a, b);
}

#[test]
fn redeem_bounded_by_max_uses() {
    let (mut gate, mut reg) = setup();
    let code = reg
        .create(
            SERVER,
            OWNER,
            CreateInviteRequest {
                max_uses: Some(2),
                expires_in: None,
            },
            1000,
        )
        .unwrap();
    let mut ok = 0;
    let mut exhausted = 0;
    for user in 100..105u128 {
        match reg.redeem(&mut gate, &code, user, 2000) {
            Ok(server) => {
                assert_eq!(server, SERVER);
                ok += 1;
            }
            Err(ChatError::Exhausted) => exhausted += 1,
            other => panic!("unexpected outcome: {other:?}"),
        }
    }
    // Exactly the cap succeeds; every further attempt fails Exhausted.
    assert_eq!(ok, 2);
    assert_eq!(exhausted, 3);
}

#[test]
fn redeem_after_expiry_fails_expired_even_with_uses_left() {
    let (mut gate, mut reg) = setup();
    let code = reg
        .create(
            SERVER,
            OWNER,
            CreateInviteRequest {
                max_uses: Some(10),
                expires_in: Some(1),
            },
            1_000_000,
        )
        .unwrap();
    // One hour is 3,600,000 milliseconds; step past it.
    let late = 1_000_000 + 3_600_000 + 1;
    assert_eq!(
        reg.redeem(&mut gate, &code, 100, late),
        Err(ChatError::Expired)
    );
    // At the expiry instant itself redemption still works.
    let on_time = 1_000_000 + 3_600_000;
    assert_eq!(reg.redeem(&mut gate, &code, 100, on_time), Ok(SERVER));
}

#[test]
fn redeem_grants_membership_atomically() {
    let (mut gate, mut reg) = setup();
    let code = reg
        .create(
            SERVER,
            OWNER,
            CreateInviteRequest {
                max_uses: None,
                expires_in: None,
            },
            10,
        )
        .unwrap();
    assert!(!gate.is_member(42, SERVER));
    reg.redeem(&mut gate, &code, 42, 20).unwrap();
    assert!(gate.is_member(42, SERVER));
    assert!(gate.can_write_channel(42, SERVER));
    assert!(!gate.can_moderate(42, SERVER));
}

#[test]
fn redeem_unknown_code_not_found() {
    let (mut gate, mut reg) = setup();
    assert_eq!(
        reg.redeem(&mut gate, "NOSUCHCD", 1, 1),
        Err(ChatError::NotFound)
    );
}

#[test]
fn gate_capabilities() {
    let mut gate = AccessGate::new();
    gate.add_server(SERVER, OWNER).unwrap();
    gate.add_member(5, SERVER, 1);
    assert!(gate.can_write_channel(OWNER, SERVER));
    assert!(gate.can_moderate(OWNER, SERVER));
    assert!(gate.can_write_channel(5, SERVER));
    assert!(!gate.can_moderate(5, SERVER));
    assert!(!gate.can_write_channel(6, SERVER));
    gate.remove_member(5, SERVER);
    assert!(!gate.is_member(5, SERVER));
    // Removing an absent membership is a no-op.
    gate.remove_member(5, SERVER);
    assert!(!gate.can_write_channel(5, SERVER));
}

#[test]
fn duplicate_membership_is_noop() {
    let mut gate = AccessGate::new();
    gate.add_server(SERVER, OWNER).unwrap();
    gate.add_member(5, SERVER, 1);
    gate.add_member(5, SERVER, 99);
    assert!(gate.is_member(5, SERVER));
    gate.remove_member(5, SERVER);
    // One fact was stored for the pair, so one removal suffices.
    assert!(!gate.is_member(5, SERVER));
}

#[test]
fn register_user_rejects_duplicates() {
    let mut dir = UserDirectory::new();
    dir.register_user(1, "caz".to_string(), "caz@example.net".to_string(), 10)
        .unwrap();
    assert_eq!(
        dir.register_user(2, "caz".to_string(), "other@example.net".to_string(), 11),
        Err(ChatError::Conflict)
    );
    assert_eq!(
        dir.register_user(2, "other".to_string(), "caz@example.net".to_string(), 11),
        Err(ChatError::Conflict)
    );
    assert_eq!(
        dir.register_user(1, "other".to_string(), "other@example.net".to_string(), 11),
        Err(ChatError::Conflict)
    );
    dir.register_user(2, "other".to_string(), "other@example.net".to_string(), 11)
        .unwrap();
    assert_eq!(dir.users.len(), 2);
}

#[test]
fn fresh_user_starts_offline_and_status_updates() {
    let mut dir = UserDirectory::new();
    dir.register_user(1, "caz".to_string(), "caz@example.net".to_string(), 10)
        .unwrap();
    assert_eq!(dir.users[0].status, UserStatus::Offline);
    dir.update_user_status(1, UserStatus::Dnd, 20).unwrap();
    assert_eq!(dir.users[0].status, UserStatus::Dnd);
    assert_eq!(dir.users[0].updated_at, 20);
    assert_eq!(
        dir.update_user_status(9, UserStatus::Idle, 30),
        Err(ChatError::NotFound)
    );
}

#[test]
fn bearer_token_extraction() {
    assert_eq!(
        parse_bearer_token("Bearer abc.def"),
        Some("abc.def".to_string())
    );
    assert_eq!(parse_bearer_token("Basic abc"), None);
    assert_eq!(parse_bearer_token("Bearer"), None);
    assert_eq!(parse_bearer_token(""), None);
    assert_eq!(parse_bearer_token("Bearer "), Some("".to_string()));
}

#[test]
fn zero_use_invite_is_born_exhausted() {
    let (mut gate, mut reg) = setup();
    let code = reg
        .create(
            SERVER,
            OWNER,
            CreateInviteRequest {
                max_uses: Some(0),
                expires_in: None,
            },
            1,
        )
        .unwrap();
    assert_eq!(
        reg.redeem(&mut gate, &code, 100, 2),
        Err(ChatError::Exhausted)
    );
}

#[test]
fn standalone_join_errs_on_existing_membership() {
    let mut gate = AccessGate::new();
    gate.add_server(SERVER, OWNER).unwrap();
    gate.join_server(9, SERVER, 5).unwrap();
    assert!(gate.is_member(9, SERVER));
    // The composite (user, server) key refuses a second join.
    assert_eq!(gate.join_server(9, SERVER, 6), Err(ChatError::Conflict));
    gate.remove_member(9, SERVER);
    gate.join_server(9, SERVER, 7).unwrap();
    assert!(gate.is_member(9, SERVER));
}
