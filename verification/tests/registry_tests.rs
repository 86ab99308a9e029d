use auth_core::entity::user::{Reset, User, UserToken};
use auth_core::error::{MyError, RecoveryError, SessionError};

fn sample_user(id: u128, email: &str) -> User {
    User {
        id,
        first_name: String::from("Alice"),
        last_name: String::from("Doe"),
        email: String::from(email),
        password: String::from("$2b$04$MnMnMnMnMnMnMnMnMnMnMuKfDgDbQVSS7o5WN3Wvmhc5MCvsCzC5G"),
    }
}

#[test]
fn session_insert_requires_known_user() {
    let users = vec![sample_user(1, "alice@example.com")];
    let mut tokens: Vec<UserToken> = Vec::new();
    let rec = UserToken {
        user_id: 2,
        token: b"tok".to_vec(),
        created_at: 10,
        expires_at: 20,
    };
    assert!(matches!(
        UserToken::insert(&mut tokens, rec, &users),
        Err(MyError::NotFoundError)
    ));
    assert_eq!(tokens.len(), 0);
}

#[test]
fn session_insert_rejects_duplicate_pair() {
    let users = vec![sample_user(1, "alice@example.com")];
    let mut tokens: Vec<UserToken> = Vec::new();
    let mk = || UserToken {
        user_id: 1,
        token: b"tok".to_vec(),
        created_at: 10,
        expires_at: 20,
    };
    assert!(UserToken::insert(&mut tokens, mk(), &users).is_ok());
    assert!(matches!(
        UserToken::insert(&mut tokens, mk(), &users),
        Err(MyError::StorageError)
    ));
    assert_eq!(tokens.len(), 1);
}

#[test]
fn deleted_session_is_not_found() {
    let users = vec![sample_user(1, "alice@example.com")];
    let mut tokens: Vec<UserToken> = Vec::new();
    let rec = UserToken {
        user_id: 1,
        token: b"tok".to_vec(),
        created_at: 10,
        expires_at: 1_000_000,
    };
    UserToken::insert(&mut tokens, rec, &users).unwrap();
    assert!(UserToken::find_by_token(&tokens, &b"tok".to_vec(), 1).is_ok());
    UserToken::delete(&mut tokens, &b"tok".to_vec()).unwrap();
    assert!(matches!(
        UserToken::find_by_token(&tokens, &b"tok".to_vec(), 1),
        Err(SessionError::SessionNotFound)
    ));
    // Deleting again still succeeds: logout is safe to retry.
    assert!(matches!(
        UserToken::delete(&mut tokens, &b"tok".to_vec()),
        Ok(())
    ));
}

#[test]
fn find_by_token_needs_the_exact_pair() {
    let users = vec![sample_user(1, "alice@example.com"), sample_user(2, "bob@example.com")];
    let mut tokens: Vec<UserToken> = Vec::new();
    let rec = UserToken {
        user_id: 1,
        token: b"tok".to_vec(),
        created_at: 10,
        expires_at: 1_000_000,
    };
    UserToken::insert(&mut tokens, rec, &users).unwrap();
    assert!(matches!(
        UserToken::find_by_token(&tokens, &b"tok".to_vec(), 2),
        Err(SessionError::SessionNotFound)
    ));
    assert!(matches!(
        UserToken::find_by_token(&tokens, &b"other".to_vec(), 1),
        Err(SessionError::SessionNotFound)
    ));
}

#[test]
fn find_live_distinguishes_absent_from_expired() {
    let users = vec![sample_user(1, "alice@example.com")];
    let mut tokens: Vec<UserToken> = Vec::new();
    let rec = UserToken {
        user_id: 1,
        token: b"tok".to_vec(),
        created_at: 10,
        expires_at: 100,
    };
    UserToken::insert(&mut tokens, rec, &users).unwrap();
    assert!(UserToken::find_live(&tokens, &b"tok".to_vec(), 1, 99).is_ok());
    assert!(matches!(
        UserToken::find_live(&tokens, &b"tok".to_vec(), 1, 100),
        Err(SessionError::SessionExpired)
    ));
    assert!(matches!(
        UserToken::find_live(&tokens, &b"gone".to_vec(), 1, 50),
        Err(SessionError::SessionNotFound)
    ));
}

#[test]
fn reset_consume_succeeds_exactly_once() {
    let mut resets: Vec<Reset> = Vec::new();
    Reset::insert(
        &mut resets,
        String::from("alice@example.com"),
        String::from("tok123"),
    )
    .unwrap();
    let rec = Reset::consume(&mut resets, &String::from("tok123")).unwrap();
    assert_eq!(rec.email, "alice@example.com");
    assert!(matches!(
        Reset::consume(&mut resets, &String::from("tok123")),
        Err(RecoveryError::ResetTokenNotFound)
    ));
}

#[test]
fn newer_reset_token_supersedes_older() {
    let mut resets: Vec<Reset> = Vec::new();
    Reset::insert(
        &mut resets,
        String::from("alice@example.com"),
        String::from("older"),
    )
    .unwrap();
    Reset::insert(
        &mut resets,
        String::from("alice@example.com"),
        String::from("newer"),
    )
    .unwrap();
    assert_eq!(resets.len(), 1);
    assert!(matches!(
        Reset::consume(&mut resets, &String::from("older")),
        Err(RecoveryError::ResetTokenNotFound)
    ));
    assert!(Reset::consume(&mut resets, &String::from("newer")).is_ok());
}

#[test]
fn reset_insert_rejects_token_collision() {
    let mut resets: Vec<Reset> = Vec::new();
    Reset::insert(
        &mut resets,
        String::from("alice@example.com"),
        String::from("tok"),
    )
    .unwrap();
    assert!(matches!(
        Reset::insert(
            &mut resets,
            String::from("bob@example.com"),
            String::from("tok"),
        ),
        Err(MyError::StorageError)
    ));
}

#[test]
fn reset_find_by_token_reports_missing() {
    let resets: Vec<Reset> = Vec::new();
    assert!(matches!(
        Reset::find_by_token(&resets, &String::from("nope")),
        Err(RecoveryError::ResetTokenNotFound)
    ));
}
