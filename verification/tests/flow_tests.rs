use auth_core::auth::TokenConfig;
use auth_core::entity::user::{
    ForgotRequest, ResetRequest, UserLoginRequest, UserRegisterationRequest,
};
use auth_core::error::MyError;
use auth_core::handler::{
    forgot, get_user, login, logout, refresh, register, reset, AuthState,
};

fn fresh_state() -> AuthState {
    AuthState {
        config: TokenConfig {
            access_secret: b"access-secret".to_vec(),
            refresh_secret: b"refresh-secret".to_vec(),
            access_ttl: 30,
            refresh_ttl: 604800,
        },
        hash_cost: 4,
        users: Vec::new(),
        tokens: Vec::new(),
        resets: Vec::new(),
    }
}

fn alice_request() -> UserRegisterationRequest {
    UserRegisterationRequest {
        first_name: String::from("Alice"),
        last_name: String::from("Doe"),
        email: String::from("alice@example.com"),
        password: String::from("Secret123!"),
        password_confirm: String::from("Secret123!"),
    }
}

fn bearer_header(token: &[u8]) -> Vec<u8> {
    let mut h = b"Bearer ".to_vec();
    h.extend_from_slice(token);
    h
}

#[test]
fn end_to_end_session_lifecycle() {
    let mut st = fresh_state();
    let now: u64 = 1_700_000_000;

    // Register.
    let dto = register(&mut st, alice_request(), 42).unwrap();
    assert_eq!(dto.id, 42);
    assert_eq!(dto.email, "alice@example.com");

    // Login returns an access token and a refresh token, and records the session.
    let (resp, refresh_cookie) = login(
        &mut st,
        UserLoginRequest {
            email: String::from("alice@example.com"),
            password: String::from("Secret123!"),
        },
        now,
    )
    .unwrap();
    assert_eq!(st.tokens.len(), 1);

    // The access token serves the profile.
    let header = bearer_header(&resp.token);
    let profile = get_user(&st, Some(&header), now).unwrap();
    assert_eq!(profile.id, 42);
    assert_eq!(profile.first_name, "Alice");

    // After the access lifetime the same token is rejected.
    assert!(matches!(
        get_user(&st, Some(&header), now + 31),
        Err(MyError::AuthenticationError)
    ));

    // The refresh cookie yields a fresh access token.
    let renewed = refresh(&st, Some(&refresh_cookie), now + 31).unwrap();
    let header2 = bearer_header(&renewed.token);
    assert_eq!(get_user(&st, Some(&header2), now + 40).unwrap().id, 42);

    // Logout deletes the session; the old cookie renews nothing.
    assert!(matches!(logout(&mut st, Some(&refresh_cookie)), Ok(())));
    assert_eq!(st.tokens.len(), 0);
    assert!(matches!(
        refresh(&st, Some(&refresh_cookie), now + 60),
        Err(MyError::AuthenticationError)
    ));
}

#[test]
fn register_rejects_mismatched_confirmation() {
    let mut st = fresh_state();
    let mut req = alice_request();
    req.password_confirm = String::from("Different!");
    assert!(matches!(
        register(&mut st, req, 42),
        Err(MyError::ValidationError)
    ));
    assert_eq!(st.users.len(), 0);
}

#[test]
fn register_rejects_taken_id() {
    let mut st = fresh_state();
    register(&mut st, alice_request(), 42).unwrap();
    let mut req = alice_request();
    req.email = String::from("second@example.com");
    assert!(matches!(
        register(&mut st, req, 42),
        Err(MyError::StorageError)
    ));
}

#[test]
fn login_rejects_wrong_password_and_unknown_email_alike() {
    let mut st = fresh_state();
    register(&mut st, alice_request(), 42).unwrap();
    let wrong = login(
        &mut st,
        UserLoginRequest {
            email: String::from("alice@example.com"),
            password: String::from("WrongSecret"),
        },
        1,
    );
    let unknown = login(
        &mut st,
        UserLoginRequest {
            email: String::from("nobody@example.com"),
            password: String::from("Secret123!"),
        },
        1,
    );
    // The same uniform failure for both: no user enumeration.
    assert!(matches!(wrong, Err(MyError::AuthenticationError)));
    assert!(matches!(unknown, Err(MyError::AuthenticationError)));
}

#[test]
fn login_conflict_when_session_pair_already_exists() {
    let mut st = fresh_state();
    let now: u64 = 1_700_000_000;
    register(&mut st, alice_request(), 42).unwrap();
    let creds = || UserLoginRequest {
        email: String::from("alice@example.com"),
        password: String::from("Secret123!"),
    };
    assert!(login(&mut st, creds(), now).is_ok());
    // The same instant mints the same refresh token, so the store's
    // unique-pair constraint refuses a second record.
    assert!(matches!(
        login(&mut st, creds(), now),
        Err(MyError::StorageError)
    ));
    assert_eq!(st.tokens.len(), 1);
    // A later instant gives a fresh token and succeeds.
    assert!(login(&mut st, creds(), now + 1).is_ok());
    assert_eq!(st.tokens.len(), 2);
}

#[test]
fn missing_credentials_are_unauthorized() {
    let st = fresh_state();
    assert!(matches!(
        get_user(&st, None, 1),
        Err(MyError::AuthenticationError)
    ));
    assert!(matches!(
        refresh(&st, None, 1),
        Err(MyError::AuthenticationError)
    ));
    let mut st2 = fresh_state();
    assert!(matches!(
        logout(&mut st2, None),
        Err(MyError::AuthenticationError)
    ));
}

#[test]
fn registry_expiry_is_authoritative_over_token_expiry() {
    let mut st = fresh_state();
    let now: u64 = 1_700_000_000;
    register(&mut st, alice_request(), 42).unwrap();
    let (_resp, refresh_cookie) = login(
        &mut st,
        UserLoginRequest {
            email: String::from("alice@example.com"),
            password: String::from("Secret123!"),
        },
        now,
    )
    .unwrap();
    // Force the stored record to expire early; the token itself stays valid.
    st.tokens[0].expires_at = now + 5;
    assert!(matches!(
        refresh(&st, Some(&refresh_cookie), now + 10),
        Err(MyError::AuthenticationError)
    ));
    // At an instant before the record's expiry, renewal still works.
    assert!(refresh(&st, Some(&refresh_cookie), now + 4).is_ok());
}

#[test]
fn forgot_hides_whether_email_is_registered() {
    let mut with_user = fresh_state();
    register(&mut with_user, alice_request(), 42).unwrap();
    let mut without_user = fresh_state();

    let r1 = forgot(
        &mut with_user,
        ForgotRequest { email: String::from("alice@example.com") },
        String::from("tok123"),
    );
    let r2 = forgot(
        &mut without_user,
        ForgotRequest { email: String::from("alice@example.com") },
        String::from("tok123"),
    );
    assert!(matches!(r1, Ok(())));
    assert!(matches!(r2, Ok(())));
    assert_eq!(with_user.resets.len(), without_user.resets.len());
    assert_eq!(with_user.resets[0].token, without_user.resets[0].token);
    assert_eq!(with_user.resets[0].email, without_user.resets[0].email);
}

#[test]
fn reset_updates_password_and_consumes_token() {
    let mut st = fresh_state();
    register(&mut st, alice_request(), 42).unwrap();
    forgot(
        &mut st,
        ForgotRequest { email: String::from("alice@example.com") },
        String::from("tok123"),
    )
    .unwrap();

    let outcome = reset(
        &mut st,
        ResetRequest {
            token: String::from("tok123"),
            password: String::from("NewSecret9?"),
            password_confirm: String::from("NewSecret9?"),
        },
    );
    assert!(matches!(outcome, Ok(())));
    assert_eq!(st.resets.len(), 0);

    // The new password authenticates; the old one no longer does.
    assert!(login(
        &mut st,
        UserLoginRequest {
            email: String::from("alice@example.com"),
            password: String::from("NewSecret9?"),
        },
        1,
    )
    .is_ok());
    assert!(matches!(
        login(
            &mut st,
            UserLoginRequest {
                email: String::from("alice@example.com"),
                password: String::from("Secret123!"),
            },
            1,
        ),
        Err(MyError::AuthenticationError)
    ));

    // The consumed token opens nothing a second time.
    assert!(matches!(
        reset(
            &mut st,
            ResetRequest {
                token: String::from("tok123"),
                password: String::from("Another1!"),
                password_confirm: String::from("Another1!"),
            },
        ),
        Err(MyError::NotFoundError)
    ));
}

#[test]
fn reset_rejects_mismatch_and_unknown_token() {
    let mut st = fresh_state();
    register(&mut st, alice_request(), 42).unwrap();
    assert!(matches!(
        reset(
            &mut st,
            ResetRequest {
                token: String::from("whatever"),
                password: String::from("a"),
                password_confirm: String::from("b"),
            },
        ),
        Err(MyError::ValidationError)
    ));
    assert!(matches!(
        reset(
            &mut st,
            ResetRequest {
                token: String::from("unknown"),
                password: String::from("a"),
                password_confirm: String::from("a"),
            },
        ),
        Err(MyError::NotFoundError)
    ));
}

#[test]
fn reset_for_unregistered_email_is_not_found() {
    let mut st = fresh_state();
    forgot(
        &mut st,
        ForgotRequest { email: String::from("ghost@example.com") },
        String::from("tok123"),
    )
    .unwrap();
    assert!(matches!(
        reset(
            &mut st,
            ResetRequest {
                token: String::from("tok123"),
                password: String::from("a"),
                password_confirm: String::from("a"),
            },
        ),
        Err(MyError::NotFoundError)
    ));
}

#[test]
fn error_status_codes_match_the_taxonomy() {
    assert_eq!(MyError::ValidationError.status_code(), 400);
    assert_eq!(MyError::AuthenticationError.status_code(), 401);
    assert_eq!(MyError::NotFoundError.status_code(), 404);
    assert_eq!(MyError::StorageError.status_code(), 500);
    assert_eq!(MyError::DependencyError.status_code(), 500);
}
