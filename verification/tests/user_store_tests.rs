use auth_core::entity::general::{MessageResponse, ObjectResponse, TokenResponse};
use auth_core::entity::user::{User, UserRegisterationRequest};
use auth_core::error::MyError;
use auth_core::vault::verify_password;

fn registration(email: &str, password: &str) -> UserRegisterationRequest {
    UserRegisterationRequest {
        first_name: String::from("Alice"),
        last_name: String::from("Doe"),
        email: String::from(email),
        password: String::from(password),
        password_confirm: String::from(password),
    }
}

#[test]
fn insert_stores_a_hash_not_the_password() {
    let mut users: Vec<User> = Vec::new();
    let dto = User::insert(&mut users, registration("alice@example.com", "pw1"), 1, 4).unwrap();
    assert_eq!(dto.id, 1);
    assert_eq!(dto.email, "alice@example.com");
    assert_eq!(users.len(), 1);
    assert_ne!(users[0].password, "pw1");
    assert_eq!(verify_password(&String::from("pw1"), &users[0].password), Ok(true));
}

#[test]
fn insert_rejects_duplicate_id() {
    let mut users: Vec<User> = Vec::new();
    User::insert(&mut users, registration("alice@example.com", "pw1"), 1, 4).unwrap();
    assert!(matches!(
        User::insert(&mut users, registration("bob@example.com", "pw2"), 1, 4),
        Err(MyError::StorageError)
    ));
    assert_eq!(users.len(), 1);
}

#[test]
fn find_by_id_and_missing_id() {
    let mut users: Vec<User> = Vec::new();
    User::insert(&mut users, registration("alice@example.com", "pw1"), 7, 4).unwrap();
    let dto = User::find_by_id(&users, 7).unwrap();
    assert_eq!(dto.email, "alice@example.com");
    assert!(matches!(
        User::find_by_id(&users, 8),
        Err(MyError::NotFoundError)
    ));
}

#[test]
fn find_by_email_takes_the_first_match() {
    let mut users: Vec<User> = Vec::new();
    User::insert(&mut users, registration("same@example.com", "first"), 1, 4).unwrap();
    User::insert(&mut users, registration("same@example.com", "second"), 2, 4).unwrap();
    let u = User::find_by_email(&users, &String::from("same@example.com")).unwrap();
    assert_eq!(u.id, 1);
    assert!(matches!(
        User::find_by_email(&users, &String::from("other@example.com")),
        Err(MyError::NotFoundError)
    ));
}

#[test]
fn get_all_returns_every_account() {
    let mut users: Vec<User> = Vec::new();
    User::insert(&mut users, registration("a@example.com", "pw"), 1, 4).unwrap();
    User::insert(&mut users, registration("b@example.com", "pw"), 2, 4).unwrap();
    let all = User::get_all(&users).unwrap();
    assert_eq!(all.len(), 2);
    assert_eq!(all[0].email, "a@example.com");
    assert_eq!(all[1].email, "b@example.com");
}

#[test]
fn authenticate_is_uniform_across_failure_kinds() {
    let mut users: Vec<User> = Vec::new();
    User::insert(&mut users, registration("alice@example.com", "pw1"), 1, 4).unwrap();
    // A stored hash that is not even well-formed fails the same way.
    users.push(User {
        id: 2,
        first_name: String::from("Mallory"),
        last_name: String::from("Roe"),
        email: String::from("mallory@example.com"),
        password: String::from("not-a-hash"),
    });
    let ok = User::authenticate_by_email(
        &users,
        &String::from("alice@example.com"),
        &String::from("pw1"),
    );
    assert!(ok.is_ok());
    for (email, pw) in [
        ("alice@example.com", "wrong"),
        ("nobody@example.com", "pw1"),
        ("mallory@example.com", "anything"),
    ] {
        assert!(matches!(
            User::authenticate_by_email(&users, &String::from(email), &String::from(pw)),
            Err(MyError::AuthenticationError)
        ));
    }
}

#[test]
fn update_password_replaces_the_hash() {
    let mut users: Vec<User> = Vec::new();
    User::insert(&mut users, registration("alice@example.com", "old-pw"), 1, 4).unwrap();
    User::update_password(&mut users, 1, &String::from("new-pw"), 4).unwrap();
    assert_eq!(verify_password(&String::from("new-pw"), &users[0].password), Ok(true));
    assert_eq!(verify_password(&String::from("old-pw"), &users[0].password), Ok(false));
    assert!(matches!(
        User::update_password(&mut users, 9, &String::from("x"), 4),
        Err(MyError::NotFoundError)
    ));
}

#[test]
fn as_dto_drops_the_hash() {
    let mut users: Vec<User> = Vec::new();
    User::insert(&mut users, registration("alice@example.com", "pw"), 5, 4).unwrap();
    let dto = users[0].as_dto();
    assert_eq!(dto.id, 5);
    assert_eq!(dto.first_name, "Alice");
    assert_eq!(dto.last_name, "Doe");
    assert_eq!(dto.email, "alice@example.com");
}

#[test]
fn response_envelopes_carry_their_payload() {
    let o = ObjectResponse { data: 5u32 };
    let m = MessageResponse { message: String::from("success") };
    let t = TokenResponse { token: b"tok".to_vec() };
    assert_eq!(o.data, 5);
    assert_eq!(m.message, "success");
    assert_eq!(t.token, b"tok".to_vec());
}
