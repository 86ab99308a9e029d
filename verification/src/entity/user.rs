use vstd::prelude::*;

verus! {

/// A stored account. `password` holds the bcrypt hash, never the plaintext.
pub struct User {
    pub id: u128,
    pub first_name: String,
    pub last_name: String,
    pub email: String,
    pub password: String,
}

impl Clone for User {
    fn clone(&self) -> (r: Self)
        ensures
            r == *self,
    {
        User {
            id: self.id,
            first_name: self.first_name.clone(),
            last_name: self.last_name.clone(),
            email: self.email.clone(),
            password: self.password.clone(),
        }
    }
}

/// The profile of an account, without the password hash.
pub struct UserDTO {
    pub id: u128,
    pub first_name: String,
    pub last_name: String,
    pub email: String,
}

impl User {
    /// The profile carried by this account.
    pub open spec fn dto_spec(self) -> UserDTO {
        UserDTO {
            id: self.id,
            first_name: self.first_name,
            last_name: self.last_name,
            email: self.email,
        }
    }

    pub fn as_dto(&self) -> (r: UserDTO)
        ensures
            r == self.dto_spec(),
    {
        UserDTO {
            id: self.id,
            first_name: self.first_name.clone(),
            last_name: self.last_name.clone(),
            email: self.email.clone(),
        }
    }
}

pub struct UserRegisterationRequest {
    pub first_name: String,
    pub last_name: String,
    pub email: String,
    pub password: String,
    pub password_confirm: String,
}

pub struct UserLoginRequest {
    pub email: String,
    pub password: String,
}

pub struct ForgotRequest {
    pub email: String,
}

pub struct ResetRequest {
    pub token: String,
    pub password: String,
    pub password_confirm: String,
}

/// A stored refresh-token session record. Its `expires_at` is authoritative,
/// independent of the expiry the token itself carries.
pub struct UserToken {
    pub user_id: u128,
    pub token: Vec<u8>,
    pub created_at: u64,
    pub expires_at: u64,
}

impl UserToken {
    /// The mathematical content of a session record.
    pub open spec fn model(self) -> (u128, Seq<u8>, u64, u64) {
        (self.user_id, self.token@, self.created_at, self.expires_at)
    }
}

impl Clone for UserToken {
    fn clone(&self) -> (r: Self)
        ensures
            r.model() == self.model(),
    {
        let mut t: Vec<u8> = Vec::new();
        let mut i: usize = 0;
        while i < self.token.len()
            invariant
                i <= self.token@.len(),
                t@ == self.token@.take(i as int),
            decreases self.token@.len() - i,
        {
            t.push(self.token[i]);
            proof {
                assert(self.token@.take(i + 1) =~= self.token@.take(i as int).push(
                    self.token@[i as int],
                ));
            }
            i += 1;
        }
        proof {
            assert(self.token@.take(self.token@.len() as int) =~= self.token@);
        }
        UserToken {
            user_id: self.user_id,
            token: t,
            created_at: self.created_at,
            expires_at: self.expires_at,
        }
    }
}

/// A stored password-recovery record: a single-use reset token for an email.
pub struct Reset {
    pub token: String,
    pub email: String,
}

impl Clone for Reset {
    fn clone(&self) -> (r: Self)
        ensures
            r == *self,
    {
        Reset { token: self.token.clone(), email: self.email.clone() }
    }
}

} // verus!
