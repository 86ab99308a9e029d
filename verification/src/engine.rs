use vstd::prelude::*;

use crate::bytes_eq;
use crate::crypto::bcrypt_check;
use crate::entity::user::{Reset, User, UserDTO, UserRegisterationRequest, UserToken};
use crate::error::{MyError, RecoveryError, SessionError};
use crate::vault::{hash_password, verify_password};

verus! {

// ---------------------------------------------------------------------------
// The user store
// ---------------------------------------------------------------------------

/// No two accounts share an id.
pub open spec fn users_wf(users: Seq<User>) -> bool {
    forall|i: int, j: int|
        0 <= i < j < users.len() ==> (#[trigger] users[i]).id != (#[trigger] users[j]).id
}

/// Some account carries this id.
pub open spec fn has_user_id(users: Seq<User>, id: u128) -> bool {
    exists|i: int| 0 <= i < users.len() && (#[trigger] users[i]).id == id
}

/// `i` is the first position whose account carries this email.
pub open spec fn first_email_match(users: Seq<User>, email: Seq<char>, i: int) -> bool {
    &&& 0 <= i < users.len()
    &&& users[i].email@ == email
    &&& forall|j: int| 0 <= j < i ==> (#[trigger] users[j]).email@ != email
}

/// Some account carries this email.
pub open spec fn has_email(users: Seq<User>, email: Seq<char>) -> bool {
    exists|m: int| 0 <= m < users.len() && (#[trigger] users[m]).email@ == email
}

/// Wherever an account carries the email, a first such account stands at or
/// before it.
pub proof fn lemma_email_has_first_match(users: Seq<User>, email: Seq<char>, m: int)
    requires
        0 <= m < users.len(),
        users[m].email@ == email,
    ensures
        exists|i: int| 0 <= i <= m && #[trigger] first_email_match(users, email, i),
    decreases m,
{
    if forall|j: int| 0 <= j < m ==> (#[trigger] users[j]).email@ != email {
        assert(first_email_match(users, email, m));
    } else {
        let j = choose|j: int| 0 <= j < m && (#[trigger] users[j]).email@ == email;
        lemma_email_has_first_match(users, email, j);
    }
}

impl User {
    /// Appends a new account with an already-produced password hash. Succeeds
    /// exactly when the id is not yet taken; the failure mirrors the store's
    /// unique-key constraint.
    pub fn insert_record(
        users: &mut Vec<User>,
        id: u128,
        first_name: String,
        last_name: String,
        email: String,
        hashed: String,
    ) -> (r: Result<UserDTO, MyError>)
        requires
            users_wf(old(users)@),
        ensures
            users_wf(final(users)@),
            match r {
                Ok(dto) => {
                    &&& !has_user_id(old(users)@, id)
                    &&& final(users)@ == old(users)@.push(
                        (User { id, first_name, last_name, email, password: hashed }),
                    )
                    &&& dto == (User {
                        id,
                        first_name,
                        last_name,
                        email,
                        password: hashed,
                    }).dto_spec()
                },
                Err(e) => {
                    &&& final(users)@ == old(users)@
                    &&& e == MyError::StorageError
                    &&& has_user_id(old(users)@, id)
                },
            },
    {
        let mut k: usize = 0;
        while k < users.len()
            invariant
                0 <= k <= users@.len(),
                users@ == old(users)@,
                users_wf(users@),
                forall|j: int| 0 <= j < k ==> (#[trigger] users@[j]).id != id,
            decreases users@.len() - k,
        {
            if users[k].id == id {
                return Err(MyError::StorageError);
            }
            k += 1;
        }
        let dto = UserDTO {
            id,
            first_name: first_name.clone(),
            last_name: last_name.clone(),
            email: email.clone(),
        };
        users.push(User { id, first_name, last_name, email, password: hashed });
        Ok(dto)
    }

    /// Registers a new account: hashes the password, then appends the record.
    /// The password-confirmation check belongs to the caller.
    pub fn insert(
        users: &mut Vec<User>,
        incoming: UserRegisterationRequest,
        id: u128,
        cost: u32,
    ) -> (r: Result<UserDTO, MyError>)
        requires
            4 <= cost <= 31,
            users_wf(old(users)@),
        ensures
            users_wf(final(users)@),
            has_user_id(old(users)@, id) ==> r is Err,
            match r {
                Ok(dto) => {
                    &&& !has_user_id(old(users)@, id)
                    &&& final(users)@.len() == old(users)@.len() + 1
                    &&& final(users)@.take(old(users)@.len() as int) == old(users)@
                    &&& final(users)@.last().id == id
                    &&& final(users)@.last().first_name@ == incoming.first_name@
                    &&& final(users)@.last().last_name@ == incoming.last_name@
                    &&& final(users)@.last().email@ == incoming.email@
                    &&& bcrypt_check(incoming.password@, final(users)@.last().password@) == Some(
                        true,
                    )
                    &&& dto == final(users)@.last().dto_spec()
                },
                Err(e) => {
                    &&& final(users)@ == old(users)@
                    &&& e == MyError::StorageError
                },
            },
    {
        let hashed = match hash_password(&incoming.password, cost) {
            Ok(h) => h,
            Err(_) => {
                return Err(MyError::StorageError);
            },
        };
        let r = User::insert_record(
            users,
            id,
            incoming.first_name,
            incoming.last_name,
            incoming.email,
            hashed,
        );
        proof {
            if r is Ok {
                assert(final(users)@.take(old(users)@.len() as int) =~= old(users)@);
            }
        }
        r
    }

    /// Looks an account up by id and returns its profile, or the not-found
    /// failure exactly when no account carries the id.
    pub fn find_by_id(users: &Vec<User>, incoming_id: u128) -> (r: Result<UserDTO, MyError>)
        ensures
            match r {
                Ok(dto) => exists|i: int|
                    0 <= i < users@.len() && (#[trigger] users@[i]).id == incoming_id && dto
                        == users@[i].dto_spec() && (forall|j: int|
                        0 <= j < i ==> (#[trigger] users@[j]).id != incoming_id),
                Err(e) => {
                    &&& e == MyError::NotFoundError
                    &&& !has_user_id(users@, incoming_id)
                },
            },
    {
        let mut k: usize = 0;
        while k < users.len()
            invariant
                0 <= k <= users@.len(),
                forall|j: int| 0 <= j < k ==> (#[trigger] users@[j]).id != incoming_id,
            decreases users@.len() - k,
        {
            if users[k].id == incoming_id {
                return Ok(users[k].as_dto());
            }
            k += 1;
        }
        Err(MyError::NotFoundError)
    }

    /// Looks an account up by email: the first match, or the not-found
    /// failure exactly when no account carries the email.
    pub fn find_by_email(users: &Vec<User>, incoming_email: &String) -> (r: Result<User, MyError>)
        ensures
            match r {
                Ok(u) => exists|i: int|
                    #[trigger] first_email_match(users@, incoming_email@, i) && u == users@[i],
                Err(e) => {
                    &&& e == MyError::NotFoundError
                    &&& forall|i: int| !first_email_match(users@, incoming_email@, i)
                },
            },
    {
        let mut k: usize = 0;
        while k < users.len()
            invariant
                0 <= k <= users@.len(),
                forall|j: int| 0 <= j < k ==> (#[trigger] users@[j]).email@ != incoming_email@,
            decreases users@.len() - k,
        {
            if users[k].email == *incoming_email {
                let u = users[k].clone();
                proof {
                    assert(first_email_match(users@, incoming_email@, k as int));
                }
                return Ok(u);
            }
            k += 1;
        }
        Err(MyError::NotFoundError)
    }

    /// Returns a copy of every account.
    pub fn get_all(users: &Vec<User>) -> (r: Result<Vec<User>, MyError>)
        ensures
            match r {
                Ok(v) => v@ == users@,
                Err(_) => false,
            },
    {
        let mut v: Vec<User> = Vec::new();
        let mut k: usize = 0;
        while k < users.len()
            invariant
                0 <= k <= users@.len(),
                v@ == users@.take(k as int),
            decreases users@.len() - k,
        {
            v.push(users[k].clone());
            proof {
                assert(users@.take(k + 1) =~= users@.take(k as int).push(users@[k as int]));
            }
            k += 1;
        }
        proof {
            assert(users@.take(users@.len() as int) =~= users@);
        }
        Ok(v)
    }

    /// Proves identity from an email and a password. Succeeds exactly when
    /// some account carries the email and the password matches its stored
    /// hash; every failure is the same uniform authentication failure, so a
    /// caller cannot tell an unknown email from a wrong password.
    pub fn authenticate_by_email(
        users: &Vec<User>,
        email: &String,
        incoming_password: &String,
    ) -> (r: Result<User, MyError>)
        ensures
            match r {
                Ok(u) => exists|i: int|
                    #[trigger] first_email_match(users@, email@, i) && u == users@[i]
                        && bcrypt_check(incoming_password@, users@[i].password@) == Some(true),
                Err(e) => {
                    &&& e == MyError::AuthenticationError
                    &&& forall|i: int|
                        #[trigger] first_email_match(users@, email@, i) ==> bcrypt_check(
                            incoming_password@,
                            users@[i].password@,
                        ) != Some(true)
                },
            },
    {
        let user = match User::find_by_email(users, email) {
            Ok(u) => u,
            Err(_) => {
                return Err(MyError::AuthenticationError);
            },
        };
        match verify_password(incoming_password, &user.password) {
            Ok(true) => Ok(user),
            _ => {
                proof {
                    let i = choose|i: int|
                        #[trigger] first_email_match(users@, email@, i) && user == users@[i];
                    assert forall|t: int|
                        #[trigger] first_email_match(users@, email@, t) implies bcrypt_check(
                        incoming_password@,
                        users@[t].password@,
                    ) != Some(true) by {
                        assert(t == i);
                    }
                }
                Err(MyError::AuthenticationError)
            },
        }
    }

    /// Replaces the stored hash of the account carrying the id with a hash of
    /// the new password. Not-found exactly when no account carries the id;
    /// the storage failure only on a hashing failure.
    pub fn update_password(
        users: &mut Vec<User>,
        incoming_id: u128,
        incoming_password: &String,
        cost: u32,
    ) -> (r: Result<(), MyError>)
        requires
            4 <= cost <= 31,
            users_wf(old(users)@),
        ensures
            users_wf(final(users)@),
            !has_user_id(old(users)@, incoming_id) ==> r == Err::<(), MyError>(
                MyError::NotFoundError,
            ),
            match r {
                Ok(()) => exists|i: int|
                    {
                        &&& 0 <= i < old(users)@.len()
                        &&& (#[trigger] old(users)@[i]).id == incoming_id
                        &&& final(users)@ =~= old(users)@.update(
                            i,
                            final(users)@[i],
                        )
                        &&& final(users)@[i].id == old(users)@[i].id
                        &&& final(users)@[i].first_name@ == old(users)@[i].first_name@
                        &&& final(users)@[i].last_name@ == old(users)@[i].last_name@
                        &&& final(users)@[i].email@ == old(users)@[i].email@
                        &&& bcrypt_check(incoming_password@, final(users)@[i].password@) == Some(
                            true,
                        )
                    },
                Err(e) => {
                    &&& final(users)@ == old(users)@
                    &&& (e == MyError::NotFoundError || e == MyError::StorageError)
                    &&& (e == MyError::NotFoundError ==> !has_user_id(old(users)@, incoming_id))
                },
            },
    {
        let mut k: usize = 0;
        while k < users.len()
            invariant
                0 <= k <= users@.len(),
                forall|j: int| 0 <= j < k ==> (#[trigger] users@[j]).id != incoming_id,
                users@ == old(users)@,
                users_wf(users@),
                4 <= cost <= 31,
            decreases users@.len() - k,
        {
            if users[k].id == incoming_id {
                let hashed = match hash_password(incoming_password, cost) {
                    Ok(h) => h,
                    Err(_) => {
                        return Err(MyError::StorageError);
                    },
                };
                users[k].password = hashed;
                proof {
                    assert(forall|j: int|
                        0 <= j < users@.len() ==> (#[trigger] users@[j]).id == old(users)@[j].id);
                    assert(users@ =~= old(users)@.update(k as int, users@[k as int]));
                }
                return Ok(());
            }
            k += 1;
        }
        Err(MyError::NotFoundError)
    }
}

// ---------------------------------------------------------------------------
// The session registry
// ---------------------------------------------------------------------------

/// Some record carries this `(user, token)` pair.
pub open spec fn has_pair(tokens: Seq<UserToken>, user_id: u128, token: Seq<u8>) -> bool {
    exists|i: int|
        0 <= i < tokens.len() && (#[trigger] tokens[i]).user_id == user_id && tokens[i].token@
            == token
}

/// `i` is the first position whose record carries this `(user, token)` pair.
pub open spec fn first_pair_match(tokens: Seq<UserToken>, user_id: u128, token: Seq<u8>, i: int) -> bool {
    &&& 0 <= i < tokens.len()
    &&& tokens[i].user_id == user_id
    &&& tokens[i].token@ == token
    &&& forall|j: int|
        0 <= j < i ==> !((#[trigger] tokens[j]).user_id == user_id && tokens[j].token@ == token)
}

/// The registry without the records that carry this token, order kept.
pub open spec fn without_token(tokens: Seq<UserToken>, token: Seq<u8>) -> Seq<UserToken>
    decreases tokens.len(),
{
    if tokens.len() == 0 {
        Seq::<UserToken>::empty()
    } else if tokens[0].token@ == token {
        without_token(tokens.skip(1), token)
    } else {
        seq![tokens[0]] + without_token(tokens.skip(1), token)
    }
}

pub proof fn lemma_without_token_concat(a: Seq<UserToken>, b: Seq<UserToken>, token: Seq<u8>)
    ensures
        without_token(a + b, token) == without_token(a, token) + without_token(b, token),
    decreases a.len(),
{
    if a.len() == 0 {
        assert(a + b =~= b);
        assert(without_token(a, token) + without_token(b, token) =~= without_token(b, token));
    } else {
        assert((a + b)[0] == a[0]);
        assert((a + b).skip(1) =~= a.skip(1) + b);
        lemma_without_token_concat(a.skip(1), b, token);
        if a[0].token@ == token {
        } else {
            assert(seq![a[0]] + (without_token(a.skip(1), token) + without_token(b, token)) =~= (
            seq![a[0]] + without_token(a.skip(1), token)) + without_token(b, token));
        }
    }
}

/// After the removal no record carries the token: revocation is final.
pub proof fn lemma_without_token_revokes(tokens: Seq<UserToken>, token: Seq<u8>, user_id: u128)
    ensures
        !has_pair(without_token(tokens, token), user_id, token),
        forall|i: int|
            0 <= i < without_token(tokens, token).len() ==> (#[trigger] without_token(
                tokens,
                token,
            )[i]).token@ != token,
    decreases tokens.len(),
{
    if tokens.len() > 0 {
        lemma_without_token_revokes(tokens.skip(1), token, user_id);
        if tokens[0].token@ != token {
            assert(forall|i: int|
                1 <= i < without_token(tokens, token).len() ==> without_token(tokens, token)[i]
                    == without_token(tokens.skip(1), token)[i - 1]);
        }
    }
}

impl UserToken {
    /// Persists a session record. The referenced user must exist and the
    /// `(user, token)` pair must be fresh; the failures mirror the store's
    /// foreign-key and unique-key constraints.
    pub fn insert(
        tokens: &mut Vec<UserToken>,
        incoming: UserToken,
        users: &Vec<User>,
    ) -> (r: Result<UserToken, MyError>)
        ensures
            match r {
                Ok(rec) => {
                    &&& has_user_id(users@, incoming.user_id)
                    &&& !has_pair(old(tokens)@, incoming.user_id, incoming.token@)
                    &&& final(tokens)@ == old(tokens)@.push(incoming)
                    &&& rec.model() == incoming.model()
                },
                Err(e) => {
                    &&& final(tokens)@ == old(tokens)@
                    &&& (if !has_user_id(users@, incoming.user_id) {
                        e == MyError::NotFoundError
                    } else {
                        e == MyError::StorageError && has_pair(
                            old(tokens)@,
                            incoming.user_id,
                            incoming.token@,
                        )
                    })
                },
            },
    {
        let mut k: usize = 0;
        let mut user_found = false;
        while k < users.len()
            invariant
                0 <= k <= users@.len(),
                tokens@ == old(tokens)@,
                user_found ==> has_user_id(users@, incoming.user_id),
                !user_found ==> forall|j: int|
                    0 <= j < k ==> (#[trigger] users@[j]).id != incoming.user_id,
            decreases users@.len() - k,
        {
            if users[k].id == incoming.user_id {
                user_found = true;
                proof {
                    assert(users@[k as int].id == incoming.user_id);
                }
            }
            k += 1;
        }
        if !user_found {
            return Err(MyError::NotFoundError);
        }
        let mut t: usize = 0;
        while t < tokens.len()
            invariant
                0 <= t <= tokens@.len(),
                tokens@ == old(tokens)@,
                has_user_id(users@, incoming.user_id),
                forall|j: int|
                    0 <= j < t ==> !((#[trigger] tokens@[j]).user_id == incoming.user_id
                        && tokens@[j].token@ == incoming.token@),
            decreases tokens@.len() - t,
        {
            if tokens[t].user_id == incoming.user_id && bytes_eq(&tokens[t].token, &incoming.token)
            {
                return Err(MyError::StorageError);
            }
            t += 1;
        }
        let rec = incoming.clone();
        tokens.push(incoming);
        Ok(rec)
    }

    /// Finds the record for an exact `(token, user)` pair; the not-found
    /// failure exactly when no record carries the pair. Whether the record is
    /// still live against its own expiry is the caller's separate check.
    pub fn find_by_token(
        tokens: &Vec<UserToken>,
        incoming_token: &Vec<u8>,
        incoming_user_id: u128,
    ) -> (r: Result<UserToken, SessionError>)
        ensures
            match r {
                Ok(rec) => exists|i: int|
                    #[trigger] first_pair_match(tokens@, incoming_user_id, incoming_token@, i)
                        && rec.model() == tokens@[i].model(),
                Err(e) => {
                    &&& e == SessionError::SessionNotFound
                    &&& !has_pair(tokens@, incoming_user_id, incoming_token@)
                },
            },
    {
        let mut k: usize = 0;
        while k < tokens.len()
            invariant
                0 <= k <= tokens@.len(),
                forall|j: int|
                    0 <= j < k ==> !((#[trigger] tokens@[j]).user_id == incoming_user_id
                        && tokens@[j].token@ == incoming_token@),
            decreases tokens@.len() - k,
        {
            if tokens[k].user_id == incoming_user_id && bytes_eq(&tokens[k].token, incoming_token) {
                let rec = tokens[k].clone();
                proof {
                    assert(first_pair_match(tokens@, incoming_user_id, incoming_token@, k as int));
                }
                return Ok(rec);
            }
            k += 1;
        }
        Err(SessionError::SessionNotFound)
    }

    /// Finds the live record for an exact `(token, user)` pair: not-found
    /// when no record carries the pair, and expired when the first matching
    /// record's own authoritative expiry has passed - whatever expiry the
    /// token text itself claims.
    pub fn find_live(
        tokens: &Vec<UserToken>,
        incoming_token: &Vec<u8>,
        incoming_user_id: u128,
        now: u64,
    ) -> (r: Result<UserToken, SessionError>)
        ensures
            match r {
                Ok(rec) => exists|i: int|
                    #[trigger] first_pair_match(tokens@, incoming_user_id, incoming_token@, i)
                        && rec.model() == tokens@[i].model() && now < tokens@[i].expires_at,
                Err(e) => {
                    if !has_pair(tokens@, incoming_user_id, incoming_token@) {
                        e == SessionError::SessionNotFound
                    } else {
                        e == SessionError::SessionExpired && exists|i: int|
                            #[trigger] first_pair_match(
                                tokens@,
                                incoming_user_id,
                                incoming_token@,
                                i,
                            ) && now >= tokens@[i].expires_at
                    }
                },
            },
    {
        let rec = match UserToken::find_by_token(tokens, incoming_token, incoming_user_id) {
            Ok(rec) => rec,
            Err(e) => {
                return Err(e);
            },
        };
        if rec.expires_at <= now {
            return Err(SessionError::SessionExpired);
        }
        Ok(rec)
    }

    /// Deletes every record carrying the token. Idempotent: deleting an
    /// absent token succeeds, so a logout is safe to retry.
    pub fn delete(tokens: &mut Vec<UserToken>, incoming_token: &Vec<u8>) -> (r: Result<
        (),
        MyError,
    >)
        ensures
            final(tokens)@ == without_token(old(tokens)@, incoming_token@),
            r == Ok::<(), MyError>(()),
    {
        let ghost orig = old(tokens)@;
        let mut i: usize = 0;
        proof {
            assert(tokens.len() == tokens@.len());
            assert(orig.len() <= usize::MAX);
            assert(orig.take(0) =~= Seq::<UserToken>::empty());
            assert(tokens@ =~= without_token(orig.take(0), incoming_token@) + orig.skip(0));
        }
        let mut jj: usize = 0;
        while i < tokens.len()
            invariant
                0 <= jj as int <= orig.len(),
                orig.len() <= usize::MAX,
                i as int == without_token(orig.take(jj as int), incoming_token@).len(),
                tokens@ == without_token(orig.take(jj as int), incoming_token@) + orig.skip(
                    jj as int,
                ),
            decreases orig.len() - jj,
        {
            let ghost jo = jj as int;
            proof {
                assert(orig.skip(jo).len() > 0);
                assert(tokens@[i as int] == orig.skip(jo)[0]);
                assert(orig.skip(jo)[0] == orig[jo]);
                assert(orig.take(jo + 1) =~= orig.take(jo).push(orig[jo]));
                lemma_without_token_concat(orig.take(jo), seq![orig[jo]], incoming_token@);
                assert(orig.take(jo).push(orig[jo]) =~= orig.take(jo) + seq![orig[jo]]);
                assert(seq![orig[jo]].skip(1) =~= Seq::<UserToken>::empty());
            }
            if bytes_eq(&tokens[i].token, incoming_token) {
                proof {
                    assert(orig[jo].token@ == incoming_token@);
                }
                let _removed = tokens.remove(i);
                proof {
                    assert(without_token(Seq::<UserToken>::empty(), incoming_token@)
                        =~= Seq::<UserToken>::empty());
                    assert(seq![orig[jo]].skip(1) == Seq::<UserToken>::empty());
                    assert(without_token(seq![orig[jo]], incoming_token@)
                        =~= Seq::<UserToken>::empty());
                    assert(tokens@ =~= without_token(orig.take(jo + 1), incoming_token@)
                        + orig.skip(jo + 1));
                }
            } else {
                proof {
                    assert(orig[jo].token@ != incoming_token@);
                    assert(without_token(Seq::<UserToken>::empty(), incoming_token@)
                        =~= Seq::<UserToken>::empty());
                    assert(seq![orig[jo]].skip(1) == Seq::<UserToken>::empty());
                    assert(without_token(seq![orig[jo]], incoming_token@) =~= seq![orig[jo]]);
                    assert(tokens@ =~= without_token(orig.take(jo + 1), incoming_token@)
                        + orig.skip(jo + 1));
                }
                i += 1;
            }
            jj += 1;
        }
        proof {
            assert(orig.skip(jj as int).len() == 0);
            assert(jj as int == orig.len());
            assert(orig.take(jj as int) =~= orig);
            assert(tokens@ =~= without_token(orig, incoming_token@));
        }
        Ok(())
    }
}

// ---------------------------------------------------------------------------
// The recovery registry
// ---------------------------------------------------------------------------

/// Some record carries this reset token.
pub open spec fn has_reset_token(resets: Seq<Reset>, token: Seq<char>) -> bool {
    exists|i: int| 0 <= i < resets.len() && (#[trigger] resets[i]).token@ == token
}

/// `i` is the first position whose record carries this reset token.
pub open spec fn first_reset_match(resets: Seq<Reset>, token: Seq<char>, i: int) -> bool {
    &&& 0 <= i < resets.len()
    &&& resets[i].token@ == token
    &&& forall|j: int| 0 <= j < i ==> (#[trigger] resets[j]).token@ != token
}

/// The registry without the records that carry this token, order kept.
pub open spec fn without_reset_token(resets: Seq<Reset>, token: Seq<char>) -> Seq<Reset>
    decreases resets.len(),
{
    if resets.len() == 0 {
        Seq::<Reset>::empty()
    } else if resets[0].token@ == token {
        without_reset_token(resets.skip(1), token)
    } else {
        seq![resets[0]] + without_reset_token(resets.skip(1), token)
    }
}

/// The registry without the records that carry this email, order kept.
pub open spec fn without_reset_email(resets: Seq<Reset>, email: Seq<char>) -> Seq<Reset>
    decreases resets.len(),
{
    if resets.len() == 0 {
        Seq::<Reset>::empty()
    } else if resets[0].email@ == email {
        without_reset_email(resets.skip(1), email)
    } else {
        seq![resets[0]] + without_reset_email(resets.skip(1), email)
    }
}

pub proof fn lemma_without_reset_token_concat(a: Seq<Reset>, b: Seq<Reset>, token: Seq<char>)
    ensures
        without_reset_token(a + b, token) == without_reset_token(a, token) + without_reset_token(
            b,
            token,
        ),
    decreases a.len(),
{
    if a.len() == 0 {
        assert(a + b =~= b);
        assert(without_reset_token(a, token) + without_reset_token(b, token)
            =~= without_reset_token(b, token));
    } else {
        assert((a + b)[0] == a[0]);
        assert((a + b).skip(1) =~= a.skip(1) + b);
        lemma_without_reset_token_concat(a.skip(1), b, token);
        if a[0].token@ == token {
        } else {
            assert(seq![a[0]] + (without_reset_token(a.skip(1), token) + without_reset_token(
                b,
                token,
            )) =~= (seq![a[0]] + without_reset_token(a.skip(1), token)) + without_reset_token(
                b,
                token,
            ));
        }
    }
}

pub proof fn lemma_without_reset_email_concat(a: Seq<Reset>, b: Seq<Reset>, email: Seq<char>)
    ensures
        without_reset_email(a + b, email) == without_reset_email(a, email) + without_reset_email(
            b,
            email,
        ),
    decreases a.len(),
{
    if a.len() == 0 {
        assert(a + b =~= b);
        assert(without_reset_email(a, email) + without_reset_email(b, email)
            =~= without_reset_email(b, email));
    } else {
        assert((a + b)[0] == a[0]);
        assert((a + b).skip(1) =~= a.skip(1) + b);
        lemma_without_reset_email_concat(a.skip(1), b, email);
        if a[0].email@ == email {
        } else {
            assert(seq![a[0]] + (without_reset_email(a.skip(1), email) + without_reset_email(
                b,
                email,
            )) =~= (seq![a[0]] + without_reset_email(a.skip(1), email)) + without_reset_email(
                b,
                email,
            ));
        }
    }
}

/// After the removal no record carries the token: a consumed reset token is
/// gone for good.
pub proof fn lemma_without_reset_token_consumes(resets: Seq<Reset>, token: Seq<char>)
    ensures
        !has_reset_token(without_reset_token(resets, token), token),
    decreases resets.len(),
{
    if resets.len() > 0 {
        lemma_without_reset_token_consumes(resets.skip(1), token);
        if resets[0].token@ != token {
            assert(forall|i: int|
                1 <= i < without_reset_token(resets, token).len() ==> (#[trigger]
                without_reset_token(resets, token)[i]) == without_reset_token(
                    resets.skip(1),
                    token,
                )[i - 1]);
        }
    }
}

impl Reset {
    /// Persists a recovery record for the email. A newly issued token
    /// supersedes the email's earlier ones, which are dropped; the failure
    /// mirrors the store's unique-key constraint on the token itself.
    pub fn insert(
        resets: &mut Vec<Reset>,
        incoming_email: String,
        incoming_token: String,
    ) -> (r: Result<Reset, MyError>)
        ensures
            match r {
                Ok(rec) => {
                    &&& !has_reset_token(old(resets)@, incoming_token@)
                    &&& final(resets)@ == without_reset_email(old(resets)@, incoming_email@).push(
                        (Reset { token: incoming_token, email: incoming_email }),
                    )
                    &&& rec.token@ == incoming_token@
                    &&& rec.email@ == incoming_email@
                },
                Err(e) => {
                    &&& final(resets)@ == old(resets)@
                    &&& e == MyError::StorageError
                    &&& has_reset_token(old(resets)@, incoming_token@)
                },
            },
    {
        let mut k: usize = 0;
        while k < resets.len()
            invariant
                0 <= k <= resets@.len(),
                resets@ == old(resets)@,
                forall|j: int| 0 <= j < k ==> (#[trigger] resets@[j]).token@ != incoming_token@,
            decreases resets@.len() - k,
        {
            if resets[k].token == incoming_token {
                return Err(MyError::StorageError);
            }
            k += 1;
        }
        let ghost orig = resets@;
        let mut i: usize = 0;
        let mut jj: usize = 0;
        proof {
            assert(resets.len() == resets@.len());
            assert(orig.len() <= usize::MAX);
            assert(orig.take(0) =~= Seq::<Reset>::empty());
            assert(resets@ =~= without_reset_email(orig.take(0), incoming_email@) + orig.skip(0));
        }
        while i < resets.len()
            invariant
                0 <= jj as int <= orig.len(),
                orig.len() <= usize::MAX,
                i as int == without_reset_email(orig.take(jj as int), incoming_email@).len(),
                resets@ == without_reset_email(orig.take(jj as int), incoming_email@) + orig.skip(
                    jj as int,
                ),
            decreases orig.len() - jj,
        {
            let ghost jo = jj as int;
            proof {
                assert(orig.skip(jo).len() > 0);
                assert(resets@[i as int] == orig.skip(jo)[0]);
                assert(orig.skip(jo)[0] == orig[jo]);
                assert(orig.take(jo + 1) =~= orig.take(jo).push(orig[jo]));
                lemma_without_reset_email_concat(orig.take(jo), seq![orig[jo]], incoming_email@);
                assert(orig.take(jo).push(orig[jo]) =~= orig.take(jo) + seq![orig[jo]]);
                assert(seq![orig[jo]].skip(1) =~= Seq::<Reset>::empty());
            }
            if resets[i].email == incoming_email {
                proof {
                    assert(orig[jo].email@ == incoming_email@);
                }
                let _removed = resets.remove(i);
                proof {
                    assert(without_reset_email(Seq::<Reset>::empty(), incoming_email@)
                        =~= Seq::<Reset>::empty());
                    assert(seq![orig[jo]].skip(1) == Seq::<Reset>::empty());
                    assert(without_reset_email(seq![orig[jo]], incoming_email@)
                        =~= Seq::<Reset>::empty());
                    assert(resets@ =~= without_reset_email(orig.take(jo + 1), incoming_email@)
                        + orig.skip(jo + 1));
                }
            } else {
                proof {
                    assert(orig[jo].email@ != incoming_email@);
                    assert(without_reset_email(Seq::<Reset>::empty(), incoming_email@)
                        =~= Seq::<Reset>::empty());
                    assert(seq![orig[jo]].skip(1) == Seq::<Reset>::empty());
                    assert(without_reset_email(seq![orig[jo]], incoming_email@)
                        =~= seq![orig[jo]]);
                    assert(resets@ =~= without_reset_email(orig.take(jo + 1), incoming_email@)
                        + orig.skip(jo + 1));
                }
                i += 1;
            }
            jj += 1;
        }
        proof {
            assert(orig.skip(jj as int).len() == 0);
            assert(jj as int == orig.len());
            assert(orig.take(jj as int) =~= orig);
            assert(resets@ =~= without_reset_email(orig, incoming_email@));
        }
        let rec = Reset { token: incoming_token.clone(), email: incoming_email.clone() };
        resets.push(Reset { token: incoming_token, email: incoming_email });
        Ok(rec)
    }

    /// Finds the record carrying a reset token without consuming it; the
    /// not-found failure exactly when no record carries the token.
    pub fn find_by_token(resets: &Vec<Reset>, incoming_token: &String) -> (r: Result<
        Reset,
        RecoveryError,
    >)
        ensures
            match r {
                Ok(rec) => exists|i: int|
                    #[trigger] first_reset_match(resets@, incoming_token@, i) && rec == resets@[i],
                Err(e) => {
                    &&& e == RecoveryError::ResetTokenNotFound
                    &&& !has_reset_token(resets@, incoming_token@)
                },
            },
    {
        let mut k: usize = 0;
        while k < resets.len()
            invariant
                0 <= k <= resets@.len(),
                forall|j: int| 0 <= j < k ==> (#[trigger] resets@[j]).token@ != incoming_token@,
            decreases resets@.len() - k,
        {
            if resets[k].token == *incoming_token {
                let rec = resets[k].clone();
                proof {
                    assert(first_reset_match(resets@, incoming_token@, k as int));
                }
                return Ok(rec);
            }
            k += 1;
        }
        Err(RecoveryError::ResetTokenNotFound)
    }

    /// Takes the record carrying a reset token out of the registry, atomically
    /// with the lookup: a token consumed once is not found a second time.
    pub fn consume(resets: &mut Vec<Reset>, incoming_token: &String) -> (r: Result<
        Reset,
        RecoveryError,
    >)
        ensures
            match r {
                Ok(rec) => {
                    &&& has_reset_token(old(resets)@, incoming_token@)
                    &&& rec.token@ == incoming_token@
                    &&& exists|i: int|
                        #[trigger] first_reset_match(old(resets)@, incoming_token@, i) && rec
                            == old(resets)@[i]
                    &&& final(resets)@ == without_reset_token(old(resets)@, incoming_token@)
                    &&& !has_reset_token(final(resets)@, incoming_token@)
                },
                Err(e) => {
                    &&& e == RecoveryError::ResetTokenNotFound
                    &&& !has_reset_token(old(resets)@, incoming_token@)
                    &&& final(resets)@ == old(resets)@
                },
            },
    {
        let found = match Reset::find_by_token(resets, incoming_token) {
            Ok(rec) => rec,
            Err(e) => {
                return Err(e);
            },
        };
        let ghost orig = resets@;
        let mut i: usize = 0;
        let mut jj: usize = 0;
        proof {
            assert(resets.len() == resets@.len());
            assert(orig.len() <= usize::MAX);
            assert(orig.take(0) =~= Seq::<Reset>::empty());
            assert(resets@ =~= without_reset_token(orig.take(0), incoming_token@) + orig.skip(0));
        }
        while i < resets.len()
            invariant
                0 <= jj as int <= orig.len(),
                orig.len() <= usize::MAX,
                i as int == without_reset_token(orig.take(jj as int), incoming_token@).len(),
                resets@ == without_reset_token(orig.take(jj as int), incoming_token@) + orig.skip(
                    jj as int,
                ),
            decreases orig.len() - jj,
        {
            let ghost jo = jj as int;
            proof {
                assert(orig.skip(jo).len() > 0);
                assert(resets@[i as int] == orig.skip(jo)[0]);
                assert(orig.skip(jo)[0] == orig[jo]);
                assert(orig.take(jo + 1) =~= orig.take(jo).push(orig[jo]));
                lemma_without_reset_token_concat(orig.take(jo), seq![orig[jo]], incoming_token@);
                assert(orig.take(jo).push(orig[jo]) =~= orig.take(jo) + seq![orig[jo]]);
                assert(seq![orig[jo]].skip(1) =~= Seq::<Reset>::empty());
            }
            if resets[i].token == *incoming_token {
                proof {
                    assert(orig[jo].token@ == incoming_token@);
                }
                let _removed = resets.remove(i);
                proof {
                    assert(without_reset_token(Seq::<Reset>::empty(), incoming_token@)
                        =~= Seq::<Reset>::empty());
                    assert(seq![orig[jo]].skip(1) == Seq::<Reset>::empty());
                    assert(without_reset_token(seq![orig[jo]], incoming_token@)
                        =~= Seq::<Reset>::empty());
                    assert(resets@ =~= without_reset_token(orig.take(jo + 1), incoming_token@)
                        + orig.skip(jo + 1));
                }
            } else {
                proof {
                    assert(orig[jo].token@ != incoming_token@);
                    assert(without_reset_token(Seq::<Reset>::empty(), incoming_token@)
                        =~= Seq::<Reset>::empty());
                    assert(seq![orig[jo]].skip(1) == Seq::<Reset>::empty());
                    assert(without_reset_token(seq![orig[jo]], incoming_token@)
                        =~= seq![orig[jo]]);
                    assert(resets@ =~= without_reset_token(orig.take(jo + 1), incoming_token@)
                        + orig.skip(jo + 1));
                }
                i += 1;
            }
            jj += 1;
        }
        proof {
            assert(orig.skip(jj as int).len() == 0);
            assert(jj as int == orig.len());
            assert(orig.take(jj as int) =~= orig);
            assert(resets@ =~= without_reset_token(orig, incoming_token@));
            lemma_without_reset_token_consumes(orig, incoming_token@);
        }
        Ok(found)
    }
}

} // verus!
