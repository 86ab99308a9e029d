use vstd::prelude::*;

use crate::auth::{get_auth_from_header, issued_claims, parse_bearer, token_spec, validate_spec, TokenConfig};
use crate::crypto::bcrypt_check;
use crate::engine::{
    first_email_match, first_pair_match, first_reset_match, has_email, has_pair, has_reset_token,
    has_user_id, lemma_email_has_first_match, users_wf, without_reset_email, without_reset_token,
    without_token,
};
use crate::entity::general::TokenResponse;
use crate::entity::user::{
    ForgotRequest, Reset, ResetRequest, User, UserDTO, UserLoginRequest, UserRegisterationRequest,
    UserToken,
};
use crate::error::MyError;

verus! {

/// The whole engine's state: the injected token configuration and cost
/// factor, and the three durable stores.
pub struct AuthState {
    pub config: TokenConfig,
    pub hash_cost: u32,
    pub users: Vec<User>,
    pub tokens: Vec<UserToken>,
    pub resets: Vec<Reset>,
}

impl AuthState {
    pub open spec fn wf(self) -> bool {
        &&& self.config.wf()
        &&& 4 <= self.hash_cost <= 31
        &&& users_wf(self.users@)
    }
}

/// Registers an account: the password must match its confirmation, the id
/// must be fresh, and the stored record carries a hash of the password.
pub fn register(state: &mut AuthState, data: UserRegisterationRequest, id: u128) -> (r: Result<
    UserDTO,
    MyError,
>)
    requires
        old(state).wf(),
    ensures
        final(state).wf(),
        final(state).config == old(state).config,
        final(state).hash_cost == old(state).hash_cost,
        final(state).tokens == old(state).tokens,
        final(state).resets == old(state).resets,
        data.password@ != data.password_confirm@ ==> r == Err::<UserDTO, MyError>(
            MyError::ValidationError,
        ) && final(state).users@ == old(state).users@,
        has_user_id(old(state).users@, id) ==> r is Err,
        match r {
            Ok(dto) => {
                &&& data.password@ == data.password_confirm@
                &&& !has_user_id(old(state).users@, id)
                &&& final(state).users@.len() == old(state).users@.len() + 1
                &&& final(state).users@.take(old(state).users@.len() as int) == old(state).users@
                &&& final(state).users@.last().id == id
                &&& final(state).users@.last().first_name@ == data.first_name@
                &&& final(state).users@.last().last_name@ == data.last_name@
                &&& final(state).users@.last().email@ == data.email@
                &&& bcrypt_check(data.password@, final(state).users@.last().password@) == Some(
                    true,
                )
                &&& dto == final(state).users@.last().dto_spec()
            },
            Err(e) => {
                &&& final(state).users@ == old(state).users@
                &&& (e == MyError::ValidationError || e == MyError::StorageError)
                &&& (e == MyError::ValidationError <==> data.password@ != data.password_confirm@)
            },
        },
{
    if !(data.password == data.password_confirm) {
        return Err(MyError::ValidationError);
    }
    let cost = state.hash_cost;
    User::insert(&mut state.users, data, id, cost)
}

/// Proves identity and opens a session: issues an access token and a refresh
/// token stamped at the single instant `now`, and persists the session record
/// before anything is handed out. A failure to persist returns an error, so
/// no token the caller sees is unknown to the registry.
pub fn login(state: &mut AuthState, data: UserLoginRequest, now: u64) -> (r: Result<
    (TokenResponse<Vec<u8>>, Vec<u8>),
    MyError,
>)
    requires
        old(state).wf(),
        now + old(state).config.access_ttl <= u64::MAX,
        now + old(state).config.refresh_ttl <= u64::MAX,
    ensures
        final(state).wf(),
        final(state).config == old(state).config,
        final(state).hash_cost == old(state).hash_cost,
        final(state).users == old(state).users,
        final(state).resets == old(state).resets,
        match r {
            Ok(p) => exists|i: int|
                {
                    &&& #[trigger] first_email_match(old(state).users@, data.email@, i)
                    &&& bcrypt_check(data.password@, old(state).users@[i].password@) == Some(true)
                    &&& p.0.token@ == token_spec(
                        old(state).config.access_secret@,
                        issued_claims(old(state).users@[i].id, now, old(state).config.access_ttl),
                    )
                    &&& p.1@ == token_spec(
                        old(state).config.refresh_secret@,
                        issued_claims(old(state).users@[i].id, now, old(state).config.refresh_ttl),
                    )
                    &&& !has_pair(old(state).tokens@, old(state).users@[i].id, p.1@)
                    &&& final(state).tokens@.len() == old(state).tokens@.len() + 1
                    &&& final(state).tokens@.take(old(state).tokens@.len() as int) == old(
                        state,
                    ).tokens@
                    &&& final(state).tokens@.last().model() == (
                        old(state).users@[i].id,
                        p.1@,
                        now,
                        (now + old(state).config.refresh_ttl) as u64,
                    )
                },
            Err(e) => {
                &&& final(state).tokens@ == old(state).tokens@
                &&& (e == MyError::AuthenticationError || e == MyError::StorageError)
                &&& (e == MyError::AuthenticationError <==> (forall|i: int|
                    #[trigger] first_email_match(old(state).users@, data.email@, i)
                        ==> bcrypt_check(data.password@, old(state).users@[i].password@) != Some(
                        true,
                    )))
                &&& (e == MyError::StorageError ==> exists|i: int|
                    {
                        &&& #[trigger] first_email_match(old(state).users@, data.email@, i)
                        &&& bcrypt_check(data.password@, old(state).users@[i].password@) == Some(
                            true,
                        )
                        &&& has_pair(
                            old(state).tokens@,
                            old(state).users@[i].id,
                            token_spec(
                                old(state).config.refresh_secret@,
                                issued_claims(
                                    old(state).users@[i].id,
                                    now,
                                    old(state).config.refresh_ttl,
                                ),
                            ),
                        )
                    })
            },
        },
{
    let user = match User::authenticate_by_email(&state.users, &data.email, &data.password) {
        Ok(u) => u,
        Err(_) => {
            return Err(MyError::AuthenticationError);
        },
    };
    let user_id = user.id;
    let access_token = state.config.generate_access_token(user_id, now);
    let refresh_token = state.config.generate_refresh_token(user_id, now);
    let user_token = UserToken {
        user_id,
        token: refresh_token,
        created_at: now,
        expires_at: now + state.config.refresh_ttl,
    };
    let rec = match UserToken::insert(&mut state.tokens, user_token, &state.users) {
        Ok(rec) => rec,
        Err(_) => {
            proof {
                let i = choose|i: int|
                    #[trigger] first_email_match(old(state).users@, data.email@, i) && user == old(
                        state,
                    ).users@[i] && bcrypt_check(data.password@, old(state).users@[i].password@)
                        == Some(true);
                assert(old(state).users@[i].id == user_id);
                assert(has_user_id(old(state).users@, user_id));
            }
            return Err(MyError::StorageError);
        },
    };
    proof {
        let i = choose|i: int|
            #[trigger] first_email_match(old(state).users@, data.email@, i) && user == old(
                state,
            ).users@[i] && bcrypt_check(data.password@, old(state).users@[i].password@) == Some(
                true,
            );
        assert(final(state).tokens@.take(old(state).tokens@.len() as int) =~= old(state).tokens@);
    }
    Ok((TokenResponse { token: access_token }, rec.token))
}

/// Serves an authenticated profile request: reads the bearer token from the
/// Authorization header, validates it against the access namespace at `now`,
/// and returns the subject's profile. Every token failure is the uniform
/// authentication failure; an unknown subject is not-found.
pub fn get_user(state: &AuthState, authorization: Option<&Vec<u8>>, now: u64) -> (r: Result<
    UserDTO,
    MyError,
>)
    ensures
        match authorization {
            None => r == Err::<UserDTO, MyError>(MyError::AuthenticationError),
            Some(h) => match parse_bearer(h@) {
                None => r == Err::<UserDTO, MyError>(MyError::AuthenticationError),
                Some(t) => match validate_spec(state.config.access_secret@, t, now) {
                    Ok(uid) => match r {
                        Ok(dto) => exists|i: int|
                            0 <= i < state.users@.len() && (#[trigger] state.users@[i]).id == uid
                                && dto == state.users@[i].dto_spec() && (forall|j: int|
                                0 <= j < i ==> (#[trigger] state.users@[j]).id != uid),
                        Err(e) => {
                            &&& e == MyError::NotFoundError
                            &&& !has_user_id(state.users@, uid)
                        },
                    },
                    Err(_) => r == Err::<UserDTO, MyError>(MyError::AuthenticationError),
                },
            },
        },
{
    let header = match authorization {
        Some(h) => h,
        None => {
            return Err(MyError::AuthenticationError);
        },
    };
    let token = match get_auth_from_header(header) {
        Ok(t) => t,
        Err(_) => {
            return Err(MyError::AuthenticationError);
        },
    };
    let user_id = match state.config.decode_access_token(&token, now) {
        Ok(u) => u,
        Err(_) => {
            return Err(MyError::AuthenticationError);
        },
    };
    User::find_by_id(&state.users, user_id)
}

/// Renews an access token from a refresh cookie. The token must verify under
/// the refresh namespace and be unexpired, the subject must exist, and the
/// registry must still hold a live record for the exact `(user, token)` pair:
/// the record's own expiry is authoritative, so a revoked or expired session
/// refuses renewal even while the token itself is still valid.
pub fn refresh(state: &AuthState, cookie: Option<&Vec<u8>>, now: u64) -> (r: Result<
    TokenResponse<Vec<u8>>,
    MyError,
>)
    requires
        state.wf(),
        now + state.config.access_ttl <= u64::MAX,
    ensures
        match cookie {
            None => r == Err::<TokenResponse<Vec<u8>>, MyError>(MyError::AuthenticationError),
            Some(ck) => match validate_spec(state.config.refresh_secret@, ck@, now) {
                Err(_) => r == Err::<TokenResponse<Vec<u8>>, MyError>(
                    MyError::AuthenticationError,
                ),
                Ok(uid) => {
                    if !has_user_id(state.users@, uid) {
                        r == Err::<TokenResponse<Vec<u8>>, MyError>(MyError::NotFoundError)
                    } else if !has_pair(state.tokens@, uid, ck@) {
                        r == Err::<TokenResponse<Vec<u8>>, MyError>(MyError::AuthenticationError)
                    } else {
                        exists|i: int|
                            #[trigger] first_pair_match(state.tokens@, uid, ck@, i) && (if now
                                < state.tokens@[i].expires_at {
                                match r {
                                    Ok(resp) => resp.token@ == token_spec(
                                        state.config.access_secret@,
                                        issued_claims(uid, now, state.config.access_ttl),
                                    ),
                                    Err(_) => false,
                                }
                            } else {
                                r == Err::<TokenResponse<Vec<u8>>, MyError>(
                                    MyError::AuthenticationError,
                                )
                            })
                    }
                },
            },
        },
{
    let refresh_token = match cookie {
        Some(c) => c,
        None => {
            return Err(MyError::AuthenticationError);
        },
    };
    let user_id = match state.config.decode_refresh_token(refresh_token, now) {
        Ok(u) => u,
        Err(_) => {
            return Err(MyError::AuthenticationError);
        },
    };
    let user = match User::find_by_id(&state.users, user_id) {
        Ok(u) => u,
        Err(_) => {
            return Err(MyError::NotFoundError);
        },
    };
    let _live = match UserToken::find_live(&state.tokens, refresh_token, user_id, now) {
        Ok(t) => t,
        Err(_) => {
            return Err(MyError::AuthenticationError);
        },
    };
    let access_token = state.config.generate_access_token(user_id, now);
    Ok(TokenResponse { token: access_token })
}

/// Ends a session: deletes every record carrying the refresh token from the
/// cookie. Deleting is idempotent, so a repeated logout still succeeds; only
/// a missing cookie fails.
pub fn logout(state: &mut AuthState, cookie: Option<&Vec<u8>>) -> (r: Result<(), MyError>)
    requires
        old(state).wf(),
    ensures
        final(state).wf(),
        final(state).config == old(state).config,
        final(state).hash_cost == old(state).hash_cost,
        final(state).users == old(state).users,
        final(state).resets == old(state).resets,
        match cookie {
            None => r == Err::<(), MyError>(MyError::AuthenticationError) && final(state).tokens
                == old(state).tokens,
            Some(ck) => r == Ok::<(), MyError>(()) && final(state).tokens@ == without_token(
                old(state).tokens@,
                ck@,
            ),
        },
{
    let refresh_token = match cookie {
        Some(c) => c,
        None => {
            return Err(MyError::AuthenticationError);
        },
    };
    UserToken::delete(&mut state.tokens, refresh_token)
}

/// What a password-recovery request answers, as a function of the recovery
/// registry and the request alone: the user store plays no part in it.
pub open spec fn forgot_outcome(resets: Seq<Reset>, token: Seq<char>) -> Result<(), MyError> {
    if has_reset_token(resets, token) {
        Err(MyError::StorageError)
    } else {
        Ok(())
    }
}

/// Starts a password recovery: records the fresh token for the email,
/// superseding the email's earlier tokens. The answer does not depend on
/// whether the email belongs to a known account, so the endpoint reveals
/// nothing about which emails are registered; the mail dispatch is the
/// caller's fire-and-forget concern.
pub fn forgot(state: &mut AuthState, data: ForgotRequest, token: String) -> (r: Result<
    (),
    MyError,
>)
    requires
        old(state).wf(),
    ensures
        final(state).wf(),
        final(state).config == old(state).config,
        final(state).hash_cost == old(state).hash_cost,
        final(state).users == old(state).users,
        final(state).tokens == old(state).tokens,
        r == forgot_outcome(old(state).resets@, token@),
        match r {
            Ok(()) => final(state).resets@ == without_reset_email(
                old(state).resets@,
                data.email@,
            ).push((Reset { token, email: data.email })),
            Err(_) => final(state).resets@ == old(state).resets@,
        },
{
    match Reset::insert(&mut state.resets, data.email, token) {
        Ok(_) => Ok(()),
        Err(_) => Err(MyError::StorageError),
    }
}

/// A recovery request's answer is the same under any user store: registered
/// and unregistered emails are indistinguishable to the caller.
pub proof fn lemma_forgot_ignores_user_store(
    s1: AuthState,
    s2: AuthState,
    token: Seq<char>,
)
    requires
        s1.resets@ == s2.resets@,
    ensures
        forgot_outcome(s1.resets@, token) == forgot_outcome(s2.resets@, token),
{
}

/// Completes a password recovery: the new password must match its
/// confirmation, the reset token is consumed at lookup - a second use of the
/// same token is not-found - and the account carrying the record's email gets
/// a hash of the new password, so the new password authenticates from then
/// on.
pub fn reset(state: &mut AuthState, data: ResetRequest) -> (r: Result<(), MyError>)
    requires
        old(state).wf(),
    ensures
        final(state).wf(),
        final(state).config == old(state).config,
        final(state).hash_cost == old(state).hash_cost,
        final(state).tokens == old(state).tokens,
        data.password@ != data.password_confirm@ ==> r == Err::<(), MyError>(
            MyError::ValidationError,
        ) && final(state).users@ == old(state).users@ && final(state).resets@ == old(
            state,
        ).resets@,
        data.password@ == data.password_confirm@ && !has_reset_token(
            old(state).resets@,
            data.token@,
        ) ==> r == Err::<(), MyError>(MyError::NotFoundError) && final(state).resets@ == old(
            state,
        ).resets@,
        data.password@ == data.password_confirm@ && has_reset_token(
            old(state).resets@,
            data.token@,
        ) ==> final(state).resets@ == without_reset_token(old(state).resets@, data.token@),
        (data.password@ == data.password_confirm@ && exists|i: int|
            #[trigger] first_reset_match(old(state).resets@, data.token@, i) && has_email(
                old(state).users@,
                old(state).resets@[i].email@,
            )) ==> (r is Ok || r == Err::<(), MyError>(MyError::StorageError)),
        match r {
            Ok(()) => {
                &&& data.password@ == data.password_confirm@
                &&& has_reset_token(old(state).resets@, data.token@)
                &&& final(state).resets@ == without_reset_token(old(state).resets@, data.token@)
                &&& !has_reset_token(final(state).resets@, data.token@)
                &&& exists|i: int, k: int|
                    #![trigger old(state).resets@[i], final(state).users@[k]]
                    {
                        &&& 0 <= i < old(state).resets@.len()
                        &&& old(state).resets@[i].token@ == data.token@
                        &&& first_email_match(
                            old(state).users@,
                            old(state).resets@[i].email@,
                            k,
                        )
                        &&& first_email_match(
                            final(state).users@,
                            old(state).resets@[i].email@,
                            k,
                        )
                        &&& bcrypt_check(data.password@, final(state).users@[k].password@)
                            == Some(true)
                        &&& final(state).users@ =~= old(state).users@.update(
                            k,
                            final(state).users@[k],
                        )
                        &&& final(state).users@[k].id == old(state).users@[k].id
                        &&& final(state).users@[k].email@ == old(state).users@[k].email@
                    }
            },
            Err(e) => {
                &&& final(state).users@ == old(state).users@
                &&& (e == MyError::ValidationError || e == MyError::NotFoundError || e
                    == MyError::StorageError)
                &&& (e == MyError::ValidationError <==> data.password@ != data.password_confirm@)
                &&& (e == MyError::NotFoundError ==> (!has_reset_token(
                    old(state).resets@,
                    data.token@,
                ) || exists|i: int|
                    #[trigger] first_reset_match(old(state).resets@, data.token@, i) && !has_email(
                        old(state).users@,
                        old(state).resets@[i].email@,
                    )))
                &&& (!has_reset_token(old(state).resets@, data.token@) ==> final(state).resets@
                    == old(state).resets@)
            },
        },
{
    if !(data.password == data.password_confirm) {
        return Err(MyError::ValidationError);
    }
    let reset_rec = match Reset::consume(&mut state.resets, &data.token) {
        Ok(rec) => rec,
        Err(_) => {
            proof {
                if exists|i: int|
                    #[trigger] first_reset_match(old(state).resets@, data.token@, i) {
                    let i = choose|i: int|
                        #[trigger] first_reset_match(old(state).resets@, data.token@, i);
                    assert(old(state).resets@[i].token@ == data.token@);
                    assert(has_reset_token(old(state).resets@, data.token@));
                }
            }
            return Err(MyError::NotFoundError);
        },
    };
    let user = match User::find_by_email(&state.users, &reset_rec.email) {
        Ok(u) => u,
        Err(_) => {
            proof {
                let i = choose|i: int|
                    #[trigger] first_reset_match(old(state).resets@, data.token@, i) && reset_rec
                        == old(state).resets@[i];
                assert(reset_rec.email@ == old(state).resets@[i].email@);
                assert forall|m: int| 0 <= m < old(state).users@.len() implies (#[trigger] old(
                    state,
                ).users@[m]).email@ != old(state).resets@[i].email@ by {
                    if old(state).users@[m].email@ == old(state).resets@[i].email@ {
                        lemma_email_has_first_match(
                            old(state).users@,
                            old(state).resets@[i].email@,
                            m,
                        );
                    }
                }
                assert(!has_email(old(state).users@, old(state).resets@[i].email@));
                if exists|t: int|
                    #[trigger] first_reset_match(old(state).resets@, data.token@, t) && has_email(
                        old(state).users@,
                        old(state).resets@[t].email@,
                    ) {
                    let t = choose|t: int|
                        #[trigger] first_reset_match(old(state).resets@, data.token@, t)
                            && has_email(old(state).users@, old(state).resets@[t].email@);
                    if t < i {
                        assert(old(state).resets@[t].token@ != data.token@);
                    } else if i < t {
                        assert(old(state).resets@[i].token@ != data.token@);
                    }
                    assert(t == i);
                }
            }
            return Err(MyError::NotFoundError);
        },
    };
    let user_id = user.id;
    let cost = state.hash_cost;
    let outcome = User::update_password(&mut state.users, user_id, &data.password, cost);
    match outcome {
        Ok(()) => {
            proof {
                let i = choose|i: int|
                    0 <= i < old(state).resets@.len() && (#[trigger] old(state).resets@[i]).token@
                        == data.token@ && reset_rec == old(state).resets@[i] && (forall|j: int|
                        0 <= j < i ==> (#[trigger] old(state).resets@[j]).token@ != data.token@);
                let k = choose|k: int|
                    #[trigger] first_email_match(old(state).users@, reset_rec.email@, k) && user
                        == old(state).users@[k];
                let m = choose|m: int|
                    {
                        &&& 0 <= m < old(state).users@.len()
                        &&& (#[trigger] old(state).users@[m]).id == user_id
                        &&& final(state).users@ =~= old(state).users@.update(
                            m,
                            final(state).users@[m],
                        )
                        &&& final(state).users@[m].id == old(state).users@[m].id
                        &&& final(state).users@[m].first_name@ == old(state).users@[m].first_name@
                        &&& final(state).users@[m].last_name@ == old(state).users@[m].last_name@
                        &&& final(state).users@[m].email@ == old(state).users@[m].email@
                        &&& bcrypt_check(data.password@, final(state).users@[m].password@)
                            == Some(true)
                    };
                assert(m == k);
                assert(first_email_match(final(state).users@, old(state).resets@[i].email@, k));
            }
            Ok(())
        },
        Err(e) => {
            proof {
                let k = choose|k: int|
                    #[trigger] first_email_match(old(state).users@, reset_rec.email@, k) && user
                        == old(state).users@[k];
                assert(old(state).users@[k].id == user_id);
                assert(has_user_id(old(state).users@, user_id));
            }
            Err(e)
        },
    }
}

} // verus!
