//! The signup and login flows: the credential store decides, and on success
//! the token service mints a bearer token for the identity. Both return a
//! bare token string; an empty string is the failure signal and never a
//! valid credential.
use crate::store::auth_lookup;
use crate::store::has_username;
use crate::store::password_matches;
use crate::store::Store;
use crate::store::UserView;
use crate::subject::dec_digits;
use crate::text::normalize;
use crate::token::issue;
use crate::token::token_subject_of;
use crate::username::ValidUsername;
use jwt_simple::algorithms::ES256KeyPair;
use vstd::prelude::*;

verus! {

/// Whatever a successful lookup yields is the id of some stored user.
pub proof fn lemma_auth_lookup_in_store(
    users: Seq<UserView>,
    name: Seq<char>,
    password: Seq<char>,
)
    ensures
        auth_lookup(users, name, password) matches Some(v) ==> exists|k: int|
            0 <= k < users.len() && #[trigger] users[k].id == v,
    decreases users.len(),
{
    if users.len() > 0 && users[0].username != name {
        lemma_auth_lookup_in_store(users.drop_first(), name, password);
        let r = auth_lookup(users, name, password);
        if r is Some {
            let v = choose|v: int| r == Some(v);
            let k = choose|k: int|
                0 <= k < users.drop_first().len() && #[trigger] users.drop_first()[k].id == v;
            assert(users[k + 1].id == v);
        }
    }
}

/// Signup: normalizes the username, creates the user, and mints a token for
/// the fresh id. A taken username changes nothing and yields the empty
/// string; a fresh one yields a non-empty token whose subject is the new
/// user's id, so an empty result always means failure.
pub fn signup(
    store: &mut Store,
    key: &ES256KeyPair,
    username: String,
    password: String,
) -> (token: String)
    requires
        old(store).wf(),
        old(store).next_user_id < i32::MAX,
        password@.len() <= crate::store::MAX_PASSWORD_CHARS,
    ensures
        final(store).wf(),
        final(store).tasks_view() == old(store).tasks_view(),
        has_username(old(store).users_view(), normalize(username@)) ==> (token@.len() == 0
            && *final(store) == *old(store)),
        !has_username(old(store).users_view(), normalize(username@)) ==> {
            &&& exists|h: Seq<char>|
                #[trigger] password_matches(password@, h) && final(store).users_view() == old(
                    store,
                ).users_view().push(
                    (UserView {
                        id: old(store).next_user_id as int,
                        username: normalize(username@),
                        password_hash: h,
                    }),
                )
            &&& final(store).next_user_id == old(store).next_user_id + 1
            &&& token@.len() > 0
            &&& token_subject_of(token@) == Some(dec_digits(old(store).next_user_id as nat))
        },
{
    let vu = ValidUsername::from(username);
    match store.create_user(vu, password) {
        Ok(id) => match issue(key, id) {
            Some(t) => t,
            None => {
                proof {
                    assert(false);
                }
                String::new()
            },
        },
        Err(_) => String::new(),
    }
}

/// Login: normalizes the username and verifies the password against the
/// stored hash. A credential match mints a non-empty token whose subject is
/// that user's id; no match yields the empty string, the same for an unknown
/// name and a wrong password. So the result is empty exactly when no
/// credential match was found.
pub fn login(store: &Store, key: &ES256KeyPair, username: String, password: String) -> (token:
    String)
    requires
        store.wf(),
    ensures
        match auth_lookup(store.users_view(), normalize(username@), password@) {
            Some(id) => token@.len() > 0 && token_subject_of(token@) == Some(
                dec_digits(id as nat),
            ),
            None => token@.len() == 0,
        },
{
    let ghost name = normalize(username@);
    let ghost pw = password@;
    match store.get_authenticated_user_id(ValidUsername::from(username), password) {
        Some(id) => {
            proof {
                lemma_auth_lookup_in_store(store.users_view(), name, pw);
            }
            match issue(key, id) {
                Some(t) => t,
                None => {
                    proof {
                        assert(false);
                    }
                    String::new()
                },
            }
        },
        None => String::new(),
    }
}

} // verus!
