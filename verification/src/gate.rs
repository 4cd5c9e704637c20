//! The authentication gate: resolves an inbound request's Authorization
//! header to an authenticated identity, or rejects it. An absent header, a
//! wrong scheme and every token failure collapse into one opaque outcome.
use crate::subject::parse_subject;
use crate::token::token_subject_of;
use crate::token::verify;
use jwt_simple::algorithms::ES256KeyPair;
use vstd::prelude::*;

verus! {

/// An authenticated identity: the user id a verified token resolved to.
#[derive(Clone, Copy, Debug, PartialEq, Eq)]
pub struct User {
    pub id: i32,
}

/// The authentication witness that every task operation requires: it holds
/// the caller's identity as resolved from a valid token.
pub struct RequireAuthentication(pub User);

/// The one rejection outcome, the same answer for every cause.
#[derive(Clone, Copy, Debug, PartialEq, Eq)]
pub struct Unauthenticated;

/// The scheme an Authorization header must start with.
pub open spec fn bearer_prefix() -> Seq<char> {
    seq!['B', 'e', 'a', 'r', 'e', 'r', ' ']
}

/// Strips the bearer scheme from an Authorization header, yielding the token
/// text exactly when the header starts with "Bearer ".
pub fn strip_bearer<'a>(header: &'a str) -> (r: Option<&'a str>)
    ensures
        match r {
            Some(t) => header@.len() >= 7 && header@ == bearer_prefix() + t@,
            None => !(header@.len() >= 7 && header@.subrange(0, 7) == bearer_prefix()),
        },
{
    let n = header.unicode_len();
    if n < 7 {
        proof {
            assert(header@.len() < 7);
        }
        return None;
    }
    if header.get_char(0) == 'B' && header.get_char(1) == 'e' && header.get_char(2) == 'a'
        && header.get_char(3) == 'r' && header.get_char(4) == 'e' && header.get_char(5) == 'r'
        && header.get_char(6) == ' ' {
        let rest = header.substring_char(7, n);
        proof {
            assert(header@.subrange(0, 7) =~= bearer_prefix());
            assert(header@ =~= bearer_prefix() + header@.subrange(7, header@.len() as int));
        }
        Some(rest)
    } else {
        proof {
            if header@.subrange(0, 7) == bearer_prefix() {
                assert(header@[0] == header@.subrange(0, 7)[0]);
                assert(header@[1] == header@.subrange(0, 7)[1]);
                assert(header@[2] == header@.subrange(0, 7)[2]);
                assert(header@[3] == header@.subrange(0, 7)[3]);
                assert(header@[4] == header@.subrange(0, 7)[4]);
                assert(header@[5] == header@.subrange(0, 7)[5]);
                assert(header@[6] == header@.subrange(0, 7)[6]);
                assert(false);
            }
        }
        None
    }
}

/// Authenticates a request from its Authorization header. An absent header,
/// a scheme other than bearer, and any token-verification failure all yield
/// the one same rejection; a valid token yields the identity its subject
/// names.
pub fn authenticate(key: &ES256KeyPair, authorization: Option<&str>) -> (r: Result<
    RequireAuthentication,
    Unauthenticated,
>)
    ensures
        authorization is None ==> r is Err,
        (match authorization {
            Some(h) => !(h@.len() >= 7 && h@.subrange(0, 7) == bearer_prefix()) ==> r is Err,
            None => true,
        }),
        (r matches Ok(auth) ==> (authorization matches Some(h) && h@.len() >= 7 && h@.subrange(
            0,
            7,
        ) == bearer_prefix() && (token_subject_of(h@.subrange(7, h@.len() as int)) matches Some(s)
            && parse_subject(s) == Some(auth.0.id as int)))),
{
    match authorization {
        Some(h) => match strip_bearer(h) {
            Some(tok) => match verify(key, tok) {
                Ok(id) => {
                    proof {
                        assert(tok@ =~= h@.subrange(7, h@.len() as int));
                        assert(h@.subrange(0, 7) =~= bearer_prefix());
                    }
                    Ok(RequireAuthentication(User { id }))
                },
                Err(_) => Err(Unauthenticated),
            },
            None => Err(Unauthenticated),
        },
        None => Err(Unauthenticated),
    }
}

} // verus!
