use vstd::prelude::*;

use super::{Authenticated, Unauthenticated, User};

verus! {

/// The accepted password (fixed, for deterministic behaviour).
pub const VALID_PASSWORD: &'static str = "fortis123";

/// The token handed out after a successful authentication.
pub const TOKEN_OK: &'static str = "TOKEN_OK";

/// The characters of the accepted password.
pub open spec fn valid_password() -> Seq<char> {
    seq!['f', 'o', 'r', 't', 'i', 's', '1', '2', '3']
}

/// The characters of the token handed out on success.
pub open spec fn token_ok() -> Seq<char> {
    seq!['T', 'O', 'K', 'E', 'N', '_', 'O', 'K']
}

/// The message of a refused authentication.
pub open spec fn invalid_password_message() -> Seq<char> {
    seq!['i', 'n', 'v', 'a', 'l', 'i', 'd', ' ', 'p', 'a', 's', 's', 'w', 'o', 'r', 'd']
}

/// The transition from unauthenticated to authenticated: it happens exactly when the
/// password is the accepted one; the name is kept and the state holds the token.
pub fn authenticate_user(user: User<Unauthenticated>, password: &str) -> (r: Result<
    User<Authenticated>,
    String,
>)
    ensures
        r is Ok <==> password@ == valid_password(),
        r matches Ok(u) ==> u.name_view() == user.name_view() && u.state_view().token_view()
            == token_ok(),
        r matches Err(e) ==> e@ == invalid_password_message(),
{
    proof {
        reveal_strlit("fortis123");
        reveal_strlit("TOKEN_OK");
        reveal_strlit("invalid password");
    }
    let given = password.to_string();
    let expected = VALID_PASSWORD.to_string();
    if !(given == expected) {
        proof {
            assert(expected@ =~= valid_password());
        }
        return Err("invalid password".to_string());
    }
    proof {
        assert(expected@ =~= valid_password());
    }
    let token = TOKEN_OK.to_string();
    proof {
        assert(token@ =~= token_ok());
    }
    Ok(User { name: user.name, state: Authenticated { token } })
}

} // verus!
