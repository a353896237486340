//! A typestate authenticator: an unauthenticated user and an authenticated one are
//! different types, so the vault can only be read by a user that has authenticated.

pub mod auth_logic;
pub mod secure_api;

pub use auth_logic::{authenticate_user, TOKEN_OK, VALID_PASSWORD};

use vstd::prelude::*;

verus! {

/// State: not authenticated.
#[derive(Debug, Clone, Copy, PartialEq, Eq)]
pub struct Unauthenticated;

/// State: authenticated, holding the session token.
#[derive(Debug, Clone, PartialEq, Eq)]
pub struct Authenticated {
    pub(crate) token: String,
}

impl Authenticated {
    /// The token held in this state.
    pub closed spec fn token_view(self) -> Seq<char> {
        self.token@
    }
}

/// A user in state `S`.
#[derive(Debug, Clone, PartialEq, Eq)]
pub struct User<S> {
    pub(crate) name: String,
    pub(crate) state: S,
}

impl<S> User<S> {
    /// The user's name.
    pub closed spec fn name_view(self) -> Seq<char> {
        self.name@
    }

    /// The user's state.
    pub closed spec fn state_view(self) -> S {
        self.state
    }
}

impl User<Unauthenticated> {
    /// Creates an unauthenticated user.
    pub fn new(name: &str) -> (r: Self)
        ensures
            r.name_view() == name@,
    {
        User { name: name.to_string(), state: Unauthenticated }
    }

    pub fn name(&self) -> (r: &str)
        ensures
            r@ == self.name_view(),
    {
        self.name.as_str()
    }

    /// Authenticates, consuming the unauthenticated user.
    pub fn authenticate(self, password: &str) -> (r: Result<User<Authenticated>, String>)
        ensures
            r is Ok <==> password@ == auth_logic::valid_password(),
            r matches Ok(u) ==> u.name_view() == self.name_view() && u.state_view().token_view()
                == auth_logic::token_ok(),
            r matches Err(e) ==> e@ == auth_logic::invalid_password_message(),
    {
        auth_logic::authenticate_user(self, password)
    }
}

impl User<Authenticated> {
    pub fn name(&self) -> (r: &str)
        ensures
            r@ == self.name_view(),
    {
        self.name.as_str()
    }

    /// The token of the authenticated state.
    pub fn token(&self) -> (r: &str)
        ensures
            r@ == self.state_view().token_view(),
    {
        self.state.token.as_str()
    }

    /// Reads the protected vault data; only an authenticated user has this method.
    pub fn view_vault_data(&self) -> (r: String)
        ensures
            r@ == secure_api::vault_text(self.name_view(), self.state_view().token_view()),
    {
        secure_api::view_vault_data(self)
    }
}

} // verus!
