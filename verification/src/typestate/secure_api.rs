use vstd::prelude::*;

use super::{Authenticated, User};

verus! {

/// The vault text shown to `name` holding `token`.
pub open spec fn vault_text(name: Seq<char>, token: Seq<char>) -> Seq<char> {
    "VAULT_DATA: access granted for "@ + name + " with token="@ + token
}

/// Protected data, reachable only with an authenticated user.
pub fn view_vault_data(user: &User<Authenticated>) -> (r: String)
    ensures
        r@ == vault_text(user.name_view(), user.state_view().token_view()),
{
    let mut s = String::from_str("VAULT_DATA: access granted for ");
    s.append(user.name());
    s.append(" with token=");
    s.append(user.token());
    s
}

} // verus!
