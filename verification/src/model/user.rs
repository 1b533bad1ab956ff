//! The one record type of the service.

use vstd::prelude::*;

verus! {

/// A user record. The store assigns `id` when the record is created, so a
/// record that has not been stored yet carries none.
#[derive(Clone, Debug, PartialEq, Eq)]
pub struct User {
    pub id: Option<i32>,
    pub name: String,
    pub email: String,
}

/// What a `User` holds, as plain values.
pub struct UserView {
    pub id: Option<i32>,
    pub name: Seq<char>,
    pub email: Seq<char>,
}

impl View for User {
    type V = UserView;

    open spec fn view(&self) -> UserView {
        UserView { id: self.id, name: self.name@, email: self.email@ }
    }
}

/// The views of `rows`, in the same order.
pub open spec fn views(rows: Seq<User>) -> Seq<UserView> {
    rows.map_values(|user: User| user@)
}

/// The view of a record that may be missing.
pub open spec fn optional_view(user: Option<User>) -> Option<UserView> {
    match user {
        Some(user) => Some(user@),
        None => None,
    }
}

} // verus!
