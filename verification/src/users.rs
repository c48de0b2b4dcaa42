//! User records and registration.

use vstd::prelude::*;
use crate::errors::UserServiceError;
use crate::validate::trim;
use crate::validate::validate_username;

verus! {

/// A registered user; created once, immutable, never deleted.
#[derive(Debug)]
pub struct User {
    pub id: i32,
    pub username: String,
}

/// Request body of user registration.
pub struct CreateUserRequest {
    pub username: String,
}

/// Ghost image of a registered user.
pub ghost struct UserV {
    pub id: i32,
    pub username: Seq<char>,
}

impl View for User {
    type V = UserV;

    open spec fn view(&self) -> UserV {
        UserV { id: self.id, username: self.username@ }
    }
}

/// The registered user with the given id, if any.
pub open spec fn user_lookup(s: Seq<UserV>, id: i32) -> Option<UserV>
    decreases s.len(),
{
    if s.len() == 0 {
        None
    } else if s.last().id == id {
        Some(s.last())
    } else {
        user_lookup(s.drop_last(), id)
    }
}

/// The user store and its registration gate.
pub struct UserService {
    pub users: Vec<User>,
    pub next_id: i32,
}

impl UserService {
    /// Ghost image of the stored users, in registration order.
    pub open spec fn users_view(&self) -> Seq<UserV> {
        self.users@.map_values(|u: User| u@)
    }

    /// Well-formedness: store-assigned ids are unique, at least 1, below
    /// `next_id`, and increase with registration order.
    pub open spec fn wf(&self) -> bool {
        let s = self.users_view();
        &&& forall|i: int, j: int| #![trigger s[i], s[j]] 0 <= i < j < s.len() ==> s[i].id < s[j].id
        &&& forall|i: int| 0 <= i < s.len() ==> 1 <= (#[trigger] s[i]).id < self.next_id
        &&& 1 <= self.next_id
    }

    /// An empty user store; ids start at 1.
    pub fn new() -> (s: Self)
        ensures
            s.wf(),
            s.users_view() == Seq::<UserV>::empty(),
            s.next_id == 1,
    {
        let s = UserService { users: Vec::new(), next_id: 1 };
        proof {
            assert(s.users_view() =~= Seq::<UserV>::empty());
        }
        s
    }

    /// Registers a user.  The username is gated by the validation layer;
    /// the stored text is the submitted one, untrimmed, while the
    /// emptiness rule reads the trimmed form.
    pub fn create_user(&mut self, username: String) -> (r: Result<User, UserServiceError>)
        requires
            old(self).wf(),
        ensures
            final(self).wf(),
            trim(username@).len() == 0 ==> r == Err::<User, UserServiceError>(
                UserServiceError::EmptyUsername,
            ) && *final(self) == *old(self),
            trim(username@).len() >= 1 && old(self).next_id == i32::MAX ==> r == Err::<
                User,
                UserServiceError,
            >(UserServiceError::DatabaseError) && *final(self) == *old(self),
            trim(username@).len() >= 1 && old(self).next_id < i32::MAX ==> {
                &&& r is Ok
                &&& r->Ok_0.id == old(self).next_id
                &&& r->Ok_0.username@ == username@
                &&& final(self).next_id == old(self).next_id + 1
                &&& final(self).users_view() == old(self).users_view().push(
                    UserV { id: old(self).next_id, username: username@ },
                )
            },
    {
        match validate_username(username.as_str()) {
            Err(e) => Err(e),
            Ok(_) => {
                if self.next_id == i32::MAX {
                    return Err(UserServiceError::DatabaseError);
                }
                let id = self.next_id;
                let stored = User { id, username: username.clone() };
                self.users.push(stored);
                self.next_id = id + 1;
                proof {
                    let sv = old(self).users_view();
                    let nv = self.users_view();
                    let uv = UserV { id: old(self).next_id, username: username@ };
                    assert(nv =~= sv.push(uv));
                }
                Ok(User { id, username })
            },
        }
    }

    /// Point lookup by id; the result is a function of the stored state
    /// alone.
    pub fn find_by_id(&self, id: i32) -> (r: Option<User>)
        requires
            self.wf(),
        ensures
            match user_lookup(self.users_view(), id) {
                Some(u) => r is Some && r->0.id == u.id && r->0.username@ == u.username,
                None => r is None,
            },
    {
        let ghost s = self.users_view();
        let mut i = self.users.len();
        proof {
            assert(s.take(i as int) =~= s);
        }
        while i > 0
            invariant
                0 <= i <= s.len(),
                s == self.users_view(),
                user_lookup(s, id) == user_lookup(s.take(i as int), id),
            decreases i,
        {
            proof {
                assert(s.take(i as int).drop_last() =~= s.take(i - 1));
                assert(s.take(i as int).last() == s[i - 1]);
            }
            i = i - 1;
            if self.users[i].id == id {
                let u = &self.users[i];
                return Some(User { id: u.id, username: u.username.clone() });
            }
        }
        proof {
            assert(s.take(0) =~= Seq::<UserV>::empty());
        }
        None
    }
}

} // verus!
