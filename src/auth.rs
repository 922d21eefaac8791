use vstd::prelude::*;
use vstd::string::*;
use crate::errors::{msg, ServiceError};
use crate::models::Timestamp;
use crate::store::{failure_of, outcome, Failure};
use crate::text::{chars_of, str_eq};

verus! {

pub open spec fn bearer_prefix() -> Seq<char> {
    "Bearer "@
}

pub open spec fn opt_str_view(h: Option<&str>) -> Option<Seq<char>> {
    match h {
        Some(s) => Some(s@),
        None => None,
    }
}

/// The credential in an `Authorization` header: what follows `Bearer `.
/// No header, or one without that prefix, is `Unauthorized`.
pub open spec fn bearer_spec(header: Option<Seq<char>>) -> Result<Seq<char>, Failure> {
    match header {
        None => Err(Failure::Unauthorized),
        Some(h) => if h.len() >= bearer_prefix().len() && h.take(bearer_prefix().len() as int)
            == bearer_prefix() {
            Ok(h.skip(bearer_prefix().len() as int))
        } else {
            Err(Failure::Unauthorized)
        },
    }
}

/// Takes the bearer credential out of an `Authorization` header.
pub fn bearer_token(header: Option<&str>) -> (r: Result<String, ServiceError>)
    ensures
        outcome(r) == bearer_spec(opt_str_view(header)),
        r is Err ==> r->Err_0.spec_message() == if header is None {
            "No token provided"@
        } else {
            "Invalid token format"@
        },
{
    let h = match header {
        None => {
            return Err(ServiceError::Unauthorized(msg("No token provided")));
        },
        Some(h) => h,
    };
    let prefix = "Bearer ";
    proof {
        reveal_strlit("Bearer ");
    }
    let cs = chars_of(h);
    let ps = chars_of(prefix);
    if cs.len() < ps.len() {
        return Err(ServiceError::Unauthorized(msg("Invalid token format")));
    }
    let mut i: usize = 0;
    while i < ps.len()
        invariant
            ps@ == bearer_prefix(),
            cs@ == h@,
            opt_str_view(header) == Some(h@),
            ps.len() <= cs.len(),
            i <= ps.len(),
            forall|k: int| 0 <= k < i ==> cs@[k] == ps@[k],
        decreases ps.len() - i,
    {
        if cs[i] != ps[i] {
            assert(h@.take(ps.len() as int)[i as int] != bearer_prefix()[i as int]);
            assert(h@.take(bearer_prefix().len() as int) != bearer_prefix());
            return Err(ServiceError::Unauthorized(msg("Invalid token format")));
        }
        i = i + 1;
    }
    assert(h@.take(ps.len() as int) =~= bearer_prefix());
    let token = h.substring_char(ps.len(), cs.len());
    assert(token@ =~= h@.skip(ps.len() as int));
    Ok(String::from_str(token))
}

/// What an account is, as the contracts see it.
pub struct UserModel {
    pub id: Seq<char>,
    pub username: Seq<char>,
    pub password_hash: Seq<char>,
    pub created_at: Timestamp,
}

/// An account: its id, its unique user name and the hash of its password.
#[derive(Debug)]
pub struct User {
    pub id: String,
    pub username: String,
    pub password_hash: String,
    pub created_at: Timestamp,
}

impl View for User {
    type V = UserModel;

    open spec fn view(&self) -> UserModel {
        UserModel {
            id: self.id@,
            username: self.username@,
            password_hash: self.password_hash@,
            created_at: self.created_at,
        }
    }
}

impl User {
    pub fn copy(&self) -> (r: User)
        ensures
            r@ == self@,
    {
        User {
            id: self.id.clone(),
            username: self.username.clone(),
            password_hash: self.password_hash.clone(),
            created_at: self.created_at,
        }
    }
}

pub open spec fn users_view(v: Seq<User>) -> Seq<UserModel> {
    v.map_values(|u: User| u@)
}

pub open spec fn name_used(us: Seq<UserModel>, name: Seq<char>) -> bool {
    exists|k: int| 0 <= k < us.len() && #[trigger] us[k].username == name
}

/// The accounts, with no two of one user name.
pub struct UserRegistry {
    pub users: Vec<User>,
}

impl UserRegistry {
    pub open spec fn wf(&self) -> bool {
        forall|i: int, j: int|
            0 <= i < self.users.len() && 0 <= j < self.users.len() && i != j ==> (
            #[trigger] self.users@[i])@.username != (#[trigger] self.users@[j])@.username
    }

    pub fn new() -> (r: UserRegistry)
        ensures
            r.wf(),
            r.users@.len() == 0,
    {
        UserRegistry { users: Vec::new() }
    }

    /// The account named `username`; `BadRequest` with "Invalid credentials"
    /// where there is none, the answer a login gives to a wrong password too.
    pub fn find_by_username(&self, username: &str) -> (r: Result<User, ServiceError>)
        ensures
            match r {
                Ok(u) => exists|k: int|
                    0 <= k < self.users.len() && u@ == (#[trigger] self.users@[k])@ && u@.username
                        == username@,
                Err(e) => failure_of(e) == Failure::BadRequest && e.spec_message()
                    == "Invalid credentials"@ && !name_used(users_view(self.users@), username@),
            },
    {
        let mut i: usize = 0;
        while i < self.users.len()
            invariant
                i <= self.users.len(),
                forall|k: int| 0 <= k < i ==> (#[trigger] self.users@[k])@.username != username@,
            decreases self.users.len() - i,
        {
            if str_eq(self.users[i].username.as_str(), username) {
                return Ok(self.users[i].copy());
            }
            i = i + 1;
        }
        assert forall|k: int| 0 <= k < self.users.len() implies users_view(self.users@)[k].username
            != username@ by {
            assert(users_view(self.users@)[k] == self.users@[k]@);
        }
        Err(ServiceError::BadRequest(msg("Invalid credentials")))
    }

    /// Adds an account named `username` with the id `id`, created at `now`;
    /// a user name already in use is `BadRequest`.
    pub fn register_user(
        &mut self,
        username: &str,
        password_hash: String,
        id: String,
        now: Timestamp,
    ) -> (r: Result<(), ServiceError>)
        requires
            old(self).wf(),
        ensures
            final(self).wf(),
            match r {
                Ok(_) => !name_used(users_view(old(self).users@), username@) && users_view(
                    final(self).users@,
                ) == users_view(old(self).users@).push(
                    UserModel {
                        id: id@,
                        username: username@,
                        password_hash: password_hash@,
                        created_at: now,
                    },
                ),
                Err(e) => failure_of(e) == Failure::BadRequest && e.spec_message()
                    == "Username already exists"@ && name_used(
                    users_view(old(self).users@),
                    username@,
                ) && final(self).users@ == old(self).users@,
            },
    {
        match self.find_by_username(username) {
            Ok(u) => {
                assert(users_view(self.users@).len() == self.users.len());
                let ghost k = choose|k: int|
                    0 <= k < self.users.len() && u@ == (#[trigger] self.users@[k])@ && u@.username
                        == username@;
                assert(users_view(self.users@)[k].username == username@);
                return Err(ServiceError::BadRequest(msg("Username already exists")));
            },
            Err(_) => {},
        }
        let u = User {
            id: id,
            username: String::from_str(username),
            password_hash: password_hash,
            created_at: now,
        };
        let ghost old_users = self.users@;
        self.users.push(u);
        assert(users_view(self.users@) =~= users_view(old_users).push(u@));
        assert forall|i: int, j: int|
            0 <= i < self.users.len() && 0 <= j < self.users.len() && i != j implies (
            #[trigger] self.users@[i])@.username != (#[trigger] self.users@[j])@.username by {
            if i < old_users.len() && j < old_users.len() {
                assert(self.users@[i] == old_users[i] && self.users@[j] == old_users[j]);
            } else if i < old_users.len() {
                assert(users_view(old_users)[i] == old_users[i]@);
            } else {
                assert(users_view(old_users)[j] == old_users[j]@);
            }
        }
        Ok(())
    }
}

} // verus!
