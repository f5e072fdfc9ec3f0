use vstd::prelude::*;
use vstd::string::*;
use rand::Rng;
use crate::table::{Keyed, Table};

verus! {

/// What a token may be used for.
#[derive(Debug, Clone, Copy, PartialEq, Eq, Structural, Hash)]
pub enum Permission {
    Read,
    Write,
    History,
    RateLimit,
    Admin,
}

/// A set of permissions.
#[derive(Debug, Clone, Copy, PartialEq, Eq, Structural)]
pub struct PermissionSet {
    pub read: bool,
    pub write: bool,
    pub history: bool,
    pub rate_limit: bool,
    pub admin: bool,
}

impl PermissionSet {
    /// Whether `p` is in the set.
    pub open spec fn has(self, p: Permission) -> bool {
        match p {
            Permission::Read => self.read,
            Permission::Write => self.write,
            Permission::History => self.history,
            Permission::RateLimit => self.rate_limit,
            Permission::Admin => self.admin,
        }
    }

    /// The set with `p` added.
    pub open spec fn with(self, p: Permission) -> PermissionSet {
        match p {
            Permission::Read => PermissionSet { read: true, ..self },
            Permission::Write => PermissionSet { write: true, ..self },
            Permission::History => PermissionSet { history: true, ..self },
            Permission::RateLimit => PermissionSet { rate_limit: true, ..self },
            Permission::Admin => PermissionSet { admin: true, ..self },
        }
    }

    /// Whether the set allows what `p` guards: it holds `p` or `Admin`.
    pub open spec fn allows(self, p: Permission) -> bool {
        self.has(p) || self.admin
    }

    /// The empty set.
    pub fn none() -> (r: PermissionSet)
        ensures
            forall|p: Permission| !r.has(p),
            r == (PermissionSet { read: false, write: false, history: false, rate_limit: false, admin: false }),
    {
        PermissionSet { read: false, write: false, history: false, rate_limit: false, admin: false }
    }

    /// Every permission.
    pub fn all() -> (r: PermissionSet)
        ensures
            forall|p: Permission| r.has(p),
            r == PermissionSet::all_spec(),
    {
        PermissionSet { read: true, write: true, history: true, rate_limit: true, admin: true }
    }

    /// What a user that is not on record is given: `Read` and `Write`.
    pub fn read_write() -> (r: PermissionSet)
        ensures
            forall|p: Permission| r.has(p) == (p == Permission::Read || p == Permission::Write),
            r == (PermissionSet { read: true, write: true, history: false, rate_limit: false, admin: false }),
    {
        PermissionSet { read: true, write: true, history: false, rate_limit: false, admin: false }
    }

    /// Whether `p` is in the set.
    pub fn contains(&self, p: Permission) -> (r: bool)
        ensures
            r == self.has(p),
    {
        match p {
            Permission::Read => self.read,
            Permission::Write => self.write,
            Permission::History => self.history,
            Permission::RateLimit => self.rate_limit,
            Permission::Admin => self.admin,
        }
    }

    /// Adds `p` to the set.
    pub fn insert(&mut self, p: Permission)
        ensures
            forall|q: Permission| final(self).has(q) == (old(self).has(q) || q == p),
            *final(self) == old(self).with(p),
    {
        match p {
            Permission::Read => self.read = true,
            Permission::Write => self.write = true,
            Permission::History => self.history = true,
            Permission::RateLimit => self.rate_limit = true,
            Permission::Admin => self.admin = true,
        }
    }

    /// Whether the set allows what `p` guards.
    pub fn grants(&self, p: Permission) -> (r: bool)
        ensures
            r == self.allows(p),
    {
        self.contains(p) || self.admin
    }
}

/// A user on record.
pub struct User {
    pub user_id: String,
    pub password_hash: String,
    pub permissions: PermissionSet,
}

impl Keyed for User {
    open spec fn key_view(&self) -> Seq<char> {
        self.user_id@
    }

    fn key(&self) -> (r: &String) {
        &self.user_id
    }
}

/// An issued token: whose it is, what it allows, when it was made and,
/// optionally, the last second (since the epoch) at which it is valid.
pub struct AuthToken {
    pub token: String,
    pub user_id: String,
    pub permissions: PermissionSet,
    pub created_at: u64,
    pub expires_at: Option<u64>,
}

impl Keyed for AuthToken {
    open spec fn key_view(&self) -> Seq<char> {
        self.token@
    }

    fn key(&self) -> (r: &String) {
        &self.token
    }
}

/// The characters that tokens are drawn from.
pub const TOKEN_ALPHABET: &'static str = "abcdefghijklmnopqrstuvwxyzABCDEFGHIJKLMNOPQRSTUVWXYZ0123456789";

/// The number of characters in a token.
pub const TOKEN_LENGTH: usize = 32;

/// Relies on `rand::rng().random_range(0..n)`: a value in `0..n`, drawn
/// from the thread's generator; it panics on an empty range, which `n > 0`
/// rules out.
#[verifier::external_body]
fn random_below(n: usize) -> (r: usize)
    requires
        n > 0,
    ensures
        r < n,
{
    rand::rng().random_range(0..n)
}

/// Whether `t` has the shape of a token: `TOKEN_LENGTH` characters, each
/// from `TOKEN_ALPHABET`.
pub open spec fn token_shaped(t: Seq<char>) -> bool {
    &&& t.len() == TOKEN_LENGTH
    &&& forall|i: int| 0 <= i < t.len() ==> TOKEN_ALPHABET@.contains(#[trigger] t[i])
}

/// Draws a token: `TOKEN_LENGTH` characters, each from `TOKEN_ALPHABET`.
pub fn draw_token() -> (r: String)
    ensures
        token_shaped(r@),
{
    let alphabet = TOKEN_ALPHABET;
    let n = alphabet.unicode_len();
    proof {
        reveal_strlit("abcdefghijklmnopqrstuvwxyzABCDEFGHIJKLMNOPQRSTUVWXYZ0123456789");
    }
    let mut s = String::new();
    let mut i: usize = 0;
    while i < TOKEN_LENGTH
        invariant
            alphabet@ == TOKEN_ALPHABET@,
            n == alphabet@.len(),
            n > 0,
            s@.len() == i,
            i <= TOKEN_LENGTH,
            forall|j: int| 0 <= j < s@.len() ==> TOKEN_ALPHABET@.contains(#[trigger] s@[j]),
        decreases TOKEN_LENGTH - i,
    {
        let k = random_below(n);
        let c = alphabet.substring_char(k, k + 1);
        let ghost before = s@;
        s.append(c);
        assert(s@[i as int] == alphabet@[k as int]);
        assert forall|j: int| 0 <= j < s@.len() implies TOKEN_ALPHABET@.contains(#[trigger] s@[j]) by {
            if j < i {
                assert(s@[j] == before[j]);
            }
        }
        i = i + 1;
    }
    s
}

/// How many fresh tokens are drawn at most before issuing gives up.
pub const TOKEN_ATTEMPTS: usize = 16;

/// The seconds that a token issued at login stays valid.
pub const LOGIN_TOKEN_SECONDS: u64 = 3600;

/// Whether token `t` is on record and, if it expires, not yet past its
/// expiry at `now`.
pub open spec fn token_valid(tokens: Map<Seq<char>, AuthToken>, t: Seq<char>, now: u64) -> bool {
    &&& tokens.contains_key(t)
    &&& match tokens[t].expires_at {
        Some(e) => now <= e,
        None => true,
    }
}

/// Whether token `t` is valid at `now` and allows what `required` names.
pub open spec fn authorized(
    tokens: Map<Seq<char>, AuthToken>,
    t: Seq<char>,
    required: Option<Permission>,
    now: u64,
) -> bool {
    &&& token_valid(tokens, t, now)
    &&& match required {
        Some(p) => tokens[t].permissions.allows(p),
        None => true,
    }
}

/// The permissions that a token for `id` is given: those on record, or
/// `Read` and `Write` for a user not on record.
pub open spec fn permissions_for(users: Map<Seq<char>, User>, id: Seq<char>) -> PermissionSet {
    if users.contains_key(id) {
        users[id].permissions
    } else {
        PermissionSet { read: true, write: true, history: false, rate_limit: false, admin: false }
    }
}

/// The expiry of a token issued at `now` that is valid for `expires_in`
/// seconds (capped at the largest time).
pub open spec fn expiry(now: u64, expires_in: Option<u64>) -> Option<u64> {
    match expires_in {
        Some(e) => Some(if now + e > u64::MAX { u64::MAX } else { (now + e) as u64 }),
        None => None,
    }
}

/// Whether `rec` is the record of token `t` issued to `user` with `perms`
/// at `created`, expiring at `expires`.
pub open spec fn issued_as(
    rec: AuthToken,
    t: Seq<char>,
    user: Seq<char>,
    perms: PermissionSet,
    created: u64,
    expires: Option<u64>,
) -> bool {
    &&& rec.token@ == t
    &&& rec.user_id@ == user
    &&& rec.permissions == perms
    &&& rec.created_at == created
    &&& rec.expires_at == expires
}

/// Whether `after` is `before` with token `t` newly issued to `user` with
/// `perms` at `created`, expiring at `expires`.
pub open spec fn token_issued(
    before: Map<Seq<char>, AuthToken>,
    after: Map<Seq<char>, AuthToken>,
    t: Seq<char>,
    user: Seq<char>,
    perms: PermissionSet,
    created: u64,
    expires: Option<u64>,
) -> bool {
    &&& !before.contains_key(t)
    &&& after == before.insert(t, after[t])
    &&& issued_as(after[t], t, user, perms, created, expires)
}

/// Whether the credentials match a user on record.
pub open spec fn credentials_match(users: Map<Seq<char>, User>, id: Seq<char>, password: Seq<char>) -> bool {
    users.contains_key(id) && users[id].password_hash@ == password
}

/// The expiry of a token issued at `now` for `expires_in` seconds.
pub fn expiry_of(now: u64, expires_in: Option<u64>) -> (r: Option<u64>)
    ensures
        r == expiry(now, expires_in),
{
    match expires_in {
        Some(e) => Some(if e > u64::MAX - now { u64::MAX } else { now + e }),
        None => None,
    }
}

/// Users, issued tokens, and the token that the built-in administrator got
/// at start.
pub struct AuthStore {
    users: Table<User>,
    tokens: Table<AuthToken>,
    admin_token: String,
}

impl AuthStore {
    /// The users on record, by id.
    pub closed spec fn users(&self) -> Map<Seq<char>, User> {
        self.users.map()
    }

    /// The issued tokens, by token text.
    pub closed spec fn tokens(&self) -> Map<Seq<char>, AuthToken> {
        self.tokens.map()
    }

    /// The built-in administrator's token.
    pub closed spec fn default_token(&self) -> Seq<char> {
        self.admin_token@
    }

    /// A store that holds the built-in administrator `admin` with password
    /// `admin123` and every permission, and a token for it that does not
    /// expire, issued at `now`.
    pub fn new(now: u64) -> (r: AuthStore)
        ensures
            r.users().dom() == set!["admin"@],
            r.users()["admin"@].user_id@ == "admin"@,
            r.users()["admin"@].password_hash@ == "admin123"@,
            r.users()["admin"@].permissions == PermissionSet::all_spec(),
            r.tokens().dom() == set![r.default_token()],
            issued_as(
                r.tokens()[r.default_token()],
                r.default_token(),
                "admin"@,
                PermissionSet::all_spec(),
                now,
                None,
            ),
    {
        let mut store = AuthStore { users: Table::new(), tokens: Table::new(), admin_token: String::new() };
        let admin = String::from_str("admin");
        store.add_user(admin.clone(), String::from_str("admin123"), PermissionSet::all());
        let t = store.generate_token(admin, None, now);
        match t {
            Some(t) => {
                store.admin_token = t;
            },
            None => {},
        }
        assert(store.users().dom() =~= set!["admin"@]);
        assert(store.tokens().dom() =~= set![store.default_token()]);
        store
    }

    /// Puts a user on record, in place of any user with that id.
    pub fn add_user(&mut self, user_id: String, password_hash: String, permissions: PermissionSet)
        ensures
            final(self).users() == old(self).users().insert(
                user_id@,
                User { user_id, password_hash, permissions },
            ),
            final(self).tokens() == old(self).tokens(),
            final(self).default_token() == old(self).default_token(),
    {
        self.users.put(User { user_id, password_hash, permissions });
    }

    /// The permissions that a token for `user_id` would be given now.
    pub fn user_permissions(&self, user_id: &str) -> (r: PermissionSet)
        ensures
            r == permissions_for(self.users(), user_id@),
    {
        match self.users.get(user_id) {
            Some(u) => u.permissions,
            None => PermissionSet::read_write(),
        }
    }

    /// Whether `token` is valid at `now` (seconds since the epoch) and
    /// allows what `required` names.
    pub fn authenticate(&self, token: &str, required: Option<Permission>, now: u64) -> (r: bool)
        ensures
            r == authorized(self.tokens(), token@, required, now),
    {
        match self.tokens.get(token) {
            None => false,
            Some(rec) => {
                match rec.expires_at {
                    Some(e) => {
                        if now > e {
                            return false;
                        }
                    },
                    None => {},
                }
                match required {
                    Some(p) => rec.permissions.grants(p),
                    None => true,
                }
            },
        }
    }

    /// Records `token` as issued to `user_id` at `now`, with the user's
    /// present permissions, unless that token is already on record.
    pub fn issue(&mut self, token: String, user_id: String, expires_in: Option<u64>, now: u64) -> (r: bool)
        ensures
            r == !old(self).tokens().contains_key(token@),
            r ==> final(self).tokens() == old(self).tokens().insert(token@, final(self).tokens()[token@]),
            r ==> issued_as(
                final(self).tokens()[token@],
                token@,
                user_id@,
                permissions_for(old(self).users(), user_id@),
                now,
                expiry(now, expires_in),
            ),
            !r ==> final(self).tokens() == old(self).tokens(),
            final(self).users() == old(self).users(),
            final(self).default_token() == old(self).default_token(),
    {
        if self.tokens.get(token.as_str()).is_some() {
            return false;
        }
        let permissions = self.user_permissions(user_id.as_str());
        let expires_at = expiry_of(now, expires_in);
        let rec = AuthToken { token, user_id, permissions, created_at: now, expires_at };
        self.tokens.put(rec);
        true
    }

    /// Draws tokens until one is not on record (at most `TOKEN_ATTEMPTS`
    /// draws), and issues it to `user_id` at `now`, valid for `expires_in`
    /// seconds or without expiry. Gives `None`, and changes nothing, when
    /// every draw was already on record.
    pub fn generate_token(&mut self, user_id: String, expires_in: Option<u64>, now: u64) -> (r: Option<String>)
        ensures
            final(self).users() == old(self).users(),
            final(self).default_token() == old(self).default_token(),
            old(self).tokens() == Map::<Seq<char>, AuthToken>::empty() ==> r is Some,
            match r {
                Some(t) => {
                    &&& token_shaped(t@)
                    &&& !old(self).tokens().contains_key(t@)
                    &&& final(self).tokens() == old(self).tokens().insert(t@, final(self).tokens()[t@])
                    &&& issued_as(
                        final(self).tokens()[t@],
                        t@,
                        user_id@,
                        permissions_for(old(self).users(), user_id@),
                        now,
                        expiry(now, expires_in),
                    )
                },
                None => final(self).tokens() == old(self).tokens(),
            },
    {
        let mut attempt: usize = 0;
        while attempt < TOKEN_ATTEMPTS
            invariant
                self.users() == old(self).users(),
                self.tokens() == old(self).tokens(),
                self.default_token() == old(self).default_token(),
                old(self).tokens() == Map::<Seq<char>, AuthToken>::empty() ==> attempt == 0,
            decreases TOKEN_ATTEMPTS - attempt,
        {
            let candidate = draw_token();
            let ghost c = candidate@;
            if self.issue(candidate.clone(), user_id.clone(), expires_in, now) {
                return Some(candidate);
            }
            assert(self.tokens().contains_key(c));
            assert(old(self).tokens().dom().contains(c));
            attempt = attempt + 1;
        }
        None
    }

    /// Removes `token` from the record; tells whether it was there.
    pub fn revoke_token(&mut self, token: &str) -> (r: bool)
        ensures
            r == old(self).tokens().contains_key(token@),
            final(self).tokens() == old(self).tokens().remove(token@),
            final(self).users() == old(self).users(),
            final(self).default_token() == old(self).default_token(),
    {
        self.tokens.remove(token)
    }

    /// Issues a token valid for `LOGIN_TOKEN_SECONDS` when the password is
    /// that of the user on record; `None` otherwise.
    pub fn login(&mut self, user_id: &str, password: &str, now: u64) -> (r: Option<String>)
        ensures
            final(self).users() == old(self).users(),
            final(self).default_token() == old(self).default_token(),
            !credentials_match(old(self).users(), user_id@, password@) ==> r is None,
            credentials_match(old(self).users(), user_id@, password@) && old(self).tokens() == Map::<
                Seq<char>,
                AuthToken,
            >::empty() ==> r is Some,
            match r {
                Some(t) => {
                    &&& credentials_match(old(self).users(), user_id@, password@)
                    &&& token_shaped(t@)
                    &&& !old(self).tokens().contains_key(t@)
                    &&& final(self).tokens() == old(self).tokens().insert(t@, final(self).tokens()[t@])
                    &&& issued_as(
                        final(self).tokens()[t@],
                        t@,
                        user_id@,
                        old(self).users()[user_id@].permissions,
                        now,
                        expiry(now, Some(LOGIN_TOKEN_SECONDS)),
                    )
                },
                None => final(self).tokens() == old(self).tokens(),
            },
    {
        let matched = match self.users.get(user_id) {
            Some(u) => crate::pattern::same_chars(u.password_hash.as_str(), password),
            None => false,
        };
        if matched {
            self.generate_token(String::from_str(user_id), Some(LOGIN_TOKEN_SECONDS), now)
        } else {
            None
        }
    }

    /// Whether the password is that of the user on record.
    pub fn check_credentials(&self, user_id: &str, password: &str) -> (r: bool)
        ensures
            r == credentials_match(self.users(), user_id@, password@),
    {
        match self.users.get(user_id) {
            Some(u) => crate::pattern::same_chars(u.password_hash.as_str(), password),
            None => false,
        }
    }

    /// The built-in administrator's token.
    pub fn default_admin_token(&self) -> (r: &String)
        ensures
            r@ == self.default_token(),
    {
        &self.admin_token
    }
}

impl PermissionSet {
    /// Every permission, as a value.
    pub open spec fn all_spec() -> PermissionSet {
        PermissionSet { read: true, write: true, history: true, rate_limit: true, admin: true }
    }
}

/// A token seen valid at `t` is valid at a later `t2` exactly when it has
/// not been revoked since (the store still holds its record, which issuing
/// never changes) and it has no expiry or its expiry is not before `t2`.
pub proof fn lemma_token_validity_over_time(
    before: &AuthStore,
    after: &AuthStore,
    tok: Seq<char>,
    t: u64,
    t2: u64,
)
    requires
        token_valid(before.tokens(), tok, t),
        t < t2,
        after.tokens().contains_key(tok) ==> after.tokens()[tok] == before.tokens()[tok],
    ensures
        token_valid(after.tokens(), tok, t2) <==> (after.tokens().contains_key(tok) && match before.tokens()[tok].expires_at {
            Some(e) => t2 <= e,
            None => true,
        }),
{
}

} // verus!
