use vstd::prelude::*;
use vstd::string::*;
use async_channel::Sender;
use crate::auth::{
    token_shaped,
    AuthStore, AuthToken, LOGIN_TOKEN_SECONDS, Permission, PermissionSet, User, authorized,
    credentials_match, expiry, permissions_for, token_issued,
};
use crate::history::{
    History, MAX_HISTORY_SIZE, count_matching, ids_increasing, keep_last, lemma_recent_newest_first,
    recent_matching, unexpired, view_of,
};
use crate::ratelimit::{
    RateLimiter, RuleView, after_check, counters_ordered, fresh_of, passes, patterns_unique, with_rule,
};
use crate::protocol::{append_decimal, decimal_text, parse_permissions, permissions_named, split_all};
use crate::registry::{Registry, count_matching_patterns, offers_after};
use crate::signal::{PersistentSignal, PersistentView, Signal, SignalView, expired_at};

verus! {

/// The message of a publish that a rate limit refused.
pub open spec fn rate_limit_message(name: Seq<char>) -> Seq<char> {
    "Rate limit exceeded for signal: "@ + name
}

/// Why a publish of a signal named `name` fails, if it does: no id is left
/// to give, or a rate limit refuses it.
pub open spec fn publish_error(rules: Seq<RuleView>, name: Seq<char>, now_ms: u64, upcoming: u64) -> Option<Seq<char>> {
    if upcoming == u64::MAX {
        Some("Signal ids exhausted"@)
    } else if !passes(rules, name, now_ms) {
        Some(rate_limit_message(name))
    } else {
        None
    }
}

/// The daemon's whole state: listeners, history, rate limits, users and
/// tokens.
pub struct DaemonState {
    subscribers: Registry,
    signal_history: History,
    rate_limits: RateLimiter,
    auth: AuthStore,
}

impl DaemonState {
    /// The signals held, oldest first.
    pub closed spec fn history(&self) -> Seq<PersistentView> {
        self.signal_history@
    }

    /// The id that the next published signal gets.
    pub closed spec fn upcoming_id(&self) -> u64 {
        self.signal_history.upcoming_id()
    }

    /// The rate-limit rules, in the order in which they decide.
    pub closed spec fn rules(&self) -> Seq<RuleView> {
        self.rate_limits@
    }

    /// The listeners' patterns, in the order in which they subscribed.
    pub closed spec fn listeners(&self) -> Seq<Seq<char>> {
        self.subscribers@
    }

    /// The signals offered to each listener so far, oldest first.
    pub closed spec fn offers(&self) -> Seq<Seq<SignalView>> {
        self.subscribers.offers()
    }

    /// The latest monotonic time (milliseconds) given to the rate limits.
    pub closed spec fn rate_clock(&self) -> u64 {
        self.rate_limits.time()
    }

    /// The users on record.
    pub closed spec fn users(&self) -> Map<Seq<char>, User> {
        self.auth.users()
    }

    /// The issued tokens.
    pub closed spec fn tokens(&self) -> Map<Seq<char>, AuthToken> {
        self.auth.tokens()
    }

    /// The built-in administrator's token.
    pub closed spec fn default_token(&self) -> Seq<char> {
        self.auth.default_token()
    }

    /// The state's invariant.
    pub closed spec fn wf(&self) -> bool {
        &&& self.signal_history.wf()
        &&& self.signal_history.capacity() == MAX_HISTORY_SIZE
        &&& self.rate_limits.wf()
        &&& self.subscribers.wf()
        &&& self.subscribers@.len() == self.subscribers.offers().len()
    }

    /// The latest monotonic time (milliseconds) given to the rate limits;
    /// later decisions must be made at this time or after.
    pub fn latest_rate_time(&self) -> (r: u64)
        ensures
            r == self.rate_clock(),
    {
        self.rate_limits.latest_time()
    }

    /// What the invariant gives callers: the history's ids increase from
    /// oldest to newest and are all below the next id; no two rules share a
    /// pattern; each rule's admissions are in time order and none is later
    /// than the rate clock; there is one offer log per listener.
    pub proof fn lemma_state_facts(&self)
        requires
            self.wf(),
        ensures
            ids_increasing(self.history()),
            forall|i: int| 0 <= i < self.history().len() ==> #[trigger] self.history()[i].id < self.upcoming_id(),
            patterns_unique(self.rules()),
            counters_ordered(self.rules(), self.rate_clock()),
            self.offers().len() == self.listeners().len(),
    {
        self.signal_history.lemma_ids();
    }

    /// A history query returns as many matching signals as there are, up to
    /// `limit`, each from the history and matching the pattern, newest first
    /// with strictly decreasing ids.
    pub proof fn lemma_recent_signals(&self, p: Seq<char>, limit: nat)
        requires
            self.wf(),
        ensures
            recent_matching(self.history(), p, limit).len() == if count_matching(self.history(), p) < limit {
                count_matching(self.history(), p)
            } else {
                limit
            },
            forall|i: int|
                0 <= i < recent_matching(self.history(), p, limit).len() ==> self.history().contains(
                    #[trigger] recent_matching(self.history(), p, limit)[i],
                ) && crate::pattern::pattern_matches(p, recent_matching(self.history(), p, limit)[i].signal.name),
            forall|i: int, j: int|
                0 <= i < j < recent_matching(self.history(), p, limit).len() ==> recent_matching(
                    self.history(),
                    p,
                    limit,
                )[i].id > recent_matching(self.history(), p, limit)[j].id,
    {
        lemma_recent_newest_first(&self.signal_history, p, limit);
    }

    /// Every state that the daemon goes through holds at most
    /// `MAX_HISTORY_SIZE` signals: each operation keeps the invariant, and
    /// the invariant bounds the history.
    pub proof fn lemma_history_bounded(&self)
        requires
            self.wf(),
        ensures
            self.history().len() <= MAX_HISTORY_SIZE,
    {
        self.signal_history.lemma_bounded();
    }

    /// A fresh daemon state at `now` (seconds since the epoch): no
    /// listeners, signals or rate limits; the built-in administrator on
    /// record with a token that does not expire.
    pub fn new(now: u64) -> (r: DaemonState)
        ensures
            r.wf(),
            r.history() == Seq::<PersistentView>::empty(),
            r.upcoming_id() == 1,
            r.rules() == Seq::<RuleView>::empty(),
            r.listeners() == Seq::<Seq<char>>::empty(),
            r.offers() == Seq::<Seq<SignalView>>::empty(),
            r.rate_clock() == 0,
            r.users().dom() == set!["admin"@],
            r.users()["admin"@].password_hash@ == "admin123"@,
            r.users()["admin"@].permissions == PermissionSet::all_spec(),
            r.tokens().dom() == set![r.default_token()],
            r.tokens()[r.default_token()].user_id@ == "admin"@,
            r.tokens()[r.default_token()].permissions == PermissionSet::all_spec(),
            r.tokens()[r.default_token()].expires_at is None,
    {
        DaemonState {
            subscribers: Registry::new(),
            signal_history: History::new(MAX_HISTORY_SIZE),
            rate_limits: RateLimiter::new(),
            auth: AuthStore::new(now),
        }
    }

    /// The built-in administrator's token.
    pub fn default_admin_token(&self) -> (r: &String)
        ensures
            r@ == self.default_token(),
    {
        self.auth.default_admin_token()
    }

    /// Puts a user on record, in place of any user with that id.
    pub fn add_user(&mut self, user_id: String, password_hash: String, permissions: PermissionSet)
        requires
            old(self).wf(),
        ensures
            final(self).wf(),
            final(self).users() == old(self).users().insert(
                user_id@,
                User { user_id, password_hash, permissions },
            ),
            final(self).tokens() == old(self).tokens(),
            final(self).default_token() == old(self).default_token(),
            final(self).history() == old(self).history(),
            final(self).upcoming_id() == old(self).upcoming_id(),
            final(self).rules() == old(self).rules(),
            final(self).listeners() == old(self).listeners(),
            final(self).offers() == old(self).offers(),
            final(self).rate_clock() == old(self).rate_clock(),
    {
        self.auth.add_user(user_id, password_hash, permissions);
    }

    /// Whether `token` is valid at `now` and allows what `required` names.
    pub fn authenticate(&self, token: &str, required: Option<Permission>, now: u64) -> (r: bool)
        ensures
            r == authorized(self.tokens(), token@, required, now),
    {
        self.auth.authenticate(token, required, now)
    }

    /// Removes `token`; tells whether it was issued.
    pub fn revoke_token(&mut self, token: &str) -> (r: bool)
        requires
            old(self).wf(),
        ensures
            final(self).wf(),
            r == old(self).tokens().contains_key(token@),
            final(self).tokens() == old(self).tokens().remove(token@),
            final(self).users() == old(self).users(),
            final(self).default_token() == old(self).default_token(),
            final(self).history() == old(self).history(),
            final(self).upcoming_id() == old(self).upcoming_id(),
            final(self).rules() == old(self).rules(),
            final(self).listeners() == old(self).listeners(),
            final(self).offers() == old(self).offers(),
            final(self).rate_clock() == old(self).rate_clock(),
    {
        self.auth.revoke_token(token)
    }

    /// Adds a listener for `pattern` fed through `tx`.
    pub fn subscribe(&mut self, pattern: String, tx: Sender<Signal>)
        requires
            old(self).wf(),
        ensures
            final(self).wf(),
            final(self).listeners() == old(self).listeners().push(pattern@),
            final(self).offers() == old(self).offers().push(Seq::empty()),
            final(self).rate_clock() == old(self).rate_clock(),
            final(self).users() == old(self).users(),
            final(self).tokens() == old(self).tokens(),
            final(self).default_token() == old(self).default_token(),
            final(self).history() == old(self).history(),
            final(self).upcoming_id() == old(self).upcoming_id(),
            final(self).rules() == old(self).rules(),
    {
        self.subscribers.subscribe(pattern, tx);
    }

    /// Appends `signal` to the history under a fresh id, dropping the
    /// oldest entry beyond capacity; returns the id.
    pub fn add_to_history(&mut self, signal: Signal, ttl: Option<u64>) -> (id: u64)
        requires
            old(self).wf(),
            old(self).upcoming_id() < u64::MAX,
        ensures
            final(self).wf(),
            id == old(self).upcoming_id(),
            final(self).upcoming_id() == id + 1,
            final(self).history() == keep_last(
                old(self).history().push(PersistentView { signal: signal@, id, ttl }),
                MAX_HISTORY_SIZE as nat,
            ),
            final(self).history().len() <= MAX_HISTORY_SIZE,
            final(self).users() == old(self).users(),
            final(self).tokens() == old(self).tokens(),
            final(self).default_token() == old(self).default_token(),
            final(self).rules() == old(self).rules(),
            final(self).listeners() == old(self).listeners(),
            final(self).offers() == old(self).offers(),
            final(self).rate_clock() == old(self).rate_clock(),
    {
        self.signal_history.append(signal, ttl)
    }

    /// Up to `limit` signals from the history whose names match `pattern`,
    /// newest first.
    pub fn get_recent_signals(&self, pattern: &str, limit: usize) -> (r: Vec<PersistentSignal>)
        requires
            self.wf(),
        ensures
            view_of(r@) == recent_matching(self.history(), pattern@, limit as nat),
    {
        self.signal_history.recent(pattern, limit)
    }

    /// Drops the signals that have expired at `now` (seconds since the
    /// epoch), keeping the others in order.
    pub fn cleanup_expired(&mut self, now: u64)
        requires
            old(self).wf(),
        ensures
            final(self).wf(),
            final(self).history() == unexpired(old(self).history(), now),
            forall|i: int|
                0 <= i < final(self).history().len() ==> !expired_at(#[trigger] final(self).history()[i], now),
            final(self).upcoming_id() == old(self).upcoming_id(),
            final(self).users() == old(self).users(),
            final(self).tokens() == old(self).tokens(),
            final(self).default_token() == old(self).default_token(),
            final(self).rules() == old(self).rules(),
            final(self).listeners() == old(self).listeners(),
            final(self).offers() == old(self).offers(),
            final(self).rate_clock() == old(self).rate_clock(),
    {
        self.signal_history.sweep(now);
    }

    /// Sets the rate limit for `pattern`: at most `max_signals` per
    /// `time_window_secs` seconds.
    pub fn set_rate_limit(&mut self, pattern: String, max_signals: u32, time_window_secs: u64)
        requires
            old(self).wf(),
        ensures
            final(self).wf(),
            final(self).rules() == with_rule(old(self).rules(), pattern@, max_signals, time_window_secs),
            final(self).history() == old(self).history(),
            final(self).upcoming_id() == old(self).upcoming_id(),
            final(self).users() == old(self).users(),
            final(self).tokens() == old(self).tokens(),
            final(self).default_token() == old(self).default_token(),
            final(self).listeners() == old(self).listeners(),
            final(self).offers() == old(self).offers(),
            final(self).rate_clock() == old(self).rate_clock(),
    {
        self.rate_limits.set_rule(pattern, max_signals, time_window_secs);
    }

    /// Decides whether a signal named `signal_name` may pass at `now_ms`
    /// (milliseconds on a monotonic clock), recording it if so.
    pub fn check_rate_limit(&mut self, signal_name: &str, now_ms: u64) -> (r: bool)
        requires
            old(self).wf(),
            old(self).rate_clock() <= now_ms,
        ensures
            final(self).wf(),
            final(self).rate_clock() == now_ms,
            r == passes(old(self).rules(), signal_name@, now_ms),
            final(self).rules() == after_check(old(self).rules(), signal_name@, now_ms),
            final(self).history() == old(self).history(),
            final(self).upcoming_id() == old(self).upcoming_id(),
            final(self).users() == old(self).users(),
            final(self).tokens() == old(self).tokens(),
            final(self).default_token() == old(self).default_token(),
            final(self).listeners() == old(self).listeners(),
            final(self).offers() == old(self).offers(),
    {
        self.rate_limits.check(signal_name, now_ms)
    }

    /// Forgets, in every rule, the admissions outside its window ending at
    /// `now_ms`.
    pub fn cleanup_rate_limit_counters(&mut self, now_ms: u64)
        requires
            old(self).wf(),
            old(self).rate_clock() <= now_ms,
        ensures
            final(self).wf(),
            final(self).rate_clock() == now_ms,
            final(self).rules().len() == old(self).rules().len(),
            forall|i: int|
                0 <= i < old(self).rules().len() ==> #[trigger] final(self).rules()[i] == (RuleView {
                    counter: fresh_of(old(self).rules()[i].counter, now_ms, old(self).rules()[i].time_window),
                    ..old(self).rules()[i]
                }),
            final(self).history() == old(self).history(),
            final(self).upcoming_id() == old(self).upcoming_id(),
            final(self).users() == old(self).users(),
            final(self).tokens() == old(self).tokens(),
            final(self).default_token() == old(self).default_token(),
            final(self).listeners() == old(self).listeners(),
            final(self).offers() == old(self).offers(),
    {
        self.rate_limits.trim(now_ms);
    }

    /// Publishes `signal`: unless a rate limit refuses it (or no id is
    /// left), it is appended to the history and offered to every listener
    /// whose pattern matches its name. Returns the number of those
    /// listeners.
    pub fn publish(&mut self, signal: Signal, ttl: Option<u64>, now_ms: u64) -> (r: Result<usize, String>)
        requires
            old(self).wf(),
            old(self).rate_clock() <= now_ms,
        ensures
            final(self).wf(),
            final(self).rate_clock() == if old(self).upcoming_id() == u64::MAX {
                old(self).rate_clock()
            } else {
                now_ms
            },
            match publish_error(old(self).rules(), signal.name@, now_ms, old(self).upcoming_id()) {
                Some(m) => {
                    &&& r matches Err(e) && e@ == m
                    &&& final(self).history() == old(self).history()
                    &&& final(self).upcoming_id() == old(self).upcoming_id()
                    &&& final(self).offers() == old(self).offers()
                },
                None => {
                    &&& final(self).offers() == offers_after(old(self).listeners(), old(self).offers(), signal@)
                    &&& r == Ok::<usize, String>(count_matching_patterns(old(self).listeners(), signal.name@) as usize)
                    &&& final(self).history() == keep_last(
                        old(self).history().push(
                            PersistentView { signal: signal@, id: old(self).upcoming_id(), ttl },
                        ),
                        MAX_HISTORY_SIZE as nat,
                    )
                    &&& final(self).upcoming_id() == old(self).upcoming_id() + 1
                },
            },
            final(self).rules() == if old(self).upcoming_id() == u64::MAX {
                old(self).rules()
            } else {
                after_check(old(self).rules(), signal.name@, now_ms)
            },
            final(self).users() == old(self).users(),
            final(self).tokens() == old(self).tokens(),
            final(self).default_token() == old(self).default_token(),
            final(self).listeners() == old(self).listeners(),
    {
        if !self.signal_history.can_append() {
            return Err(String::from_str("Signal ids exhausted"));
        }
        if !self.rate_limits.check(signal.name.as_str(), now_ms) {
            let mut message = String::from_str("Rate limit exceeded for signal: ");
            message.append(signal.name.as_str());
            return Err(message);
        }
        let copy = signal.duplicate();
        self.signal_history.append(signal, ttl);
        let count = self.subscribers.fanout(&copy);
        Ok(count)
    }
}

/// The reply to a request whose token is unknown, expired, or lacks the
/// permission that the command needs.
pub const AUTH_FAILED: &'static str = "ERROR:Authentication failed or insufficient permissions\n";

/// The reply to a login with wrong credentials.
pub const INVALID_CREDENTIALS: &'static str = "ERROR:Invalid credentials\n";

/// The reply when no fresh token could be drawn.
pub const TOKEN_UNAVAILABLE: &'static str = "ERROR:Could not issue a token\n";

/// The password that a user created along with a token gets.
pub const PLACEHOLDER_PASSWORD: &'static str = "default_password";

/// Whether nothing changed between `a` and `b`.
pub open spec fn unchanged(a: &DaemonState, b: &DaemonState) -> bool {
    &&& b.history() == a.history()
    &&& b.upcoming_id() == a.upcoming_id()
    &&& b.rules() == a.rules()
    &&& b.listeners() == a.listeners()
    &&& b.offers() == a.offers()
    &&& b.rate_clock() == a.rate_clock()
    &&& b.users() == a.users()
    &&& b.tokens() == a.tokens()
    &&& b.default_token() == a.default_token()
}

/// Whether only the tokens may differ between `a` and `b`.
pub open spec fn only_tokens_changed(a: &DaemonState, b: &DaemonState) -> bool {
    &&& b.history() == a.history()
    &&& b.upcoming_id() == a.upcoming_id()
    &&& b.rules() == a.rules()
    &&& b.listeners() == a.listeners()
    &&& b.offers() == a.offers()
    &&& b.rate_clock() == a.rate_clock()
    &&& b.users() == a.users()
    &&& b.default_token() == a.default_token()
}

/// The line that describes one rate-limit rule.
pub open spec fn rule_line(r: RuleView) -> Seq<char> {
    "  "@ + r.pattern + ": "@ + decimal_text(r.max_signals as nat) + " signals per "@ + decimal_text(
        r.time_window as nat,
    ) + " seconds\n"@
}

/// The lines that describe `rules`, in order.
pub open spec fn rule_lines(rules: Seq<RuleView>) -> Seq<char>
    decreases rules.len(),
{
    if rules.len() == 0 {
        Seq::empty()
    } else {
        rule_lines(rules.drop_last()) + rule_line(rules.last())
    }
}

/// The text that lists the rate-limit rules.
pub open spec fn rate_report(rules: Seq<RuleView>) -> Seq<char> {
    if rules.len() == 0 {
        "No rate limits configured\n"@
    } else {
        "Configured rate limits:\n"@ + rule_lines(rules)
    }
}

/// A reply line: `head`, then `body`, then a newline.
fn reply_line(head: &str, body: &str) -> (r: String)
    ensures
        r@ == head@ + body@ + "\n"@,
{
    let mut r = String::from_str(head);
    r.append(body);
    r.append("\n");
    r
}

impl DaemonState {
    /// Issues a token to `user_id` at `now`, valid for `expires_in` seconds
    /// or without expiry, with the user's present permissions. `None`, with
    /// nothing changed, when no fresh token could be drawn.
    pub fn generate_token(&mut self, user_id: String, expires_in: Option<u64>, now: u64) -> (r: Option<String>)
        requires
            old(self).wf(),
        ensures
            final(self).wf(),
            only_tokens_changed(old(self), final(self)),
            old(self).tokens() == Map::<Seq<char>, AuthToken>::empty() ==> r is Some,
            match r {
                Some(t) => token_shaped(t@) && token_issued(
                    old(self).tokens(),
                    final(self).tokens(),
                    t@,
                    user_id@,
                    permissions_for(old(self).users(), user_id@),
                    now,
                    expiry(now, expires_in),
                ),
                None => final(self).tokens() == old(self).tokens(),
            },
    {
        self.auth.generate_token(user_id, expires_in, now)
    }

    /// Issues a token valid for an hour when the password is that of the
    /// user on record; `None` otherwise.
    pub fn login(&mut self, user_id: &str, password: &str, now: u64) -> (r: Option<String>)
        requires
            old(self).wf(),
        ensures
            final(self).wf(),
            only_tokens_changed(old(self), final(self)),
            !credentials_match(old(self).users(), user_id@, password@) ==> r is None,
            credentials_match(old(self).users(), user_id@, password@) && old(self).tokens() == Map::<
                Seq<char>,
                AuthToken,
            >::empty() ==> r is Some,
            match r {
                Some(t) => credentials_match(old(self).users(), user_id@, password@) && token_shaped(t@)
                    && token_issued(
                    old(self).tokens(),
                    final(self).tokens(),
                    t@,
                    user_id@,
                    old(self).users()[user_id@].permissions,
                    now,
                    expiry(now, Some(LOGIN_TOKEN_SECONDS)),
                ),
                None => final(self).tokens() == old(self).tokens(),
            },
    {
        self.auth.login(user_id, password, now)
    }

    /// Answers `LOGIN`.
    pub fn respond_login(&mut self, user_id: &str, password: &str, now: u64) -> (r: String)
        requires
            old(self).wf(),
        ensures
            final(self).wf(),
            only_tokens_changed(old(self), final(self)),
            !credentials_match(old(self).users(), user_id@, password@) ==> r@ == INVALID_CREDENTIALS@
                && final(self).tokens() == old(self).tokens(),
            credentials_match(old(self).users(), user_id@, password@) && old(self).tokens() == Map::<
                Seq<char>,
                AuthToken,
            >::empty() ==> exists|t: Seq<char>|
                r@ == "TOKEN:"@ + t + "\n"@ && token_shaped(t) && token_issued(
                    old(self).tokens(),
                    final(self).tokens(),
                    t,
                    user_id@,
                    old(self).users()[user_id@].permissions,
                    now,
                    expiry(now, Some(LOGIN_TOKEN_SECONDS)),
                ),
            credentials_match(old(self).users(), user_id@, password@) ==> (r@ == TOKEN_UNAVAILABLE@
                && final(self).tokens() == old(self).tokens()) || exists|t: Seq<char>|
                r@ == "TOKEN:"@ + t + "\n"@ && token_shaped(t) && token_issued(
                    old(self).tokens(),
                    final(self).tokens(),
                    t,
                    user_id@,
                    old(self).users()[user_id@].permissions,
                    now,
                    expiry(now, Some(LOGIN_TOKEN_SECONDS)),
                ),
    {
        if !self.auth.check_credentials(user_id, password) {
            return String::from_str(INVALID_CREDENTIALS);
        }
        match self.login(user_id, password, now) {
            Some(t) => {
                let r = reply_line("TOKEN:", t.as_str());
                assert(r@ == "TOKEN:"@ + t@ + "\n"@);
                r
            },
            None => String::from_str(TOKEN_UNAVAILABLE),
        }
    }

    /// Answers `CREATE_TOKEN`: with an administrator's token, puts
    /// `user_id` on record with a placeholder password and the permissions
    /// named in the comma-separated `permissions`, then issues a token to it.
    pub fn respond_create_token(
        &mut self,
        token: &str,
        user_id: &str,
        permissions: &str,
        expires_in: Option<u64>,
        now: u64,
    ) -> (r: String)
        requires
            old(self).wf(),
        ensures
            final(self).wf(),
            !authorized(old(self).tokens(), token@, Some(Permission::Admin), now) ==> r@ == AUTH_FAILED@
                && unchanged(old(self), final(self)),
            authorized(old(self).tokens(), token@, Some(Permission::Admin), now) ==> {
                let perms = permissions_named(split_all(permissions@, ','));
                &&& final(self).users() == old(self).users().insert(user_id@, final(self).users()[user_id@])
                &&& final(self).users()[user_id@].user_id@ == user_id@
                &&& final(self).users()[user_id@].password_hash@ == PLACEHOLDER_PASSWORD@
                &&& final(self).users()[user_id@].permissions == perms
                &&& final(self).history() == old(self).history()
                &&& final(self).upcoming_id() == old(self).upcoming_id()
                &&& final(self).rules() == old(self).rules()
                &&& final(self).listeners() == old(self).listeners()
                &&& final(self).default_token() == old(self).default_token()
                &&& (r@ == TOKEN_UNAVAILABLE@ && final(self).tokens() == old(self).tokens()) || exists|t: Seq<char>|
                    r@ == "New token created: "@ + t + "\n"@ && token_shaped(t) && token_issued(
                        old(self).tokens(),
                        final(self).tokens(),
                        t,
                        user_id@,
                        perms,
                        now,
                        expiry(now, expires_in),
                    )
            },
    {
        if !self.auth.authenticate(token, Some(Permission::Admin), now) {
            return String::from_str(AUTH_FAILED);
        }
        let perms = parse_permissions(permissions);
        self.auth.add_user(String::from_str(user_id), String::from_str(PLACEHOLDER_PASSWORD), perms);
        let ghost mid_users = self.users();
        assert(mid_users == old(self).users().insert(user_id@, mid_users[user_id@]));
        assert(permissions_for(mid_users, user_id@) == perms);
        let ghost mid_tokens = self.tokens();
        assert(mid_tokens == old(self).tokens());
        match self.auth.generate_token(String::from_str(user_id), expires_in, now) {
            Some(t) => {
                let r = reply_line("New token created: ", t.as_str());
                assert(r@ == "New token created: "@ + t@ + "\n"@);
                assert(token_issued(old(self).tokens(), self.tokens(), t@, user_id@, perms, now, expiry(now, expires_in)));
                r
            },
            None => String::from_str(TOKEN_UNAVAILABLE),
        }
    }

    /// Answers `REVOKE_TOKEN`: with an administrator's token, removes
    /// `token`.
    pub fn respond_revoke_token(&mut self, admin_token: &str, token: &str, now: u64) -> (r: String)
        requires
            old(self).wf(),
        ensures
            final(self).wf(),
            only_tokens_changed(old(self), final(self)),
            !authorized(old(self).tokens(), admin_token@, Some(Permission::Admin), now) ==> r@ == AUTH_FAILED@
                && final(self).tokens() == old(self).tokens(),
            authorized(old(self).tokens(), admin_token@, Some(Permission::Admin), now) ==> {
                &&& r@ == if old(self).tokens().contains_key(token@) {
                    "OK\n"@
                } else {
                    "ERROR:Token not found\n"@
                }
                &&& final(self).tokens() == old(self).tokens().remove(token@)
            },
    {
        if !self.auth.authenticate(admin_token, Some(Permission::Admin), now) {
            return String::from_str(AUTH_FAILED);
        }
        if self.auth.revoke_token(token) {
            String::from_str("OK\n")
        } else {
            String::from_str("ERROR:Token not found\n")
        }
    }

    /// Answers `EMIT`, given the signal as decoded from the request (or the
    /// decoder's message): with a token that allows writing, publishes it.
    pub fn respond_emit(
        &mut self,
        token: &str,
        decoded: Result<Signal, String>,
        ttl: Option<u64>,
        now: u64,
        now_ms: u64,
    ) -> (r: String)
        requires
            old(self).wf(),
            old(self).rate_clock() <= now_ms,
        ensures
            final(self).wf(),
            final(self).users() == old(self).users(),
            final(self).tokens() == old(self).tokens(),
            final(self).default_token() == old(self).default_token(),
            final(self).listeners() == old(self).listeners(),
            !authorized(old(self).tokens(), token@, Some(Permission::Write), now) ==> r@ == AUTH_FAILED@
                && unchanged(old(self), final(self)),
            authorized(old(self).tokens(), token@, Some(Permission::Write), now) ==> match decoded {
                Err(e) => r@ == "ERROR:"@ + e@ + "\n"@ && unchanged(old(self), final(self)),
                Ok(s) => {
                    &&& final(self).rate_clock() == if old(self).upcoming_id() == u64::MAX {
                        old(self).rate_clock()
                    } else {
                        now_ms
                    }
                    &&& final(self).rules() == if old(self).upcoming_id() == u64::MAX {
                        old(self).rules()
                    } else {
                        after_check(old(self).rules(), s.name@, now_ms)
                    }
                    &&& match publish_error(old(self).rules(), s.name@, now_ms, old(self).upcoming_id()) {
                        Some(m) => {
                            &&& r@ == "ERROR:"@ + m + "\n"@
                            &&& final(self).history() == old(self).history()
                            &&& final(self).upcoming_id() == old(self).upcoming_id()
                            &&& final(self).offers() == old(self).offers()
                        },
                        None => {
                            &&& r@ == "OK\n"@
                            &&& final(self).history() == keep_last(
                                old(self).history().push(
                                    PersistentView { signal: s@, id: old(self).upcoming_id(), ttl },
                                ),
                                MAX_HISTORY_SIZE as nat,
                            )
                            &&& final(self).upcoming_id() == old(self).upcoming_id() + 1
                            &&& final(self).offers() == offers_after(
                                old(self).listeners(),
                                old(self).offers(),
                                s@,
                            )
                        },
                    }
                },
            },
    {
        if !self.auth.authenticate(token, Some(Permission::Write), now) {
            return String::from_str(AUTH_FAILED);
        }
        match decoded {
            Err(e) => reply_line("ERROR:", e.as_str()),
            Ok(signal) => {
                match self.publish(signal, ttl, now_ms) {
                    Ok(_) => String::from_str("OK\n"),
                    Err(m) => reply_line("ERROR:", m.as_str()),
                }
            },
        }
    }

    /// Answers `LISTEN`: with a token that allows reading, adds a listener
    /// for `pattern` fed through `tx`; the reply is the line that confirms it.
    pub fn respond_listen(&mut self, token: &str, pattern: String, tx: Sender<Signal>, now: u64) -> (r: Result<String, String>)
        requires
            old(self).wf(),
        ensures
            final(self).wf(),
            !authorized(old(self).tokens(), token@, Some(Permission::Read), now) ==> (r matches Err(e) && e@
                == AUTH_FAILED@) && unchanged(old(self), final(self)),
            authorized(old(self).tokens(), token@, Some(Permission::Read), now) ==> (r matches Ok(l) && l@
                == "LISTENING\n"@) && final(self).listeners() == old(self).listeners().push(pattern@)
                && final(self).offers() == old(self).offers().push(Seq::empty())
                && final(self).rate_clock() == old(self).rate_clock()
                && final(self).history() == old(self).history() && final(self).upcoming_id() == old(self).upcoming_id()
                && final(self).rules() == old(self).rules() && final(self).users() == old(self).users()
                && final(self).tokens() == old(self).tokens() && final(self).default_token() == old(self).default_token(),
    {
        if !self.auth.authenticate(token, Some(Permission::Read), now) {
            return Err(String::from_str(AUTH_FAILED));
        }
        self.subscribers.subscribe(pattern, tx);
        Ok(String::from_str("LISTENING\n"))
    }

    /// Answers `HISTORY`: with a token that allows it, up to `limit`
    /// signals whose names match `pattern`, newest first.
    pub fn respond_history(&self, token: &str, pattern: &str, limit: usize, now: u64) -> (r: Result<Vec<PersistentSignal>, String>)
        requires
            self.wf(),
        ensures
            !authorized(self.tokens(), token@, Some(Permission::History), now) ==> (r matches Err(e) && e@
                == AUTH_FAILED@),
            authorized(self.tokens(), token@, Some(Permission::History), now) ==> (r matches Ok(v) && view_of(v@)
                == recent_matching(self.history(), pattern@, limit as nat)),
    {
        if !self.auth.authenticate(token, Some(Permission::History), now) {
            return Err(String::from_str(AUTH_FAILED));
        }
        Ok(self.signal_history.recent(pattern, limit))
    }

    /// Answers `RATE_LIMIT`: with a token that allows it, sets the rule for
    /// `pattern`.
    pub fn respond_rate_limit(&mut self, token: &str, pattern: &str, max_signals: u32, per_seconds: u64, now: u64) -> (r: String)
        requires
            old(self).wf(),
        ensures
            final(self).wf(),
            !authorized(old(self).tokens(), token@, Some(Permission::RateLimit), now) ==> r@ == AUTH_FAILED@
                && unchanged(old(self), final(self)),
            authorized(old(self).tokens(), token@, Some(Permission::RateLimit), now) ==> r@
                == "Rate limit configured successfully\n"@ && final(self).rules() == with_rule(
                old(self).rules(),
                pattern@,
                max_signals,
                per_seconds,
            ) && final(self).history() == old(self).history() && final(self).upcoming_id() == old(self).upcoming_id()
                && final(self).listeners() == old(self).listeners() && final(self).users() == old(self).users()
                && final(self).offers() == old(self).offers() && final(self).rate_clock() == old(self).rate_clock()
                && final(self).tokens() == old(self).tokens() && final(self).default_token() == old(self).default_token(),
    {
        if !self.auth.authenticate(token, Some(Permission::RateLimit), now) {
            return String::from_str(AUTH_FAILED);
        }
        self.rate_limits.set_rule(String::from_str(pattern), max_signals, per_seconds);
        String::from_str("Rate limit configured successfully\n")
    }

    /// The text that lists the rate-limit rules.
    pub fn rate_limit_report(&self) -> (r: String)
        ensures
            r@ == rate_report(self.rules()),
    {
        let n = self.rate_limits.len();
        if n == 0 {
            return String::from_str("No rate limits configured\n");
        }
        let mut r = String::from_str("Configured rate limits:\n");
        let mut i: usize = 0;
        let ghost rules = self.rules();
        assert(rules.take(0) =~= Seq::<RuleView>::empty());
        assert(r@ =~= "Configured rate limits:\n"@ + rule_lines(rules.take(0)));
        while i < n
            invariant
                n == rules.len(),
                rules == self.rules(),
                i <= n,
                r@ == "Configured rate limits:\n"@ + rule_lines(rules.take(i as int)),
            decreases n - i,
        {
            let (pattern, max_signals, window) = self.rate_limits.rule_at(i);
            let ghost before = r@;
            r.append("  ");
            r.append(pattern.as_str());
            r.append(": ");
            append_decimal(&mut r, max_signals as u64);
            r.append(" signals per ");
            append_decimal(&mut r, window);
            r.append(" seconds\n");
            assert(rules.take(i + 1).drop_last() =~= rules.take(i as int));
            assert(r@ =~= before + rule_line(rules[i as int]));
            i = i + 1;
        }
        assert(rules.take(n as int) =~= rules);
        r
    }

    /// Answers `SHOW_RATE_LIMITS`: with a token that allows reading, the
    /// list of rules.
    pub fn respond_show_rate_limits(&self, token: &str, now: u64) -> (r: String)
        ensures
            !authorized(self.tokens(), token@, Some(Permission::Read), now) ==> r@ == AUTH_FAILED@,
            authorized(self.tokens(), token@, Some(Permission::Read), now) ==> r@ == rate_report(self.rules()),
    {
        if !self.auth.authenticate(token, Some(Permission::Read), now) {
            return String::from_str(AUTH_FAILED);
        }
        self.rate_limit_report()
    }
}

} // verus!
