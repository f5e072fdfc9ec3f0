use vstd::prelude::*;
use vstd::string::*;
use crate::auth::{Permission, PermissionSet};

verus! {

/// The position of the first `c` in `s`, if any.
pub open spec fn first_index(s: Seq<char>, c: char) -> Option<nat>
    decreases s.len(),
{
    if s.len() == 0 {
        None
    } else if s[0] == c {
        Some(0)
    } else {
        match first_index(s.drop_first(), c) {
            Some(k) => Some(k + 1),
            None => None,
        }
    }
}

/// `s` cut at its first `n - 1` pipes: at most `n` fields, the last of
/// which keeps any further pipes.
pub open spec fn split_n(s: Seq<char>, n: nat) -> Seq<Seq<char>>
    decreases n,
{
    if n <= 1 {
        seq![s]
    } else {
        match first_index(s, '|') {
            Some(k) => seq![s.take(k as int)] + split_n(s.skip(k + 1 as int), (n - 1) as nat),
            None => seq![s],
        }
    }
}

proof fn lemma_first_index(s: Seq<char>, c: char, k: int)
    requires
        0 <= k <= s.len(),
        forall|i: int| 0 <= i < k ==> s[i] != c,
    ensures
        k < s.len() && s[k] == c ==> first_index(s, c) == Some(k as nat),
        k == s.len() ==> first_index(s, c) is None,
    decreases k,
{
    if k > 0 {
        let d = s.drop_first();
        assert forall|i: int| 0 <= i < k - 1 implies d[i] != c by {
            assert(d[i] == s[i + 1]);
        }
        lemma_first_index(d, c, k - 1);
        if k < s.len() {
            assert(d[k - 1] == s[k]);
        }
    } else if s.len() == 0 {
    }
}

/// Views a sequence of strings.
pub open spec fn texts(v: Seq<String>) -> Seq<Seq<char>> {
    v.map_values(|s: String| s@)
}

/// Splits `s` as `split_n` says, the way `str::splitn(n, '|')` does.
pub fn split_fields(s: &str, n: usize) -> (r: Vec<String>)
    requires
        n >= 1,
    ensures
        texts(r@) == split_n(s@, n as nat),
{
    let len = s.unicode_len();
    let mut out: Vec<String> = Vec::new();
    let mut start: usize = 0;
    assert(s@.skip(0) =~= s@);
    assert(texts(out@) + split_n(s@.skip(0), n as nat) =~= split_n(s@, n as nat));
    while out.len() + 1 < n
        invariant
            len == s@.len(),
            start <= len,
            out@.len() < n,
            split_n(s@, n as nat) == texts(out@) + split_n(s@.skip(start as int), (n - out@.len()) as nat),
        decreases len - start, n - out@.len(),
    {
        let ghost t = s@.skip(start as int);
        let mut j: usize = start;
        while j < len && s.get_char(j) != '|'
            invariant
                start <= j <= len,
                len == s@.len(),
                t == s@.skip(start as int),
                forall|i: int| 0 <= i < j - start ==> t[i] != '|',
            decreases len - j,
        {
            j = j + 1;
        }
        proof {
            lemma_first_index(t, '|', j - start);
        }
        let ghost m = (n - out@.len()) as nat;
        if j == len {
            let last = s.substring_char(start, len);
            let ghost before = out@;
            out.push(String::from_str(last));
            assert(last@ =~= t);
            assert(texts(out@) =~= texts(before) + split_n(t, m));
            return out;
        }
        let field = s.substring_char(start, j);
        let ghost before = out@;
        out.push(String::from_str(field));
        assert(field@ =~= t.take(j - start));
        assert(t.skip(j - start + 1) =~= s@.skip(j + 1));
        assert(texts(out@) =~= texts(before) + seq![t.take(j - start)]);
        assert(split_n(t, m) == seq![t.take(j - start)] + split_n(t.skip(j - start + 1), (m - 1) as nat));
        assert(texts(out@) + split_n(s@.skip(j + 1), (n - out@.len()) as nat) =~= texts(before) + split_n(t, m));
        start = j + 1;
    }
    let last = s.substring_char(start, len);
    let ghost before = out@;
    let ghost t = s@.skip(start as int);
    out.push(String::from_str(last));
    assert(last@ =~= t);
    assert(texts(out@) =~= texts(before) + split_n(t, (n - before.len()) as nat));
    out
}

/// Whether `c` is an ASCII decimal digit.
pub open spec fn is_digit(c: char) -> bool {
    '0' <= c && c <= '9'
}

/// The number that the decimal digits `s` spell.
pub open spec fn decimal_value(s: Seq<char>) -> nat
    decreases s.len(),
{
    if s.len() == 0 {
        0
    } else {
        decimal_value(s.drop_last()) * 10 + (s.last() as nat - '0' as nat) as nat
    }
}

/// Whether every character of `s` is a decimal digit.
pub open spec fn all_digits(s: Seq<char>) -> bool {
    forall|i: int| 0 <= i < s.len() ==> is_digit(#[trigger] s[i])
}

/// `s` without one leading `+`.
pub open spec fn unsigned_digits(s: Seq<char>) -> Seq<char> {
    if s.len() > 0 && s[0] == '+' {
        s.drop_first()
    } else {
        s
    }
}

/// What parsing `s` as an unsigned integer no greater than `max` gives, as
/// std's `from_str` does for unsigned types: an optional `+`, then at least
/// one decimal digit and nothing else, spelling a number within range.
pub open spec fn parse_unsigned(s: Seq<char>, max: nat) -> Option<nat> {
    let d = unsigned_digits(s);
    if d.len() > 0 && all_digits(d) && decimal_value(d) <= max {
        Some(decimal_value(d))
    } else {
        None
    }
}

proof fn lemma_decimal_grows(s: Seq<char>, i: int, j: int)
    requires
        0 <= i <= j <= s.len(),
        forall|k: int| 0 <= k < s.len() ==> is_digit(#[trigger] s[k]),
    ensures
        decimal_value(s.take(i)) <= decimal_value(s.take(j)),
    decreases j - i,
{
    if i < j {
        lemma_decimal_grows(s, i, j - 1);
        assert(s.take(j).drop_last() =~= s.take(j - 1));
    }
}

/// Parses `s` as an unsigned integer no greater than `max`.
pub fn parse_bounded(s: &str, max: u64) -> (r: Option<u64>)
    ensures
        match parse_unsigned(s@, max as nat) {
            Some(v) => r == Some(v as u64),
            None => r is None,
        },
{
    let len = s.unicode_len();
    let mut i: usize = 0;
    if len > 0 && s.get_char(0) == '+' {
        i = 1;
    }
    let ghost d = unsigned_digits(s@);
    assert(d =~= s@.skip(i as int));
    if i == len {
        return None;
    }
    let start = i;
    let mut value: u64 = 0;
    while i < len
        invariant
            start <= i <= len,
            len == s@.len(),
            start < len,
            d == s@.skip(start as int),
            d == unsigned_digits(s@),
            forall|k: int| 0 <= k < i - start ==> is_digit(#[trigger] d[k]),
            value as nat == decimal_value(d.take(i - start)),
            value <= max,
        decreases len - i,
    {
        let c = s.get_char(i);
        assert(d[i - start] == s@[i as int]);
        if c < '0' || c > '9' {
            assert(!is_digit(d[i - start]));
            assert(d.len() > i - start);
            assert(!all_digits(d));
            return None;
        }
        let digit = (c as u32 - '0' as u32) as u64;
        assert(d.take(i - start + 1).drop_last() =~= d.take(i - start));
        if digit > max || value > (max - digit) / 10 {
            let ghost dv = decimal_value(d.take(i - start + 1));
            assert(dv == value * 10 + digit);
            assert(dv > max) by (nonlinear_arith)
                requires
                    dv == value * 10 + digit,
                    digit > max || value > (max - digit) / 10,
                    value >= 0,
            {
            }
            let ghost stop = i - start + 1;
            proof {
                if all_digits(d) {
                    lemma_decimal_grows(d, stop, d.len() as int);
                    assert(d.take(d.len() as int) =~= d);
                }
            }
            return None;
        }
        value = value * 10 + digit;
        i = i + 1;
    }
    assert(d.take(len - start) =~= d);
    Some(value)
}

/// Whether `s` begins with `prefix`.
pub fn has_prefix(s: &str, prefix: &str) -> (r: bool)
    ensures
        r == crate::pattern::starts_with(s@, prefix@),
{
    let n = prefix.unicode_len();
    if s.unicode_len() < n {
        return false;
    }
    let head = s.substring_char(0, n);
    crate::pattern::same_chars(head, prefix)
}

/// The number of results that a history query gives when its limit does
/// not parse.
pub const DEFAULT_HISTORY_LIMIT: usize = 10;

/// One request line, parsed.
pub enum Request {
    Login { user_id: String, password: String },
    CreateToken { token: String, user_id: String, permissions: String, expires_in: Option<u64> },
    RevokeToken { admin_token: String, token: String },
    Emit { token: String, signal_json: String, ttl: Option<u64> },
    Listen { token: String, pattern: String },
    History { token: String, pattern: String, limit: usize },
    RateLimit { token: String, pattern: String, max_signals: u32, per_seconds: u64 },
    ShowRateLimits { token: String },
    /// A known command with the wrong shape: the reply says so.
    Invalid { reply: String },
    /// No known command: the connection is closed without a reply.
    Unknown,
}

/// The mathematical content of a `Request`.
pub enum RequestView {
    Login { user_id: Seq<char>, password: Seq<char> },
    CreateToken { token: Seq<char>, user_id: Seq<char>, permissions: Seq<char>, expires_in: Option<u64> },
    RevokeToken { admin_token: Seq<char>, token: Seq<char> },
    Emit { token: Seq<char>, signal_json: Seq<char>, ttl: Option<u64> },
    Listen { token: Seq<char>, pattern: Seq<char> },
    History { token: Seq<char>, pattern: Seq<char>, limit: usize },
    RateLimit { token: Seq<char>, pattern: Seq<char>, max_signals: u32, per_seconds: u64 },
    ShowRateLimits { token: Seq<char> },
    Invalid { reply: Seq<char> },
    Unknown,
}

impl View for Request {
    type V = RequestView;

    open spec fn view(&self) -> RequestView {
        match self {
            Request::Login { user_id, password } => RequestView::Login { user_id: user_id@, password: password@ },
            Request::CreateToken { token, user_id, permissions, expires_in } => RequestView::CreateToken {
                token: token@,
                user_id: user_id@,
                permissions: permissions@,
                expires_in: *expires_in,
            },
            Request::RevokeToken { admin_token, token } => RequestView::RevokeToken {
                admin_token: admin_token@,
                token: token@,
            },
            Request::Emit { token, signal_json, ttl } => RequestView::Emit {
                token: token@,
                signal_json: signal_json@,
                ttl: *ttl,
            },
            Request::Listen { token, pattern } => RequestView::Listen { token: token@, pattern: pattern@ },
            Request::History { token, pattern, limit } => RequestView::History {
                token: token@,
                pattern: pattern@,
                limit: *limit,
            },
            Request::RateLimit { token, pattern, max_signals, per_seconds } => RequestView::RateLimit {
                token: token@,
                pattern: pattern@,
                max_signals: *max_signals,
                per_seconds: *per_seconds,
            },
            Request::ShowRateLimits { token } => RequestView::ShowRateLimits { token: token@ },
            Request::Invalid { reply } => RequestView::Invalid { reply: reply@ },
            Request::Unknown => RequestView::Unknown,
        }
    }
}

/// The line without its terminating newline, if it has one.
pub open spec fn line_body(line: Seq<char>) -> Seq<char> {
    if line.len() > 0 && line.last() == '\n' {
        line.drop_last()
    } else {
        line
    }
}

/// Field `i` of `f` read as a `u64`, when there is such a field and it parses.
pub open spec fn optional_number(f: Seq<Seq<char>>, i: int) -> Option<u64> {
    if 0 <= i < f.len() {
        match parse_unsigned(f[i], u64::MAX as nat) {
            Some(v) => Some(v as u64),
            None => None,
        }
    } else {
        None
    }
}

/// The reply to a known command whose fields do not fit its shape.
pub open spec fn invalid(reply: &str) -> RequestView {
    RequestView::Invalid { reply: reply@ }
}

/// What a request line means.
pub open spec fn parse_spec(line: Seq<char>) -> RequestView {
    let b = line_body(line);
    if crate::pattern::starts_with(b, "LOGIN|"@) {
        let f = split_n(b.skip("LOGIN|"@.len() as int), 2);
        if f.len() == 2 {
            RequestView::Login { user_id: f[0], password: f[1] }
        } else {
            invalid("ERROR:Invalid LOGIN format\n")
        }
    } else if crate::pattern::starts_with(b, "CREATE_TOKEN|"@) {
        let f = split_n(b.skip("CREATE_TOKEN|"@.len() as int), 4);
        if f.len() >= 3 {
            RequestView::CreateToken {
                token: f[0],
                user_id: f[1],
                permissions: f[2],
                expires_in: optional_number(f, 3),
            }
        } else {
            invalid("ERROR:Invalid CREATE_TOKEN format\n")
        }
    } else if crate::pattern::starts_with(b, "REVOKE_TOKEN|"@) {
        let f = split_n(b.skip("REVOKE_TOKEN|"@.len() as int), 2);
        if f.len() == 2 {
            RequestView::RevokeToken { admin_token: f[0], token: f[1] }
        } else {
            invalid("ERROR:Invalid REVOKE_TOKEN format\n")
        }
    } else if crate::pattern::starts_with(b, "EMIT|"@) {
        let f = split_n(b.skip("EMIT|"@.len() as int), 3);
        if f.len() >= 2 {
            RequestView::Emit { token: f[0], signal_json: f[1], ttl: optional_number(f, 2) }
        } else {
            invalid("ERROR:Invalid EMIT format\n")
        }
    } else if crate::pattern::starts_with(b, "LISTEN|"@) {
        let f = split_n(b.skip("LISTEN|"@.len() as int), 2);
        if f.len() == 2 {
            RequestView::Listen { token: f[0], pattern: f[1] }
        } else {
            invalid("ERROR:Invalid LISTEN format\n")
        }
    } else if crate::pattern::starts_with(b, "HISTORY|"@) {
        let f = split_n(b.skip("HISTORY|"@.len() as int), 3);
        if f.len() == 3 {
            RequestView::History {
                token: f[0],
                pattern: f[1],
                limit: match parse_unsigned(f[2], usize::MAX as nat) {
                    Some(v) => v as usize,
                    None => DEFAULT_HISTORY_LIMIT,
                },
            }
        } else {
            invalid("ERROR:Invalid HISTORY format\n")
        }
    } else if crate::pattern::starts_with(b, "RATE_LIMIT|"@) {
        let f = split_n(b.skip("RATE_LIMIT|"@.len() as int), 4);
        if f.len() == 4 {
            match (parse_unsigned(f[2], u32::MAX as nat), parse_unsigned(f[3], u64::MAX as nat)) {
                (Some(m), Some(w)) => RequestView::RateLimit {
                    token: f[0],
                    pattern: f[1],
                    max_signals: m as u32,
                    per_seconds: w as u64,
                },
                _ => invalid("ERROR:Invalid RATE_LIMIT number\n"),
            }
        } else {
            invalid("ERROR:Invalid RATE_LIMIT format\n")
        }
    } else if crate::pattern::starts_with(b, "SHOW_RATE_LIMITS|"@) {
        RequestView::ShowRateLimits { token: b.skip("SHOW_RATE_LIMITS|"@.len() as int) }
    } else {
        RequestView::Unknown
    }
}

/// The text after `prefix` in `s`, when `s` begins with it.
fn after_prefix<'a>(s: &'a str, prefix: &str) -> (r: Option<&'a str>)
    ensures
        match r {
            Some(rest) => crate::pattern::starts_with(s@, prefix@) && rest@ == s@.skip(prefix@.len() as int),
            None => !crate::pattern::starts_with(s@, prefix@),
        },
{
    if has_prefix(s, prefix) {
        let n = prefix.unicode_len();
        let len = s.unicode_len();
        Some(s.substring_char(n, len))
    } else {
        None
    }
}

/// A copy of field `i`.
fn field(f: &Vec<String>, i: usize) -> (r: String)
    requires
        i < f@.len(),
    ensures
        r@ == f@[i as int]@,
{
    f[i].clone()
}

/// Field `i` read as a `u64`, when there is such a field and it parses.
fn optional_field_number(f: &Vec<String>, i: usize) -> (r: Option<u64>)
    ensures
        r == optional_number(texts(f@), i as int),
{
    if i < f.len() {
        parse_bounded(f[i].as_str(), u64::MAX)
    } else {
        None
    }
}

/// An `Invalid` request with the given reply.
fn invalid_request(reply: &str) -> (r: Request)
    ensures
        r@ == invalid(reply),
{
    Request::Invalid { reply: String::from_str(reply) }
}

/// Parses one request line (with or without its terminating newline).
pub fn parse_request(line: &str) -> (r: Request)
    ensures
        r@ == parse_spec(line@),
{
    let len = line.unicode_len();
    let body = if len > 0 && line.get_char(len - 1) == '\n' {
        line.substring_char(0, len - 1)
    } else {
        line
    };
    assert(body@ =~= line_body(line@));
    if let Some(rest) = after_prefix(body, "LOGIN|") {
        let f = split_fields(rest, 2);
        assert(texts(f@).len() == f@.len());
        if f.len() == 2 {
            return Request::Login { user_id: field(&f, 0), password: field(&f, 1) };
        }
        return invalid_request("ERROR:Invalid LOGIN format\n");
    }
    if let Some(rest) = after_prefix(body, "CREATE_TOKEN|") {
        let f = split_fields(rest, 4);
        assert(texts(f@).len() == f@.len());
        if f.len() >= 3 {
            return Request::CreateToken {
                token: field(&f, 0),
                user_id: field(&f, 1),
                permissions: field(&f, 2),
                expires_in: optional_field_number(&f, 3),
            };
        }
        return invalid_request("ERROR:Invalid CREATE_TOKEN format\n");
    }
    if let Some(rest) = after_prefix(body, "REVOKE_TOKEN|") {
        let f = split_fields(rest, 2);
        assert(texts(f@).len() == f@.len());
        if f.len() == 2 {
            return Request::RevokeToken { admin_token: field(&f, 0), token: field(&f, 1) };
        }
        return invalid_request("ERROR:Invalid REVOKE_TOKEN format\n");
    }
    if let Some(rest) = after_prefix(body, "EMIT|") {
        let f = split_fields(rest, 3);
        assert(texts(f@).len() == f@.len());
        if f.len() >= 2 {
            return Request::Emit {
                token: field(&f, 0),
                signal_json: field(&f, 1),
                ttl: optional_field_number(&f, 2),
            };
        }
        return invalid_request("ERROR:Invalid EMIT format\n");
    }
    if let Some(rest) = after_prefix(body, "LISTEN|") {
        let f = split_fields(rest, 2);
        assert(texts(f@).len() == f@.len());
        if f.len() == 2 {
            return Request::Listen { token: field(&f, 0), pattern: field(&f, 1) };
        }
        return invalid_request("ERROR:Invalid LISTEN format\n");
    }
    if let Some(rest) = after_prefix(body, "HISTORY|") {
        let f = split_fields(rest, 3);
        assert(texts(f@).len() == f@.len());
        if f.len() == 3 {
            let limit = match parse_bounded(f[2].as_str(), usize::MAX as u64) {
                Some(v) => v as usize,
                None => DEFAULT_HISTORY_LIMIT,
            };
            return Request::History { token: field(&f, 0), pattern: field(&f, 1), limit };
        }
        return invalid_request("ERROR:Invalid HISTORY format\n");
    }
    if let Some(rest) = after_prefix(body, "RATE_LIMIT|") {
        let f = split_fields(rest, 4);
        assert(texts(f@).len() == f@.len());
        if f.len() == 4 {
            let max = parse_bounded(f[2].as_str(), u32::MAX as u64);
            let per = parse_bounded(f[3].as_str(), u64::MAX);
            match (max, per) {
                (Some(m), Some(w)) => {
                    return Request::RateLimit {
                        token: field(&f, 0),
                        pattern: field(&f, 1),
                        max_signals: m as u32,
                        per_seconds: w,
                    };
                },
                _ => {
                    return invalid_request("ERROR:Invalid RATE_LIMIT number\n");
                },
            }
        }
        return invalid_request("ERROR:Invalid RATE_LIMIT format\n");
    }
    if let Some(rest) = after_prefix(body, "SHOW_RATE_LIMITS|") {
        return Request::ShowRateLimits { token: String::from_str(rest) };
    }
    Request::Unknown
}

/// `s` cut at every `c`.
pub open spec fn split_all(s: Seq<char>, c: char) -> Seq<Seq<char>>
    decreases s.len(),
{
    match first_index(s, c) {
        Some(k) => if k < s.len() {
            seq![s.take(k as int)] + split_all(s.skip(k + 1 as int), c)
        } else {
            seq![s]
        },
        None => seq![s],
    }
}

/// Splits `s` at every `c`, as `str::split(c)` does.
pub fn split_at_every(s: &str, c: char) -> (r: Vec<String>)
    ensures
        texts(r@) == split_all(s@, c),
{
    let len = s.unicode_len();
    let mut out: Vec<String> = Vec::new();
    let mut start: usize = 0;
    assert(s@.skip(0) =~= s@);
    assert(texts(out@) + split_all(s@.skip(0), c) =~= split_all(s@, c));
    loop
        invariant
            len == s@.len(),
            start <= len,
            split_all(s@, c) == texts(out@) + split_all(s@.skip(start as int), c),
        decreases len - start,
    {
        let ghost t = s@.skip(start as int);
        let mut j: usize = start;
        while j < len && s.get_char(j) != c
            invariant
                start <= j <= len,
                len == s@.len(),
                t == s@.skip(start as int),
                forall|i: int| 0 <= i < j - start ==> t[i] != c,
            decreases len - j,
        {
            j = j + 1;
        }
        proof {
            lemma_first_index(t, c, j - start);
        }
        if j == len {
            let last = s.substring_char(start, len);
            let ghost before = out@;
            out.push(String::from_str(last));
            assert(last@ =~= t);
            assert(texts(out@) =~= texts(before) + split_all(t, c));
            return out;
        }
        let piece = s.substring_char(start, j);
        let ghost before = out@;
        out.push(String::from_str(piece));
        assert(piece@ =~= t.take(j - start));
        assert(t.skip(j - start + 1) =~= s@.skip(j + 1));
        assert(texts(out@) =~= texts(before) + seq![t.take(j - start)]);
        assert(split_all(t, c) == seq![t.take(j - start)] + split_all(t.skip(j - start + 1), c));
        assert(texts(out@) + split_all(s@.skip(j + 1), c) =~= texts(before) + split_all(t, c));
        start = j + 1;
    }
}

/// The permission that `name` names, if any.
pub open spec fn permission_named(name: Seq<char>) -> Option<Permission> {
    if name == "Read"@ {
        Some(Permission::Read)
    } else if name == "Write"@ {
        Some(Permission::Write)
    } else if name == "History"@ {
        Some(Permission::History)
    } else if name == "RateLimit"@ {
        Some(Permission::RateLimit)
    } else if name == "Admin"@ {
        Some(Permission::Admin)
    } else {
        None
    }
}

/// The permissions that the names in `names` name; other names are ignored.
pub open spec fn permissions_named(names: Seq<Seq<char>>) -> PermissionSet
    decreases names.len(),
{
    if names.len() == 0 {
        PermissionSet { read: false, write: false, history: false, rate_limit: false, admin: false }
    } else {
        let earlier = permissions_named(names.drop_last());
        match permission_named(names.last()) {
            Some(p) => earlier.with(p),
            None => earlier,
        }
    }
}

/// The permission that `name` names, if any.
pub fn parse_permission(name: &str) -> (r: Option<Permission>)
    ensures
        r == permission_named(name@),
{
    if crate::pattern::same_chars(name, "Read") {
        Some(Permission::Read)
    } else if crate::pattern::same_chars(name, "Write") {
        Some(Permission::Write)
    } else if crate::pattern::same_chars(name, "History") {
        Some(Permission::History)
    } else if crate::pattern::same_chars(name, "RateLimit") {
        Some(Permission::RateLimit)
    } else if crate::pattern::same_chars(name, "Admin") {
        Some(Permission::Admin)
    } else {
        None
    }
}

/// The permissions named in a comma-separated list; unknown names are
/// ignored.
pub fn parse_permissions(text: &str) -> (r: PermissionSet)
    ensures
        r == permissions_named(split_all(text@, ',')),
{
    let names = split_at_every(text, ',');
    let mut set = PermissionSet::none();
    let mut i: usize = 0;
    assert(texts(names@).take(0) =~= Seq::<Seq<char>>::empty());
    while i < names.len()
        invariant
            i <= names@.len(),
            set == permissions_named(texts(names@).take(i as int)),
        decreases names@.len() - i,
    {
        assert(texts(names@).take(i + 1).drop_last() =~= texts(names@).take(i as int));
        match parse_permission(names[i].as_str()) {
            Some(p) => set.insert(p),
            None => {},
        }
        i = i + 1;
    }
    assert(texts(names@).take(names@.len() as int) =~= texts(names@));
    set
}

/// The character of decimal digit `d`.
pub open spec fn digit_char(d: nat) -> char {
    if d == 0 {
        '0'
    } else if d == 1 {
        '1'
    } else if d == 2 {
        '2'
    } else if d == 3 {
        '3'
    } else if d == 4 {
        '4'
    } else if d == 5 {
        '5'
    } else if d == 6 {
        '6'
    } else if d == 7 {
        '7'
    } else if d == 8 {
        '8'
    } else {
        '9'
    }
}

/// `n` written in decimal, without leading zeros.
pub open spec fn decimal_text(n: nat) -> Seq<char>
    decreases n,
{
    if n < 10 {
        seq![digit_char(n)]
    } else {
        decimal_text(n / 10).push(digit_char(n % 10))
    }
}

/// The one-character text of digit `d`.
fn digit_text(d: u64) -> (r: &'static str)
    requires
        d < 10,
    ensures
        r@ == seq![digit_char(d as nat)],
{
    proof {
        reveal_strlit("0");
        reveal_strlit("1");
        reveal_strlit("2");
        reveal_strlit("3");
        reveal_strlit("4");
        reveal_strlit("5");
        reveal_strlit("6");
        reveal_strlit("7");
        reveal_strlit("8");
        reveal_strlit("9");
    }
    let r = if d == 0 {
        "0"
    } else if d == 1 {
        "1"
    } else if d == 2 {
        "2"
    } else if d == 3 {
        "3"
    } else if d == 4 {
        "4"
    } else if d == 5 {
        "5"
    } else if d == 6 {
        "6"
    } else if d == 7 {
        "7"
    } else if d == 8 {
        "8"
    } else {
        "9"
    };
    assert(r@ =~= seq![digit_char(d as nat)]);
    r
}

/// Appends `n` in decimal to `s`.
pub fn append_decimal(s: &mut String, n: u64)
    ensures
        final(s)@ == old(s)@ + decimal_text(n as nat),
    decreases n,
{
    if n >= 10 {
        append_decimal(s, n / 10);
    }
    s.append(digit_text(n % 10));
    assert(s@ =~= old(s)@ + decimal_text(n as nat));
}

} // verus!
