use vstd::prelude::*;
use vstd::string::*;
use crate::protocol::{append_decimal, decimal_text, line_body, texts};

verus! {

/// The command-line program's arguments.
pub struct Cli {
    pub command: Command,
}

/// What the command-line program is asked to do.
pub enum Command {
    Emit { signal: String, payload: Option<String>, ttl: Option<u64>, token: Option<String> },
    Listen { pattern: String, exec_cmd: Option<String>, token: Option<String> },
    Daemon,
    History { pattern: String, limit: usize, token: Option<String> },
    RateLimit { pattern: String, max_signals: u32, per_seconds: u64, token: Option<String> },
    ShowRateLimits { token: Option<String> },
    Login { user_id: String, password: String },
    Logout,
    CreateToken { user_id: String, permissions: Vec<String>, expires_in: Option<u64> },
    RevokeToken { token: String, admin_token: Option<String> },
}

/// The name of the file, under the home directory, that keeps the token.
pub const TOKEN_FILE: &'static str = ".signalbus_token";

/// `parts` joined with commas.
pub open spec fn comma_joined(parts: Seq<Seq<char>>) -> Seq<char>
    decreases parts.len(),
{
    if parts.len() == 0 {
        Seq::empty()
    } else if parts.len() == 1 {
        parts[0]
    } else {
        comma_joined(parts.drop_last()) + ","@ + parts.last()
    }
}

/// Appends `piece` and then a pipe.
fn append_field(s: &mut String, piece: &str)
    ensures
        final(s)@ == old(s)@ + piece@ + "|"@,
{
    s.append(piece);
    s.append("|");
}

/// The request line of a login.
pub fn login_request(user_id: &str, password: &str) -> (r: String)
    ensures
        r@ == "LOGIN|"@ + user_id@ + "|"@ + password@ + "\n"@,
{
    let mut r = String::from_str("LOGIN|");
    append_field(&mut r, user_id);
    r.append(password);
    r.append("\n");
    r
}

/// `parts` joined with commas.
pub fn join_commas(parts: &Vec<String>) -> (r: String)
    ensures
        r@ == comma_joined(texts(parts@)),
{
    let mut r = String::new();
    let mut i: usize = 0;
    while i < parts.len()
        invariant
            i <= parts@.len(),
            r@ == comma_joined(texts(parts@).take(i as int)),
        decreases parts@.len() - i,
    {
        assert(texts(parts@).take(i + 1).drop_last() =~= texts(parts@).take(i as int));
        if i > 0 {
            r.append(",");
        }
        r.append(parts[i].as_str());
        assert(r@ =~= comma_joined(texts(parts@).take(i + 1)));
        i = i + 1;
    }
    assert(texts(parts@).take(parts@.len() as int) =~= texts(parts@));
    r
}

/// The request line that asks for a token for `user_id` with the named
/// permissions, valid for `expires_in` seconds or without expiry.
pub fn create_token_request(token: &str, user_id: &str, permissions: &Vec<String>, expires_in: Option<u64>) -> (r: String)
    ensures
        r@ == "CREATE_TOKEN|"@ + token@ + "|"@ + user_id@ + "|"@ + comma_joined(texts(permissions@)) + match expires_in {
            Some(e) => "|"@ + decimal_text(e as nat),
            None => Seq::empty(),
        } + "\n"@,
{
    let mut r = String::from_str("CREATE_TOKEN|");
    append_field(&mut r, token);
    append_field(&mut r, user_id);
    let joined = join_commas(permissions);
    r.append(joined.as_str());
    match expires_in {
        Some(e) => {
            r.append("|");
            append_decimal(&mut r, e);
        },
        None => {},
    }
    r.append("\n");
    assert(r@ =~= "CREATE_TOKEN|"@ + token@ + "|"@ + user_id@ + "|"@ + comma_joined(texts(permissions@)) + match expires_in {
        Some(e) => "|"@ + decimal_text(e as nat),
        None => Seq::<char>::empty(),
    } + "\n"@);
    r
}

/// The request line that revokes `token`.
pub fn revoke_token_request(admin_token: &str, token: &str) -> (r: String)
    ensures
        r@ == "REVOKE_TOKEN|"@ + admin_token@ + "|"@ + token@ + "\n"@,
{
    let mut r = String::from_str("REVOKE_TOKEN|");
    append_field(&mut r, admin_token);
    r.append(token);
    r.append("\n");
    r
}

/// The request line that emits the signal whose JSON text is
/// `signal_json`, with an optional time to live.
pub fn emit_request(token: &str, signal_json: &str, ttl: Option<u64>) -> (r: String)
    ensures
        r@ == "EMIT|"@ + token@ + "|"@ + signal_json@ + match ttl {
            Some(t) => "|"@ + decimal_text(t as nat),
            None => Seq::empty(),
        } + "\n"@,
{
    let mut r = String::from_str("EMIT|");
    append_field(&mut r, token);
    r.append(signal_json);
    match ttl {
        Some(t) => {
            r.append("|");
            append_decimal(&mut r, t);
        },
        None => {},
    }
    r.append("\n");
    assert(r@ =~= "EMIT|"@ + token@ + "|"@ + signal_json@ + match ttl {
        Some(t) => "|"@ + decimal_text(t as nat),
        None => Seq::<char>::empty(),
    } + "\n"@);
    r
}

/// The request line that listens on `pattern`.
pub fn listen_request(token: &str, pattern: &str) -> (r: String)
    ensures
        r@ == "LISTEN|"@ + token@ + "|"@ + pattern@ + "\n"@,
{
    let mut r = String::from_str("LISTEN|");
    append_field(&mut r, token);
    r.append(pattern);
    r.append("\n");
    r
}

/// The request line that asks for up to `limit` recent signals matching
/// `pattern`.
pub fn history_request(token: &str, pattern: &str, limit: usize) -> (r: String)
    ensures
        r@ == "HISTORY|"@ + token@ + "|"@ + pattern@ + "|"@ + decimal_text(limit as nat) + "\n"@,
{
    let mut r = String::from_str("HISTORY|");
    append_field(&mut r, token);
    append_field(&mut r, pattern);
    append_decimal(&mut r, limit as u64);
    r.append("\n");
    r
}

/// The request line that sets a rate limit.
pub fn rate_limit_request(token: &str, pattern: &str, max_signals: u32, per_seconds: u64) -> (r: String)
    ensures
        r@ == "RATE_LIMIT|"@ + token@ + "|"@ + pattern@ + "|"@ + decimal_text(max_signals as nat) + "|"@
            + decimal_text(per_seconds as nat) + "\n"@,
{
    let mut r = String::from_str("RATE_LIMIT|");
    append_field(&mut r, token);
    append_field(&mut r, pattern);
    append_decimal(&mut r, max_signals as u64);
    r.append("|");
    append_decimal(&mut r, per_seconds);
    r.append("\n");
    r
}

/// The request line that lists the rate limits.
pub fn show_rate_limits_request(token: &str) -> (r: String)
    ensures
        r@ == "SHOW_RATE_LIMITS|"@ + token@ + "\n"@,
{
    let mut r = String::from_str("SHOW_RATE_LIMITS|");
    r.append(token);
    r.append("\n");
    r
}

/// The token that a login reply carries, if it carries one.
pub fn token_from_reply(reply: &str) -> (r: Option<String>)
    ensures
        match r {
            Some(t) => crate::pattern::starts_with(line_body(reply@), "TOKEN:"@) && t@ == line_body(reply@).skip(
                "TOKEN:"@.len() as int,
            ),
            None => !crate::pattern::starts_with(line_body(reply@), "TOKEN:"@),
        },
{
    let len = reply.unicode_len();
    let body = if len > 0 && reply.get_char(len - 1) == '\n' {
        reply.substring_char(0, len - 1)
    } else {
        reply
    };
    assert(body@ =~= line_body(reply@));
    if crate::protocol::has_prefix(body, "TOKEN:") {
        let n = "TOKEN:".unicode_len();
        let blen = body.unicode_len();
        Some(String::from_str(body.substring_char(n, blen)))
    } else {
        None
    }
}

/// Whether a reply reports an error.
pub fn is_error_reply(reply: &str) -> (r: bool)
    ensures
        r == crate::pattern::starts_with(reply@, "ERROR:"@),
{
    crate::protocol::has_prefix(reply, "ERROR:")
}

} // verus!
