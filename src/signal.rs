use vstd::prelude::*;
use vstd::string::*;
use crate::protocol::{append_decimal, decimal_text};

verus! {

/// Whether serde_json accepts `s` as the text of one JSON value: well
/// formed, and nested no deeper than its recursion limit.
pub uninterp spec fn is_json_text(s: Seq<char>) -> bool;

/// Relies on `serde_json::from_str::<serde_json::Value>`: whether it accepts
/// the text depends on the text alone; its error's message is handed back
/// on failure.
#[verifier::external_body]
fn check_json_text(s: &str) -> (r: Result<(), String>)
    ensures
        r is Ok <==> is_json_text(s@),
{
    match serde_json::from_str::<serde_json::Value>(s) {
        Ok(_) => Ok(()),
        Err(e) => Err(e.to_string()),
    }
}

/// A named event. The payload, when present, is the JSON text of a value,
/// kept exactly as the producer wrote it.
#[derive(Debug, Clone)]
pub struct Signal {
    pub name: String,
    pub payload: Option<String>,
    pub timestamp: u64,
}

/// The mathematical content of a `Signal`.
pub struct SignalView {
    pub name: Seq<char>,
    pub payload: Option<Seq<char>>,
    pub timestamp: u64,
}

/// Views an optional string as an optional character sequence.
pub open spec fn opt_view(o: Option<String>) -> Option<Seq<char>> {
    match o {
        Some(s) => Some(s@),
        None => None,
    }
}

impl View for Signal {
    type V = SignalView;

    open spec fn view(&self) -> SignalView {
        SignalView { name: self.name@, payload: opt_view(self.payload), timestamp: self.timestamp }
    }
}

/// A signal as the history keeps it: with the id it was given and its
/// optional time to live in seconds.
#[derive(Debug, Clone)]
pub struct PersistentSignal {
    pub signal: Signal,
    pub id: u64,
    pub ttl: Option<u64>,
}

/// The mathematical content of a `PersistentSignal`.
pub struct PersistentView {
    pub signal: SignalView,
    pub id: u64,
    pub ttl: Option<u64>,
}

impl View for PersistentSignal {
    type V = PersistentView;

    open spec fn view(&self) -> PersistentView {
        PersistentView { signal: self.signal@, id: self.id, ttl: self.ttl }
    }
}

/// Whether `s` holds a newline.
pub fn has_newline(s: &str) -> (r: bool)
    ensures
        r == s@.contains('\n'),
{
    let n = s.unicode_len();
    let mut i: usize = 0;
    while i < n
        invariant
            n == s@.len(),
            i <= n,
            forall|j: int| 0 <= j < i ==> s@[j] != '\n',
        decreases n - i,
    {
        if s.get_char(i) == '\n' {
            return true;
        }
        i = i + 1;
    }
    false
}

/// Copies an optional string.
pub fn copy_opt_string(o: &Option<String>) -> (r: Option<String>)
    ensures
        opt_view(r) == opt_view(*o),
{
    match o {
        Some(s) => Some(s.clone()),
        None => None,
    }
}

impl Signal {
    /// Builds a signal stamped with `timestamp`, after checking that the
    /// payload is JSON text that fits on one request line (no newline);
    /// fails with a message otherwise.
    pub fn new(name: String, payload: Option<String>, timestamp: u64) -> (r: Result<Signal, String>)
        ensures
            r is Ok <==> (payload matches Some(p) ==> is_json_text(p@) && !p@.contains('\n')),
            r matches Ok(s) ==> s@ == (SignalView {
                name: name@,
                payload: opt_view(payload),
                timestamp,
            }),
    {
        match &payload {
            Some(p) => {
                match check_json_text(p.as_str()) {
                    Ok(()) => {},
                    Err(e) => {
                        return Err(e);
                    },
                }
                if has_newline(p.as_str()) {
                    return Err(String::from_str("payload must fit on one line"));
                }
            },
            None => {},
        }
        Ok(Signal { name, payload, timestamp })
    }

    /// A copy with the same content.
    pub fn duplicate(&self) -> (r: Signal)
        ensures
            r@ == self@,
    {
        Signal {
            name: self.name.clone(),
            payload: copy_opt_string(&self.payload),
            timestamp: self.timestamp,
        }
    }
}

impl PersistentSignal {
    /// A copy with the same content.
    pub fn duplicate(&self) -> (r: PersistentSignal)
        ensures
            r@ == self@,
    {
        PersistentSignal { signal: self.signal.duplicate(), id: self.id, ttl: self.ttl }
    }

    /// Whether the entry has outlived its time to live at `now` (seconds
    /// since the epoch): it is kept while `timestamp + ttl > now`.
    pub fn is_expired(&self, now: u64) -> (r: bool)
        ensures
            r == expired_at(self@, now),
    {
        match self.ttl {
            Some(ttl) => (self.signal.timestamp as u128) + (ttl as u128) <= now as u128,
            None => false,
        }
    }
}

/// Whether `p` has expired at `now`.
pub open spec fn expired_at(p: PersistentView, now: u64) -> bool {
    match p.ttl {
        Some(ttl) => p.signal.timestamp + ttl <= now,
        None => false,
    }
}

/// The lower-case hexadecimal digit of `d`.
pub open spec fn hex_digit(d: nat) -> char {
    if d < 10 {
        crate::protocol::digit_char(d)
    } else if d == 10 {
        'a'
    } else if d == 11 {
        'b'
    } else if d == 12 {
        'c'
    } else if d == 13 {
        'd'
    } else if d == 14 {
        'e'
    } else {
        'f'
    }
}

/// How one character is written inside a JSON string literal: quote and
/// backslash escaped, the five short escapes for backspace, tab, newline,
/// form feed and carriage return, other control characters as `\u00XX`,
/// every other character as itself.
pub open spec fn escaped_char(c: char) -> Seq<char> {
    if c == '"' {
        seq!['\\', '"']
    } else if c == '\\' {
        seq!['\\', '\\']
    } else if c == '\x08' {
        seq!['\\', 'b']
    } else if c == '\t' {
        seq!['\\', 't']
    } else if c == '\n' {
        seq!['\\', 'n']
    } else if c == '\x0c' {
        seq!['\\', 'f']
    } else if c == '\r' {
        seq!['\\', 'r']
    } else if (c as u32) < 0x20 {
        seq!['\\', 'u', '0', '0', hex_digit((c as u32 / 16) as nat), hex_digit((c as u32 % 16) as nat)]
    } else {
        seq![c]
    }
}

/// The characters of `s`, each written as inside a JSON string literal.
pub open spec fn escaped(s: Seq<char>) -> Seq<char>
    decreases s.len(),
{
    if s.len() == 0 {
        Seq::empty()
    } else {
        escaped(s.drop_last()) + escaped_char(s.last())
    }
}

/// The JSON string literal that stands for `s`.
pub open spec fn json_string_of(s: Seq<char>) -> Seq<char> {
    seq!['"'] + escaped(s) + seq!['"']
}

/// Relies on `serde_json::to_string` applied to a `str`: it writes the JSON
/// string literal for it, escaping as its `ESCAPE` table and
/// `write_char_escape` do, and cannot fail on a `str`.
#[verifier::external_body]
fn json_string(s: &str) -> (r: String)
    ensures
        r@ == json_string_of(s@),
{
    serde_json::to_string(s).unwrap_or_default()
}

/// The JSON text of an optional value: its text, or `null`.
pub open spec fn json_or_null(o: Option<Seq<char>>) -> Seq<char> {
    match o {
        Some(t) => t,
        None => "null"@,
    }
}

/// The JSON text of an optional number: the number, or `null`.
pub open spec fn number_or_null(o: Option<u64>) -> Seq<char> {
    match o {
        Some(n) => decimal_text(n as nat),
        None => "null"@,
    }
}

/// The JSON object of a signal whose name is written as `quoted_name`.
pub open spec fn signal_json(quoted_name: Seq<char>, s: SignalView) -> Seq<char> {
    "{\"name\":"@ + quoted_name + ",\"payload\":"@ + json_or_null(s.payload) + ",\"timestamp\":"@
        + decimal_text(s.timestamp as nat) + "}"@
}

/// The JSON object of a history entry whose signal's name is written as
/// `quoted_name`.
pub open spec fn persistent_json(quoted_name: Seq<char>, p: PersistentView) -> Seq<char> {
    "{\"signal\":"@ + signal_json(quoted_name, p.signal) + ",\"id\":"@ + decimal_text(p.id as nat)
        + ",\"ttl\":"@ + number_or_null(p.ttl) + "}"@
}

/// Appends the JSON object of `signal`, its name written as `quoted_name`.
pub fn append_signal_json(out: &mut String, quoted_name: &str, signal: &Signal)
    ensures
        final(out)@ == old(out)@ + signal_json(quoted_name@, signal@),
{
    out.append("{\"name\":");
    out.append(quoted_name);
    out.append(",\"payload\":");
    match &signal.payload {
        Some(p) => out.append(p.as_str()),
        None => out.append("null"),
    }
    out.append(",\"timestamp\":");
    append_decimal(out, signal.timestamp);
    out.append("}");
    assert(final(out)@ =~= old(out)@ + signal_json(quoted_name@, signal@));
}

/// Appends the JSON object of `entry`, its signal's name written as
/// `quoted_name`.
pub fn append_persistent_json(out: &mut String, quoted_name: &str, entry: &PersistentSignal)
    ensures
        final(out)@ == old(out)@ + persistent_json(quoted_name@, entry@),
{
    out.append("{\"signal\":");
    append_signal_json(out, quoted_name, &entry.signal);
    out.append(",\"id\":");
    append_decimal(out, entry.id);
    out.append(",\"ttl\":");
    match entry.ttl {
        Some(t) => append_decimal(out, t),
        None => out.append("null"),
    }
    out.append("}");
    assert(final(out)@ =~= old(out)@ + persistent_json(quoted_name@, entry@));
}

impl Signal {
    /// The signal as a JSON object: `name`, `payload` (the payload's text
    /// or `null`) and `timestamp`.
    pub fn to_json(&self) -> (r: String)
        ensures
            r@ == signal_json(json_string_of(self.name@), self@),
    {
        let quoted = json_string(self.name.as_str());
        let mut out = String::new();
        append_signal_json(&mut out, quoted.as_str(), self);
        assert(out@ =~= signal_json(json_string_of(self.name@), self@));
        out
    }
}

impl PersistentSignal {
    /// The entry as a JSON object: `signal`, `id` and `ttl` (or `null`).
    pub fn to_json(&self) -> (r: String)
        ensures
            r@ == persistent_json(json_string_of(self.signal.name@), self@),
    {
        let quoted = json_string(self.signal.name.as_str());
        let mut out = String::new();
        append_persistent_json(&mut out, quoted.as_str(), self);
        assert(out@ =~= persistent_json(json_string_of(self.signal.name@), self@));
        out
    }
}

/// The JSON array of `entries`, in order.
pub open spec fn entries_json(entries: Seq<PersistentView>) -> Seq<char> {
    "["@ + entries_items(entries) + "]"@
}

/// The JSON objects of `entries`, separated by commas.
pub open spec fn entries_items(entries: Seq<PersistentView>) -> Seq<char>
    decreases entries.len(),
{
    if entries.len() == 0 {
        Seq::empty()
    } else if entries.len() == 1 {
        persistent_json(json_string_of(entries[0].signal.name), entries[0])
    } else {
        entries_items(entries.drop_last()) + ","@ + persistent_json(
            json_string_of(entries.last().signal.name),
            entries.last(),
        )
    }
}

/// The JSON array of a list of history entries, as a history query answers.
pub fn history_json(entries: &Vec<PersistentSignal>) -> (r: String)
    ensures
        r@ == entries_json(entries@.map_values(|e: PersistentSignal| e@)),
{
    let ghost all = entries@.map_values(|e: PersistentSignal| e@);
    let mut out = String::from_str("[");
    let mut i: usize = 0;
    assert(all.take(0) =~= Seq::<PersistentView>::empty());
    while i < entries.len()
        invariant
            i <= entries@.len(),
            all == entries@.map_values(|e: PersistentSignal| e@),
            out@ == "["@ + entries_items(all.take(i as int)),
        decreases entries@.len() - i,
    {
        if i > 0 {
            out.append(",");
        }
        let e = &entries[i];
        let quoted = json_string(e.signal.name.as_str());
        append_persistent_json(&mut out, quoted.as_str(), e);
        assert(all.take(i + 1).drop_last() =~= all.take(i as int));
        assert(all.take(i + 1).last() == e@);
        if i == 0 {
            assert(all.take(1)[0] == e@);
        }
        assert(out@ =~= "["@ + entries_items(all.take(i + 1)));
        i = i + 1;
    }
    out.append("]");
    assert(all.take(entries@.len() as int) =~= all);
    out
}

} // verus!
