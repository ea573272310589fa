use vstd::prelude::*;

verus! {

/// What a journal line holds as a JSON document: each member's key, and its text
/// where the member is a JSON string.
pub type Members = Seq<(Seq<char>, Option<Seq<char>>)>;

/// One member of a journal record: its key and, when its value is a string, that text.
pub struct RecordField {
    pub key: String,
    pub text: Option<String>,
}

/// Why a journal line yields no entry.
#[derive(Debug, Clone, Copy, PartialEq, Eq)]
pub enum ParseError {
    /// The line is not a JSON document.
    InvalidJson,
    /// The document has no string `__CURSOR` member.
    MissingCursor,
}

/// One journal record, as kept in the buffer and handed to subscribers.
pub struct JournalEntry {
    pub cursor: String,
    pub realtime_timestamp: u64,
    pub timestamp: String,
    pub message: String,
    pub priority: Option<u8>,
    pub identifier: Option<String>,
    pub pid: Option<u32>,
    pub unit: Option<String>,
    pub hostname: Option<String>,
    pub boot_id: Option<String>,
}

/// The mathematical content of a `JournalEntry`.
pub struct EntryView {
    pub cursor: Seq<char>,
    pub realtime_timestamp: u64,
    pub timestamp: Seq<char>,
    pub message: Seq<char>,
    pub priority: Option<u8>,
    pub identifier: Option<Seq<char>>,
    pub pid: Option<u32>,
    pub unit: Option<Seq<char>>,
    pub hostname: Option<Seq<char>>,
    pub boot_id: Option<Seq<char>>,
}

pub open spec fn opt_view(o: Option<String>) -> Option<Seq<char>> {
    match o {
        Some(s) => Some(s@),
        None => None,
    }
}

impl View for JournalEntry {
    type V = EntryView;

    open spec fn view(&self) -> EntryView {
        EntryView {
            cursor: self.cursor@,
            realtime_timestamp: self.realtime_timestamp,
            timestamp: self.timestamp@,
            message: self.message@,
            priority: self.priority,
            identifier: opt_view(self.identifier),
            pid: self.pid,
            unit: opt_view(self.unit),
            hostname: opt_view(self.hostname),
            boot_id: opt_view(self.boot_id),
        }
    }
}

/// A copy of an optional text.
pub fn clone_opt(o: &Option<String>) -> (r: Option<String>)
    ensures
        r == *o,
{
    match o {
        Some(s) => Some(s.clone()),
        None => None,
    }
}

impl JournalEntry {
    /// A copy of this entry, equal to it in every field.
    pub fn duplicate(&self) -> (r: JournalEntry)
        ensures
            r == *self,
    {
        JournalEntry {
            cursor: self.cursor.clone(),
            realtime_timestamp: self.realtime_timestamp,
            timestamp: self.timestamp.clone(),
            message: self.message.clone(),
            priority: self.priority,
            identifier: clone_opt(&self.identifier),
            pid: self.pid,
            unit: clone_opt(&self.unit),
            hostname: clone_opt(&self.hostname),
            boot_id: clone_opt(&self.boot_id),
        }
    }
}

pub open spec fn field_view(f: RecordField) -> (Seq<char>, Option<Seq<char>>) {
    (f.key@, opt_view(f.text))
}

pub open spec fn members_view(fields: Seq<RecordField>) -> Members {
    fields.map_values(|f: RecordField| field_view(f))
}

/// The value of the first member named `key` at or after position `i`: `None` when
/// there is no such member, `Some(None)` when it is not a string.
pub open spec fn member_from(m: Members, key: Seq<char>, i: int) -> Option<Option<Seq<char>>>
    decreases m.len() - i,
{
    if i < 0 || i >= m.len() {
        None
    } else if m[i].0 == key {
        Some(m[i].1)
    } else {
        member_from(m, key, i + 1)
    }
}

pub open spec fn member(m: Members, key: Seq<char>) -> Option<Option<Seq<char>>> {
    member_from(m, key, 0)
}

/// The text of the member named `key`, when it is present and a string.
pub open spec fn text_of(v: Option<Option<Seq<char>>>) -> Option<Seq<char>> {
    match v {
        Some(t) => t,
        None => None,
    }
}

/// The first of the candidate keys that is present decides, string or not.
pub open spec fn first_member(m: Members, keys: Seq<Seq<char>>) -> Option<Option<Seq<char>>>
    decreases keys.len(),
{
    if keys.len() == 0 {
        None
    } else {
        match member(m, keys[0]) {
            Some(t) => Some(t),
            None => first_member(m, keys.drop_first()),
        }
    }
}

pub open spec fn is_digit(c: char) -> bool {
    '0' <= c && c <= '9'
}

pub open spec fn digits_value(s: Seq<char>) -> nat
    decreases s.len(),
{
    if s.len() == 0 {
        0
    } else {
        digits_value(s.drop_last()) * 10 + ((s.last() as nat) - ('0' as nat)) as nat
    }
}

/// An unsigned decimal as `str::parse` reads it: an optional `+`, then one or more
/// ASCII digits, whose value is at most `max`.
pub open spec fn parse_unsigned(s: Seq<char>, max: nat) -> Option<nat> {
    let t = if s.len() > 0 && s[0] == '+' { s.drop_first() } else { s };
    if t.len() > 0 && (forall|i: int| 0 <= i < t.len() ==> is_digit(#[trigger] t[i]))
        && digits_value(t) <= max {
        Some(digits_value(t))
    } else {
        None
    }
}

pub open spec fn parse_u8_of(t: Option<Seq<char>>) -> Option<u8> {
    match t {
        Some(s) => match parse_unsigned(s, u8::MAX as nat) {
            Some(v) => Some(v as u8),
            None => None,
        },
        None => None,
    }
}

pub open spec fn parse_u32_of(t: Option<Seq<char>>) -> Option<u32> {
    match t {
        Some(s) => match parse_unsigned(s, u32::MAX as nat) {
            Some(v) => Some(v as u32),
            None => None,
        },
        None => None,
    }
}

pub open spec fn parse_u64_of(t: Option<Seq<char>>) -> Option<u64> {
    match t {
        Some(s) => match parse_unsigned(s, u64::MAX as nat) {
            Some(v) => Some(v as u64),
            None => None,
        },
        None => None,
    }
}

/// Relies on `str::parse::<u8>`: an optional `+` and decimal digits, in range.
#[verifier::external_body]
fn parse_u8(s: &str) -> (r: Option<u8>)
    ensures
        r == parse_u8_of(Some(s@)),
{
    s.parse::<u8>().ok()
}

/// Relies on `str::parse::<u32>`: an optional `+` and decimal digits, in range.
#[verifier::external_body]
fn parse_u32(s: &str) -> (r: Option<u32>)
    ensures
        r == parse_u32_of(Some(s@)),
{
    s.parse::<u32>().ok()
}

/// Relies on `str::parse::<u64>`: an optional `+` and decimal digits, in range.
#[verifier::external_body]
fn parse_u64(s: &str) -> (r: Option<u64>)
    ensures
        r == parse_u64_of(Some(s@)),
{
    s.parse::<u64>().ok()
}


#[verifier::external_type_specification]
#[verifier::external_body]
pub struct ExJsonError(serde_json::Error);

/// What `serde_json` reads from a line: `None` when it is not JSON, `Some(None)` when
/// it is JSON but not an object, else the object's members.
pub uninterp spec fn json_members(line: Seq<char>) -> Option<Option<Seq<(Seq<char>, Option<Seq<char>>)>>>;

/// Relies on `serde_json::from_str::<Value>` to read the line, `Value::as_object` to
/// tell an object apart, and `Value::as_str` to take each member's text.
#[verifier::external_body]
fn read_members(line: &str) -> (r: Result<Option<Vec<RecordField>>, serde_json::Error>)
    ensures
        match r {
            Err(_) => json_members(line@) is None,
            Ok(None) => json_members(line@) == Some(None::<Members>),
            Ok(Some(f)) => json_members(line@) == Some(Some(members_view(f@))),
        },
{
    serde_json::from_str::<serde_json::Value>(line).map(|v| {
        v.as_object().map(|m| {
            m.iter().map(|(k, x)| RecordField { key: k.clone(), text: x.as_str().map(|t| t.to_string()) }).collect()
        })
    })
}

/// The RFC 3339 text `chrono` gives for a UTC instant, `None` when out of its range.
pub uninterp spec fn rfc3339_utc(seconds: int, nanos: int) -> Option<Seq<char>>;

/// Relies on `chrono::DateTime::<Utc>::from_timestamp` for the instant and
/// `DateTime::to_rfc3339` for its text.
#[verifier::external_body]
fn utc_rfc3339(seconds: i64, nanos: u32) -> (r: Option<String>)
    ensures
        opt_view(r) == rfc3339_utc(seconds as int, nanos as int),
{
    chrono::DateTime::<chrono::Utc>::from_timestamp(seconds, nanos).map(|d| d.to_rfc3339())
}

/// The displayed timestamp of a record: its microseconds since the epoch as RFC 3339
/// UTC text, or `unknown` when that instant cannot be represented.
pub open spec fn timestamp_text(micros: u64) -> Seq<char> {
    match rfc3339_utc((micros / 1_000_000) as int, ((micros % 1_000_000) * 1000) as int) {
        Some(t) => t,
        None => "unknown"@,
    }
}

pub fn format_timestamp(microseconds: u64) -> (r: String)
    ensures
        r@ == timestamp_text(microseconds),
{
    let seconds = (microseconds / 1_000_000) as i64;
    let nanos = ((microseconds % 1_000_000) * 1000) as u32;
    match utc_rfc3339(seconds, nanos) {
        Some(t) => t,
        None => String::from_str("unknown"),
    }
}

/// The value of the first field named `key`.
fn find_member(fields: &Vec<RecordField>, key: &str) -> (r: Option<Option<String>>)
    ensures
        match r {
            Some(t) => member(members_view(fields@), key@) == Some(opt_view(t)),
            None => member(members_view(fields@), key@) is None,
        },
{
    let ghost m = members_view(fields@);
    let k = String::from_str(key);
    let mut i: usize = 0;
    while i < fields.len()
        invariant
            i <= fields.len(),
            m == members_view(fields@),
            k@ == key@,
            member_from(m, key@, 0) == member_from(m, key@, i as int),
        decreases fields.len() - i,
    {
        assert(m[i as int] == field_view(fields@[i as int]));
        if fields[i].key == k {
            let t = match &fields[i].text {
                Some(t) => Some(t.clone()),
                None => None,
            };
            return Some(t);
        }
        i = i + 1;
    }
    None
}

fn text_member(fields: &Vec<RecordField>, key: &str) -> (r: Option<String>)
    ensures
        opt_view(r) == text_of(member(members_view(fields@), key@)),
{
    match find_member(fields, key) {
        Some(t) => t,
        None => None,
    }
}

pub open spec fn identifier_keys() -> Seq<Seq<char>> {
    seq!["SYSLOG_IDENTIFIER"@, "_SYSTEMD_UNIT"@, "_COMM"@]
}

pub open spec fn pid_keys() -> Seq<Seq<char>> {
    seq!["_PID"@, "SYSLOG_PID"@]
}

/// The entry a record stands for, or why it stands for none.
pub open spec fn entry_of(m: Members) -> Result<EntryView, ParseError> {
    match text_of(member(m, "__CURSOR"@)) {
        None => Err(ParseError::MissingCursor),
        Some(cursor) => {
            let realtime = match parse_u64_of(text_of(member(m, "__REALTIME_TIMESTAMP"@))) {
                Some(v) => v,
                None => 0,
            };
            Ok(EntryView {
                cursor,
                realtime_timestamp: realtime,
                timestamp: timestamp_text(realtime),
                message: match text_of(member(m, "MESSAGE"@)) {
                    Some(t) => t,
                    None => Seq::empty(),
                },
                priority: parse_u8_of(text_of(member(m, "PRIORITY"@))),
                identifier: text_of(first_member(m, identifier_keys())),
                pid: parse_u32_of(text_of(first_member(m, pid_keys()))),
                unit: text_of(member(m, "_SYSTEMD_UNIT"@)),
                hostname: text_of(member(m, "_HOSTNAME"@)),
                boot_id: text_of(member(m, "_BOOT_ID"@)),
            })
        },
    }
}

/// What a journal line yields.
pub open spec fn line_entry(line: Seq<char>) -> Result<EntryView, ParseError> {
    match json_members(line) {
        None => Err(ParseError::InvalidJson),
        Some(None) => Err(ParseError::MissingCursor),
        Some(Some(m)) => entry_of(m),
    }
}

pub open spec fn result_view(r: Result<JournalEntry, ParseError>) -> Result<EntryView, ParseError> {
    match r {
        Ok(e) => Ok(e@),
        Err(x) => Err(x),
    }
}

fn parse_opt_u8(t: &Option<String>) -> (r: Option<u8>)
    ensures
        r == parse_u8_of(opt_view(*t)),
{
    match t {
        Some(s) => parse_u8(s.as_str()),
        None => None,
    }
}

fn parse_opt_u32(t: &Option<String>) -> (r: Option<u32>)
    ensures
        r == parse_u32_of(opt_view(*t)),
{
    match t {
        Some(s) => parse_u32(s.as_str()),
        None => None,
    }
}

/// Builds an entry from a record's members. A missing or non-string `__CURSOR` is the
/// one failure; every other field that is absent or unreadable is left empty.
pub fn parse_record(fields: &Vec<RecordField>) -> (r: Result<JournalEntry, ParseError>)
    ensures
        result_view(r) == entry_of(members_view(fields@)),
{
    let ghost m = members_view(fields@);
    let cursor = match text_member(fields, "__CURSOR") {
        Some(c) => c,
        None => {
            return Err(ParseError::MissingCursor);
        },
    };
    let realtime_timestamp = match text_member(fields, "__REALTIME_TIMESTAMP") {
        Some(t) => match parse_u64(t.as_str()) {
            Some(v) => v,
            None => 0,
        },
        None => 0,
    };
    let timestamp = format_timestamp(realtime_timestamp);
    let message = match text_member(fields, "MESSAGE") {
        Some(t) => t,
        None => String::new(),
    };
    let priority = parse_opt_u8(&text_member(fields, "PRIORITY"));
    let identifier = match find_member(fields, "SYSLOG_IDENTIFIER") {
        Some(t) => t,
        None => match find_member(fields, "_SYSTEMD_UNIT") {
            Some(t) => t,
            None => text_member(fields, "_COMM"),
        },
    };
    proof {
        reveal_with_fuel(first_member, 4);
        assert(identifier_keys().drop_first() =~= seq!["_SYSTEMD_UNIT"@, "_COMM"@]);
        assert(identifier_keys().drop_first().drop_first() =~= seq!["_COMM"@]);
        assert(identifier_keys().drop_first().drop_first().drop_first() =~= Seq::<Seq<char>>::empty());
    }
    let pid_text = match find_member(fields, "_PID") {
        Some(t) => t,
        None => text_member(fields, "SYSLOG_PID"),
    };
    proof {
        assert(pid_keys().drop_first() =~= seq!["SYSLOG_PID"@]);
        assert(pid_keys().drop_first().drop_first() =~= Seq::<Seq<char>>::empty());
    }
    let pid = parse_opt_u32(&pid_text);
    let unit = text_member(fields, "_SYSTEMD_UNIT");
    let hostname = text_member(fields, "_HOSTNAME");
    let boot_id = text_member(fields, "_BOOT_ID");
    Ok(JournalEntry {
        cursor,
        realtime_timestamp,
        timestamp,
        message,
        priority,
        identifier,
        pid,
        unit,
        hostname,
        boot_id,
    })
}

/// Parses one line of the journal tool's JSON output into an entry.
pub fn parse_entry(line: &str) -> (r: Result<JournalEntry, ParseError>)
    ensures
        result_view(r) == line_entry(line@),
{
    match read_members(line) {
        Err(_) => Err(ParseError::InvalidJson),
        Ok(None) => Err(ParseError::MissingCursor),
        Ok(Some(fields)) => parse_record(&fields),
    }
}

} // verus!
