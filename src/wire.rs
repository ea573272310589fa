use vstd::prelude::*;
use crate::entry::{JournalEntry, EntryView, format_timestamp, timestamp_text};

verus! {

/// A value in the external form of an entry.
pub enum WireValue {
    Text(String),
    Number(u64),
}

/// One member of the external form of an entry.
pub struct WireField {
    pub key: String,
    pub value: WireValue,
}

pub enum WireData {
    Text(Seq<char>),
    Number(u64),
}

pub type WireFields = Seq<(Seq<char>, WireData)>;

pub open spec fn value_view(v: WireValue) -> WireData {
    match v {
        WireValue::Text(s) => WireData::Text(s@),
        WireValue::Number(n) => WireData::Number(n),
    }
}

pub open spec fn wire_fields_view(f: Seq<WireField>) -> WireFields {
    f.map_values(|x: WireField| (x.key@, value_view(x.value)))
}

pub open spec fn with_text(s: WireFields, key: Seq<char>, o: Option<Seq<char>>) -> WireFields {
    match o {
        Some(t) => s.push((key, WireData::Text(t))),
        None => s,
    }
}

pub open spec fn with_number(s: WireFields, key: Seq<char>, o: Option<u64>) -> WireFields {
    match o {
        Some(n) => s.push((key, WireData::Number(n))),
        None => s,
    }
}

pub open spec fn widen_u8(o: Option<u8>) -> Option<u64> {
    match o {
        Some(p) => Some(p as u64),
        None => None,
    }
}

pub open spec fn widen_u32(o: Option<u32>) -> Option<u64> {
    match o {
        Some(p) => Some(p as u64),
        None => None,
    }
}

/// The external form of an entry: its four mandatory members, then each optional
/// member that is present. An absent optional field has no member at all.
pub open spec fn wire_of(e: EntryView) -> WireFields {
    let base = seq![
        ("cursor"@, WireData::Text(e.cursor)),
        ("realtime_timestamp"@, WireData::Number(e.realtime_timestamp)),
        ("timestamp"@, WireData::Text(e.timestamp)),
        ("message"@, WireData::Text(e.message)),
    ];
    let a = with_number(base, "priority"@, widen_u8(e.priority));
    let b = with_text(a, "identifier"@, e.identifier);
    let c = with_number(b, "pid"@, widen_u32(e.pid));
    let d = with_text(c, "unit"@, e.unit);
    let f = with_text(d, "hostname"@, e.hostname);
    with_text(f, "boot_id"@, e.boot_id)
}

/// The value of the last member named `key`.
pub open spec fn wire_member(w: WireFields, key: Seq<char>) -> Option<WireData>
    decreases w.len(),
{
    if w.len() == 0 {
        None
    } else if w.last().0 == key {
        Some(w.last().1)
    } else {
        wire_member(w.drop_last(), key)
    }
}

pub open spec fn wire_text(w: WireFields, key: Seq<char>) -> Option<Seq<char>> {
    match wire_member(w, key) {
        Some(WireData::Text(t)) => Some(t),
        _ => None,
    }
}

pub open spec fn wire_number(w: WireFields, key: Seq<char>, max: u64) -> Option<u64> {
    match wire_member(w, key) {
        Some(WireData::Number(n)) => if n <= max {
            Some(n)
        } else {
            None
        },
        _ => None,
    }
}

/// The entry that an external form describes: `None` without a text `cursor`, a
/// numeric `realtime_timestamp` and a text `message`. The timestamp text is derived
/// again from the microseconds; optional members of the wrong kind are left empty.
pub open spec fn wire_entry(w: WireFields) -> Option<EntryView> {
    if wire_text(w, "cursor"@) is Some && wire_number(w, "realtime_timestamp"@, u64::MAX) is Some
        && wire_text(w, "message"@) is Some {
        let realtime = wire_number(w, "realtime_timestamp"@, u64::MAX)->0;
        Some(EntryView {
            cursor: wire_text(w, "cursor"@)->0,
            realtime_timestamp: realtime,
            timestamp: timestamp_text(realtime),
            message: wire_text(w, "message"@)->0,
            priority: match wire_number(w, "priority"@, u8::MAX as u64) {
                Some(n) => Some(n as u8),
                None => None,
            },
            identifier: wire_text(w, "identifier"@),
            pid: match wire_number(w, "pid"@, u32::MAX as u64) {
                Some(n) => Some(n as u32),
                None => None,
            },
            unit: wire_text(w, "unit"@),
            hostname: wire_text(w, "hostname"@),
            boot_id: wire_text(w, "boot_id"@),
        })
    } else {
        None
    }
}

proof fn lemma_member_push(s: WireFields, p: (Seq<char>, WireData))
    ensures
        forall|key: Seq<char>| #[trigger] wire_member(s.push(p), key) == if p.0 == key {
            Some(p.1)
        } else {
            wire_member(s, key)
        },
{
    assert(s.push(p).drop_last() =~= s);
}

proof fn lemma_with_text(s: WireFields, k: Seq<char>, o: Option<Seq<char>>)
    ensures
        forall|key: Seq<char>| #[trigger] wire_member(with_text(s, k, o), key) == if o is Some && k == key {
            Some(WireData::Text(o->0))
        } else {
            wire_member(s, key)
        },
{
    if let Some(t) = o {
        lemma_member_push(s, (k, WireData::Text(t)));
    }
}

proof fn lemma_with_number(s: WireFields, k: Seq<char>, o: Option<u64>)
    ensures
        forall|key: Seq<char>| #[trigger] wire_member(with_number(s, k, o), key) == if o is Some && k == key {
            Some(WireData::Number(o->0))
        } else {
            wire_member(s, key)
        },
{
    if let Some(n) = o {
        lemma_member_push(s, (k, WireData::Number(n)));
    }
}

/// Writing an entry in its external form and reading it back gives the same entry,
/// every field alike but the timestamp text, which is derived again from the
/// microseconds.
pub proof fn lemma_wire_round_trip(e: EntryView)
    ensures
        wire_entry(wire_of(e)) == Some(EntryView { timestamp: timestamp_text(e.realtime_timestamp), ..e }),
{
    reveal_strlit("cursor");
    reveal_strlit("realtime_timestamp");
    reveal_strlit("timestamp");
    reveal_strlit("message");
    reveal_strlit("priority");
    reveal_strlit("identifier");
    reveal_strlit("pid");
    reveal_strlit("unit");
    reveal_strlit("hostname");
    reveal_strlit("boot_id");
    let e0: WireFields = Seq::empty();
    let e1 = e0.push(("cursor"@, WireData::Text(e.cursor)));
    let e2 = e1.push(("realtime_timestamp"@, WireData::Number(e.realtime_timestamp)));
    let e3 = e2.push(("timestamp"@, WireData::Text(e.timestamp)));
    let base = e3.push(("message"@, WireData::Text(e.message)));
    assert(base =~= seq![
        ("cursor"@, WireData::Text(e.cursor)),
        ("realtime_timestamp"@, WireData::Number(e.realtime_timestamp)),
        ("timestamp"@, WireData::Text(e.timestamp)),
        ("message"@, WireData::Text(e.message)),
    ]);
    lemma_member_push(e0, ("cursor"@, WireData::Text(e.cursor)));
    lemma_member_push(e1, ("realtime_timestamp"@, WireData::Number(e.realtime_timestamp)));
    lemma_member_push(e2, ("timestamp"@, WireData::Text(e.timestamp)));
    lemma_member_push(e3, ("message"@, WireData::Text(e.message)));
    let a = with_number(base, "priority"@, widen_u8(e.priority));
    let b = with_text(a, "identifier"@, e.identifier);
    let c = with_number(b, "pid"@, widen_u32(e.pid));
    let d = with_text(c, "unit"@, e.unit);
    let f = with_text(d, "hostname"@, e.hostname);
    lemma_with_number(base, "priority"@, widen_u8(e.priority));
    lemma_with_text(a, "identifier"@, e.identifier);
    lemma_with_number(b, "pid"@, widen_u32(e.pid));
    lemma_with_text(c, "unit"@, e.unit);
    lemma_with_text(d, "hostname"@, e.hostname);
    lemma_with_text(f, "boot_id"@, e.boot_id);
    assert("cursor"@.len() == 6);
    assert("realtime_timestamp"@.len() == 18);
    assert("timestamp"@.len() == 9);
    assert("message"@.len() == 7);
    assert("priority"@.len() == 8);
    assert("identifier"@.len() == 10);
    assert("pid"@.len() == 3);
    assert("unit"@.len() == 4);
    assert("hostname"@.len() == 8);
    assert("boot_id"@.len() == 7);
    assert("message"@[0] == 'm' && "boot_id"@[0] == 'b');
    assert("priority"@[0] == 'p' && "hostname"@[0] == 'h');
    assert("message"@ != "boot_id"@);
    assert("priority"@ != "hostname"@);
}

fn text_field(key: &str, t: &String) -> (r: WireField)
    ensures
        r.key@ == key@,
        value_view(r.value) == WireData::Text(t@),
{
    WireField { key: String::from_str(key), value: WireValue::Text(t.clone()) }
}

fn number_field(key: &str, n: u64) -> (r: WireField)
    ensures
        r.key@ == key@,
        value_view(r.value) == WireData::Number(n),
{
    WireField { key: String::from_str(key), value: WireValue::Number(n) }
}

/// The position of the last member named `key`.
fn find_wire(fields: &Vec<WireField>, key: &str) -> (r: Option<usize>)
    ensures
        match r {
            Some(i) => i < fields@.len() && wire_member(wire_fields_view(fields@), key@) == Some(
                value_view(fields@[i as int].value),
            ),
            None => wire_member(wire_fields_view(fields@), key@) is None,
        },
{
    let ghost v = wire_fields_view(fields@);
    let k = String::from_str(key);
    let mut i: usize = fields.len();
    assert(v.subrange(0, i as int) =~= v);
    while i > 0
        invariant
            i <= fields@.len(),
            v == wire_fields_view(fields@),
            k@ == key@,
            wire_member(v, key@) == wire_member(v.subrange(0, i as int), key@),
        decreases i,
    {
        let ghost part = v.subrange(0, i as int);
        assert(part.last() == v[i - 1]);
        assert(part.drop_last() =~= v.subrange(0, i - 1));
        if fields[i - 1].key == k {
            return Some(i - 1);
        }
        i = i - 1;
    }
    None
}

fn read_text(fields: &Vec<WireField>, key: &str) -> (r: Option<String>)
    ensures
        match r {
            Some(t) => wire_text(wire_fields_view(fields@), key@) == Some(t@),
            None => wire_text(wire_fields_view(fields@), key@) is None,
        },
{
    match find_wire(fields, key) {
        Some(i) => match &fields[i].value {
            WireValue::Text(t) => Some(t.clone()),
            WireValue::Number(_) => None,
        },
        None => None,
    }
}

fn read_number(fields: &Vec<WireField>, key: &str, max: u64) -> (r: Option<u64>)
    ensures
        r == wire_number(wire_fields_view(fields@), key@, max),
{
    match find_wire(fields, key) {
        Some(i) => match &fields[i].value {
            WireValue::Number(n) => if *n <= max {
                Some(*n)
            } else {
                None
            },
            WireValue::Text(_) => None,
        },
        None => None,
    }
}

impl JournalEntry {
    /// The entry's external form: the mandatory members, then each optional member
    /// that is present.
    pub fn to_wire(&self) -> (r: Vec<WireField>)
        ensures
            wire_fields_view(r@) == wire_of(self@),
    {
        let mut r: Vec<WireField> = Vec::new();
        r.push(text_field("cursor", &self.cursor));
        r.push(number_field("realtime_timestamp", self.realtime_timestamp));
        r.push(text_field("timestamp", &self.timestamp));
        r.push(text_field("message", &self.message));
        let ghost e = self@;
        let ghost base = seq![
            ("cursor"@, WireData::Text(e.cursor)),
            ("realtime_timestamp"@, WireData::Number(e.realtime_timestamp)),
            ("timestamp"@, WireData::Text(e.timestamp)),
            ("message"@, WireData::Text(e.message)),
        ];
        assert(wire_fields_view(r@) =~= base);
        if let Some(p) = self.priority {
            r.push(number_field("priority", p as u64));
        }
        let ghost a = with_number(base, "priority"@, widen_u8(e.priority));
        assert(wire_fields_view(r@) =~= a);
        if let Some(t) = &self.identifier {
            r.push(text_field("identifier", t));
        }
        let ghost b = with_text(a, "identifier"@, e.identifier);
        assert(wire_fields_view(r@) =~= b);
        if let Some(p) = self.pid {
            r.push(number_field("pid", p as u64));
        }
        let ghost c = with_number(b, "pid"@, widen_u32(e.pid));
        assert(wire_fields_view(r@) =~= c);
        if let Some(t) = &self.unit {
            r.push(text_field("unit", t));
        }
        let ghost d = with_text(c, "unit"@, e.unit);
        assert(wire_fields_view(r@) =~= d);
        if let Some(t) = &self.hostname {
            r.push(text_field("hostname", t));
        }
        let ghost f = with_text(d, "hostname"@, e.hostname);
        assert(wire_fields_view(r@) =~= f);
        if let Some(t) = &self.boot_id {
            r.push(text_field("boot_id", t));
        }
        assert(wire_fields_view(r@) =~= with_text(f, "boot_id"@, e.boot_id));
        r
    }

    /// Reads an entry back from its external form; see `wire_entry`.
    pub fn from_wire(fields: &Vec<WireField>) -> (r: Option<JournalEntry>)
        ensures
            match r {
                Some(e) => wire_entry(wire_fields_view(fields@)) == Some(e@),
                None => wire_entry(wire_fields_view(fields@)) is None,
            },
    {
        let cursor = match read_text(fields, "cursor") {
            Some(c) => c,
            None => {
                return None;
            },
        };
        let realtime_timestamp = match read_number(fields, "realtime_timestamp", u64::MAX) {
            Some(n) => n,
            None => {
                return None;
            },
        };
        let message = match read_text(fields, "message") {
            Some(m) => m,
            None => {
                return None;
            },
        };
        let priority = match read_number(fields, "priority", 255) {
            Some(n) => Some(n as u8),
            None => None,
        };
        let pid = match read_number(fields, "pid", 0xffff_ffff) {
            Some(n) => Some(n as u32),
            None => None,
        };
        Some(JournalEntry {
            cursor,
            realtime_timestamp,
            timestamp: format_timestamp(realtime_timestamp),
            message,
            priority,
            identifier: read_text(fields, "identifier"),
            pid,
            unit: read_text(fields, "unit"),
            hostname: read_text(fields, "hostname"),
            boot_id: read_text(fields, "boot_id"),
        })
    }
}

} // verus!
