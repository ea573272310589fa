use vstd::prelude::*;
use crate::entry::{
    digits_value, entry_of, first_member, identifier_keys, is_digit, member, member_from, parse_u32_of,
    parse_u64_of, parse_u8_of, parse_unsigned, pid_keys, text_of, timestamp_text, EntryView, Members,
};

verus! {

proof fn lemma_digit_char(d: nat)
    requires
        d < 10,
    ensures
        is_digit(digit_char(d)),
        (digit_char(d) as nat) - ('0' as nat) == d,
{
    assert(('0' as nat) == 48);
}

/// The character of a decimal digit.
pub open spec fn digit_char(d: nat) -> char {
    if d == 0 { '0' } else if d == 1 { '1' } else if d == 2 { '2' } else if d == 3 { '3' }
    else if d == 4 { '4' } else if d == 5 { '5' } else if d == 6 { '6' } else if d == 7 { '7' }
    else if d == 8 { '8' } else { '9' }
}

/// The decimal digits of `n`, most significant first, without leading zeros.
pub open spec fn decimal(n: nat) -> Seq<char>
    decreases n,
{
    if n < 10 {
        seq![digit_char(n)]
    } else {
        decimal(n / 10).push(digit_char(n % 10))
    }
}

pub proof fn lemma_decimal(n: nat)
    ensures
        decimal(n).len() > 0,
        forall|i: int| 0 <= i < decimal(n).len() ==> is_digit(#[trigger] decimal(n)[i]),
        digits_value(decimal(n)) == n,
    decreases n,
{
    if n < 10 {
        let s = decimal(n);
        assert(s.drop_last() =~= Seq::<char>::empty());
        lemma_digit_char(n);
        assert(digits_value(Seq::<char>::empty()) == 0);
        assert(is_digit(s[0]));
    } else {
        lemma_decimal(n / 10);
        let s = decimal(n / 10);
        assert(decimal(n).drop_last() =~= s);
        lemma_digit_char(n % 10);
        assert(decimal(n).last() == digit_char(n % 10));
        assert(digits_value(decimal(n)) == digits_value(s) * 10 + ((digit_char(n % 10) as nat) - ('0' as nat)) as nat);
        assert(n == (n / 10) * 10 + n % 10);
        assert forall|i: int| 0 <= i < decimal(n).len() implies is_digit(#[trigger] decimal(n)[i]) by {
            if i < s.len() {
                assert(decimal(n)[i] == s[i]);
            }
        }
    }
}

pub proof fn lemma_parse_decimal(n: nat, max: nat)
    requires
        n <= max,
    ensures
        parse_unsigned(decimal(n), max) == Some(n),
{
    lemma_decimal(n);
    assert(is_digit(decimal(n)[0]));
}

proof fn lemma_member_from_push(s: Members, p: (Seq<char>, Option<Seq<char>>), key: Seq<char>, i: int)
    requires
        0 <= i <= s.len(),
    ensures
        member_from(s.push(p), key, i) == match member_from(s, key, i) {
            Some(x) => Some(x),
            None => if p.0 == key {
                Some(p.1)
            } else {
                None
            },
        },
    decreases s.len() - i,
{
    if i < s.len() {
        assert(s.push(p)[i] == s[i]);
        lemma_member_from_push(s, p, key, i + 1);
    } else {
        assert(s.push(p)[i] == p);
        assert(member_from(s, key, i) is None);
        assert(member_from(s.push(p), key, i + 1) is None);
    }
}

pub open spec fn with_member(s: Members, k: Seq<char>, o: Option<Seq<char>>) -> Members {
    match o {
        Some(t) => s.push((k, Some(t))),
        None => s,
    }
}

proof fn lemma_with_member(s: Members, k: Seq<char>, o: Option<Seq<char>>)
    ensures
        forall|key: Seq<char>| #[trigger] member(with_member(s, k, o), key) == match member(s, key) {
            Some(x) => Some(x),
            None => if o is Some && k == key {
                Some(o)
            } else {
                None
            },
        },
{
    if let Some(t) = o {
        assert forall|key: Seq<char>| #[trigger] member(with_member(s, k, o), key) == match member(s, key) {
            Some(x) => Some(x),
            None => if o is Some && k == key {
                Some(o)
            } else {
                None
            },
        } by {
            lemma_member_from_push(s, (k, Some(t)), key, 0);
        }
    }
}

pub open spec fn decimal_of(o: Option<nat>) -> Option<Seq<char>> {
    match o {
        Some(n) => Some(decimal(n)),
        None => None,
    }
}

/// The journal record of an entry: the members the journal tool writes for it, each
/// number in decimal, each absent optional field left out.
pub open spec fn record_of(e: EntryView) -> Members {
    let base = seq![
        ("__CURSOR"@, Some(e.cursor)),
        ("__REALTIME_TIMESTAMP"@, Some(decimal(e.realtime_timestamp as nat))),
        ("MESSAGE"@, Some(e.message)),
    ];
    let a = with_member(base, "PRIORITY"@, decimal_of(match e.priority { Some(p) => Some(p as nat), None => None }));
    let b = with_member(a, "SYSLOG_IDENTIFIER"@, e.identifier);
    let c = with_member(b, "_PID"@, decimal_of(match e.pid { Some(p) => Some(p as nat), None => None }));
    let d = with_member(c, "_SYSTEMD_UNIT"@, e.unit);
    let f = with_member(d, "_HOSTNAME"@, e.hostname);
    with_member(f, "_BOOT_ID"@, e.boot_id)
}

/// Parsing the journal record of an entry gives the entry back, every field alike
/// but the timestamp text, which is derived again from the microseconds. An entry
/// whose unit is set must have its identifier set too: a record without
/// `SYSLOG_IDENTIFIER` takes the unit as identifier.
pub proof fn lemma_record_round_trip(e: EntryView)
    requires
        e.identifier is Some || e.unit is None,
    ensures
        entry_of(record_of(e)) == Ok::<EntryView, crate::entry::ParseError>(
            EntryView { timestamp: timestamp_text(e.realtime_timestamp), ..e },
        ),
{
    reveal_strlit("__CURSOR");
    reveal_strlit("__REALTIME_TIMESTAMP");
    reveal_strlit("MESSAGE");
    reveal_strlit("PRIORITY");
    reveal_strlit("SYSLOG_IDENTIFIER");
    reveal_strlit("_PID");
    reveal_strlit("_SYSTEMD_UNIT");
    reveal_strlit("_HOSTNAME");
    reveal_strlit("_BOOT_ID");
    reveal_strlit("_COMM");
    reveal_strlit("SYSLOG_PID");
    let e0: Members = Seq::empty();
    let e1 = e0.push(("__CURSOR"@, Some(e.cursor)));
    let e2 = e1.push(("__REALTIME_TIMESTAMP"@, Some(decimal(e.realtime_timestamp as nat))));
    let base = e2.push(("MESSAGE"@, Some(e.message)));
    assert(base =~= seq![
        ("__CURSOR"@, Some(e.cursor)),
        ("__REALTIME_TIMESTAMP"@, Some(decimal(e.realtime_timestamp as nat))),
        ("MESSAGE"@, Some(e.message)),
    ]);
    assert forall|key: Seq<char>| #[trigger] member(base, key) == (if key == "__CURSOR"@ {
        Some(Some(e.cursor))
    } else if key == "__REALTIME_TIMESTAMP"@ {
        Some(Some(decimal(e.realtime_timestamp as nat)))
    } else if key == "MESSAGE"@ {
        Some(Some(e.message))
    } else {
        None
    }) by {
        lemma_member_from_push(e0, ("__CURSOR"@, Some(e.cursor)), key, 0);
        lemma_member_from_push(e1, ("__REALTIME_TIMESTAMP"@, Some(decimal(e.realtime_timestamp as nat))), key, 0);
        lemma_member_from_push(e2, ("MESSAGE"@, Some(e.message)), key, 0);
    }
    let pr = decimal_of(match e.priority { Some(p) => Some(p as nat), None => None });
    let pd = decimal_of(match e.pid { Some(p) => Some(p as nat), None => None });
    let a = with_member(base, "PRIORITY"@, pr);
    let b = with_member(a, "SYSLOG_IDENTIFIER"@, e.identifier);
    let c = with_member(b, "_PID"@, pd);
    let d = with_member(c, "_SYSTEMD_UNIT"@, e.unit);
    let f = with_member(d, "_HOSTNAME"@, e.hostname);
    lemma_with_member(base, "PRIORITY"@, pr);
    lemma_with_member(a, "SYSLOG_IDENTIFIER"@, e.identifier);
    lemma_with_member(b, "_PID"@, pd);
    lemma_with_member(c, "_SYSTEMD_UNIT"@, e.unit);
    lemma_with_member(d, "_HOSTNAME"@, e.hostname);
    lemma_with_member(f, "_BOOT_ID"@, e.boot_id);
    assert("__CURSOR"@.len() == 8 && "__REALTIME_TIMESTAMP"@.len() == 20 && "MESSAGE"@.len() == 7);
    assert("PRIORITY"@.len() == 8 && "SYSLOG_IDENTIFIER"@.len() == 17 && "_PID"@.len() == 4);
    assert("_SYSTEMD_UNIT"@.len() == 13 && "_HOSTNAME"@.len() == 9 && "_BOOT_ID"@.len() == 8);
    assert("_COMM"@.len() == 5 && "SYSLOG_PID"@.len() == 10);
    assert("__CURSOR"@[0] != "PRIORITY"@[0] && "__CURSOR"@[1] != "_BOOT_ID"@[1] && "PRIORITY"@[0] != "_BOOT_ID"@[0]);
    assert("__CURSOR"@ != "PRIORITY"@ && "__CURSOR"@ != "_BOOT_ID"@ && "PRIORITY"@ != "_BOOT_ID"@);
    let m = record_of(e);
    match e.priority {
        Some(p) => lemma_parse_decimal(p as nat, u8::MAX as nat),
        None => {},
    }
    match e.pid {
        Some(p) => lemma_parse_decimal(p as nat, u32::MAX as nat),
        None => {},
    }
    lemma_parse_decimal(e.realtime_timestamp as nat, u64::MAX as nat);
    reveal_with_fuel(first_member, 4);
    assert(identifier_keys().drop_first() =~= seq!["_SYSTEMD_UNIT"@, "_COMM"@]);
    assert(identifier_keys().drop_first().drop_first() =~= seq!["_COMM"@]);
    assert(identifier_keys().drop_first().drop_first().drop_first() =~= Seq::<Seq<char>>::empty());
    assert(pid_keys().drop_first() =~= seq!["SYSLOG_PID"@]);
    assert(pid_keys().drop_first().drop_first() =~= Seq::<Seq<char>>::empty());
    assert(text_of(first_member(m, identifier_keys())) == e.identifier);
    assert(parse_u32_of(text_of(first_member(m, pid_keys()))) == e.pid);
    assert(parse_u8_of(text_of(member(m, "PRIORITY"@))) == e.priority);
    assert(parse_u64_of(text_of(member(m, "__REALTIME_TIMESTAMP"@))) == Some(e.realtime_timestamp));
}

} // verus!
