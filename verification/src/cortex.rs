//! Decoding of cloud EDR query records: already-structured network and
//! forensics records, reduced to plain values, derived into the canonical
//! schema; and the small decisions of the query-polling protocol.
use vstd::prelude::*;
use crate::model::{CanonicalEvent, EventV};
use crate::text;
use crate::timestamp;
use crate::winevent::spec_split_identity;

verus! {

broadcast use text::lemma_chars_deep_view;

/// A record's time field: a millisecond count, raw text, or absent.
pub enum TimeField {
    Millis(i64),
    Text(String),
    Absent,
}

/// A record's port field: a number, raw text, or absent.
pub enum PortField {
    Num(i64),
    Text(String),
    Absent,
}

/// One network record, reduced to the plain values the derivation reads.
pub struct CortexRecord {
    pub time: TimeField,
    pub agent_hostname: String,
    pub action_local_ip: String,
    pub action_remote_ip: String,
    pub actor_primary_username: String,
    pub actor_process_command_line: String,
    pub local_port: PortField,
    pub remote_port: PortField,
}

/// A signed decimal integer of at most eighteen digits; the form ports and
/// timestamps take in text fields.
pub open spec fn spec_parse_i64(s: Seq<char>) -> Option<int> {
    let neg = s.len() > 0 && s[0] == '-';
    let plus = s.len() > 0 && s[0] == '+';
    let digits = if neg || plus {
        s.skip(1)
    } else {
        s
    };
    if 1 <= digits.len() <= 18 && timestamp::spec_all_digits(digits, 0, digits.len() as int) {
        if neg {
            Some(-timestamp::spec_digits_val(digits))
        } else {
            Some(timestamp::spec_digits_val(digits))
        }
    } else {
        None
    }
}

/// Parses a signed decimal integer of at most eighteen digits.
#[verifier::loop_isolation(false)]
pub fn parse_i64(v: &Vec<char>) -> (r: Option<i64>)
    ensures
        match r {
            Some(n) => spec_parse_i64(v@) == Some(n as int),
            None => spec_parse_i64(v@) is None,
        },
{
    let n = v.len();
    if n == 0 {
        return None;
    }
    let c0 = v[0];
    let neg = c0 == '-';
    let start: usize = if neg || c0 == '+' {
        1
    } else {
        0
    };
    let ghost digits = if neg || c0 == '+' {
        v@.skip(1)
    } else {
        v@
    };
    if n - start < 1 || n - start > 18 {
        return None;
    }
    let mut acc: u64 = 0;
    let mut i: usize = start;
    proof {
        assert(digits =~= v@.subrange(start as int, n as int));
        assert(digits.take(0) =~= Seq::<char>::empty());
    }
    while i < n
        invariant
            start <= i <= n,
            n == v@.len(),
            n - start <= 18,
            digits =~= v@.subrange(start as int, n as int),
            timestamp::spec_all_digits(digits, 0, i - start),
            acc == timestamp::spec_digits_val(digits.take(i - start)),
            acc < 1000000000000000000,
        decreases n - i,
    {
        let c = v[i];
        if !('0' <= c && c <= '9') {
            proof {
                assert(digits[i - start] == v@[i as int]);
                assert(!timestamp::spec_is_digit(digits[i - start]));
            }
            return None;
        }
        proof {
            assert(digits.take(i - start + 1).drop_last() =~= digits.take(i - start));
            assert(digits.take(i - start + 1).last() == digits[i - start]);
            lemma_digits_val_18(digits.take(i - start + 1));
        }
        acc = acc * 10 + ((c as u32) - 48) as u64;
        i = i + 1;
    }
    proof {
        assert(digits.take(n - start) =~= digits);
    }
    if neg {
        Some(-(acc as i64))
    } else {
        Some(acc as i64)
    }
}

/// A digit run of at most eighteen digits stays within the safe range.
proof fn lemma_digits_val_18(s: Seq<char>)
    requires
        timestamp::spec_all_digits(s, 0, s.len() as int),
        s.len() <= 18,
    ensures
        0 <= timestamp::spec_digits_val(s) < timestamp::spec_pow10(s.len() as nat),
        timestamp::spec_pow10(s.len() as nat) <= 1000000000000000000,
    decreases s.len(),
{
    reveal_with_fuel(timestamp::spec_pow10, 19);
    assert(timestamp::spec_pow10(18) == 1000000000000000000);
    timestamp::lemma_pow10_mono(s.len() as nat, 18);
    if s.len() > 0 {
        assert(timestamp::spec_all_digits(s.drop_last(), 0, s.drop_last().len() as int));
        lemma_digits_val_18(s.drop_last());
        assert(0 <= timestamp::spec_dv(s.last()) <= 9);
    }
}

/// The view of a port field.
pub open spec fn spec_port_view(p: &PortField) -> Option<int> {
    match p {
        PortField::Num(n) => Some(*n as int),
        PortField::Text(s) => spec_parse_i64(s@),
        PortField::Absent => None,
    }
}

/// The port a field carries: a number as it stands, text parsed as a
/// decimal.
pub fn port_value(p: &PortField) -> (r: Option<i64>)
    ensures
        match r {
            Some(n) => spec_port_view(p) == Some(n as int),
            None => spec_port_view(p) is None,
        },
{
    match p {
        PortField::Num(n) => Some(*n),
        PortField::Text(s) => parse_i64(&text::chars_of(s.as_str())),
        PortField::Absent => None,
    }
}

/// Whether a port is one of the fixed destination ports: remote desktop,
/// file sharing, or secure shell.
pub open spec fn spec_is_dst_port(p: Option<int>) -> bool {
    p == Some(3389int) || p == Some(445int) || p == Some(22int)
}

/// The logon-kind code of a destination port.
pub open spec fn spec_port_code(p: int) -> Seq<char> {
    if p == 3389 {
        "10"@
    } else if p == 445 {
        "3"@
    } else {
        "SSH"@
    }
}

/// The shape of the parsed-and-reformatted record time: the record's
/// millisecond count, or its text in the query service's own format, turned
/// into the canonical form with microsecond precision; unparseable text
/// stays as it was, and times outside the representable range or an absent
/// field become empty.
pub open spec fn spec_time_text(t: &TimeField) -> Seq<char> {
    match t {
        TimeField::Millis(ms) => {
            if 0 <= *ms && *ms / 1000 + timestamp::spec_base_offset() < 256200000000 {
                spec_render_micro(
                    *ms / 1000 + timestamp::spec_base_offset(),
                    (*ms % 1000) * 1000,
                )
            } else {
                Seq::empty()
            }
        },
        TimeField::Text(s) => {
            match spec_parse_space_utc(s@) {
                Some(tn) => spec_render_micro(tn.0, tn.1 / 1000),
                None => s@,
            }
        },
        TimeField::Absent => Seq::empty(),
    }
}

/// The canonical rendering with exactly six fractional digits and `Z`.
pub open spec fn spec_render_micro(total: int, micros: int) -> Seq<char> {
    let t = timestamp::spec_civil_of(total);
    timestamp::spec_d4(t.year) + seq!['-'] + timestamp::spec_d2(t.month) + seq!['-']
        + timestamp::spec_d2(t.day) + seq!['T'] + timestamp::spec_d2(t.hour) + seq![':']
        + timestamp::spec_d2(t.minute) + seq![':'] + timestamp::spec_d2(t.second) + seq!['.']
        + timestamp::spec_d3(micros / 1000) + timestamp::spec_d3(micros % 1000) + seq!['Z']
}

/// Parsing the query service's text time `YYYY-MM-DD HH:MM:SS[.f] UTC` into
/// seconds since the base and nanoseconds.
pub open spec fn spec_parse_space_utc(s: Seq<char>) -> Option<(int, int)> {
    if s.len() >= 23 && timestamp::spec_all_digits(s, 0, 4) && s[4] == '-'
        && timestamp::spec_all_digits(s, 5, 7) && s[7] == '-' && timestamp::spec_all_digits(
        s,
        8,
        10,
    ) && s[10] == ' ' && timestamp::spec_all_digits(s, 11, 13) && s[13] == ':'
        && timestamp::spec_all_digits(s, 14, 16) && s[16] == ':' && timestamp::spec_all_digits(
        s,
        17,
        19,
    ) {
        let t = timestamp::spec_fields_of(s);
        let frac_digits: int = if s[19] == '.' {
            timestamp::spec_frac_digit_count(s, 20)
        } else {
            0
        };
        let tail_start: int = if frac_digits > 0 {
            20 + frac_digits
        } else {
            19
        };
        if s[19] == '.' && !(1 <= frac_digits <= 9) {
            None
        } else if !(s.len() == tail_start + 4 && s.subrange(tail_start, s.len() as int)
            == " UTC"@) {
            None
        } else if timestamp::spec_time_valid_base(t) && 1901 <= t.year <= 9998 {
            let nanos = if frac_digits > 0 {
                timestamp::spec_digits_val(s.subrange(20, 20 + frac_digits))
                    * timestamp::spec_pow10((9 - frac_digits) as nat)
            } else {
                0
            };
            Some((timestamp::spec_total_of_civil(t), nanos))
        } else {
            None
        }
    } else {
        None
    }
}

/// Parses the query service's text time.
#[verifier::loop_isolation(false)]
#[verifier::rlimit(100)]
pub fn parse_space_utc(s: &str) -> (r: Option<(u64, u32)>)
    ensures
        match r {
            Some(p) => spec_parse_space_utc(s@) == Some((p.0 as int, p.1 as int)) && p.0
                < 256200000000 && p.1 < 1000000000,
            None => spec_parse_space_utc(s@) is None,
        },
{
    let v = text::chars_of(s);
    let n = v.len();
    if n < 23 {
        return None;
    }
    if !(v[4] == '-' && v[7] == '-' && v[10] == ' ' && v[13] == ':' && v[16] == ':') {
        return None;
    }
    let y_hi = match timestamp::read2(&v, 0) {
        Some(x) => x,
        None => {
            return None;
        },
    };
    let y_lo = match timestamp::read2(&v, 2) {
        Some(x) => x,
        None => {
            return None;
        },
    };
    let year = y_hi * 100 + y_lo;
    let month = match timestamp::read2(&v, 5) {
        Some(x) => x,
        None => {
            return None;
        },
    };
    let day = match timestamp::read2(&v, 8) {
        Some(x) => x,
        None => {
            return None;
        },
    };
    let hour = match timestamp::read2(&v, 11) {
        Some(x) => x,
        None => {
            return None;
        },
    };
    let minute = match timestamp::read2(&v, 14) {
        Some(x) => x,
        None => {
            return None;
        },
    };
    let second = match timestamp::read2(&v, 17) {
        Some(x) => x,
        None => {
            return None;
        },
    };
    // Optional fraction.
    let mut frac_digits: usize = 0;
    let mut acc: u64 = 0;
    if v[19] == '.' {
        let mut p: usize = 20;
        proof {
            assert(v@.subrange(20, 20) =~= Seq::<char>::empty());
        }
        while p < n && frac_digits <= 9 && '0' <= v[p] && v[p] <= '9'
            invariant
                20 <= p <= n,
                n == v@.len(),
                frac_digits == p - 20,
                timestamp::spec_all_digits(v@, 20, p as int),
                frac_digits <= 10,
                acc == timestamp::spec_digits_val(v@.subrange(20, p as int)),
                acc < 10000000000,
            decreases n - p,
        {
            proof {
                assert(v@.subrange(20, p + 1).drop_last() =~= v@.subrange(20, p as int));
                assert(v@.subrange(20, p + 1).last() == v@[p as int]);
                timestamp::lemma_digits_val_bound_10(v@.subrange(20, p + 1));
            }
            acc = acc * 10 + ((v[p] as u32) - 48) as u64;
            frac_digits = frac_digits + 1;
            p = p + 1;
        }
        proof {
            if p < n && !timestamp::spec_is_digit(v@[p as int]) {
                timestamp::lemma_frac_count_eq(v@, 20, p as int);
            } else if p == n {
                timestamp::lemma_frac_count_eq(v@, 20, p as int);
            } else {
                timestamp::lemma_frac_count_ge(v@, 20, p as int);
            }
        }
        if frac_digits == 0 || frac_digits > 9 {
            return None;
        }
    }
    let tail_start: usize = if frac_digits > 0 {
        20 + frac_digits
    } else {
        19
    };
    if n != tail_start + 4 {
        return None;
    }
    let tail_ok = v[tail_start] == ' ' && v[tail_start + 1] == 'U' && v[tail_start + 2] == 'T'
        && v[tail_start + 3] == 'C';
    proof {
        reveal_strlit(" UTC");
        if tail_ok {
            assert(v@.subrange(tail_start as int, n as int) =~= " UTC"@);
        } else {
            assert(v@.subrange(tail_start as int, n as int) != " UTC"@) by {
                if v@.subrange(tail_start as int, n as int) == " UTC"@ {
                    assert(v@.subrange(tail_start as int, n as int)[0] == ' ');
                    assert(v@.subrange(tail_start as int, n as int)[1] == 'U');
                    assert(v@.subrange(tail_start as int, n as int)[2] == 'T');
                    assert(v@.subrange(tail_start as int, n as int)[3] == 'C');
                }
            }
        }
    }
    if !tail_ok {
        return None;
    }
    // Calendar validity.
    if !(month >= 1 && month <= 12) {
        return None;
    }
    let dim = timestamp::days_in_month(year, month);
    if !(day >= 1 && day <= dim) {
        return None;
    }
    if !(hour < 24 && minute < 60 && second < 60) {
        return None;
    }
    if !(year >= 1901 && year <= 9998) {
        return None;
    }
    let base = timestamp::total_of_civil(year, month, day, hour, minute, second);
    proof {
        timestamp::lemma_total_bounds(year as int, month as int, day as int);
        assert(base < 256200000000);
    }
    let nanos: u64 = if frac_digits > 0 {
        let mut mult: u64 = 1;
        let mut k: usize = 0;
        while k < 9 - frac_digits
            invariant
                1 <= frac_digits <= 9,
                k <= 9 - frac_digits,
                mult == timestamp::spec_pow10(k as nat),
            decreases 9 - frac_digits - k,
        {
            proof {
                timestamp::lemma_pow10_bound(k as nat);
            }
            mult = mult * 10;
            k = k + 1;
        }
        proof {
            timestamp::lemma_pow10_bound(k as nat);
            timestamp::lemma_digits_val_bound(v@.subrange(20, 20 + frac_digits as int));
            assert(acc * mult < 1000000000000000000) by (nonlinear_arith)
                requires
                    0 <= acc < 1000000000,
                    0 <= mult <= 100000000,
            ;
            timestamp::lemma_nanos_bound(
                timestamp::spec_digits_val(v@.subrange(20, 20 + frac_digits as int)),
                frac_digits as nat,
            );
        }
        acc * mult
    } else {
        0
    };
    Some((base, nanos as u32))
}

/// Renders the canonical time with exactly six fractional digits.
pub fn render_micro(total: u64, micros: u32) -> (r: String)
    requires
        total < 256200000000,
        micros < 1000000,
    ensures
        r@ == spec_render_micro(total as int, micros as int),
{
    let (y, mo, d, h, mi, s) = timestamp::civil_of(total);
    let mut out: Vec<char> = Vec::new();
    timestamp::push_d4(&mut out, y);
    out.push('-');
    timestamp::push_d2(&mut out, mo);
    out.push('-');
    timestamp::push_d2(&mut out, d);
    out.push('T');
    timestamp::push_d2(&mut out, h);
    out.push(':');
    timestamp::push_d2(&mut out, mi);
    out.push(':');
    timestamp::push_d2(&mut out, s);
    out.push('.');
    timestamp::push_d3(&mut out, micros / 1000);
    timestamp::push_d3(&mut out, micros % 1000);
    out.push('Z');
    proof {
        assert(out@ =~= spec_render_micro(total as int, micros as int));
    }
    text::string_of(&out)
}

/// Renders a record's time field in the canonical form.
pub fn time_text(t: &TimeField) -> (r: String)
    ensures
        r@ == spec_time_text(t),
{
    match t {
        TimeField::Millis(ms) => {
            if *ms >= 0 && *ms / 1000 + 2177452800 < 256200000000 {
                let total = (*ms / 1000 + 2177452800) as u64;
                let micros = ((*ms % 1000) * 1000) as u32;
                render_micro(total, micros)
            } else {
                String::new()
            }
        },
        TimeField::Text(s) => {
            match parse_space_utc(s.as_str()) {
                Some(p) => render_micro(p.0, p.1 / 1000),
                None => s.clone(),
            }
        },
        TimeField::Absent => String::new(),
    }
}

/// The canonical event one network record derives into: the fixed
/// destination ports decide which side is the destination, the port maps to
/// a logon-kind code, the combined identity splits at the backslash, and
/// commas in the command line become semicolons to keep rows well-formed.
pub open spec fn spec_cortex_event(rec: &CortexRecord) -> EventV {
    let lp = spec_port_view(&rec.local_port);
    let rp = spec_port_view(&rec.remote_port);
    let is_dst = spec_is_dst_port(lp);
    let du = spec_split_identity(rec.actor_primary_username@);
    let logon = if is_dst {
        spec_port_code(lp->0)
    } else if spec_is_dst_port(rp) {
        spec_port_code(rp->0)
    } else {
        Seq::empty()
    };
    EventV {
        time: spec_time_text(&rec.time),
        dst_host: if is_dst {
            rec.agent_hostname@
        } else {
            rec.action_remote_ip@
        },
        event_kind: "xdr_network"@,
        subject_user: Seq::empty(),
        subject_domain: Seq::empty(),
        target_user: du.1,
        target_domain: du.0,
        logon_kind: logon,
        src_host: if !is_dst {
            rec.agent_hostname@
        } else {
            Seq::empty()
        },
        src_ip: if !is_dst {
            rec.action_local_ip@
        } else {
            rec.action_remote_ip@
        },
        process: rec.actor_process_command_line@.map_values(
            |c: char|
                if c == ',' {
                    ';'
                } else {
                    c
                },
        ),
        provenance: "cortex_xdr_network"@,
    }
}

/// Derives the canonical event of one network record.  Every record yields
/// an event; missing fields arrive as empty strings and stay empty.
pub fn cortex_event(rec: &CortexRecord) -> (r: CanonicalEvent)
    ensures
        r@ == spec_cortex_event(rec),
{
    let lp = port_value(&rec.local_port);
    let rp = port_value(&rec.remote_port);
    let is_dst = match lp {
        Some(p) => p == 3389 || p == 445 || p == 22,
        None => false,
    };
    let logon: String = match lp {
        Some(p) if p == 3389 || p == 445 || p == 22 => {
            if p == 3389 {
                String::from_str("10")
            } else if p == 445 {
                String::from_str("3")
            } else {
                String::from_str("SSH")
            }
        },
        _ => {
            match rp {
                Some(p) if p == 3389 || p == 445 || p == 22 => {
                    if p == 3389 {
                        String::from_str("10")
                    } else if p == 445 {
                        String::from_str("3")
                    } else {
                        String::from_str("SSH")
                    }
                },
                _ => String::new(),
            }
        },
    };
    let (dom, usr) = crate::winevent::split_identity(&rec.actor_primary_username);
    let pc = text::chars_of(rec.actor_process_command_line.as_str());
    let mut proc: Vec<char> = Vec::new();
    let mut i: usize = 0;
    while i < pc.len()
        invariant
            i <= pc.len(),
            proc@ == pc@.take(i as int).map_values(
                |c: char|
                    if c == ',' {
                        ';'
                    } else {
                        c
                    },
            ),
        decreases pc.len() - i,
    {
        let c = pc[i];
        if c == ',' {
            proc.push(';');
        } else {
            proc.push(c);
        }
        i = i + 1;
        proof {
            assert(proc@ =~= pc@.take(i as int).map_values(
                |c: char|
                    if c == ',' {
                        ';'
                    } else {
                        c
                    },
            ));
        }
    }
    proof {
        assert(pc@.take(pc@.len() as int) =~= pc@);
    }
    CanonicalEvent {
        time: time_text(&rec.time),
        dst_host: if is_dst {
            rec.agent_hostname.clone()
        } else {
            rec.action_remote_ip.clone()
        },
        event_kind: String::from_str("xdr_network"),
        subject_user: String::new(),
        subject_domain: String::new(),
        target_user: usr,
        target_domain: dom,
        logon_kind: logon,
        src_host: if !is_dst {
            rec.agent_hostname.clone()
        } else {
            String::new()
        },
        src_ip: if !is_dst {
            rec.action_local_ip.clone()
        } else {
            rec.action_remote_ip.clone()
        },
        process: text::string_of(&proc),
        provenance: String::from_str("cortex_xdr_network"),
    }
}

/// One forensics record, reduced to the plain values the derivation reads.
pub struct ForensicsRecord {
    pub time: TimeField,
    pub dst_host: String,
    pub event_id: String,
    pub subject_name: String,
    pub subject_domain: String,
    pub target_user: String,
    pub target_domain: String,
    pub logon_kind: String,
    pub source_host: String,
    pub src_ip: String,
    pub process: String,
}

/// The canonical event one forensics record derives into: its fields are
/// already canonical and are copied, the time is normalized.
pub open spec fn spec_forensics_event(rec: &ForensicsRecord) -> EventV {
    EventV {
        time: spec_time_text(&rec.time),
        dst_host: rec.dst_host@,
        event_kind: rec.event_id@,
        subject_user: rec.subject_name@,
        subject_domain: rec.subject_domain@,
        target_user: rec.target_user@,
        target_domain: rec.target_domain@,
        logon_kind: rec.logon_kind@,
        src_host: rec.source_host@,
        src_ip: rec.src_ip@,
        process: rec.process@,
        provenance: "cortex_evtx_forensics"@,
    }
}

/// Derives the canonical event of one forensics record.
pub fn forensics_event(rec: &ForensicsRecord) -> (r: CanonicalEvent)
    ensures
        r@ == spec_forensics_event(rec),
{
    CanonicalEvent {
        time: time_text(&rec.time),
        dst_host: rec.dst_host.clone(),
        event_kind: rec.event_id.clone(),
        subject_user: rec.subject_name.clone(),
        subject_domain: rec.subject_domain.clone(),
        target_user: rec.target_user.clone(),
        target_domain: rec.target_domain.clone(),
        logon_kind: rec.logon_kind.clone(),
        src_host: rec.source_host.clone(),
        src_ip: rec.src_ip.clone(),
        process: rec.process.clone(),
        provenance: String::from_str("cortex_evtx_forensics"),
    }
}

/// The sorting key of a record: its millisecond count, or its text parsed
/// in either accepted format.
pub open spec fn spec_record_millis(t: &TimeField) -> Option<int> {
    match t {
        TimeField::Millis(ms) => Some(*ms as int),
        TimeField::Text(s) => {
            match spec_parse_space_utc(s@) {
                Some(p) => Some(
                    (p.0 - timestamp::spec_base_offset()) * 1000 + p.1 / 1000000,
                ),
                None => {
                    match timestamp::spec_parse_rfc3339_offset(s@) {
                        Some(p) => Some(
                            (p.0 - timestamp::spec_base_offset()) * 1000 + p.1 / 1000000,
                        ),
                        None => None,
                    }
                },
            }
        },
        TimeField::Absent => None,
    }
}

/// Reads a record's millisecond sorting key.
pub fn record_millis(t: &TimeField) -> (r: Option<i64>)
    ensures
        match r {
            Some(n) => spec_record_millis(t) == Some(n as int),
            None => spec_record_millis(t) is None,
        },
{
    match t {
        TimeField::Millis(ms) => Some(*ms),
        TimeField::Text(s) => {
            match parse_space_utc(s.as_str()) {
                Some(p) => Some(((p.0 as i64) - 2177452800) * 1000 + ((p.1 / 1000000) as i64)),
                None => {
                    match timestamp::parse_rfc3339_offset(s.as_str()) {
                        Some(p) => Some(
                            ((p.0 as i64) - 2177452800) * 1000 + ((p.1 / 1000000) as i64),
                        ),
                        None => None,
                    }
                },
            }
        },
        TimeField::Absent => None,
    }
}

/// What the polling loop does after one reply.
pub enum PollAction {
    Collect,
    Retry,
    Stop,
}

/// The decision of one polling step: success collects the results, a
/// pending or running query waits and retries while attempts remain, and
/// anything else stops with what was gathered, so an exhausted budget is
/// "no data" rather than an error.
pub open spec fn spec_poll_step(status: Seq<char>, attempt: u64, max_retries: u64) -> PollAction {
    if status == "SUCCESS"@ {
        PollAction::Collect
    } else if (status == "PENDING"@ || status == "RUNNING"@) && attempt + 1 < max_retries {
        PollAction::Retry
    } else {
        PollAction::Stop
    }
}

/// Decides one polling step.
pub fn poll_step(status: &String, attempt: u64, max_retries: u64) -> (r: PollAction)
    requires
        attempt < max_retries,
    ensures
        r == spec_poll_step(status@, attempt, max_retries),
{
    if crate::winevent::str_lit_eq(status, "SUCCESS") {
        PollAction::Collect
    } else if (crate::winevent::str_lit_eq(status, "PENDING") || crate::winevent::str_lit_eq(
        status,
        "RUNNING",
    )) && attempt + 1 < max_retries {
        PollAction::Retry
    } else {
        PollAction::Stop
    }
}

/// A stream payload is compressed when it opens with the two-byte
/// signature.
pub open spec fn spec_is_gzip(b: Seq<u8>) -> bool {
    b.len() >= 2 && b[0] == 0x1f && b[1] == 0x8b
}

/// Detects the compression signature of a stream payload.
pub fn is_gzip(b: &Vec<u8>) -> (r: bool)
    ensures
        r == spec_is_gzip(b@),
{
    b.len() >= 2 && b[0] == 0x1f && b[1] == 0x8b
}

/// The non-empty trimmed lines of a streamed payload, each expected to hold
/// one record.
pub open spec fn spec_ndjson_lines(s: Seq<char>) -> Seq<Seq<char>> {
    spec_nonempty_trimmed(text::spec_split(s, '\n'))
}

/// Trims every segment and drops the empty ones.
pub open spec fn spec_nonempty_trimmed(parts: Seq<Seq<char>>) -> Seq<Seq<char>>
    decreases parts.len(),
{
    if parts.len() == 0 {
        Seq::empty()
    } else {
        let p = spec_nonempty_trimmed(parts.drop_last());
        let t = text::spec_trim(parts.last());
        if t.len() > 0 {
            p.push(t)
        } else {
            p
        }
    }
}

/// Splits a streamed payload into its record lines.
#[verifier::loop_isolation(false)]
pub fn ndjson_lines(s: &str) -> (r: Vec<String>)
    ensures
        r.deep_view() == spec_ndjson_lines(s@),
{
    let v = text::chars_of(s);
    let parts = text::split_chars(&v, '\n');
    let ghost pv = parts.deep_view();
    let mut out: Vec<String> = Vec::new();
    let mut i: usize = 0;
    proof {
        assert(pv.take(0) =~= Seq::<Seq<char>>::empty());
        assert(out.deep_view() =~~= spec_nonempty_trimmed(pv.take(0)));
    }
    while i < parts.len()
        invariant
            i <= parts@.len(),
            pv == parts.deep_view(),
            out.deep_view() == spec_nonempty_trimmed(pv.take(i as int)),
        decreases parts@.len() - i,
    {
        proof {
            assert(pv.take(i + 1).drop_last() =~= pv.take(i as int));
            assert(pv.take(i + 1).last() == pv[i as int]);
            assert(pv[i as int] =~= parts@[i as int]@);
        }
        let ghost prev = out.deep_view();
        let t = text::trim_chars(&parts[i]);
        if t.len() > 0 {
            out.push(text::string_of(&t));
            proof {
                assert(out.deep_view() =~~= prev.push(text::spec_trim(pv[i as int])));
            }
        }
        i = i + 1;
    }
    proof {
        assert(pv.take(parts@.len() as int) =~= pv);
    }
    out
}

/// The normalized query window bound: a time that already carries one of
/// the known offsets is kept as trimmed, otherwise the zero offset is
/// appended; the first nineteen characters must form a calendar-valid
/// `YYYY-MM-DD HH:MM:SS`.
pub open spec fn spec_query_time(raw: Seq<char>) -> Option<Seq<char>> {
    let t = text::spec_trim(raw);
    let base = if spec_ends_with(t, " -0000"@) || spec_ends_with(t, " -1000"@) || spec_ends_with(
        t,
        " -0100"@,
    ) {
        t
    } else {
        t + " -0000"@
    };
    if spec_head_valid(base) {
        Some(base)
    } else {
        None
    }
}

/// Whether a sequence ends with a suffix.
pub open spec fn spec_ends_with(s: Seq<char>, suffix: Seq<char>) -> bool {
    s.len() >= suffix.len() && s.subrange(s.len() - suffix.len(), s.len() as int) == suffix
}

/// The head of a normalized bound is a calendar-valid date and time with a
/// space separator.
pub open spec fn spec_head_valid(s: Seq<char>) -> bool {
    &&& s.len() >= 19
    &&& timestamp::spec_all_digits(s, 0, 4)
    &&& s[4] == '-'
    &&& timestamp::spec_all_digits(s, 5, 7)
    &&& s[7] == '-'
    &&& timestamp::spec_all_digits(s, 8, 10)
    &&& s[10] == ' '
    &&& timestamp::spec_all_digits(s, 11, 13)
    &&& s[13] == ':'
    &&& timestamp::spec_all_digits(s, 14, 16)
    &&& s[16] == ':'
    &&& timestamp::spec_all_digits(s, 17, 19)
    &&& timestamp::spec_time_valid_base(timestamp::spec_fields_of(s))
}

/// Normalizes one query window bound; `None` exactly on text whose head is
/// not a calendar-valid date and time.
#[verifier::loop_isolation(false)]
pub fn query_time(raw: &str) -> (r: Option<String>)
    ensures
        match r {
            Some(out) => spec_query_time(raw@) == Some(out@),
            None => spec_query_time(raw@) is None,
        },
{
    let rawc = text::chars_of(raw);
    let t = text::trim_chars(&rawc);
    let s1: Vec<char> = vec![' ', '-', '0', '0', '0', '0'];
    let s2: Vec<char> = vec![' ', '-', '1', '0', '0', '0'];
    let s3: Vec<char> = vec![' ', '-', '0', '1', '0', '0'];
    proof {
        reveal_strlit(" -0000");
        reveal_strlit(" -1000");
        reveal_strlit(" -0100");
        assert(s1@ =~= " -0000"@);
        assert(s2@ =~= " -1000"@);
        assert(s3@ =~= " -0100"@);
    }
    let has_suffix = ends_with(&t, &s1) || ends_with(&t, &s2) || ends_with(&t, &s3);
    let mut base = t;
    if !has_suffix {
        base.push(' ');
        base.push('-');
        base.push('0');
        base.push('0');
        base.push('0');
        base.push('0');
        proof {
            assert(base@ =~= text::spec_trim(rawc@) + " -0000"@);
        }
    }
    if head_valid(&base) {
        Some(text::string_of(&base))
    } else {
        None
    }
}

/// Whether a vector ends with a suffix.
fn ends_with(v: &Vec<char>, suffix: &Vec<char>) -> (r: bool)
    ensures
        r == spec_ends_with(v@, suffix@),
{
    if suffix.len() > v.len() {
        return false;
    }
    let r = text::match_at(v, suffix, v.len() - suffix.len());
    proof {
        assert(v@.subrange(v@.len() - suffix@.len(), v@.len() as int) =~= v@.subrange(
            (v@.len() - suffix@.len()) as int,
            v@.len() as int,
        ));
    }
    r
}

/// Checks the head shape of a normalized bound.
fn head_valid(v: &Vec<char>) -> (r: bool)
    ensures
        r == spec_head_valid(v@),
{
    if v.len() < 19 {
        return false;
    }
    if !(v[4] == '-' && v[7] == '-' && v[10] == ' ' && v[13] == ':' && v[16] == ':') {
        return false;
    }
    let y_hi = match timestamp::read2(v, 0) {
        Some(x) => x,
        None => {
            return false;
        },
    };
    let y_lo = match timestamp::read2(v, 2) {
        Some(x) => x,
        None => {
            return false;
        },
    };
    let year = y_hi * 100 + y_lo;
    let month = match timestamp::read2(v, 5) {
        Some(x) => x,
        None => {
            return false;
        },
    };
    let day = match timestamp::read2(v, 8) {
        Some(x) => x,
        None => {
            return false;
        },
    };
    let hour = match timestamp::read2(v, 11) {
        Some(x) => x,
        None => {
            return false;
        },
    };
    let minute = match timestamp::read2(v, 14) {
        Some(x) => x,
        None => {
            return false;
        },
    };
    let second = match timestamp::read2(v, 17) {
        Some(x) => x,
        None => {
            return false;
        },
    };
    if !(month >= 1 && month <= 12) {
        return false;
    }
    let dim = timestamp::days_in_month(year, month);
    if !(day >= 1 && day <= dim) {
        return false;
    }
    hour < 24 && minute < 60 && second < 60
}

} // verus!
