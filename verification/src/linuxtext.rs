//! Decoding of Linux text logs: structured syslog lines with a full
//! timestamp, and audit-subsystem lines with an embedded epoch.  A
//! priority-ordered chain of patterns classifies each line; the first
//! pattern that matches wins.
use vstd::prelude::*;
use crate::linuxbin::spec_looks_like_ip;
use crate::model::{CanonicalEvent, EventV};
use crate::text;
use crate::timestamp;

verus! {

broadcast use text::lemma_chars_deep_view;

/// The index of the first character at or after `i` that ends a
/// non-whitespace run.
pub open spec fn spec_token_end(s: Seq<char>, i: int) -> int
    decreases s.len() - i,
{
    if i < 0 || i >= s.len() || text::spec_is_space(s[i]) {
        i
    } else {
        spec_token_end(s, i + 1)
    }
}

/// The non-whitespace run starting at `i`.
pub open spec fn spec_token(s: Seq<char>, i: int) -> Seq<char> {
    if 0 <= i <= s.len() {
        s.subrange(i, spec_token_end(s, i))
    } else {
        Seq::empty()
    }
}

/// The run end never runs past the sequence, nor backwards.
pub proof fn lemma_token_end_bounds(s: Seq<char>, i: int)
    requires
        0 <= i <= s.len(),
    ensures
        i <= spec_token_end(s, i) <= s.len(),
    decreases s.len() - i,
{
    if !(i >= s.len() || text::spec_is_space(s[i])) {
        lemma_token_end_bounds(s, i + 1);
    }
}

/// Extracts the non-whitespace run starting at `i`.
#[verifier::loop_isolation(false)]
pub fn token_at(v: &Vec<char>, i: usize) -> (r: Vec<char>)
    requires
        i <= v.len(),
    ensures
        r@ == spec_token(v@, i as int),
{
    let mut e: usize = i;
    while e < v.len() && !(v[e] == ' ' || v[e] == '\t' || v[e] == '\n' || v[e] == '\r')
        invariant
            i <= e <= v.len(),
            spec_token_end(v@, i as int) == spec_token_end(v@, e as int),
        decreases v.len() - e,
    {
        e = e + 1;
    }
    proof {
        assert(spec_token_end(v@, e as int) == e as int);
    }
    let mut r: Vec<char> = Vec::new();
    let mut k: usize = i;
    while k < e
        invariant
            i <= k <= e <= v.len(),
            r@ == v@.subrange(i as int, k as int),
        decreases e - k,
    {
        r.push(v[k]);
        k = k + 1;
        proof {
            assert(r@ =~= v@.subrange(i as int, k as int));
        }
    }
    r
}

/// Whitespace-separated tokens, empty runs collapsed.
pub open spec fn spec_ws_tokens(s: Seq<char>) -> Seq<Seq<char>>
    decreases s.len(),
{
    if s.len() == 0 {
        Seq::empty()
    } else {
        let p = spec_ws_tokens(s.drop_last());
        if text::spec_is_space(s.last()) {
            p
        } else if s.len() >= 2 && !text::spec_is_space(s[s.len() - 2]) {
            p.update(p.len() - 1, p.last().push(s.last()))
        } else {
            p.push(seq![s.last()])
        }
    }
}

/// Splits on whitespace, collapsing runs.
#[verifier::loop_isolation(false)]
pub fn ws_tokens(v: &Vec<char>) -> (r: Vec<Vec<char>>)
    ensures
        r.deep_view() == spec_ws_tokens(v@),
{
    let mut done: Vec<Vec<char>> = Vec::new();
    let mut cur: Vec<char> = Vec::new();
    proof {
        assert(v@.take(0) =~= Seq::<char>::empty());
        assert(done.deep_view() =~~= spec_ws_tokens(v@.take(0)));
    }
    let mut i: usize = 0;
    while i < v.len()
        invariant
            i <= v.len(),
            cur@.len() == 0 ==> done.deep_view() == spec_ws_tokens(v@.take(i as int)) && (i == 0
                || text::spec_is_space(v@[i - 1])),
            cur@.len() > 0 ==> done.deep_view().push(cur@) == spec_ws_tokens(v@.take(i as int))
                && i > 0 && !text::spec_is_space(v@[i - 1]),
        decreases v.len() - i,
    {
        let c = v[i];
        proof {
            assert(v@.take(i + 1).drop_last() =~= v@.take(i as int));
            assert(v@.take(i + 1).last() == v@[i as int]);
        }
        let ghost ddv = done.deep_view();
        if c == ' ' || c == '\t' || c == '\n' || c == '\r' {
            if cur.len() > 0 {
                done.push(cur);
                cur = Vec::new();
                proof {
                    assert(done.deep_view() =~~= spec_ws_tokens(v@.take(i + 1)));
                }
            }
        } else {
            if cur.len() == 0 {
                cur.push(c);
                proof {
                    assert(done.deep_view().push(cur@) =~~= ddv.push(seq![v@[i as int]]));
                    assert(done.deep_view().push(cur@) =~~= spec_ws_tokens(v@.take(i + 1)));
                }
            } else {
                let ghost prev = done.deep_view().push(cur@);
                cur.push(c);
                proof {
                    assert(done.deep_view().push(cur@) =~~= prev.update(
                        prev.len() - 1,
                        prev.last().push(v@[i as int]),
                    ));
                }
            }
        }
        i = i + 1;
    }
    proof {
        assert(v@.take(v.len() as int) =~= v@);
    }
    if cur.len() > 0 {
        let ghost fin = done.deep_view().push(cur@);
        done.push(cur);
        proof {
            assert(done.deep_view() =~~= fin);
        }
    }
    done
}

/// The message part of a structured line: everything from the ` - - `
/// marker on; the whole line when the marker is absent.
pub open spec fn spec_msg_of(l: Seq<char>) -> Seq<char> {
    match text::spec_find_seq(l, seq![' ', '-', ' ', '-', ' '], 0) {
        Some(i) => l.skip(i),
        None => l,
    }
}

/// A legacy line in the year-less framing, always rejected since the year
/// cannot be inferred reliably.
pub open spec fn spec_is_legacy(l: Seq<char>) -> bool {
    l.len() > 15 && (forall|k: int|
        0 <= k < 3 ==> (('a' <= #[trigger] l[k] && l[k] <= 'z') || ('A' <= l[k] && l[k] <= 'Z')))
}

/// The connection-start capture: after a service-start marker, the address
/// that follows the mapped-address prefix.
pub open spec fn spec_xinetd_capture(msg: Seq<char>) -> Option<Seq<char>> {
    match text::spec_find_seq(msg, "START: ssh "@, 0) {
        Some(i) => {
            let rest = msg.skip(i);
            match text::spec_find_seq(rest, "from=::ffff:"@, 0) {
                Some(j) => {
                    let tok = spec_token(rest, j + 12);
                    if tok.len() >= 1 {
                        Some(tok)
                    } else {
                        None
                    }
                },
                None => None,
            }
        },
        None => None,
    }
}

/// A user token followed by ` from ` and an address token, read at `p`.
pub open spec fn spec_user_from(msg: Seq<char>, p: int) -> Option<(Seq<char>, Seq<char>)> {
    let u = spec_token(msg, p);
    if u.len() >= 1 && text::spec_match_at(msg, " from "@, p + u.len()) {
        let ip = spec_token(msg, p + u.len() + 6);
        if ip.len() >= 1 {
            Some((u, ip))
        } else {
            None
        }
    } else {
        None
    }
}

/// The successful-authentication capture: the earlier of the two accepted
/// markers, then the user and address.
pub open spec fn spec_ssh_ok_capture(msg: Seq<char>) -> Option<(Seq<char>, Seq<char>)> {
    let a = text::spec_find_seq(msg, "Accepted password for "@, 0);
    let b = text::spec_find_seq(msg, "Accepted publickey for "@, 0);
    if a is Some && (b is None || a->0 <= b->0) {
        spec_user_from(msg, a->0 + 22)
    } else if b is Some {
        spec_user_from(msg, b->0 + 23)
    } else {
        None
    }
}

/// The failed-authentication capture.
pub open spec fn spec_ssh_fail_capture(msg: Seq<char>) -> Option<(Seq<char>, Seq<char>)> {
    match text::spec_find_seq(msg, "Failed password for "@, 0) {
        Some(i) => spec_user_from(msg, i + 20),
        None => None,
    }
}

/// The canonical event of one classified observation: the peer lands in the
/// source-host or source-address column by its lexical shape.
pub open spec fn spec_raw_event(
    when: Seq<char>,
    user: Seq<char>,
    remote: Seq<char>,
    proc: Seq<char>,
    evt: Seq<char>,
    dst: Seq<char>,
    prov: Seq<char>,
) -> EventV {
    EventV {
        time: when,
        dst_host: dst,
        event_kind: evt,
        subject_user: Seq::empty(),
        subject_domain: Seq::empty(),
        target_user: user,
        target_domain: Seq::empty(),
        logon_kind: Seq::empty(),
        src_host: if spec_looks_like_ip(remote) {
            Seq::empty()
        } else {
            remote
        },
        src_ip: if spec_looks_like_ip(remote) {
            remote
        } else {
            Seq::empty()
        },
        process: proc,
        provenance: prov,
    }
}

/// The event one structured syslog line yields: legacy framings are always
/// rejected; a structured framing needs a parseable timestamp token, and
/// its message is tried against the connection-start, success and failure
/// patterns in that order, the first match deciding.  With filtering on, a
/// peer that does not resemble an address is dropped (failures pass the
/// success pattern first and are unaffected).
pub open spec fn spec_syslog_event(
    l: Seq<char>,
    dst: Seq<char>,
    prov: Seq<char>,
    filter_ip: bool,
) -> Option<EventV> {
    if spec_is_legacy(l) {
        None
    } else if !(l.len() > 0 && l[0] == '<') {
        None
    } else if spec_ws_tokens(l).len() < 7 {
        None
    } else {
        match timestamp::spec_parse_rfc3339_offset(spec_ws_tokens(l)[1]) {
            None => None,
            Some(tn) => {
                let when = timestamp::spec_render_rfc3339_frac(
                    timestamp::spec_civil_of(tn.0),
                    tn.1,
                );
                let msg = spec_msg_of(l);
                match spec_xinetd_capture(msg) {
                    Some(ip) => if !filter_ip || spec_looks_like_ip(ip) {
                        Some(
                            spec_raw_event(
                                when,
                                Seq::empty(),
                                ip,
                                "xinetd"@,
                                "SSH_CONNECT"@,
                                dst,
                                prov,
                            ),
                        )
                    } else {
                        None
                    },
                    None => match spec_ssh_ok_capture(msg) {
                        Some(ui) => if !filter_ip || spec_looks_like_ip(ui.1) {
                            Some(
                                spec_raw_event(
                                    when,
                                    ui.0,
                                    ui.1,
                                    "ssh"@,
                                    "SSH_SUCCESS"@,
                                    dst,
                                    prov,
                                ),
                            )
                        } else {
                            None
                        },
                        None => match spec_ssh_fail_capture(msg) {
                            Some(ui) => if !filter_ip || spec_looks_like_ip(ui.1) {
                                Some(
                                    spec_raw_event(
                                        when,
                                        ui.0,
                                        ui.1,
                                        "ssh"@,
                                        "SSH_FAILED"@,
                                        dst,
                                        prov,
                                    ),
                                )
                            } else {
                                None
                            },
                            None => None,
                        },
                    },
                }
            },
        }
    }
}

/// Builds the canonical event of one classified observation.
fn raw_event(
    when: String,
    user: Vec<char>,
    remote: Vec<char>,
    proc: &str,
    evt: &str,
    dst: &str,
    prov: &str,
) -> (r: CanonicalEvent)
    ensures
        r@ == spec_raw_event(when@, user@, remote@, proc@, evt@, dst@, prov@),
{
    let ip_like = crate::linuxbin::looks_like_ip(&remote);
    CanonicalEvent {
        time: when,
        dst_host: String::from_str(dst),
        event_kind: String::from_str(evt),
        subject_user: String::new(),
        subject_domain: String::new(),
        target_user: text::string_of(&user),
        target_domain: String::new(),
        logon_kind: String::new(),
        src_host: if ip_like {
            String::new()
        } else {
            text::string_of(&remote)
        },
        src_ip: if ip_like {
            text::string_of(&remote)
        } else {
            String::new()
        },
        process: String::from_str(proc),
        provenance: String::from_str(prov),
    }
}

/// Tries the user-and-address capture at a position.
#[verifier::loop_isolation(false)]
fn user_from(msg: &Vec<char>, p: usize) -> (r: Option<(Vec<char>, Vec<char>)>)
    requires
        p <= msg.len(),
    ensures
        match r {
            Some(ui) => spec_user_from(msg@, p as int) == Some((ui.0@, ui.1@)),
            None => spec_user_from(msg@, p as int) is None,
        },
{
    let u = token_at(msg, p);
    if u.len() == 0 {
        return None;
    }
    proof {
        lemma_token_end_bounds(msg@, p as int);
        assert(p + u@.len() <= msg@.len());
    }
    let from_pat: Vec<char> = vec![' ', 'f', 'r', 'o', 'm', ' '];
    proof {
        reveal_strlit(" from ");
        assert(from_pat@ =~= " from "@);
    }
    let upos = p + u.len();
    if msg.len() - upos < 6 {
        proof {
            assert(!text::spec_match_at(msg@, " from "@, upos as int));
        }
        return None;
    }
    if !text::match_at(msg, &from_pat, upos) {
        return None;
    }
    let ip = token_at(msg, upos + 6);
    if ip.len() == 0 {
        return None;
    }
    Some((u, ip))
}

/// Classifies one syslog line.
#[verifier::loop_isolation(false)]
#[verifier::rlimit(100)]
pub fn syslog_event(line: &str, dst: &str, prov: &str, filter_ip: bool) -> (r: Option<
    CanonicalEvent,
>)
    ensures
        match r {
            Some(ev) => spec_syslog_event(line@, dst@, prov@, filter_ip) == Some(ev@),
            None => spec_syslog_event(line@, dst@, prov@, filter_ip) is None,
        },
{
    let l = text::chars_of(line);
    if l.len() > 15 {
        let a0 = l[0];
        let a1 = l[1];
        let a2 = l[2];
        let alpha0 = ('a' <= a0 && a0 <= 'z') || ('A' <= a0 && a0 <= 'Z');
        let alpha1 = ('a' <= a1 && a1 <= 'z') || ('A' <= a1 && a1 <= 'Z');
        let alpha2 = ('a' <= a2 && a2 <= 'z') || ('A' <= a2 && a2 <= 'Z');
        if alpha0 && alpha1 && alpha2 {
            proof {
                assert forall|k: int| 0 <= k < 3 implies (('a' <= l@[k] && l@[k] <= 'z') || ('A'
                    <= l@[k] && l@[k] <= 'Z')) by {
                    if k == 0 {
                    } else if k == 1 {
                    } else {
                    }
                }
            }
            return None;
        }
        proof {
            assert(!spec_is_legacy(l@));
        }
    }
    if l.len() == 0 || l[0] != '<' {
        return None;
    }
    let toks = ws_tokens(&l);
    if toks.len() < 7 {
        proof {
            assert(toks.deep_view().len() == toks@.len());
        }
        return None;
    }
    proof {
        assert(toks.deep_view()[1] =~= toks@[1]@);
    }
    let t1 = text::string_of(&toks[1]);
    let tn = match timestamp::parse_rfc3339_offset(t1.as_str()) {
        Some(x) => x,
        None => {
            return None;
        },
    };
    let when = timestamp::render_rfc3339_frac_of(tn.0, tn.1);
    // The message part.
    let marker: Vec<char> = vec![' ', '-', ' ', '-', ' '];
    proof {
        assert(marker@ =~= seq![' ', '-', ' ', '-', ' ']);
    }
    let msg: Vec<char> = match text::find_seq(&l, &marker, 0) {
        Some(i) => text::skip_prefix(&l, i),
        None => text::clone_chars(&l),
    };
    // Connection start.
    let xin1: Vec<char> = vec!['S', 'T', 'A', 'R', 'T', ':', ' ', 's', 's', 'h', ' '];
    let xin2: Vec<char> = vec!['f', 'r', 'o', 'm', '=', ':', ':', 'f', 'f', 'f', 'f', ':'];
    proof {
        reveal_strlit("START: ssh ");
        reveal_strlit("from=::ffff:");
        assert(xin1@ =~= "START: ssh "@);
        assert(xin2@ =~= "from=::ffff:"@);
    }
    let xcap: Option<Vec<char>> = match text::find_seq(&msg, &xin1, 0) {
        Some(i) => {
            let rest = text::skip_prefix(&msg, i);
            match text::find_seq(&rest, &xin2, 0) {
                Some(j) => {
                    let tok = token_at(&rest, j + 12);
                    if tok.len() >= 1 {
                        Some(tok)
                    } else {
                        None
                    }
                },
                None => None,
            }
        },
        None => None,
    };
    proof {
        match xcap {
            Some(ref t) => {
                assert(spec_xinetd_capture(msg@) == Some(t@));
            },
            None => {
                assert(spec_xinetd_capture(msg@) is None);
            },
        }
    }
    match xcap {
        Some(tok) => {
            let keep = !filter_ip || crate::linuxbin::looks_like_ip(&tok);
            if keep {
                return Some(raw_event(when, Vec::new(), tok, "xinetd", "SSH_CONNECT", dst, prov));
            } else {
                return None;
            }
        },
        None => {},
    }
    // Successful authentication.
    let okp: Vec<char> = vec![
        'A',
        'c',
        'c',
        'e',
        'p',
        't',
        'e',
        'd',
        ' ',
        'p',
        'a',
        's',
        's',
        'w',
        'o',
        'r',
        'd',
        ' ',
        'f',
        'o',
        'r',
        ' ',
    ];
    let okk: Vec<char> = vec![
        'A',
        'c',
        'c',
        'e',
        'p',
        't',
        'e',
        'd',
        ' ',
        'p',
        'u',
        'b',
        'l',
        'i',
        'c',
        'k',
        'e',
        'y',
        ' ',
        'f',
        'o',
        'r',
        ' ',
    ];
    proof {
        reveal_strlit("Accepted password for ");
        reveal_strlit("Accepted publickey for ");
        assert(okp@ =~= "Accepted password for "@);
        assert(okk@ =~= "Accepted publickey for "@);
    }
    let fa = text::find_seq(&msg, &okp, 0);
    let fb = text::find_seq(&msg, &okk, 0);
    let ok_pos: Option<usize> = match (fa, fb) {
        (Some(a), Some(b)) => if a <= b {
            Some(a + 22)
        } else {
            Some(b + 23)
        },
        (Some(a), None) => Some(a + 22),
        (None, Some(b)) => Some(b + 23),
        (None, None) => None,
    };
    let okcap: Option<(Vec<char>, Vec<char>)> = match ok_pos {
        Some(p) => user_from(&msg, p),
        None => None,
    };
    proof {
        match okcap {
            Some(ref ui) => {
                assert(spec_ssh_ok_capture(msg@) == Some((ui.0@, ui.1@)));
            },
            None => {
                assert(spec_ssh_ok_capture(msg@) is None);
            },
        }
    }
    match okcap {
        Some(ui) => {
            let keep = !filter_ip || crate::linuxbin::looks_like_ip(&ui.1);
            if keep {
                return Some(raw_event(when, ui.0, ui.1, "ssh", "SSH_SUCCESS", dst, prov));
            } else {
                return None;
            }
        },
        None => {},
    }
    // Failed authentication.
    let flp: Vec<char> = vec![
        'F',
        'a',
        'i',
        'l',
        'e',
        'd',
        ' ',
        'p',
        'a',
        's',
        's',
        'w',
        'o',
        'r',
        'd',
        ' ',
        'f',
        'o',
        'r',
        ' ',
    ];
    proof {
        reveal_strlit("Failed password for ");
        assert(flp@ =~= "Failed password for "@);
    }
    match text::find_seq(&msg, &flp, 0) {
        Some(i) => {
            match user_from(&msg, i + 20) {
                Some(ui) => {
                    let keep = !filter_ip || crate::linuxbin::looks_like_ip(&ui.1);
                    if keep {
                        Some(raw_event(when, ui.0, ui.1, "ssh", "SSH_FAILED", dst, prov))
                    } else {
                        None
                    }
                },
                None => None,
            }
        },
        None => None,
    }
}

/// The first position at or after `i` holding a double quote, or the end.
pub open spec fn spec_quote_end(s: Seq<char>, i: int) -> int
    decreases s.len() - i,
{
    if i < 0 || i >= s.len() || s[i] == '"' {
        i
    } else {
        spec_quote_end(s, i + 1)
    }
}

/// The first position at or after `i` holding neither a digit nor a dot.
pub open spec fn spec_digitdot_end(s: Seq<char>, i: int) -> int
    decreases s.len() - i,
{
    if i < 0 || i >= s.len() || !(timestamp::spec_is_digit(s[i]) || s[i] == '.') {
        i
    } else {
        spec_digitdot_end(s, i + 1)
    }
}

/// The first position at or after `i` holding no word character.
pub open spec fn spec_word_end(s: Seq<char>, i: int) -> int
    decreases s.len() - i,
{
    if i < 0 || i >= s.len() || !(timestamp::spec_is_digit(s[i]) || ('a' <= s[i] && s[i] <= 'z')
        || ('A' <= s[i] && s[i] <= 'Z') || s[i] == '_') {
        i
    } else {
        spec_word_end(s, i + 1)
    }
}

/// A run end stays within bounds.
pub proof fn lemma_quote_end_bounds(s: Seq<char>, i: int)
    requires
        0 <= i <= s.len(),
    ensures
        i <= spec_quote_end(s, i) <= s.len(),
    decreases s.len() - i,
{
    if !(i >= s.len() || s[i] == '"') {
        lemma_quote_end_bounds(s, i + 1);
    }
}

/// A run end stays within bounds.
pub proof fn lemma_digitdot_end_bounds(s: Seq<char>, i: int)
    requires
        0 <= i <= s.len(),
    ensures
        i <= spec_digitdot_end(s, i) <= s.len(),
    decreases s.len() - i,
{
    if !(i >= s.len() || !(timestamp::spec_is_digit(s[i]) || s[i] == '.')) {
        lemma_digitdot_end_bounds(s, i + 1);
    }
}

/// A run end stays within bounds.
pub proof fn lemma_word_end_bounds(s: Seq<char>, i: int)
    requires
        0 <= i <= s.len(),
    ensures
        i <= spec_word_end(s, i) <= s.len(),
    decreases s.len() - i,
{
    if !(i >= s.len() || !(timestamp::spec_is_digit(s[i]) || ('a' <= s[i] && s[i] <= 'z') || ('A'
        <= s[i] && s[i] <= 'Z') || s[i] == '_')) {
        lemma_word_end_bounds(s, i + 1);
    }
}

/// Finds the end of the run of non-quote characters.
#[verifier::loop_isolation(false)]
fn quote_end(v: &Vec<char>, i: usize) -> (r: usize)
    requires
        i <= v.len(),
    ensures
        r == spec_quote_end(v@, i as int),
        i <= r <= v.len(),
{
    let mut e: usize = i;
    while e < v.len() && v[e] != '"'
        invariant
            i <= e <= v.len(),
            spec_quote_end(v@, i as int) == spec_quote_end(v@, e as int),
        decreases v.len() - e,
    {
        e = e + 1;
    }
    e
}

/// Finds the end of the run of digit and dot characters.
#[verifier::loop_isolation(false)]
fn digitdot_end(v: &Vec<char>, i: usize) -> (r: usize)
    requires
        i <= v.len(),
    ensures
        r == spec_digitdot_end(v@, i as int),
        i <= r <= v.len(),
{
    let mut e: usize = i;
    while e < v.len() && (('0' <= v[e] && v[e] <= '9') || v[e] == '.')
        invariant
            i <= e <= v.len(),
            spec_digitdot_end(v@, i as int) == spec_digitdot_end(v@, e as int),
        decreases v.len() - e,
    {
        e = e + 1;
    }
    e
}

/// Finds the end of the run of word characters.
#[verifier::loop_isolation(false)]
fn word_end(v: &Vec<char>, i: usize) -> (r: usize)
    requires
        i <= v.len(),
    ensures
        r == spec_word_end(v@, i as int),
        i <= r <= v.len(),
{
    let mut e: usize = i;
    while e < v.len() && (('0' <= v[e] && v[e] <= '9') || ('a' <= v[e] && v[e] <= 'z') || ('A'
        <= v[e] && v[e] <= 'Z') || v[e] == '_')
        invariant
            i <= e <= v.len(),
            spec_word_end(v@, i as int) == spec_word_end(v@, e as int),
        decreases v.len() - e,
    {
        e = e + 1;
    }
    e
}

/// Copies a character range.
fn chars_range(v: &Vec<char>, a: usize, b: usize) -> (r: Vec<char>)
    requires
        a <= b <= v.len(),
    ensures
        r@ == v@.subrange(a as int, b as int),
{
    let mut r: Vec<char> = Vec::new();
    let mut k: usize = a;
    while k < b
        invariant
            a <= k <= b <= v.len(),
            r@ == v@.subrange(a as int, k as int),
        decreases b - k,
    {
        r.push(v[k]);
        k = k + 1;
        proof {
            assert(r@ =~= v@.subrange(a as int, k as int));
        }
    }
    r
}

/// The audit captures: an authentication record type, then in order the
/// quoted account, the dotted peer address and the result word; the epoch
/// seconds from the audit preamble, held to the representable range.
pub open spec fn spec_audit_captures(l: Seq<char>) -> Option<(Seq<char>, Seq<char>, Seq<char>, int)> {
    let ta = text::spec_find_seq(l, "type=USER_AUTH"@, 0);
    let tb = text::spec_find_seq(l, "type=USER_START"@, 0);
    let p0 = if ta is Some && (tb is None || ta->0 <= tb->0) {
        ta->0 + 14
    } else if tb is Some {
        tb->0 + 15
    } else {
        -1
    };
    if p0 < 0 {
        None
    } else {
        match text::spec_find_seq(l, "acct=\""@, p0) {
            Some(j) => {
                let q = spec_quote_end(l, j + 6);
                if !(q < l.len() && q > j + 6) {
                    None
                } else {
                    let acct = l.subrange(j + 6, q);
                    match text::spec_find_seq(l, "hostname="@, q + 1) {
                        Some(k) => {
                            let he = spec_digitdot_end(l, k + 9);
                            if he <= k + 9 {
                                None
                            } else {
                                let host = l.subrange(k + 9, he);
                                match text::spec_find_seq(l, "res="@, he) {
                                    Some(rp) => {
                                        let we = spec_word_end(l, rp + 4);
                                        if we <= rp + 4 {
                                            None
                                        } else {
                                            let res = l.subrange(rp + 4, we);
                                            match spec_audit_epoch(l) {
                                                Some(secs) => Some((acct, host, res, secs)),
                                                None => None,
                                            }
                                        }
                                    },
                                    None => None,
                                }
                            }
                        },
                        None => None,
                    }
                }
            },
            None => None,
        }
    }
}

/// The epoch seconds embedded in the audit preamble: the digit run after
/// the marker, of one to eleven digits.
pub open spec fn spec_audit_epoch(l: Seq<char>) -> Option<int> {
    match text::spec_find_seq(l, "msg=audit("@, 0) {
        Some(e) => {
            let d = timestamp::spec_frac_digit_count(l, e + 10);
            if 1 <= d <= 11 {
                Some(timestamp::spec_digits_val(l.subrange(e + 10, e + 10 + d)))
            } else {
                None
            }
        },
        None => None,
    }
}

/// The event one audit line yields: an authentication record with all four
/// captures present becomes a success or failure event at the embedded
/// epoch second; under filtering the peer must resemble an address; any
/// other line yields nothing.
pub open spec fn spec_audit_event(
    l: Seq<char>,
    dst: Seq<char>,
    prov: Seq<char>,
    filter_ip: bool,
) -> Option<EventV> {
    match spec_audit_captures(l) {
        Some(c) => {
            let total = c.3 + timestamp::spec_base_offset();
            if total >= 256200000000 {
                None
            } else if filter_ip && !spec_looks_like_ip(c.1) {
                None
            } else {
                let evt = if c.2 == "success"@ {
                    "SSH_SUCCESS"@
                } else {
                    "SSH_FAILED"@
                };
                let when = timestamp::spec_render_rfc3339_frac(timestamp::spec_civil_of(total), 0);
                Some(spec_raw_event(when, c.0, c.1, "audit"@, evt, dst, prov))
            }
        },
        None => None,
    }
}

/// Classifies one audit line.
#[verifier::loop_isolation(false)]
#[verifier::rlimit(100)]
pub fn audit_event(line: &str, dst: &str, prov: &str, filter_ip: bool) -> (r: Option<
    CanonicalEvent,
>)
    ensures
        match r {
            Some(ev) => spec_audit_event(line@, dst@, prov@, filter_ip) == Some(ev@),
            None => spec_audit_event(line@, dst@, prov@, filter_ip) is None,
        },
{
    let l = text::chars_of(line);
    let pa: Vec<char> = vec!['t', 'y', 'p', 'e', '=', 'U', 'S', 'E', 'R', '_', 'A', 'U', 'T', 'H'];
    let pb: Vec<char> = vec![
        't',
        'y',
        'p',
        'e',
        '=',
        'U',
        'S',
        'E',
        'R',
        '_',
        'S',
        'T',
        'A',
        'R',
        'T',
    ];
    proof {
        reveal_strlit("type=USER_AUTH");
        reveal_strlit("type=USER_START");
        assert(pa@ =~= "type=USER_AUTH"@);
        assert(pb@ =~= "type=USER_START"@);
    }
    let ln = l.len();
    proof {
        assert(ln == l@.len());
    }
    let ta = text::find_seq(&l, &pa, 0);
    let tb = text::find_seq(&l, &pb, 0);
    let p0: usize = match (ta, tb) {
        (Some(a), Some(b)) => if a <= b {
            a + 14
        } else {
            b + 15
        },
        (Some(a), None) => a + 14,
        (None, Some(b)) => b + 15,
        (None, None) => {
            return None;
        },
    };
    let pacct: Vec<char> = vec!['a', 'c', 'c', 't', '=', '"'];
    proof {
        reveal_strlit("acct=\"");
        assert(pacct@ =~= "acct=\""@);
    }
    let j = match text::find_seq(&l, &pacct, p0) {
        Some(x) => x,
        None => {
            return None;
        },
    };
    let q = quote_end(&l, j + 6);
    if !(q < l.len() && q > j + 6) {
        return None;
    }
    let acct = chars_range(&l, j + 6, q);
    let phost: Vec<char> = vec!['h', 'o', 's', 't', 'n', 'a', 'm', 'e', '='];
    proof {
        reveal_strlit("hostname=");
        assert(phost@ =~= "hostname="@);
    }
    let k = match text::find_seq(&l, &phost, q + 1) {
        Some(x) => x,
        None => {
            return None;
        },
    };
    let he = digitdot_end(&l, k + 9);
    if he <= k + 9 {
        return None;
    }
    let host = chars_range(&l, k + 9, he);
    let pres: Vec<char> = vec!['r', 'e', 's', '='];
    proof {
        reveal_strlit("res=");
        assert(pres@ =~= "res="@);
    }
    let rp = match text::find_seq(&l, &pres, he) {
        Some(x) => x,
        None => {
            return None;
        },
    };
    let we = word_end(&l, rp + 4);
    if we <= rp + 4 {
        return None;
    }
    let res = chars_range(&l, rp + 4, we);
    // The embedded epoch.
    let pmsg: Vec<char> = vec!['m', 's', 'g', '=', 'a', 'u', 'd', 'i', 't', '('];
    proof {
        reveal_strlit("msg=audit(");
        assert(pmsg@ =~= "msg=audit("@);
    }
    let e = match text::find_seq(&l, &pmsg, 0) {
        Some(x) => x,
        None => {
            return None;
        },
    };
    let mut d: usize = 0;
    let mut secs: u64 = 0;
    proof {
        assert(l@.subrange(e + 10, e + 10) =~= Seq::<char>::empty());
    }
    let avail = ln - (e + 10);
    while d < avail && d <= 11 && '0' <= l[e + 10 + d] && l[e + 10 + d] <= '9'
        invariant
            e + 10 <= l.len(),
            avail == ln - (e + 10),
            ln == l@.len(),
            e + 10 + d <= ln,
            d <= 12,
            timestamp::spec_all_digits(l@, e + 10, e + 10 + d),
            secs == timestamp::spec_digits_val(l@.subrange(e + 10, e + 10 + d)),
            secs < 1000000000000,
        decreases l.len() - (e + 10 + d),
    {
        proof {
            assert(l@.subrange(e + 10, e + 10 + d + 1).drop_last() =~= l@.subrange(
                e + 10,
                e + 10 + d,
            ));
            assert(l@.subrange(e + 10, e + 10 + d + 1).last() == l@[e + 10 + d]);
            lemma_digits_val_le(l@.subrange(e + 10, e + 10 + d + 1));
        }
        secs = secs * 10 + ((l[e + 10 + d] as u32) - 48) as u64;
        d = d + 1;
    }
    proof {
        if e + 10 + d < l@.len() && !timestamp::spec_is_digit(l@[e + 10 + d]) {
            timestamp::lemma_frac_count_eq(l@, e + 10, (e + 10 + d) as int);
        } else if e + 10 + d == l@.len() {
            timestamp::lemma_frac_count_eq(l@, e + 10, (e + 10 + d) as int);
        } else {
            timestamp::lemma_frac_count_ge(l@, e + 10, (e + 10 + d) as int);
        }
    }
    if d == 0 || d > 11 {
        return None;
    }
    let total = secs + 2177452800;
    if total >= 256200000000 {
        return None;
    }
    let keep = !filter_ip || crate::linuxbin::looks_like_ip(&host);
    if !keep {
        return None;
    }
    let succ: Vec<char> = vec!['s', 'u', 'c', 'c', 'e', 's', 's'];
    proof {
        reveal_strlit("success");
        assert(succ@ =~= "success"@);
    }
    let is_succ = text::eq_chars(&res, &succ);
    let when = timestamp::render_rfc3339_frac_of(total, 0);
    if is_succ {
        Some(raw_event(when, acct, host, "audit", "SSH_SUCCESS", dst, prov))
    } else {
        Some(raw_event(when, acct, host, "audit", "SSH_FAILED", dst, prov))
    }
}

/// A digit run of at most twelve digits stays under a trillion.
proof fn lemma_digits_val_le(s: Seq<char>)
    requires
        timestamp::spec_all_digits(s, 0, s.len() as int),
        s.len() <= 12,
    ensures
        0 <= timestamp::spec_digits_val(s) < timestamp::spec_pow10(s.len() as nat),
        timestamp::spec_pow10(s.len() as nat) <= 1000000000000,
    decreases s.len(),
{
    reveal_with_fuel(timestamp::spec_pow10, 13);
    assert(timestamp::spec_pow10(12) == 1000000000000);
    timestamp::lemma_pow10_mono(s.len() as nat, 12);
    if s.len() > 0 {
        assert(timestamp::spec_all_digits(s.drop_last(), 0, s.drop_last().len() as int));
        lemma_digits_val_le(s.drop_last());
        assert(0 <= timestamp::spec_dv(s.last()) <= 9);
    }
}

} // verus!
