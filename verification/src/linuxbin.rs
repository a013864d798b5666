//! Decoding of Linux binary login-accounting records: fixed 384-byte
//! records read field by field from a byte slice with an explicit offset
//! and width table, little-endian, with no memory-layout assumptions.
//!
//! Offsets within one record: record type at 0 (2 bytes), process id at 4,
//! terminal line at 8 (32 bytes), user at 44 (32 bytes), peer host at 76
//! (256 bytes), seconds at 340 (4 bytes).
use vstd::prelude::*;
use crate::model::{CanonicalEvent, EventV};
use crate::text;
use crate::timestamp;

verus! {

broadcast use text::lemma_chars_deep_view;

/// The discriminant of records that are always skipped: accounting markers.
pub open spec fn spec_accounting() -> int {
    9
}

/// A little-endian unsigned 16-bit field.
pub open spec fn spec_u16_le(s: Seq<u8>, off: int) -> int {
    s[off] + 256 * s[off + 1]
}

/// A little-endian signed 32-bit field.
pub open spec fn spec_i32_le(s: Seq<u8>, off: int) -> int {
    let v = s[off] + 256 * s[off + 1] + 65536 * s[off + 2] + 16777216 * s[off + 3];
    if v >= 2147483648 {
        v - 4294967296
    } else {
        v
    }
}

/// The index of the first zero byte at or after `i`.
pub open spec fn spec_find_nul(s: Seq<u8>, i: int) -> int
    decreases s.len() - i,
{
    if i < 0 || i >= s.len() {
        s.len() as int
    } else if s[i] == 0 {
        i
    } else {
        spec_find_nul(s, i + 1)
    }
}

/// One byte as text: ASCII passes through, anything else becomes the
/// replacement character.
pub open spec fn spec_byte_char(b: u8) -> char {
    if b < 128 {
        b as char
    } else {
        '\u{fffd}'
    }
}

/// A NUL-padded fixed-width text field: the bytes before the first zero,
/// as characters, trimmed of surrounding whitespace.
pub open spec fn spec_c_string(s: Seq<u8>) -> Seq<char> {
    text::spec_trim(s.take(spec_find_nul(s, 0)).map_values(|b: u8| spec_byte_char(b)))
}

/// Whether text lexically resembles an IP address: a dotted quad of one- to
/// three-digit groups, or anything containing a colon.
pub open spec fn spec_looks_like_ip(s: Seq<char>) -> bool {
    ||| {
        let parts = text::spec_split(s, '.');
        parts.len() == 4 && forall|i: int|
            0 <= i < 4 ==> 1 <= (#[trigger] parts[i]).len() <= 3 && timestamp::spec_all_digits(
                parts[i],
                0,
                parts[i].len() as int,
            )
    }
    ||| text::spec_has_char(s, ':')
}

/// Decides whether text lexically resembles an IP address.
#[verifier::loop_isolation(false)]
pub fn looks_like_ip(v: &Vec<char>) -> (r: bool)
    ensures
        r == spec_looks_like_ip(v@),
{
    if text::has_char(v, ':') {
        return true;
    }
    let parts = text::split_chars(v, '.');
    if parts.len() != 4 {
        proof {
            assert(parts.deep_view().len() == parts@.len());
        }
        return false;
    }
    let mut i: usize = 0;
    while i < 4
        invariant
            i <= 4,
            parts@.len() == 4,
            parts.deep_view() == text::spec_split(v@, '.'),
            forall|m: int|
                0 <= m < i ==> 1 <= (#[trigger] parts.deep_view()[m]).len() <= 3
                    && timestamp::spec_all_digits(
                    parts.deep_view()[m],
                    0,
                    parts.deep_view()[m].len() as int,
                ),
        decreases 4 - i,
    {
        let p = &parts[i];
        proof {
            assert(parts.deep_view()[i as int] =~= parts@[i as int]@);
        }
        if p.len() < 1 || p.len() > 3 {
            return false;
        }
        let mut j: usize = 0;
        while j < p.len()
            invariant
                i < 4,
                parts@.len() == 4,
                p@ == parts@[i as int]@,
                j <= p@.len(),
                timestamp::spec_all_digits(p@, 0, j as int),
            decreases p@.len() - j,
        {
            let c = p[j];
            if !('0' <= c && c <= '9') {
                proof {
                    assert(!timestamp::spec_is_digit(parts.deep_view()[i as int][j as int]));
                }
                return false;
            }
            j = j + 1;
        }
        i = i + 1;
    }
    true
}

/// Reads a little-endian unsigned 16-bit field.
fn u16_le(v: &Vec<u8>, off: usize) -> (r: u32)
    requires
        off + 2 <= v.len(),
    ensures
        r == spec_u16_le(v@, off as int),
{
    (v[off] as u32) + 256 * (v[off + 1] as u32)
}

/// Reads a little-endian signed 32-bit field.
fn i32_le(v: &Vec<u8>, off: usize) -> (r: i64)
    requires
        off + 4 <= v.len(),
    ensures
        r == spec_i32_le(v@, off as int),
{
    let raw: u64 = (v[off] as u64) + 256 * (v[off + 1] as u64) + 65536 * (v[off + 2] as u64)
        + 16777216 * (v[off + 3] as u64);
    if raw >= 2147483648 {
        (raw as i64) - 4294967296
    } else {
        raw as i64
    }
}

/// Copies a byte range.
fn bytes_range(v: &Vec<u8>, a: usize, b: usize) -> (r: Vec<u8>)
    requires
        a <= b <= v.len(),
    ensures
        r@ == v@.subrange(a as int, b as int),
{
    let mut r: Vec<u8> = Vec::new();
    let mut i: usize = a;
    while i < b
        invariant
            a <= i <= b <= v.len(),
            r@ == v@.subrange(a as int, i as int),
        decreases b - i,
    {
        r.push(v[i]);
        i = i + 1;
        proof {
            assert(r@ =~= v@.subrange(a as int, i as int));
        }
    }
    r
}

/// Extracts a NUL-padded fixed-width text field.
fn c_string(v: &Vec<u8>) -> (r: Vec<char>)
    ensures
        r@ == spec_c_string(v@),
{
    let mut end: usize = 0;
    while end < v.len() && v[end] != 0
        invariant
            end <= v.len(),
            spec_find_nul(v@, 0) == spec_find_nul(v@, end as int),
        decreases v.len() - end,
    {
        end = end + 1;
    }
    proof {
        assert(spec_find_nul(v@, end as int) == end as int);
    }
    let mut cs: Vec<char> = Vec::new();
    let mut i: usize = 0;
    while i < end
        invariant
            i <= end <= v.len(),
            cs@ == v@.take(end as int).map_values(|b: u8| spec_byte_char(b)).take(i as int),
        decreases end - i,
    {
        let b = v[i];
        if b < 128 {
            cs.push(b as char);
        } else {
            cs.push('\u{fffd}');
        }
        i = i + 1;
        proof {
            assert(cs@ =~= v@.take(end as int).map_values(|b: u8| spec_byte_char(b)).take(
                i as int,
            ));
        }
    }
    proof {
        let mapped = v@.take(end as int).map_values(|b: u8| spec_byte_char(b));
        assert(mapped.take(mapped.len() as int) =~= mapped);
    }
    text::trim_chars(&cs)
}

/// The tag of one record's event kind.
pub open spec fn spec_kind_tag(ty: int) -> Seq<char> {
    if ty == 7 {
        seq!['L', 'O', 'G', 'I', 'N']
    } else if ty == 8 {
        seq!['L', 'O', 'G', 'O', 'U', 'T']
    } else if ty == 2 {
        seq!['B', 'O', 'O', 'T', '_', 'T', 'I', 'M', 'E']
    } else {
        seq!['O', 'T', 'H', 'E', 'R']
    }
}

/// The failed-login tag.
pub open spec fn spec_failed_tag() -> Seq<char> {
    seq!['F', 'A', 'I', 'L', 'E', 'D', '_', 'L', 'O', 'G', 'I', 'N']
}

/// The canonical event of one 384-byte record, or nothing: accounting
/// markers are always skipped; in a failed-login file every record counts
/// as a failed login; otherwise a filtered decode keeps only records whose
/// peer field resembles an IP address.
pub open spec fn spec_utmp_event(
    rec: Seq<u8>,
    failed_file: bool,
    filter_ip: bool,
    dst_host: Seq<char>,
    provenance: Seq<char>,
) -> Option<EventV> {
    let ty = spec_u16_le(rec, 0);
    if ty == spec_accounting() {
        None
    } else {
        let sec = spec_i32_le(rec, 340);
        let user = spec_c_string(rec.subrange(44, 76));
        let host = spec_c_string(rec.subrange(76, 332));
        let line = spec_c_string(rec.subrange(8, 40));
        let evt = if failed_file {
            spec_failed_tag()
        } else {
            spec_kind_tag(ty)
        };
        if filter_ip && !spec_looks_like_ip(host) && evt != spec_failed_tag() {
            None
        } else {
            Some(
                EventV {
                    time: timestamp::spec_render_rfc3339(timestamp::spec_civil_of_unix(sec)),
                    dst_host: dst_host,
                    event_kind: evt,
                    subject_user: Seq::empty(),
                    subject_domain: Seq::empty(),
                    target_user: user,
                    target_domain: Seq::empty(),
                    logon_kind: Seq::empty(),
                    src_host: if spec_looks_like_ip(host) {
                        Seq::empty()
                    } else {
                        host
                    },
                    src_ip: if spec_looks_like_ip(host) {
                        host
                    } else {
                        Seq::empty()
                    },
                    process: line,
                    provenance: provenance,
                },
            )
        }
    }
}

/// The events of the first `k` complete records of a file.
pub open spec fn spec_utmp_events(
    data: Seq<u8>,
    failed_file: bool,
    filter_ip: bool,
    dst_host: Seq<char>,
    provenance: Seq<char>,
    k: int,
) -> Seq<EventV>
    decreases k,
{
    if k <= 0 {
        Seq::empty()
    } else {
        let p = spec_utmp_events(data, failed_file, filter_ip, dst_host, provenance, k - 1);
        match spec_utmp_event(
            data.subrange(384 * (k - 1), 384 * k),
            failed_file,
            filter_ip,
            dst_host,
            provenance,
        ) {
            Some(e) => p.push(e),
            None => p,
        }
    }
}

/// Decodes a whole login-accounting file: each complete 384-byte record in
/// order, a trailing partial record ignored.  One malformed record never
/// aborts the rest, and no record can fail the decode.
#[verifier::loop_isolation(false)]
pub fn parse_utmp_data(
    data: &Vec<u8>,
    failed_file: bool,
    filter_ip: bool,
    dst_host: &str,
    provenance: &str,
) -> (r: Vec<CanonicalEvent>)
    ensures
        Seq::new(r@.len(), |i: int| r@[i]@) == spec_utmp_events(
            data@,
            failed_file,
            filter_ip,
            dst_host@,
            provenance@,
            data@.len() as int / 384,
        ),
{
    let n = data.len() / 384;
    let mut out: Vec<CanonicalEvent> = Vec::new();
    let mut k: usize = 0;
    proof {
        assert(Seq::new(out@.len(), |i: int| out@[i]@) =~= spec_utmp_events(
            data@,
            failed_file,
            filter_ip,
            dst_host@,
            provenance@,
            0,
        ));
    }
    while k < n
        invariant
            k <= n,
            n == data.len() / 384,
            Seq::new(out@.len(), |i: int| out@[i]@) == spec_utmp_events(
                data@,
                failed_file,
                filter_ip,
                dst_host@,
                provenance@,
                k as int,
            ),
        decreases n - k,
    {
        proof {
            assert(384 * (k + 1) <= data.len()) by (nonlinear_arith)
                requires
                    k < n,
                    n == data.len() / 384,
            ;
        }
        let base = 384 * k;
        let rec = bytes_range(data, base, base + 384);
        let ghost recv = data@.subrange(384 * (k as int), 384 * (k + 1));
        proof {
            assert(rec@ == recv);
        }
        let ghost prev = Seq::new(out@.len(), |i: int| out@[i]@);
        let ty = u16_le(&rec, 0);
        if ty != 9 {
            let sec = i32_le(&rec, 340);
            let user = c_string(&bytes_range(&rec, 44, 76));
            let host = c_string(&bytes_range(&rec, 76, 332));
            let line = c_string(&bytes_range(&rec, 8, 40));
            proof {
                assert(rec@.subrange(44, 76) =~= recv.subrange(44, 76));
                assert(rec@.subrange(76, 332) =~= recv.subrange(76, 332));
                assert(rec@.subrange(8, 40) =~= recv.subrange(8, 40));
            }
            let evt: Vec<char> = if failed_file {
                vec!['F', 'A', 'I', 'L', 'E', 'D', '_', 'L', 'O', 'G', 'I', 'N']
            } else if ty == 7 {
                vec!['L', 'O', 'G', 'I', 'N']
            } else if ty == 8 {
                vec!['L', 'O', 'G', 'O', 'U', 'T']
            } else if ty == 2 {
                vec!['B', 'O', 'O', 'T', '_', 'T', 'I', 'M', 'E']
            } else {
                vec!['O', 'T', 'H', 'E', 'R']
            };
            proof {
                if failed_file {
                    assert(evt@ =~= spec_failed_tag());
                } else {
                    assert(evt@ =~= spec_kind_tag(ty as int));
                }
                assert(spec_failed_tag().len() == 12);
                if !failed_file {
                    assert(spec_kind_tag(ty as int).len() <= 9);
                    assert(spec_kind_tag(ty as int) != spec_failed_tag());
                }
            }
            let is_failed = failed_file;
            let ip_like = looks_like_ip(&host);
            if !(filter_ip && !ip_like && !is_failed) {
                let total: u64 = (sec + 2177452800) as u64;
                proof {
                    assert(-2147483648 <= sec <= 2147483647);
                    assert(total == sec + timestamp::spec_base_offset());
                }
                let time = timestamp::render_rfc3339_of(total);
                let empty_s = String::new();
                let ev = CanonicalEvent {
                    time,
                    dst_host: String::from_str(dst_host),
                    event_kind: text::string_of(&evt),
                    subject_user: String::new(),
                    subject_domain: String::new(),
                    target_user: text::string_of(&user),
                    target_domain: String::new(),
                    logon_kind: empty_s,
                    src_host: if ip_like {
                        String::new()
                    } else {
                        text::string_of(&host)
                    },
                    src_ip: if ip_like {
                        text::string_of(&host)
                    } else {
                        String::new()
                    },
                    process: text::string_of(&line),
                    provenance: String::from_str(provenance),
                };
                proof {
                    assert(ev@ == spec_utmp_event(
                        recv,
                        failed_file,
                        filter_ip,
                        dst_host@,
                        provenance@,
                    )->0);
                }
                out.push(ev);
                proof {
                    assert(Seq::new(out@.len(), |i: int| out@[i]@) =~= prev.push(ev@));
                }
            }
        }
        k = k + 1;
        proof {
            assert(Seq::new(out@.len(), |i: int| out@[i]@) =~= spec_utmp_events(
                data@,
                failed_file,
                filter_ip,
                dst_host@,
                provenance@,
                k as int,
            ));
        }
    }
    out
}

} // verus!
