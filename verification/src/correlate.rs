//! The correlation engine: row normalization, local-noise filtering,
//! host-vote accumulation, edge aggregation and origin-host resolution.
use vstd::prelude::*;
use crate::model::{AggregatedEdge, EdgeKey, KeyV};
use crate::text;

verus! {

broadcast use text::lemma_chars_deep_view;

/// A sentinel is a value meaning "no meaningful host or address": loopback,
/// blank, or a placeholder.  Rows are uppercased before the test, so the
/// comparison is case-insensitive for letters.
pub open spec fn spec_is_sentinel(s: Seq<char>) -> bool {
    ||| s == seq!['L', 'O', 'C', 'A', 'L']
    ||| s == seq!['1', '2', '7', '.', '0', '.', '0', '.', '1']
    ||| s == seq![':', ':', '1']
    ||| s == seq!['D', 'E', 'F', 'A', 'U', 'L', 'T', '_', 'V', 'A', 'L', 'U', 'E']
    ||| s == seq!['"', '"']
    ||| s == seq!['-']
    ||| s == Seq::<char>::empty()
    ||| s == seq![' ']
}

/// Decides whether a field is one of the "no signal" sentinel values.
pub fn is_sentinel(v: &Vec<char>) -> (r: bool)
    ensures
        r == spec_is_sentinel(v@),
{
    let p1: Vec<char> = vec!['L', 'O', 'C', 'A', 'L'];
    let p2: Vec<char> = vec!['1', '2', '7', '.', '0', '.', '0', '.', '1'];
    let p3: Vec<char> = vec![':', ':', '1'];
    let p4: Vec<char> = vec!['D', 'E', 'F', 'A', 'U', 'L', 'T', '_', 'V', 'A', 'L', 'U', 'E'];
    let p5: Vec<char> = vec!['"', '"'];
    let p6: Vec<char> = vec!['-'];
    let p7: Vec<char> = Vec::new();
    let p8: Vec<char> = vec![' '];
    proof {
        assert(p1@ =~= seq!['L', 'O', 'C', 'A', 'L']);
        assert(p2@ =~= seq!['1', '2', '7', '.', '0', '.', '0', '.', '1']);
        assert(p3@ =~= seq![':', ':', '1']);
        assert(p4@ =~= seq!['D', 'E', 'F', 'A', 'U', 'L', 'T', '_', 'V', 'A', 'L', 'U', 'E']);
        assert(p5@ =~= seq!['"', '"']);
        assert(p6@ =~= seq!['-']);
        assert(p7@ =~= Seq::<char>::empty());
        assert(p8@ =~= seq![' ']);
    }
    text::eq_chars(v, &p1) || text::eq_chars(v, &p2) || text::eq_chars(v, &p3) || text::eq_chars(
        v,
        &p4,
    ) || text::eq_chars(v, &p5) || text::eq_chars(v, &p6) || text::eq_chars(v, &p7)
        || text::eq_chars(v, &p8)
}

/// Whether the sequence holds an ASCII letter.
pub open spec fn spec_has_alpha(s: Seq<char>) -> bool {
    exists|i: int|
        0 <= i < s.len() && (('a' <= s[i] && s[i] <= 'z') || ('A' <= s[i] && s[i] <= 'Z'))
}

/// Whether the vector holds an ASCII letter.
pub fn has_alpha(v: &Vec<char>) -> (r: bool)
    ensures
        r == spec_has_alpha(v@),
{
    let mut i: usize = 0;
    while i < v.len()
        invariant
            i <= v@.len(),
            forall|j: int|
                0 <= j < i ==> !(('a' <= v@[j] && v@[j] <= 'z') || ('A' <= v@[j] && v@[j]
                    <= 'Z')),
        decreases v@.len() - i,
    {
        let c = v[i];
        if ('a' <= c && c <= 'z') || ('A' <= c && c <= 'Z') {
            return true;
        }
        i = i + 1;
    }
    false
}

/// Host-field normalization: a name that contains a dot and a letter is
/// treated as fully qualified and cut at the first dot; a value with a colon
/// is cut at the first colon, keeping the host or address part.
pub open spec fn spec_norm_host(s: Seq<char>) -> Seq<char> {
    let d = if text::spec_has_char(s, '.') && spec_has_alpha(s) {
        text::spec_before_char(s, '.')
    } else {
        s
    };
    if text::spec_has_char(d, ':') {
        text::spec_before_char(d, ':')
    } else {
        d
    }
}

/// Normalizes one host-like field.
pub fn norm_host(v: &Vec<char>) -> (r: Vec<char>)
    ensures
        r@ == spec_norm_host(v@),
{
    let d = if text::has_char(v, '.') && has_alpha(v) {
        text::before_char(v, '.')
    } else {
        text::clone_chars(v)
    };
    if text::has_char(&d, ':') {
        text::before_char(&d, ':')
    } else {
        d
    }
}

/// Row preprocessing for one table line: backslashes and square brackets are
/// removed, letters are uppercased, the line is split on commas; a line with
/// the canonical column count (with or without the `process` column) yields
/// the first ten fields with the host-like ones normalized, and any other
/// line is dropped as noise.
pub open spec fn spec_prepare_line(line: Seq<char>) -> Option<Seq<Seq<char>>> {
    let cleaned = text::spec_strip_brackets(line).map_values(|c: char| text::spec_upper_char(c));
    let fields = text::spec_split(cleaned, ',');
    if fields.len() == 11 || fields.len() == 12 {
        Some(
            seq![
                fields[0],
                spec_norm_host(fields[1]),
                fields[2],
                fields[3],
                fields[4],
                fields[5],
                fields[6],
                fields[7],
                spec_norm_host(fields[8]),
                spec_norm_host(fields[9]),
            ],
        )
    } else {
        None
    }
}

/// The local-noise filter: a row is kept unless both source fields are
/// sentinels, or the destination equals the source host or the source
/// address (self-referential edges carry no lateral-movement signal).
pub open spec fn spec_keep_row(r: Seq<Seq<char>>) -> bool {
    &&& !(spec_is_sentinel(r[8]) && spec_is_sentinel(r[9]))
    &&& r[1] != r[8]
    &&& r[1] != r[9]
}

/// The prepared and filtered rows of a table, in input order.
pub open spec fn spec_kept_rows(lines: Seq<Seq<char>>) -> Seq<Seq<Seq<char>>>
    decreases lines.len(),
{
    if lines.len() == 0 {
        Seq::empty()
    } else {
        let prev = spec_kept_rows(lines.drop_last());
        match spec_prepare_line(lines.last()) {
            Some(r) => if spec_keep_row(r) {
                prev.push(r)
            } else {
                prev
            },
            None => prev,
        }
    }
}

/// Prepares one line; `None` when the column count is wrong.
fn prepare_line(line: &String) -> (r: Option<Vec<Vec<char>>>)
    ensures
        match r {
            Some(row) => spec_prepare_line(line@) == Some(row.deep_view()) && row@.len() == 10,
            None => spec_prepare_line(line@) is None,
        },
{
    let raw = text::chars_of(line.as_str());
    let stripped = text::strip_brackets(&raw);
    let cleaned = text::upper_chars(&stripped);
    let fields = text::split_chars(&cleaned, ',');
    if fields.len() == 11 || fields.len() == 12 {
        let mut row: Vec<Vec<char>> = Vec::new();
        row.push(text::clone_chars(&fields[0]));
        row.push(norm_host(&fields[1]));
        row.push(text::clone_chars(&fields[2]));
        row.push(text::clone_chars(&fields[3]));
        row.push(text::clone_chars(&fields[4]));
        row.push(text::clone_chars(&fields[5]));
        row.push(text::clone_chars(&fields[6]));
        row.push(text::clone_chars(&fields[7]));
        row.push(norm_host(&fields[8]));
        row.push(norm_host(&fields[9]));
        proof {
            assert(row.deep_view() =~~= spec_prepare_line(line@).unwrap());
        }
        Some(row)
    } else {
        None
    }
}

/// Prepares, normalizes and filters the data lines of a table.
pub fn kept_rows(lines: &Vec<String>) -> (r: Vec<Vec<Vec<char>>>)
    ensures
        r.deep_view() == spec_kept_rows(lines.deep_view()),
        forall|j: int| 0 <= j < r@.len() ==> #[trigger] r@[j]@.len() == 10,
{
    let ghost lv = lines.deep_view();
    let mut r: Vec<Vec<Vec<char>>> = Vec::new();
    let mut i: usize = 0;
    proof {
        assert(lv.take(0) =~= Seq::<Seq<char>>::empty());
        assert(r.deep_view() =~~= spec_kept_rows(lv.take(0)));
    }
    while i < lines.len()
        invariant
            i <= lines@.len(),
            lv == lines.deep_view(),
            r.deep_view() == spec_kept_rows(lv.take(i as int)),
            forall|j: int| 0 <= j < r@.len() ==> #[trigger] r@[j]@.len() == 10,
        decreases lines@.len() - i,
    {
        proof {
            assert(lv.take(i + 1).drop_last() =~= lv.take(i as int));
            assert(lv.take(i + 1).last() == lv[i as int]);
        }
        let ghost prev = r.deep_view();
        match prepare_line(&lines[i]) {
            Some(row) => {
                let keep = !(is_sentinel(&row[8]) && is_sentinel(&row[9])) && !text::eq_chars(
                    &row[1],
                    &row[8],
                ) && !text::eq_chars(&row[1], &row[9]);
                proof {
                    assert(row.deep_view()[8] == row@[8]@);
                    assert(keep == spec_keep_row(row.deep_view()));
                }
                if keep {
                    r.push(row);
                    proof {
                        assert(r.deep_view() =~~= prev.push(
                            spec_prepare_line(lv[i as int]).unwrap(),
                        ));
                    }
                }
            },
            None => {},
        }
        i = i + 1;
    }
    proof {
        assert(lv.take(lines@.len() as int) =~= lv);
    }
    r
}

/// Ghost image of one host-vote entry.
pub ghost struct VoteV {
    pub ip: Seq<char>,
    pub host: Seq<char>,
    pub count: u64,
}

/// One entry of the host-vote table: evidence that `host` was seen alongside
/// `ip` this many times.
pub struct Vote {
    pub ip: String,
    pub host: String,
    pub count: u64,
}

impl View for Vote {
    type V = VoteV;

    open spec fn view(&self) -> VoteV {
        VoteV { ip: self.ip@, host: self.host@, count: self.count }
    }
}

/// The ghost image of a vote table.
pub open spec fn spec_votes_of(v: Seq<Vote>) -> Seq<VoteV> {
    Seq::new(v.len(), |i: int| v[i]@)
}

/// A row contributes vote evidence when both source fields are informative
/// and differ from each other.
pub open spec fn spec_vote_eligible(r: Seq<Seq<char>>) -> bool {
    &&& !spec_is_sentinel(r[8])
    &&& !spec_is_sentinel(r[9])
    &&& r[8] != r[9]
}

/// Whether the table holds an entry for this address and label.
pub open spec fn spec_has_vote(vs: Seq<VoteV>, ip: Seq<char>, host: Seq<char>) -> bool {
    exists|j: int| 0 <= j < vs.len() && vs[j].ip == ip && vs[j].host == host
}

/// The index of the entry for this address and label.
pub open spec fn spec_vote_idx(vs: Seq<VoteV>, ip: Seq<char>, host: Seq<char>) -> int {
    choose|j: int| 0 <= j < vs.len() && vs[j].ip == ip && vs[j].host == host
}

/// Adds one observation to the table: an existing entry's count grows by
/// one, a new pair starts at one.
pub open spec fn spec_add_vote(vs: Seq<VoteV>, ip: Seq<char>, host: Seq<char>) -> Seq<VoteV> {
    if spec_has_vote(vs, ip, host) {
        let j = spec_vote_idx(vs, ip, host);
        vs.update(j, VoteV { ip: vs[j].ip, host: vs[j].host, count: (vs[j].count + 1) as u64 })
    } else {
        vs.push(VoteV { ip, host, count: 1 })
    }
}

/// The vote table built from the filtered rows, in first-occurrence order.
pub open spec fn spec_votes(rows: Seq<Seq<Seq<char>>>) -> Seq<VoteV>
    decreases rows.len(),
{
    if rows.len() == 0 {
        Seq::empty()
    } else {
        let prev = spec_votes(rows.drop_last());
        let r = rows.last();
        if spec_vote_eligible(r) {
            spec_add_vote(prev, r[9], r[8])
        } else {
            prev
        }
    }
}

/// No address-label pair occurs twice in a vote table.
pub open spec fn spec_votes_distinct(vs: Seq<VoteV>) -> bool {
    forall|j: int, k: int|
        0 <= j < k < vs.len() ==> !(vs[j].ip == vs[k].ip && vs[j].host == vs[k].host)
}

/// The vote table of any row sequence has distinct pairs, and no count
/// exceeds the number of rows.
pub proof fn lemma_votes_facts(rows: Seq<Seq<Seq<char>>>)
    ensures
        spec_votes_distinct(spec_votes(rows)),
        forall|j: int|
            0 <= j < spec_votes(rows).len() ==> #[trigger] spec_votes(rows)[j].count <= rows.len(),
    decreases rows.len(),
{
    if rows.len() > 0 {
        lemma_votes_facts(rows.drop_last());
        let prev = spec_votes(rows.drop_last());
        let r = rows.last();
        let cur = spec_votes(rows);
        if spec_vote_eligible(r) {
            if spec_has_vote(prev, r[9], r[8]) {
                let j = spec_vote_idx(prev, r[9], r[8]);
                assert(0 <= j < prev.len() && prev[j].ip == r[9] && prev[j].host == r[8]);
                assert(spec_votes_distinct(cur));
            } else {
                assert forall|a: int, b: int| 0 <= a < b < cur.len() implies !(cur[a].ip
                    == cur[b].ip && cur[a].host == cur[b].host) by {
                    if b == prev.len() {
                        assert(!(prev[a].ip == r[9] && prev[a].host == r[8]));
                    }
                }
            }
        }
    }
}

/// How many rows contribute evidence for this address-label pair.
pub open spec fn spec_count_vote(rows: Seq<Seq<Seq<char>>>, ip: Seq<char>, host: Seq<char>) -> nat
    decreases rows.len(),
{
    if rows.len() == 0 {
        0
    } else {
        spec_count_vote(rows.drop_last(), ip, host) + if spec_vote_eligible(rows.last())
            && rows.last()[9] == ip && rows.last()[8] == host {
            1nat
        } else {
            0nat
        }
    }
}

/// Vote soundness: every entry's count is exactly the number of eligible
/// rows carrying its address-label pair, and a pair has an entry exactly
/// when some eligible row carries it.
pub proof fn lemma_votes_sound(rows: Seq<Seq<Seq<char>>>)
    requires
        rows.len() <= u64::MAX,
    ensures
        forall|j: int|
            0 <= j < spec_votes(rows).len() ==> (#[trigger] spec_votes(rows)[j]).count
                == spec_count_vote(rows, spec_votes(rows)[j].ip, spec_votes(rows)[j].host),
        forall|ip: Seq<char>, host: Seq<char>|
            spec_count_vote(rows, ip, host) > 0 <==> spec_has_vote(spec_votes(rows), ip, host),
    decreases rows.len(),
{
    if rows.len() > 0 {
        let dl = rows.drop_last();
        let r = rows.last();
        let prev = spec_votes(dl);
        let cur = spec_votes(rows);
        lemma_votes_sound(dl);
        lemma_votes_facts(dl);
        assert forall|ip: Seq<char>, host: Seq<char>| spec_count_vote(rows, ip, host) > 0
            <==> spec_has_vote(cur, ip, host) by {
            if spec_vote_eligible(r) && r[9] == ip && r[8] == host {
                if spec_has_vote(prev, ip, host) {
                    let j = spec_vote_idx(prev, ip, host);
                    assert(cur[j].ip == ip && cur[j].host == host);
                } else {
                    assert(cur[prev.len() as int].ip == ip && cur[prev.len() as int].host
                        == host);
                }
                assert(spec_has_vote(cur, ip, host));
            } else {
                if spec_has_vote(prev, ip, host) {
                    let j = choose|j: int|
                        0 <= j < prev.len() && prev[j].ip == ip && prev[j].host == host;
                    if spec_vote_eligible(r) {
                        if spec_has_vote(prev, r[9], r[8]) {
                            let u = spec_vote_idx(prev, r[9], r[8]);
                            assert(cur[j].ip == ip && cur[j].host == host);
                        } else {
                            assert(cur[j].ip == ip && cur[j].host == host);
                        }
                    } else {
                        assert(cur[j].ip == ip && cur[j].host == host);
                    }
                    assert(spec_has_vote(cur, ip, host));
                }
                if spec_has_vote(cur, ip, host) {
                    let j = choose|j: int|
                        0 <= j < cur.len() && cur[j].ip == ip && cur[j].host == host;
                    if spec_vote_eligible(r) {
                        if spec_has_vote(prev, r[9], r[8]) {
                            assert(prev[j].ip == ip && prev[j].host == host);
                        } else {
                            assert(j < prev.len());
                            assert(prev[j].ip == ip && prev[j].host == host);
                        }
                    } else {
                        assert(prev[j].ip == ip && prev[j].host == host);
                    }
                    assert(spec_has_vote(prev, ip, host));
                }
            }
        }
        assert forall|j: int| 0 <= j < cur.len() implies (#[trigger] cur[j]).count
            == spec_count_vote(rows, cur[j].ip, cur[j].host) by {
            if spec_vote_eligible(r) {
                if spec_has_vote(prev, r[9], r[8]) {
                    let u = spec_vote_idx(prev, r[9], r[8]);
                    assert(0 <= u < prev.len() && prev[u].ip == r[9] && prev[u].host == r[8]);
                    if j == u {
                        assert(spec_count_vote(dl, r[9], r[8]) > 0);
                        assert(cur[j].count == prev[u].count + 1);
                    } else {
                        assert(cur[j] == prev[j]);
                        assert(!(prev[j].ip == r[9] && prev[j].host == r[8]));
                        assert(spec_count_vote(rows, prev[j].ip, prev[j].host) == spec_count_vote(
                            dl,
                            prev[j].ip,
                            prev[j].host,
                        ));
                    }
                } else {
                    if j == prev.len() {
                        assert(spec_count_vote(dl, r[9], r[8]) == 0);
                        assert(cur[j].count == 1);
                    } else {
                        assert(cur[j] == prev[j]);
                        assert(!(prev[j].ip == r[9] && prev[j].host == r[8]));
                        assert(spec_count_vote(rows, prev[j].ip, prev[j].host) == spec_count_vote(
                            dl,
                            prev[j].ip,
                            prev[j].host,
                        ));
                    }
                }
            } else {
                assert(cur[j] == prev[j]);
            }
        }
    }
}

/// Strict lexicographic order on character sequences, by code point; the
/// order `String` comparison gives, and the order timestamps in one
/// zero-padded format sort by.
pub open spec fn spec_lt(a: Seq<char>, b: Seq<char>) -> bool
    decreases a.len(),
{
    if b.len() == 0 {
        false
    } else if a.len() == 0 {
        true
    } else if a[0] != b[0] {
        (a[0] as u32) < (b[0] as u32)
    } else {
        spec_lt(a.drop_first(), b.drop_first())
    }
}

/// No sequence is lexicographically below itself.
pub proof fn lemma_lt_irrefl(a: Seq<char>)
    ensures
        !spec_lt(a, a),
    decreases a.len(),
{
    if a.len() > 0 {
        lemma_lt_irrefl(a.drop_first());
    }
}

/// Lexicographic order runs one way only.
pub proof fn lemma_lt_asym(a: Seq<char>, b: Seq<char>)
    requires
        spec_lt(a, b),
    ensures
        !spec_lt(b, a),
    decreases a.len(),
{
    if a.len() > 0 && b.len() > 0 && a[0] == b[0] {
        lemma_lt_asym(a.drop_first(), b.drop_first());
    }
}

/// Lexicographic order chains across a middle sequence: what is below `b`
/// is below everything `b` is not below.
pub proof fn lemma_lt_le_trans(a: Seq<char>, b: Seq<char>, c: Seq<char>)
    requires
        spec_lt(a, b),
        !spec_lt(c, b),
    ensures
        spec_lt(a, c),
    decreases a.len() + b.len() + c.len(),
{
    if b.len() == 0 {
        // Nothing is below the empty sequence.
    } else if c.len() == 0 {
        assert(spec_lt(c, b));
    } else if a.len() == 0 {
    } else if a[0] != b[0] {
        if c[0] != b[0] {
            vstd::utf8::char_u32_cast(b[0], b[0] as u32);
            vstd::utf8::char_u32_cast(c[0], c[0] as u32);
            assert((b[0] as u32) < (c[0] as u32));
        }
    } else {
        if c[0] != b[0] {
            vstd::utf8::char_u32_cast(b[0], b[0] as u32);
            vstd::utf8::char_u32_cast(c[0], c[0] as u32);
            assert((b[0] as u32) < (c[0] as u32));
        } else {
            lemma_lt_le_trans(a.drop_first(), b.drop_first(), c.drop_first());
        }
    }
}

/// When the first `i` characters agree, the order is decided by the rest.
proof fn lemma_lt_common_prefix(a: Seq<char>, b: Seq<char>, i: int)
    requires
        0 <= i <= a.len(),
        i <= b.len(),
        forall|k: int| 0 <= k < i ==> a[k] == b[k],
    ensures
        spec_lt(a, b) == spec_lt(a.skip(i), b.skip(i)),
    decreases i,
{
    if i > 0 {
        assert(spec_lt(a, b) == spec_lt(a.drop_first(), b.drop_first()));
        assert(a.drop_first().skip(i - 1) =~= a.skip(i));
        assert(b.drop_first().skip(i - 1) =~= b.skip(i));
        lemma_lt_common_prefix(a.drop_first(), b.drop_first(), i - 1);
    } else {
        assert(a.skip(0) =~= a);
        assert(b.skip(0) =~= b);
    }
}

/// Decides strict lexicographic order of two character vectors.
pub fn lt_chars(a: &Vec<char>, b: &Vec<char>) -> (r: bool)
    ensures
        r == spec_lt(a@, b@),
{
    let mut i: usize = 0;
    while i < a.len() && i < b.len()
        invariant
            i <= a@.len(),
            i <= b@.len(),
            forall|k: int| 0 <= k < i ==> a@[k] == b@[k],
        decreases a@.len() - i,
    {
        let ca = a[i];
        let cb = b[i];
        if ca != cb {
            proof {
                lemma_lt_common_prefix(a@, b@, i as int);
                assert(a@.skip(i as int)[0] == a@[i as int]);
                assert(b@.skip(i as int)[0] == b@[i as int]);
            }
            return (ca as u32) < (cb as u32);
        }
        i = i + 1;
    }
    proof {
        lemma_lt_common_prefix(a@, b@, i as int);
        if i == a@.len() {
            assert(a@.skip(i as int) =~= Seq::<char>::empty());
        }
        if i == b@.len() {
            assert(b@.skip(i as int) =~= Seq::<char>::empty());
        }
    }
    a.len() < b.len()
}

/// String equality against a character vector.
pub fn str_eq_chars(s: &String, v: &Vec<char>) -> (r: bool)
    ensures
        r == (s@ == v@),
{
    let sc = text::chars_of(s.as_str());
    text::eq_chars(&sc, v)
}

/// Accumulates the host-vote table over the filtered rows.
pub fn build_votes(rows: &Vec<Vec<Vec<char>>>) -> (r: Vec<Vote>)
    requires
        forall|j: int| 0 <= j < rows@.len() ==> #[trigger] rows@[j]@.len() == 10,
    ensures
        spec_votes_of(r@) == spec_votes(rows.deep_view()),
{
    let ghost rv = rows.deep_view();
    let mut votes: Vec<Vote> = Vec::new();
    proof {
        assert(rv.take(0) =~= Seq::<Seq<Seq<char>>>::empty());
        assert(spec_votes_of(votes@) =~= spec_votes(rv.take(0)));
    }
    let mut i: usize = 0;
    while i < rows.len()
        invariant
            i <= rows@.len(),
            rv == rows.deep_view(),
            forall|j: int| 0 <= j < rows@.len() ==> #[trigger] rows@[j]@.len() == 10,
            spec_votes_of(votes@) == spec_votes(rv.take(i as int)),
        decreases rows@.len() - i,
    {
        proof {
            assert(rv.take(i + 1).drop_last() =~= rv.take(i as int));
            assert(rv.take(i + 1).last() == rv[i as int]);
            assert(rv[i as int] =~= rows@[i as int].deep_view());
            lemma_votes_facts(rv.take(i as int));
        }
        let ghost prev = spec_votes_of(votes@);
        let row = &rows[i];
        proof {
            assert(rows@[i as int].deep_view()[8] == rows@[i as int]@[8]@);
            assert(rows@[i as int].deep_view()[9] == rows@[i as int]@[9]@);
        }
        let eligible = !is_sentinel(&row[8]) && !is_sentinel(&row[9]) && !text::eq_chars(
            &row[8],
            &row[9],
        );
        if eligible {
            let mut j: usize = 0;
            let mut found = false;
            let mut fidx: usize = 0;
            while j < votes.len()
                invariant
                    j <= votes@.len(),
                    i < rows@.len(),
                    rows@[i as int]@.len() == 10,
                    !found ==> forall|k: int|
                        0 <= k < j ==> !(votes@[k]@.ip == rows@[i as int]@[9]@ && votes@[k]@.host
                            == rows@[i as int]@[8]@),
                    found ==> fidx < j && votes@[fidx as int]@.ip == rows@[i as int]@[9]@
                        && votes@[fidx as int]@.host == rows@[i as int]@[8]@,
                decreases votes@.len() - j,
            {
                if !found && str_eq_chars(&votes[j].ip, &rows[i][9]) && str_eq_chars(
                    &votes[j].host,
                    &rows[i][8],
                ) {
                    found = true;
                    fidx = j;
                }
                j = j + 1;
            }
            let ghost ipv = rv[i as int][9];
            let ghost hostv = rv[i as int][8];
            if found {
                proof {
                    assert(prev[fidx as int].ip == ipv && prev[fidx as int].host == hostv);
                    assert(spec_has_vote(prev, ipv, hostv));
                    let cj = spec_vote_idx(prev, ipv, hostv);
                    assert(0 <= cj < prev.len() && prev[cj].ip == ipv && prev[cj].host == hostv);
                    assert(cj == fidx as int);
                    assert(prev[fidx as int].count <= rv.take(i as int).len());
                }
                let newv = Vote {
                    ip: votes[fidx].ip.clone(),
                    host: votes[fidx].host.clone(),
                    count: votes[fidx].count + 1,
                };
                votes[fidx] = newv;
                proof {
                    assert(spec_votes_of(votes@) =~= spec_add_vote(prev, ipv, hostv));
                }
            } else {
                proof {
                    assert(!spec_has_vote(prev, ipv, hostv));
                }
                let newv = Vote {
                    ip: text::string_of(&row[9]),
                    host: text::string_of(&row[8]),
                    count: 1,
                };
                votes.push(newv);
                proof {
                    assert(spec_votes_of(votes@) =~= spec_add_vote(prev, ipv, hostv));
                }
            }
        }
        i = i + 1;
    }
    proof {
        assert(rv.take(rows@.len() as int) =~= rv);
    }
    votes
}

/// The edge key of one prepared row.
pub open spec fn spec_key_of_row(r: Seq<Seq<char>>) -> KeyV {
    KeyV {
        dst_host: r[1],
        subject_user: r[3],
        subject_domain: r[4],
        target_user: r[5],
        target_domain: r[6],
        logon_kind: r[7],
        src_host: r[8],
        src_ip: r[9],
    }
}

/// The ghost image of an aggregation accumulator.
pub open spec fn spec_aggs_of(v: Seq<AggregatedEdge>) -> Seq<crate::model::AggEdgeV> {
    Seq::new(v.len(), |i: int| v[i]@)
}

/// Whether the accumulator holds a group for this key.
pub open spec fn spec_has_group(gs: Seq<crate::model::AggEdgeV>, k: KeyV) -> bool {
    exists|j: int| 0 <= j < gs.len() && gs[j].key == k
}

/// The index of the group for this key.
pub open spec fn spec_group_idx(gs: Seq<crate::model::AggEdgeV>, k: KeyV) -> int {
    choose|j: int| 0 <= j < gs.len() && gs[j].key == k
}

/// The earlier of two timestamps under raw string comparison.
pub open spec fn spec_min_time2(cur: Seq<char>, cand: Seq<char>) -> Seq<char> {
    if spec_lt(cand, cur) {
        cand
    } else {
        cur
    }
}

/// Folds one row into the accumulator: an existing group keeps the minimum
/// time and counts one more occurrence; a new key opens a group.
pub open spec fn spec_add_row(gs: Seq<crate::model::AggEdgeV>, r: Seq<Seq<char>>) -> Seq<
    crate::model::AggEdgeV,
> {
    let k = spec_key_of_row(r);
    if spec_has_group(gs, k) {
        let j = spec_group_idx(gs, k);
        gs.update(
            j,
            crate::model::AggEdgeV {
                key: gs[j].key,
                earliest_time: spec_min_time2(gs[j].earliest_time, r[0]),
                count: (gs[j].count + 1) as u64,
            },
        )
    } else {
        gs.push(crate::model::AggEdgeV { key: k, earliest_time: r[0], count: 1 })
    }
}

/// The aggregated edges of the filtered rows, grouped by edge key in
/// first-occurrence order.
pub open spec fn spec_agg(rows: Seq<Seq<Seq<char>>>) -> Seq<crate::model::AggEdgeV>
    decreases rows.len(),
{
    if rows.len() == 0 {
        Seq::empty()
    } else {
        spec_add_row(spec_agg(rows.drop_last()), rows.last())
    }
}

/// No key owns two groups.
pub open spec fn spec_agg_distinct(gs: Seq<crate::model::AggEdgeV>) -> bool {
    forall|j: int, k: int| 0 <= j < k < gs.len() ==> gs[j].key != gs[k].key
}

/// The accumulator of any row sequence has distinct keys, and no count
/// exceeds the number of rows.
pub proof fn lemma_agg_facts(rows: Seq<Seq<Seq<char>>>)
    ensures
        spec_agg_distinct(spec_agg(rows)),
        forall|j: int|
            0 <= j < spec_agg(rows).len() ==> #[trigger] spec_agg(rows)[j].count <= rows.len(),
    decreases rows.len(),
{
    if rows.len() > 0 {
        lemma_agg_facts(rows.drop_last());
        let prev = spec_agg(rows.drop_last());
        let r = rows.last();
        let cur = spec_agg(rows);
        let k = spec_key_of_row(r);
        if spec_has_group(prev, k) {
            let j = spec_group_idx(prev, k);
            assert(0 <= j < prev.len() && prev[j].key == k);
            assert(spec_agg_distinct(cur));
        } else {
            assert forall|a: int, b: int| 0 <= a < b < cur.len() implies cur[a].key
                != cur[b].key by {
                if b == prev.len() {
                    assert(prev[a].key != k);
                }
            }
        }
    }
}

/// Groups the filtered rows by edge key, tracking the earliest time and the
/// occurrence count of each group.
pub fn aggregate_rows(rows: &Vec<Vec<Vec<char>>>) -> (r: Vec<AggregatedEdge>)
    requires
        forall|j: int| 0 <= j < rows@.len() ==> #[trigger] rows@[j]@.len() == 10,
    ensures
        spec_aggs_of(r@) == spec_agg(rows.deep_view()),
{
    let ghost rv = rows.deep_view();
    let mut gs: Vec<AggregatedEdge> = Vec::new();
    proof {
        assert(rv.take(0) =~= Seq::<Seq<Seq<char>>>::empty());
        assert(spec_aggs_of(gs@) =~= spec_agg(rv.take(0)));
    }
    let mut i: usize = 0;
    while i < rows.len()
        invariant
            i <= rows@.len(),
            rv == rows.deep_view(),
            forall|j: int| 0 <= j < rows@.len() ==> #[trigger] rows@[j]@.len() == 10,
            spec_aggs_of(gs@) == spec_agg(rv.take(i as int)),
        decreases rows@.len() - i,
    {
        proof {
            assert(rv.take(i + 1).drop_last() =~= rv.take(i as int));
            assert(rv.take(i + 1).last() == rv[i as int]);
            assert(rv[i as int] =~= rows@[i as int].deep_view());
            lemma_agg_facts(rv.take(i as int));
        }
        let ghost prev = spec_aggs_of(gs@);
        let ghost rowv = rv[i as int];
        let ghost k = spec_key_of_row(rowv);
        let mut j: usize = 0;
        let mut found = false;
        let mut fidx: usize = 0;
        while j < gs.len()
            invariant
                j <= gs@.len(),
                i < rows@.len(),
                rows@[i as int]@.len() == 10,
                rowv == rows@[i as int].deep_view(),
                k == spec_key_of_row(rowv),
                !found ==> forall|m: int| 0 <= m < j ==> #[trigger] gs@[m]@.key != k,
                found ==> fidx < j && gs@[fidx as int]@.key == k,
            decreases gs@.len() - j,
        {
            if !found {
                let e = &gs[j];
                let m = str_eq_chars(&e.key.dst_host, &rows[i][1]) && str_eq_chars(
                    &e.key.subject_user,
                    &rows[i][3],
                ) && str_eq_chars(&e.key.subject_domain, &rows[i][4]) && str_eq_chars(
                    &e.key.target_user,
                    &rows[i][5],
                ) && str_eq_chars(&e.key.target_domain, &rows[i][6]) && str_eq_chars(
                    &e.key.logon_kind,
                    &rows[i][7],
                ) && str_eq_chars(&e.key.src_host, &rows[i][8]) && str_eq_chars(
                    &e.key.src_ip,
                    &rows[i][9],
                );
                proof {
                    assert(rowv[1] == rows@[i as int]@[1]@);
                    assert(rowv[3] == rows@[i as int]@[3]@);
                    assert(rowv[4] == rows@[i as int]@[4]@);
                    assert(rowv[5] == rows@[i as int]@[5]@);
                    assert(rowv[6] == rows@[i as int]@[6]@);
                    assert(rowv[7] == rows@[i as int]@[7]@);
                    assert(rowv[8] == rows@[i as int]@[8]@);
                    assert(rowv[9] == rows@[i as int]@[9]@);
                }
                if m {
                    found = true;
                    fidx = j;
                }
            }
            j = j + 1;
        }
        if found {
            proof {
                assert(prev[fidx as int].key == k);
                assert(spec_has_group(prev, k));
                let cj = spec_group_idx(prev, k);
                assert(0 <= cj < prev.len() && prev[cj].key == k);
                assert(cj == fidx as int);
                assert(prev[fidx as int].count <= rv.take(i as int).len());
            }
            let earlier = lt_chars(&rows[i][0], &text::chars_of(gs[fidx].earliest_time.as_str()));
            let newe = AggregatedEdge {
                key: gs[fidx].key.clone_key(),
                earliest_time: if earlier {
                    text::string_of(&rows[i][0])
                } else {
                    gs[fidx].earliest_time.clone()
                },
                count: gs[fidx].count + 1,
            };
            gs[fidx] = newe;
            proof {
                assert(spec_aggs_of(gs@) =~= spec_add_row(prev, rowv));
            }
        } else {
            let newe = AggregatedEdge {
                key: EdgeKey {
                    dst_host: text::string_of(&rows[i][1]),
                    subject_user: text::string_of(&rows[i][3]),
                    subject_domain: text::string_of(&rows[i][4]),
                    target_user: text::string_of(&rows[i][5]),
                    target_domain: text::string_of(&rows[i][6]),
                    logon_kind: text::string_of(&rows[i][7]),
                    src_host: text::string_of(&rows[i][8]),
                    src_ip: text::string_of(&rows[i][9]),
                },
                earliest_time: text::string_of(&rows[i][0]),
                count: 1,
            };
            gs.push(newe);
            proof {
                assert(!spec_has_group(prev, k));
                assert(spec_aggs_of(gs@) =~= spec_add_row(prev, rowv));
            }
        }
        i = i + 1;
    }
    proof {
        assert(rv.take(rows@.len() as int) =~= rv);
    }
    gs
}

/// How many rows carry this edge key.
pub open spec fn spec_count_key(rows: Seq<Seq<Seq<char>>>, k: KeyV) -> nat
    decreases rows.len(),
{
    if rows.len() == 0 {
        0
    } else {
        spec_count_key(rows.drop_last(), k) + if spec_key_of_row(rows.last()) == k {
            1nat
        } else {
            0nat
        }
    }
}

/// The minimum time string among the rows that carry this edge key;
/// meaningful only when at least one row does.
pub open spec fn spec_min_time_key(rows: Seq<Seq<Seq<char>>>, k: KeyV) -> Seq<char>
    decreases rows.len(),
{
    if rows.len() == 0 {
        Seq::empty()
    } else if spec_key_of_row(rows.last()) == k {
        if spec_count_key(rows.drop_last(), k) == 0 {
            rows.last()[0]
        } else {
            spec_min_time2(spec_min_time_key(rows.drop_last(), k), rows.last()[0])
        }
    } else {
        spec_min_time_key(rows.drop_last(), k)
    }
}

/// Aggregation correctness: every group's count is exactly the number of
/// rows with its key, every group's earliest time is the minimum time
/// string among those rows, and a key owns a group exactly when some row
/// carries it.
pub proof fn lemma_agg_sound(rows: Seq<Seq<Seq<char>>>)
    requires
        rows.len() <= u64::MAX,
    ensures
        forall|j: int|
            0 <= j < spec_agg(rows).len() ==> (#[trigger] spec_agg(rows)[j]).count
                == spec_count_key(rows, spec_agg(rows)[j].key),
        forall|j: int|
            0 <= j < spec_agg(rows).len() ==> (#[trigger] spec_agg(rows)[j]).earliest_time
                == spec_min_time_key(rows, spec_agg(rows)[j].key),
        forall|k: KeyV| spec_count_key(rows, k) > 0 <==> spec_has_group(spec_agg(rows), k),
    decreases rows.len(),
{
    if rows.len() > 0 {
        let dl = rows.drop_last();
        let r = rows.last();
        let k0 = spec_key_of_row(r);
        let prev = spec_agg(dl);
        let cur = spec_agg(rows);
        lemma_agg_sound(dl);
        lemma_agg_facts(dl);
        assert forall|k: KeyV| spec_count_key(rows, k) > 0 <==> spec_has_group(cur, k) by {
            if k == k0 {
                if spec_has_group(prev, k0) {
                    let j = spec_group_idx(prev, k0);
                    assert(cur[j].key == k0);
                } else {
                    assert(cur[prev.len() as int].key == k0);
                }
                assert(spec_has_group(cur, k));
            } else {
                if spec_has_group(prev, k) {
                    let j = choose|j: int| 0 <= j < prev.len() && prev[j].key == k;
                    assert(cur[j].key == k);
                }
                if spec_has_group(cur, k) {
                    let j = choose|j: int| 0 <= j < cur.len() && cur[j].key == k;
                    if spec_has_group(prev, k0) {
                        assert(prev[j].key == k);
                    } else {
                        assert(j < prev.len());
                        assert(prev[j].key == k);
                    }
                    assert(spec_has_group(prev, k));
                }
            }
        }
        assert forall|j: int| 0 <= j < cur.len() implies (#[trigger] cur[j]).count
            == spec_count_key(rows, cur[j].key) && cur[j].earliest_time == spec_min_time_key(
            rows,
            cur[j].key,
        ) by {
            if spec_has_group(prev, k0) {
                let u = spec_group_idx(prev, k0);
                assert(0 <= u < prev.len() && prev[u].key == k0);
                if j == u {
                    assert(spec_count_key(dl, k0) > 0);
                    assert(cur[j].count == prev[u].count + 1);
                    assert(spec_count_key(rows, k0) == spec_count_key(dl, k0) + 1);
                    assert(cur[j].earliest_time == spec_min_time2(prev[u].earliest_time, r[0]));
                } else {
                    assert(cur[j] == prev[j]);
                    assert(prev[j].key != k0);
                    assert(spec_count_key(rows, prev[j].key) == spec_count_key(dl, prev[j].key));
                    assert(spec_min_time_key(rows, prev[j].key) == spec_min_time_key(
                        dl,
                        prev[j].key,
                    ));
                }
            } else {
                if j == prev.len() {
                    assert(spec_count_key(dl, k0) == 0);
                    assert(cur[j].count == 1);
                    assert(spec_count_key(rows, k0) == 1);
                    assert(cur[j].earliest_time == r[0]);
                } else {
                    assert(cur[j] == prev[j]);
                    assert(prev[j].key != k0);
                    assert(spec_count_key(rows, prev[j].key) == spec_count_key(dl, prev[j].key));
                    assert(spec_min_time_key(rows, prev[j].key) == spec_min_time_key(
                        dl,
                        prev[j].key,
                    ));
                }
            }
        }
    }
}

/// The vote entries recorded for one address, in insertion order.
pub open spec fn spec_cands(vs: Seq<VoteV>, ip: Seq<char>) -> Seq<VoteV>
    decreases vs.len(),
{
    if vs.len() == 0 {
        Seq::empty()
    } else {
        let p = spec_cands(vs.drop_last(), ip);
        if vs.last().ip == ip {
            p.push(vs.last())
        } else {
            p
        }
    }
}

/// The most frequently voted entry: a later entry wins only with a strictly
/// greater count, so ties resolve to the earliest-recorded label.
pub open spec fn spec_best(cs: Seq<VoteV>) -> VoteV
    decreases cs.len(),
{
    if cs.len() <= 1 {
        cs[0]
    } else {
        let b = spec_best(cs.drop_last());
        if cs.last().count > b.count {
            cs.last()
        } else {
            b
        }
    }
}

/// Origin-host resolution for one aggregated edge: when the recorded source
/// host is a sentinel or the source address has votes, the displayed origin
/// becomes the most-voted label for that address, falling back to the
/// address itself when no label was ever recorded; otherwise the source
/// host stands.
pub open spec fn spec_resolve(vs: Seq<VoteV>, k: KeyV) -> Seq<char> {
    let cs = spec_cands(vs, k.src_ip);
    if spec_is_sentinel(k.src_host) || cs.len() > 0 {
        if cs.len() == 0 {
            k.src_ip
        } else {
            spec_best(cs).host
        }
    } else {
        k.src_host
    }
}

/// Resolves the displayed origin host of one aggregated edge.
pub fn resolve_origin(votes: &Vec<Vote>, edge: &AggregatedEdge) -> (r: String)
    ensures
        r@ == spec_resolve(spec_votes_of(votes@), edge@.key),
{
    let ghost vs = spec_votes_of(votes@);
    let ghost ip = edge@.key.src_ip;
    let mut i: usize = 0;
    let mut best: usize = 0;
    let mut best_count: u64 = 0;
    let mut any = false;
    proof {
        assert(vs.take(0) =~= Seq::<VoteV>::empty());
        assert(spec_cands(vs.take(0), ip) =~= Seq::<VoteV>::empty());
    }
    while i < votes.len()
        invariant
            i <= votes@.len(),
            vs == spec_votes_of(votes@),
            ip == edge@.key.src_ip,
            !any ==> spec_cands(vs.take(i as int), ip).len() == 0,
            any ==> spec_cands(vs.take(i as int), ip).len() > 0 && best < i
                && votes@[best as int]@ == spec_best(spec_cands(vs.take(i as int), ip))
                && best_count == votes@[best as int]@.count,
        decreases votes@.len() - i,
    {
        proof {
            assert(vs.take(i + 1).drop_last() =~= vs.take(i as int));
            assert(vs.take(i + 1).last() == vs[i as int]);
        }
        let ghost pc = spec_cands(vs.take(i as int), ip);
        let e_ip = &votes[i].ip;
        let ipc = text::chars_of(e_ip.as_str());
        let edge_ipc = text::chars_of(edge.key.src_ip.as_str());
        if text::eq_chars(&ipc, &edge_ipc) {
            proof {
                assert(vs[i as int].ip == ip);
                assert(spec_cands(vs.take(i + 1), ip) == pc.push(vs[i as int]));
            }
            if !any {
                any = true;
                best = i;
                best_count = votes[i].count;
                proof {
                    assert(spec_best(pc.push(vs[i as int])) == vs[i as int]);
                }
            } else {
                proof {
                    assert(pc.push(vs[i as int]).drop_last() =~= pc);
                    assert(pc.push(vs[i as int]).last() == vs[i as int]);
                    assert(spec_best(pc.push(vs[i as int])) == if vs[i as int].count > spec_best(
                        pc,
                    ).count {
                        vs[i as int]
                    } else {
                        spec_best(pc)
                    });
                }
                if votes[i].count > best_count {
                    best = i;
                    best_count = votes[i].count;
                }
            }
        } else {
            proof {
                assert(vs[i as int].ip != ip);
                assert(spec_cands(vs.take(i + 1), ip) == pc);
            }
        }
        i = i + 1;
    }
    proof {
        assert(vs.take(votes@.len() as int) =~= vs);
    }
    let shc = text::chars_of(edge.key.src_host.as_str());
    if is_sentinel(&shc) || any {
        if any {
            votes[best].host.clone()
        } else {
            edge.key.src_ip.clone()
        }
    } else {
        edge.key.src_host.clone()
    }
}

/// The upsert operations of one canonical table: its data lines are
/// prepared, filtered, aggregated and resolved, and each aggregated edge
/// becomes one operation.
pub open spec fn spec_table_ops(lines: Seq<Seq<char>>) -> Seq<crate::emit::UpsertOpV> {
    let rows = spec_kept_rows(lines.skip(1));
    let gs = spec_agg(rows);
    let vs = spec_votes(rows);
    Seq::new(gs.len(), |i: int| crate::emit::spec_op_of_edge(spec_resolve(vs, gs[i].key), gs[i]))
}

/// Turns one canonical table into graph upsert operations.  The first line
/// must be a canonical header; a table with a foreign or missing header is
/// refused, and exactly then the result is `None`.
pub fn table_ops(lines: &Vec<String>) -> (r: Option<Vec<crate::emit::UpsertOp>>)
    ensures
        match r {
            Some(ops) => lines@.len() >= 1 && (lines.deep_view()[0]
                == crate::model::spec_header11() || lines.deep_view()[0]
                == crate::model::spec_header12()) && Seq::new(ops@.len(), |i: int| ops@[i]@)
                == spec_table_ops(lines.deep_view()),
            None => lines@.len() == 0 || (lines.deep_view()[0] != crate::model::spec_header11()
                && lines.deep_view()[0] != crate::model::spec_header12()),
        },
{
    let ghost lv = lines.deep_view();
    if lines.len() == 0 {
        return None;
    }
    let h11 = crate::model::header11();
    let h12 = crate::model::header12();
    if !(lines[0] == h11 || lines[0] == h12) {
        return None;
    }
    let mut data: Vec<String> = Vec::new();
    let mut i: usize = 1;
    proof {
        assert(data.deep_view() =~= lv.subrange(1, 1));
    }
    while i < lines.len()
        invariant
            1 <= i <= lines@.len(),
            lv == lines.deep_view(),
            data.deep_view() == lv.subrange(1, i as int),
        decreases lines@.len() - i,
    {
        let ghost prev_dv = data.deep_view();
        data.push(lines[i].clone());
        i = i + 1;
        proof {
            assert(data.deep_view() =~= prev_dv.push(lv[i - 1]));
            assert(prev_dv.push(lv[i - 1]) =~= lv.subrange(1, i as int));
        }
    }
    proof {
        assert(lv.subrange(1, lv.len() as int) =~= lv.skip(1));
    }
    let rows = kept_rows(&data);
    let votes = build_votes(&rows);
    let gs = aggregate_rows(&rows);
    let ghost gsv = spec_aggs_of(gs@);
    let mut ops: Vec<crate::emit::UpsertOp> = Vec::new();
    let mut j: usize = 0;
    while j < gs.len()
        invariant
            j <= gs@.len(),
            gsv == spec_aggs_of(gs@),
            spec_votes_of(votes@) == spec_votes(rows.deep_view()),
            gsv == spec_agg(rows.deep_view()),
            rows.deep_view() == spec_kept_rows(lv.skip(1)),
            ops@.len() == j,
            forall|m: int|
                0 <= m < j ==> #[trigger] ops@[m]@ == crate::emit::spec_op_of_edge(
                    spec_resolve(spec_votes_of(votes@), gsv[m].key),
                    gsv[m],
                ),
        decreases gs@.len() - j,
    {
        let origin = resolve_origin(&votes, &gs[j]);
        let op = crate::emit::op_of_edge(origin.as_str(), &gs[j]);
        ops.push(op);
        j = j + 1;
    }
    proof {
        assert(Seq::new(ops@.len(), |i: int| ops@[i]@) =~= spec_table_ops(lv));
    }
    Some(ops)
}

} // verus!
