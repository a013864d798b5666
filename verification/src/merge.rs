//! The merge engine: header validation, exact-duplicate suppression and a
//! stable ascending time sort over already-normalized canonical tables.
use vstd::prelude::*;
use crate::text;
use crate::timestamp;

verus! {

broadcast use text::lemma_chars_deep_view;

/// Merging fails only on a missing or foreign header; the index names the
/// offending input.
#[derive(Debug)]
pub enum MergeError {
    BadHeader { input: usize },
}

/// The expected header of the chosen table variant.
pub open spec fn spec_header_of(with_process: bool) -> Seq<char> {
    if with_process {
        crate::model::spec_header12()
    } else {
        crate::model::spec_header11()
    }
}

/// The column count of the chosen table variant.
pub open spec fn spec_ncols_of(with_process: bool) -> int {
    if with_process {
        12
    } else {
        11
    }
}

/// A table that cannot contribute: empty, or led by the wrong header.
pub open spec fn spec_table_bad(t: Seq<Seq<char>>, h: Seq<char>) -> bool {
    t.len() == 0 || t[0] != h
}

/// The data lines of all tables, in input order, headers dropped.
pub open spec fn spec_data_lines(tables: Seq<Seq<Seq<char>>>) -> Seq<Seq<char>>
    decreases tables.len(),
{
    if tables.len() == 0 {
        Seq::empty()
    } else {
        spec_data_lines(tables.drop_last()) + tables.last().skip(1)
    }
}

/// A data line is kept when it has exactly the expected column count and its
/// first column parses as a canonical timestamp.
pub open spec fn spec_line_ok(l: Seq<char>, ncols: int) -> bool {
    &&& text::spec_split(l, ',').len() == ncols
    &&& timestamp::spec_parse_time_key(text::spec_split(l, ',')[0]) is Some
}

/// The sort key of a kept line.
pub open spec fn spec_line_key(l: Seq<char>) -> int {
    timestamp::spec_parse_time_key(text::spec_split(l, ',')[0])->0
}

/// Exact-duplicate suppression: of the well-formed lines, each distinct line
/// is kept once, at its first occurrence.
pub open spec fn spec_kept_lines(all: Seq<Seq<char>>, ncols: int) -> Seq<Seq<char>>
    decreases all.len(),
{
    if all.len() == 0 {
        Seq::empty()
    } else {
        let p = spec_kept_lines(all.drop_last(), ncols);
        let l = all.last();
        if spec_line_ok(l, ncols) && !p.contains(l) {
            p.push(l)
        } else {
            p
        }
    }
}

/// Ghost image of one sortable entry: a kept line with its time key.
pub ghost struct EntryV {
    pub key: int,
    pub line: Seq<char>,
}

/// One kept line paired with its parsed time key.
pub struct Entry {
    pub key: u128,
    pub line: String,
}

impl View for Entry {
    type V = EntryV;

    open spec fn view(&self) -> EntryV {
        EntryV { key: self.key as int, line: self.line@ }
    }
}

/// The entries of the kept lines, in kept order.
pub open spec fn spec_entries(ls: Seq<Seq<char>>) -> Seq<EntryV> {
    Seq::new(ls.len(), |i: int| EntryV { key: spec_line_key(ls[i]), line: ls[i] })
}

/// Stable insertion: the new entry goes after every entry whose key is not
/// greater, so earlier input order wins among equal keys.
pub open spec fn spec_insert(es: Seq<EntryV>, x: EntryV) -> Seq<EntryV>
    decreases es.len(),
{
    if es.len() == 0 {
        seq![x]
    } else if es.last().key <= x.key {
        es.push(x)
    } else {
        spec_insert(es.drop_last(), x).push(es.last())
    }
}

/// Stable insertion sort, left to right.
pub open spec fn spec_sort(es: Seq<EntryV>) -> Seq<EntryV>
    decreases es.len(),
{
    if es.len() == 0 {
        Seq::empty()
    } else {
        spec_insert(spec_sort(es.drop_last()), es.last())
    }
}

/// Keys never decrease along the sequence.
pub open spec fn spec_sorted(es: Seq<EntryV>) -> bool {
    forall|i: int, j: int| 0 <= i < j < es.len() ==> es[i].key <= es[j].key
}

/// Inserting adds one entry and otherwise keeps exactly the old ones.
pub proof fn lemma_insert_contains(es: Seq<EntryV>, x: EntryV, y: EntryV)
    ensures
        spec_insert(es, x).len() == es.len() + 1,
        spec_insert(es, x).contains(y) <==> (es.contains(y) || y == x),
    decreases es.len(),
{
    let r = spec_insert(es, x);
    if es.len() == 0 {
        assert(r[0] == x);
        if r.contains(y) {
            let i = choose|i: int| 0 <= i < r.len() && r[i] == y;
            assert(y == x);
        }
    } else if es.last().key <= x.key {
        if es.contains(y) {
            let i = choose|i: int| 0 <= i < es.len() && es[i] == y;
            assert(r[i] == y);
        }
        if y == x {
            assert(r[es.len() as int] == y);
        }
        if r.contains(y) {
            let i = choose|i: int| 0 <= i < r.len() && r[i] == y;
            if i < es.len() {
                assert(es[i] == y);
            }
        }
    } else {
        lemma_insert_contains(es.drop_last(), x, y);
        let rr = spec_insert(es.drop_last(), x);
        if es.contains(y) {
            let i = choose|i: int| 0 <= i < es.len() && es[i] == y;
            if i < es.len() - 1 {
                assert(es.drop_last()[i] == y);
                let j = choose|j: int| 0 <= j < rr.len() && rr[j] == y;
                assert(r[j] == y);
            } else {
                assert(r[r.len() - 1] == y);
            }
        }
        if y == x {
            let j = choose|j: int| 0 <= j < rr.len() && rr[j] == y;
            assert(r[j] == y);
        }
        if r.contains(y) {
            let i = choose|i: int| 0 <= i < r.len() && r[i] == y;
            if i < r.len() - 1 {
                assert(rr[i] == y);
            } else {
                assert(es[es.len() - 1] == y);
            }
        }
    }
}

/// Inserting into a sorted sequence keeps it sorted.
pub proof fn lemma_insert_sorted(es: Seq<EntryV>, x: EntryV)
    requires
        spec_sorted(es),
    ensures
        spec_sorted(spec_insert(es, x)),
    decreases es.len(),
{
    let r = spec_insert(es, x);
    if es.len() == 0 {
    } else if es.last().key <= x.key {
        assert forall|i: int, j: int| 0 <= i < j < r.len() implies r[i].key <= r[j].key by {
            if j == es.len() {
                assert(es[i].key <= es.last().key || i == es.len() - 1);
            }
        }
    } else {
        assert(spec_sorted(es.drop_last()));
        lemma_insert_sorted(es.drop_last(), x);
        let rr = spec_insert(es.drop_last(), x);
        assert forall|i: int, j: int| 0 <= i < j < r.len() implies r[i].key <= r[j].key by {
            if j == r.len() - 1 {
                assert(r[j] == es.last());
                assert(rr.contains(rr[i])) by {
                    assert(rr[i] == rr[i]);
                }
                lemma_insert_contains(es.drop_last(), x, rr[i]);
                if rr[i] == x {
                    assert(r[i].key <= es.last().key);
                } else {
                    let m = choose|m: int| 0 <= m < es.len() - 1 && es.drop_last()[m] == rr[i];
                    assert(es[m].key <= es.last().key);
                }
            }
        }
    }
}

/// Sorting yields a sorted sequence with exactly the input entries.
pub proof fn lemma_sort_facts(es: Seq<EntryV>)
    ensures
        spec_sorted(spec_sort(es)),
        spec_sort(es).len() == es.len(),
        forall|y: EntryV| spec_sort(es).contains(y) <==> es.contains(y),
    decreases es.len(),
{
    if es.len() > 0 {
        lemma_sort_facts(es.drop_last());
        lemma_insert_sorted(spec_sort(es.drop_last()), es.last());
        lemma_insert_contains(spec_sort(es.drop_last()), es.last(), es.last());
        assert forall|y: EntryV| spec_sort(es).contains(y) <==> es.contains(y) by {
            lemma_insert_contains(spec_sort(es.drop_last()), es.last(), y);
            if es.contains(y) {
                let i = choose|i: int| 0 <= i < es.len() && es[i] == y;
                if i < es.len() - 1 {
                    assert(es.drop_last()[i] == y);
                }
            }
            if es.drop_last().contains(y) {
                let i = choose|i: int| 0 <= i < es.len() - 1 && es.drop_last()[i] == y;
                assert(es[i] == y);
            }
            if y == es.last() {
                assert(es[es.len() - 1] == y);
            }
        }
    }
}

/// Inserting an entry that is not present keeps entries distinct.
pub proof fn lemma_insert_distinct(es: Seq<EntryV>, x: EntryV)
    requires
        forall|i: int, j: int| 0 <= i < j < es.len() ==> es[i] != es[j],
        !es.contains(x),
    ensures
        forall|i: int, j: int|
            0 <= i < j < spec_insert(es, x).len() ==> spec_insert(es, x)[i] != spec_insert(
                es,
                x,
            )[j],
    decreases es.len(),
{
    let r = spec_insert(es, x);
    if es.len() == 0 {
    } else if es.last().key <= x.key {
        assert forall|i: int, j: int| 0 <= i < j < r.len() implies r[i] != r[j] by {
            if j == es.len() {
                assert(es[i] != x) by {
                    if es[i] == x {
                        assert(es.contains(x));
                    }
                }
            }
        }
    } else {
        let dl = es.drop_last();
        assert(!dl.contains(x)) by {
            if dl.contains(x) {
                let i = choose|i: int| 0 <= i < dl.len() && dl[i] == x;
                assert(es[i] == x);
            }
        }
        assert(forall|i: int, j: int| 0 <= i < j < dl.len() ==> dl[i] != dl[j]);
        lemma_insert_distinct(dl, x);
        let rr = spec_insert(dl, x);
        assert forall|i: int, j: int| 0 <= i < j < r.len() implies r[i] != r[j] by {
            if j == r.len() - 1 {
                assert(r[j] == es.last());
                assert(rr.contains(rr[i])) by {
                    assert(rr[i] == rr[i]);
                }
                lemma_insert_contains(dl, x, rr[i]);
                if rr[i] == x {
                    assert(x.key < es.last().key);
                } else {
                    let m = choose|m: int| 0 <= m < dl.len() && dl[m] == rr[i];
                    assert(es[m] == rr[i]);
                    assert(es[m] != es[es.len() - 1]);
                }
            }
        }
    }
}

/// The predicate of entries carrying one key value.
pub open spec fn spec_same_key(k: int) -> spec_fn(EntryV) -> bool {
    |e: EntryV| e.key == k
}

/// Insertion appends the new entry to its own key's subsequence and leaves
/// every other key's subsequence intact.
proof fn lemma_insert_filter(es: Seq<EntryV>, x: EntryV, k: int)
    ensures
        spec_insert(es, x).filter(spec_same_key(k)) == if x.key == k {
            es.filter(spec_same_key(k)).push(x)
        } else {
            es.filter(spec_same_key(k))
        },
    decreases es.len(),
{
    reveal(Seq::filter);
    if es.len() == 0 {
        assert(spec_insert(es, x).drop_last() =~= es);
        assert(spec_insert(es, x).last() == x);
        assert(es.filter(spec_same_key(k)) =~= es);
    } else if es.last().key <= x.key {
        assert(es.push(x).drop_last() =~= es);
        assert(es.push(x).last() == x);
    } else {
        lemma_insert_filter(es.drop_last(), x, k);
        let r = spec_insert(es.drop_last(), x);
        assert(r.push(es.last()).drop_last() =~= r);
        assert(r.push(es.last()).last() == es.last());
    }
}

/// Stability of the sort: for every key value, the entries carrying it
/// stand in the sorted sequence exactly in their input order.
pub proof fn lemma_sort_stable(es: Seq<EntryV>, k: int)
    ensures
        spec_sort(es).filter(spec_same_key(k)) == es.filter(spec_same_key(k)),
    decreases es.len(),
{
    reveal(Seq::filter);
    if es.len() > 0 {
        lemma_sort_stable(es.drop_last(), k);
        lemma_insert_filter(spec_sort(es.drop_last()), es.last(), k);
    }
}

/// The kept lines are pairwise distinct and are exactly the well-formed
/// input lines: exact-duplicate suppression keeps each such line once.
pub proof fn lemma_kept_facts(all: Seq<Seq<char>>, ncols: int)
    ensures
        forall|i: int, j: int|
            0 <= i < j < spec_kept_lines(all, ncols).len() ==> spec_kept_lines(all, ncols)[i]
                != spec_kept_lines(all, ncols)[j],
        forall|l: Seq<char>|
            spec_kept_lines(all, ncols).contains(l) <==> (all.contains(l) && spec_line_ok(
                l,
                ncols,
            )),
    decreases all.len(),
{
    let cur = spec_kept_lines(all, ncols);
    if all.len() > 0 {
        let dl = all.drop_last();
        let p = spec_kept_lines(dl, ncols);
        let l0 = all.last();
        lemma_kept_facts(dl, ncols);
        if spec_line_ok(l0, ncols) && !p.contains(l0) {
            assert forall|i: int, j: int| 0 <= i < j < cur.len() implies cur[i] != cur[j] by {
                if j == p.len() {
                    assert(p[i] != l0) by {
                        if p[i] == l0 {
                            assert(p.contains(l0));
                        }
                    }
                }
            }
        }
        assert forall|l: Seq<char>| cur.contains(l) <==> (all.contains(l) && spec_line_ok(
            l,
            ncols,
        )) by {
            if cur.contains(l) {
                let i = choose|i: int| 0 <= i < cur.len() && cur[i] == l;
                if i < p.len() {
                    assert(p[i] == l);
                    assert(p.contains(l));
                    assert(dl.contains(l) && spec_line_ok(l, ncols));
                    let m = choose|m: int| 0 <= m < dl.len() && dl[m] == l;
                    assert(all[m] == l);
                } else {
                    assert(l == l0);
                    assert(all[all.len() - 1] == l);
                }
                assert(all.contains(l));
            }
            if all.contains(l) && spec_line_ok(l, ncols) {
                let i = choose|i: int| 0 <= i < all.len() && all[i] == l;
                if i < all.len() - 1 {
                    assert(dl[i] == l);
                    assert(p.contains(l));
                    let m = choose|m: int| 0 <= m < p.len() && p[m] == l;
                    assert(cur[m] == l);
                } else {
                    if p.contains(l0) {
                        let m = choose|m: int| 0 <= m < p.len() && p[m] == l0;
                        assert(cur[m] == l);
                    } else {
                        assert(cur[cur.len() - 1] == l);
                    }
                }
                assert(cur.contains(l));
            }
        }
    }
}

/// Sorting distinct entries yields distinct entries.
pub proof fn lemma_sort_distinct(es: Seq<EntryV>)
    requires
        forall|i: int, j: int| 0 <= i < j < es.len() ==> es[i] != es[j],
    ensures
        forall|i: int, j: int|
            0 <= i < j < spec_sort(es).len() ==> spec_sort(es)[i] != spec_sort(es)[j],
    decreases es.len(),
{
    if es.len() > 0 {
        let dl = es.drop_last();
        assert(forall|i: int, j: int| 0 <= i < j < dl.len() ==> dl[i] != dl[j]);
        lemma_sort_distinct(dl);
        lemma_sort_facts(dl);
        assert(!spec_sort(dl).contains(es.last())) by {
            if spec_sort(dl).contains(es.last()) {
                assert(dl.contains(es.last()));
                let i = choose|i: int| 0 <= i < dl.len() && dl[i] == es.last();
                assert(es[i] == es[es.len() - 1]);
            }
        }
        lemma_insert_distinct(spec_sort(dl), es.last());
    }
}

/// The merge round trip: merging tables yields the common header followed
/// by every distinct well-formed data line exactly once, in ascending time
/// order — so tables without exact duplicates merge to the union of their
/// rows, each once, time-sorted.
pub proof fn lemma_merge_round_trip(tables: Seq<Seq<Seq<char>>>, with_process: bool)
    ensures
        ({
            let out = spec_merge(tables, with_process);
            let ncols = spec_ncols_of(with_process);
            let data = out.subrange(1, out.len() as int);
            &&& out.len() >= 1
            &&& out[0] == spec_header_of(with_process)
            &&& forall|i: int, j: int| 0 <= i < j < data.len() ==> data[i] != data[j]
            &&& forall|l: Seq<char>|
                #[trigger] data.contains(l) <==> (spec_data_lines(tables).contains(l)
                    && spec_line_ok(l, ncols))
            &&& forall|i: int, j: int|
                0 <= i <= j < data.len() ==> spec_line_key(#[trigger] data[i]) <= spec_line_key(
                    #[trigger] data[j],
                )
        }),
{
    let ncols = spec_ncols_of(with_process);
    let all = spec_data_lines(tables);
    let kept = spec_kept_lines(all, ncols);
    let entries = spec_entries(kept);
    let sorted = spec_sort(entries);
    let out = spec_merge(tables, with_process);
    let data = out.subrange(1, out.len() as int);
    lemma_kept_facts(all, ncols);
    lemma_sort_facts(entries);
    assert(forall|i: int, j: int| 0 <= i < j < entries.len() ==> entries[i] != entries[j]) by {
        assert forall|i: int, j: int| 0 <= i < j < entries.len() implies entries[i]
            != entries[j] by {
            assert(entries[i].line == kept[i]);
            assert(entries[j].line == kept[j]);
        }
    }
    lemma_sort_distinct(entries);
    assert(data =~= Seq::new(sorted.len(), |i: int| sorted[i].line));
    // Every sorted entry is an entry of the kept lines, and so carries the
    // key of its own line.
    assert forall|i: int| 0 <= i < sorted.len() implies sorted[i].key == spec_line_key(
        #[trigger] sorted[i].line,
    ) && kept.contains(sorted[i].line) by {
        assert(sorted.contains(sorted[i]));
        assert(entries.contains(sorted[i]));
        let m = choose|m: int| 0 <= m < entries.len() && entries[m] == sorted[i];
        assert(entries[m].line == kept[m]);
        assert(kept[m] == sorted[i].line);
    }
    // Distinct data lines: distinct entries with equal lines would carry
    // equal keys, hence be equal.
    assert forall|i: int, j: int| 0 <= i < j < data.len() implies data[i] != data[j] by {
        if data[i] == data[j] {
            assert(sorted[i].line == sorted[j].line);
            assert(sorted[i].key == sorted[j].key);
            assert(sorted[i] == sorted[j]);
        }
    }
    // Membership.
    assert forall|l: Seq<char>| #[trigger] data.contains(l) <==> (all.contains(l) && spec_line_ok(
        l,
        ncols,
    )) by {
        if data.contains(l) {
            let i = choose|i: int| 0 <= i < data.len() && data[i] == l;
            assert(kept.contains(sorted[i].line));
        }
        if all.contains(l) && spec_line_ok(l, ncols) {
            assert(kept.contains(l));
            let m = choose|m: int| 0 <= m < kept.len() && kept[m] == l;
            assert(entries[m].line == l);
            assert(entries.contains(entries[m]));
            assert(sorted.contains(entries[m]));
            let j = choose|j: int| 0 <= j < sorted.len() && sorted[j] == entries[m];
            assert(data[j] == l);
        }
    }
}

/// The merged table: the common header, then the deduplicated well-formed
/// lines in ascending time order.
pub open spec fn spec_merge(tables: Seq<Seq<Seq<char>>>, with_process: bool) -> Seq<Seq<char>> {
    let kept = spec_kept_lines(spec_data_lines(tables), spec_ncols_of(with_process));
    let sorted = spec_sort(spec_entries(kept));
    seq![spec_header_of(with_process)] + Seq::new(sorted.len(), |i: int| sorted[i].line)
}

/// The ghost image of an entry vector.
pub open spec fn spec_entries_of(v: Seq<Entry>) -> Seq<EntryV> {
    Seq::new(v.len(), |i: int| v[i]@)
}

/// The shape of a stable insertion at the scanned position: everything from
/// `p` on has a strictly greater key, and the entry lands at `p`.
proof fn lemma_insert_shape(es: Seq<EntryV>, x: EntryV, p: int)
    requires
        0 <= p <= es.len(),
        forall|m: int| p <= m < es.len() ==> es[m].key > x.key,
        p > 0 ==> es[p - 1].key <= x.key,
    ensures
        spec_insert(es, x) == es.take(p).push(x) + es.skip(p),
    decreases es.len(),
{
    if es.len() == 0 {
        assert(spec_insert(es, x) =~= es.take(p).push(x) + es.skip(p));
    } else if p == es.len() {
        assert(es.last().key <= x.key);
        assert(es.push(x) =~= es.take(p).push(x) + es.skip(p));
    } else {
        assert(es[es.len() - 1].key > x.key);
        let dl = es.drop_last();
        assert(forall|m: int| p <= m < dl.len() ==> dl[m].key > x.key);
        if p > 0 {
            assert(dl[p - 1] == es[p - 1]);
        }
        lemma_insert_shape(dl, x, p);
        assert(spec_insert(es, x) == spec_insert(dl, x).push(es.last()));
        assert((dl.take(p).push(x) + dl.skip(p)).push(es.last()) =~= es.take(p).push(x) + es.skip(
            p,
        ));
    }
}

/// Merges canonical tables: verifies that every input carries the header of
/// the variant the first input chose, suppresses exact duplicates among the
/// well-formed data lines, and emits the header followed by the kept lines
/// in ascending time order.  The error names the first offending input.
#[verifier::loop_isolation(false)]
pub fn merge_tables(tables: &Vec<Vec<String>>) -> (r: Result<Vec<String>, MergeError>)
    requires
        tables@.len() >= 1,
    ensures
        match r {
            Ok(out) => {
                let tv = tables.deep_view();
                &&& tv[0].len() > 0
                &&& (tv[0][0] == crate::model::spec_header11() || tv[0][0]
                    == crate::model::spec_header12())
                &&& forall|i: int| 0 <= i < tv.len() ==> !spec_table_bad(#[trigger] tv[i], tv[0][0])
                &&& out.deep_view() == spec_merge(tv, tv[0][0] == crate::model::spec_header12())
            },
            Err(MergeError::BadHeader { input }) => {
                let tv = tables.deep_view();
                &&& (input as int) < tv.len()
                &&& if input == 0 {
                    tv[0].len() == 0 || (tv[0][0] != crate::model::spec_header11() && tv[0][0]
                        != crate::model::spec_header12())
                } else {
                    &&& tv[0].len() > 0
                    &&& (tv[0][0] == crate::model::spec_header11() || tv[0][0]
                        == crate::model::spec_header12())
                    &&& spec_table_bad(tv[input as int], tv[0][0])
                    &&& forall|m: int|
                        0 <= m < input ==> !spec_table_bad(#[trigger] tv[m], tv[0][0])
                }
            },
        },
{
    let ghost tv = tables.deep_view();
    if tables[0].len() == 0 {
        return Err(MergeError::BadHeader { input: 0 });
    }
    let h11 = crate::model::header11();
    let h12 = crate::model::header12();
    let with_process = tables[0][0] == h12;
    if !(tables[0][0] == h11 || with_process) {
        return Err(MergeError::BadHeader { input: 0 });
    }
    let ghost h = tv[0][0];
    // Every input must carry the same header.
    let mut i: usize = 0;
    while i < tables.len()
        invariant
            i <= tables@.len(),
            tv == tables.deep_view(),
            tv.len() >= 1,
            tv[0].len() > 0,
            tv[0][0] == h,
            h == crate::model::spec_header11() || h == crate::model::spec_header12(),
            with_process == (h == crate::model::spec_header12()),
            forall|m: int| 0 <= m < i ==> !spec_table_bad(#[trigger] tv[m], h),
        decreases tables@.len() - i,
    {
        if tables[i].len() == 0 {
            return Err(MergeError::BadHeader { input: i });
        }
        let same = if with_process {
            tables[i][0] == h12
        } else {
            tables[i][0] == h11
        };
        if !same {
            proof {
                assert(tv[i as int][0] == tables@[i as int]@[0]@);
                assert(spec_table_bad(tv[i as int], h));
            }
            return Err(MergeError::BadHeader { input: i });
        }
        proof {
            assert(tv[i as int].len() == tables@[i as int]@.len());
            assert(tv[i as int][0] == tables@[i as int]@[0]@);
            assert(!spec_table_bad(tv[i as int], h));
        }
        i = i + 1;
    }
    // Concatenate the data lines in input order.
    let mut all: Vec<String> = Vec::new();
    let mut t: usize = 0;
    proof {
        assert(tv.take(0) =~= Seq::<Seq<Seq<char>>>::empty());
        assert(all.deep_view() =~= spec_data_lines(tv.take(0)));
    }
    while t < tables.len()
        invariant
            t <= tables@.len(),
            tv == tables.deep_view(),
            forall|m: int| 0 <= m < tv.len() ==> (#[trigger] tv[m]).len() > 0,
            all.deep_view() == spec_data_lines(tv.take(t as int)),
        decreases tables@.len() - t,
    {
        let mut j: usize = 1;
        let ghost base = all.deep_view();
        proof {
            assert(tv[t as int].subrange(1, 1) =~= Seq::<Seq<char>>::empty());
            assert(base + tv[t as int].subrange(1, 1) =~= base);
        }
        while j < tables[t].len()
            invariant
                t < tables@.len(),
                1 <= j <= tables@[t as int]@.len(),
                tv == tables.deep_view(),
                base == spec_data_lines(tv.take(t as int)),
                all.deep_view() == base + tv[t as int].subrange(1, j as int),
            decreases tables@[t as int]@.len() - j,
        {
            let ghost prev = all.deep_view();
            all.push(tables[t][j].clone());
            j = j + 1;
            proof {
                assert(all.deep_view() =~= prev.push(tv[t as int][j - 1]));
                assert(all.deep_view() =~= base + tv[t as int].subrange(1, j as int));
            }
        }
        proof {
            if tables@[t as int]@.len() > 0 {
                assert(tv[t as int].subrange(1, tv[t as int].len() as int) =~= tv[t as int].skip(
                    1,
                ));
            }
            assert(tv.take(t + 1).drop_last() =~= tv.take(t as int));
            assert(tv.take(t + 1).last() == tv[t as int]);
            assert(all.deep_view() =~= spec_data_lines(tv.take(t + 1)));
        }
        t = t + 1;
    }
    proof {
        assert(tv.take(tables@.len() as int) =~= tv);
    }
    let ghost av = all.deep_view();
    let ncols: usize = if with_process {
        12
    } else {
        11
    };
    // Keep each well-formed line once, at its first occurrence.
    let mut kept: Vec<Entry> = Vec::new();
    let mut i2: usize = 0;
    proof {
        assert(av.take(0) =~= Seq::<Seq<char>>::empty());
        assert(spec_entries_of(kept@) =~= spec_entries(spec_kept_lines(av.take(0), ncols as int)));
    }
    while i2 < all.len()
        invariant
            i2 <= all@.len(),
            av == all.deep_view(),
            ncols == spec_ncols_of(with_process),
            spec_entries_of(kept@) == spec_entries(
                spec_kept_lines(av.take(i2 as int), ncols as int),
            ),
        decreases all@.len() - i2,
    {
        proof {
            assert(av.take(i2 + 1).drop_last() =~= av.take(i2 as int));
            assert(av.take(i2 + 1).last() == av[i2 as int]);
        }
        let ghost pker = spec_kept_lines(av.take(i2 as int), ncols as int);
        let lv = text::chars_of(all[i2].as_str());
        let fields = text::split_chars(&lv, ',');
        if fields.len() == ncols {
            proof {
                assert(fields.deep_view()[0] =~= fields@[0]@);
            }
            let f0 = text::string_of(&fields[0]);
            match timestamp::parse_time_key(f0.as_str()) {
                Some(key) => {
                    proof {
                        assert(spec_entries(pker).len() == pker.len());
                        assert(spec_entries_of(kept@).len() == kept@.len());
                    }
                    // First occurrence only.
                    let mut m: usize = 0;
                    let mut dup = false;
                    while m < kept.len()
                        invariant
                            m <= kept@.len(),
                            i2 < all@.len(),
                            av == all.deep_view(),
                            spec_entries_of(kept@) == spec_entries(pker),
                            pker.len() == kept@.len(),
                            !dup ==> forall|q: int| 0 <= q < m ==> pker[q] != av[i2 as int],
                            dup ==> pker.contains(av[i2 as int]),
                        decreases kept@.len() - m,
                    {
                        let same_line = kept[m].line == all[i2];
                        proof {
                            assert(spec_entries_of(kept@)[m as int].line == pker[m as int]);
                        }
                        if !dup && same_line {
                            dup = true;
                        }
                        m = m + 1;
                    }
                    if !dup {
                        proof {
                            assert(!pker.contains(av[i2 as int])) by {
                                if pker.contains(av[i2 as int]) {
                                    let q = choose|q: int|
                                        0 <= q < pker.len() && pker[q] == av[i2 as int];
                                    assert(pker[q] == av[i2 as int]);
                                }
                            }
                        }
                        let e = Entry { key, line: all[i2].clone() };
                        let ghost kprev = kept@;
                        let ghost ev = e@;
                        kept.push(e);
                        proof {
                            assert(spec_line_ok(av[i2 as int], ncols as int));
                            assert(ev.line == av[i2 as int]);
                            assert(ev.key == spec_line_key(av[i2 as int]));
                            assert(spec_kept_lines(av.take(i2 + 1), ncols as int) == pker.push(
                                av[i2 as int],
                            ));
                            assert(spec_entries_of(kept@) =~= spec_entries_of(kprev).push(ev));
                            assert(spec_entries(pker.push(av[i2 as int])) =~= spec_entries(
                                pker,
                            ).push(ev));
                            assert(spec_entries_of(kept@) =~= spec_entries(
                                spec_kept_lines(av.take(i2 + 1), ncols as int),
                            ));
                        }
                    }
                },
                None => {},
            }
        }
        i2 = i2 + 1;
    }
    proof {
        assert(av.take(all@.len() as int) =~= av);
    }
    let ghost kentries = spec_entries_of(kept@);
    // Stable ascending insertion sort on the time key.
    let mut sorted: Vec<Entry> = Vec::new();
    let mut s: usize = 0;
    proof {
        assert(kentries.take(0) =~= Seq::<EntryV>::empty());
        assert(spec_entries_of(sorted@) =~= spec_sort(kentries.take(0)));
    }
    while s < kept.len()
        invariant
            s <= kept@.len(),
            kentries == spec_entries_of(kept@),
            spec_entries_of(sorted@) == spec_sort(kentries.take(s as int)),
        decreases kept@.len() - s,
    {
        proof {
            assert(kentries.take(s + 1).drop_last() =~= kentries.take(s as int));
            assert(kentries.take(s + 1).last() == kentries[s as int]);
        }
        let ghost sv = spec_entries_of(sorted@);
        let x = Entry { key: kept[s].key, line: kept[s].line.clone() };
        proof {
            assert(x@ == kentries[s as int]);
        }
        let mut p: usize = sorted.len();
        while p > 0 && sorted[p - 1].key > x.key
            invariant
                p <= sorted@.len(),
                sv == spec_entries_of(sorted@),
                forall|m: int| p <= m < sv.len() ==> sv[m].key > x@.key,
            decreases p,
        {
            p = p - 1;
        }
        proof {
            lemma_insert_shape(sv, x@, p as int);
        }
        let ghost xe = x@;
        sorted.insert(p, x);
        s = s + 1;
        proof {
            assert(spec_entries_of(sorted@) =~= sv.take(p as int).push(xe) + sv.skip(p as int));
            assert(spec_entries_of(sorted@) =~= spec_sort(kentries.take(s as int)));
        }
    }
    proof {
        assert(kentries.take(kept@.len() as int) =~= kentries);
    }
    // Header once, then the sorted lines.
    let mut out: Vec<String> = Vec::new();
    if with_process {
        out.push(h12);
    } else {
        out.push(h11);
    }
    let mut w: usize = 0;
    proof {
        assert(out.deep_view() =~= seq![h]);
    }
    while w < sorted.len()
        invariant
            w <= sorted@.len(),
            out.deep_view() == seq![h] + Seq::new(
                w as nat,
                |i: int| spec_entries_of(sorted@)[i].line,
            ),
        decreases sorted@.len() - w,
    {
        let ghost prev = out.deep_view();
        out.push(sorted[w].line.clone());
        w = w + 1;
        proof {
            assert(out.deep_view() =~= prev.push(spec_entries_of(sorted@)[w - 1].line));
            assert(out.deep_view() =~= seq![h] + Seq::new(
                w as nat,
                |i: int| spec_entries_of(sorted@)[i].line,
            ));
        }
    }
    proof {
        let sortedv = spec_sort(spec_entries(spec_kept_lines(av, ncols as int)));
        assert(Seq::new(sorted@.len() as nat, |i: int| spec_entries_of(sorted@)[i].line) =~= Seq::new(
            sortedv.len(),
            |i: int| sortedv[i].line,
        ));
        assert(out.deep_view() =~= spec_merge(tv, with_process));
    }
    Ok(out)
}

} // verus!
