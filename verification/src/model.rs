//! The canonical event schema shared by every source decoder, and the edge
//! types produced by the correlation engine.
use vstd::prelude::*;

verus! {

/// Ghost image of a canonical event: one character sequence per column.
pub ghost struct EventV {
    pub time: Seq<char>,
    pub dst_host: Seq<char>,
    pub event_kind: Seq<char>,
    pub subject_user: Seq<char>,
    pub subject_domain: Seq<char>,
    pub target_user: Seq<char>,
    pub target_domain: Seq<char>,
    pub logon_kind: Seq<char>,
    pub src_host: Seq<char>,
    pub src_ip: Seq<char>,
    pub process: Seq<char>,
    pub provenance: Seq<char>,
}

/// One authentication or connection observation in the canonical schema.
///
/// Every field is a defined string: absence is the empty string, never a
/// missing value, so keying, concatenation and tabular output are always
/// well-formed.
pub struct CanonicalEvent {
    pub time: String,
    pub dst_host: String,
    pub event_kind: String,
    pub subject_user: String,
    pub subject_domain: String,
    pub target_user: String,
    pub target_domain: String,
    pub logon_kind: String,
    pub src_host: String,
    pub src_ip: String,
    pub process: String,
    pub provenance: String,
}

impl View for CanonicalEvent {
    type V = EventV;

    open spec fn view(&self) -> EventV {
        EventV {
            time: self.time@,
            dst_host: self.dst_host@,
            event_kind: self.event_kind@,
            subject_user: self.subject_user@,
            subject_domain: self.subject_domain@,
            target_user: self.target_user@,
            target_domain: self.target_domain@,
            logon_kind: self.logon_kind@,
            src_host: self.src_host@,
            src_ip: self.src_ip@,
            process: self.process@,
            provenance: self.provenance@,
        }
    }
}

/// The canonical column order of a serialized event row, with the optional
/// `process` column.
pub open spec fn spec_row_of_event(e: EventV) -> Seq<Seq<char>> {
    seq![
        e.time,
        e.dst_host,
        e.event_kind,
        e.subject_user,
        e.subject_domain,
        e.target_user,
        e.target_domain,
        e.logon_kind,
        e.src_host,
        e.src_ip,
        e.process,
        e.provenance,
    ]
}

impl CanonicalEvent {
    /// Serializes the event into the canonical twelve-column row.
    pub fn to_row(&self) -> (r: Vec<String>)
        ensures
            r.deep_view() == spec_row_of_event(self@),
    {
        let mut r: Vec<String> = Vec::new();
        r.push(self.time.clone());
        r.push(self.dst_host.clone());
        r.push(self.event_kind.clone());
        r.push(self.subject_user.clone());
        r.push(self.subject_domain.clone());
        r.push(self.target_user.clone());
        r.push(self.target_domain.clone());
        r.push(self.logon_kind.clone());
        r.push(self.src_host.clone());
        r.push(self.src_ip.clone());
        r.push(self.process.clone());
        r.push(self.provenance.clone());
        proof {
            assert(r.deep_view() =~~= spec_row_of_event(self@));
        }
        r
    }
}

/// The canonical header line of the eleven-column table variant, which omits
/// the `process` column.
pub open spec fn spec_header11() -> Seq<char> {
    "time_created,dst_computer,event_id,subject_user_name,subject_domain_name,target_user_name,target_domain_name,logon_type,src_computer,src_ip,log_filename"@
}

/// The canonical header line of the twelve-column table variant.
pub open spec fn spec_header12() -> Seq<char> {
    "time_created,dst_computer,event_id,subject_user_name,subject_domain_name,target_user_name,target_domain_name,logon_type,src_computer,src_ip,process,log_filename"@
}

/// The eleven-column canonical header line.
pub fn header11() -> (s: String)
    ensures
        s@ == spec_header11(),
{
    String::from_str(
        "time_created,dst_computer,event_id,subject_user_name,subject_domain_name,target_user_name,target_domain_name,logon_type,src_computer,src_ip,log_filename",
    )
}

/// The twelve-column canonical header line.
pub fn header12() -> (s: String)
    ensures
        s@ == spec_header12(),
{
    String::from_str(
        "time_created,dst_computer,event_id,subject_user_name,subject_domain_name,target_user_name,target_domain_name,logon_type,src_computer,src_ip,process,log_filename",
    )
}

/// Ghost image of an edge key.
pub ghost struct KeyV {
    pub dst_host: Seq<char>,
    pub subject_user: Seq<char>,
    pub subject_domain: Seq<char>,
    pub target_user: Seq<char>,
    pub target_domain: Seq<char>,
    pub logon_kind: Seq<char>,
    pub src_host: Seq<char>,
    pub src_ip: Seq<char>,
}

/// The eight canonical fields that define relationship identity: two events
/// with equal keys describe the same logical host-to-host relationship.
pub struct EdgeKey {
    pub dst_host: String,
    pub subject_user: String,
    pub subject_domain: String,
    pub target_user: String,
    pub target_domain: String,
    pub logon_kind: String,
    pub src_host: String,
    pub src_ip: String,
}

impl View for EdgeKey {
    type V = KeyV;

    open spec fn view(&self) -> KeyV {
        KeyV {
            dst_host: self.dst_host@,
            subject_user: self.subject_user@,
            subject_domain: self.subject_domain@,
            target_user: self.target_user@,
            target_domain: self.target_domain@,
            logon_kind: self.logon_kind@,
            src_host: self.src_host@,
            src_ip: self.src_ip@,
        }
    }
}

impl EdgeKey {
    /// Structural equality of two keys, decided field by field.
    pub fn same_key(&self, other: &EdgeKey) -> (r: bool)
        ensures
            r == (self@ == other@),
    {
        let r = self.dst_host == other.dst_host && self.subject_user == other.subject_user
            && self.subject_domain == other.subject_domain && self.target_user
            == other.target_user && self.target_domain == other.target_domain && self.logon_kind
            == other.logon_kind && self.src_host == other.src_host && self.src_ip == other.src_ip;
        r
    }

    /// A field-for-field copy of the key.
    pub fn clone_key(&self) -> (r: EdgeKey)
        ensures
            r@ == self@,
    {
        EdgeKey {
            dst_host: self.dst_host.clone(),
            subject_user: self.subject_user.clone(),
            subject_domain: self.subject_domain.clone(),
            target_user: self.target_user.clone(),
            target_domain: self.target_domain.clone(),
            logon_kind: self.logon_kind.clone(),
            src_host: self.src_host.clone(),
            src_ip: self.src_ip.clone(),
        }
    }
}

/// Ghost image of an aggregated edge.
pub ghost struct AggEdgeV {
    pub key: KeyV,
    pub earliest_time: Seq<char>,
    pub count: u64,
}

/// One edge key together with the earliest time observed for it and the
/// number of occurrences.  Times are compared as raw strings, which is valid
/// only while all inputs share one zero-padded, lexicographically sortable
/// timestamp format.
pub struct AggregatedEdge {
    pub key: EdgeKey,
    pub earliest_time: String,
    pub count: u64,
}

impl View for AggregatedEdge {
    type V = AggEdgeV;

    open spec fn view(&self) -> AggEdgeV {
        AggEdgeV { key: self.key@, earliest_time: self.earliest_time@, count: self.count }
    }
}

/// Stable insertion of an event by its raw time string: the new event goes
/// after every event whose time is not greater.
pub open spec fn spec_insert_event(es: Seq<EventV>, x: EventV) -> Seq<EventV>
    decreases es.len(),
{
    if es.len() == 0 {
        seq![x]
    } else if !crate::correlate::spec_lt(x.time, es.last().time) {
        es.push(x)
    } else {
        spec_insert_event(es.drop_last(), x).push(es.last())
    }
}

/// Stable insertion sort of events by raw time string, left to right; the
/// shared ordering step of every table producer.
pub open spec fn spec_sort_events(es: Seq<EventV>) -> Seq<EventV>
    decreases es.len(),
{
    if es.len() == 0 {
        Seq::empty()
    } else {
        spec_insert_event(spec_sort_events(es.drop_last()), es.last())
    }
}

/// No event's time is below an earlier event's time.
pub open spec fn spec_events_sorted(es: Seq<EventV>) -> bool {
    forall|i: int, j: int|
        0 <= i < j < es.len() ==> !crate::correlate::spec_lt(es[j].time, es[i].time)
}

/// Inserting into a time-sorted sequence keeps it time-sorted.
proof fn lemma_insert_event_sorted(es: Seq<EventV>, x: EventV)
    requires
        spec_events_sorted(es),
    ensures
        spec_events_sorted(spec_insert_event(es, x)),
    decreases es.len(),
{
    let r = spec_insert_event(es, x);
    if es.len() == 0 {
    } else if !crate::correlate::spec_lt(x.time, es.last().time) {
        assert forall|i: int, j: int| 0 <= i < j < r.len() implies !crate::correlate::spec_lt(
            r[j].time,
            r[i].time,
        ) by {
            if j == es.len() && crate::correlate::spec_lt(x.time, es[i].time) {
                crate::correlate::lemma_lt_le_trans(x.time, es[i].time, es.last().time);
            }
        }
    } else {
        assert(spec_events_sorted(es.drop_last()));
        lemma_insert_event_sorted(es.drop_last(), x);
        let rr = spec_insert_event(es.drop_last(), x);
        assert forall|i: int, j: int| 0 <= i < j < r.len() implies !crate::correlate::spec_lt(
            r[j].time,
            r[i].time,
        ) by {
            if j == r.len() - 1 {
                assert(r[j] == es.last());
                if crate::correlate::spec_lt(es.last().time, rr[i].time) {
                    lemma_insert_event_elem(es.drop_last(), x, i);
                    if rr[i] == x {
                        crate::correlate::lemma_lt_asym(x.time, es.last().time);
                    } else {
                        let m = choose|m: int|
                            0 <= m < es.len() - 1 && es.drop_last()[m] == rr[i];
                        assert(!crate::correlate::spec_lt(es.last().time, es[m].time));
                    }
                }
            }
        }
    }
}

/// Every entry of an insertion is the inserted event or one of the old
/// ones.
proof fn lemma_insert_event_elem(es: Seq<EventV>, x: EventV, i: int)
    requires
        0 <= i < spec_insert_event(es, x).len(),
    ensures
        spec_insert_event(es, x)[i] == x || es.contains(spec_insert_event(es, x)[i]),
    decreases es.len(),
{
    let r = spec_insert_event(es, x);
    if es.len() == 0 {
    } else if !crate::correlate::spec_lt(x.time, es.last().time) {
        if i < es.len() {
            assert(es[i] == r[i]);
        }
    } else {
        if i == r.len() - 1 {
            assert(es[es.len() - 1] == r[i]);
        } else {
            lemma_insert_event_elem(es.drop_last(), x, i);
            if es.drop_last().contains(r[i]) {
                let m = choose|m: int| 0 <= m < es.len() - 1 && es.drop_last()[m] == r[i];
                assert(es[m] == r[i]);
            }
        }
    }
}

/// The output sort is ascending: no event's time is below an earlier
/// event's time in what `sort_events` yields.
pub proof fn lemma_sort_events_sorted(es: Seq<EventV>)
    ensures
        spec_events_sorted(spec_sort_events(es)),
    decreases es.len(),
{
    if es.len() > 0 {
        lemma_sort_events_sorted(es.drop_last());
        lemma_insert_event_sorted(spec_sort_events(es.drop_last()), es.last());
    }
}

/// The predicate of events carrying one time string.
pub open spec fn spec_same_time(t: Seq<char>) -> spec_fn(EventV) -> bool {
    |e: EventV| e.time == t
}

/// Insertion appends the new event to its own time's subsequence and leaves
/// every other time's subsequence intact.
proof fn lemma_insert_event_filter(es: Seq<EventV>, x: EventV, t: Seq<char>)
    ensures
        spec_insert_event(es, x).filter(spec_same_time(t)) == if x.time == t {
            es.filter(spec_same_time(t)).push(x)
        } else {
            es.filter(spec_same_time(t))
        },
    decreases es.len(),
{
    reveal(Seq::filter);
    if es.len() == 0 {
        assert(spec_insert_event(es, x).drop_last() =~= es);
        assert(spec_insert_event(es, x).last() == x);
        assert(es.filter(spec_same_time(t)) =~= es);
    } else if !crate::correlate::spec_lt(x.time, es.last().time) {
        assert(es.push(x).drop_last() =~= es);
        assert(es.push(x).last() == x);
    } else {
        crate::correlate::lemma_lt_irrefl(t);
        lemma_insert_event_filter(es.drop_last(), x, t);
        let r = spec_insert_event(es.drop_last(), x);
        assert(r.push(es.last()).drop_last() =~= r);
        assert(r.push(es.last()).last() == es.last());
    }
}

/// Stability of the output sort: for every time string, the events carrying
/// it stand in the sorted sequence exactly in their input order.
pub proof fn lemma_sort_events_stable(es: Seq<EventV>, t: Seq<char>)
    ensures
        spec_sort_events(es).filter(spec_same_time(t)) == es.filter(spec_same_time(t)),
    decreases es.len(),
{
    reveal(Seq::filter);
    if es.len() > 0 {
        lemma_sort_events_stable(es.drop_last(), t);
        lemma_insert_event_filter(spec_sort_events(es.drop_last()), es.last(), t);
    }
}

/// The shape of a stable event insertion at the scanned position.
proof fn lemma_insert_event_shape(es: Seq<EventV>, x: EventV, p: int)
    requires
        0 <= p <= es.len(),
        forall|m: int| p <= m < es.len() ==> crate::correlate::spec_lt(x.time, (#[trigger] es[m]).time),
        p > 0 ==> !crate::correlate::spec_lt(x.time, es[p - 1].time),
    ensures
        spec_insert_event(es, x) == es.take(p).push(x) + es.skip(p),
    decreases es.len(),
{
    if es.len() == 0 {
        assert(spec_insert_event(es, x) =~= es.take(p).push(x) + es.skip(p));
    } else if p == es.len() {
        assert(!crate::correlate::spec_lt(x.time, es.last().time));
        assert(es.push(x) =~= es.take(p).push(x) + es.skip(p));
    } else {
        assert(crate::correlate::spec_lt(x.time, es[es.len() - 1].time));
        let dl = es.drop_last();
        assert(forall|m: int|
            p <= m < dl.len() ==> crate::correlate::spec_lt(x.time, (#[trigger] dl[m]).time));
        if p > 0 {
            assert(dl[p - 1] == es[p - 1]);
        }
        lemma_insert_event_shape(dl, x, p);
        assert(spec_insert_event(es, x) == spec_insert_event(dl, x).push(es.last()));
        assert((dl.take(p).push(x) + dl.skip(p)).push(es.last()) =~= es.take(p).push(x) + es.skip(
            p,
        ));
    }
}

/// Sorts events ascending by their raw time string, stably.
#[verifier::loop_isolation(false)]
pub fn sort_events(evs: Vec<CanonicalEvent>) -> (r: Vec<CanonicalEvent>)
    ensures
        Seq::new(r@.len(), |i: int| r@[i]@) == spec_sort_events(
            Seq::new(evs@.len(), |i: int| evs@[i]@),
        ),
{
    let ghost ev = Seq::new(evs@.len(), |i: int| evs@[i]@);
    let mut out: Vec<CanonicalEvent> = Vec::new();
    let mut src = evs;
    let mut s: usize = 0;
    proof {
        assert(ev.take(0) =~= Seq::<EventV>::empty());
        assert(Seq::new(out@.len(), |i: int| out@[i]@) =~= spec_sort_events(ev.take(0)));
    }
    while s < src.len()
        invariant
            s <= src@.len(),
            ev == Seq::new(src@.len(), |i: int| src@[i]@),
            Seq::new(out@.len(), |i: int| out@[i]@) == spec_sort_events(ev.take(s as int)),
        decreases src@.len() - s,
    {
        proof {
            assert(ev.take(s + 1).drop_last() =~= ev.take(s as int));
            assert(ev.take(s + 1).last() == ev[s as int]);
        }
        let ghost sv = Seq::new(out@.len(), |i: int| out@[i]@);
        let xt = crate::text::chars_of(src[s].time.as_str());
        let mut p: usize = out.len();
        while p > 0 && crate::correlate::lt_chars(&xt, &crate::text::chars_of(
            out[p - 1].time.as_str(),
        ))
            invariant
                p <= out@.len(),
                s < src@.len(),
                xt@ == src@[s as int].time@,
                sv == Seq::new(out@.len(), |i: int| out@[i]@),
                forall|m: int|
                    p <= m < sv.len() ==> crate::correlate::spec_lt(
                        ev[s as int].time,
                        (#[trigger] sv[m]).time,
                    ),
            decreases p,
        {
            p = p - 1;
        }
        proof {
            lemma_insert_event_shape(sv, ev[s as int], p as int);
        }
        let x = CanonicalEvent {
            time: src[s].time.clone(),
            dst_host: src[s].dst_host.clone(),
            event_kind: src[s].event_kind.clone(),
            subject_user: src[s].subject_user.clone(),
            subject_domain: src[s].subject_domain.clone(),
            target_user: src[s].target_user.clone(),
            target_domain: src[s].target_domain.clone(),
            logon_kind: src[s].logon_kind.clone(),
            src_host: src[s].src_host.clone(),
            src_ip: src[s].src_ip.clone(),
            process: src[s].process.clone(),
            provenance: src[s].provenance.clone(),
        };
        proof {
            assert(x@ == ev[s as int]);
        }
        out.insert(p, x);
        s = s + 1;
        proof {
            assert(Seq::new(out@.len(), |i: int| out@[i]@) =~= sv.take(p as int).push(ev[s - 1])
                + sv.skip(p as int));
            assert(Seq::new(out@.len(), |i: int| out@[i]@) =~= spec_sort_events(ev.take(s as int)));
        }
    }
    proof {
        assert(ev.take(src@.len() as int) =~= ev);
    }
    out
}

} // verus!
