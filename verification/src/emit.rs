//! Edge emission: identifier sanitization, relation-type derivation, and
//! construction of idempotent graph upsert operations.
use vstd::prelude::*;
use crate::model::AggregatedEdge;
use crate::text;

verus! {

/// The sanitized form of one identifier character: dots, dashes and spaces
/// become underscores.
pub open spec fn spec_sanitize_char(c: char) -> char {
    if c == '.' || c == '-' || c == ' ' {
        '_'
    } else {
        c
    }
}

/// Identifier sanitization: replace `.`, `-` and space with `_`, then
/// truncate at the first `@` to drop a user-principal-name domain suffix.
pub open spec fn spec_sanitize(s: Seq<char>) -> Seq<char> {
    text::spec_before_char(s.map_values(|c: char| spec_sanitize_char(c)), '@')
}

/// Sanitizes one identifier for a node or relationship-type position.
pub fn sanitize_identifier(s: &str) -> (r: String)
    ensures
        r@ == spec_sanitize(s@),
{
    let v = text::chars_of(s);
    let mut m: Vec<char> = Vec::new();
    let mut i: usize = 0;
    while i < v.len()
        invariant
            i <= v@.len(),
            m@ == v@.take(i as int).map_values(|c: char| spec_sanitize_char(c)),
        decreases v@.len() - i,
    {
        let c = v[i];
        if c == '.' || c == '-' || c == ' ' {
            m.push('_');
        } else {
            m.push(c);
        }
        i = i + 1;
        proof {
            assert(m@ =~= v@.take(i as int).map_values(|c: char| spec_sanitize_char(c)));
        }
    }
    proof {
        assert(v@.take(v@.len() as int) =~= v@);
    }
    let t = text::before_char(&m, '@');
    text::string_of(&t)
}

/// The quoted-empty placeholder: a string of exactly two double-quote
/// characters.
pub open spec fn spec_quoted_empty() -> Seq<char> {
    seq!['"', '"']
}

/// The relation type derived from a logon kind: sanitized, `NO_USER` when
/// empty or the quoted-empty placeholder, and prefixed with `u` when it
/// would begin with a digit, since graph identifiers cannot begin with one.
pub open spec fn spec_relation_type(logon_kind: Seq<char>) -> Seq<char> {
    let s = spec_sanitize(logon_kind);
    if s.len() == 0 || s == spec_quoted_empty() {
        seq!['N', 'O', '_', 'U', 'S', 'E', 'R']
    } else if '0' <= s[0] && s[0] <= '9' {
        seq!['u'] + s
    } else {
        s
    }
}

/// Derives the relationship type for one edge from its logon kind.
pub fn relation_type(logon_kind: &str) -> (r: String)
    ensures
        r@ == spec_relation_type(logon_kind@),
{
    let s = sanitize_identifier(logon_kind);
    let sv = text::chars_of(s.as_str());
    if sv.len() == 0 || (sv.len() == 2 && sv[0] == '"' && sv[1] == '"') {
        proof {
            reveal_strlit("NO_USER");
            if sv@.len() == 2 {
                assert(sv@ =~= spec_quoted_empty());
            }
        }
        return String::from_str("NO_USER");
    }
    proof {
        if sv@ == spec_quoted_empty() {
            assert(sv@.len() == 2 && sv@[0] == '"' && sv@[1] == '"');
        }
    }
    let c0 = sv[0];
    if '0' <= c0 && c0 <= '9' {
        let mut out: Vec<char> = Vec::new();
        out.push('u');
        let mut i: usize = 0;
        while i < sv.len()
            invariant
                i <= sv@.len(),
                out@ == seq!['u'] + sv@.take(i as int),
            decreases sv@.len() - i,
        {
            out.push(sv[i]);
            i = i + 1;
            proof {
                assert(out@ =~= seq!['u'] + sv@.take(i as int));
            }
        }
        proof {
            assert(sv@.take(sv@.len() as int) =~= sv@);
        }
        text::string_of(&out)
    } else {
        s
    }
}

/// The time property carried on a relationship: a trailing `" utc"` marker is
/// stripped and every remaining space becomes `T`, forming a parseable
/// timestamp.
pub open spec fn spec_time_property(t: Seq<char>) -> Seq<char> {
    let base = if t.len() >= 4 && t.subrange(t.len() - 4, t.len() as int) == seq![
        ' ',
        'u',
        't',
        'c',
    ] {
        t.take(t.len() - 4)
    } else {
        t
    };
    base.map_values(|c: char| if c == ' ' {
        'T'
    } else {
        c
    })
}

/// Renders the time property of a relationship.
pub fn time_property(t: &str) -> (r: String)
    ensures
        r@ == spec_time_property(t@),
{
    let v = text::chars_of(t);
    let n = v.len();
    let base: Vec<char> = if n >= 4 {
        let c1 = v[n - 4];
        let c2 = v[n - 3];
        let c3 = v[n - 2];
        let c4 = v[n - 1];
        if c1 == ' ' && c2 == 'u' && c3 == 't' && c4 == 'c' {
            proof {
                assert(v@.subrange(v@.len() - 4, v@.len() as int) =~= seq![' ', 'u', 't', 'c']);
            }
            text::take_prefix(&v, n - 4)
        } else {
            proof {
                assert(v@.subrange(v@.len() - 4, v@.len() as int) != seq![' ', 'u', 't', 'c']);
            }
            v
        }
    } else {
        v
    };
    let mut out: Vec<char> = Vec::new();
    let mut i: usize = 0;
    while i < base.len()
        invariant
            i <= base@.len(),
            out@ == base@.take(i as int).map_values(|c: char| if c == ' ' {
                'T'
            } else {
                c
            }),
        decreases base@.len() - i,
    {
        let c = base[i];
        if c == ' ' {
            out.push('T');
        } else {
            out.push(c);
        }
        i = i + 1;
        proof {
            assert(out@ =~= base@.take(i as int).map_values(|c: char| if c == ' ' {
                'T'
            } else {
                c
            }));
        }
    }
    proof {
        assert(base@.take(base@.len() as int) =~= base@);
    }
    text::string_of(&out)
}

/// Ghost image of an upsert operation.
pub ghost struct UpsertOpV {
    pub origin: Seq<char>,
    pub destination: Seq<char>,
    pub rel_type: Seq<char>,
    pub time: Seq<char>,
    pub logon_kind: Seq<char>,
    pub src_host: Seq<char>,
    pub src_ip: Seq<char>,
    pub target_user: Seq<char>,
    pub target_domain: Seq<char>,
    pub subject_user: Seq<char>,
    pub subject_domain: Seq<char>,
    pub count: u64,
}

/// One idempotent graph upsert: get-or-create both endpoint nodes, then
/// get-or-create the relationship instance keyed by all its properties.
pub struct UpsertOp {
    pub origin: String,
    pub destination: String,
    pub rel_type: String,
    pub time: String,
    pub logon_kind: String,
    pub src_host: String,
    pub src_ip: String,
    pub target_user: String,
    pub target_domain: String,
    pub subject_user: String,
    pub subject_domain: String,
    pub count: u64,
}

impl View for UpsertOp {
    type V = UpsertOpV;

    open spec fn view(&self) -> UpsertOpV {
        UpsertOpV {
            origin: self.origin@,
            destination: self.destination@,
            rel_type: self.rel_type@,
            time: self.time@,
            logon_kind: self.logon_kind@,
            src_host: self.src_host@,
            src_ip: self.src_ip@,
            target_user: self.target_user@,
            target_domain: self.target_domain@,
            subject_user: self.subject_user@,
            subject_domain: self.subject_domain@,
            count: self.count,
        }
    }
}

impl UpsertOp {
    /// Structural equality of two operations: this is the identity the sink
    /// deduplicates on.
    pub fn same_op(&self, other: &UpsertOp) -> (r: bool)
        ensures
            r == (self@ == other@),
    {
        self.origin == other.origin && self.destination == other.destination && self.rel_type
            == other.rel_type && self.time == other.time && self.logon_kind == other.logon_kind
            && self.src_host == other.src_host && self.src_ip == other.src_ip && self.target_user
            == other.target_user && self.target_domain == other.target_domain && self.subject_user
            == other.subject_user && self.subject_domain == other.subject_domain && self.count
            == other.count
    }
}

/// The upsert operation for one aggregated edge whose displayed origin has
/// already been resolved to `origin`.
pub open spec fn spec_op_of_edge(origin: Seq<char>, e: crate::model::AggEdgeV) -> UpsertOpV {
    UpsertOpV {
        origin: spec_sanitize(origin),
        destination: spec_sanitize(e.key.dst_host),
        rel_type: spec_relation_type(e.key.logon_kind),
        time: spec_time_property(e.earliest_time),
        logon_kind: e.key.logon_kind,
        src_host: e.key.src_host,
        src_ip: e.key.src_ip,
        target_user: e.key.target_user,
        target_domain: e.key.target_domain,
        subject_user: e.key.subject_user,
        subject_domain: e.key.subject_domain,
        count: e.count,
    }
}

/// Builds the upsert operation for one aggregated edge.  The same edge and
/// origin always yield the same operation, which is what makes re-emission
/// harmless at the sink.
pub fn op_of_edge(origin: &str, e: &AggregatedEdge) -> (r: UpsertOp)
    ensures
        r@ == spec_op_of_edge(origin@, e@),
{
    UpsertOp {
        origin: sanitize_identifier(origin),
        destination: sanitize_identifier(e.key.dst_host.as_str()),
        rel_type: relation_type(e.key.logon_kind.as_str()),
        time: time_property(e.earliest_time.as_str()),
        logon_kind: e.key.logon_kind.clone(),
        src_host: e.key.src_host.clone(),
        src_ip: e.key.src_ip.clone(),
        target_user: e.key.target_user.clone(),
        target_domain: e.key.target_domain.clone(),
        subject_user: e.key.subject_user.clone(),
        subject_domain: e.key.subject_domain.clone(),
        count: e.count,
    }
}

} // verus!
