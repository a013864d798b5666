//! Nested-archive resolution: a source identifier may name a chain of
//! archive memberships, hop by hop, ending in the member whose bytes hold
//! the event-log container.  Any missing intermediate or leaf member fails
//! that one source only.
use vstd::prelude::*;
use crate::text;

verus! {

/// What the archive library yields for a member lookup: the decompressed
/// bytes of the named member of an archive held in the given bytes, or
/// nothing when the bytes are no readable archive, the member is absent, or
/// its extraction fails.  The outcome is a function of the bytes and the
/// name alone.
pub uninterp spec fn spec_zip_member(data: Seq<u8>, name: Seq<char>) -> Option<Seq<u8>>;

/// Relies on `zip::ZipArchive`: `new` over an in-memory cursor parses the
/// archive's central directory, `by_name` finds the member by exact name,
/// and reading it yields its decompressed bytes; any failure along the way
/// becomes `None`.
#[verifier::external_body]
fn read_zip_member(data: &Vec<u8>, name: &str) -> (r: Option<Vec<u8>>)
    ensures
        match r {
            Some(b) => spec_zip_member(data@, name@) == Some(b@),
            None => spec_zip_member(data@, name@) is None,
        },
{
    let cursor = std::io::Cursor::new(data.as_slice());
    let mut archive = match zip::ZipArchive::new(cursor) {
        Ok(a) => a,
        Err(_) => return None,
    };
    let mut member = match archive.by_name(name) {
        Ok(m) => m,
        Err(_) => return None,
    };
    let mut bytes = Vec::new();
    match std::io::Read::read_to_end(&mut member, &mut bytes) {
        Ok(_) => Some(bytes),
        Err(_) => None,
    }
}

/// The hop separator of a source identifier.
pub open spec fn spec_arrow() -> Seq<char> {
    seq![' ', '-', '>', ' ']
}

/// The hops of a source identifier, split on the separator: the first hop
/// is a filesystem path, every later hop a member name.
pub open spec fn spec_split_chain(s: Seq<char>) -> Seq<Seq<char>>
    decreases s.len(),
{
    let f = text::spec_find_seq(s, spec_arrow(), 0);
    if f is Some && 0 <= f->0 && f->0 + 4 <= s.len() {
        seq![s.take(f->0)] + spec_split_chain(s.skip(f->0 + 4))
    } else {
        seq![s]
    }
}

/// Splits a source identifier into its hops.
#[verifier::loop_isolation(false)]
pub fn split_chain(s: &str) -> (r: Vec<String>)
    ensures
        r.deep_view() == spec_split_chain(s@),
        r@.len() >= 1,
{
    let arrow: Vec<char> = vec![' ', '-', '>', ' '];
    proof {
        assert(arrow@ =~= spec_arrow());
    }
    let mut rest = text::chars_of(s);
    let mut done: Vec<String> = Vec::new();
    proof {
        assert(done.deep_view() + spec_split_chain(rest@) =~= spec_split_chain(s@));
    }
    loop
        invariant
            done.deep_view() + spec_split_chain(rest@) =~= spec_split_chain(s@),
            arrow@ == spec_arrow(),
        decreases rest@.len(),
    {
        let ghost prev = done.deep_view();
        let rlen = rest.len();
        proof {
            assert(rlen == rest@.len());
        }
        match text::find_seq(&rest, &arrow, 0) {
            Some(i) => {
                let head = text::take_prefix(&rest, i);
                let tail = text::skip_prefix(&rest, i + 4);
                done.push(text::string_of(&head));
                proof {
                    assert(done.deep_view() =~= prev.push(rest@.take(i as int)));
                    assert(spec_split_chain(rest@) =~= seq![rest@.take(i as int)]
                        + spec_split_chain(rest@.skip(i + 4)));
                    assert(done.deep_view() + spec_split_chain(tail@) =~= spec_split_chain(s@));
                }
                rest = tail;
            },
            None => {
                done.push(text::string_of(&rest));
                proof {
                    assert(spec_split_chain(rest@) =~= seq![rest@]);
                    assert(done.deep_view() =~= prev.push(rest@));
                    assert(done.deep_view() =~= spec_split_chain(s@));
                }
                return done;
            },
        }
    }
}

/// Resolving a member chain: each hop's bytes are looked up inside the
/// previous hop's bytes; a missing hop fails the whole chain.
pub open spec fn spec_resolve_chain(outer: Seq<u8>, hops: Seq<Seq<char>>) -> Option<Seq<u8>>
    decreases hops.len(),
{
    if hops.len() == 0 {
        Some(outer)
    } else {
        match spec_zip_member(outer, hops[0]) {
            Some(b) => spec_resolve_chain(b, hops.drop_first()),
            None => None,
        }
    }
}

/// Resolves a chain of member names against the bytes of the outermost
/// archive, hop by hop, each hop's archive held fully in memory; `None`
/// exactly when some hop cannot be found or read, which fails this one
/// source and no other.
#[verifier::loop_isolation(false)]
pub fn resolve_chain(outer: Vec<u8>, hops: &Vec<String>) -> (r: Option<Vec<u8>>)
    ensures
        match r {
            Some(b) => spec_resolve_chain(outer@, hops.deep_view()) == Some(b@),
            None => spec_resolve_chain(outer@, hops.deep_view()) is None,
        },
{
    let ghost hv = hops.deep_view();
    let mut cur = outer;
    let mut i: usize = 0;
    proof {
        assert(hv.skip(0) =~= hv);
    }
    while i < hops.len()
        invariant
            i <= hops@.len(),
            hv == hops.deep_view(),
            spec_resolve_chain(cur@, hv.skip(i as int)) == spec_resolve_chain(outer@, hv),
        decreases hops@.len() - i,
    {
        proof {
            assert(hv.skip(i as int)[0] == hv[i as int]);
            assert(hv.skip(i as int).drop_first() =~= hv.skip(i + 1));
        }
        match read_zip_member(&cur, hops[i].as_str()) {
            Some(b) => {
                cur = b;
            },
            None => {
                return None;
            },
        }
        i = i + 1;
    }
    proof {
        assert(hv.skip(hops@.len() as int) =~= Seq::<Seq<char>>::empty());
    }
    Some(cur)
}

} // verus!
