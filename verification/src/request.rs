//! The incoming request as the routing core sees it: method, decoded
//! path, and ordered header and query multimaps. Repeated keys are
//! kept; lookups take the first occurrence.

use vstd::prelude::*;

verus! {

/// A decoded request, consumed read-only by resolution and binding.
#[derive(Clone, Debug)]
pub struct IncomingRequest {
    pub method: String,
    pub path: String,
    pub headers: Vec<(String, String)>,
    pub query: Vec<(String, String)>,
}

/// The value of the first entry with the given key, if any.
pub open spec fn first_value(entries: Seq<(Seq<char>, Seq<char>)>, name: Seq<char>) -> Option<
    Seq<char>,
>
    decreases entries.len(),
{
    if entries.len() == 0 {
        None
    } else if entries[0].0 == name {
        Some(entries[0].1)
    } else {
        first_value(entries.skip(1), name)
    }
}

/// Looks up the first entry with the given key in an ordered multimap.
pub fn lookup_first(entries: &Vec<(String, String)>, name: &String) -> (r: Option<String>)
    ensures
        match r {
            Some(v) => first_value(entries.deep_view(), name@) == Some(v@),
            None => first_value(entries.deep_view(), name@) is None,
        },
{
    let ghost ev = entries.deep_view();
    proof {
        assert(ev.skip(0) =~= ev);
    }
    let n = entries.len();
    let mut i: usize = 0;
    while i < n
        invariant
            i <= n,
            n == entries@.len(),
            ev == entries.deep_view(),
            first_value(ev, name@) == first_value(ev.skip(i as int), name@),
        decreases n - i,
    {
        proof {
            assert(ev.skip(i as int)[0] == ev[i as int]);
            assert(ev[i as int] == (entries@[i as int].0@, entries@[i as int].1@));
        }
        if entries[i].0.eq(name) {
            let v = entries[i].1.clone();
            return Some(v);
        }
        proof {
            assert(ev.skip(i as int).skip(1) =~= ev.skip(i + 1));
        }
        i += 1;
    }
    proof {
        assert(ev.skip(n as int) =~= Seq::<(Seq<char>, Seq<char>)>::empty());
    }
    None
}

} // verus!
