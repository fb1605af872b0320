//! Splitting a request path (or a pattern text) on `/` into segments.
//! No normalization is applied: leading, trailing and doubled slashes
//! all produce empty segments.

use vstd::prelude::*;

verus! {

/// The segments of `s` split on `/`: the unique sequence of `/`-free
/// parts whose interleaving with `/` re-forms `s`. Splitting never
/// yields an empty sequence; the empty string splits into one empty
/// segment.
pub open spec fn split_path_spec(s: Seq<char>) -> Seq<Seq<char>>
    decreases s.len(),
{
    if s.len() == 0 {
        seq![Seq::<char>::empty()]
    } else if s[0] == '/' {
        seq![Seq::<char>::empty()] + split_path_spec(s.skip(1))
    } else {
        let rest = split_path_spec(s.skip(1));
        seq![seq![s[0]] + rest[0]] + rest.skip(1)
    }
}

pub proof fn lemma_split_path_len(s: Seq<char>)
    ensures
        split_path_spec(s).len() >= 1,
    decreases s.len(),
{
    if s.len() > 0 {
        lemma_split_path_len(s.skip(1));
    }
}

/// Splits `s` on `/`. The result holds at least one element and is
/// exactly `split_path_spec(s@)`.
pub fn split_path(s: &str) -> (r: Vec<String>)
    ensures
        r.deep_view() == split_path_spec(s@),
        r.len() >= 1,
    decreases s@.len(),
{
    let n = s.unicode_len();
    if n == 0 {
        let mut v: Vec<String> = Vec::new();
        v.push(String::new());
        proof {
            assert(v.deep_view() =~~= split_path_spec(s@));
        }
        v
    } else {
        let c = s.get_char(0);
        let rest = s.substring_char(1, n);
        proof {
            assert(rest@ =~= s@.skip(1));
        }
        let mut r = split_path(rest);
        proof {
            lemma_split_path_len(rest@);
            assert(r.deep_view().len() == r@.len());
        }
        if c == '/' {
            r.insert(0, String::new());
            proof {
                assert(r.deep_view() =~~= split_path_spec(s@));
            }
            r
        } else {
            let first = r.remove(0);
            let head = s.substring_char(0, 1);
            proof {
                assert(head@ =~= seq![s@[0]]);
            }
            let new_first = head.to_owned().concat(first.as_str());
            r.insert(0, new_first);
            proof {
                assert(r.deep_view() =~~= split_path_spec(s@));
            }
            r
        }
    }
}

} // verus!
