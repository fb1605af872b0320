//! Route path patterns: an ordered sequence of segments, each a
//! literal or a named capture, compiled from a textual form such as
//! `/person/{id}/comments/{comment_id}` and matched against a concrete
//! request path.

use vstd::prelude::*;
use crate::chars::{is_ident_char, is_ident_char_exec};
use crate::split::{split_path, split_path_spec};

verus! {

/// One `/`-delimited unit of a pattern: literal text that the request
/// segment must equal exactly, or a named capture that matches any
/// non-empty segment.
#[derive(Clone, Debug)]
pub enum Segment {
    Literal(String),
    Named(String),
}

/// A compiled route pattern with a fixed segment count.
#[derive(Clone, Debug)]
pub struct RoutePattern {
    pub segments: Vec<Segment>,
}

/// The error of `RoutePattern::compile`: a named segment's name is
/// empty, holds a character outside the identifier alphabet, or is
/// duplicated within the pattern.
#[derive(Clone, Copy, Debug, PartialEq, Eq, Structural)]
pub struct InvalidPatternError;

/// A valid capture name: non-empty, all characters in `[A-Za-z0-9_]`.
pub open spec fn seg_name_valid(name: Seq<char>) -> bool {
    name.len() > 0 && forall|i: int| 0 <= i < name.len() ==> is_ident_char(#[trigger] name[i])
}

/// A part of the pattern text that declares a named capture: `{name}`.
pub open spec fn is_named_part(p: Seq<char>) -> bool {
    p.len() >= 2 && p[0] == '{' && p[p.len() - 1] == '}'
}

/// The name inside a `{name}` part.
pub open spec fn part_name(p: Seq<char>) -> Seq<char> {
    p.subrange(1, p.len() - 1)
}

/// How one compiled segment corresponds to one part of the pattern
/// text.
pub open spec fn seg_of_part(seg: Segment, p: Seq<char>) -> bool {
    if is_named_part(p) {
        seg matches Segment::Named(n) && n@ == part_name(p)
    } else {
        seg matches Segment::Literal(t) && t@ == p
    }
}

/// The compiled segments correspond position-wise to the split pattern
/// text.
pub open spec fn segs_of_parts(segs: Seq<Segment>, parts: Seq<Seq<char>>) -> bool {
    segs.len() == parts.len() && forall|i: int|
        0 <= i < segs.len() ==> #[trigger] seg_of_part(segs[i], parts[i])
}

/// The split pattern text is well formed: every named part carries a
/// valid name and no two named parts carry the same name.
pub open spec fn pattern_text_valid(parts: Seq<Seq<char>>) -> bool {
    (forall|i: int|
        0 <= i < parts.len() && is_named_part(#[trigger] parts[i]) ==> seg_name_valid(
            part_name(parts[i]),
        )) && (forall|i: int, j: int|
        0 <= i < j < parts.len() && is_named_part(#[trigger] parts[i]) && is_named_part(
            #[trigger] parts[j],
        ) ==> part_name(parts[i]) != part_name(parts[j]))
}

/// Well-formedness of a compiled pattern: every capture name is valid
/// and capture names are pairwise distinct.
pub open spec fn pattern_wf(segs: Seq<Segment>) -> bool {
    (forall|i: int|
        0 <= i < segs.len() ==> (#[trigger] segs[i] matches Segment::Named(n) ==> seg_name_valid(
            n@,
        ))) && (forall|i: int, j: int|
        0 <= i < j < segs.len() && #[trigger] segs[i] is Named && #[trigger] segs[j] is Named
            ==> segs[i]->Named_0@ != segs[j]->Named_0@)
}

/// One segment against one request-path part: a literal must equal it
/// exactly, a named capture takes any non-empty part.
pub open spec fn seg_matches(seg: Segment, part: Seq<char>) -> bool {
    match seg {
        Segment::Literal(t) => t@ == part,
        Segment::Named(_) => part.len() > 0,
    }
}

/// A pattern matches a split path when the counts agree and every
/// segment matches its part.
pub open spec fn pattern_matches(segs: Seq<Segment>, parts: Seq<Seq<char>>) -> bool {
    segs.len() == parts.len() && forall|i: int|
        0 <= i < segs.len() ==> #[trigger] seg_matches(segs[i], parts[i])
}

/// The ordered name-to-value mapping that a match yields: one entry
/// per named segment, in pattern order, valued by the part at the same
/// position.
pub open spec fn captures_of(segs: Seq<Segment>, parts: Seq<Seq<char>>) -> Seq<
    (Seq<char>, Seq<char>),
>
    decreases segs.len(),
{
    if segs.len() == 0 {
        Seq::empty()
    } else {
        let init = captures_of(segs.drop_last(), parts.drop_last());
        match segs.last() {
            Segment::Named(n) => init + seq![(n@, parts.last())],
            Segment::Literal(_) => init,
        }
    }
}

/// How many named segments a pattern holds.
pub open spec fn named_count(segs: Seq<Segment>) -> nat
    decreases segs.len(),
{
    if segs.len() == 0 {
        0
    } else {
        named_count(segs.drop_last()) + if segs.last() is Named {
            1nat
        } else {
            0nat
        }
    }
}

/// The capture names of a pattern, in pattern order.
pub open spec fn named_names(segs: Seq<Segment>) -> Seq<Seq<char>>
    decreases segs.len(),
{
    if segs.len() == 0 {
        Seq::empty()
    } else {
        let init = named_names(segs.drop_last());
        match segs.last() {
            Segment::Named(n) => init + seq![n@],
            Segment::Literal(_) => init,
        }
    }
}

/// The path formed by substituting one value for each named segment,
/// in pattern order, and keeping every literal.
pub open spec fn subst(segs: Seq<Segment>, vals: Seq<Seq<char>>) -> Seq<Seq<char>>
    decreases segs.len(),
{
    if segs.len() == 0 {
        Seq::empty()
    } else {
        match segs.last() {
            Segment::Named(_) => subst(segs.drop_last(), vals.drop_last()).push(vals.last()),
            Segment::Literal(t) => subst(segs.drop_last(), vals).push(t@),
        }
    }
}

/// A pattern has as many capture names as named segments.
pub proof fn lemma_named_names_len(segs: Seq<Segment>)
    ensures
        named_names(segs).len() == named_count(segs),
    decreases segs.len(),
{
    if segs.len() > 0 {
        lemma_named_names_len(segs.drop_last());
    }
}

/// Substituting non-empty values into a pattern yields a path the
/// pattern matches, and matching that path captures exactly the
/// substituted values, each under its segment's name. Together with
/// the resolution laws this pins what a matched route's captures hold.
pub proof fn lemma_substitution(segs: Seq<Segment>, vals: Seq<Seq<char>>)
    requires
        vals.len() == named_count(segs),
        forall|k: int| 0 <= k < vals.len() ==> (#[trigger] vals[k]).len() > 0,
    ensures
        subst(segs, vals).len() == segs.len(),
        pattern_matches(segs, subst(segs, vals)),
        captures_of(segs, subst(segs, vals)).len() == vals.len(),
        forall|k: int|
            0 <= k < vals.len() ==> #[trigger] captures_of(segs, subst(segs, vals))[k] == (
            named_names(segs)[k],
            vals[k],
        ),
    decreases segs.len(),
{
    if segs.len() == 0 {
    } else {
        let parts = subst(segs, vals);
        lemma_named_names_len(segs);
        lemma_named_names_len(segs.drop_last());
        match segs.last() {
            Segment::Named(n) => {
                let vals0 = vals.drop_last();
                let parts0 = subst(segs.drop_last(), vals0);
                lemma_substitution(segs.drop_last(), vals0);
                assert(parts == parts0.push(vals.last()));
                assert(parts.drop_last() =~= parts0);
                assert(vals.last().len() > 0);
                assert forall|i: int| 0 <= i < segs.len() implies #[trigger] seg_matches(
                    segs[i],
                    parts[i],
                ) by {
                    if i < segs.len() - 1 {
                        assert(segs.drop_last()[i] == segs[i]);
                        assert(parts0[i] == parts[i]);
                        assert(seg_matches(segs.drop_last()[i], parts0[i]));
                    } else {
                        assert(parts[i] == vals.last());
                    }
                }
                assert(captures_of(segs, parts) == captures_of(segs.drop_last(), parts0) + seq![
                    (n@, vals.last()),
                ]);
                assert forall|k: int|
                    0 <= k < vals.len() implies #[trigger] captures_of(segs, parts)[k] == (
                named_names(segs)[k],
                vals[k],
                ) by {
                    if k < vals.len() - 1 {
                        assert(captures_of(segs, parts)[k] == captures_of(
                            segs.drop_last(),
                            parts0,
                        )[k]);
                        assert(named_names(segs)[k] == named_names(segs.drop_last())[k]);
                        assert(vals0[k] == vals[k]);
                    } else {
                        assert(named_names(segs)[k] == n@);
                    }
                }
            },
            Segment::Literal(t) => {
                let parts0 = subst(segs.drop_last(), vals);
                lemma_substitution(segs.drop_last(), vals);
                assert(parts == parts0.push(t@));
                assert(parts.drop_last() =~= parts0);
                assert forall|i: int| 0 <= i < segs.len() implies #[trigger] seg_matches(
                    segs[i],
                    parts[i],
                ) by {
                    if i < segs.len() - 1 {
                        assert(segs.drop_last()[i] == segs[i]);
                        assert(parts0[i] == parts[i]);
                        assert(seg_matches(segs.drop_last()[i], parts0[i]));
                    } else {
                        assert(parts[i] == t@);
                    }
                }
                assert(captures_of(segs, parts) == captures_of(segs.drop_last(), parts0));
                assert forall|k: int|
                    0 <= k < vals.len() implies #[trigger] captures_of(segs, parts)[k] == (
                named_names(segs)[k],
                vals[k],
                ) by {
                    assert(captures_of(segs, parts)[k] == captures_of(segs.drop_last(), parts0)[k]);
                    assert(named_names(segs)[k] == named_names(segs.drop_last())[k]);
                }
            },
        }
    }
}

/// Whether two segments can both match one and the same path segment.
/// A named segment matches any non-empty segment, so it is compatible
/// with everything but an empty literal.
pub open spec fn seg_compat(a: Segment, b: Segment) -> bool {
    match (a, b) {
        (Segment::Literal(x), Segment::Literal(y)) => x@ == y@,
        (Segment::Literal(x), Segment::Named(_)) => x@.len() > 0,
        (Segment::Named(_), Segment::Literal(y)) => y@.len() > 0,
        (Segment::Named(_), Segment::Named(_)) => true,
    }
}

/// Whether two compiled patterns can both match some path: equal
/// segment counts and position-wise compatible segments.
pub open spec fn segs_overlap(a: Seq<Segment>, b: Seq<Segment>) -> bool {
    a.len() == b.len() && forall|i: int| 0 <= i < a.len() ==> #[trigger] seg_compat(a[i], b[i])
}

/// Two patterns that match the same split path overlap.
pub proof fn lemma_shared_match_overlap(a: Seq<Segment>, b: Seq<Segment>, parts: Seq<Seq<char>>)
    requires
        pattern_matches(a, parts),
        pattern_matches(b, parts),
    ensures
        segs_overlap(a, b),
{
    assert forall|i: int| 0 <= i < a.len() implies #[trigger] seg_compat(a[i], b[i]) by {
        assert(seg_matches(a[i], parts[i]));
        assert(seg_matches(b[i], parts[i]));
    }
}

/// The compatibility of one part of a pattern text with a compiled
/// segment of another pattern: what `seg_compat` becomes once the part
/// is compiled.
pub open spec fn part_seg_compat(p: Seq<char>, seg: Segment) -> bool {
    if is_named_part(p) {
        match seg {
            Segment::Literal(t) => t@.len() > 0,
            Segment::Named(_) => true,
        }
    } else {
        match seg {
            Segment::Literal(t) => t@ == p,
            Segment::Named(_) => p.len() > 0,
        }
    }
}

/// Overlap between a split pattern text and a compiled pattern.
pub open spec fn parts_overlap_segs(parts: Seq<Seq<char>>, segs: Seq<Segment>) -> bool {
    parts.len() == segs.len() && forall|i: int|
        0 <= i < parts.len() ==> #[trigger] part_seg_compat(parts[i], segs[i])
}

/// Once a pattern text is compiled, overlap of the compiled segments
/// coincides with overlap of the split text.
pub proof fn lemma_overlap_of_parts(a: Seq<Segment>, parts: Seq<Seq<char>>, b: Seq<Segment>)
    requires
        segs_of_parts(a, parts),
    ensures
        segs_overlap(a, b) == parts_overlap_segs(parts, b),
{
    if segs_overlap(a, b) {
        assert forall|i: int| 0 <= i < parts.len() implies #[trigger] part_seg_compat(
            parts[i],
            b[i],
        ) by {
            assert(seg_of_part(a[i], parts[i]));
            assert(seg_compat(a[i], b[i]));
        }
    }
    if parts_overlap_segs(parts, b) {
        assert forall|i: int| 0 <= i < a.len() implies #[trigger] seg_compat(a[i], b[i]) by {
            assert(seg_of_part(a[i], parts[i]));
            assert(part_seg_compat(parts[i], b[i]));
        }
    }
}

/// Whether two compiled patterns overlap (can both match some path).
pub fn patterns_overlap(a: &RoutePattern, b: &RoutePattern) -> (r: bool)
    ensures
        r == segs_overlap(a.segments@, b.segments@),
{
    if a.segments.len() != b.segments.len() {
        return false;
    }
    let n = a.segments.len();
    let mut i: usize = 0;
    while i < n
        invariant
            i <= n,
            n == a.segments@.len() == b.segments@.len(),
            forall|j: int| 0 <= j < i ==> #[trigger] seg_compat(a.segments@[j], b.segments@[j]),
        decreases n - i,
    {
        let ok = match (&a.segments[i], &b.segments[i]) {
            (Segment::Literal(x), Segment::Literal(y)) => x.eq(y),
            (Segment::Literal(x), Segment::Named(_)) => !x.as_str().is_empty(),
            (Segment::Named(_), Segment::Literal(y)) => !y.as_str().is_empty(),
            (Segment::Named(_), Segment::Named(_)) => true,
        };
        if !ok {
            proof {
                assert(!seg_compat(a.segments@[i as int], b.segments@[i as int]));
            }
            return false;
        }
        i += 1;
    }
    true
}

fn name_valid_exec(name: &str) -> (r: bool)
    ensures
        r == seg_name_valid(name@),
{
    let n = name.unicode_len();
    if n == 0 {
        return false;
    }
    let mut i: usize = 0;
    while i < n
        invariant
            i <= n,
            n == name@.len(),
            forall|j: int| 0 <= j < i ==> is_ident_char(#[trigger] name@[j]),
        decreases n - i,
    {
        if !is_ident_char_exec(name.get_char(i)) {
            return false;
        }
        i += 1;
    }
    true
}

/// Classifies one part of the split pattern text as a named capture or
/// a literal. Returns the capture name for a named part.
pub fn part_as_named(p: &String) -> (r: Option<String>)
    ensures
        match r {
            Some(n) => is_named_part(p@) && n@ == part_name(p@),
            None => !is_named_part(p@),
        },
{
    let s = p.as_str();
    let n = s.unicode_len();
    if n >= 2 && s.get_char(0) == '{' && s.get_char(n - 1) == '}' {
        let inner = s.substring_char(1, n - 1);
        proof {
            assert(inner@ =~= part_name(p@));
        }
        Some(inner.to_owned())
    } else {
        None
    }
}

impl RoutePattern {
    /// Compiles a textual pattern. Succeeds exactly when every named
    /// part of the text carries a valid, unduplicated name; the
    /// compiled segments then correspond position-wise to the split
    /// text.
    pub fn compile(text: &str) -> (r: Result<RoutePattern, InvalidPatternError>)
        ensures
            r is Ok <==> pattern_text_valid(split_path_spec(text@)),
            r matches Ok(p) ==> segs_of_parts(p.segments@, split_path_spec(text@)) && pattern_wf(
                p.segments@,
            ),
    {
        let parts = split_path(text);
        let ghost pv = split_path_spec(text@);
        let mut segs: Vec<Segment> = Vec::new();
        let mut i: usize = 0;
        while i < parts.len()
            invariant
                i <= parts.len(),
                pv == split_path_spec(text@),
                parts.deep_view() == pv,
                segs@.len() == i,
                forall|j: int| 0 <= j < i ==> #[trigger] seg_of_part(segs@[j], pv[j]),
                forall|j: int|
                    0 <= j < i && is_named_part(#[trigger] pv[j]) ==> seg_name_valid(
                        part_name(pv[j]),
                    ),
                forall|j: int, k: int|
                    0 <= j < k < i && is_named_part(#[trigger] pv[j]) && is_named_part(
                        #[trigger] pv[k],
                    ) ==> part_name(pv[j]) != part_name(pv[k]),
            decreases parts.len() - i,
        {
            proof {
                assert(pv[i as int] == parts@[i as int].deep_view());
            }
            match part_as_named(&parts[i]) {
                Some(name) => {
                    if !name_valid_exec(name.as_str()) {
                        proof {
                            assert(is_named_part(pv[i as int]) && !seg_name_valid(
                                part_name(pv[i as int]),
                            ));
                            assert(!pattern_text_valid(split_path_spec(text@)));
                        }
                        return Err(InvalidPatternError);
                    }
                    let mut j: usize = 0;
                    while j < segs.len()
                        invariant
                            j <= segs.len(),
                            segs@.len() == i < parts@.len(),
                            pv == split_path_spec(text@),
                            parts.deep_view() == pv,
                            is_named_part(pv[i as int]),
                            name@ == part_name(pv[i as int]),
                            forall|k: int| 0 <= k < i ==> #[trigger] seg_of_part(segs@[k], pv[k]),
                            forall|k: int|
                                0 <= k < j ==> !(#[trigger] segs@[k] matches Segment::Named(a)
                                    && a@ == name@),
                        decreases segs.len() - j,
                    {
                        match &segs[j] {
                            Segment::Named(existing) => {
                                if existing.eq(&name) {
                                    proof {
                                        assert(seg_of_part(segs@[j as int], pv[j as int]));
                                        assert(is_named_part(pv[j as int]));
                                        assert(part_name(pv[j as int]) == part_name(pv[i as int]));
                                        assert(!pattern_text_valid(pv));
                                    }
                                    return Err(InvalidPatternError);
                                }
                            },
                            Segment::Literal(_) => {},
                        }
                        j += 1;
                    }
                    proof {
                        assert forall|k: int|
                            0 <= k < i && is_named_part(#[trigger] pv[k]) implies part_name(pv[k])
                            != part_name(pv[i as int]) by {
                            assert(seg_of_part(segs@[k], pv[k]));
                        }
                    }
                    segs.push(Segment::Named(name));
                },
                None => {
                    let lit = parts[i].clone();
                    segs.push(Segment::Literal(lit));
                },
            }
            i += 1;
        }
        proof {
            assert(segs_of_parts(segs@, pv));
            assert forall|a: int, b: int|
                0 <= a < b < segs@.len() && segs@[a] is Named && segs@[b] is Named implies (
            segs@[a]->Named_0@ != segs@[b]->Named_0@) by {
                assert(seg_of_part(segs@[a], pv[a]));
                assert(seg_of_part(segs@[b], pv[b]));
                assert(is_named_part(pv[a]));
                assert(is_named_part(pv[b]));
            }
            assert forall|k: int|
                0 <= k < segs@.len() && #[trigger] segs@[k] is Named implies seg_name_valid(
                segs@[k]->Named_0@,
            ) by {
                assert(seg_of_part(segs@[k], pv[k]));
                assert(is_named_part(pv[k]));
            }
            assert(pattern_wf(segs@));
        }
        Ok(RoutePattern { segments: segs })
    }

    /// Whether this pattern matches an already-split path.
    pub fn matches_parts(&self, parts: &Vec<String>) -> (r: bool)
        ensures
            r == pattern_matches(self.segments@, parts.deep_view()),
    {
        if self.segments.len() != parts.len() {
            return false;
        }
        let n = self.segments.len();
        let mut i: usize = 0;
        while i < n
            invariant
                i <= n,
                n == self.segments@.len() == parts@.len(),
                forall|j: int|
                    0 <= j < i ==> #[trigger] seg_matches(self.segments@[j], parts.deep_view()[j]),
            decreases n - i,
        {
            proof {
                assert(parts.deep_view()[i as int] == parts@[i as int]@);
            }
            match &self.segments[i] {
                Segment::Literal(t) => {
                    if !t.eq(&parts[i]) {
                        proof {
                            assert(!seg_matches(self.segments@[i as int], parts.deep_view()[i as int]));
                        }
                        return false;
                    }
                },
                Segment::Named(_) => {
                    if parts[i].as_str().is_empty() {
                        proof {
                            assert(!seg_matches(self.segments@[i as int], parts.deep_view()[i as int]));
                        }
                        return false;
                    }
                },
            }
            i += 1;
        }
        true
    }

    /// Extracts the ordered named captures from a split path that this
    /// pattern matches.
    pub fn captures_from(&self, parts: &Vec<String>) -> (r: Vec<(String, String)>)
        requires
            pattern_matches(self.segments@, parts.deep_view()),
        ensures
            r.deep_view() == captures_of(self.segments@, parts.deep_view()),
    {
        let ghost segsv = self.segments@;
        let ghost partsv = parts.deep_view();
        let mut caps: Vec<(String, String)> = Vec::new();
        let n = self.segments.len();
        let mut i: usize = 0;
        while i < n
            invariant
                i <= n,
                n == segsv.len() == partsv.len() == parts@.len(),
                segsv == self.segments@,
                partsv == parts.deep_view(),
                caps.deep_view() == captures_of(segsv.take(i as int), partsv.take(i as int)),
            decreases n - i,
        {
            proof {
                assert(partsv[i as int] == parts@[i as int]@);
                assert(segsv.take(i + 1).drop_last() =~= segsv.take(i as int));
                assert(partsv.take(i + 1).drop_last() =~= partsv.take(i as int));
                assert(segsv.take(i + 1).last() == segsv[i as int]);
                assert(partsv.take(i + 1).last() == partsv[i as int]);
            }
            match &self.segments[i] {
                Segment::Named(nm) => {
                    let entry = (nm.clone(), parts[i].clone());
                    caps.push(entry);
                    proof {
                        assert(caps.deep_view() =~~= captures_of(
                            segsv.take(i + 1),
                            partsv.take(i + 1),
                        ));
                    }
                },
                Segment::Literal(_) => {
                    proof {
                        assert(caps.deep_view() =~~= captures_of(
                            segsv.take(i + 1),
                            partsv.take(i + 1),
                        ));
                    }
                },
            }
            i += 1;
        }
        proof {
            assert(segsv.take(n as int) =~= segsv);
            assert(partsv.take(n as int) =~= partsv);
        }
        caps
    }

    /// Matches a request path against this pattern, yielding the
    /// ordered captures on success. Returns `None` exactly when the
    /// segment counts differ, a literal segment differs from its path
    /// segment, or a named segment faces an empty path segment.
    pub fn match_path(&self, path: &str) -> (r: Option<Vec<(String, String)>>)
        ensures
            r is Some <==> pattern_matches(self.segments@, split_path_spec(path@)),
            r matches Some(c) ==> c.deep_view() == captures_of(
                self.segments@,
                split_path_spec(path@),
            ),
    {
        let parts = split_path(path);
        if self.matches_parts(&parts) {
            Some(self.captures_from(&parts))
        } else {
            None
        }
    }
}

} // verus!
