//! The route table and request resolution: matching an incoming
//! request to exactly one registered route by method, path pattern and
//! guard chain, with ties ruled out when the table is built.

use vstd::prelude::*;
use crate::chars::{eq_ignore_ascii_case, method_eq};
use crate::binder::{bind, bind_post, BindError, ParamValue, SchemaField, FieldSource};
use crate::guard::{evaluate, guards_pass, Guard};
use crate::pattern::{
    captures_of, is_named_part, lemma_overlap_of_parts, lemma_shared_match_overlap, part_name,
    parts_overlap_segs, pattern_matches, pattern_text_valid, pattern_wf, patterns_overlap,
    segs_of_parts, segs_overlap, RoutePattern, Segment,
};
use crate::request::IncomingRequest;
use crate::split::{split_path, split_path_spec};

verus! {

/// An opaque reference to the handler registered with a route; the
/// dispatcher above this core gives it meaning.
#[derive(Clone, Copy, Debug, PartialEq, Eq, Structural)]
pub struct HandlerRef(pub u64);

/// One registered route: the methods it serves, its compiled pattern,
/// its ordered guard chain, its parameter schema and its handler.
#[derive(Clone, Debug)]
pub struct Route {
    pub methods: Vec<String>,
    pub pattern: RoutePattern,
    pub guards: Vec<Guard>,
    pub schema: Vec<SchemaField>,
    pub handler: HandlerRef,
}

/// A configuration error, detected when the route table is built and
/// never at request time.
#[derive(Clone, Copy, Debug, PartialEq, Eq, Structural)]
pub enum ConfigError {
    InvalidPattern,
    NoMethods,
    SchemaMismatch,
    AmbiguousRoute,
}

/// The outcome of resolving one request against the route table.
#[derive(Clone, Debug, PartialEq, Eq)]
pub enum MatchOutcome {
    Matched { route: usize, captures: Vec<(String, String)> },
    NoPathMatch,
    PathMatchedMethodMismatch { allowed: Vec<String> },
    PathMatchedGuardRejected,
}

/// Whether a method list admits the request method (ASCII
/// case-insensitively).
pub open spec fn method_allowed(methods: Seq<String>, method: Seq<char>) -> bool {
    exists|k: int| 0 <= k < methods.len() && method_eq(#[trigger] methods[k]@, method)
}

/// Two method lists share a method up to ASCII case.
pub open spec fn methods_intersect(a: Seq<String>, b: Seq<String>) -> bool {
    exists|i: int, j: int|
        0 <= i < a.len() && 0 <= j < b.len() && #[trigger] method_eq(a[i]@, b[j]@)
}

/// The pattern/schema correspondence demanded at registration: every
/// named part of the pattern text has a path-sourced schema field of
/// exactly that name, and vice versa.
pub open spec fn schema_matches_parts(parts: Seq<Seq<char>>, schema: Seq<SchemaField>) -> bool {
    (forall|i: int|
        0 <= i < parts.len() && is_named_part(#[trigger] parts[i]) ==> exists|j: int|
            0 <= j < schema.len() && (#[trigger] schema[j]).source is Path && schema[j].name@
                == part_name(parts[i])) && (forall|j: int|
        0 <= j < schema.len() && (#[trigger] schema[j]).source is Path ==> exists|i: int|
            0 <= i < parts.len() && is_named_part(#[trigger] parts[i]) && part_name(parts[i])
                == schema[j].name@)
}

/// Well-formedness of one registered route.
pub open spec fn route_wf(rt: Route) -> bool {
    pattern_wf(rt.pattern.segments@) && rt.methods@.len() >= 1
}

/// Well-formedness of the whole table: every route is well formed and
/// no two routes overlap while sharing a method, so at most one route
/// can pattern- and method-match any request.
pub open spec fn routes_wf(routes: Seq<Route>) -> bool {
    (forall|i: int| 0 <= i < routes.len() ==> route_wf(#[trigger] routes[i])) && (forall|
        i: int,
        j: int,
    |
        0 <= i < j < routes.len() ==> !(segs_overlap(
            (#[trigger] routes[i]).pattern.segments@,
            (#[trigger] routes[j]).pattern.segments@,
        ) && methods_intersect(routes[i].methods@, routes[j].methods@)))
}

/// The route's pattern matches the split request path.
pub open spec fn route_path_matches(rt: Route, parts: Seq<Seq<char>>) -> bool {
    pattern_matches(rt.pattern.segments@, parts)
}

/// The route pattern- and method-matches the request.
pub open spec fn route_candidate(rt: Route, method: Seq<char>, parts: Seq<Seq<char>>) -> bool {
    route_path_matches(rt, parts) && method_allowed(rt.methods@, method)
}

/// The route is a candidate and its guard chain passes.
pub open spec fn route_admits(
    rt: Route,
    method: Seq<char>,
    parts: Seq<Seq<char>>,
    headers: Seq<(Seq<char>, Seq<char>)>,
) -> bool {
    route_candidate(rt, method, parts) && guards_pass(rt.guards@, method, headers)
}

/// The declared methods of all path-matching routes, in registration
/// order; the payload of `PathMatchedMethodMismatch`. The list keeps
/// the methods as declared: a route that declares one method twice
/// lists it twice, and the transport may deduplicate when it forms a
/// response header from this list.
pub open spec fn allowed_of(routes: Seq<Route>, parts: Seq<Seq<char>>) -> Seq<Seq<char>>
    decreases routes.len(),
{
    if routes.len() == 0 {
        Seq::empty()
    } else {
        let init = allowed_of(routes.drop_last(), parts);
        if route_path_matches(routes.last(), parts) {
            init + routes.last().methods.deep_view()
        } else {
            init
        }
    }
}

/// The full contract of `Router::resolve`, over the route table, the
/// request method, the split request path and the headers.
pub open spec fn resolve_post(
    routes: Seq<Route>,
    method: Seq<char>,
    parts: Seq<Seq<char>>,
    headers: Seq<(Seq<char>, Seq<char>)>,
    r: MatchOutcome,
) -> bool {
    match r {
        MatchOutcome::NoPathMatch => forall|i: int|
            0 <= i < routes.len() ==> !route_path_matches(#[trigger] routes[i], parts),
        MatchOutcome::PathMatchedMethodMismatch { allowed } => (exists|i: int|
            0 <= i < routes.len() && route_path_matches(#[trigger] routes[i], parts)) && (forall|
            i: int,
        |
            0 <= i < routes.len() ==> !route_candidate(#[trigger] routes[i], method, parts))
            && allowed.deep_view() == allowed_of(routes, parts),
        MatchOutcome::PathMatchedGuardRejected => (exists|i: int|
            0 <= i < routes.len() && route_candidate(#[trigger] routes[i], method, parts)) && (
        forall|i: int|
            0 <= i < routes.len() ==> !route_admits(#[trigger] routes[i], method, parts, headers)),
        MatchOutcome::Matched { route, captures } => route < routes.len() && route_admits(
            routes[route as int],
            method,
            parts,
            headers,
        ) && captures.deep_view() == captures_of(routes[route as int].pattern.segments@, parts),
    }
}

/// Under a well-formed table, at most one route can pattern- and
/// method-match a request.
pub proof fn lemma_candidate_unique(
    routes: Seq<Route>,
    method: Seq<char>,
    parts: Seq<Seq<char>>,
    i: int,
    j: int,
)
    requires
        routes_wf(routes),
        0 <= i < routes.len(),
        0 <= j < routes.len(),
        route_candidate(routes[i], method, parts),
        route_candidate(routes[j], method, parts),
    ensures
        i == j,
{
    if i != j {
        lemma_shared_match_overlap(
            routes[i].pattern.segments@,
            routes[j].pattern.segments@,
            parts,
        );
        lemma_shared_match_overlap(
            routes[j].pattern.segments@,
            routes[i].pattern.segments@,
            parts,
        );
        let ki = choose|k: int|
            0 <= k < routes[i].methods@.len() && method_eq(#[trigger] routes[i].methods@[k]@, method);
        let kj = choose|k: int|
            0 <= k < routes[j].methods@.len() && method_eq(#[trigger] routes[j].methods@[k]@, method);
        assert(method_eq(routes[i].methods@[ki]@, routes[j].methods@[kj]@));
        assert(method_eq(routes[j].methods@[kj]@, routes[i].methods@[ki]@));
        assert(methods_intersect(routes[i].methods@, routes[j].methods@));
        assert(methods_intersect(routes[j].methods@, routes[i].methods@));
        if i < j {
            assert(!(segs_overlap(routes[i].pattern.segments@, routes[j].pattern.segments@)
                && methods_intersect(routes[i].methods@, routes[j].methods@)));
        } else {
            assert(!(segs_overlap(routes[j].pattern.segments@, routes[i].pattern.segments@)
                && methods_intersect(routes[j].methods@, routes[i].methods@)));
        }
    }
}

fn method_allowed_exec(methods: &Vec<String>, method: &String) -> (r: bool)
    ensures
        r == method_allowed(methods@, method@),
{
    let n = methods.len();
    let mut i: usize = 0;
    while i < n
        invariant
            i <= n,
            n == methods@.len(),
            forall|k: int| 0 <= k < i ==> !method_eq(#[trigger] methods@[k]@, method@),
        decreases n - i,
    {
        if eq_ignore_ascii_case(methods[i].as_str(), method.as_str()) {
            return true;
        }
        i += 1;
    }
    false
}

fn methods_intersect_exec(a: &Vec<String>, b: &Vec<String>) -> (r: bool)
    ensures
        r == methods_intersect(a@, b@),
{
    let n = a.len();
    let mut i: usize = 0;
    while i < n
        invariant
            i <= n,
            n == a@.len(),
            forall|x: int, y: int|
                0 <= x < i && 0 <= y < b@.len() ==> !(#[trigger] method_eq(a@[x]@, b@[y]@)),
        decreases n - i,
    {
        let m = b.len();
        let mut j: usize = 0;
        while j < m
            invariant
                i < n,
                n == a@.len(),
                j <= m,
                m == b@.len(),
                forall|y: int| 0 <= y < j ==> !(#[trigger] method_eq(a@[i as int]@, b@[y]@)),
            decreases m - j,
        {
            if eq_ignore_ascii_case(a[i].as_str(), b[j].as_str()) {
                return true;
            }
            j += 1;
        }
        i += 1;
    }
    false
}

fn has_path_field(schema: &Vec<SchemaField>, name: &String) -> (r: bool)
    ensures
        r == exists|j: int|
            0 <= j < schema@.len() && (#[trigger] schema@[j]).source is Path && schema@[j].name@
                == name@,
{
    let n = schema.len();
    let mut j: usize = 0;
    while j < n
        invariant
            j <= n,
            n == schema@.len(),
            forall|k: int|
                0 <= k < j ==> !((#[trigger] schema@[k]).source is Path && schema@[k].name@
                    == name@),
        decreases n - j,
    {
        if matches!(schema[j].source, FieldSource::Path) && schema[j].name.eq(name) {
            return true;
        }
        j += 1;
    }
    false
}

fn has_named_part(parts: &Vec<String>, name: &String) -> (r: bool)
    ensures
        r == exists|x: int|
            0 <= x < parts.deep_view().len() && is_named_part(#[trigger] parts.deep_view()[x])
                && part_name(parts.deep_view()[x]) == name@,
{
    let ghost pv = parts.deep_view();
    let n = parts.len();
    let mut x: usize = 0;
    while x < n
        invariant
            x <= n,
            n == parts@.len(),
            pv == parts.deep_view(),
            forall|k: int|
                0 <= k < x ==> !(is_named_part(#[trigger] pv[k]) && part_name(pv[k]) == name@),
        decreases n - x,
    {
        proof {
            assert(pv[x as int] == parts@[x as int]@);
        }
        match crate::pattern::part_as_named(&parts[x]) {
            Some(nm) => {
                if nm.eq(name) {
                    return true;
                }
            },
            None => {},
        }
        x += 1;
    }
    false
}

fn schema_matches_parts_exec(parts: &Vec<String>, schema: &Vec<SchemaField>) -> (r: bool)
    ensures
        r == schema_matches_parts(parts.deep_view(), schema@),
{
    let ghost pv = parts.deep_view();
    let n = parts.len();
    let mut i: usize = 0;
    while i < n
        invariant
            i <= n,
            n == parts@.len(),
            pv == parts.deep_view(),
            forall|k: int|
                0 <= k < i && is_named_part(#[trigger] pv[k]) ==> exists|j: int|
                    0 <= j < schema@.len() && (#[trigger] schema@[j]).source is Path
                        && schema@[j].name@ == part_name(pv[k]),
        decreases n - i,
    {
        proof {
            assert(pv[i as int] == parts@[i as int]@);
        }
        match crate::pattern::part_as_named(&parts[i]) {
            Some(nm) => {
                if !has_path_field(schema, &nm) {
                    proof {
                        assert(is_named_part(pv[i as int]));
                        assert(!schema_matches_parts(pv, schema@));
                    }
                    return false;
                }
            },
            None => {},
        }
        i += 1;
    }
    let m = schema.len();
    let mut j: usize = 0;
    while j < m
        invariant
            j <= m,
            m == schema@.len(),
            n == parts@.len(),
            pv == parts.deep_view(),
            forall|k: int|
                0 <= k < n && is_named_part(#[trigger] pv[k]) ==> exists|x: int|
                    0 <= x < schema@.len() && (#[trigger] schema@[x]).source is Path
                        && schema@[x].name@ == part_name(pv[k]),
            forall|k: int|
                0 <= k < j && (#[trigger] schema@[k]).source is Path ==> exists|x: int|
                    0 <= x < pv.len() && is_named_part(#[trigger] pv[x]) && part_name(pv[x])
                        == schema@[k].name@,
        decreases m - j,
    {
        if matches!(schema[j].source, FieldSource::Path) {
            if !has_named_part(parts, &schema[j].name) {
                proof {
                    assert(!schema_matches_parts(pv, schema@));
                }
                return false;
            }
        }
        j += 1;
    }
    true
}

/// The route table. Built once, immutable at request time.
#[derive(Clone, Debug)]
pub struct Router {
    pub routes: Vec<Route>,
}

impl Router {
    /// The table's invariant, established at construction and kept by
    /// every successful or failed registration.
    pub open spec fn wf(&self) -> bool {
        routes_wf(self.routes@)
    }

    /// An empty route table.
    pub fn new() -> (r: Router)
        ensures
            r.wf(),
            r.routes@.len() == 0,
    {
        Router { routes: Vec::new() }
    }

    /// The registration-time acceptance condition of `add_route`: the
    /// pattern text is valid, at least one method is declared, the
    /// schema corresponds to the pattern's named parts, and no
    /// already-registered route overlaps this one while sharing a
    /// method.
    pub open spec fn can_add(
        &self,
        methods: Seq<String>,
        text: Seq<char>,
        schema: Seq<SchemaField>,
    ) -> bool {
        let parts = split_path_spec(text);
        pattern_text_valid(parts) && methods.len() >= 1 && schema_matches_parts(parts, schema)
            && forall|j: int|
            0 <= j < self.routes@.len() ==> !(parts_overlap_segs(
                parts,
                (#[trigger] self.routes@[j]).pattern.segments@,
            ) && methods_intersect(methods, self.routes@[j].methods@))
    }

    /// Registers a route. Succeeds exactly under `can_add`; each
    /// configuration defect yields its own error, checked in the order
    /// pattern, methods, schema, ambiguity. On failure the table is
    /// unchanged.
    pub fn add_route(
        &mut self,
        methods: Vec<String>,
        pattern_text: &str,
        guards: Vec<Guard>,
        schema: Vec<SchemaField>,
        handler: HandlerRef,
    ) -> (r: Result<(), ConfigError>)
        requires
            old(self).wf(),
        ensures
            final(self).wf(),
            r is Ok <==> old(self).can_add(methods@, pattern_text@, schema@),
            r is Err ==> final(self).routes@ == old(self).routes@,
            r is Ok ==> final(self).routes@.len() == old(self).routes@.len() + 1
                && final(self).routes@.drop_last() == old(self).routes@ && ({
                let rt = final(self).routes@.last();
                rt.methods == methods && rt.guards == guards && rt.schema == schema && rt.handler
                    == handler && segs_of_parts(rt.pattern.segments@, split_path_spec(pattern_text@))
                    && route_wf(rt)
            }),
            r == Err::<(), ConfigError>(ConfigError::InvalidPattern) <==> !pattern_text_valid(
                split_path_spec(pattern_text@),
            ),
            r == Err::<(), ConfigError>(ConfigError::NoMethods) <==> pattern_text_valid(
                split_path_spec(pattern_text@),
            ) && methods@.len() == 0,
            r == Err::<(), ConfigError>(ConfigError::SchemaMismatch) <==> pattern_text_valid(
                split_path_spec(pattern_text@),
            ) && methods@.len() >= 1 && !schema_matches_parts(
                split_path_spec(pattern_text@),
                schema@,
            ),
    {
        let ghost parts = split_path_spec(pattern_text@);
        let pattern = match RoutePattern::compile(pattern_text) {
            Ok(p) => p,
            Err(_) => {
                return Err(ConfigError::InvalidPattern);
            },
        };
        if methods.len() == 0 {
            return Err(ConfigError::NoMethods);
        }
        let parts_vec = split_path(pattern_text);
        let schema_ok = schema_matches_parts_exec(&parts_vec, &schema);
        if !schema_ok {
            return Err(ConfigError::SchemaMismatch);
        }
        let n = self.routes.len();
        let mut j: usize = 0;
        while j < n
            invariant
                j <= n,
                n == self.routes@.len(),
                self.routes@ == old(self).routes@,
                routes_wf(self.routes@),
                parts == split_path_spec(pattern_text@),
                pattern_text_valid(parts),
                segs_of_parts(pattern.segments@, parts),
                pattern_wf(pattern.segments@),
                methods@.len() >= 1,
                schema_matches_parts(parts, schema@),
                forall|k: int|
                    0 <= k < j ==> !(segs_overlap(
                        pattern.segments@,
                        (#[trigger] self.routes@[k]).pattern.segments@,
                    ) && methods_intersect(methods@, self.routes@[k].methods@)),
            decreases n - j,
        {
            if patterns_overlap(&pattern, &self.routes[j].pattern) && methods_intersect_exec(
                &methods,
                &self.routes[j].methods,
            ) {
                proof {
                    lemma_overlap_of_parts(
                        pattern.segments@,
                        parts,
                        self.routes@[j as int].pattern.segments@,
                    );
                    assert(parts_overlap_segs(
                        parts,
                        self.routes@[j as int].pattern.segments@,
                    ) && methods_intersect(methods@, self.routes@[j as int].methods@));
                    assert(!old(self).can_add(methods@, pattern_text@, schema@));
                }
                return Err(ConfigError::AmbiguousRoute);
            }
            proof {
                lemma_overlap_of_parts(
                    pattern.segments@,
                    parts,
                    self.routes@[j as int].pattern.segments@,
                );
            }
            j += 1;
        }
        proof {
            assert forall|k: int| 0 <= k < self.routes@.len() implies !(parts_overlap_segs(
                parts,
                (#[trigger] self.routes@[k]).pattern.segments@,
            ) && methods_intersect(methods@, self.routes@[k].methods@)) by {
                lemma_overlap_of_parts(
                    pattern.segments@,
                    parts,
                    self.routes@[k].pattern.segments@,
                );
            }
            assert(old(self).can_add(methods@, pattern_text@, schema@));
        }
        let rt = Route { methods, pattern, guards, schema, handler };
        let ghost old_routes = self.routes@;
        self.routes.push(rt);
        proof {
            assert(self.routes@.drop_last() =~= old_routes);
            let new_rt = self.routes@.last();
            assert(route_wf(new_rt));
            assert forall|a: int, b: int| 0 <= a < b < self.routes@.len() implies !(segs_overlap(
                (#[trigger] self.routes@[a]).pattern.segments@,
                (#[trigger] self.routes@[b]).pattern.segments@,
            ) && methods_intersect(self.routes@[a].methods@, self.routes@[b].methods@)) by {
                if b == self.routes@.len() - 1 {
                    assert(self.routes@[a] == old_routes[a]);
                    if segs_overlap(old_routes[a].pattern.segments@, new_rt.pattern.segments@)
                        && methods_intersect(old_routes[a].methods@, new_rt.methods@) {
                        lemma_overlap_symm(
                            new_rt.pattern.segments@,
                            old_routes[a].pattern.segments@,
                        );
                        lemma_intersect_symm(new_rt.methods@, old_routes[a].methods@);
                        assert(false);
                    }
                } else {
                    assert(self.routes@[a] == old_routes[a]);
                    assert(self.routes@[b] == old_routes[b]);
                }
            }
            assert(self.wf());
        }
        Ok(())
    }

    /// Resolves a request to exactly one route or a documented
    /// failure, per `resolve_post`.
    pub fn resolve(&self, req: &IncomingRequest) -> (r: MatchOutcome)
        requires
            self.wf(),
        ensures
            resolve_post(
                self.routes@,
                req.method@,
                split_path_spec(req.path@),
                req.headers.deep_view(),
                r,
            ),
    {
        let parts = split_path(req.path.as_str());
        let ghost pv = split_path_spec(req.path@);
        let ghost routes = self.routes@;
        let mut any_path = false;
        let mut allowed: Vec<String> = Vec::new();
        let mut candidate: Option<usize> = None;
        let n = self.routes.len();
        let mut i: usize = 0;
        while i < n
            invariant
                i <= n,
                n == routes.len(),
                routes == self.routes@,
                pv == split_path_spec(req.path@),
                parts.deep_view() == pv,
                any_path == exists|j: int|
                    0 <= j < i && route_path_matches(#[trigger] routes[j], pv),
                allowed.deep_view() == allowed_of(routes.take(i as int), pv),
                match candidate {
                    Some(c) => c < i && route_candidate(routes[c as int], req.method@, pv),
                    None => forall|j: int|
                        0 <= j < i ==> !route_candidate(#[trigger] routes[j], req.method@, pv),
                },
            decreases n - i,
        {
            proof {
                assert(routes.take(i + 1).drop_last() =~= routes.take(i as int));
                assert(routes.take(i + 1).last() == routes[i as int]);
            }
            let rt = &self.routes[i];
            if rt.pattern.matches_parts(&parts) {
                any_path = true;
                let ghost allowed_pre = allowed.deep_view();
                proof {
                    assert(allowed.deep_view() =~~= allowed_pre + rt.methods.deep_view().take(0));
                }
                let m = rt.methods.len();
                let mut k: usize = 0;
                while k < m
                    invariant
                        k <= m,
                        m == rt.methods@.len(),
                        allowed.deep_view() == allowed_pre + rt.methods.deep_view().take(k as int),
                    decreases m - k,
                {
                    let ghost prev = allowed@;
                    let ghost prev_deep = allowed.deep_view();
                    allowed.push(rt.methods[k].clone());
                    proof {
                        let target = allowed_pre + rt.methods.deep_view().take(k + 1);
                        assert(allowed@ == prev.push(rt.methods@[k as int]));
                        assert(prev_deep.len() == prev.len());
                        assert(rt.methods.deep_view().len() == rt.methods@.len());
                        assert(prev.len() == allowed_pre.len() + k);
                        assert(target.len() == allowed_pre.len() + k + 1);
                        assert forall|z: int|
                            0 <= z < allowed@.len() implies allowed.deep_view()[z] == target[z] by {
                            assert(allowed.deep_view()[z] == allowed@[z]@);
                            if z < prev.len() {
                                assert(allowed@[z] == prev[z]);
                                assert(prev_deep[z] == prev[z]@);
                                assert(prev_deep[z] == (allowed_pre + rt.methods.deep_view().take(
                                    k as int,
                                ))[z]);
                            } else {
                                assert(z == allowed_pre.len() + k);
                                assert(allowed@[z] == rt.methods@[k as int]);
                                assert(target[z] == rt.methods.deep_view().take(k + 1)[k as int]);
                                assert(target[z] == rt.methods.deep_view()[k as int]);
                                assert(rt.methods.deep_view()[k as int] == rt.methods@[k as int]@);
                            }
                        }
                        assert(allowed.deep_view() =~= target);
                    }
                    k += 1;
                }
                proof {
                    assert(rt.methods.deep_view().take(m as int) =~= rt.methods.deep_view());
                    assert(allowed.deep_view() =~~= allowed_of(routes.take(i + 1), pv));
                }
                if candidate.is_none() && method_allowed_exec(&rt.methods, &req.method) {
                    candidate = Some(i);
                }
            } else {
                proof {
                    assert(allowed.deep_view() =~~= allowed_of(routes.take(i + 1), pv));
                }
            }
            i += 1;
        }
        proof {
            assert(routes.take(n as int) =~= routes);
        }
        match candidate {
            Some(c) => {
                let rt = &self.routes[c];
                if evaluate(&rt.guards, req) {
                    let caps = rt.pattern.captures_from(&parts);
                    MatchOutcome::Matched { route: c, captures: caps }
                } else {
                    proof {
                        assert forall|j: int|
                            0 <= j < routes.len() implies !route_admits(
                            #[trigger] routes[j],
                            req.method@,
                            pv,
                            req.headers.deep_view(),
                        ) by {
                            if route_candidate(routes[j], req.method@, pv) {
                                lemma_candidate_unique(routes, req.method@, pv, j, c as int);
                            }
                        }
                    }
                    MatchOutcome::PathMatchedGuardRejected
                }
            },
            None => {
                if any_path {
                    MatchOutcome::PathMatchedMethodMismatch { allowed }
                } else {
                    MatchOutcome::NoPathMatch
                }
            },
        }
    }
}

/// What the router hands the layer above once binding is done: the
/// handler to invoke with its typed parameters, or the failure class
/// the response must report.
#[derive(Clone, Debug, PartialEq, Eq)]
pub enum RequestOutcome {
    Dispatch { handler: HandlerRef, route: usize, params: Vec<(String, ParamValue)> },
    NotFound,
    MethodNotAllowed { allowed: Vec<String> },
    GuardRejected,
    BadRequest { error: BindError },
}

impl Router {
    /// Resolves a request and, on a match, binds its captures and
    /// query fields against the matched route's schema: the whole
    /// request-time pipeline above the handler.
    pub fn handle(&self, req: &IncomingRequest) -> (r: RequestOutcome)
        requires
            self.wf(),
        ensures
            ({
                let routes = self.routes@;
                let parts = split_path_spec(req.path@);
                let headers = req.headers.deep_view();
                match r {
                    RequestOutcome::Dispatch { handler, route, params } => route < routes.len()
                        && handler == routes[route as int].handler && route_admits(
                        routes[route as int],
                        req.method@,
                        parts,
                        headers,
                    ) && bind_post(
                        routes[route as int].schema@,
                        captures_of(routes[route as int].pattern.segments@, parts),
                        req.query.deep_view(),
                        Ok(params),
                    ),
                    RequestOutcome::NotFound => forall|i: int|
                        0 <= i < routes.len() ==> !route_path_matches(#[trigger] routes[i], parts),
                    RequestOutcome::MethodNotAllowed { allowed } => (exists|i: int|
                        0 <= i < routes.len() && route_path_matches(#[trigger] routes[i], parts))
                        && (forall|i: int|
                        0 <= i < routes.len() ==> !route_candidate(
                            #[trigger] routes[i],
                            req.method@,
                            parts,
                        )) && allowed.deep_view() == allowed_of(routes, parts),
                    RequestOutcome::GuardRejected => (exists|i: int|
                        0 <= i < routes.len() && route_candidate(
                            #[trigger] routes[i],
                            req.method@,
                            parts,
                        )) && (forall|i: int|
                        0 <= i < routes.len() ==> !route_admits(
                            #[trigger] routes[i],
                            req.method@,
                            parts,
                            headers,
                        )),
                    RequestOutcome::BadRequest { error } => exists|i: int|
                        0 <= i < routes.len() && route_admits(
                            #[trigger] routes[i],
                            req.method@,
                            parts,
                            headers,
                        ) && bind_post(
                            routes[i].schema@,
                            captures_of(routes[i].pattern.segments@, parts),
                            req.query.deep_view(),
                            Err(error),
                        ),
                }
            }),
    {
        match self.resolve(req) {
            MatchOutcome::Matched { route, captures } => {
                let rt = &self.routes[route];
                match bind(&rt.schema, &captures, &req.query) {
                    Ok(params) => RequestOutcome::Dispatch { handler: rt.handler, route, params },
                    Err(error) => RequestOutcome::BadRequest { error },
                }
            },
            MatchOutcome::NoPathMatch => RequestOutcome::NotFound,
            MatchOutcome::PathMatchedMethodMismatch { allowed } => RequestOutcome::MethodNotAllowed {
                allowed,
            },
            MatchOutcome::PathMatchedGuardRejected => RequestOutcome::GuardRejected,
        }
    }
}

/// The response status class each outcome maps to: success, not-found,
/// method-not-allowed, the guard-rejection client error, or
/// bad-request.
pub fn status_code_of(r: &RequestOutcome) -> (code: u16)
    ensures
        code == match r {
            RequestOutcome::Dispatch { .. } => 200u16,
            RequestOutcome::NotFound => 404u16,
            RequestOutcome::MethodNotAllowed { .. } => 405u16,
            RequestOutcome::GuardRejected => 403u16,
            RequestOutcome::BadRequest { .. } => 400u16,
        },
{
    match r {
        RequestOutcome::Dispatch { .. } => 200,
        RequestOutcome::NotFound => 404,
        RequestOutcome::MethodNotAllowed { .. } => 405,
        RequestOutcome::GuardRejected => 403,
        RequestOutcome::BadRequest { .. } => 400,
    }
}

/// No path-matching route leaves the allowed-method list empty.
proof fn lemma_allowed_of_none(routes: Seq<Route>, parts: Seq<Seq<char>>)
    requires
        forall|i: int| 0 <= i < routes.len() ==> !route_path_matches(#[trigger] routes[i], parts),
    ensures
        allowed_of(routes, parts) == Seq::<Seq<char>>::empty(),
    decreases routes.len(),
{
    if routes.len() > 0 {
        assert forall|i: int|
            0 <= i < routes.drop_last().len() implies !route_path_matches(
            #[trigger] routes.drop_last()[i],
            parts,
        ) by {
            assert(routes.drop_last()[i] == routes[i]);
        }
        lemma_allowed_of_none(routes.drop_last(), parts);
        assert(!route_path_matches(routes.last(), parts));
    }
}

/// When exactly one route's pattern matches the path, the
/// allowed-method list is exactly that route's declared methods.
proof fn lemma_allowed_of_single(routes: Seq<Route>, parts: Seq<Seq<char>>, i: int)
    requires
        0 <= i < routes.len(),
        route_path_matches(routes[i], parts),
        forall|j: int|
            0 <= j < routes.len() && j != i ==> !route_path_matches(#[trigger] routes[j], parts),
    ensures
        allowed_of(routes, parts) == routes[i].methods.deep_view(),
    decreases routes.len(),
{
    if i == routes.len() - 1 {
        assert forall|j: int|
            0 <= j < routes.drop_last().len() implies !route_path_matches(
            #[trigger] routes.drop_last()[j],
            parts,
        ) by {
            assert(routes.drop_last()[j] == routes[j]);
        }
        lemma_allowed_of_none(routes.drop_last(), parts);
        assert(routes.last() == routes[i]);
        assert(Seq::<Seq<char>>::empty() + routes[i].methods.deep_view() =~= routes[i].methods.deep_view());
    } else {
        assert(routes.last() == routes[routes.len() - 1]);
        assert(!route_path_matches(routes.last(), parts));
        assert(routes.drop_last()[i] == routes[i]);
        assert forall|j: int|
            0 <= j < routes.drop_last().len() && j != i implies !route_path_matches(
            #[trigger] routes.drop_last()[j],
            parts,
        ) by {
            assert(routes.drop_last()[j] == routes[j]);
        }
        lemma_allowed_of_single(routes.drop_last(), parts, i);
    }
}

/// A route whose pattern, method and guards all accept the request is
/// the route that resolution yields, with the captures the pattern
/// takes from the path: each named segment's name paired with the path
/// segment standing at its position.
pub proof fn lemma_matched_resolution(
    routes: Seq<Route>,
    method: Seq<char>,
    parts: Seq<Seq<char>>,
    headers: Seq<(Seq<char>, Seq<char>)>,
    r: MatchOutcome,
    i: int,
)
    requires
        routes_wf(routes),
        0 <= i < routes.len(),
        route_admits(routes[i], method, parts, headers),
        resolve_post(routes, method, parts, headers, r),
    ensures
        r matches MatchOutcome::Matched { route, captures } && route == i && captures.deep_view()
            == captures_of(routes[i].pattern.segments@, parts),
{
    match r {
        MatchOutcome::NoPathMatch => {
            assert(route_path_matches(routes[i], parts));
        },
        MatchOutcome::PathMatchedMethodMismatch { .. } => {
            assert(route_candidate(routes[i], method, parts));
        },
        MatchOutcome::PathMatchedGuardRejected => {
            assert(route_admits(routes[i], method, parts, headers));
        },
        MatchOutcome::Matched { route, .. } => {
            lemma_candidate_unique(routes, method, parts, route as int, i);
        },
    }
}

/// A request whose path's segment count differs from every registered
/// pattern resolves to `NoPathMatch`.
pub proof fn lemma_no_path_match(
    routes: Seq<Route>,
    method: Seq<char>,
    parts: Seq<Seq<char>>,
    headers: Seq<(Seq<char>, Seq<char>)>,
    r: MatchOutcome,
)
    requires
        forall|i: int|
            0 <= i < routes.len() ==> (#[trigger] routes[i]).pattern.segments@.len() != parts.len(),
        resolve_post(routes, method, parts, headers, r),
    ensures
        r is NoPathMatch,
{
    assert forall|i: int| 0 <= i < routes.len() implies !route_path_matches(
        #[trigger] routes[i],
        parts,
    ) by {}
    match r {
        MatchOutcome::NoPathMatch => {},
        MatchOutcome::PathMatchedMethodMismatch { .. } => {
            let i = choose|i: int|
                0 <= i < routes.len() && route_path_matches(#[trigger] routes[i], parts);
            assert(!route_path_matches(routes[i], parts));
        },
        MatchOutcome::PathMatchedGuardRejected => {
            let i = choose|i: int|
                0 <= i < routes.len() && route_candidate(#[trigger] routes[i], method, parts);
            assert(!route_path_matches(routes[i], parts));
        },
        MatchOutcome::Matched { route, .. } => {
            assert(!route_path_matches(routes[route as int], parts));
        },
    }
}

/// When a path matches exactly one route's pattern and the request
/// method is not among that route's declared methods, resolution
/// yields `PathMatchedMethodMismatch` listing exactly the declared
/// methods of that route.
pub proof fn lemma_method_mismatch(
    routes: Seq<Route>,
    method: Seq<char>,
    parts: Seq<Seq<char>>,
    headers: Seq<(Seq<char>, Seq<char>)>,
    r: MatchOutcome,
    i: int,
)
    requires
        0 <= i < routes.len(),
        route_path_matches(routes[i], parts),
        forall|j: int|
            0 <= j < routes.len() && j != i ==> !route_path_matches(#[trigger] routes[j], parts),
        !method_allowed(routes[i].methods@, method),
        resolve_post(routes, method, parts, headers, r),
    ensures
        r matches MatchOutcome::PathMatchedMethodMismatch { allowed } && allowed.deep_view()
            == routes[i].methods.deep_view(),
{
    assert forall|j: int| 0 <= j < routes.len() implies !route_candidate(
        #[trigger] routes[j],
        method,
        parts,
    ) by {}
    match r {
        MatchOutcome::NoPathMatch => {
            assert(route_path_matches(routes[i], parts));
        },
        MatchOutcome::PathMatchedMethodMismatch { .. } => {
            lemma_allowed_of_single(routes, parts, i);
        },
        MatchOutcome::PathMatchedGuardRejected => {
            let j = choose|j: int|
                0 <= j < routes.len() && route_candidate(#[trigger] routes[j], method, parts);
            assert(!route_candidate(routes[j], method, parts));
        },
        MatchOutcome::Matched { route, .. } => {
            assert(!route_candidate(routes[route as int], method, parts));
        },
    }
}

/// A route guarded by `HeaderEquals` turns away any request whose
/// first header of that name is absent or differs from the declared
/// value, even though pattern and method match: resolution yields
/// `PathMatchedGuardRejected`.
pub proof fn lemma_header_guard_rejects(
    routes: Seq<Route>,
    method: Seq<char>,
    parts: Seq<Seq<char>>,
    headers: Seq<(Seq<char>, Seq<char>)>,
    r: MatchOutcome,
    i: int,
    g: int,
)
    requires
        routes_wf(routes),
        0 <= i < routes.len(),
        route_candidate(routes[i], method, parts),
        0 <= g < routes[i].guards@.len(),
        routes[i].guards@[g] matches Guard::HeaderEquals(nm, v) && crate::request::first_value(
            headers,
            nm@,
        ) != Some(v@),
        resolve_post(routes, method, parts, headers, r),
    ensures
        r is PathMatchedGuardRejected,
{
    assert(!crate::guard::guard_holds(routes[i].guards@[g], method, headers));
    assert(!guards_pass(routes[i].guards@, method, headers));
    assert(!route_admits(routes[i], method, parts, headers));
    match r {
        MatchOutcome::NoPathMatch => {
            assert(route_path_matches(routes[i], parts));
        },
        MatchOutcome::PathMatchedMethodMismatch { .. } => {
            assert(route_candidate(routes[i], method, parts));
        },
        MatchOutcome::PathMatchedGuardRejected => {},
        MatchOutcome::Matched { route, .. } => {
            lemma_candidate_unique(routes, method, parts, route as int, i);
            assert(route_admits(routes[i], method, parts, headers));
        },
    }
}

/// Outcome equivalence: same variant, equal payload views.
pub open spec fn outcome_equiv(r1: MatchOutcome, r2: MatchOutcome) -> bool {
    match (r1, r2) {
        (MatchOutcome::NoPathMatch, MatchOutcome::NoPathMatch) => true,
        (MatchOutcome::PathMatchedGuardRejected, MatchOutcome::PathMatchedGuardRejected) => true,
        (
            MatchOutcome::PathMatchedMethodMismatch { allowed: a1 },
            MatchOutcome::PathMatchedMethodMismatch { allowed: a2 },
        ) => a1.deep_view() == a2.deep_view(),
        (
            MatchOutcome::Matched { route: i1, captures: c1 },
            MatchOutcome::Matched { route: i2, captures: c2 },
        ) => i1 == i2 && c1.deep_view() == c2.deep_view(),
        _ => false,
    }
}

/// Resolution is deterministic: two resolutions of the same request
/// against the same well-formed table yield identical outcomes. The
/// route table is immutable after build and resolution consults
/// nothing else, so resolving twice with no intervening change gives
/// equal results.
pub proof fn lemma_resolve_deterministic(
    routes: Seq<Route>,
    method: Seq<char>,
    parts: Seq<Seq<char>>,
    headers: Seq<(Seq<char>, Seq<char>)>,
    r1: MatchOutcome,
    r2: MatchOutcome,
)
    requires
        routes_wf(routes),
        resolve_post(routes, method, parts, headers, r1),
        resolve_post(routes, method, parts, headers, r2),
    ensures
        outcome_equiv(r1, r2),
{
    match r1 {
        MatchOutcome::Matched { route, .. } => {
            lemma_matched_resolution(routes, method, parts, headers, r2, route as int);
        },
        MatchOutcome::NoPathMatch => {
            match r2 {
                MatchOutcome::NoPathMatch => {},
                MatchOutcome::PathMatchedMethodMismatch { .. } => {
                    let i = choose|i: int|
                        0 <= i < routes.len() && route_path_matches(#[trigger] routes[i], parts);
                    assert(!route_path_matches(routes[i], parts));
                },
                MatchOutcome::PathMatchedGuardRejected => {
                    let i = choose|i: int|
                        0 <= i < routes.len() && route_candidate(#[trigger] routes[i], method, parts);
                    assert(!route_path_matches(routes[i], parts));
                },
                MatchOutcome::Matched { route, .. } => {
                    assert(!route_path_matches(routes[route as int], parts));
                },
            }
        },
        MatchOutcome::PathMatchedMethodMismatch { .. } => {
            match r2 {
                MatchOutcome::NoPathMatch => {
                    let i = choose|i: int|
                        0 <= i < routes.len() && route_path_matches(#[trigger] routes[i], parts);
                    assert(!route_path_matches(routes[i], parts));
                },
                MatchOutcome::PathMatchedMethodMismatch { .. } => {},
                MatchOutcome::PathMatchedGuardRejected => {
                    let i = choose|i: int|
                        0 <= i < routes.len() && route_candidate(#[trigger] routes[i], method, parts);
                    assert(!route_candidate(routes[i], method, parts));
                },
                MatchOutcome::Matched { route, .. } => {
                    assert(!route_candidate(routes[route as int], method, parts));
                },
            }
        },
        MatchOutcome::PathMatchedGuardRejected => {
            match r2 {
                MatchOutcome::NoPathMatch => {
                    let i = choose|i: int|
                        0 <= i < routes.len() && route_candidate(#[trigger] routes[i], method, parts);
                    assert(!route_path_matches(routes[i], parts));
                },
                MatchOutcome::PathMatchedMethodMismatch { .. } => {
                    let i = choose|i: int|
                        0 <= i < routes.len() && route_candidate(#[trigger] routes[i], method, parts);
                    assert(!route_candidate(routes[i], method, parts));
                },
                MatchOutcome::PathMatchedGuardRejected => {},
                MatchOutcome::Matched { route, .. } => {
                    assert(!route_admits(routes[route as int], method, parts, headers));
                },
            }
        },
    }
}

proof fn lemma_overlap_symm(a: Seq<Segment>, b: Seq<Segment>)
    requires
        segs_overlap(b, a),
    ensures
        segs_overlap(a, b),
{
    assert forall|i: int| 0 <= i < a.len() implies #[trigger] crate::pattern::seg_compat(
        a[i],
        b[i],
    ) by {
        assert(crate::pattern::seg_compat(b[i], a[i]));
    }
}

proof fn lemma_intersect_symm(a: Seq<String>, b: Seq<String>)
    requires
        methods_intersect(b, a),
    ensures
        methods_intersect(a, b),
{
    let (x, y) = choose|x: int, y: int|
        0 <= x < b.len() && 0 <= y < a.len() && #[trigger] method_eq(b[x]@, a[y]@);
    assert(method_eq(a[y]@, b[x]@));
}

} // verus!
