//! The route table and the router.
//!
//! A table is built once from compiled templates and refuses to come into
//! being where two of them are ambiguous. After that it is only read: for a
//! method and a path it names the one template that takes precedence among
//! those that match, or says why there is none.

use vstd::prelude::*;
use vstd::string::*;

use crate::matching::{
    ambiguous, are_ambiguous, bindings, bindings_view, extract_labels, lemma_outranks_asymmetric,
    lemma_outranks_transitive, matches_path, outranks, overlap, request_segments, split_path,
    takes_precedence, template_matches, LabelBinding,
};
use crate::method::Method;
use crate::template::{BuildError, BuildErrorSpec, OperationId, RouteTemplate, TemplateSpec};
use crate::text::pieces_view;

verus! {

/// The models of a vector of templates.
pub open spec fn templates_view(v: Seq<RouteTemplate>) -> Seq<TemplateSpec> {
    Seq::new(v.len(), |i: int| v[i]@)
}

/// Whether two templates answer to the same method and are ambiguous.
pub open spec fn conflicts(a: TemplateSpec, b: TemplateSpec) -> bool {
    a.method == b.method && ambiguous(a.segments, b.segments)
}

/// Whether no two templates of the list conflict.
pub open spec fn conflict_free(routes: Seq<TemplateSpec>) -> bool {
    forall|p: int, q: int| 0 <= p < q < routes.len() ==> !conflicts(#[trigger] routes[p], #[trigger] routes[q])
}

/// Whether `(i, j)` is the first conflicting pair of the list, pairs being
/// ordered by their first member and then by their second.
pub open spec fn is_first_conflict(routes: Seq<TemplateSpec>, i: int, j: int) -> bool {
    &&& 0 <= i < j < routes.len()
    &&& conflicts(routes[i], routes[j])
    &&& forall|p: int, q: int|
        0 <= p < q < routes.len() && (p < i || (p == i && q < j)) ==> !conflicts(
            #[trigger] routes[p],
            #[trigger] routes[q],
        )
}

/// The invariant of a route table: every template is well formed and no two
/// conflict.
pub open spec fn table_wf(routes: Seq<TemplateSpec>) -> bool {
    &&& forall|i: int| 0 <= i < routes.len() ==> (#[trigger] routes[i]).wf()
    &&& conflict_free(routes)
}

/// Why a request was not routed.
#[derive(Clone, Debug, PartialEq, Eq)]
pub enum UnmatchedReason {
    /// No template matches the path, whatever the method.
    NoPathMatch,
    /// Templates match the path, but none of them for the request's method.
    /// `allowed` holds the methods for which one does.
    PathMatchedWrongMethod { allowed: Vec<Method> },
}

/// What routing a request came to.
#[derive(Clone, Debug, PartialEq, Eq)]
pub enum MatchOutcome {
    /// The request goes to `operation`, with the values of the labels.
    Matched { operation: OperationId, labels: Vec<LabelBinding> },
    /// The request goes nowhere.
    Unmatched(UnmatchedReason),
}

/// Mathematical model of [`MatchOutcome`].
pub ghost enum MatchOutcomeSpec {
    Matched { operation: OperationId, labels: Seq<(Seq<u8>, Seq<u8>)> },
    NoPathMatch,
    PathMatchedWrongMethod { allowed: Seq<Method> },
}

impl View for MatchOutcome {
    type V = MatchOutcomeSpec;

    open spec fn view(&self) -> MatchOutcomeSpec {
        match self {
            MatchOutcome::Matched { operation, labels } => MatchOutcomeSpec::Matched {
                operation: *operation,
                labels: bindings_view(labels@),
            },
            MatchOutcome::Unmatched(UnmatchedReason::NoPathMatch) => MatchOutcomeSpec::NoPathMatch,
            MatchOutcome::Unmatched(UnmatchedReason::PathMatchedWrongMethod { allowed }) => {
                MatchOutcomeSpec::PathMatchedWrongMethod { allowed: allowed@ }
            },
        }
    }
}

/// Whether template `i` answers to `method` and matches the path segments.
pub open spec fn candidate(
    routes: Seq<TemplateSpec>,
    method: Method,
    pieces: Seq<Seq<u8>>,
    i: int,
) -> bool {
    &&& 0 <= i < routes.len()
    &&& routes[i].method == method
    &&& template_matches(routes[i].segments, pieces)
}

/// Whether template `i` is a candidate that takes precedence over every
/// other candidate.
pub open spec fn is_winner(
    routes: Seq<TemplateSpec>,
    method: Method,
    pieces: Seq<Seq<u8>>,
    i: int,
) -> bool {
    &&& candidate(routes, method, pieces, i)
    &&& forall|j: int|
        j != i && #[trigger] candidate(routes, method, pieces, j) ==> outranks(
            routes[i].segments,
            routes[j].segments,
        )
}

/// The methods of the first `k` templates that match the path segments, each
/// once, in the order in which the table first shows them.
pub open spec fn allowed_upto(routes: Seq<TemplateSpec>, pieces: Seq<Seq<u8>>, k: nat) -> Seq<
    Method,
>
    decreases k,
{
    if k == 0 {
        Seq::<Method>::empty()
    } else {
        let before = allowed_upto(routes, pieces, (k - 1) as nat);
        let route = routes[k - 1];
        if template_matches(route.segments, pieces) && !before.contains(route.method) {
            before.push(route.method)
        } else {
            before
        }
    }
}

/// The methods for which some template matches the path segments.
pub open spec fn allowed_methods(routes: Seq<TemplateSpec>, pieces: Seq<Seq<u8>>) -> Seq<Method> {
    allowed_upto(routes, pieces, routes.len())
}

/// What the router owes for a method and a path.
///
/// A path without a leading `/` matches nothing. Otherwise: where a template
/// for the method matches, the outcome names the winner's operation and the
/// values it binds; where templates match but none for the method, the
/// outcome lists the methods that would do; where no template matches, it
/// says so.
pub open spec fn is_route_outcome(
    routes: Seq<TemplateSpec>,
    method: Method,
    path: Seq<u8>,
    outcome: MatchOutcomeSpec,
) -> bool {
    match request_segments(path) {
        None => outcome is NoPathMatch,
        Some(pieces) => match outcome {
            MatchOutcomeSpec::Matched { operation, labels } => exists|i: int|
                #[trigger] is_winner(routes, method, pieces, i) && operation == routes[i].operation
                    && labels == bindings(routes[i].segments, pieces),
            MatchOutcomeSpec::PathMatchedWrongMethod { allowed } => {
                &&& forall|i: int| !#[trigger] candidate(routes, method, pieces, i)
                &&& allowed.len() > 0
                &&& allowed == allowed_methods(routes, pieces)
            },
            MatchOutcomeSpec::NoPathMatch => forall|i: int|
                0 <= i < routes.len() ==> !template_matches(
                    (#[trigger] routes[i]).segments,
                    pieces,
                ),
        },
    }
}

/// What the router owes for a path where the request's method is none that
/// a template can answer to: the methods that would do, or that no template
/// matches.
pub open spec fn is_unrouted_outcome(
    routes: Seq<TemplateSpec>,
    path: Seq<u8>,
    outcome: MatchOutcomeSpec,
) -> bool {
    match request_segments(path) {
        None => outcome is NoPathMatch,
        Some(pieces) => if allowed_methods(routes, pieces).len() > 0 {
            outcome == (MatchOutcomeSpec::PathMatchedWrongMethod {
                allowed: allowed_methods(routes, pieces),
            })
        } else {
            outcome is NoPathMatch
        },
    }
}

/// What the router owes for a method given by name and a path.
pub open spec fn is_named_route_outcome(
    routes: Seq<TemplateSpec>,
    method: Seq<char>,
    path: Seq<u8>,
    outcome: MatchOutcomeSpec,
) -> bool {
    match Method::named(method) {
        Some(m) => is_route_outcome(routes, m, path, outcome),
        None => is_unrouted_outcome(routes, path, outcome),
    }
}

/// The list of allowed methods holds a method exactly when one of the
/// templates read so far matches for it, and holds no method twice.
pub proof fn lemma_allowed_methods(routes: Seq<TemplateSpec>, pieces: Seq<Seq<u8>>, k: nat)
    requires
        k <= routes.len(),
    ensures
        allowed_upto(routes, pieces, k).no_duplicates(),
        forall|m: Method|
            allowed_upto(routes, pieces, k).contains(m) <==> exists|i: int|
                0 <= i < k && (#[trigger] routes[i]).method == m && template_matches(
                    routes[i].segments,
                    pieces,
                ),
    decreases k,
{
    if k > 0 {
        let before = allowed_upto(routes, pieces, (k - 1) as nat);
        let now = allowed_upto(routes, pieces, k);
        let route = routes[k - 1];
        lemma_allowed_methods(routes, pieces, (k - 1) as nat);
        let added = template_matches(route.segments, pieces) && !before.contains(route.method);
        if added {
            assert(now == before.push(route.method));
            assert(now[before.len() as int] == route.method);
        }
        assert forall|m: Method| now.contains(m) implies exists|i: int|
            0 <= i < k && (#[trigger] routes[i]).method == m && template_matches(
                routes[i].segments,
                pieces,
            ) by {
            let at = choose|at: int| 0 <= at < now.len() && now[at] == m;
            if added && at == before.len() {
                assert(routes[k - 1].method == m);
            } else {
                assert(before[at] == m);
                assert(before.contains(m));
                let i = choose|i: int|
                    0 <= i < k - 1 && (#[trigger] routes[i]).method == m && template_matches(
                        routes[i].segments,
                        pieces,
                    );
                assert(0 <= i < k && routes[i].method == m);
            }
        }
        assert forall|m: Method| (exists|i: int|
            0 <= i < k && (#[trigger] routes[i]).method == m && template_matches(
                routes[i].segments,
                pieces,
            )) implies now.contains(m) by {
            let i = choose|i: int|
                0 <= i < k && (#[trigger] routes[i]).method == m && template_matches(
                    routes[i].segments,
                    pieces,
                );
            if i < k - 1 {
                assert(before.contains(m));
                let at = choose|at: int| 0 <= at < before.len() && before[at] == m;
                assert(now[at] == m);
            } else if added {
                assert(now[before.len() as int] == m);
            } else {
                assert(before.contains(m));
            }
        }
    }
}

/// At most one template is the winner.
pub proof fn lemma_winner_unique(
    routes: Seq<TemplateSpec>,
    method: Method,
    pieces: Seq<Seq<u8>>,
    i: int,
    j: int,
)
    requires
        is_winner(routes, method, pieces, i),
        is_winner(routes, method, pieces, j),
    ensures
        i == j,
{
    if i != j {
        assert(candidate(routes, method, pieces, j));
        assert(candidate(routes, method, pieces, i));
        lemma_outranks_asymmetric(routes[i].segments, routes[j].segments);
    }
}

/// Routing is deterministic: the table, the method and the path leave room
/// for one outcome only.
pub proof fn lemma_route_deterministic(
    routes: Seq<TemplateSpec>,
    method: Method,
    path: Seq<u8>,
    first: MatchOutcomeSpec,
    second: MatchOutcomeSpec,
)
    requires
        is_route_outcome(routes, method, path, first),
        is_route_outcome(routes, method, path, second),
    ensures
        first == second,
{
    match request_segments(path) {
        None => {},
        Some(pieces) => {
            lemma_allowed_methods(routes, pieces, routes.len());
            let allowed = allowed_methods(routes, pieces);
            if first is Matched {
                let i = choose|i: int|
                    #[trigger] is_winner(routes, method, pieces, i) && first->operation
                        == routes[i].operation && first->labels == bindings(
                        routes[i].segments,
                        pieces,
                    );
                assert(candidate(routes, method, pieces, i));
                if second is Matched {
                    let j = choose|j: int|
                        #[trigger] is_winner(routes, method, pieces, j) && second->operation
                            == routes[j].operation && second->labels == bindings(
                            routes[j].segments,
                            pieces,
                        );
                    lemma_winner_unique(routes, method, pieces, i, j);
                }
            } else if second is Matched {
                let j = choose|j: int|
                    #[trigger] is_winner(routes, method, pieces, j) && second->operation
                        == routes[j].operation && second->labels == bindings(
                        routes[j].segments,
                        pieces,
                    );
                assert(candidate(routes, method, pieces, j));
            } else if first is PathMatchedWrongMethod && second is NoPathMatch {
                assert(allowed.contains(allowed[0]));
            } else if first is NoPathMatch && second is PathMatchedWrongMethod {
                assert(allowed.contains(allowed[0]));
            }
        },
    }
}

/// Whether template `b` is a candidate among the first `k` templates that
/// takes precedence over every other candidate among them.
pub open spec fn is_winner_upto(
    routes: Seq<TemplateSpec>,
    method: Method,
    pieces: Seq<Seq<u8>>,
    k: nat,
    b: int,
) -> bool {
    &&& b < k
    &&& candidate(routes, method, pieces, b)
    &&& forall|j: int|
        j < k && j != b && #[trigger] candidate(routes, method, pieces, j) ==> outranks(
            routes[b].segments,
            routes[j].segments,
        )
}

/// In a table free of conflicts, the candidates among the first `k`
/// templates have a winner as soon as there is one of them.
pub proof fn lemma_winner_exists(
    routes: Seq<TemplateSpec>,
    method: Method,
    pieces: Seq<Seq<u8>>,
    k: nat,
)
    requires
        table_wf(routes),
        k <= routes.len(),
        exists|j: int| j < k && #[trigger] candidate(routes, method, pieces, j),
    ensures
        exists|b: int| #[trigger] is_winner_upto(routes, method, pieces, k, b),
    decreases k,
{
    let last = k - 1;
    let shorter = (k - 1) as nat;
    if exists|j: int| j < shorter && #[trigger] candidate(routes, method, pieces, j) {
        lemma_winner_exists(routes, method, pieces, shorter);
        let b = choose|b: int| #[trigger] is_winner_upto(routes, method, pieces, shorter, b);
        if candidate(routes, method, pieces, last) {
            let held = routes[b].segments;
            let fresh = routes[last].segments;
            assert(template_matches(held, pieces) && template_matches(fresh, pieces));
            assert(overlap(held, fresh));
            assert(!conflicts(routes[b], routes[last]));
            if outranks(fresh, held) {
                assert forall|j: int|
                    j < k && j != last && #[trigger] candidate(
                        routes,
                        method,
                        pieces,
                        j,
                    ) implies outranks(fresh, routes[j].segments) by {
                    if j != b {
                        lemma_outranks_transitive(fresh, held, routes[j].segments);
                    }
                }
                assert(is_winner_upto(routes, method, pieces, k, last));
            } else {
                assert(is_winner_upto(routes, method, pieces, k, b));
            }
        } else {
            assert(is_winner_upto(routes, method, pieces, k, b));
        }
    } else {
        let j = choose|j: int| j < k && #[trigger] candidate(routes, method, pieces, j);
        assert(j == last);
        assert(is_winner_upto(routes, method, pieces, k, last));
    }
}

/// Every request has an outcome: in a table free of conflicts, whatever the
/// method and the path, some outcome is the one the router owes. With
/// [`lemma_route_deterministic`], there is exactly one.
pub proof fn lemma_route_outcome_exists(routes: Seq<TemplateSpec>, method: Method, path: Seq<u8>)
    requires
        table_wf(routes),
    ensures
        exists|outcome: MatchOutcomeSpec| #[trigger] is_route_outcome(routes, method, path, outcome),
{
    match request_segments(path) {
        None => {
            assert(is_route_outcome(routes, method, path, MatchOutcomeSpec::NoPathMatch));
        },
        Some(pieces) => {
            let n = routes.len();
            lemma_allowed_methods(routes, pieces, n);
            let allowed = allowed_methods(routes, pieces);
            if exists|j: int| j < n && #[trigger] candidate(routes, method, pieces, j) {
                lemma_winner_exists(routes, method, pieces, n);
                let b = choose|b: int| #[trigger] is_winner_upto(routes, method, pieces, n, b);
                assert(is_winner(routes, method, pieces, b));
                let outcome = MatchOutcomeSpec::Matched {
                    operation: routes[b].operation,
                    labels: bindings(routes[b].segments, pieces),
                };
                assert(is_route_outcome(routes, method, path, outcome));
            } else if allowed.len() > 0 {
                let outcome = MatchOutcomeSpec::PathMatchedWrongMethod { allowed };
                assert(is_route_outcome(routes, method, path, outcome));
            } else {
                assert forall|i: int| 0 <= i < routes.len() implies !template_matches(
                    (#[trigger] routes[i]).segments,
                    pieces,
                ) by {
                    if template_matches(routes[i].segments, pieces) {
                        assert(allowed.contains(routes[i].method));
                    }
                }
                assert(is_route_outcome(routes, method, path, MatchOutcomeSpec::NoPathMatch));
            }
        },
    }
}

/// Whether `methods` holds `method`.
pub fn contains_method(methods: &Vec<Method>, method: Method) -> (found: bool)
    ensures
        found == methods@.contains(method),
{
    let mut i: usize = 0;
    while i < methods.len()
        invariant
            i <= methods.len(),
            forall|j: int| 0 <= j < i ==> methods@[j] != method,
        decreases methods.len() - i,
    {
        if methods[i] == method {
            return true;
        }
        i += 1;
    }
    false
}

/// The set of routes of a service, checked for ambiguity when it was built.
#[derive(Debug)]
pub struct RouteTable {
    routes: Vec<RouteTemplate>,
}

impl View for RouteTable {
    type V = Seq<TemplateSpec>;

    closed spec fn view(&self) -> Seq<TemplateSpec> {
        templates_view(self.routes@)
    }
}

impl RouteTable {
    /// Every table that exists was built, and so is free of conflicts.
    #[verifier::type_invariant]
    spec fn built(self) -> bool {
        table_wf(templates_view(self.routes@))
    }

    /// Builds the table from the templates of a service.
    ///
    /// The table holds the templates as they were handed in, and is built
    /// exactly when no two of them conflict. Otherwise the error names the
    /// first conflicting pair.
    pub fn build(templates: Vec<RouteTemplate>) -> (built: Result<RouteTable, BuildError>)
        ensures
            match built {
                Ok(table) => table@ == templates_view(templates@) && table_wf(table@),
                Err(error) => exists|i: int, j: int|
                    #![trigger is_first_conflict(templates_view(templates@), i, j)]
                    is_first_conflict(templates_view(templates@), i, j) && error@
                        == (BuildErrorSpec::Ambiguous {
                        first: i,
                        second: j,
                        first_pattern: templates_view(templates@)[i].pattern,
                        second_pattern: templates_view(templates@)[j].pattern,
                    }),
            },
    {
        let ghost routes = templates_view(templates@);
        let n: usize = templates.len();
        let mut i: usize = 0;
        while i < n
            invariant
                i <= n,
                n == templates.len(),
                routes == templates_view(templates@),
                forall|p: int| 0 <= p < i ==> (#[trigger] routes[p]).wf(),
                forall|p: int, q: int|
                    0 <= p < q < n && p < i ==> !conflicts(#[trigger] routes[p], #[trigger] routes[q]),
            decreases n - i,
        {
            let first = &templates[i];
            let first_segments = first.segments();
            assert(routes[i as int] == first@);
            let mut j: usize = i + 1;
            while j < n
                invariant
                    i < j <= n,
                    n == templates.len(),
                    routes == templates_view(templates@),
                    first@ == routes[i as int],
                    first@.wf(),
                    crate::template::segments_view(first_segments@) == routes[i as int].segments,
                    forall|p: int, q: int|
                        0 <= p < q < n && (p < i || (p == i && q < j)) ==> !conflicts(
                            #[trigger] routes[p],
                            #[trigger] routes[q],
                        ),
                decreases n - j,
            {
                let second = &templates[j];
                let second_segments = second.segments();
                assert(routes[j as int] == second@);
                if first.method() == second.method() && are_ambiguous(
                    first_segments,
                    second_segments,
                ) {
                    assert(is_first_conflict(routes, i as int, j as int));
                    return Err(
                        BuildError::Ambiguous {
                            first: i,
                            second: j,
                            first_pattern: first.pattern().to_owned(),
                            second_pattern: second.pattern().to_owned(),
                        },
                    );
                }
                j += 1;
            }
            i += 1;
        }
        Ok(RouteTable { routes: templates })
    }

    /// The number of routes.
    pub fn len(&self) -> (n: usize)
        ensures
            n == self@.len(),
            table_wf(self@),
    {
        proof {
            use_type_invariant(self);
        }
        self.routes.len()
    }

    /// The route at position `i`.
    pub fn get(&self, i: usize) -> (route: Option<&RouteTemplate>)
        ensures
            match route {
                Some(r) => i < self@.len() && r@ == self@[i as int],
                None => i >= self@.len(),
            },
    {
        if i < self.routes.len() {
            Some(&self.routes[i])
        } else {
            None
        }
    }

    /// The methods for which some template matches `path`, each once, in
    /// table order; none where the path has no leading `/`.
    pub fn allowed(&self, path: &str) -> (methods: Vec<Method>)
        ensures
            methods@ == match request_segments(path.spec_bytes()) {
                Some(pieces) => allowed_methods(self@, pieces),
                None => Seq::<Method>::empty(),
            },
    {
        let ghost routes = self@;
        let mut methods: Vec<Method> = Vec::new();
        let pieces = match split_path(path.as_bytes()) {
            Some(pieces) => pieces,
            None => {
                return methods;
            },
        };
        let ghost pv = pieces_view(pieces@);
        let n: usize = self.routes.len();
        let mut i: usize = 0;
        while i < n
            invariant
                i <= n,
                n == self.routes.len(),
                routes == templates_view(self.routes@),
                pv == pieces_view(pieces@),
                methods@ == allowed_upto(routes, pv, i as nat),
            decreases n - i,
        {
            let route = &self.routes[i];
            let segments = route.segments();
            assert(routes[i as int] == route@);
            assert(((i + 1) as nat - 1) as nat == i as nat);
            if matches_path(segments, &pieces) && !contains_method(&methods, route.method()) {
                methods.push(route.method());
            }
            i += 1;
        }
        methods
    }

    /// Routes a request whose method is given by its wire name. A name that
    /// is no standard method is a method that no template answers to.
    pub fn route_named(&self, method: &str, path: &str) -> (outcome: MatchOutcome)
        ensures
            is_named_route_outcome(self@, method@, path.spec_bytes(), outcome@),
    {
        match Method::from_name(method) {
            Some(m) => self.route(m, path),
            None => {
                let allowed = self.allowed(path);
                if allowed.len() > 0 {
                    MatchOutcome::Unmatched(UnmatchedReason::PathMatchedWrongMethod { allowed })
                } else {
                    MatchOutcome::Unmatched(UnmatchedReason::NoPathMatch)
                }
            },
        }
    }

    /// Routes a request: finds the template that handles `method` and
    /// `path`, or says why none does. The outcome is the one that
    /// [`is_route_outcome`] allows.
    pub fn route(&self, method: Method, path: &str) -> (outcome: MatchOutcome)
        ensures
            is_route_outcome(self@, method, path.spec_bytes(), outcome@),
    {
        proof {
            use_type_invariant(self);
        }
        let ghost routes = self@;
        let pieces = match split_path(path.as_bytes()) {
            Some(pieces) => pieces,
            None => {
                return MatchOutcome::Unmatched(UnmatchedReason::NoPathMatch);
            },
        };
        let ghost pv = pieces_view(pieces@);
        let n: usize = self.routes.len();
        let mut best: Option<usize> = None;
        let mut allowed: Vec<Method> = Vec::new();
        let mut i: usize = 0;
        while i < n
            invariant
                i <= n,
                n == self.routes.len(),
                routes == templates_view(self.routes@),
                table_wf(routes),
                pv == pieces_view(pieces@),
                allowed@ == allowed_upto(routes, pv, i as nat),
                match best {
                    Some(b) => b < i && candidate(routes, method, pv, b as int) && forall|j: int|
                        0 <= j < i && j != b && #[trigger] candidate(routes, method, pv, j)
                            ==> outranks(routes[b as int].segments, routes[j].segments),
                    None => forall|j: int| 0 <= j < i ==> !#[trigger] candidate(routes, method, pv, j),
                },
            decreases n - i,
        {
            let route = &self.routes[i];
            let segments = route.segments();
            assert(routes[i as int] == route@);
            assert(((i + 1) as nat - 1) as nat == i as nat);
            if matches_path(segments, &pieces) {
                if !contains_method(&allowed, route.method()) {
                    allowed.push(route.method());
                }
                if route.method() == method {
                    match best {
                        None => {
                            best = Some(i);
                        },
                        Some(b) => {
                            let held = self.routes[b].segments();
                            assert(routes[b as int] == self.routes@[b as int]@);
                            if takes_precedence(segments, held) {
                                assert forall|j: int|
                                    0 <= j < i + 1 && j != i && #[trigger] candidate(
                                        routes,
                                        method,
                                        pv,
                                        j,
                                    ) implies outranks(
                                    routes[i as int].segments,
                                    routes[j].segments,
                                ) by {
                                    if j != b {
                                        lemma_outranks_transitive(
                                            routes[i as int].segments,
                                            routes[b as int].segments,
                                            routes[j].segments,
                                        );
                                    }
                                }
                                best = Some(i);
                            } else {
                                assert(!conflicts(routes[b as int], routes[i as int]));
                                assert(template_matches(routes[b as int].segments, pv));
                                assert(overlap(routes[b as int].segments, routes[i as int].segments));
                            }
                        },
                    }
                }
            }
            i += 1;
        }
        proof {
            lemma_allowed_methods(routes, pv, n as nat);
        }
        match best {
            Some(b) => {
                let winner = &self.routes[b];
                let segments = winner.segments();
                assert(routes[b as int] == winner@);
                let labels = extract_labels(segments, &pieces);
                assert(is_winner(routes, method, pv, b as int));
                MatchOutcome::Matched { operation: winner.operation(), labels }
            },
            None => {
                if allowed.len() > 0 {
                    MatchOutcome::Unmatched(UnmatchedReason::PathMatchedWrongMethod { allowed })
                } else {
                    assert forall|j: int| 0 <= j < routes.len() implies !template_matches(
                        (#[trigger] routes[j]).segments,
                        pv,
                    ) by {
                        if template_matches(routes[j].segments, pv) {
                            assert(allowed@.contains(routes[j].method));
                        }
                    }
                    MatchOutcome::Unmatched(UnmatchedReason::NoPathMatch)
                }
            },
        }
    }
}

} // verus!
