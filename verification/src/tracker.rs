//! The dependency tracer: from a seed symbol, every chain of consumers
//! reachable over the used-by graph, memoized per tracer.

use vstd::prelude::*;

use crate::table::seq_contains_key;
use crate::table::seq_get;
use crate::types::AnalysisError;
use crate::used_by_graph::UsedBy;
use crate::used_by_graph::UsedByGraph;
use crate::used_by_graph::UsedByType;

verus! {

/// The symbol a trace starts from or passes through.
#[derive(Clone, Debug, PartialEq, Eq)]
pub enum TraceTarget {
    NamedExport(String),
    DefaultExport,
    LocalVar(String),
}

pub ghost enum TraceTargetV {
    NamedExport(Seq<char>),
    DefaultExport,
    LocalVar(Seq<char>),
}

impl DeepView for TraceTarget {
    type V = TraceTargetV;

    open spec fn deep_view(&self) -> TraceTargetV {
        match self {
            TraceTarget::NamedExport(s) => TraceTargetV::NamedExport(s@),
            TraceTarget::DefaultExport => TraceTargetV::DefaultExport,
            TraceTarget::LocalVar(s) => TraceTargetV::LocalVar(s@),
        }
    }
}

/// The display name of a target: the symbol name, or `default`.
pub open spec fn target_name(t: TraceTargetV) -> Seq<char> {
    match t {
        TraceTargetV::NamedExport(s) => s,
        TraceTargetV::DefaultExport => "default"@,
        TraceTargetV::LocalVar(s) => s,
    }
}

impl TraceTarget {
    pub fn duplicate(&self) -> (r: Self)
        ensures
            r.deep_view() == self.deep_view(),
    {
        match self {
            TraceTarget::NamedExport(s) => TraceTarget::NamedExport(s.clone()),
            TraceTarget::DefaultExport => TraceTarget::DefaultExport,
            TraceTarget::LocalVar(s) => TraceTarget::LocalVar(s.clone()),
        }
    }

    pub fn same_as(&self, other: &TraceTarget) -> (r: bool)
        ensures
            r == (self.deep_view() == other.deep_view()),
    {
        match (self, other) {
            (TraceTarget::NamedExport(a), TraceTarget::NamedExport(b)) => *a == *b,
            (TraceTarget::DefaultExport, TraceTarget::DefaultExport) => true,
            (TraceTarget::LocalVar(a), TraceTarget::LocalVar(b)) => *a == *b,
            _ => false,
        }
    }

    /// The display name: the symbol name, or `default`.
    pub fn to_string(&self) -> (r: String)
        ensures
            r@ == target_name(self.deep_view()),
    {
        match self {
            TraceTarget::NamedExport(s) => s.clone(),
            TraceTarget::DefaultExport => {
                proof {
                    reveal_strlit("default");
                }
                String::from_str("default")
            }
            TraceTarget::LocalVar(s) => s.clone(),
        }
    }
}

/// A module path together with a target in it.
pub type ModuleSymbol = (String, TraceTarget);

pub ghost struct ModuleSymbolV {
    pub path: Seq<char>,
    pub target: TraceTargetV,
}

/// The view of a module symbol.
pub open spec fn ms_view(ms: ModuleSymbol) -> ModuleSymbolV {
    ModuleSymbolV { path: ms.0@, target: ms.1.deep_view() }
}

pub open spec fn path_view(p: Seq<ModuleSymbol>) -> Seq<ModuleSymbolV> {
    p.map_values(|m: ModuleSymbol| ms_view(m))
}

pub open spec fn paths_view(ps: Seq<Vec<ModuleSymbol>>) -> Seq<Seq<ModuleSymbolV>> {
    ps.map_values(|p: Vec<ModuleSymbol>| path_view(p@))
}

pub type CacheV = Seq<(ModuleSymbolV, Seq<Seq<ModuleSymbolV>>)>;

pub open spec fn c_contains(c: CacheV, q: ModuleSymbolV) -> bool {
    exists|i: int| 0 <= i < c.len() && c[i].0 == q
}

/// The first cached result for `q`.
pub open spec fn c_index(c: CacheV, q: ModuleSymbolV) -> int
    decreases c.len(),
{
    if c.len() == 0 {
        0
    } else if c[0].0 == q {
        0
    } else {
        1 + c_index(c.drop_first(), q)
    }
}

pub open spec fn c_get(c: CacheV, q: ModuleSymbolV) -> Seq<Seq<ModuleSymbolV>> {
    c[c_index(c, q)].1
}

pub proof fn lemma_c_index(c: CacheV, q: ModuleSymbolV)
    requires
        c_contains(c, q),
    ensures
        0 <= c_index(c, q) < c.len(),
        c[c_index(c, q)].0 == q,
        forall|i: int| 0 <= i < c_index(c, q) ==> c[i].0 != q,
    decreases c.len(),
{
    if c.len() > 0 && c[0].0 != q {
        assert(c_contains(c.drop_first(), q)) by {
            let i = choose|i: int| 0 <= i < c.len() && c[i].0 == q;
            assert(c.drop_first()[i - 1].0 == q);
        }
        lemma_c_index(c.drop_first(), q);
        assert forall|i: int| 0 <= i < c_index(c, q) implies c[i].0 != q by {
            if i > 0 {
                assert(c.drop_first()[i - 1].0 != q);
            }
        }
    }
}

/// What one `trace` call guarantees of the memo cache: a hit returns the
/// cached value and changes nothing; a successful miss is cached under the
/// query; the `routeNames` barrier short-circuits to no paths.
pub open spec fn trace_post(
    pre: CacheV,
    post: CacheV,
    q: ModuleSymbolV,
    paths: Seq<Seq<ModuleSymbolV>>,
) -> bool {
    if target_name(q.target) == "routeNames"@ {
        paths.len() == 0 && post == pre
    } else {
        &&& c_contains(post, q)
        &&& c_get(post, q) == paths
        &&& (c_contains(pre, q) ==> paths == c_get(pre, q) && post == pre)
    }
}

/// Every reported path is a non-empty chain that ends at the traced
/// symbol.
pub open spec fn paths_ok(paths: Seq<Seq<ModuleSymbolV>>, q: ModuleSymbolV) -> bool {
    forall|i: int|
        0 <= i < paths.len() ==> (#[trigger] paths[i]).len() > 0 && paths[i].last() == q
}

/// Every cached result consists of paths ending at its own key.
pub open spec fn cache_ok(c: CacheV) -> bool {
    forall|i: int| 0 <= i < c.len() ==> paths_ok((#[trigger] c[i]).1, c[i].0)
}

/// The graph holds no symbol for the query: the module is absent, or a
/// named-export / local target name is absent from its table. An absent
/// default export is not missing — it merely has no consumers.
pub open spec fn seed_missing(g: UsedByGraph, q: ModuleSymbolV) -> bool {
    if !seq_contains_key(g.modules@, q.path) {
        true
    } else {
        let m = seq_get(g.modules@, q.path);
        match q.target {
            TraceTargetV::NamedExport(n) => !seq_contains_key(m.named_export_table, n),
            TraceTargetV::LocalVar(n) => !seq_contains_key(m.local_variable_table, n),
            TraceTargetV::DefaultExport => false,
        }
    }
}

/// The graph holds the symbol but records no user for it.
pub open spec fn no_users(g: UsedByGraph, q: ModuleSymbolV) -> bool {
    !seed_missing(g, q) && {
        let m = seq_get(g.modules@, q.path);
        match q.target {
            TraceTargetV::NamedExport(n) => match seq_get(m.named_export_table, n) {
                Some(l) => l.len() == 0,
                None => true,
            },
            TraceTargetV::LocalVar(n) => match seq_get(m.local_variable_table, n) {
                Some(l) => l.len() == 0,
                None => true,
            },
            TraceTargetV::DefaultExport => match m.default_export {
                Some(l) => l.len() == 0,
                None => true,
            },
        }
    }
}

/// The trace target a used-by record names.
pub open spec fn tt_of(t: crate::used_by_graph::UsedByTypeV) -> TraceTargetV {
    match t {
        crate::used_by_graph::UsedByTypeV::NamedExport(s) => TraceTargetV::NamedExport(s),
        crate::used_by_graph::UsedByTypeV::DefaultExport => TraceTargetV::DefaultExport,
        crate::used_by_graph::UsedByTypeV::LocalVar(s) => TraceTargetV::LocalVar(s),
    }
}

/// The symbol one used-by record leads to, seen from module `path`.
pub open spec fn next_of(path: Seq<char>, ub: crate::used_by_graph::UsedByV) -> ModuleSymbolV {
    match ub {
        crate::used_by_graph::UsedByV::Itself(t) => ModuleSymbolV { path: path, target: tt_of(t) },
        crate::used_by_graph::UsedByV::Other(o) => ModuleSymbolV {
            path: o.by,
            target: tt_of(o.by_type),
        },
    }
}

/// The recorded user list of a present symbol, absent or present.
pub open spec fn seed_opt(g: UsedByGraph, q: ModuleSymbolV) -> Option<
    Seq<crate::used_by_graph::UsedByV>,
> {
    let m = seq_get(g.modules@, q.path);
    match q.target {
        TraceTargetV::NamedExport(n) => seq_get(m.named_export_table, n),
        TraceTargetV::LocalVar(n) => seq_get(m.local_variable_table, n),
        TraceTargetV::DefaultExport => m.default_export,
    }
}

/// The recorded users of a present symbol; an absent list is no users.
pub open spec fn seed_list(g: UsedByGraph, q: ModuleSymbolV) -> Seq<
    crate::used_by_graph::UsedByV,
> {
    match seed_opt(g, q) {
        Some(l) => l,
        None => Seq::empty(),
    }
}

/// The shape the walk's outcome takes once the per-user chains are known:
/// full-path mode keeps a singleton only when no chain arrived, the other
/// mode always appends one.
pub open spec fn mode_ok(
    full: bool,
    ext: Seq<Seq<ModuleSymbolV>>,
    out: Seq<Seq<ModuleSymbolV>>,
    q: ModuleSymbolV,
) -> bool {
    if full {
        if ext.len() == 0 {
            out == seq![seq![q]]
        } else {
            out == ext
        }
    } else {
        out == ext.push(seq![q])
    }
}

/// The tracer's result, defined by recursion over the used-by graph: the
/// `routeNames` barrier yields no paths; an exhausted step bound is a
/// cycle error; a missing symbol is unknown; otherwise each consumer chain
/// of each user is collected, the traced symbol is appended to every
/// chain, and full-path mode keeps a singleton only for a symbol with no
/// consumer chains while the other mode always adds it.
pub open spec fn trace_spec(g: UsedByGraph, q: ModuleSymbolV, full: bool, fuel: nat) -> Result<
    Seq<Seq<ModuleSymbolV>>,
    AnalysisError,
>
    decreases fuel, 0int, 0int,
{
    if target_name(q.target) == "routeNames"@ {
        Ok(Seq::empty())
    } else if fuel == 0 {
        Err(AnalysisError::CircularDependency)
    } else if seed_missing(g, q) {
        Err(AnalysisError::UnknownSymbol)
    } else {
        let lst = seed_list(g, q);
        match trace_edges(g, q, lst, lst.len() as int, full, (fuel - 1) as nat) {
            Err(e) => Err(e),
            Ok(sub) => {
                let extended = sub.map_values(|p: Seq<ModuleSymbolV>| p.push(q));
                if full {
                    if extended.len() == 0 {
                        Ok(seq![seq![q]])
                    } else {
                        Ok(extended)
                    }
                } else {
                    Ok(extended.push(seq![q]))
                }
            }
        }
    }
}

/// The chains of the first `n` users, concatenated in user order.
pub open spec fn trace_edges(
    g: UsedByGraph,
    q: ModuleSymbolV,
    lst: Seq<crate::used_by_graph::UsedByV>,
    n: int,
    full: bool,
    fuel: nat,
) -> Result<Seq<Seq<ModuleSymbolV>>, AnalysisError>
    decreases fuel, 1int, n,
{
    if n <= 0 {
        Ok(Seq::empty())
    } else {
        match trace_edges(g, q, lst, n - 1, full, fuel) {
            Err(e) => Err(e),
            Ok(acc) => match trace_spec(g, next_of(q.path, lst[n - 1]), full, fuel) {
                Err(e) => Err(e),
                Ok(ps) => Ok(acc + ps),
            },
        }
    }
}

/// An edge fold that succeeds has a successful trace for each covered user.
pub proof fn lemma_trace_edges_ok(
    g: UsedByGraph,
    q: ModuleSymbolV,
    lst: Seq<crate::used_by_graph::UsedByV>,
    n: int,
    full: bool,
    fuel: nat,
    k: int,
)
    requires
        trace_edges(g, q, lst, n, full, fuel) is Ok,
        0 <= k < n,
    ensures
        trace_spec(g, next_of(q.path, lst[k]), full, fuel) is Ok,
    decreases n,
{
    if k < n - 1 {
        assert(trace_edges(g, q, lst, n - 1, full, fuel) is Ok);
        lemma_trace_edges_ok(g, q, lst, n - 1, full, fuel, k);
    }
}

/// Every cached result agrees with the graph denotation at every step
/// bound that makes the denotation defined.
pub open spec fn cache_sound(c: CacheV, g: UsedByGraph, full: bool) -> bool {
    forall|i: int, f: nat|
        0 <= i < c.len() && #[trigger] trace_spec(g, c[i].0, full, f) is Ok ==> c[i].1
            == trace_spec(g, c[i].0, full, f).unwrap()
}

/// `out` is the trace of `q`: it equals the denotation at every step
/// bound that makes the denotation defined.
pub open spec fn spec_agree(
    g: UsedByGraph,
    q: ModuleSymbolV,
    full: bool,
    out: Seq<Seq<ModuleSymbolV>>,
) -> bool {
    forall|f: nat|
        #[trigger] trace_spec(g, q, full, f) is Ok ==> out == trace_spec(g, q, full, f).unwrap()
}

/// `out` collects the chains of the first `n` users of `q` at every step
/// bound that completes them.
pub open spec fn edges_agree(
    g: UsedByGraph,
    q: ModuleSymbolV,
    lst: Seq<crate::used_by_graph::UsedByV>,
    n: int,
    full: bool,
    out: Seq<Seq<ModuleSymbolV>>,
) -> bool {
    forall|f: nat|
        #[trigger] trace_edges(g, q, lst, n, full, f) is Ok ==> out == trace_edges(
            g,
            q,
            lst,
            n,
            full,
            f,
        ).unwrap()
}

proof fn lemma_edges_agree_zero(
    g: UsedByGraph,
    q: ModuleSymbolV,
    lst: Seq<crate::used_by_graph::UsedByV>,
    full: bool,
)
    ensures
        edges_agree(g, q, lst, 0, full, Seq::<Seq<ModuleSymbolV>>::empty()),
{
    assert forall|f: nat| #[trigger] trace_edges(g, q, lst, 0, full, f) is Ok implies Seq::<
        Seq<ModuleSymbolV>,
    >::empty() == trace_edges(g, q, lst, 0, full, f).unwrap() by {
        assert(trace_edges(g, q, lst, 0, full, f) == Ok::<
            Seq<Seq<ModuleSymbolV>>,
            AnalysisError,
        >(Seq::<Seq<ModuleSymbolV>>::empty()));
    }
}

proof fn lemma_edges_agree_step(
    g: UsedByGraph,
    q: ModuleSymbolV,
    lst: Seq<crate::used_by_graph::UsedByV>,
    n: int,
    full: bool,
    a: Seq<Seq<ModuleSymbolV>>,
    b: Seq<Seq<ModuleSymbolV>>,
)
    requires
        0 <= n < lst.len(),
        edges_agree(g, q, lst, n, full, a),
        spec_agree(g, next_of(q.path, lst[n]), full, b),
    ensures
        edges_agree(g, q, lst, n + 1, full, a + b),
{
    assert forall|f: nat| #[trigger] trace_edges(g, q, lst, n + 1, full, f) is Ok implies a + b
        == trace_edges(g, q, lst, n + 1, full, f).unwrap() by {
        assert(trace_edges(g, q, lst, n, full, f) is Ok);
        assert(trace_spec(g, next_of(q.path, lst[n]), full, f) is Ok);
        assert(a == trace_edges(g, q, lst, n, full, f).unwrap());
        assert(b == trace_spec(g, next_of(q.path, lst[n]), full, f).unwrap());
    }
}

proof fn lemma_spec_agree_routenames(g: UsedByGraph, q: ModuleSymbolV, full: bool)
    requires
        target_name(q.target) == "routeNames"@,
    ensures
        spec_agree(g, q, full, Seq::<Seq<ModuleSymbolV>>::empty()),
{
    assert forall|f: nat| #[trigger] trace_spec(g, q, full, f) is Ok implies Seq::<
        Seq<ModuleSymbolV>,
    >::empty() == trace_spec(g, q, full, f).unwrap() by {
        assert(trace_spec(g, q, full, f) == Ok::<Seq<Seq<ModuleSymbolV>>, AnalysisError>(
            Seq::<Seq<ModuleSymbolV>>::empty(),
        ));
    }
}

proof fn lemma_cache_sound_at(c: CacheV, g: UsedByGraph, full: bool, i: int)
    requires
        cache_sound(c, g, full),
        0 <= i < c.len(),
    ensures
        spec_agree(g, c[i].0, full, c[i].1),
{
    assert forall|f: nat| #[trigger] trace_spec(g, c[i].0, full, f) is Ok implies c[i].1
        == trace_spec(g, c[i].0, full, f).unwrap() by {}
}

proof fn lemma_spec_agree_assemble(
    g: UsedByGraph,
    q: ModuleSymbolV,
    full: bool,
    sub: Seq<Seq<ModuleSymbolV>>,
    out: Seq<Seq<ModuleSymbolV>>,
)
    requires
        target_name(q.target) != "routeNames"@,
        !seed_missing(g, q),
        edges_agree(g, q, seed_list(g, q), seed_list(g, q).len() as int, full, sub),
        mode_ok(full, sub.map_values(|p: Seq<ModuleSymbolV>| p.push(q)), out, q),
    ensures
        spec_agree(g, q, full, out),
{
    assert forall|f: nat| #[trigger] trace_spec(g, q, full, f) is Ok implies out == trace_spec(
        g,
        q,
        full,
        f,
    ).unwrap() by {
        if f == 0 {
            assert(!(trace_spec(g, q, full, f) is Ok));
        } else {
            let lst = seed_list(g, q);
            assert(trace_edges(g, q, lst, lst.len() as int, full, (f - 1) as nat) is Ok);
            assert(sub == trace_edges(g, q, lst, lst.len() as int, full, (f - 1) as nat).unwrap());
            let ext = sub.map_values(|p: Seq<ModuleSymbolV>| p.push(q));
            assert(trace_spec(g, q, full, f) == (if full {
                if ext.len() == 0 {
                    Ok::<Seq<Seq<ModuleSymbolV>>, AnalysisError>(seq![seq![q]])
                } else {
                    Ok::<Seq<Seq<ModuleSymbolV>>, AnalysisError>(ext)
                }
            } else {
                Ok::<Seq<Seq<ModuleSymbolV>>, AnalysisError>(ext.push(seq![q]))
            }));
        }
    }
}

/// Mapping a concatenation to views is the concatenation of the views.
proof fn lemma_paths_view_concat(a: Seq<Vec<ModuleSymbol>>, b: Seq<Vec<ModuleSymbol>>)
    ensures
        paths_view(a + b) =~= paths_view(a) + paths_view(b),
{
    assert forall|k: int| 0 <= k < a.len() + b.len() implies paths_view(a + b)[k] == (paths_view(a)
        + paths_view(b))[k] by {
        if k < a.len() {
            assert((a + b)[k] == a[k]);
        } else {
            assert((a + b)[k] == b[k - a.len()]);
        }
    }
}

/// The saturating step sum the walk budget uses.
pub open spec fn sat_add(a: u64, b: u64) -> u64 {
    if a <= u64::MAX - b {
        (a + b) as u64
    } else {
        u64::MAX
    }
}

/// The walk budget over the first `n` modules: one step per module plus
/// one per recorded local and named export, saturating at the maximum.
pub open spec fn fb_fold(
    ms: Seq<(Seq<char>, crate::used_by_graph::ModuleV)>,
    n: int,
) -> u64
    decreases n,
{
    if n <= 0 {
        1u64
    } else {
        let acc = fb_fold(ms, n - 1);
        let a = ms[n - 1].1.local_variable_table.len() as u64;
        let b = ms[n - 1].1.named_export_table.len() as u64;
        sat_add(acc, sat_add(sat_add(1u64, a), b))
    }
}

/// More steps than any walk over distinct symbols of the graph can take.
pub open spec fn fuel_bound_spec(g: UsedByGraph) -> u64 {
    fb_fold(g.modules@, g.modules@.len() as int)
}

/// Repeated traces of the same target return the same paths: the second
/// call hits the entry the first one recorded.
pub proof fn lemma_trace_idempotent(
    c0: CacheV,
    c1: CacheV,
    c2: CacheV,
    q: ModuleSymbolV,
    r1: Seq<Seq<ModuleSymbolV>>,
    r2: Seq<Seq<ModuleSymbolV>>,
)
    requires
        trace_post(c0, c1, q, r1),
        trace_post(c1, c2, q, r2),
    ensures
        r2 == r1,
{
}

/// A memoizing tracer over one read-only used-by graph.
pub struct DependencyTracker<'graph> {
    cache: Vec<(ModuleSymbol, Vec<Vec<ModuleSymbol>>)>,
    graph: &'graph UsedByGraph,
    trace_full_path_only: bool,
}

/// Duplicate a list of paths, value for value.
fn dup_paths(ps: &Vec<Vec<ModuleSymbol>>) -> (r: Vec<Vec<ModuleSymbol>>)
    ensures
        paths_view(r@) == paths_view(ps@),
{
    let mut r: Vec<Vec<ModuleSymbol>> = Vec::new();
    let n = ps.len();
    proof {
        assert(paths_view(r@) =~= paths_view(ps@).take(0));
    }
    for i in 0..n
        invariant
            n == ps@.len(),
            paths_view(r@) == paths_view(ps@).take(i as int),
    {
        let mut p: Vec<ModuleSymbol> = Vec::new();
        let m = ps[i].len();
        proof {
            assert(path_view(p@) =~= path_view(ps@[i as int]@).take(0));
        }
        for j in 0..m
            invariant
                i < n,
                n == ps@.len(),
                m == ps@[i as int]@.len(),
                path_view(p@) == path_view(ps@[i as int]@).take(j as int),
        {
            let ghost ppre = p@;
            let s0 = ps[i][j].0.clone();
            let t0 = ps[i][j].1.duplicate();
            let ghost sv = s0@;
            let ghost tv = t0.deep_view();
            proof {
                assert(sv == ps@[i as int]@[j as int].0@);
                assert(tv == ps@[i as int]@[j as int].1.deep_view());
                assert(path_view(ppre).len() == j);
                assert(ppre.len() == j);
            }
            p.push((s0, t0));
            proof {
                assert(p@.len() == j + 1);
                assert(p@[j as int].0@ == sv);
                assert(p@[j as int].1.deep_view() == tv);
                assert(path_view(p@) =~= path_view(ps@[i as int]@).take(j + 1)) by {
                    assert forall|k: int| 0 <= k < p@.len() implies path_view(p@)[k] == path_view(
                        ps@[i as int]@,
                    ).take(j + 1)[k] by {
                        if k < j {
                            assert(p@[k] == ppre[k]);
                        } else {
                            assert(ms_view(p@[k]) == ms_view(ps@[i as int]@[k]));
                        }
                    }
                }
            }
        }
        proof {
            assert(path_view(p@) =~= path_view(ps@[i as int]@));
        }
        let ghost pv = path_view(p@);
        let ghost rpre = r@;
        r.push(p);
        proof {
            assert(paths_view(rpre) == paths_view(ps@).take(i as int));
            assert(paths_view(rpre).len() == rpre.len());
            assert(paths_view(ps@).take(i as int).len() == i);
            assert(rpre.len() == i);
            assert(paths_view(r@) =~= paths_view(ps@).take(i + 1)) by {
                assert forall|k: int| 0 <= k < r@.len() implies paths_view(r@)[k] == paths_view(
                    ps@,
                ).take(i + 1)[k] by {
                    if k < i {
                        assert(r@[k] == rpre[k]);
                    } else {
                        assert(path_view(r@[k]@) == pv);
                        assert(pv == path_view(ps@[k]@));
                    }
                }
            }
        }
    }
    proof {
        assert(paths_view(ps@).take(n as int) =~= paths_view(ps@));
    }
    r
}

impl<'graph> DependencyTracker<'graph> {
    pub closed spec fn cache_view(&self) -> CacheV {
        self.cache@.map_values(
            |e: (ModuleSymbol, Vec<Vec<ModuleSymbol>>)| (ms_view(e.0), paths_view(e.1@)),
        )
    }

    pub closed spec fn graph_spec(&self) -> &'graph UsedByGraph {
        self.graph
    }

    pub closed spec fn full_path_only_spec(&self) -> bool {
        self.trace_full_path_only
    }

    /// A fresh tracer with an empty memo cache.
    pub fn new(graph: &'graph UsedByGraph, trace_full_path_only: bool) -> (r: Self)
        ensures
            r.cache_view() =~= Seq::<(ModuleSymbolV, Seq<Seq<ModuleSymbolV>>)>::empty(),
            cache_ok(r.cache_view()),
            r.graph_spec() == graph,
            r.full_path_only_spec() == trace_full_path_only,
    {
        DependencyTracker { cache: Vec::new(), graph, trace_full_path_only }
    }

    /// Whether the graph holds the given module at all.
    pub fn validate_mod_path(&self, mod_path: &String) -> (r: Result<(), AnalysisError>)
        ensures
            match r {
                Ok(_) => seq_contains_key(self.graph_spec().modules@, mod_path@),
                Err(e) => !seq_contains_key(self.graph_spec().modules@, mod_path@) && e
                    == AnalysisError::UnknownSymbol,
            },
    {
        if self.graph.modules.contains_key(mod_path) {
            Ok(())
        } else {
            Err(AnalysisError::UnknownSymbol)
        }
    }

    fn cache_position(&self, q: &ModuleSymbol) -> (r: Option<usize>)
        ensures
            match r {
                Some(i) => i < self.cache_view().len() && self.cache_view()[i as int].0 == ms_view(
                    *q,
                ) && c_index(self.cache_view(), ms_view(*q)) == i as int,
                None => !c_contains(self.cache_view(), ms_view(*q)),
            },
    {
        let n = self.cache.len();
        for i in 0..n
            invariant
                n == self.cache@.len(),
                forall|j: int| 0 <= j < i ==> self.cache_view()[j].0 != ms_view(*q),
        {
            proof {
                assert(self.cache_view()[i as int].0 == ms_view(self.cache@[i as int].0));
            }
            if self.cache[i].0.0 == q.0 && self.cache[i].0.1.same_as(&q.1) {
                proof {
                    assert(ms_view(self.cache@[i as int].0) == ms_view(*q));
                    assert(c_contains(self.cache_view(), ms_view(*q)));
                    lemma_c_index(self.cache_view(), ms_view(*q));
                    let ci = c_index(self.cache_view(), ms_view(*q));
                    if ci < i {
                        assert(self.cache_view()[ci].0 != ms_view(*q));
                    } else if ci > i {
                        assert(self.cache_view()[i as int].0 != ms_view(*q));
                    }
                }
                return Some(i);
            }
        }
        proof {
            if c_contains(self.cache_view(), ms_view(*q)) {
                let j = choose|j: int|
                    0 <= j < self.cache_view().len() && self.cache_view()[j].0 == ms_view(*q);
            }
        }
        None
    }

    /// Store a result, overwriting an earlier entry for the same query.
    fn cache_set(&mut self, q: ModuleSymbol, paths: Vec<Vec<ModuleSymbol>>)
        requires
            cache_ok(old(self).cache_view()),
            paths_ok(paths_view(paths@), ms_view(q)),
            cache_sound(
                old(self).cache_view(),
                *old(self).graph_spec(),
                old(self).full_path_only_spec(),
            ),
            spec_agree(
                *old(self).graph_spec(),
                ms_view(q),
                old(self).full_path_only_spec(),
                paths_view(paths@),
            ),
        ensures
            c_contains(final(self).cache_view(), ms_view(q)),
            c_get(final(self).cache_view(), ms_view(q)) == paths_view(paths@),
            cache_ok(final(self).cache_view()),
            cache_sound(
                final(self).cache_view(),
                *old(self).graph_spec(),
                old(self).full_path_only_spec(),
            ),
            final(self).graph_spec() == old(self).graph_spec(),
            final(self).full_path_only_spec() == old(self).full_path_only_spec(),
    {
        let ghost gv = *old(self).graph_spec();
        let ghost fv = old(self).full_path_only_spec();
        let ghost c0 = self.cache_view();
        match self.cache_position(&q) {
            Some(i) => {
                let ghost qv = ms_view(q);
                let ghost pv = paths_view(paths@);
                proof {
                    assert(c_contains(c0, qv));
                    lemma_c_index(c0, qv);
                }
                self.cache[i] = (q, paths);
                proof {
                    assert(self.cache_view()[i as int] == (qv, pv));
                    assert forall|j: int|
                        0 <= j < self.cache_view().len() && j != i implies self.cache_view()[j]
                        == c0[j] by {
                        assert(self.cache@[j] == old(self).cache@[j]);
                    }
                    assert(c_contains(self.cache_view(), qv));
                    lemma_c_index(self.cache_view(), qv);
                    let ci = c_index(self.cache_view(), qv);
                    if ci < i {
                        assert(c0[ci].0 != qv);
                        assert(self.cache_view()[ci] == c0[ci]);
                        assert(false);
                    } else if ci > i {
                        assert(self.cache_view()[i as int].0 != qv);
                        assert(false);
                    }
                    assert forall|j: int|
                        0 <= j < self.cache_view().len() implies paths_ok(
                        (#[trigger] self.cache_view()[j]).1,
                        self.cache_view()[j].0,
                    ) by {
                        if j != i {
                            assert(self.cache_view()[j] == c0[j]);
                            assert(paths_ok(c0[j].1, c0[j].0));
                        }
                    }
                    assert forall|j: int, f: nat|
                        0 <= j < self.cache_view().len() && #[trigger] trace_spec(
                            gv,
                            self.cache_view()[j].0,
                            fv,
                            f,
                        ) is Ok implies self.cache_view()[j].1 == trace_spec(
                        gv,
                        self.cache_view()[j].0,
                        fv,
                        f,
                    ).unwrap() by {
                        if j != i {
                            assert(self.cache_view()[j] == c0[j]);
                        }
                    }
                }
            }
            None => {
                let ghost qv = ms_view(q);
                let ghost pv = paths_view(paths@);
                self.cache.push((q, paths));
                proof {
                    let cv = self.cache_view();
                    assert(cv[c0.len() as int] == (qv, pv));
                    assert forall|j: int| 0 <= j < c0.len() implies cv[j] == c0[j] by {
                        assert(self.cache@[j] == old(self).cache@[j]);
                    }
                    assert(c_contains(cv, qv));
                    lemma_c_index(cv, qv);
                    let ci = c_index(cv, qv);
                    if ci < c0.len() {
                        assert(cv[ci] == c0[ci]);
                        assert(c_contains(c0, qv));
                        assert(false);
                    }
                    assert forall|j: int|
                        0 <= j < cv.len() implies paths_ok(
                        (#[trigger] cv[j]).1,
                        cv[j].0,
                    ) by {
                        if j < c0.len() {
                            assert(cv[j] == c0[j]);
                            assert(paths_ok(c0[j].1, c0[j].0));
                        }
                    }
                    assert forall|j: int, f: nat|
                        0 <= j < cv.len() && #[trigger] trace_spec(gv, cv[j].0, fv, f) is Ok
                        implies cv[j].1 == trace_spec(gv, cv[j].0, fv, f).unwrap() by {
                        if j < c0.len() {
                            assert(cv[j] == c0[j]);
                        }
                    }
                }
            }
        }
    }
}

} // verus!

verus! {

/// The trace step named by a used-by record.
fn target_of(t: &UsedByType) -> (r: TraceTarget)
    ensures
        r.deep_view() == tt_of(t.deep_view()),
{
    match t {
        UsedByType::NamedExport(s) => TraceTarget::NamedExport(s.clone()),
        UsedByType::DefaultExport => TraceTarget::DefaultExport,
        UsedByType::LocalVar(s) => TraceTarget::LocalVar(s.clone()),
    }
}

impl<'graph> DependencyTracker<'graph> {
    /// More steps than any acyclic consumer chain can have.
    fn fuel_bound(&self) -> (r: u64)
        ensures
            r >= 1,
            r == fuel_bound_spec(*self.graph_spec()),
    {
        let mut acc: u64 = 1;
        let n = self.graph.modules.len();
        let ghost msv = self.graph.modules@;
        for i in 0..n
            invariant
                n == self.graph.modules@.len(),
                msv == self.graph.modules@,
                acc >= 1,
                acc == fb_fold(msv, i as int),
        {
            let m = self.graph.modules.val_at(i);
            let a = m.local_variable_table.len();
            let b = m.named_export_table.len();
            proof {
                assert(m.deep_view() == msv[i as int].1);
                assert(a as u64 == msv[i as int].1.local_variable_table.len() as u64);
                assert(b as u64 == msv[i as int].1.named_export_table.len() as u64);
            }
            let mut step: u64 = 1;
            step = if step <= u64::MAX - a as u64 {
                step + a as u64
            } else {
                u64::MAX
            };
            proof {
                assert(step == sat_add(1u64, a as u64));
            }
            step = if step <= u64::MAX - b as u64 {
                step + b as u64
            } else {
                u64::MAX
            };
            acc = if acc <= u64::MAX - step {
                acc + step
            } else {
                u64::MAX
            };
            proof {
                assert(acc == fb_fold(msv, i + 1));
            }
        }
        acc
    }

    /// All consumer chains from `module_symbol`, leaf to root: each
    /// returned path is non-empty and ends at the traced symbol, and any
    /// returned set of paths equals the graph denotation `trace_spec` at
    /// every step bound that defines it (`spec_agree`). Whenever the walk
    /// budget `fuel_bound_spec` defines the denotation — whenever the
    /// used-by edges reachable from the seed are acyclic within it — the
    /// call succeeds. The `routeNames` barrier and a memo hit always
    /// succeed; a seed the graph does not hold is `UnknownSymbol` with the
    /// cache untouched; the only other failure is `CircularDependency`,
    /// when the walk exhausts its step bound. Results are memoized per
    /// tracer, as `trace_post` states.
    pub fn trace(&mut self, module_symbol: ModuleSymbol) -> (r: Result<
        Vec<Vec<ModuleSymbol>>,
        AnalysisError,
    >)
        requires
            old(self).graph_spec().wf(),
            cache_ok(old(self).cache_view()),
            cache_sound(
                old(self).cache_view(),
                *old(self).graph_spec(),
                old(self).full_path_only_spec(),
            ),
        ensures
            final(self).graph_spec() == old(self).graph_spec(),
            final(self).full_path_only_spec() == old(self).full_path_only_spec(),
            cache_ok(final(self).cache_view()),
            cache_sound(
                final(self).cache_view(),
                *old(self).graph_spec(),
                old(self).full_path_only_spec(),
            ),
            match r {
                Ok(paths) => trace_post(
                    old(self).cache_view(),
                    final(self).cache_view(),
                    ms_view(module_symbol),
                    paths_view(paths@),
                ) && paths_ok(paths_view(paths@), ms_view(module_symbol)) && spec_agree(
                    *old(self).graph_spec(),
                    ms_view(module_symbol),
                    old(self).full_path_only_spec(),
                    paths_view(paths@),
                ),
                Err(e) => e == AnalysisError::UnknownSymbol || e
                    == AnalysisError::CircularDependency,
            },
            trace_spec(
                *old(self).graph_spec(),
                ms_view(module_symbol),
                old(self).full_path_only_spec(),
                fuel_bound_spec(*old(self).graph_spec()) as nat,
            ) is Ok ==> r is Ok,
            target_name(ms_view(module_symbol).target) == "routeNames"@ ==> r is Ok,
            c_contains(old(self).cache_view(), ms_view(module_symbol)) && target_name(
                ms_view(module_symbol).target,
            ) != "routeNames"@ ==> r is Ok,
            (target_name(ms_view(module_symbol).target) != "routeNames"@ && !c_contains(
                old(self).cache_view(),
                ms_view(module_symbol),
            ) && seed_missing(*old(self).graph_spec(), ms_view(module_symbol))) ==> r == Err::<
                Vec<Vec<ModuleSymbol>>,
                AnalysisError,
            >(AnalysisError::UnknownSymbol) && final(self).cache_view() == old(self).cache_view(),
            (target_name(ms_view(module_symbol).target) != "routeNames"@ && !c_contains(
                old(self).cache_view(),
                ms_view(module_symbol),
            ) && no_users(*old(self).graph_spec(), ms_view(module_symbol))) ==> match r {
                Ok(paths) => paths_view(paths@) =~= seq![seq![ms_view(module_symbol)]],
                Err(_) => false,
            },
    {
        let fuel = self.fuel_bound();
        self.trace_fuel(module_symbol, fuel)
    }

    fn trace_fuel(&mut self, q: ModuleSymbol, fuel: u64) -> (r: Result<
        Vec<Vec<ModuleSymbol>>,
        AnalysisError,
    >)
        requires
            old(self).graph_spec().wf(),
            cache_ok(old(self).cache_view()),
            cache_sound(
                old(self).cache_view(),
                *old(self).graph_spec(),
                old(self).full_path_only_spec(),
            ),
        ensures
            final(self).graph_spec() == old(self).graph_spec(),
            final(self).full_path_only_spec() == old(self).full_path_only_spec(),
            cache_ok(final(self).cache_view()),
            cache_sound(
                final(self).cache_view(),
                *old(self).graph_spec(),
                old(self).full_path_only_spec(),
            ),
            match r {
                Ok(paths) => trace_post(
                    old(self).cache_view(),
                    final(self).cache_view(),
                    ms_view(q),
                    paths_view(paths@),
                ) && paths_ok(paths_view(paths@), ms_view(q)) && spec_agree(
                    *old(self).graph_spec(),
                    ms_view(q),
                    old(self).full_path_only_spec(),
                    paths_view(paths@),
                ),
                Err(e) => e == AnalysisError::UnknownSymbol || e
                    == AnalysisError::CircularDependency,
            },
            trace_spec(
                *old(self).graph_spec(),
                ms_view(q),
                old(self).full_path_only_spec(),
                fuel as nat,
            ) is Ok ==> r is Ok,
            target_name(ms_view(q).target) == "routeNames"@ ==> r is Ok,
            c_contains(old(self).cache_view(), ms_view(q)) && target_name(ms_view(q).target)
                != "routeNames"@ ==> r is Ok,
            (target_name(ms_view(q).target) != "routeNames"@ && !c_contains(
                old(self).cache_view(),
                ms_view(q),
            ) && seed_missing(*old(self).graph_spec(), ms_view(q))) ==> r == Err::<
                Vec<Vec<ModuleSymbol>>,
                AnalysisError,
            >(AnalysisError::UnknownSymbol) && final(self).cache_view() == old(self).cache_view(),
            (fuel >= 1 && target_name(ms_view(q).target) != "routeNames"@ && !c_contains(
                old(self).cache_view(),
                ms_view(q),
            ) && no_users(*old(self).graph_spec(), ms_view(q))) ==> match r {
                Ok(paths) => paths_view(paths@) =~= seq![seq![ms_view(q)]],
                Err(_) => false,
            },
        decreases fuel,
    {
        let ghost c0 = self.cache_view();
        let ghost qv = ms_view(q);
        let ghost gsnap = *self.graph;
        let ghost fullb = self.trace_full_path_only;
        proof {
            assert(gsnap == *old(self).graph_spec());
            assert(fullb == old(self).full_path_only_spec());
        }
        // the circular-dependency barrier
        let name = q.1.to_string();
        let rn = String::from_str("routeNames");
        proof {
            reveal_strlit("routeNames");
        }
        if name == rn {
            let empty: Vec<Vec<ModuleSymbol>> = Vec::new();
            proof {
                assert(paths_view(empty@) =~= Seq::<Seq<ModuleSymbolV>>::empty());
                assert(target_name(qv.target) == "routeNames"@);
                lemma_spec_agree_routenames(gsnap, qv, fullb);
                assert(spec_agree(gsnap, qv, fullb, paths_view(empty@)));
            }
            return Ok(empty);
        }
        proof {
            assert(target_name(qv.target) != "routeNames"@);
        }
        // memo hit
        match self.cache_position(&q) {
            Some(i) => {
                proof {
                    assert(self.cache_view()[i as int].1 == c_get(c0, qv));
                }
                let paths = dup_paths(&self.cache[i].1);
                proof {
                    assert(self.cache_view()[i as int] == (
                        ms_view(self.cache@[i as int].0),
                        paths_view(self.cache@[i as int].1@),
                    ));
                    assert(paths_ok(c0[i as int].1, c0[i as int].0));
                    lemma_cache_sound_at(c0, gsnap, fullb, i as int);
                    assert(c0[i as int].0 == qv);
                    assert(spec_agree(gsnap, qv, fullb, paths_view(paths@)));
                }
                return Ok(paths);
            }
            None => {}
        }
        let g = self.graph;
        let ghost modsv = g.modules@;
        let m = match g.modules.get(&q.0) {
            Some(m) => m,
            None => {
                proof {
                    assert(seed_missing(gsnap, qv));
                    assert(!(trace_spec(gsnap, qv, fullb, fuel as nat) is Ok));
                }
                return Err(AnalysisError::UnknownSymbol);
            }
        };
        proof {
            crate::table::lemma_key_index(modsv, q.0@);
            let mi = crate::table::seq_key_index(modsv, q.0@);
            crate::table::lemma_key_index_unique(modsv, q.0@, mi);
            assert(crate::table::distinct_keys(modsv[mi].1.local_variable_table));
            assert(crate::table::distinct_keys(modsv[mi].1.named_export_table));
            assert(m.deep_view() == modsv[mi].1);
            assert(m.deep_view() == seq_get(modsv, qv.path));
        }
        proof {
            assert(gsnap.modules@ == modsv);
            assert(m.deep_view() == seq_get(gsnap.modules@, qv.path));
        }
        let list_opt: &Option<Vec<UsedBy>> = match &q.1 {
            TraceTarget::NamedExport(nm) => match m.named_export_table.get(nm) {
                Some(l) => {
                    proof {
                        assert(l.deep_view() == seed_opt(gsnap, qv));
                    }
                    l
                }
                None => {
                    proof {
                        assert(seed_missing(gsnap, qv));
                        assert(!(trace_spec(gsnap, qv, fullb, fuel as nat) is Ok));
                    }
                    return Err(AnalysisError::UnknownSymbol);
                }
            },
            TraceTarget::DefaultExport => {
                proof {
                    assert(m.default_export.deep_view() == seed_opt(gsnap, qv));
                }
                &m.default_export
            }
            TraceTarget::LocalVar(nm) => match m.local_variable_table.get(nm) {
                Some(l) => {
                    proof {
                        assert(l.deep_view() == seed_opt(gsnap, qv));
                    }
                    l
                }
                None => {
                    proof {
                        assert(seed_missing(gsnap, qv));
                        assert(!(trace_spec(gsnap, qv, fullb, fuel as nat) is Ok));
                    }
                    return Err(AnalysisError::UnknownSymbol);
                }
            },
        };
        proof {
            assert(!seed_missing(gsnap, qv));
            assert(list_opt.deep_view() == seed_opt(gsnap, qv));
        }
        let ghost lstv = seed_list(gsnap, qv);
        let ghost src_empty = match list_opt.deep_view() {
            Some(l) => l.len() == 0,
            None => true,
        };
        proof {
            assert(src_empty == no_users(gsnap, qv));
            assert(lstv == match list_opt.deep_view() {
                Some(l) => l,
                None => Seq::<crate::used_by_graph::UsedByV>::empty(),
            });
            assert(src_empty == (lstv.len() == 0));
        }
        if fuel == 0 {
            proof {
                assert(!(trace_spec(gsnap, qv, fullb, fuel as nat) is Ok));
            }
            return Err(AnalysisError::CircularDependency);
        }
        let mut res: Vec<Vec<ModuleSymbol>> = Vec::new();
        proof {
            assert(paths_view(res@) =~= Seq::<Seq<ModuleSymbolV>>::empty());
        }
        match list_opt {
            Some(used_by) => {
                let n = used_by.len();
                proof {
                    assert(lstv == used_by.deep_view());
                    assert(n == lstv.len());
                    if src_empty {
                        assert(used_by.deep_view().len() == 0);
                    }
                    lemma_edges_agree_zero(gsnap, qv, lstv, fullb);
                    assert(edges_agree(gsnap, qv, lstv, 0, fullb, paths_view(res@)));
                }
                for i in 0..n
                    invariant
                        n == used_by@.len(),
                        lstv == used_by.deep_view(),
                        n == lstv.len(),
                        lstv == seed_list(gsnap, qv),
                        src_empty == no_users(gsnap, qv),
                        src_empty ==> n == 0,
                        res@.len() == 0 || !src_empty,
                        self.graph_spec() == old(self).graph_spec(),
                        self.full_path_only_spec() == old(self).full_path_only_spec(),
                        fullb == old(self).full_path_only_spec(),
                        old(self).graph_spec().wf(),
                        cache_ok(self.cache_view()),
                        cache_sound(self.cache_view(), gsnap, fullb),
                        qv == ms_view(q),
                        gsnap == *old(self).graph_spec(),
                        target_name(qv.target) != "routeNames"@,
                        c0 == old(self).cache_view(),
                        !c_contains(c0, qv),
                        !seed_missing(gsnap, qv),
                        fuel >= 1,
                        edges_agree(gsnap, qv, lstv, i as int, fullb, paths_view(res@)),
                {
                    let next: ModuleSymbol = match &used_by[i] {
                        UsedBy::Itself(t) => {
                            let nx = (q.0.clone(), target_of(t));
                            proof {
                                assert(used_by@[i as int].deep_view() == lstv[i as int]);
                                assert(ms_view(nx) == next_of(qv.path, lstv[i as int]));
                            }
                            nx
                        }
                        UsedBy::Other(o) => {
                            let nx = (o.by.clone(), target_of(&o.by_type));
                            proof {
                                assert(used_by@[i as int].deep_view() == lstv[i as int]);
                                assert(ms_view(nx) == next_of(qv.path, lstv[i as int]));
                            }
                            nx
                        }
                    };
                    let ghost nextv = ms_view(next);
                    proof {
                        assert(nextv == next_of(qv.path, lstv[i as int]));
                    }
                    match self.trace_fuel(next, fuel - 1) {
                        Ok(mut sub) => {
                            let ghost subpre = sub@;
                            let ghost respre = res@;
                            res.append(&mut sub);
                            proof {
                                lemma_paths_view_concat(respre, subpre);
                                assert(paths_view(res@) == paths_view(respre) + paths_view(
                                    subpre,
                                ));
                                assert(spec_agree(gsnap, nextv, fullb, paths_view(subpre)));
                                lemma_edges_agree_step(
                                    gsnap,
                                    qv,
                                    lstv,
                                    i as int,
                                    fullb,
                                    paths_view(respre),
                                    paths_view(subpre),
                                );
                                assert(edges_agree(
                                    gsnap,
                                    qv,
                                    lstv,
                                    i + 1,
                                    fullb,
                                    paths_view(res@),
                                ));
                            }
                        }
                        Err(e) => {
                            proof {
                                if trace_spec(gsnap, qv, fullb, fuel as nat) is Ok {
                                    assert(trace_edges(
                                        gsnap,
                                        qv,
                                        lstv,
                                        lstv.len() as int,
                                        fullb,
                                        (fuel - 1) as nat,
                                    ) is Ok);
                                    lemma_trace_edges_ok(
                                        gsnap,
                                        qv,
                                        lstv,
                                        lstv.len() as int,
                                        fullb,
                                        (fuel - 1) as nat,
                                        i as int,
                                    );
                                    assert(trace_spec(
                                        gsnap,
                                        nextv,
                                        fullb,
                                        (fuel - 1) as nat,
                                    ) is Ok);
                                    assert(false);
                                }
                            }
                            return Err(e);
                        }
                    }
                }
            }
            None => {
                proof {
                    assert(lstv.len() == 0);
                    lemma_edges_agree_zero(gsnap, qv, lstv, fullb);
                    assert(edges_agree(
                        gsnap,
                        qv,
                        lstv,
                        lstv.len() as int,
                        fullb,
                        paths_view(res@),
                    ));
                }
            }
        }
        let ghost res_edges = paths_view(res@);
        proof {
            assert(edges_agree(gsnap, qv, lstv, lstv.len() as int, fullb, res_edges));
        }
        // append the current symbol to the end of each collected path
        let rn2 = res.len();
        let ghost res0 = res@;
        for i in 0..rn2
            invariant
                rn2 == res@.len(),
                rn2 == res0.len(),
                res_edges == paths_view(res0),
                self.graph_spec() == old(self).graph_spec(),
                self.full_path_only_spec() == old(self).full_path_only_spec(),
                fullb == old(self).full_path_only_spec(),
                cache_ok(self.cache_view()),
                cache_sound(self.cache_view(), gsnap, fullb),
                qv == ms_view(q),
                gsnap == *old(self).graph_spec(),
                target_name(qv.target) != "routeNames"@,
                c0 == old(self).cache_view(),
                !c_contains(c0, qv),
                !seed_missing(gsnap, qv),
                src_empty == no_users(gsnap, qv),
                src_empty ==> res@.len() == 0,
                fuel >= 1,
                lstv == seed_list(gsnap, qv),
                edges_agree(gsnap, qv, lstv, lstv.len() as int, fullb, res_edges),
                forall|j: int| 0 <= j < i ==> #[trigger] paths_view(res@)[j] == res_edges[j].push(
                    qv,
                ),
                forall|j: int| i <= j < rn2 ==> #[trigger] res@[j] == res0[j],
                forall|j: int|
                    0 <= j < i ==> (#[trigger] paths_view(res@)[j]).len() > 0 && paths_view(
                        res@,
                    )[j].last() == qv,
        {
            let step = (q.0.clone(), q.1.duplicate());
            let ghost sv = ms_view(step);
            proof {
                assert(sv == qv);
            }
            let ghost respre = res@;
            res[i].push(step);
            proof {
                assert(res@[i as int]@ == respre[i as int]@.push(
                    res@[i as int]@.last(),
                ));
                assert(paths_view(res@)[i as int] == path_view(res@[i as int]@));
                assert(res@[i as int]@.last() == step);
                assert(path_view(res@[i as int]@).last() == sv);
                assert(path_view(res@[i as int]@).len() > 0);
                assert(respre[i as int] == res0[i as int]);
                assert(res@[i as int]@ == res0[i as int]@.push(step));
                assert(res_edges[i as int] == path_view(res0[i as int]@));
                assert(path_view(res0[i as int]@.push(step)) =~= path_view(
                    res0[i as int]@,
                ).push(sv));
                assert(paths_view(res@)[i as int] == res_edges[i as int].push(qv));
                assert forall|j: int|
                    0 <= j < i implies (#[trigger] paths_view(res@)[j]).len() > 0 && paths_view(
                    res@,
                )[j].last() == qv by {
                    assert(res@[j] == respre[j]);
                    assert(paths_view(respre)[j] == path_view(respre[j]@));
                }
                assert forall|j: int|
                    0 <= j < i + 1 implies #[trigger] paths_view(res@)[j] == res_edges[j].push(
                    qv,
                ) by {
                    if j < i {
                        assert(res@[j] == respre[j]);
                        assert(paths_view(respre)[j] == path_view(respre[j]@));
                        assert(paths_view(res@)[j] == path_view(res@[j]@));
                    }
                }
            }
        }
        let ghost ext = res_edges.map_values(|p: Seq<ModuleSymbolV>| p.push(qv));
        proof {
            assert(paths_view(res@) =~= ext) by {
                assert forall|j: int| 0 <= j < rn2 implies paths_view(res@)[j] == ext[j] by {
                    assert(paths_view(res@)[j] == res_edges[j].push(qv));
                }
            }
        }
        proof {
            assert(paths_ok(paths_view(res@), qv)) by {
                assert forall|j: int|
                    0 <= j < paths_view(res@).len() implies (#[trigger] paths_view(res@)[j]).len()
                    > 0 && paths_view(res@)[j].last() == qv by {}
            }
        }
        proof {
            assert(self.full_path_only_spec() == fullb);
            assert(ext.len() == rn2);
        }
        if self.trace_full_path_only {
            if res.len() == 0 {
                let mut single: Vec<ModuleSymbol> = Vec::new();
                single.push((q.0.clone(), q.1.duplicate()));
                proof {
                    assert(path_view(single@).len() == 1);
                    assert(path_view(single@).last() == qv);
                    assert(path_view(single@) =~= seq![qv]);
                }
                let ghost respre2 = res@;
                res.push(single);
                proof {
                    assert(paths_view(res@)[0] == path_view(res@[0]@));
                    assert(paths_ok(paths_view(res@), qv));
                    assert(paths_view(res@) =~= seq![seq![qv]]);
                    assert(mode_ok(fullb, ext, paths_view(res@), qv));
                }
            } else {
                proof {
                    assert(ext.len() > 0);
                    assert(mode_ok(fullb, ext, paths_view(res@), qv));
                }
            }
        } else {
            let mut single: Vec<ModuleSymbol> = Vec::new();
            single.push((q.0.clone(), q.1.duplicate()));
            proof {
                assert(path_view(single@).len() == 1);
                assert(path_view(single@).last() == qv);
            }
            let ghost respre2 = res@;
            res.push(single);
            proof {
                assert forall|j: int|
                    0 <= j < paths_view(res@).len() implies (#[trigger] paths_view(res@)[j]).len()
                    > 0 && paths_view(res@)[j].last() == qv by {
                    if j < respre2.len() {
                        assert(res@[j] == respre2[j]);
                        assert(paths_view(respre2)[j] == path_view(respre2[j]@));
                    } else {
                        assert(paths_view(res@)[j] == path_view(res@[j]@));
                    }
                }
                if src_empty {
                    assert(path_view(single@) =~= seq![qv]);
                    assert(paths_view(res@)[0] == path_view(res@[0]@));
                    assert(paths_view(res@) =~= seq![seq![qv]]);
                }
                assert(paths_view(respre2) =~= ext);
                assert(path_view(single@) =~= seq![qv]);
                assert(paths_view(res@) =~= ext.push(seq![qv])) by {
                    assert forall|j: int| 0 <= j < res@.len() implies paths_view(res@)[j]
                        == ext.push(seq![qv])[j] by {
                        if j < respre2.len() {
                            assert(res@[j] == respre2[j]);
                            assert(paths_view(respre2)[j] == path_view(respre2[j]@));
                            assert(paths_view(res@)[j] == path_view(res@[j]@));
                        } else {
                            assert(paths_view(res@)[j] == path_view(res@[j]@));
                        }
                    }
                }
                assert(mode_ok(fullb, ext, paths_view(res@), qv));
            }
        }
        proof {
            assert(mode_ok(fullb, ext, paths_view(res@), qv));
            assert(lstv == seed_list(gsnap, qv));
            lemma_spec_agree_assemble(gsnap, qv, fullb, res_edges, paths_view(res@));
            assert(spec_agree(gsnap, qv, fullb, paths_view(res@)));
        }
        let out = dup_paths(&res);
        proof {
            assert(ms_view(q) == qv);
            assert(paths_ok(paths_view(res@), qv));
            assert(*self.graph_spec() == gsnap);
            assert(self.full_path_only_spec() == fullb);
        }
        self.cache_set(q, res);
        proof {
            assert(!c_contains(c0, qv));
        }
        Ok(out)
    }

    /// The names of the module's named exports, in table order.
    pub fn get_traceable_named_exports(&self, mod_path: &String) -> (r: Result<
        Vec<String>,
        AnalysisError,
    >)
        requires
            self.graph_spec().wf(),
        ensures
            match r {
                Ok(names) => seq_contains_key(self.graph_spec().modules@, mod_path@)
                    && names.deep_view() == crate::table::keys_of(
                    seq_get(self.graph_spec().modules@, mod_path@).named_export_table,
                ),
                Err(_) => !seq_contains_key(self.graph_spec().modules@, mod_path@),
            },
    {
        let m = match self.graph.modules.get(mod_path) {
            Some(m) => m,
            None => {
                return Err(AnalysisError::UnknownSymbol);
            }
        };
        let ghost t = seq_get(self.graph_spec().modules@, mod_path@).named_export_table;
        let mut names: Vec<String> = Vec::new();
        let n = m.named_export_table.len();
        proof {
            assert(m.deep_view().named_export_table == t);
            assert(names.deep_view() =~= crate::table::keys_of(t).take(0));
        }
        for i in 0..n
            invariant
                n == m.named_export_table@.len(),
                m.named_export_table@ == t,
                names.deep_view() == crate::table::keys_of(t).take(i as int),
        {
            let ghost pre = names@;
            let k = m.named_export_table.key_at(i);
            proof {
                assert(names.deep_view().len() == names@.len());
                assert(crate::table::keys_of(t).take(i as int).len() == i);
                assert(pre.len() == i);
            }
            names.push(k.clone());
            proof {
                assert(names@[i as int]@ == t[i as int].0);
                assert(names.deep_view() =~= crate::table::keys_of(t).take(i + 1)) by {
                    assert forall|j: int|
                        0 <= j < names.deep_view().len() implies names.deep_view()[j]
                        == crate::table::keys_of(t).take(i + 1)[j] by {
                        assert(names.deep_view()[j] == names@[j]@);
                        if j < i {
                            assert(names@[j] == pre[j]);
                        }
                    }
                }
            }
        }
        proof {
            assert(crate::table::keys_of(t).take(n as int) =~= crate::table::keys_of(t));
        }
        Ok(names)
    }

    /// The names of the module's locals, in table order.
    pub fn get_traceable_local_variables(&self, mod_path: &String) -> (r: Result<
        Vec<String>,
        AnalysisError,
    >)
        requires
            self.graph_spec().wf(),
        ensures
            match r {
                Ok(names) => seq_contains_key(self.graph_spec().modules@, mod_path@)
                    && names.deep_view() == crate::table::keys_of(
                    seq_get(self.graph_spec().modules@, mod_path@).local_variable_table,
                ),
                Err(_) => !seq_contains_key(self.graph_spec().modules@, mod_path@),
            },
    {
        let m = match self.graph.modules.get(mod_path) {
            Some(m) => m,
            None => {
                return Err(AnalysisError::UnknownSymbol);
            }
        };
        let ghost t = seq_get(self.graph_spec().modules@, mod_path@).local_variable_table;
        let mut names: Vec<String> = Vec::new();
        let n = m.local_variable_table.len();
        proof {
            assert(m.deep_view().local_variable_table == t);
            assert(names.deep_view() =~= crate::table::keys_of(t).take(0));
        }
        for i in 0..n
            invariant
                n == m.local_variable_table@.len(),
                m.local_variable_table@ == t,
                names.deep_view() == crate::table::keys_of(t).take(i as int),
        {
            let ghost pre = names@;
            let k = m.local_variable_table.key_at(i);
            proof {
                assert(names.deep_view().len() == names@.len());
                assert(crate::table::keys_of(t).take(i as int).len() == i);
                assert(pre.len() == i);
            }
            names.push(k.clone());
            proof {
                assert(names@[i as int]@ == t[i as int].0);
                assert(names.deep_view() =~= crate::table::keys_of(t).take(i + 1)) by {
                    assert forall|j: int|
                        0 <= j < names.deep_view().len() implies names.deep_view()[j]
                        == crate::table::keys_of(t).take(i + 1)[j] by {
                        assert(names.deep_view()[j] == names@[j]@);
                        if j < i {
                            assert(names@[j] == pre[j]);
                        }
                    }
                }
            }
        }
        proof {
            assert(crate::table::keys_of(t).take(n as int) =~= crate::table::keys_of(t));
        }
        Ok(names)
    }
}

} // verus!
