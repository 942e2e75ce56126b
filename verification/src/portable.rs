//! The portable artifact: everything the search API needs, bundled in one
//! value, and the search over it.

use vstd::prelude::*;

use crate::table::StrTable;
use crate::tracker::DependencyTracker;
use crate::tracker::ModuleSymbol;
use crate::tracker::TraceTarget;
use crate::types::AnalysisError;
use crate::used_by_graph::UsedByGraph;

verus! {

/// The build output: the project root, the translation map, the
/// key-to-symbol and symbol-to-route indexes, and the used-by graph.
pub struct Portable {
    pub project_root: String,
    pub translation_json: StrTable<String>,
    pub i18n_to_symbol: StrTable<StrTable<Vec<String>>>,
    pub symbol_to_route: StrTable<StrTable<Vec<String>>>,
    pub used_by_graph: UsedByGraph,
}

impl Portable {
    pub open spec fn wf(&self) -> bool {
        &&& self.translation_json.wf()
        &&& self.i18n_to_symbol.wf()
        &&& forall|i: int|
            0 <= i < self.i18n_to_symbol@.len() ==> crate::table::distinct_keys(
                (#[trigger] self.i18n_to_symbol@[i]).1,
            )
        &&& self.symbol_to_route.wf()
        &&& forall|i: int|
            0 <= i < self.symbol_to_route@.len() ==> crate::table::distinct_keys(
                (#[trigger] self.symbol_to_route@[i]).1,
            )
        &&& self.used_by_graph.wf()
    }

    /// Bundle the build outputs.
    pub fn new(
        project_root: String,
        translation_json: StrTable<String>,
        i18n_to_symbol: StrTable<StrTable<Vec<String>>>,
        symbol_to_route: StrTable<StrTable<Vec<String>>>,
        used_by_graph: UsedByGraph,
    ) -> (r: Portable)
        ensures
            r.project_root == project_root,
            r.translation_json == translation_json,
            r.i18n_to_symbol == i18n_to_symbol,
            r.symbol_to_route == symbol_to_route,
            r.used_by_graph == used_by_graph,
    {
        Portable { project_root, translation_json, i18n_to_symbol, symbol_to_route, used_by_graph }
    }
}

/// Whether `hay` holds `needle` as a contiguous run.
pub open spec fn contains_sub(hay: Seq<char>, needle: Seq<char>) -> bool {
    exists|i: int|
        0 <= i <= hay.len() - needle.len() && #[trigger] hay.subrange(i, i + needle.len())
            == needle
}

/// Whether a translation value matches the query under the given mode.
pub open spec fn matches_query(value: Seq<char>, q: Seq<char>, exact: bool) -> bool {
    if exact {
        value == q
    } else {
        contains_sub(value, q)
    }
}

/// Substring test by scanning every start position.
pub fn contains_sub_exec(hay: &String, needle: &String) -> (r: bool)
    ensures
        r == contains_sub(hay@, needle@),
{
    let h = hay.as_str();
    let nd = needle.as_str();
    let n = h.unicode_len();
    let m = nd.unicode_len();
    if m > n {
        proof {
            if contains_sub(hay@, needle@) {
                let i = choose|i: int|
                    0 <= i <= hay@.len() - needle@.len() && #[trigger] hay@.subrange(
                        i,
                        i + needle@.len(),
                    ) == needle@;
            }
        }
        return false;
    }
    let mut i: usize = 0;
    loop
        invariant
            i <= n - m,
            m <= n,
            n == hay@.len(),
            m == needle@.len(),
            h@ == hay@,
            nd@ == needle@,
            forall|j: int|
                0 <= j < i ==> #[trigger] hay@.subrange(j, j + needle@.len()) != needle@,
        ensures
            i <= n - m,
            (hay@.subrange(i as int, i + needle@.len()) == needle@) || (i == n - m && forall|
                j: int,
            |
                0 <= j <= hay@.len() - needle@.len() ==> #[trigger] hay@.subrange(
                    j,
                    j + needle@.len(),
                ) != needle@),
        decreases n - m - i,
    {
        let piece = h.substring_char(i, i + m);
        let p2 = piece.to_owned();
        let nd2 = nd.to_owned();
        if p2 == nd2 {
            break;
        }
        proof {
            assert(hay@.subrange(i as int, i + needle@.len()) != needle@);
        }
        if i == n - m {
            break;
        }
        i = i + 1;
    }
    let piece = h.substring_char(i, i + m);
    let p2 = piece.to_owned();
    let nd2 = nd.to_owned();
    if p2 == nd2 {
        proof {
            assert(contains_sub(hay@, needle@));
        }
        true
    } else {
        proof {
            if contains_sub(hay@, needle@) {
                let j = choose|j: int|
                    0 <= j <= hay@.len() - needle@.len() && #[trigger] hay@.subrange(
                        j,
                        j + needle@.len(),
                    ) == needle@;
            }
        }
        false
    }
}

/// One step of a reported consumer path.
pub struct TraceStep {
    pub mod_path: String,
    pub symbol_name: String,
}

pub ghost struct TraceStepV {
    pub mod_path: Seq<char>,
    pub symbol_name: Seq<char>,
}

impl DeepView for TraceStep {
    type V = TraceStepV;

    open spec fn deep_view(&self) -> TraceStepV {
        TraceStepV { mod_path: self.mod_path@, symbol_name: self.symbol_name@ }
    }
}

/// The search result: for each matched translation key, for each route,
/// for each seed symbol, the path prefixes from the seed to the symbol
/// that backs the route.
pub struct SearchResult {
    pub project_root: String,
    pub trace_result: StrTable<StrTable<StrTable<Vec<Vec<TraceStep>>>>>,
}

/// Whether some translation entry matches the query.
pub open spec fn some_match(t: Seq<(Seq<char>, Seq<char>)>, q: Seq<char>, exact: bool) -> bool {
    exists|i: int| 0 <= i < t.len() && matches_query((#[trigger] t[i]).1, q, exact)
}

/// The translation keys whose value matches the query, in table order.
pub open spec fn matched_keys(
    t: Seq<(Seq<char>, Seq<char>)>,
    q: Seq<char>,
    exact: bool,
    n: int,
) -> Seq<Seq<char>>
    decreases n,
{
    if n <= 0 || n > t.len() {
        Seq::empty()
    } else {
        let prev = matched_keys(t, q, exact, n - 1);
        if matches_query(t[n - 1].1, q, exact) {
            prev.push(t[n - 1].0)
        } else {
            prev
        }
    }
}

proof fn lemma_matched_keys_from(t: Seq<(Seq<char>, Seq<char>)>, q: Seq<char>, exact: bool, n: int)
    requires
        0 <= n <= t.len(),
    ensures
        forall|y: Seq<char>|
            #[trigger] matched_keys(t, q, exact, n).contains(y) ==> exists|j: int|
                0 <= j < n && y == (#[trigger] t[j]).0,
    decreases n,
{
    if n > 0 {
        lemma_matched_keys_from(t, q, exact, n - 1);
        let mk = matched_keys(t, q, exact, n);
        let prev = matched_keys(t, q, exact, n - 1);
        assert forall|y: Seq<char>| #[trigger] mk.contains(y) implies exists|j: int|
            0 <= j < n && y == (#[trigger] t[j]).0 by {
            let a = choose|a: int| 0 <= a < mk.len() && mk[a] == y;
            if matches_query(t[n - 1].1, q, exact) {
                if a < prev.len() {
                    assert(prev[a] == y);
                    assert(prev.contains(y));
                } else {
                    assert(y == t[n - 1].0);
                }
            } else {
                assert(prev.contains(y));
            }
        }
    }
}

/// With distinct translation keys the matched keys are pairwise distinct.
proof fn lemma_matched_keys_distinct(
    t: Seq<(Seq<char>, Seq<char>)>,
    q: Seq<char>,
    exact: bool,
    n: int,
)
    requires
        crate::table::distinct_keys(t),
        0 <= n <= t.len(),
    ensures
        forall|a: int, b: int|
            0 <= a < b < matched_keys(t, q, exact, n).len() ==> matched_keys(t, q, exact, n)[a]
                != matched_keys(t, q, exact, n)[b],
    decreases n,
{
    if n > 0 {
        lemma_matched_keys_distinct(t, q, exact, n - 1);
        lemma_matched_keys_from(t, q, exact, n - 1);
        let mk = matched_keys(t, q, exact, n);
        let prev = matched_keys(t, q, exact, n - 1);
        assert forall|a: int, b: int|
            0 <= a < b < mk.len() implies mk[a] != mk[b] by {
            if matches_query(t[n - 1].1, q, exact) && b == prev.len() {
                assert(mk[b] == t[n - 1].0);
                assert(mk[a] == prev[a]);
                if mk[a] == mk[b] {
                    assert(prev.contains(prev[a]));
                    let j = choose|j: int| 0 <= j < n - 1 && prev[a] == (#[trigger] t[j]).0;
                    assert(t[j].0 != t[n - 1].0);
                }
            } else {
                assert(mk[a] == prev[a] && mk[b] == prev[b]);
            }
        }
    }
}

/// Search the portable artifact: collect the translation keys whose value
/// matches `q`, trace every symbol that consumes one of them in full-path
/// mode, and report, per key and route, the path prefixes that reach a
/// symbol backing the route.
///
/// `NotFound` comes back exactly when no translation matches; on success
/// the keys of the result are exactly the matched keys, in table order.
pub fn search(p: &Portable, q: &String, exact_match: bool) -> (r: Result<
    SearchResult,
    AnalysisError,
>)
    requires
        p.wf(),
    ensures
        match r {
            Ok(res) => some_match(p.translation_json@, q@, exact_match) && res.project_root@
                == p.project_root@ && crate::table::keys_of(res.trace_result@) == matched_keys(
                p.translation_json@,
                q@,
                exact_match,
                p.translation_json@.len() as int,
            ) && (all_seed_traces_ok(*p) ==> res.trace_result@ == search_fold(
                *p,
                matched_keys(
                    p.translation_json@,
                    q@,
                    exact_match,
                    p.translation_json@.len() as int,
                ),
                matched_keys(
                    p.translation_json@,
                    q@,
                    exact_match,
                    p.translation_json@.len() as int,
                ).len() as int,
            )),
            Err(e) => e == AnalysisError::NotFound && !some_match(
                p.translation_json@,
                q@,
                exact_match,
            ),
        },
{
    // collect the matching translation keys
    let ghost t = p.translation_json@;
    let mut matched: Vec<String> = Vec::new();
    let tn = p.translation_json.len();
    proof {
        assert(matched.deep_view() =~= matched_keys(t, q@, exact_match, 0));
    }
    for i in 0..tn
        invariant
            tn == p.translation_json@.len(),
            t == p.translation_json@,
            matched.deep_view() == matched_keys(t, q@, exact_match, i as int),
            matched@.len() > 0 ==> some_match(p.translation_json@, q@, exact_match),
            forall|j: int|
                0 <= j < i ==> !matches_query((#[trigger] p.translation_json@[j]).1, q@, exact_match)
                    || matched@.len() > 0,
    {
        let value = p.translation_json.val_at(i);
        let hit = if exact_match {
            *value == *q
        } else {
            contains_sub_exec(value, q)
        };
        if hit {
            proof {
                assert(value.deep_view() == p.translation_json@[i as int].1);
                assert(matches_query(p.translation_json@[i as int].1, q@, exact_match));
            }
            let ghost mpre = matched@;
            let k = p.translation_json.key_at(i);
            matched.push(k.clone());
            proof {
                assert(matched.deep_view() =~= matched_keys(t, q@, exact_match, i + 1)) by {
                    assert forall|j: int|
                        0 <= j < matched.deep_view().len() implies matched.deep_view()[j]
                        == matched_keys(t, q@, exact_match, i + 1)[j] by {
                        assert(matched.deep_view()[j] == matched@[j]@);
                        if j < mpre.len() {
                            assert(matched@[j] == mpre[j]);
                        }
                    }
                }
            }
        } else {
            proof {
                assert(!matches_query(t[i as int].1, q@, exact_match));
            }
        }
    }
    if matched.len() == 0 {
        proof {
            assert(!some_match(p.translation_json@, q@, exact_match)) by {
                if some_match(p.translation_json@, q@, exact_match) {
                    let j = choose|j: int|
                        0 <= j < p.translation_json@.len() && matches_query(
                            (#[trigger] p.translation_json@[j]).1,
                            q@,
                            exact_match,
                        );
                }
            }
        }
        return Err(AnalysisError::NotFound);
    }
    let mut tracker = DependencyTracker::new(&p.used_by_graph, true);
    let mut trace_result: StrTable<StrTable<StrTable<Vec<Vec<TraceStep>>>>> = StrTable::new();
    let ghost mk = matched.deep_view();
    proof {
        assert(crate::tracker::cache_sound(
            tracker.cache_view(),
            p.used_by_graph,
            tracker.full_path_only_spec(),
        ));
        assert(mk == matched_keys(t, q@, exact_match, t.len() as int));
        assert(crate::table::keys_of(trace_result@) =~= mk.take(0));
        lemma_matched_keys_distinct(t, q@, exact_match, t.len() as int);
    }
    let ghost hyp = all_seed_traces_ok(*p);
    let ghost s2r = p.symbol_to_route@;
    proof {
        assert(trace_result@ =~= search_fold(*p, mk, 0));
    }
    let mn = matched.len();
    for i in 0..mn
        invariant
            mn == matched@.len(),
            mk == matched.deep_view(),
            t == p.translation_json@,
            mk == matched_keys(t, q@, exact_match, t.len() as int),
            forall|a: int, b: int| 0 <= a < b < mk.len() ==> mk[a] != mk[b],
            p.wf(),
            some_match(p.translation_json@, q@, exact_match),
            tracker.graph_spec() == &p.used_by_graph,
            crate::tracker::cache_ok(tracker.cache_view()),
            crate::tracker::cache_sound(
                tracker.cache_view(),
                p.used_by_graph,
                tracker.full_path_only_spec(),
            ),
            trace_result.wf(),
            crate::table::keys_of(trace_result@) == mk.take(i as int),
            hyp == all_seed_traces_ok(*p),
            s2r == p.symbol_to_route@,
            tracker.full_path_only_spec() == true,
            hyp ==> trace_result@ == search_fold(*p, mk, i as int),
    {
        let key = &matched[i];
        let mut route_map: StrTable<StrTable<Vec<Vec<TraceStep>>>> = StrTable::new();
        proof {
            assert(rm_wf(route_map));
        }
        match p.i18n_to_symbol.get(key) {
            None => {
                proof {
                    assert(!crate::table::seq_contains_key(p.i18n_to_symbol@, mk[i as int]));
                    assert(route_map@ =~= key_route_map(*p, mk[i as int]));
                }
            }
            Some(consumers) => {
                let ghost ki = crate::table::seq_key_index(p.i18n_to_symbol@, mk[i as int]);
                proof {
                    crate::table::lemma_key_index(p.i18n_to_symbol@, matched@[i as int]@);
                    assert(crate::table::distinct_keys(p.i18n_to_symbol@[ki].1));
                    assert(consumers@ == p.i18n_to_symbol@[ki].1);
                    assert(0 <= ki < p.i18n_to_symbol@.len());
                    assert(route_map@ =~= consumers_fold(
                        p.used_by_graph,
                        s2r,
                        Seq::<(Seq<char>, Seq<(Seq<char>, Seq<Seq<TraceStepV>>)>)>::empty(),
                        consumers@,
                        0,
                    ));
                }
                let cn = consumers.len();
                for c in 0..cn
                    invariant
                        i < mn,
                        mn == matched@.len(),
                        cn == consumers@.len(),
                        p.wf(),
                        consumers.wf(),
                        crate::table::distinct_keys(consumers@),
                        tracker.graph_spec() == &p.used_by_graph,
                        crate::tracker::cache_ok(tracker.cache_view()),
                        crate::tracker::cache_sound(
                            tracker.cache_view(),
                            p.used_by_graph,
                            tracker.full_path_only_spec(),
                        ),
                        tracker.full_path_only_spec() == true,
                        rm_wf(route_map),
                        hyp == all_seed_traces_ok(*p),
                        s2r == p.symbol_to_route@,
                        mk == matched.deep_view(),
                        ki == crate::table::seq_key_index(p.i18n_to_symbol@, mk[i as int]),
                        0 <= ki < p.i18n_to_symbol@.len(),
                        consumers@ == p.i18n_to_symbol@[ki].1,
                        hyp ==> route_map@ == consumers_fold(
                            p.used_by_graph,
                            s2r,
                            Seq::<(Seq<char>, Seq<(Seq<char>, Seq<Seq<TraceStepV>>)>)>::empty(),
                            consumers@,
                            c as int,
                        ),
                    decreases cn - c,
                {
                    let ghost mc = route_map@;
                    let mod_path = consumers.key_at(c);
                    let syms = consumers.val_at(c);
                    let ghost mpv = mod_path@;
                    let ghost symsv = syms.deep_view();
                    proof {
                        assert(mpv == consumers@[c as int].0);
                        assert(symsv == consumers@[c as int].1);
                        assert(route_map@ =~= syms_fold(
                            p.used_by_graph,
                            s2r,
                            mc,
                            mpv,
                            symsv,
                            0,
                        ));
                    }
                    let sn = syms.len();
                    for s in 0..sn
                        invariant
                            i < mn,
                            mn == matched@.len(),
                            c < cn,
                            cn == consumers@.len(),
                            sn == syms@.len(),
                            p.wf(),
                            consumers.wf(),
                            crate::table::distinct_keys(consumers@),
                            tracker.graph_spec() == &p.used_by_graph,
                            crate::tracker::cache_ok(tracker.cache_view()),
                            crate::tracker::cache_sound(
                                tracker.cache_view(),
                                p.used_by_graph,
                                tracker.full_path_only_spec(),
                            ),
                            tracker.full_path_only_spec() == true,
                            rm_wf(route_map),
                            hyp == all_seed_traces_ok(*p),
                            s2r == p.symbol_to_route@,
                            mk == matched.deep_view(),
                            ki == crate::table::seq_key_index(p.i18n_to_symbol@, mk[i as int]),
                            0 <= ki < p.i18n_to_symbol@.len(),
                            consumers@ == p.i18n_to_symbol@[ki].1,
                            mpv == consumers@[c as int].0,
                            mpv == mod_path@,
                            symsv == consumers@[c as int].1,
                            symsv == syms.deep_view(),
                            hyp ==> mc == consumers_fold(
                                p.used_by_graph,
                                s2r,
                                Seq::<(Seq<char>, Seq<(Seq<char>, Seq<Seq<TraceStepV>>)>)>::empty(),
                                consumers@,
                                c as int,
                            ),
                            hyp ==> route_map@ == syms_fold(
                                p.used_by_graph,
                                s2r,
                                mc,
                                mpv,
                                symsv,
                                s as int,
                            ),
                    {
                        let ghost ms0 = route_map@;
                        let seed: ModuleSymbol = (
                            mod_path.clone(),
                            TraceTarget::LocalVar(syms[s].clone()),
                        );
                        let ghost seedv = crate::tracker::ms_view(seed);
                        proof {
                            assert(seedv == seed_of(mpv, symsv[s as int]));
                            if hyp {
                                assert(p.i18n_to_symbol@[ki].1[c as int].0 == mpv);
                                assert(p.i18n_to_symbol@[ki].1[c as int].1[s as int] == symsv[
                                    s as int
                                ]);
                                assert(crate::tracker::trace_spec(
                                    p.used_by_graph,
                                    seed_of(
                                        p.i18n_to_symbol@[ki].1[c as int].0,
                                        p.i18n_to_symbol@[ki].1[c as int].1[s as int],
                                    ),
                                    true,
                                    crate::tracker::fuel_bound_spec(p.used_by_graph) as nat,
                                ) is Ok);
                                assert(crate::tracker::trace_spec(
                                    p.used_by_graph,
                                    seedv,
                                    true,
                                    crate::tracker::fuel_bound_spec(p.used_by_graph) as nat,
                                ) is Ok);
                            }
                        }
                        match tracker.trace(seed) {
                            Err(_) => {
                                proof {
                                    if hyp {
                                        assert(false);
                                    }
                                }
                            }
                            Ok(full_paths) => {
                                let ghost pathsv = crate::tracker::paths_view(full_paths@);
                                proof {
                                    if hyp {
                                        assert(pathsv == crate::tracker::trace_spec(
                                            p.used_by_graph,
                                            seedv,
                                            true,
                                            crate::tracker::fuel_bound_spec(
                                                p.used_by_graph,
                                            ) as nat,
                                        ).unwrap());
                                        assert(route_map@ =~= paths_fold(
                                            s2r,
                                            ms0,
                                            pathsv,
                                            0,
                                            symsv[s as int],
                                        ));
                                    }
                                }
                                let pn = full_paths.len();
                                for pi in 0..pn
                                    invariant
                                        i < mn,
                                        mn == matched@.len(),
                                        c < cn,
                                        cn == consumers@.len(),
                                        s < sn,
                                        sn == syms@.len(),
                                        pn == full_paths@.len(),
                                        p.wf(),
                                        consumers.wf(),
                                        crate::table::distinct_keys(consumers@),
                                        tracker.graph_spec() == &p.used_by_graph,
                                        crate::tracker::cache_ok(tracker.cache_view()),
                                        crate::tracker::cache_sound(
                                            tracker.cache_view(),
                                            p.used_by_graph,
                                            tracker.full_path_only_spec(),
                                        ),
                                        tracker.full_path_only_spec() == true,
                                        rm_wf(route_map),
                                        hyp == all_seed_traces_ok(*p),
                                        s2r == p.symbol_to_route@,
                                        symsv == syms.deep_view(),
                                        pathsv == crate::tracker::paths_view(full_paths@),
                                        hyp ==> route_map@ == paths_fold(
                                            s2r,
                                            ms0,
                                            pathsv,
                                            pi as int,
                                            symsv[s as int],
                                        ),
                                {
                                    let ghost mp0 = route_map@;
                                    walk_path(
                                        p,
                                        &full_paths[pi],
                                        syms[s].as_str(),
                                        &mut route_map,
                                    );
                                    proof {
                                        assert(crate::tracker::path_view(
                                            full_paths@[pi as int]@,
                                        ) == pathsv[pi as int]);
                                        assert(syms@[s as int]@ == symsv[s as int]);
                                        assert(route_map@ == path_walk(
                                            s2r,
                                            mp0,
                                            pathsv[pi as int],
                                            symsv[s as int],
                                        ));
                                        if hyp {
                                            assert(route_map@ == paths_fold(
                                                s2r,
                                                ms0,
                                                pathsv,
                                                pi + 1,
                                                symsv[s as int],
                                            ));
                                        }
                                    }
                                }
                                proof {
                                    if hyp {
                                        assert(route_map@ == paths_fold(
                                            s2r,
                                            ms0,
                                            pathsv,
                                            pathsv.len() as int,
                                            symsv[s as int],
                                        ));
                                        assert(route_map@ == syms_fold(
                                            p.used_by_graph,
                                            s2r,
                                            mc,
                                            mpv,
                                            symsv,
                                            s + 1,
                                        ));
                                    }
                                }
                            }
                        }
                    }
                    proof {
                        if hyp {
                            assert(route_map@ == syms_fold(
                                p.used_by_graph,
                                s2r,
                                mc,
                                mpv,
                                symsv,
                                symsv.len() as int,
                            ));
                            assert(route_map@ == consumers_fold(
                                p.used_by_graph,
                                s2r,
                                Seq::<(Seq<char>, Seq<(Seq<char>, Seq<Seq<TraceStepV>>)>)>::empty(),
                                consumers@,
                                c + 1,
                            ));
                        }
                    }
                }
                proof {
                    if hyp {
                        assert(route_map@ == key_route_map(*p, mk[i as int])) by {
                            assert(crate::table::seq_contains_key(
                                p.i18n_to_symbol@,
                                mk[i as int],
                            ));
                            assert(crate::table::seq_get(p.i18n_to_symbol@, mk[i as int])
                                == consumers@);
                        }
                    }
                }
            }
        }
        proof {
            assert(matched.deep_view()[i as int] == matched@[i as int]@);
            assert(crate::table::keys_of(trace_result@).len() == trace_result@.len());
            assert(mk.take(i as int).len() == i);
            assert(trace_result@.len() == i);
            assert(!crate::table::seq_contains_key(trace_result@, mk[i as int])) by {
                if crate::table::seq_contains_key(trace_result@, mk[i as int]) {
                    let j = choose|j: int|
                        0 <= j < trace_result@.len() && trace_result@[j].0 == mk[i as int];
                    assert(crate::table::keys_of(trace_result@)[j] == trace_result@[j].0);
                    assert(crate::table::keys_of(trace_result@)[j] == mk.take(i as int)[j]);
                    assert(mk.take(i as int)[j] == mk[j]);
                    assert(mk[j] != mk[i as int]);
                }
            }
        }
        let ghost trpre = trace_result@;
        let ghost rmv = route_map@;
        trace_result.set(key.clone(), route_map);
        proof {
            assert(trace_result@ =~= trpre.push((mk[i as int], rmv)));
            if hyp {
                assert(rmv == key_route_map(*p, mk[i as int]));
                assert(trace_result@ == search_fold(*p, mk, i + 1));
            }
            assert(crate::table::keys_of(trace_result@) =~= mk.take(i + 1)) by {
                assert(crate::table::keys_of(trace_result@).len() == trace_result@.len());
                assert forall|j: int|
                    0 <= j < crate::table::keys_of(trace_result@).len() implies crate::table::keys_of(
                    trace_result@,
                )[j] == mk.take(i + 1)[j] by {
                    assert(crate::table::keys_of(trace_result@)[j] == trace_result@[j].0);
                    if j < trpre.len() {
                        assert(trace_result@[j] == trpre[j]);
                        assert(crate::table::keys_of(trpre)[j] == trpre[j].0);
                        assert(crate::table::keys_of(trpre)[j] == mk.take(i as int)[j]);
                    } else {
                        assert(trace_result@[j] == (mk[i as int], rmv));
                    }
                }
            }
        }
    }
    proof {
        assert(mk.take(mn as int) =~= mk);
        if hyp {
            assert(trace_result@ == search_fold(*p, mk, mk.len() as int));
        }
    }
    Ok(SearchResult { project_root: p.project_root.clone(), trace_result })
}

pub type RouteMapV = Seq<(Seq<char>, Seq<(Seq<char>, Seq<Seq<TraceStepV>>)>)>;

pub type SymToRouteV = Seq<(Seq<char>, Seq<(Seq<char>, Seq<Seq<char>>)>)>;

/// One prefix recorded under a route and a seed: a fresh route gets a
/// fresh one-seed table, a fresh seed a one-prefix list, and an existing
/// seed has the prefix appended.
pub open spec fn rm_add(
    m: RouteMapV,
    route: Seq<char>,
    seed: Seq<char>,
    prefix: Seq<TraceStepV>,
) -> RouteMapV {
    if crate::table::seq_contains_key(m, route) {
        let ri = crate::table::seq_key_index(m, route);
        let per = m[ri].1;
        let per2 = if crate::table::seq_contains_key(per, seed) {
            let si = crate::table::seq_key_index(per, seed);
            per.update(si, (per[si].0, per[si].1.push(prefix)))
        } else {
            per.push((seed, seq![prefix]))
        };
        m.update(ri, (m[ri].0, per2))
    } else {
        m.push((route, seq![(seed, seq![prefix])]))
    }
}

/// A traced step, as the search reports it.
pub open spec fn step_v(ms: crate::tracker::ModuleSymbolV) -> TraceStepV {
    TraceStepV { mod_path: ms.path, symbol_name: crate::tracker::target_name(ms.target) }
}

/// The first `i` steps of a consumer-to-seed walk, as reported steps.
pub open spec fn prefix_of(rev: Seq<crate::tracker::ModuleSymbolV>, i: int) -> Seq<TraceStepV> {
    Seq::new(i as nat, |j: int| step_v(rev[j]))
}

/// The prefix recorded under each of the first `r` routes.
pub open spec fn routes_fold(
    m: RouteMapV,
    routes: Seq<Seq<char>>,
    r: int,
    seed: Seq<char>,
    prefix: Seq<TraceStepV>,
) -> RouteMapV
    decreases r,
{
    if r <= 0 {
        m
    } else {
        rm_add(routes_fold(m, routes, r - 1, seed, prefix), routes[r - 1], seed, prefix)
    }
}

/// What one walk step records: when the step is a local symbol that backs
/// routes, the prefix up to the step goes under each of them.
pub open spec fn walk_one(
    s2r: SymToRouteV,
    m: RouteMapV,
    rev: Seq<crate::tracker::ModuleSymbolV>,
    i: int,
    seed: Seq<char>,
) -> RouteMapV {
    match rev[i].target {
        crate::tracker::TraceTargetV::LocalVar(sym) => {
            if crate::table::seq_contains_key(s2r, rev[i].path) {
                let per = crate::table::seq_get(s2r, rev[i].path);
                if crate::table::seq_contains_key(per, sym) {
                    let routes = crate::table::seq_get(per, sym);
                    if routes.len() > 0 {
                        routes_fold(m, routes, routes.len() as int, seed, prefix_of(rev, i))
                    } else {
                        m
                    }
                } else {
                    m
                }
            } else {
                m
            }
        },
        _ => m,
    }
}

/// The first `n` steps of one walk, from the consumer end.
pub open spec fn walk_fold(
    s2r: SymToRouteV,
    m: RouteMapV,
    rev: Seq<crate::tracker::ModuleSymbolV>,
    n: int,
    seed: Seq<char>,
) -> RouteMapV
    decreases n,
{
    if n <= 0 {
        m
    } else {
        walk_one(s2r, walk_fold(s2r, m, rev, n - 1, seed), rev, n - 1, seed)
    }
}

/// One traced path walked whole; the tracer reports paths leaf-to-root,
/// so the walk reverses them first.
pub open spec fn path_walk(
    s2r: SymToRouteV,
    m: RouteMapV,
    path: Seq<crate::tracker::ModuleSymbolV>,
    seed: Seq<char>,
) -> RouteMapV {
    walk_fold(s2r, m, path.reverse(), path.len() as int, seed)
}

/// The first `pi` traced paths of one seed, walked in order.
pub open spec fn paths_fold(
    s2r: SymToRouteV,
    m: RouteMapV,
    paths: Seq<Seq<crate::tracker::ModuleSymbolV>>,
    pi: int,
    seed: Seq<char>,
) -> RouteMapV
    decreases pi,
{
    if pi <= 0 {
        m
    } else {
        path_walk(s2r, paths_fold(s2r, m, paths, pi - 1, seed), paths[pi - 1], seed)
    }
}

/// The consumer symbol traced as a seed of the used-by graph.
pub open spec fn seed_of(mp: Seq<char>, sym: Seq<char>) -> crate::tracker::ModuleSymbolV {
    crate::tracker::ModuleSymbolV {
        path: mp,
        target: crate::tracker::TraceTargetV::LocalVar(sym),
    }
}

/// The first `s` seed symbols of one consumer module, each traced at the
/// walk budget and its full paths walked.
pub open spec fn syms_fold(
    g: UsedByGraph,
    s2r: SymToRouteV,
    m: RouteMapV,
    mp: Seq<char>,
    syms: Seq<Seq<char>>,
    s: int,
) -> RouteMapV
    decreases s,
{
    if s <= 0 {
        m
    } else {
        let m1 = syms_fold(g, s2r, m, mp, syms, s - 1);
        match crate::tracker::trace_spec(
            g,
            seed_of(mp, syms[s - 1]),
            true,
            crate::tracker::fuel_bound_spec(g) as nat,
        ) {
            Ok(paths) => paths_fold(s2r, m1, paths, paths.len() as int, syms[s - 1]),
            Err(_) => m1,
        }
    }
}

/// The first `c` consumer modules of one translation key.
pub open spec fn consumers_fold(
    g: UsedByGraph,
    s2r: SymToRouteV,
    m: RouteMapV,
    cons: Seq<(Seq<char>, Seq<Seq<char>>)>,
    c: int,
) -> RouteMapV
    decreases c,
{
    if c <= 0 {
        m
    } else {
        let m1 = consumers_fold(g, s2r, m, cons, c - 1);
        syms_fold(g, s2r, m1, cons[c - 1].0, cons[c - 1].1, cons[c - 1].1.len() as int)
    }
}

/// The route map of one matched translation key: every consumer symbol
/// recorded for it is traced and its full paths are walked; a key with no
/// recorded consumers has an empty map.
pub open spec fn key_route_map(p: Portable, k: Seq<char>) -> RouteMapV {
    if crate::table::seq_contains_key(p.i18n_to_symbol@, k) {
        let cons = crate::table::seq_get(p.i18n_to_symbol@, k);
        consumers_fold(
            p.used_by_graph,
            p.symbol_to_route@,
            Seq::<(Seq<char>, Seq<(Seq<char>, Seq<Seq<TraceStepV>>)>)>::empty(),
            cons,
            cons.len() as int,
        )
    } else {
        Seq::<(Seq<char>, Seq<(Seq<char>, Seq<Seq<TraceStepV>>)>)>::empty()
    }
}

/// The search result over the first `n` matched keys, in match order.
pub open spec fn search_fold(p: Portable, keys: Seq<Seq<char>>, n: int) -> Seq<
    (Seq<char>, RouteMapV),
>
    decreases n,
{
    if n <= 0 {
        Seq::<(Seq<char>, RouteMapV)>::empty()
    } else {
        search_fold(p, keys, n - 1).push((keys[n - 1], key_route_map(p, keys[n - 1])))
    }
}

/// Every consumer symbol recorded in the key-to-symbol index traces
/// within the walk budget: the used-by edges it can reach are acyclic.
pub open spec fn all_seed_traces_ok(p: Portable) -> bool {
    forall|k: int, c: int, s: int|
        0 <= k < p.i18n_to_symbol@.len() && 0 <= c < p.i18n_to_symbol@[k].1.len() && 0 <= s
            < p.i18n_to_symbol@[k].1[c].1.len() ==> #[trigger] crate::tracker::trace_spec(
            p.used_by_graph,
            seed_of(p.i18n_to_symbol@[k].1[c].0, p.i18n_to_symbol@[k].1[c].1[s]),
            true,
            crate::tracker::fuel_bound_spec(p.used_by_graph) as nat,
        ) is Ok
}

/// The route map and each of its per-seed tables keep distinct keys.
pub open spec fn rm_wf(t: StrTable<StrTable<Vec<Vec<TraceStep>>>>) -> bool {
    t.wf() && forall|i: int|
        0 <= i < t@.len() ==> crate::table::distinct_keys((#[trigger] t@[i]).1)
}

/// Walk one full path from the consumer end; whenever a step's local
/// symbol backs routes, record the prefix up to that step for each route.
fn walk_path(
    p: &Portable,
    full_path: &Vec<ModuleSymbol>,
    seed_symbol: &str,
    route_map: &mut StrTable<StrTable<Vec<Vec<TraceStep>>>>,
)
    requires
        p.wf(),
        rm_wf(*old(route_map)),
    ensures
        rm_wf(*final(route_map)),
        final(route_map)@ == path_walk(
            p.symbol_to_route@,
            old(route_map)@,
            crate::tracker::path_view(full_path@),
            seed_symbol@,
        ),
{
    let ghost s2r = p.symbol_to_route@;
    let ghost m0 = route_map@;
    let ghost revv = crate::tracker::path_view(full_path@).reverse();
    let ghost seedv = seed_symbol@;
    // the tracer returns paths leaf-to-root; walk from the consumer end
    let n = full_path.len();
    let mut rev: Vec<ModuleSymbol> = Vec::new();
    let mut k = n;
    while k > 0
        invariant
            k <= n,
            n == full_path@.len(),
            revv == crate::tracker::path_view(full_path@).reverse(),
            rev@.len() == n - k,
            forall|j: int| 0 <= j < rev@.len() ==> crate::tracker::ms_view(#[trigger] rev@[j])
                == revv[j],
        decreases k,
    {
        k = k - 1;
        let ghost rpre = rev@;
        rev.push((full_path[k].0.clone(), full_path[k].1.duplicate()));
        proof {
            assert(crate::tracker::ms_view(rev@[rpre.len() as int]) == crate::tracker::path_view(
                full_path@,
            )[k as int]);
            assert(revv[rpre.len() as int] == crate::tracker::path_view(full_path@)[n - 1
                - rpre.len()]);
            assert forall|j: int| 0 <= j < rev@.len() implies crate::tracker::ms_view(
                #[trigger] rev@[j],
            ) == revv[j] by {
                if j < rpre.len() {
                    assert(rev@[j] == rpre[j]);
                }
            }
        }
    }
    let rn = rev.len();
    proof {
        assert(rn == revv.len());
        assert(walk_fold(s2r, m0, revv, 0, seedv) == m0);
    }
    for i in 0..rn
        invariant
            rn == rev@.len(),
            rn == revv.len(),
            p.wf(),
            rm_wf(*route_map),
            s2r == p.symbol_to_route@,
            revv == crate::tracker::path_view(full_path@).reverse(),
            seedv == seed_symbol@,
            forall|j: int| 0 <= j < rev@.len() ==> crate::tracker::ms_view(#[trigger] rev@[j])
                == revv[j],
            route_map@ == walk_fold(s2r, m0, revv, i as int, seedv),
    {
        let ghost mw = route_map@;
        proof {
            assert(crate::tracker::ms_view(rev@[i as int]) == revv[i as int]);
        }
        match &rev[i].1 {
            TraceTarget::LocalVar(step_symbol) => {
                proof {
                    assert(revv[i as int].target == crate::tracker::TraceTargetV::LocalVar(
                        step_symbol@,
                    ));
                    assert(revv[i as int].path == rev@[i as int].0@);
                }
                match p.symbol_to_route.get(&rev[i].0) {
                    None => {
                        proof {
                            assert(!crate::table::seq_contains_key(s2r, revv[i as int].path));
                            assert(walk_one(s2r, mw, revv, i as int, seedv) == mw);
                        }
                    }
                    Some(per_module) => {
                        proof {
                            let mi = crate::table::seq_key_index(
                                p.symbol_to_route@,
                                rev@[i as int].0@,
                            );
                            crate::table::lemma_key_index(p.symbol_to_route@, rev@[i as int].0@);
                            assert(crate::table::distinct_keys(p.symbol_to_route@[mi].1));
                            assert(per_module@ == crate::table::seq_get(
                                s2r,
                                revv[i as int].path,
                            ));
                        }
                        match per_module.get(step_symbol) {
                            None => {
                                proof {
                                    assert(walk_one(s2r, mw, revv, i as int, seedv) == mw);
                                }
                            }
                            Some(rs) => {
                                let routes = crate::types::dup_strings(rs);
                                let ghost routesv = routes.deep_view();
                                proof {
                                    assert(routesv == crate::table::seq_get(
                                        crate::table::seq_get(s2r, revv[i as int].path),
                                        step_symbol@,
                                    ));
                                }
                                if routes.len() > 0 {
                                    // the prefix from the seed up to this step, excluded
                                    let mut prefix: Vec<TraceStep> = Vec::new();
                                    for j in 0..i
                                        invariant
                                            i < rn,
                                            rn == rev@.len(),
                                            rn == revv.len(),
                                            revv == crate::tracker::path_view(
                                                full_path@,
                                            ).reverse(),
                                            forall|a: int|
                                                0 <= a < rev@.len()
                                                    ==> crate::tracker::ms_view(
                                                    #[trigger] rev@[a],
                                                ) == revv[a],
                                            prefix.deep_view() == prefix_of(revv, j as int),
                                    {
                                        let ghost ppre = prefix.deep_view();
                                        prefix.push(
                                            TraceStep {
                                                mod_path: rev[j].0.clone(),
                                                symbol_name: rev[j].1.to_string(),
                                            },
                                        );
                                        proof {
                                            assert(ppre.len() == j);
                                            assert(prefix@.len() == j + 1);
                                            assert(prefix.deep_view() =~= prefix_of(
                                                revv,
                                                j + 1,
                                            )) by {
                                                assert forall|a: int|
                                                    0 <= a < prefix@.len() implies prefix.deep_view()[a]
                                                    == prefix_of(revv, j + 1)[a] by {
                                                    assert(prefix.deep_view()[a] == prefix@[
                                                        a
                                                    ].deep_view());
                                                    if a < j {
                                                        assert(ppre[a] == prefix_of(
                                                            revv,
                                                            j as int,
                                                        )[a]);
                                                    } else {
                                                        assert(crate::tracker::ms_view(
                                                            rev@[a],
                                                        ) == revv[a]);
                                                        assert(prefix@[a].deep_view() == step_v(
                                                            revv[a],
                                                        ));
                                                    }
                                                }
                                            }
                                        }
                                    }
                                    proof {
                                        assert(prefix.deep_view() == prefix_of(revv, i as int));
                                    }
                                    let seed_name = seed_symbol.to_owned();
                                    let rn2 = routes.len();
                                    proof {
                                        assert(routes_fold(
                                            mw,
                                            routesv,
                                            0,
                                            seedv,
                                            prefix_of(revv, i as int),
                                        ) == mw);
                                    }
                                    for r in 0..rn2
                                        invariant
                                            rn2 == routes@.len(),
                                            rn2 == routesv.len(),
                                            routesv == routes.deep_view(),
                                            rm_wf(*route_map),
                                            seedv == seed_name@,
                                            prefix.deep_view() == prefix_of(revv, i as int),
                                            i < rn,
                                            rn == revv.len(),
                                            route_map@ == routes_fold(
                                                mw,
                                                routesv,
                                                r as int,
                                                seedv,
                                                prefix_of(revv, i as int),
                                            ),
                                    {
                                        let route = &routes[r];
                                        add_prefix(route_map, route, &seed_name, &prefix);
                                        proof {
                                            assert(route@ == routesv[r as int]);
                                            assert(route_map@ == routes_fold(
                                                mw,
                                                routesv,
                                                r + 1,
                                                seedv,
                                                prefix_of(revv, i as int),
                                            ));
                                        }
                                    }
                                    proof {
                                        assert(route_map@ == walk_one(
                                            s2r,
                                            mw,
                                            revv,
                                            i as int,
                                            seedv,
                                        ));
                                    }
                                } else {
                                    proof {
                                        assert(routesv.len() == 0);
                                        assert(walk_one(s2r, mw, revv, i as int, seedv) == mw);
                                    }
                                }
                            }
                        }
                    }
                }
            }
            _ => {
                proof {
                    assert(!(revv[i as int].target is LocalVar));
                    assert(walk_one(s2r, mw, revv, i as int, seedv) == mw);
                }
            }
        }
        proof {
            assert(route_map@ == walk_one(s2r, mw, revv, i as int, seedv));
            assert(route_map@ == walk_fold(s2r, m0, revv, i + 1, seedv));
        }
    }
    proof {
        assert(route_map@ == walk_fold(s2r, m0, revv, rn as int, seedv));
        assert(route_map@ == path_walk(
            s2r,
            m0,
            crate::tracker::path_view(full_path@),
            seedv,
        ));
    }
}

/// Record one prefix under `route` and `seed`.
fn add_prefix(
    route_map: &mut StrTable<StrTable<Vec<Vec<TraceStep>>>>,
    route: &String,
    seed: &String,
    prefix: &Vec<TraceStep>,
)
    requires
        rm_wf(*old(route_map)),
    ensures
        rm_wf(*final(route_map)),
        final(route_map)@ == rm_add(old(route_map)@, route@, seed@, prefix.deep_view()),
{
    let mut copy: Vec<TraceStep> = Vec::new();
    let n = prefix.len();
    for i in 0..n
        invariant
            n == prefix@.len(),
            copy.deep_view() == prefix.deep_view().take(i as int),
    {
        let ghost cpre = copy.deep_view();
        let ghost cvecpre = copy@;
        copy.push(
            TraceStep {
                mod_path: prefix[i].mod_path.clone(),
                symbol_name: prefix[i].symbol_name.clone(),
            },
        );
        proof {
            assert(cpre.len() == i);
            assert(cvecpre.len() == i);
            assert(copy@.len() == i + 1);
            assert(copy.deep_view() =~= prefix.deep_view().take(i + 1)) by {
                assert forall|j: int| 0 <= j < copy@.len() implies copy.deep_view()[j]
                    == prefix.deep_view().take(i + 1)[j] by {
                    assert(copy.deep_view()[j] == copy@[j].deep_view());
                    if j < i {
                        assert(copy@[j] == cvecpre[j]);
                        assert(cpre[j] == cvecpre[j].deep_view());
                    } else {
                        assert(copy@[j].deep_view() == prefix@[j].deep_view());
                        assert(prefix.deep_view()[j] == prefix@[j].deep_view());
                    }
                }
            }
        }
    }
    proof {
        assert(copy.deep_view() =~= prefix.deep_view());
    }
    let ghost cv = copy.deep_view();
    let ghost t0 = route_map@;
    match route_map.index_of(route) {
        Some(ri) => {
            let per_seed = route_map.val_at_mut(ri);
            let ghost p0 = per_seed@;
            proof {
                assert(crate::table::distinct_keys(t0[ri as int].1));
                assert(p0 == t0[ri as int].1);
            }
            match per_seed.index_of(seed) {
                Some(si) => {
                    let lst = per_seed.val_at_mut(si);
                    let ghost l0 = lst.deep_view();
                    lst.push(copy);
                    proof {
                        assert(lst.deep_view() =~= l0.push(cv));
                        assert(per_seed@ =~= p0.update(si as int, (p0[si as int].0, l0.push(cv))));
                    }
                }
                None => {
                    let mut lst: Vec<Vec<TraceStep>> = Vec::new();
                    lst.push(copy);
                    proof {
                        assert(lst.deep_view() =~= seq![cv]);
                    }
                    per_seed.push_new(seed.clone(), lst);
                    proof {
                        assert(per_seed@ =~= p0.push((seed@, seq![cv])));
                    }
                }
            }
            proof {
                assert forall|i: int|
                    0 <= i < route_map@.len() implies crate::table::distinct_keys(
                    (#[trigger] route_map@[i]).1,
                ) by {
                    if i != ri {
                        assert(route_map@[i] == t0[i]);
                    }
                }
                assert(route_map@ =~= rm_add(t0, route@, seed@, cv));
            }
        }
        None => {
            let mut lst: Vec<Vec<TraceStep>> = Vec::new();
            lst.push(copy);
            proof {
                assert(lst.deep_view() =~= seq![cv]);
            }
            let mut per_seed: StrTable<Vec<Vec<TraceStep>>> = StrTable::new();
            per_seed.push_new(seed.clone(), lst);
            let ghost psv = per_seed@;
            proof {
                assert(psv =~= seq![(seed@, seq![cv])]);
            }
            route_map.push_new(route.clone(), per_seed);
            proof {
                assert forall|i: int|
                    0 <= i < route_map@.len() implies crate::table::distinct_keys(
                    (#[trigger] route_map@[i]).1,
                ) by {
                    if i < t0.len() {
                        assert(route_map@[i] == t0[i]);
                    } else {
                        assert(route_map@[i].1 == psv);
                    }
                }
                assert(route_map@ =~= rm_add(t0, route@, seed@, cv));
            }
        }
    }
}

} // verus!
