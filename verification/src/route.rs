//! The route extractor: route paths and the top-level symbols each route
//! renders, taken from the anonymous default-exported object of a
//! `routes.js` module.

use vstd::prelude::*;

use crate::anonymous_default_export_spec;
use crate::i18n::add_key;
use crate::table::seq_contains_key;
use crate::table::seq_get;
use crate::table::seq_set;
use crate::table::StrTable;
use crate::types::ModuleExportV;
use crate::types::SymbolDependency;
use crate::types::SymbolDependencyV;

verus! {

/// The `path:` value of one route entry.
pub enum RoutePathValue {
    /// A string literal: the route path.
    StrLit(String),
    /// A literal of another kind, a non-literal value, or no `path:`
    /// property at all: the entry is skipped.
    Unusable,
}

/// One property of the default-exported routes object: its `path:` value
/// and every identifier that occurs inside the entry.
pub struct RouteEntry {
    pub path_value: RoutePathValue,
    pub idents: Vec<String>,
}

/// What the route pass reads of one module: the entries of the
/// default-exported object literal, when the default export is one.
pub struct RoutesModule {
    pub route_object: Option<Vec<RouteEntry>>,
}

/// One route: its path and the top-level symbols it depends on.
pub struct Route {
    pub path: String,
    pub depend_on: Vec<String>,
}

pub ghost struct RouteV {
    pub path: Seq<char>,
    pub depend_on: Seq<Seq<char>>,
}

impl DeepView for Route {
    type V = RouteV;

    open spec fn deep_view(&self) -> RouteV {
        RouteV { path: self.path@, depend_on: self.depend_on.deep_view() }
    }
}

/// Whether `s` ends with `suf`.
pub open spec fn ends_with_spec(s: Seq<char>, suf: Seq<char>) -> bool {
    s.len() >= suf.len() && s.subrange(s.len() - suf.len(), s.len() as int) == suf
}

/// A module takes part in route extraction when its path ends in
/// `/routes.js`, its default export is the anonymous local, and that local
/// depends on at least one symbol.
pub open spec fn should_collect_spec(sd: SymbolDependencyV) -> bool {
    &&& ends_with_spec(sd.canonical_path, "/routes.js"@)
    &&& sd.default_export == Some(ModuleExportV::Local(anonymous_default_export_spec()))
    &&& seq_contains_key(sd.local_variable_table, anonymous_default_export_spec())
    &&& seq_get(sd.local_variable_table, anonymous_default_export_spec()).depend_on is Some
}

/// The identifiers of one entry filtered to the tracked symbols, in order,
/// deduplicated.
pub open spec fn filter_idents(ids: Seq<String>, to_track: Seq<Seq<char>>, n: int) -> Seq<
    Seq<char>,
>
    decreases n,
{
    if n <= 0 || n > ids.len() {
        Seq::empty()
    } else {
        let a = filter_idents(ids, to_track, n - 1);
        if to_track.contains(ids[n - 1]@) {
            add_key(a, ids[n - 1]@)
        } else {
            a
        }
    }
}

/// The route of one entry, if its `path:` value is a string literal.
pub open spec fn route_of(ent: RouteEntry, to_track: Seq<Seq<char>>) -> Option<RouteV> {
    match ent.path_value {
        RoutePathValue::StrLit(p) => Some(
            RouteV {
                path: p@,
                depend_on: filter_idents(ent.idents@, to_track, ent.idents@.len() as int),
            },
        ),
        RoutePathValue::Unusable => None,
    }
}

/// The routes of all entries, in order; unusable entries are skipped.
pub open spec fn routes_fold(entries: Seq<RouteEntry>, n: int, to_track: Seq<Seq<char>>) -> Seq<
    RouteV,
>
    decreases n,
{
    if n <= 0 || n > entries.len() {
        Seq::empty()
    } else {
        let rs = routes_fold(entries, n - 1, to_track);
        match route_of(entries[n - 1], to_track) {
            Some(r) => rs.push(r),
            None => rs,
        }
    }
}

/// Whether `s` ends with `suf`, executably.
pub fn ends_with_exec(s: &String, suf: &str) -> (r: bool)
    ensures
        r == ends_with_spec(s@, suf@),
{
    let ss = s.as_str();
    let n = ss.unicode_len();
    let m = suf.unicode_len();
    if n < m {
        return false;
    }
    let tail = ss.substring_char(n - m, n);
    let t2 = tail.to_owned();
    let s2 = suf.to_owned();
    if t2 == s2 {
        proof {
            assert(s@.subrange(s@.len() - suf@.len(), s@.len() as int) == suf@);
        }
        true
    } else {
        proof {
            assert(s@.subrange(s@.len() - suf@.len(), s@.len() as int) != suf@);
        }
        false
    }
}

/// Whether the module takes part in route extraction.
pub fn should_collect(sd: &SymbolDependency) -> (r: bool)
    requires
        sd.wf(),
    ensures
        r == should_collect_spec(sd.deep_view()),
{
    proof {
        reveal_strlit("/routes.js");
    }
    if !ends_with_exec(&sd.canonical_path, "/routes.js") {
        return false;
    }
    let anon = crate::anonymous_default_export_name();
    let is_anon_default = match &sd.default_export {
        Some(crate::types::ModuleExport::Local(x)) => *x == anon,
        _ => false,
    };
    if !is_anon_default {
        return false;
    }
    match sd.local_variable_table.get(&anon) {
        Some(v) => match &v.depend_on {
            Some(_) => true,
            None => false,
        },
        None => false,
    }
}

/// The routes of one module: each usable entry's path, with the entry's
/// identifiers filtered to the symbols the default export depends on.
/// A module that does not take part yields no routes.
pub fn collect_route_dependency(m: &RoutesModule, sd: &SymbolDependency) -> (r: Vec<Route>)
    requires
        sd.wf(),
    ensures
        r.deep_view() == ({
            if should_collect_spec(sd.deep_view()) && m.route_object is Some {
                routes_fold(
                    m.route_object.unwrap()@,
                    m.route_object.unwrap()@.len() as int,
                    seq_get(
                        sd.deep_view().local_variable_table,
                        anonymous_default_export_spec(),
                    ).depend_on.unwrap(),
                )
            } else {
                Seq::<RouteV>::empty()
            }
        }),
{
    let empty: Vec<Route> = Vec::new();
    proof {
        assert(empty.deep_view() =~= Seq::<RouteV>::empty());
    }
    if !should_collect(sd) {
        return empty;
    }
    let entries = match &m.route_object {
        Some(entries) => entries,
        None => {
            return empty;
        }
    };
    let anon = crate::anonymous_default_export_name();
    let to_track = match sd.local_variable_table.get(&anon) {
        Some(v) => match &v.depend_on {
            Some(d) => d,
            None => {
                return empty;
            }
        },
        None => {
            return empty;
        }
    };
    let ghost tt = seq_get(
        sd.deep_view().local_variable_table,
        anonymous_default_export_spec(),
    ).depend_on.unwrap();
    proof {
        assert(to_track.deep_view() == tt);
    }
    let mut routes: Vec<Route> = Vec::new();
    let n = entries.len();
    proof {
        assert(routes.deep_view() =~= routes_fold(entries@, 0, tt));
    }
    for i in 0..n
        invariant
            n == entries@.len(),
            tt == to_track.deep_view(),
            routes.deep_view() == routes_fold(entries@, i as int, tt),
    {
        let ent = &entries[i];
        match &ent.path_value {
            RoutePathValue::Unusable => {}
            RoutePathValue::StrLit(p) => {
                let mut dep: Vec<String> = Vec::new();
                let kn = ent.idents.len();
                proof {
                    assert(dep.deep_view() =~= filter_idents(ent.idents@, tt, 0));
                }
                for k in 0..kn
                    invariant
                        i < n,
                        n == entries@.len(),
                        *ent == entries@[i as int],
                        kn == ent.idents@.len(),
                        tt == to_track.deep_view(),
                        dep.deep_view() == filter_idents(ent.idents@, tt, k as int),
                {
                    let id = &ent.idents[k];
                    if contains_string(to_track, id) {
                        crate::i18n::add_key_exec(&mut dep, id.clone());
                    }
                }
                let ghost rpre = routes.deep_view();
                let ghost rvecpre = routes@;
                let rt = Route { path: p.clone(), depend_on: dep };
                let ghost rv = rt.deep_view();
                routes.push(rt);
                proof {
                    assert(routes.deep_view() =~= rpre.push(rv)) by {
                        assert forall|j: int|
                            0 <= j < routes.deep_view().len() implies routes.deep_view()[j]
                            == rpre.push(rv)[j] by {
                            assert(routes.deep_view()[j] == routes@[j].deep_view());
                            if j < rpre.len() {
                                assert(routes@[j] == rvecpre[j]);
                            }
                        }
                    }
                    assert(rv == route_of(entries@[i as int], tt).unwrap());
                }
            }
        }
    }
    routes
}

/// Whether `v` holds the string `x`.
fn contains_string(v: &Vec<String>, x: &String) -> (r: bool)
    ensures
        r == v.deep_view().contains(x@),
{
    let n = v.len();
    for i in 0..n
        invariant
            n == v@.len(),
            forall|j: int| 0 <= j < i ==> v.deep_view()[j] != x@,
    {
        proof {
            assert(v.deep_view()[i as int] == v@[i as int]@);
        }
        if v[i] == *x {
            proof {
                assert(v.deep_view().contains(x@));
            }
            return true;
        }
    }
    proof {
        if v.deep_view().contains(x@) {
            let j = choose|j: int| 0 <= j < v.deep_view().len() && v.deep_view()[j] == x@;
        }
    }
    false
}

/// One route's symbols written into a per-module symbol-to-routes map.
pub open spec fn agg_syms(
    map: crate::i18n::UsageV,
    syms: Seq<Seq<char>>,
    n: int,
    path: Seq<char>,
) -> crate::i18n::UsageV
    decreases n,
{
    if n <= 0 || n > syms.len() {
        map
    } else {
        let m1 = agg_syms(map, syms, n - 1, path);
        let cur = if seq_contains_key(m1, syms[n - 1]) {
            seq_get(m1, syms[n - 1])
        } else {
            Seq::empty()
        };
        seq_set(m1, syms[n - 1], cur.push(path))
    }
}

/// All routes of one module aggregated: symbol to route paths, in append
/// order.
pub open spec fn agg_fold(map: crate::i18n::UsageV, routes: Seq<RouteV>, n: int) -> crate::i18n::UsageV
    decreases n,
{
    if n <= 0 || n > routes.len() {
        map
    } else {
        let m1 = agg_fold(map, routes, n - 1);
        agg_syms(m1, routes[n - 1].depend_on, routes[n - 1].depend_on.len() as int, routes[n - 1].path)
    }
}

/// The symbol-to-routes index: per module, each symbol with the route paths
/// it backs.
pub struct SymbolToRoutes {
    pub table: StrTable<StrTable<Vec<String>>>,
}

impl SymbolToRoutes {
    pub open spec fn wf(&self) -> bool {
        self.table.wf() && forall|i: int|
            0 <= i < self.table@.len() ==> crate::table::distinct_keys(
                (#[trigger] self.table@[i]).1,
            )
    }

    pub fn new() -> (r: Self)
        ensures
            r.table@ =~= Seq::<(Seq<char>, crate::i18n::UsageV)>::empty(),
            r.wf(),
    {
        SymbolToRoutes { table: StrTable::new() }
    }

    /// Collect one module's routes and store its aggregated map; a module
    /// that does not take part stores nothing.
    pub fn collect_route_dependency(&mut self, m: &RoutesModule, sd: &SymbolDependency)
        requires
            old(self).wf(),
            sd.wf(),
        ensures
            final(self).wf(),
            ({
                let rs = if should_collect_spec(sd.deep_view()) && m.route_object is Some {
                    routes_fold(
                        m.route_object.unwrap()@,
                        m.route_object.unwrap()@.len() as int,
                        seq_get(
                            sd.deep_view().local_variable_table,
                            anonymous_default_export_spec(),
                        ).depend_on.unwrap(),
                    )
                } else {
                    Seq::<RouteV>::empty()
                };
                if should_collect_spec(sd.deep_view()) && m.route_object is Some {
                    final(self).table@ =~= seq_set(
                        old(self).table@,
                        sd.deep_view().canonical_path,
                        agg_fold(Seq::empty(), rs, rs.len() as int),
                    )
                } else {
                    final(self).table@ == old(self).table@
                }
            }),
    {
        if !should_collect(sd) {
            return;
        }
        if m.route_object.is_none() {
            return;
        }
        let routes = collect_route_dependency(m, sd);
        let ghost rs = routes.deep_view();
        let mut map: StrTable<Vec<String>> = StrTable::new();
        let n = routes.len();
        proof {
            assert(map@ =~= agg_fold(Seq::empty(), rs, 0));
        }
        for i in 0..n
            invariant
                n == routes@.len(),
                rs == routes.deep_view(),
                map.wf(),
                map@ == agg_fold(Seq::empty(), rs, i as int),
        {
            let rt = &routes[i];
            let ghost mpre = map@;
            let kn = rt.depend_on.len();
            proof {
                assert(rt.deep_view() == rs[i as int]);
            }
            for k in 0..kn
                invariant
                    i < n,
                    n == routes@.len(),
                    *rt == routes@[i as int],
                    rs == routes.deep_view(),
                    kn == rt.depend_on@.len(),
                    map.wf(),
                    map@ == agg_syms(mpre, rs[i as int].depend_on, k as int, rs[i as int].path),
            {
                let sym = &rt.depend_on[k];
                proof {
                    assert(rs[i as int].depend_on[k as int] == rt.depend_on@[k as int]@);
                }
                push_route(&mut map, sym, &rt.path);
            }
        }
        let ghost t0 = self.table@;
        let ghost mapv = map@;
        proof {
            assert(crate::table::distinct_keys(mapv));
        }
        self.table.set(sd.canonical_path.clone(), map);
        proof {
            let kv = sd.deep_view().canonical_path;
            assert forall|i: int|
                0 <= i < self.table@.len() implies crate::table::distinct_keys(
                (#[trigger] self.table@[i]).1,
            ) by {
                if seq_contains_key(t0, kv) {
                    crate::table::lemma_key_index(t0, kv);
                    if i == crate::table::seq_key_index(t0, kv) {
                        assert(self.table@[i].1 == mapv);
                    } else {
                        assert(self.table@[i] == t0[i]);
                        assert(crate::table::distinct_keys(t0[i].1));
                    }
                } else {
                    if i == t0.len() {
                        assert(self.table@[i].1 == mapv);
                    } else {
                        assert(self.table@[i] == t0[i]);
                        assert(crate::table::distinct_keys(t0[i].1));
                    }
                }
            }
        }
    }
}

/// Append one route path to a symbol's list, starting it on first use.
fn push_route(map: &mut StrTable<Vec<String>>, sym: &String, path: &String)
    requires
        old(map).wf(),
    ensures
        final(map).wf(),
        final(map)@ =~= ({
            let cur = if seq_contains_key(old(map)@, sym@) {
                seq_get(old(map)@, sym@)
            } else {
                Seq::empty()
            };
            seq_set(old(map)@, sym@, cur.push(path@))
        }),
{
    match map.index_of(sym) {
        Some(i) => {
            let ghost cur = seq_get(map@, sym@);
            let v = map.val_at_mut(i);
            let ghost vpre = v@;
            v.push(path.clone());
            proof {
                assert(v.deep_view() =~= cur.push(path@)) by {
                    assert forall|j: int| 0 <= j < v.deep_view().len() implies v.deep_view()[j]
                        == cur.push(path@)[j] by {
                        assert(v.deep_view()[j] == v@[j]@);
                        if j < cur.len() {
                            assert(v@[j] == vpre[j]);
                        }
                    }
                }
            }
        }
        None => {
            let mut v: Vec<String> = Vec::new();
            v.push(path.clone());
            proof {
                assert(v.deep_view() =~= Seq::<Seq<char>>::empty().push(path@)) by {
                    assert(v.deep_view()[0] == v@[0]@);
                }
            }
            map.push_new(sym.clone(), v);
        }
    }
}

} // verus!
