//! The depend-on graph: extracted modules, accepted in scheduler order,
//! with import paths canonicalized and `export * from` expanded eagerly.

use vstd::prelude::*;

use crate::anonymous_default_export_spec;
use crate::path_resolver::PathResolver;
use crate::table::distinct_keys;
use crate::table::seq_contains_key;
use crate::table::seq_get;
use crate::table::StrTable;
use crate::types::AnalysisError;
use crate::types::FromOtherModule;
use crate::types::FromOtherModuleV;
use crate::types::FromType;
use crate::types::FromTypeV;
use crate::types::ModuleExport;
use crate::types::ModuleExportV;
use crate::types::ModuleScopedVariableV;
use crate::types::SymbolDependency;
use crate::types::SymbolDependencyV;

verus! {

/// The resolved form of an import source, or the source unchanged when
/// resolution fails (the path then dangles and is ignored downstream).
pub open spec fn resolve_or_keep(r: PathResolver, cur: Seq<char>, from: Seq<char>) -> Seq<char> {
    match r.resolve_spec(cur, from) {
        Ok(p) => p,
        Err(_) => from,
    }
}

pub open spec fn canon_from(r: PathResolver, cur: Seq<char>, f: FromOtherModuleV) -> FromOtherModuleV {
    FromOtherModuleV { from: resolve_or_keep(r, cur, f.from), from_type: f.from_type }
}

pub open spec fn canon_msv(r: PathResolver, cur: Seq<char>, v: ModuleScopedVariableV) -> ModuleScopedVariableV {
    ModuleScopedVariableV {
        depend_on: v.depend_on,
        import_from: match v.import_from {
            Some(f) => Some(canon_from(r, cur, f)),
            None => None,
        },
    }
}

pub open spec fn canon_me(r: PathResolver, cur: Seq<char>, e: ModuleExportV) -> ModuleExportV {
    match e {
        ModuleExportV::Local(x) => ModuleExportV::Local(x),
        ModuleExportV::ReExportFrom(f) => ModuleExportV::ReExportFrom(canon_from(r, cur, f)),
    }
}

/// Every import source of the module resolved where possible.
pub open spec fn canon_sd(r: PathResolver, sd: SymbolDependencyV) -> SymbolDependencyV {
    SymbolDependencyV {
        canonical_path: sd.canonical_path,
        local_variable_table: sd.local_variable_table.map_values(
            |p: (Seq<char>, ModuleScopedVariableV)| (p.0, canon_msv(r, sd.canonical_path, p.1)),
        ),
        named_export_table: sd.named_export_table.map_values(
            |p: (Seq<char>, ModuleExportV)| (p.0, canon_me(r, sd.canonical_path, p.1)),
        ),
        default_export: match sd.default_export {
            Some(e) => Some(canon_me(r, sd.canonical_path, e)),
            None => None,
        },
        re_export_star_from: sd.re_export_star_from,
    }
}

/// Inject the named exports of one wildcard source into the table.
pub open spec fn expand_keys(
    named: Seq<(Seq<char>, ModuleExportV)>,
    resolved: Seq<char>,
    keys: Seq<(Seq<char>, ModuleExportV)>,
    n: int,
) -> Result<Seq<(Seq<char>, ModuleExportV)>, AnalysisError>
    decreases n,
{
    if n <= 0 {
        Ok(named)
    } else {
        match expand_keys(named, resolved, keys, n - 1) {
            Err(e) => Err(e),
            Ok(acc) => {
                let k = keys[n - 1].0;
                if k == anonymous_default_export_spec() {
                    Ok(acc)
                } else if seq_contains_key(acc, k) {
                    Err(AnalysisError::WildcardExportConflict)
                } else {
                    Ok(
                        acc.push(
                            (
                                k,
                                ModuleExportV::ReExportFrom(
                                    FromOtherModuleV {
                                        from: resolved,
                                        from_type: FromTypeV::Named(k),
                                    },
                                ),
                            ),
                        ),
                    )
                }
            }
        }
    }
}

/// Expand `export * from` over all recorded sources, in order. The wildcard
/// sources must resolve and must already be in the table.
pub open spec fn expand_stars(
    r: PathResolver,
    table: Seq<(Seq<char>, SymbolDependencyV)>,
    cur: Seq<char>,
    named: Seq<(Seq<char>, ModuleExportV)>,
    stars: Seq<Seq<char>>,
    n: int,
) -> Result<Seq<(Seq<char>, ModuleExportV)>, AnalysisError>
    decreases n,
{
    if n <= 0 {
        Ok(named)
    } else {
        match expand_stars(r, table, cur, named, stars, n - 1) {
            Err(e) => Err(e),
            Ok(acc) => match r.resolve_spec(cur, stars[n - 1]) {
                Err(e) => Err(e),
                Ok(resolved) => if !seq_contains_key(table, resolved) {
                    Err(AnalysisError::UnresolvedImport)
                } else {
                    let imported = seq_get(table, resolved);
                    expand_keys(
                        acc,
                        resolved,
                        imported.named_export_table,
                        imported.named_export_table.len() as int,
                    )
                },
            },
        }
    }
}

/// A whole module processed for insertion: canonicalized, wildcard exports
/// expanded, the wildcard list consumed.
pub open spec fn process_sd(
    r: PathResolver,
    table: Seq<(Seq<char>, SymbolDependencyV)>,
    sd: SymbolDependencyV,
) -> Result<SymbolDependencyV, AnalysisError> {
    let c = canon_sd(r, sd);
    match c.re_export_star_from {
        None => Ok(c),
        Some(stars) => match expand_stars(
            r,
            table,
            c.canonical_path,
            c.named_export_table,
            stars,
            stars.len() as int,
        ) {
            Err(e) => Err(e),
            Ok(named) => Ok(
                SymbolDependencyV {
                    canonical_path: c.canonical_path,
                    local_variable_table: c.local_variable_table,
                    named_export_table: named,
                    default_export: c.default_export,
                    re_export_star_from: None,
                },
            ),
        },
    }
}

/// What `add_symbol_dependency` does to the stored table.
pub open spec fn add_sd_spec(
    r: PathResolver,
    table: Seq<(Seq<char>, SymbolDependencyV)>,
    sd: SymbolDependencyV,
) -> Result<Seq<(Seq<char>, SymbolDependencyV)>, AnalysisError> {
    if seq_contains_key(table, sd.canonical_path) {
        Err(AnalysisError::DuplicateModule)
    } else {
        match process_sd(r, table, sd) {
            Err(e) => Err(e),
            Ok(p) => Ok(table.push((sd.canonical_path, p))),
        }
    }
}

/// The accumulated modules, keyed by canonical path, in insertion order.
pub struct DependOnGraph {
    pub table: StrTable<SymbolDependency>,
    pub path_resolver: PathResolver,
}

impl DependOnGraph {
    pub open spec fn resolver_spec(&self) -> PathResolver {
        self.path_resolver
    }

    pub open spec fn wf(&self) -> bool {
        self.table.wf() && forall|i: int|
            0 <= i < self.table@.len() ==> distinct_keys(
                (#[trigger] self.table@[i]).1.local_variable_table,
            ) && distinct_keys(self.table@[i].1.named_export_table)
    }

    pub fn new(base_url: String, files: Vec<String>) -> (r: Self)
        ensures
            r.table@ =~= Seq::<(Seq<char>, SymbolDependencyV)>::empty(),
            r.resolver_spec().base_spec() == base_url@,
            r.resolver_spec().files_spec() == files.deep_view(),
            r.wf(),
    {
        DependOnGraph { table: StrTable::new(), path_resolver: PathResolver::new(base_url, files) }
    }

    /// Canonicalize, expand wildcard re-exports, and store one module.
    /// Fails on a module added twice, an unresolvable or missing wildcard
    /// source, and a wildcard conflict, exactly as `add_sd_spec` says.
    pub fn add_symbol_dependency(&mut self, symbol_dependency: SymbolDependency) -> (r: Result<
        (),
        AnalysisError,
    >)
        requires
            old(self).wf(),
            symbol_dependency.wf(),
        ensures
            final(self).wf(),
            final(self).resolver_spec() == old(self).resolver_spec(),
            match r {
                Ok(_) => add_sd_spec(
                    old(self).resolver_spec(),
                    old(self).table@,
                    symbol_dependency.deep_view(),
                ) == Ok::<Seq<(Seq<char>, SymbolDependencyV)>, AnalysisError>(final(self).table@),
                Err(e) => add_sd_spec(
                    old(self).resolver_spec(),
                    old(self).table@,
                    symbol_dependency.deep_view(),
                ) == Err::<Seq<(Seq<char>, SymbolDependencyV)>, AnalysisError>(e) && final(self).table@
                    == old(self).table@,
            },
    {
        let mut sd = symbol_dependency;
        let ghost sdv = sd.deep_view();
        if self.table.contains_key(&sd.canonical_path) {
            return Err(AnalysisError::DuplicateModule);
        }
        canonicalize_import_paths(&self.path_resolver, &mut sd);
        proof {
            assert(sd.deep_view() == canon_sd(self.path_resolver, sdv));
        }
        match handle_re_export_star_from(&self.path_resolver, &self.table, &mut sd) {
            Ok(_) => {}
            Err(e) => {
                return Err(e);
            }
        }
        proof {
            assert(Ok::<SymbolDependencyV, AnalysisError>(sd.deep_view()) == process_sd(
                self.path_resolver,
                self.table@,
                sdv,
            ));
        }
        let key = sd.canonical_path.clone();
        let ghost sdfinal = sd.deep_view();
        let ghost lwf = sd.local_variable_table.wf();
        let ghost nwf = sd.named_export_table.wf();
        proof {
            assert(lwf && nwf);
        }
        self.table.push_new(key, sd);
        proof {
            assert forall|i: int| 0 <= i < self.table@.len() implies distinct_keys(
                (#[trigger] self.table@[i]).1.local_variable_table,
            ) && distinct_keys(self.table@[i].1.named_export_table) by {
                if i < old(self).table@.len() {
                    assert(self.table@[i] == old(self).table@[i]);
                } else {
                    assert(self.table@[i].1 == sdfinal);
                }
            }
        }
        Ok(())
    }
}

/// Resolve one import source in place, keeping it on failure.
fn resolve_in_place(resolver: &PathResolver, cur: &String, f: &mut FromOtherModule)
    ensures
        final(f).deep_view() == canon_from(*resolver, cur@, old(f).deep_view()),
{
    match resolver.resolve_path(cur, &f.from) {
        Ok(p) => {
            f.from = p;
        }
        Err(_) => {}
    }
}

/// Canonicalize every import source of the module.
fn canonicalize_import_paths(resolver: &PathResolver, sd: &mut SymbolDependency)
    requires
        old(sd).wf(),
    ensures
        final(sd).wf(),
        final(sd).deep_view() == canon_sd(*resolver, old(sd).deep_view()),
{
    let ghost sd0 = sd.deep_view();
    let cur = sd.canonical_path.clone();
    let n = sd.local_variable_table.len();
    for i in 0..n
        invariant
            n == sd.local_variable_table@.len(),
            sd.local_variable_table.wf(),
            sd.named_export_table.wf(),
            cur@ == sd0.canonical_path,
            sd.canonical_path@ == sd0.canonical_path,
            sd.named_export_table@ == sd0.named_export_table,
            sd.default_export == old(sd).default_export,
            sd.re_export_star_from == old(sd).re_export_star_from,
            sd0 == old(sd).deep_view(),
            forall|j: int|
                i <= j < n ==> sd.local_variable_table@[j] == sd0.local_variable_table[j],
            forall|j: int|
                0 <= j < i ==> sd.local_variable_table@[j] == (
                    sd0.local_variable_table[j].0,
                    canon_msv(*resolver, sd0.canonical_path, sd0.local_variable_table[j].1),
                ),
    {
        let v = sd.local_variable_table.val_at_mut(i);
        match &mut v.import_from {
            Some(f) => {
                resolve_in_place(resolver, &cur, f);
            }
            None => {}
        }
    }
    let m = sd.named_export_table.len();
    for i in 0..m
        invariant
            m == sd.named_export_table@.len(),
            sd.local_variable_table.wf(),
            sd.named_export_table.wf(),
            cur@ == sd0.canonical_path,
            sd.canonical_path@ == sd0.canonical_path,
            sd.default_export == old(sd).default_export,
            sd.re_export_star_from == old(sd).re_export_star_from,
            sd0 == old(sd).deep_view(),
            sd.local_variable_table@ == sd0.local_variable_table.map_values(
                |p: (Seq<char>, ModuleScopedVariableV)| (
                    p.0,
                    canon_msv(*resolver, sd0.canonical_path, p.1),
                ),
            ),
            forall|j: int| i <= j < m ==> sd.named_export_table@[j] == sd0.named_export_table[j],
            forall|j: int|
                0 <= j < i ==> sd.named_export_table@[j] == (
                    sd0.named_export_table[j].0,
                    canon_me(*resolver, sd0.canonical_path, sd0.named_export_table[j].1),
                ),
    {
        let v = sd.named_export_table.val_at_mut(i);
        match v {
            ModuleExport::Local(_) => {}
            ModuleExport::ReExportFrom(f) => {
                resolve_in_place(resolver, &cur, f);
            }
        }
    }
    match &mut sd.default_export {
        Some(e) => match e {
            ModuleExport::Local(_) => {}
            ModuleExport::ReExportFrom(f) => {
                resolve_in_place(resolver, &cur, f);
            }
        },
        None => {}
    }
    proof {
        assert(sd.local_variable_table@ =~= sd0.local_variable_table.map_values(
            |p: (Seq<char>, ModuleScopedVariableV)| (
                p.0,
                canon_msv(*resolver, sd0.canonical_path, p.1),
            ),
        ));
        assert(sd.named_export_table@ =~= sd0.named_export_table.map_values(
            |p: (Seq<char>, ModuleExportV)| (p.0, canon_me(*resolver, sd0.canonical_path, p.1)),
        ));
    }
}

/// Expand the wildcard re-exports of `sd` against the already-stored
/// modules, and consume the wildcard list.
fn handle_re_export_star_from(
    resolver: &PathResolver,
    table: &StrTable<SymbolDependency>,
    sd: &mut SymbolDependency,
) -> (r: Result<(), AnalysisError>)
    requires
        old(sd).wf(),
        table.wf(),
    ensures
        final(sd).wf(),
        match r {
            Ok(_) => ({
                &&& final(sd).canonical_path@ == old(sd).canonical_path@
                &&& final(sd).deep_view().local_variable_table == old(
                    sd,
                ).deep_view().local_variable_table
                &&& final(sd).deep_view().default_export == old(sd).deep_view().default_export
                &&& final(sd).deep_view().re_export_star_from is None
                &&& match old(sd).deep_view().re_export_star_from {
                    None => final(sd).deep_view().named_export_table == old(
                        sd,
                    ).deep_view().named_export_table,
                    Some(stars) => Ok::<Seq<(Seq<char>, ModuleExportV)>, AnalysisError>(
                        final(sd).deep_view().named_export_table,
                    ) == expand_stars(
                        *resolver,
                        table@,
                        old(sd).canonical_path@,
                        old(sd).deep_view().named_export_table,
                        stars,
                        stars.len() as int,
                    ),
                }
            }),
            Err(e) => match old(sd).deep_view().re_export_star_from {
                None => false,
                Some(stars) => expand_stars(
                    *resolver,
                    table@,
                    old(sd).canonical_path@,
                    old(sd).deep_view().named_export_table,
                    stars,
                    stars.len() as int,
                ) == Err::<Seq<(Seq<char>, ModuleExportV)>, AnalysisError>(e),
            },
        },
{
    let stars = match sd.re_export_star_from.take() {
        None => {
            return Ok(());
        }
        Some(stars) => stars,
    };
    let ghost starsv = stars.deep_view();
    let ghost named0 = sd.named_export_table@;
    let ghost cur0 = sd.canonical_path@;
    proof {
        assert(old(sd).deep_view().re_export_star_from == Some(starsv));
        assert(named0 == old(sd).deep_view().named_export_table);
        assert(cur0 == old(sd).canonical_path@);
    }
    let cur = sd.canonical_path.clone();
    let n = stars.len();
    for s in 0..n
        invariant
            n == stars@.len(),
            starsv == stars.deep_view(),
            old(sd).deep_view().re_export_star_from == Some(starsv),
            named0 == old(sd).deep_view().named_export_table,
            cur0 == old(sd).canonical_path@,
            cur@ == cur0,
            sd.canonical_path@ == cur0,
            sd.local_variable_table@ == old(sd).deep_view().local_variable_table,
            sd.local_variable_table.wf(),
            sd.named_export_table.wf(),
            sd.default_export == old(sd).default_export,
            sd.re_export_star_from is None,
            table.wf(),
            expand_stars(*resolver, table@, cur0, named0, starsv, s as int) == Ok::<
                Seq<(Seq<char>, ModuleExportV)>,
                AnalysisError,
            >(sd.named_export_table@),
    {
        let ghost named_pre = sd.named_export_table@;
        let resolved = match resolver.resolve_path(&cur, &stars[s]) {
            Ok(p) => p,
            Err(e) => {
                proof {
                    assert(stars.deep_view()[s as int] == stars@[s as int]@);
                    assert(expand_stars(*resolver, table@, cur0, named0, starsv, s + 1) == Err::<
                        Seq<(Seq<char>, ModuleExportV)>,
                        AnalysisError,
                    >(e));
                    lemma_expand_stars_error(
                        *resolver,
                        table@,
                        cur0,
                        named0,
                        starsv,
                        s + 1,
                        starsv.len() as int,
                        e,
                    );
                }
                return Err(e);
            }
        };
        proof {
            assert(stars.deep_view()[s as int] == stars@[s as int]@);
        }
        let imported = match table.get(&resolved) {
            Some(imp) => imp,
            None => {
                proof {
                    assert(expand_stars(*resolver, table@, cur0, named0, starsv, s + 1) == Err::<
                        Seq<(Seq<char>, ModuleExportV)>,
                        AnalysisError,
                    >(AnalysisError::UnresolvedImport));
                    lemma_expand_stars_error(
                        *resolver,
                        table@,
                        cur0,
                        named0,
                        starsv,
                        s + 1,
                        starsv.len() as int,
                        AnalysisError::UnresolvedImport,
                    );
                }
                return Err(AnalysisError::UnresolvedImport);
            }
        };
        let ghost importedv = seq_get(table@, resolved@);
        let anon = crate::anonymous_default_export_name();
        let m = imported.named_export_table.len();
        proof {
            assert(imported.deep_view() == importedv);
        }
        let ghost rs = resolver.resolve_spec(cur0, starsv[s as int]);
        for k in 0..m
            invariant
                s < n,
                n == stars@.len(),
                starsv == stars.deep_view(),
                old(sd).deep_view().re_export_star_from == Some(starsv),
                named0 == old(sd).deep_view().named_export_table,
                cur0 == old(sd).canonical_path@,
                m == imported.named_export_table@.len(),
                imported.deep_view() == importedv,
                importedv == seq_get(table@, resolved@),
                seq_contains_key(table@, resolved@),
                imported.named_export_table@ == importedv.named_export_table,
                anon@ == anonymous_default_export_spec(),
                rs == resolver.resolve_spec(cur0, starsv[s as int]),
                rs == Ok::<Seq<char>, AnalysisError>(resolved@),
                table.wf(),
                cur@ == cur0,
                sd.canonical_path@ == cur0,
                sd.local_variable_table@ == old(sd).deep_view().local_variable_table,
                sd.local_variable_table.wf(),
                sd.default_export == old(sd).default_export,
                sd.re_export_star_from is None,
                sd.named_export_table.wf(),
                expand_stars(*resolver, table@, cur0, named0, starsv, s as int) == Ok::<
                    Seq<(Seq<char>, ModuleExportV)>,
                    AnalysisError,
                >(named_pre),
                expand_keys(named_pre, resolved@, importedv.named_export_table, k as int) == Ok::<
                    Seq<(Seq<char>, ModuleExportV)>,
                    AnalysisError,
                >(sd.named_export_table@),
        {
            let key = imported.named_export_table.key_at(k);
            if !(*key == anon) {
                if sd.named_export_table.contains_key(key) {
                    proof {
                        assert(expand_keys(
                            named_pre,
                            resolved@,
                            importedv.named_export_table,
                            k + 1,
                        ) == Err::<Seq<(Seq<char>, ModuleExportV)>, AnalysisError>(
                            AnalysisError::WildcardExportConflict,
                        ));
                        lemma_expand_keys_error(
                            named_pre,
                            resolved@,
                            importedv.named_export_table,
                            k + 1,
                            importedv.named_export_table.len() as int,
                            AnalysisError::WildcardExportConflict,
                        );
                        assert(expand_stars(
                            *resolver,
                            table@,
                            cur0,
                            named0,
                            starsv,
                            s + 1,
                        ) == Err::<Seq<(Seq<char>, ModuleExportV)>, AnalysisError>(
                            AnalysisError::WildcardExportConflict,
                        ));
                        lemma_expand_stars_error(
                            *resolver,
                            table@,
                            cur0,
                            named0,
                            starsv,
                            s + 1,
                            starsv.len() as int,
                            AnalysisError::WildcardExportConflict,
                        );
                    }
                    return Err(AnalysisError::WildcardExportConflict);
                }
                let me = ModuleExport::ReExportFrom(
                    FromOtherModule {
                        from: resolved.clone(),
                        from_type: FromType::Named(key.clone()),
                    },
                );
                sd.named_export_table.push_new(key.clone(), me);
            }
        }
        proof {
            assert(expand_stars(*resolver, table@, cur0, named0, starsv, s + 1) == expand_keys(
                named_pre,
                resolved@,
                importedv.named_export_table,
                importedv.named_export_table.len() as int,
            ));
        }
    }
    Ok(())
}

proof fn lemma_expand_keys_error(
    named: Seq<(Seq<char>, ModuleExportV)>,
    resolved: Seq<char>,
    keys: Seq<(Seq<char>, ModuleExportV)>,
    n: int,
    m: int,
    e: AnalysisError,
)
    requires
        0 <= n <= m,
        expand_keys(named, resolved, keys, n) == Err::<
            Seq<(Seq<char>, ModuleExportV)>,
            AnalysisError,
        >(e),
    ensures
        expand_keys(named, resolved, keys, m) == Err::<
            Seq<(Seq<char>, ModuleExportV)>,
            AnalysisError,
        >(e),
    decreases m - n,
{
    if m > n {
        lemma_expand_keys_error(named, resolved, keys, n, m - 1, e);
    }
}

proof fn lemma_expand_stars_error(
    r: PathResolver,
    table: Seq<(Seq<char>, SymbolDependencyV)>,
    cur: Seq<char>,
    named: Seq<(Seq<char>, ModuleExportV)>,
    stars: Seq<Seq<char>>,
    n: int,
    m: int,
    e: AnalysisError,
)
    requires
        0 <= n <= m,
        expand_stars(r, table, cur, named, stars, n) == Err::<
            Seq<(Seq<char>, ModuleExportV)>,
            AnalysisError,
        >(e),
    ensures
        expand_stars(r, table, cur, named, stars, m) == Err::<
            Seq<(Seq<char>, ModuleExportV)>,
            AnalysisError,
        >(e),
    decreases m - n,
{
    if m > n {
        lemma_expand_stars_error(r, table, cur, named, stars, n, m - 1, e);
    }
}

} // verus!

verus! {

proof fn lemma_expand_keys_shape(
    named: Seq<(Seq<char>, ModuleExportV)>,
    resolved: Seq<char>,
    keys: Seq<(Seq<char>, ModuleExportV)>,
    n: int,
    res: Seq<(Seq<char>, ModuleExportV)>,
)
    requires
        expand_keys(named, resolved, keys, n) == Ok::<
            Seq<(Seq<char>, ModuleExportV)>,
            AnalysisError,
        >(res),
    ensures
        res.len() >= named.len(),
        forall|i: int| 0 <= i < named.len() ==> res[i] == named[i],
        forall|i: int|
            named.len() <= i < res.len() ==> (#[trigger] res[i]).1 == ModuleExportV::ReExportFrom(
                FromOtherModuleV { from: resolved, from_type: FromTypeV::Named(res[i].0) },
            ),
    decreases n,
{
    if n > 0 {
        let prev = expand_keys(named, resolved, keys, n - 1);
        assert(prev is Ok);
        let acc = prev.unwrap();
        lemma_expand_keys_shape(named, resolved, keys, n - 1, acc);
        assert forall|i: int|
            named.len() <= i < res.len() implies (#[trigger] res[i]).1
            == ModuleExportV::ReExportFrom(
            FromOtherModuleV { from: resolved, from_type: FromTypeV::Named(res[i].0) },
        ) by {
            if i < acc.len() {
                assert(res[i] == acc[i]);
            }
        }
    }
}

/// Every named export that wildcard expansion adds re-exports, under its own
/// name, from a module that the graph already stores, so its source is a
/// canonical path.
pub proof fn lemma_expand_stars_canonical(
    r: PathResolver,
    table: Seq<(Seq<char>, SymbolDependencyV)>,
    cur: Seq<char>,
    named: Seq<(Seq<char>, ModuleExportV)>,
    stars: Seq<Seq<char>>,
    n: int,
    res: Seq<(Seq<char>, ModuleExportV)>,
)
    requires
        expand_stars(r, table, cur, named, stars, n) == Ok::<
            Seq<(Seq<char>, ModuleExportV)>,
            AnalysisError,
        >(res),
    ensures
        res.len() >= named.len(),
        forall|i: int| 0 <= i < named.len() ==> res[i] == named[i],
        forall|i: int|
            named.len() <= i < res.len() ==> match (#[trigger] res[i]).1 {
                ModuleExportV::ReExportFrom(f) => f.from_type == FromTypeV::Named(res[i].0)
                    && seq_contains_key(table, f.from),
                ModuleExportV::Local(_) => false,
            },
    decreases n,
{
    if n <= 0 {
    } else {
        let prev = expand_stars(r, table, cur, named, stars, n - 1);
        assert(prev is Ok);
        let acc = prev.unwrap();
        lemma_expand_stars_canonical(r, table, cur, named, stars, n - 1, acc);
        match r.resolve_spec(cur, stars[n - 1]) {
            Err(_) => {
                assert(false);
            }
            Ok(resolved) => {
                assert(seq_contains_key(table, resolved));
                let imported = crate::table::seq_get(table, resolved);
                lemma_expand_keys_shape(
                    acc,
                    resolved,
                    imported.named_export_table,
                    imported.named_export_table.len() as int,
                    res,
                );
                assert forall|i: int|
                    named.len() <= i < res.len() implies match (#[trigger] res[i]).1 {
                    ModuleExportV::ReExportFrom(f) => f.from_type == FromTypeV::Named(res[i].0)
                        && seq_contains_key(table, f.from),
                    ModuleExportV::Local(_) => false,
                } by {
                    if i < acc.len() {
                        assert(res[i] == acc[i]);
                    }
                }
            }
        }
    }
}

/// Every `Local` named export of a module names one of its own locals, and
/// a `Local` default export does too.
pub open spec fn locals_closed(sd: SymbolDependencyV) -> bool {
    (forall|i: int|
        0 <= i < sd.named_export_table.len() ==> match (#[trigger] sd.named_export_table[i]).1 {
            crate::types::ModuleExportV::Local(x) => seq_contains_key(sd.local_variable_table, x),
            crate::types::ModuleExportV::ReExportFrom(_) => true,
        }) && match sd.default_export {
        Some(crate::types::ModuleExportV::Local(x)) => seq_contains_key(
            sd.local_variable_table,
            x,
        ),
        _ => true,
    }
}

/// Every stored module of the graph is locally closed.
pub open spec fn graph_locals_closed(table: Seq<(Seq<char>, SymbolDependencyV)>) -> bool {
    forall|m: int| 0 <= m < table.len() ==> locals_closed((#[trigger] table[m]).1)
}

proof fn lemma_canon_locals_closed(r: PathResolver, sd: SymbolDependencyV)
    requires
        locals_closed(sd),
    ensures
        locals_closed(canon_sd(r, sd)),
{
    let c = canon_sd(r, sd);
    assert forall|i: int|
        0 <= i < c.named_export_table.len() implies match (#[trigger] c.named_export_table[i]).1 {
        crate::types::ModuleExportV::Local(x) => seq_contains_key(c.local_variable_table, x),
        crate::types::ModuleExportV::ReExportFrom(_) => true,
    } by {
        assert(c.named_export_table[i] == (
            sd.named_export_table[i].0,
            canon_me(r, sd.canonical_path, sd.named_export_table[i].1),
        ));
        match sd.named_export_table[i].1 {
            crate::types::ModuleExportV::Local(x) => {
                let j = choose|j: int|
                    0 <= j < sd.local_variable_table.len() && sd.local_variable_table[j].0 == x;
                assert(c.local_variable_table[j].0 == x);
            },
            crate::types::ModuleExportV::ReExportFrom(_) => {},
        }
    }
    match sd.default_export {
        Some(e) => match e {
            crate::types::ModuleExportV::Local(x) => {
                let j = choose|j: int|
                    0 <= j < sd.local_variable_table.len() && sd.local_variable_table[j].0 == x;
                assert(c.local_variable_table[j].0 == x);
            },
            crate::types::ModuleExportV::ReExportFrom(_) => {},
        },
        None => {},
    }
}

/// Inserting a locally closed module into a graph of locally closed
/// modules keeps the whole graph locally closed: canonicalization leaves
/// `Local` exports and the local table's keys alone, and wildcard
/// expansion appends only re-exports. Composed with
/// `lemma_named_exports_point_into_locals`, every graph built by inserting
/// extracted modules with declared locals satisfies it.
pub proof fn lemma_add_sd_locals_closed(
    r: PathResolver,
    table: Seq<(Seq<char>, SymbolDependencyV)>,
    sd: SymbolDependencyV,
    table2: Seq<(Seq<char>, SymbolDependencyV)>,
)
    requires
        add_sd_spec(r, table, sd) == Ok::<Seq<(Seq<char>, SymbolDependencyV)>, AnalysisError>(
            table2,
        ),
        locals_closed(sd),
        graph_locals_closed(table),
    ensures
        graph_locals_closed(table2),
{
    let p = process_sd(r, table, sd).unwrap();
    lemma_canon_locals_closed(r, sd);
    let c = canon_sd(r, sd);
    match c.re_export_star_from {
        None => {
            assert(p == c);
        },
        Some(stars) => {
            let named = expand_stars(
                r,
                table,
                c.canonical_path,
                c.named_export_table,
                stars,
                stars.len() as int,
            ).unwrap();
            lemma_expand_stars_canonical(
                r,
                table,
                c.canonical_path,
                c.named_export_table,
                stars,
                stars.len() as int,
                named,
            );
            assert(p.named_export_table == named);
            assert(p.local_variable_table == c.local_variable_table);
            assert(p.default_export == c.default_export);
            assert forall|i: int|
                0 <= i < p.named_export_table.len() implies match (
            #[trigger] p.named_export_table[i]).1 {
                crate::types::ModuleExportV::Local(x) => seq_contains_key(
                    p.local_variable_table,
                    x,
                ),
                crate::types::ModuleExportV::ReExportFrom(_) => true,
            } by {
                if i < c.named_export_table.len() {
                    assert(named[i] == c.named_export_table[i]);
                }
            }
        },
    }
    assert(locals_closed(p));
    assert forall|m: int| 0 <= m < table2.len() implies locals_closed(
        (#[trigger] table2[m]).1,
    ) by {
        assert(table2 == table.push((sd.canonical_path, p)));
        if m < table.len() {
            assert(table2[m] == table[m]);
        } else {
            assert(table2[m].1 == p);
        }
    }
}

} // verus!
