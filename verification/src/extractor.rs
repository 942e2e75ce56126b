//! The symbol extractor: from the items of one module to its
//! `SymbolDependency`.
//!
//! Pass 1 walks the top-level items and builds the local-variable table, the
//! named-export table, the default export and the wildcard re-export list,
//! together with the set of recorded lexical bindings. Pass 2 walks the same
//! items again and attributes every reference to a recorded binding to the
//! enclosing top-level symbol. The merge step turns those references into
//! sorted, duplicate-free `depend_on` lists.
//!
//! The whole computation is mirrored by spec-level folds over the item
//! sequence; `collect_symbol_dependency` returns exactly their value.

use vstd::prelude::*;

use crate::anonymous_default_export_name;
use crate::anonymous_default_export_spec;
use crate::module_model::Binding;
use crate::module_model::DefaultExpr;
use crate::module_model::ExportSpec;
use crate::module_model::Ident;
use crate::module_model::IdentV;
use crate::module_model::ImportSpec;
use crate::module_model::ModuleItem;
use crate::strorder::ins_sorted;
use crate::table::seq_contains_key;
use crate::table::seq_set;
use crate::table::StrTable;
use crate::types::AnalysisError;
use crate::types::FromOtherModule;
use crate::types::FromOtherModuleV;
use crate::types::FromType;
use crate::types::FromTypeV;
use crate::types::ModuleExport;
use crate::types::ModuleExportV;
use crate::types::ModuleScopedVariable;
use crate::types::ModuleScopedVariableV;
use crate::types::SymbolDependency;
use crate::types::SymbolDependencyV;

verus! {

/// The view of a sequence of identifiers.
pub open spec fn idents_view(s: Seq<Ident>) -> Seq<IdentV> {
    s.map_values(|x: Ident| x.deep_view())
}

/// Pass-1 state: the four tables under construction plus the bound_ids
/// lexical bindings.
pub ghost struct P1V {
    pub locals: Seq<(Seq<char>, ModuleScopedVariableV)>,
    pub named: Seq<(Seq<char>, ModuleExportV)>,
    pub default_export: Option<ModuleExportV>,
    pub stars: Seq<Seq<char>>,
    pub bound_ids: Seq<IdentV>,
}

pub open spec fn p1_init() -> P1V {
    P1V {
        locals: Seq::empty(),
        named: Seq::empty(),
        default_export: None,
        stars: Seq::empty(),
        bound_ids: Seq::empty(),
    }
}

/// Record a lexical binding; introducing the same binding twice is an error.
pub open spec fn p1_track(st: P1V, id: IdentV) -> Result<P1V, AnalysisError> {
    if st.bound_ids.contains(id) {
        Err(AnalysisError::DuplicateBinding)
    } else {
        Ok(
            P1V {
                locals: st.locals,
                named: st.named,
                default_export: st.default_export,
                stars: st.stars,
                bound_ids: st.bound_ids.push(id),
            },
        )
    }
}

/// Insert or overwrite a local.
pub open spec fn p1_add_local(st: P1V, name: Seq<char>, v: ModuleScopedVariableV) -> P1V {
    P1V {
        locals: seq_set(st.locals, name, v),
        named: st.named,
        default_export: st.default_export,
        stars: st.stars,
        bound_ids: st.bound_ids,
    }
}

/// Add a named export; a module cannot export the same name twice.
pub open spec fn p1_export_named(st: P1V, name: Seq<char>, e: ModuleExportV) -> Result<
    P1V,
    AnalysisError,
> {
    if seq_contains_key(st.named, name) {
        Err(AnalysisError::DuplicateExport)
    } else {
        Ok(
            P1V {
                locals: st.locals,
                named: st.named.push((name, e)),
                default_export: st.default_export,
                stars: st.stars,
                bound_ids: st.bound_ids,
            },
        )
    }
}

/// Set the default export; a module cannot export default twice.
pub open spec fn p1_set_default(st: P1V, e: ModuleExportV) -> Result<P1V, AnalysisError> {
    if st.default_export is Some {
        Err(AnalysisError::DuplicateExport)
    } else {
        Ok(
            P1V {
                locals: st.locals,
                named: st.named,
                default_export: Some(e),
                stars: st.stars,
                bound_ids: st.bound_ids,
            },
        )
    }
}

pub open spec fn p1_add_star(st: P1V, src: Seq<char>) -> P1V {
    P1V {
        locals: st.locals,
        named: st.named,
        default_export: st.default_export,
        stars: st.stars.push(src),
        bound_ids: st.bound_ids,
    }
}

/// A local that was imported from `src` as `ft`.
pub open spec fn import_msv(src: Seq<char>, ft: FromTypeV) -> ModuleScopedVariableV {
    ModuleScopedVariableV {
        depend_on: None,
        import_from: Some(FromOtherModuleV { from: src, from_type: ft }),
    }
}

/// A local declared in this module.
pub open spec fn plain_msv() -> ModuleScopedVariableV {
    ModuleScopedVariableV { depend_on: None, import_from: None }
}

/// Track `id` and bind its name as a local.
pub open spec fn p1_track_local(st: P1V, id: IdentV, v: ModuleScopedVariableV) -> Result<
    P1V,
    AnalysisError,
> {
    match p1_track(st, id) {
        Err(e) => Err(e),
        Ok(st1) => Ok(p1_add_local(st1, id.name, v)),
    }
}

/// One import specifier of `import ... from src`.
pub open spec fn p1_import_spec(st: P1V, src: Seq<char>, sp: ImportSpec) -> Result<
    P1V,
    AnalysisError,
> {
    match sp {
        ImportSpec::Named { local, imported } => {
            let ft = match imported {
                Some(orig) => if orig@ == "default"@ {
                    FromTypeV::Default
                } else {
                    FromTypeV::Named(orig@)
                },
                None => FromTypeV::Named(local.name@),
            };
            p1_track_local(st, local.deep_view(), import_msv(src, ft))
        }
        ImportSpec::NamedStr { .. } => Ok(st),
        ImportSpec::Default { local } => p1_track_local(
            st,
            local.deep_view(),
            import_msv(src, FromTypeV::Default),
        ),
        ImportSpec::Namespace { local } => p1_track_local(
            st,
            local.deep_view(),
            import_msv(src, FromTypeV::Namespace),
        ),
    }
}

pub open spec fn p1_fold_import(st: P1V, src: Seq<char>, sps: Seq<ImportSpec>, n: int) -> Result<
    P1V,
    AnalysisError,
>
    decreases n,
{
    if n <= 0 {
        Ok(st)
    } else {
        match p1_fold_import(st, src, sps, n - 1) {
            Err(e) => Err(e),
            Ok(st1) => p1_import_spec(st1, src, sps[n - 1]),
        }
    }
}

/// One specifier of `export { ... } from src` / `export * as n from src`.
pub open spec fn p1_export_spec_from(st: P1V, src: Seq<char>, sp: ExportSpec) -> Result<
    P1V,
    AnalysisError,
> {
    match sp {
        ExportSpec::Namespace { name } => match name {
            Some(n) => p1_export_named(
                st,
                n@,
                ModuleExportV::ReExportFrom(
                    FromOtherModuleV { from: src, from_type: FromTypeV::Namespace },
                ),
            ),
            None => Ok(st),
        },
        ExportSpec::DefaultSpecifier => Ok(st),
        ExportSpec::NamedStr => Ok(st),
        ExportSpec::Named { orig, exported } => match exported {
            None => if orig@ == "default"@ {
                p1_set_default(
                    st,
                    ModuleExportV::ReExportFrom(
                        FromOtherModuleV { from: src, from_type: FromTypeV::Default },
                    ),
                )
            } else {
                p1_export_named(
                    st,
                    orig@,
                    ModuleExportV::ReExportFrom(
                        FromOtherModuleV { from: src, from_type: FromTypeV::Named(orig@) },
                    ),
                )
            },
            Some(ex) => if orig@ == "default"@ {
                p1_export_named(
                    st,
                    ex@,
                    ModuleExportV::ReExportFrom(
                        FromOtherModuleV { from: src, from_type: FromTypeV::Default },
                    ),
                )
            } else {
                p1_export_named(
                    st,
                    ex@,
                    ModuleExportV::ReExportFrom(
                        FromOtherModuleV { from: src, from_type: FromTypeV::Named(orig@) },
                    ),
                )
            },
        },
    }
}

pub open spec fn p1_fold_export_from(
    st: P1V,
    src: Seq<char>,
    sps: Seq<ExportSpec>,
    n: int,
) -> Result<P1V, AnalysisError>
    decreases n,
{
    if n <= 0 {
        Ok(st)
    } else {
        match p1_fold_export_from(st, src, sps, n - 1) {
            Err(e) => Err(e),
            Ok(st1) => p1_export_spec_from(st1, src, sps[n - 1]),
        }
    }
}

/// One specifier of a source-less `export { ... }`.
pub open spec fn p1_export_spec_list(st: P1V, sp: ExportSpec) -> Result<P1V, AnalysisError> {
    match sp {
        ExportSpec::Namespace { .. } => Ok(st),
        ExportSpec::DefaultSpecifier => Ok(st),
        ExportSpec::NamedStr => Ok(st),
        ExportSpec::Named { orig, exported } => match exported {
            None => p1_export_named(st, orig@, ModuleExportV::Local(orig@)),
            Some(ex) => if ex@ == "default"@ {
                p1_set_default(st, ModuleExportV::Local(orig@))
            } else {
                p1_export_named(st, ex@, ModuleExportV::Local(orig@))
            },
        },
    }
}

pub open spec fn p1_fold_export_list(st: P1V, sps: Seq<ExportSpec>, n: int) -> Result<
    P1V,
    AnalysisError,
>
    decreases n,
{
    if n <= 0 {
        Ok(st)
    } else {
        match p1_fold_export_list(st, sps, n - 1) {
            Err(e) => Err(e),
            Ok(st1) => p1_export_spec_list(st1, sps[n - 1]),
        }
    }
}

/// One binding of a declaration: track it, add the local, and for an
/// exported declaration also export it under its own name.
pub open spec fn p1_binding(st: P1V, b: Binding, exported: bool) -> Result<P1V, AnalysisError> {
    match p1_track_local(st, b.ident.deep_view(), plain_msv()) {
        Err(e) => Err(e),
        Ok(st1) => if exported {
            p1_export_named(st1, b.ident.name@, ModuleExportV::Local(b.ident.name@))
        } else {
            Ok(st1)
        },
    }
}

pub open spec fn p1_fold_bindings(st: P1V, bs: Seq<Binding>, exported: bool, n: int) -> Result<
    P1V,
    AnalysisError,
>
    decreases n,
{
    if n <= 0 {
        Ok(st)
    } else {
        match p1_fold_bindings(st, bs, exported, n - 1) {
            Err(e) => Err(e),
            Ok(st1) => p1_binding(st1, bs[n - 1], exported),
        }
    }
}

/// Declare the anonymous default local and make it the default export.
pub open spec fn p1_anon_default(st: P1V) -> Result<P1V, AnalysisError> {
    let st1 = p1_add_local(st, anonymous_default_export_spec(), plain_msv());
    p1_set_default(st1, ModuleExportV::Local(anonymous_default_export_spec()))
}

/// One top-level item.
pub open spec fn p1_item(st: P1V, item: ModuleItem) -> Result<P1V, AnalysisError> {
    match item {
        ModuleItem::Import { src, specifiers } => p1_fold_import(
            st,
            src@,
            specifiers@,
            specifiers@.len() as int,
        ),
        ModuleItem::Decl { bindings, exported } => p1_fold_bindings(
            st,
            bindings@,
            exported,
            bindings@.len() as int,
        ),
        ModuleItem::NamedExportList { specifiers } => p1_fold_export_list(
            st,
            specifiers@,
            specifiers@.len() as int,
        ),
        ModuleItem::NamedExportFrom { src, specifiers } => p1_fold_export_from(
            st,
            src@,
            specifiers@,
            specifiers@.len() as int,
        ),
        ModuleItem::DefaultExportDecl { ident, refs } => match ident {
            Some(id) => match p1_track_local(st, id.deep_view(), plain_msv()) {
                Err(e) => Err(e),
                Ok(st1) => p1_set_default(st1, ModuleExportV::Local(id.name@)),
            },
            None => p1_anon_default(st),
        },
        ModuleItem::DefaultExportExpr { expr } => match expr {
            DefaultExpr::Ident(name) => p1_set_default(st, ModuleExportV::Local(name@)),
            DefaultExpr::Array(_) => p1_anon_default(st),
            DefaultExpr::ObjectLit(_) => p1_anon_default(st),
            DefaultExpr::Arrow => p1_anon_default(st),
            DefaultExpr::Other => Ok(st),
        },
        ModuleItem::ExportAll { src } => Ok(p1_add_star(st, src@)),
        ModuleItem::Other => Ok(st),
    }
}

pub open spec fn p1_fold_items(items: Seq<ModuleItem>, n: int) -> Result<P1V, AnalysisError>
    decreases n,
{
    if n <= 0 {
        Ok(p1_init())
    } else {
        match p1_fold_items(items, n - 1) {
            Err(e) => Err(e),
            Ok(st1) => p1_item(st1, items[n - 1]),
        }
    }
}

/// An error of the item fold persists to the end of the item list.
pub proof fn lemma_p1_error_persists(items: Seq<ModuleItem>, n: int, m: int, e: AnalysisError)
    requires
        0 <= n <= m,
        p1_fold_items(items, n) == Err::<P1V, AnalysisError>(e),
    ensures
        p1_fold_items(items, m) == Err::<P1V, AnalysisError>(e),
    decreases m - n,
{
    if m > n {
        lemma_p1_error_persists(items, n, m - 1, e);
    }
}

/// Pass-1 state under construction.
struct P1State {
    locals: StrTable<ModuleScopedVariable>,
    named: StrTable<ModuleExport>,
    default_export: Option<ModuleExport>,
    stars: Vec<String>,
    bound_ids: Vec<Ident>,
}

impl P1State {
    spec fn view_spec(&self) -> P1V {
        P1V {
            locals: self.locals@,
            named: self.named@,
            default_export: match self.default_export {
                Some(e) => Some(e.deep_view()),
                None => None,
            },
            stars: self.stars.deep_view(),
            bound_ids: idents_view(self.bound_ids@),
        }
    }

    spec fn inv(&self) -> bool {
        self.locals.wf() && self.named.wf()
    }

    fn new() -> (r: Self)
        ensures
            r.view_spec() == p1_init(),
            r.inv(),
    {
        let r = P1State {
            locals: StrTable::new(),
            named: StrTable::new(),
            default_export: None,
            stars: Vec::new(),
            bound_ids: Vec::new(),
        };
        proof {
            assert(r.stars.deep_view() =~= Seq::<Seq<char>>::empty());
            assert(idents_view(r.bound_ids@) =~= Seq::<IdentV>::empty());
            assert(r.view_spec() == p1_init());
        }
        r
    }

    /// Record a lexical binding, or report that it already exists.
    fn track(&mut self, id: &Ident) -> (r: Result<(), AnalysisError>)
        requires
            old(self).inv(),
        ensures
            final(self).inv(),
            match r {
                Ok(_) => p1_track(old(self).view_spec(), id.deep_view()) == Ok::<
                    P1V,
                    AnalysisError,
                >(final(self).view_spec()),
                Err(e) => p1_track(old(self).view_spec(), id.deep_view()) == Err::<
                    P1V,
                    AnalysisError,
                >(e) && final(self).view_spec() == old(self).view_spec(),
            },
    {
        let ghost t0 = idents_view(self.bound_ids@);
        let n = self.bound_ids.len();
        for i in 0..n
            invariant
                n == self.bound_ids@.len(),
                t0 == idents_view(self.bound_ids@),
                self.inv(),
                self.view_spec() == old(self).view_spec(),
                forall|j: int| 0 <= j < i ==> t0[j] != id.deep_view(),
        {
            proof {
                assert(t0[i as int] == self.bound_ids@[i as int].deep_view());
            }
            if self.bound_ids[i].same_as(id) {
                proof {
                    assert(t0.contains(id.deep_view()));
                }
                return Err(AnalysisError::DuplicateBinding);
            }
        }
        proof {
            assert(!t0.contains(id.deep_view())) by {
                if t0.contains(id.deep_view()) {
                    let j = choose|j: int| 0 <= j < t0.len() && t0[j] == id.deep_view();
                }
            }
        }
        let ghost pre = self.view_spec();
        self.bound_ids.push(id.duplicate());
        proof {
            assert(idents_view(self.bound_ids@) =~= t0.push(id.deep_view())) by {
                assert forall|j: int| 0 <= j < self.bound_ids@.len() implies idents_view(
                    self.bound_ids@,
                )[j] == t0.push(id.deep_view())[j] by {
                    if j < t0.len() {
                        assert(self.bound_ids@[j] == old(self).bound_ids@[j]);
                    }
                }
            }
            assert(self.view_spec() == p1_track(pre, id.deep_view()).unwrap());
        }
        Ok(())
    }

    /// Insert or overwrite a local.
    fn add_local(&mut self, name: &String, v: ModuleScopedVariable)
        requires
            old(self).inv(),
        ensures
            final(self).inv(),
            final(self).view_spec() == p1_add_local(
                old(self).view_spec(),
                name@,
                v.deep_view(),
            ),
    {
        self.locals.set(name.clone(), v);
        proof {
            assert(self.view_spec() == p1_add_local(old(self).view_spec(), name@, v.deep_view()));
        }
    }

    /// Add a named export, or report the duplicate.
    fn export_named(&mut self, name: &String, e: ModuleExport) -> (r: Result<(), AnalysisError>)
        requires
            old(self).inv(),
        ensures
            final(self).inv(),
            match r {
                Ok(_) => p1_export_named(old(self).view_spec(), name@, e.deep_view()) == Ok::<
                    P1V,
                    AnalysisError,
                >(final(self).view_spec()),
                Err(er) => p1_export_named(old(self).view_spec(), name@, e.deep_view()) == Err::<
                    P1V,
                    AnalysisError,
                >(er) && final(self).view_spec() == old(self).view_spec(),
            },
    {
        if self.named.contains_key(name) {
            return Err(AnalysisError::DuplicateExport);
        }
        self.named.push_new(name.clone(), e);
        Ok(())
    }

    /// Set the default export, or report the duplicate.
    fn set_default(&mut self, e: ModuleExport) -> (r: Result<(), AnalysisError>)
        requires
            old(self).inv(),
        ensures
            final(self).inv(),
            match r {
                Ok(_) => p1_set_default(old(self).view_spec(), e.deep_view()) == Ok::<
                    P1V,
                    AnalysisError,
                >(final(self).view_spec()),
                Err(er) => p1_set_default(old(self).view_spec(), e.deep_view()) == Err::<
                    P1V,
                    AnalysisError,
                >(er) && final(self).view_spec() == old(self).view_spec(),
            },
    {
        match &self.default_export {
            Some(_) => Err(AnalysisError::DuplicateExport),
            None => {
                self.default_export = Some(e);
                Ok(())
            }
        }
    }

    fn add_star(&mut self, src: &String)
        requires
            old(self).inv(),
        ensures
            final(self).inv(),
            final(self).view_spec() == p1_add_star(old(self).view_spec(), src@),
    {
        let ghost s0 = self.stars.deep_view();
        self.stars.push(src.clone());
        proof {
            assert(self.stars.deep_view() =~= s0.push(src@)) by {
                assert forall|j: int| 0 <= j < self.stars.deep_view().len() implies self.stars.deep_view()[j]
                    == s0.push(src@)[j] by {
                    assert(self.stars.deep_view()[j] == self.stars@[j]@);
                    if j < s0.len() {
                        assert(self.stars@[j] == old(self).stars@[j]);
                    }
                }
            }
        }
    }

    /// Track `id` and bind its name as a local.
    fn track_local(&mut self, id: &Ident, v: ModuleScopedVariable) -> (r: Result<
        (),
        AnalysisError,
    >)
        requires
            old(self).inv(),
        ensures
            final(self).inv(),
            match r {
                Ok(_) => p1_track_local(old(self).view_spec(), id.deep_view(), v.deep_view())
                    == Ok::<P1V, AnalysisError>(final(self).view_spec()),
                Err(er) => p1_track_local(old(self).view_spec(), id.deep_view(), v.deep_view())
                    == Err::<P1V, AnalysisError>(er) && final(self).view_spec() == old(
                    self,
                ).view_spec(),
            },
    {
        match self.track(id) {
            Err(e) => Err(e),
            Ok(_) => {
                self.add_local(&id.name, v);
                Ok(())
            }
        }
    }

    /// Declare the anonymous default local and make it the default export.
    fn anon_default(&mut self) -> (r: Result<(), AnalysisError>)
        requires
            old(self).inv(),
        ensures
            final(self).inv(),
            match r {
                Ok(_) => p1_anon_default(old(self).view_spec()) == Ok::<P1V, AnalysisError>(
                    final(self).view_spec(),
                ),
                Err(er) => p1_anon_default(old(self).view_spec()) == Err::<P1V, AnalysisError>(er),
            },
    {
        let anon = anonymous_default_export_name();
        self.add_local(&anon, ModuleScopedVariable { depend_on: None, import_from: None });
        let anon2 = anonymous_default_export_name();
        self.set_default(ModuleExport::Local(anon2))
    }
}

/// Whether a string is the literal name `default`.
fn is_default_name(s: &String) -> (r: bool)
    ensures
        r == (s@ == "default"@),
{
    let d = String::from_str("default");
    *s == d
}

} // verus!

verus! {

proof fn lemma_fold_import_error(st: P1V, src: Seq<char>, sps: Seq<ImportSpec>, n: int, m: int, e: AnalysisError)
    requires
        0 <= n <= m,
        p1_fold_import(st, src, sps, n) == Err::<P1V, AnalysisError>(e),
    ensures
        p1_fold_import(st, src, sps, m) == Err::<P1V, AnalysisError>(e),
    decreases m - n,
{
    if m > n {
        lemma_fold_import_error(st, src, sps, n, m - 1, e);
    }
}

proof fn lemma_fold_export_from_error(st: P1V, src: Seq<char>, sps: Seq<ExportSpec>, n: int, m: int, e: AnalysisError)
    requires
        0 <= n <= m,
        p1_fold_export_from(st, src, sps, n) == Err::<P1V, AnalysisError>(e),
    ensures
        p1_fold_export_from(st, src, sps, m) == Err::<P1V, AnalysisError>(e),
    decreases m - n,
{
    if m > n {
        lemma_fold_export_from_error(st, src, sps, n, m - 1, e);
    }
}

proof fn lemma_fold_export_list_error(st: P1V, sps: Seq<ExportSpec>, n: int, m: int, e: AnalysisError)
    requires
        0 <= n <= m,
        p1_fold_export_list(st, sps, n) == Err::<P1V, AnalysisError>(e),
    ensures
        p1_fold_export_list(st, sps, m) == Err::<P1V, AnalysisError>(e),
    decreases m - n,
{
    if m > n {
        lemma_fold_export_list_error(st, sps, n, m - 1, e);
    }
}

proof fn lemma_fold_bindings_error(st: P1V, bs: Seq<Binding>, exported: bool, n: int, m: int, e: AnalysisError)
    requires
        0 <= n <= m,
        p1_fold_bindings(st, bs, exported, n) == Err::<P1V, AnalysisError>(e),
    ensures
        p1_fold_bindings(st, bs, exported, m) == Err::<P1V, AnalysisError>(e),
    decreases m - n,
{
    if m > n {
        lemma_fold_bindings_error(st, bs, exported, n, m - 1, e);
    }
}

impl P1State {
    /// All specifiers of one `import ... from src` item.
    fn run_import(&mut self, src: &String, sps: &Vec<ImportSpec>) -> (r: Result<
        (),
        AnalysisError,
    >)
        requires
            old(self).inv(),
        ensures
            final(self).inv(),
            match r {
                Ok(_) => p1_fold_import(old(self).view_spec(), src@, sps@, sps@.len() as int)
                    == Ok::<P1V, AnalysisError>(final(self).view_spec()),
                Err(e) => p1_fold_import(old(self).view_spec(), src@, sps@, sps@.len() as int)
                    == Err::<P1V, AnalysisError>(e),
            },
    {
        let ghost st0 = self.view_spec();
        let n = sps.len();
        for i in 0..n
            invariant
                n == sps@.len(),
                self.inv(),
                st0 == old(self).view_spec(),
                p1_fold_import(st0, src@, sps@, i as int) == Ok::<P1V, AnalysisError>(
                    self.view_spec(),
                ),
        {
            let ghost pre = self.view_spec();
            let sp = &sps[i];
            let step = match sp {
                ImportSpec::Named { local, imported } => {
                    let ft = match imported {
                        Some(orig) => if is_default_name(orig) {
                            FromType::Default
                        } else {
                            FromType::Named(orig.clone())
                        },
                        None => FromType::Named(local.name.clone()),
                    };
                    let msv = ModuleScopedVariable {
                        depend_on: None,
                        import_from: Some(
                            FromOtherModule { from: src.clone(), from_type: ft },
                        ),
                    };
                    self.track_local(local, msv)
                }
                ImportSpec::NamedStr { .. } => Ok(()),
                ImportSpec::Default { local } => {
                    let msv = ModuleScopedVariable {
                        depend_on: None,
                        import_from: Some(
                            FromOtherModule { from: src.clone(), from_type: FromType::Default },
                        ),
                    };
                    self.track_local(local, msv)
                }
                ImportSpec::Namespace { local } => {
                    let msv = ModuleScopedVariable {
                        depend_on: None,
                        import_from: Some(
                            FromOtherModule {
                                from: src.clone(),
                                from_type: FromType::Namespace,
                            },
                        ),
                    };
                    self.track_local(local, msv)
                }
            };
            match step {
                Ok(_) => {
                    proof {
                        assert(p1_import_spec(pre, src@, sps@[i as int]) == Ok::<
                            P1V,
                            AnalysisError,
                        >(self.view_spec()));
                    }
                }
                Err(e) => {
                    proof {
                        assert(p1_import_spec(pre, src@, sps@[i as int]) == Err::<
                            P1V,
                            AnalysisError,
                        >(e));
                        assert(p1_fold_import(st0, src@, sps@, i + 1) == Err::<
                            P1V,
                            AnalysisError,
                        >(e));
                        lemma_fold_import_error(st0, src@, sps@, i + 1, sps@.len() as int, e);
                    }
                    return Err(e);
                }
            }
        }
        Ok(())
    }

    /// All specifiers of one `export { ... } from src` item.
    fn run_export_from(&mut self, src: &String, sps: &Vec<ExportSpec>) -> (r: Result<
        (),
        AnalysisError,
    >)
        requires
            old(self).inv(),
        ensures
            final(self).inv(),
            match r {
                Ok(_) => p1_fold_export_from(old(self).view_spec(), src@, sps@, sps@.len() as int)
                    == Ok::<P1V, AnalysisError>(final(self).view_spec()),
                Err(e) => p1_fold_export_from(
                    old(self).view_spec(),
                    src@,
                    sps@,
                    sps@.len() as int,
                ) == Err::<P1V, AnalysisError>(e),
            },
    {
        let ghost st0 = self.view_spec();
        let n = sps.len();
        for i in 0..n
            invariant
                n == sps@.len(),
                self.inv(),
                st0 == old(self).view_spec(),
                p1_fold_export_from(st0, src@, sps@, i as int) == Ok::<P1V, AnalysisError>(
                    self.view_spec(),
                ),
        {
            let ghost pre = self.view_spec();
            let sp = &sps[i];
            let step = match sp {
                ExportSpec::Namespace { name } => match name {
                    Some(n_str) => self.export_named(
                        n_str,
                        ModuleExport::ReExportFrom(
                            FromOtherModule {
                                from: src.clone(),
                                from_type: FromType::Namespace,
                            },
                        ),
                    ),
                    None => Ok(()),
                },
                ExportSpec::DefaultSpecifier => Ok(()),
                ExportSpec::NamedStr => Ok(()),
                ExportSpec::Named { orig, exported } => match exported {
                    None => if is_default_name(orig) {
                        self.set_default(
                            ModuleExport::ReExportFrom(
                                FromOtherModule {
                                    from: src.clone(),
                                    from_type: FromType::Default,
                                },
                            ),
                        )
                    } else {
                        self.export_named(
                            orig,
                            ModuleExport::ReExportFrom(
                                FromOtherModule {
                                    from: src.clone(),
                                    from_type: FromType::Named(orig.clone()),
                                },
                            ),
                        )
                    },
                    Some(ex) => if is_default_name(orig) {
                        self.export_named(
                            ex,
                            ModuleExport::ReExportFrom(
                                FromOtherModule {
                                    from: src.clone(),
                                    from_type: FromType::Default,
                                },
                            ),
                        )
                    } else {
                        self.export_named(
                            ex,
                            ModuleExport::ReExportFrom(
                                FromOtherModule {
                                    from: src.clone(),
                                    from_type: FromType::Named(orig.clone()),
                                },
                            ),
                        )
                    },
                },
            };
            match step {
                Ok(_) => {
                    proof {
                        assert(p1_export_spec_from(pre, src@, sps@[i as int]) == Ok::<
                            P1V,
                            AnalysisError,
                        >(self.view_spec()));
                    }
                }
                Err(e) => {
                    proof {
                        assert(p1_export_spec_from(pre, src@, sps@[i as int]) == Err::<
                            P1V,
                            AnalysisError,
                        >(e));
                        lemma_fold_export_from_error(st0, src@, sps@, i + 1, sps@.len() as int, e);
                    }
                    return Err(e);
                }
            }
        }
        Ok(())
    }

    /// All specifiers of one source-less `export { ... }` item.
    fn run_export_list(&mut self, sps: &Vec<ExportSpec>) -> (r: Result<(), AnalysisError>)
        requires
            old(self).inv(),
        ensures
            final(self).inv(),
            match r {
                Ok(_) => p1_fold_export_list(old(self).view_spec(), sps@, sps@.len() as int)
                    == Ok::<P1V, AnalysisError>(final(self).view_spec()),
                Err(e) => p1_fold_export_list(old(self).view_spec(), sps@, sps@.len() as int)
                    == Err::<P1V, AnalysisError>(e),
            },
    {
        let ghost st0 = self.view_spec();
        let n = sps.len();
        for i in 0..n
            invariant
                n == sps@.len(),
                self.inv(),
                st0 == old(self).view_spec(),
                p1_fold_export_list(st0, sps@, i as int) == Ok::<P1V, AnalysisError>(
                    self.view_spec(),
                ),
        {
            let ghost pre = self.view_spec();
            let sp = &sps[i];
            let step = match sp {
                ExportSpec::Namespace { .. } => Ok(()),
                ExportSpec::DefaultSpecifier => Ok(()),
                ExportSpec::NamedStr => Ok(()),
                ExportSpec::Named { orig, exported } => match exported {
                    None => self.export_named(orig, ModuleExport::Local(orig.clone())),
                    Some(ex) => if is_default_name(ex) {
                        self.set_default(ModuleExport::Local(orig.clone()))
                    } else {
                        self.export_named(ex, ModuleExport::Local(orig.clone()))
                    },
                },
            };
            match step {
                Ok(_) => {
                    proof {
                        assert(p1_export_spec_list(pre, sps@[i as int]) == Ok::<
                            P1V,
                            AnalysisError,
                        >(self.view_spec()));
                    }
                }
                Err(e) => {
                    proof {
                        assert(p1_export_spec_list(pre, sps@[i as int]) == Err::<
                            P1V,
                            AnalysisError,
                        >(e));
                        lemma_fold_export_list_error(st0, sps@, i + 1, sps@.len() as int, e);
                    }
                    return Err(e);
                }
            }
        }
        Ok(())
    }

    /// All bindings of one declaration item.
    fn run_bindings(&mut self, bs: &Vec<Binding>, exported: bool) -> (r: Result<
        (),
        AnalysisError,
    >)
        requires
            old(self).inv(),
        ensures
            final(self).inv(),
            match r {
                Ok(_) => p1_fold_bindings(
                    old(self).view_spec(),
                    bs@,
                    exported,
                    bs@.len() as int,
                ) == Ok::<P1V, AnalysisError>(final(self).view_spec()),
                Err(e) => p1_fold_bindings(
                    old(self).view_spec(),
                    bs@,
                    exported,
                    bs@.len() as int,
                ) == Err::<P1V, AnalysisError>(e),
            },
    {
        let ghost st0 = self.view_spec();
        let n = bs.len();
        for i in 0..n
            invariant
                n == bs@.len(),
                self.inv(),
                st0 == old(self).view_spec(),
                p1_fold_bindings(st0, bs@, exported, i as int) == Ok::<P1V, AnalysisError>(
                    self.view_spec(),
                ),
        {
            let ghost pre = self.view_spec();
            let b = &bs[i];
            let step = {
                match self.track_local(
                    &b.ident,
                    ModuleScopedVariable { depend_on: None, import_from: None },
                ) {
                    Err(e) => Err(e),
                    Ok(_) => if exported {
                        self.export_named(&b.ident.name, ModuleExport::Local(b.ident.name.clone()))
                    } else {
                        Ok(())
                    },
                }
            };
            match step {
                Ok(_) => {
                    proof {
                        assert(p1_binding(pre, bs@[i as int], exported) == Ok::<
                            P1V,
                            AnalysisError,
                        >(self.view_spec()));
                    }
                }
                Err(e) => {
                    proof {
                        assert(p1_binding(pre, bs@[i as int], exported) == Err::<
                            P1V,
                            AnalysisError,
                        >(e));
                        lemma_fold_bindings_error(st0, bs@, exported, i + 1, bs@.len() as int, e);
                    }
                    return Err(e);
                }
            }
        }
        Ok(())
    }

    /// One top-level item.
    fn run_item(&mut self, item: &ModuleItem) -> (r: Result<(), AnalysisError>)
        requires
            old(self).inv(),
        ensures
            final(self).inv(),
            match r {
                Ok(_) => p1_item(old(self).view_spec(), *item) == Ok::<P1V, AnalysisError>(
                    final(self).view_spec(),
                ),
                Err(e) => p1_item(old(self).view_spec(), *item) == Err::<P1V, AnalysisError>(e),
            },
    {
        match item {
            ModuleItem::Import { src, specifiers } => self.run_import(src, specifiers),
            ModuleItem::Decl { bindings, exported } => self.run_bindings(bindings, *exported),
            ModuleItem::NamedExportList { specifiers } => self.run_export_list(specifiers),
            ModuleItem::NamedExportFrom { src, specifiers } => self.run_export_from(
                src,
                specifiers,
            ),
            ModuleItem::DefaultExportDecl { ident, refs } => match ident {
                Some(id) => match self.track_local(
                    id,
                    ModuleScopedVariable { depend_on: None, import_from: None },
                ) {
                    Err(e) => Err(e),
                    Ok(_) => self.set_default(ModuleExport::Local(id.name.clone())),
                },
                None => self.anon_default(),
            },
            ModuleItem::DefaultExportExpr { expr } => match expr {
                DefaultExpr::Ident(name) => self.set_default(ModuleExport::Local(name.clone())),
                DefaultExpr::Array(_) => self.anon_default(),
                DefaultExpr::ObjectLit(_) => self.anon_default(),
                DefaultExpr::Arrow => self.anon_default(),
                DefaultExpr::Other => Ok(()),
            },
            ModuleItem::ExportAll { src } => {
                self.add_star(src);
                Ok(())
            }
            ModuleItem::Other => Ok(()),
        }
    }
}

} // verus!

verus! {

/// The identity under which an anonymous default export is recorded.
pub open spec fn anon_ident_spec() -> IdentV {
    IdentV { name: anonymous_default_export_spec(), scope: 0 }
}

/// The view of the pass-2 reference table: each recorded binding with the
/// references collected so far, in first-seen order.
pub open spec fn deps_view(s: Seq<(Ident, Vec<Ident>)>) -> Seq<(IdentV, Seq<IdentV>)> {
    s.map_values(|p: (Ident, Vec<Ident>)| (p.0.deep_view(), idents_view(p.1@)))
}

pub open spec fn d_contains(d: Seq<(IdentV, Seq<IdentV>)>, id: IdentV) -> bool {
    exists|i: int| 0 <= i < d.len() && d[i].0 == id
}

/// The first index whose entry is keyed by `id`.
pub open spec fn d_index(d: Seq<(IdentV, Seq<IdentV>)>, id: IdentV) -> int
    decreases d.len(),
{
    if d.len() == 0 {
        0
    } else if d[0].0 == id {
        0
    } else {
        1 + d_index(d.drop_first(), id)
    }
}

pub proof fn lemma_d_index(d: Seq<(IdentV, Seq<IdentV>)>, id: IdentV)
    requires
        d_contains(d, id),
    ensures
        0 <= d_index(d, id) < d.len(),
        d[d_index(d, id)].0 == id,
        forall|i: int| 0 <= i < d_index(d, id) ==> d[i].0 != id,
    decreases d.len(),
{
    if d.len() > 0 && d[0].0 != id {
        assert(d_contains(d.drop_first(), id)) by {
            let i = choose|i: int| 0 <= i < d.len() && d[i].0 == id;
            assert(d.drop_first()[i - 1].0 == id);
        }
        lemma_d_index(d.drop_first(), id);
        assert forall|i: int| 0 <= i < d_index(d, id) implies d[i].0 != id by {
            if i > 0 {
                assert(d.drop_first()[i - 1].0 != id);
            }
        }
    }
}

/// The initial reference table: every recorded binding, no references.
pub open spec fn d_init(ids: Seq<IdentV>, n: int) -> Seq<(IdentV, Seq<IdentV>)>
    decreases n,
{
    if n <= 0 {
        Seq::empty()
    } else {
        d_init(ids, n - 1).push((ids[n - 1], Seq::<IdentV>::empty()))
    }
}

/// Attribute one reference `r` to the enclosing symbol `cur`: recorded only
/// when both are table keys, `r` is not `cur` itself, and `r` is new there.
pub open spec fn d_add_ref(
    d: Seq<(IdentV, Seq<IdentV>)>,
    cur: IdentV,
    r: IdentV,
) -> Seq<(IdentV, Seq<IdentV>)> {
    if r == cur || !d_contains(d, cur) || !d_contains(d, r) {
        d
    } else {
        let i = d_index(d, cur);
        if d[i].1.contains(r) {
            d
        } else {
            d.update(i, (cur, d[i].1.push(r)))
        }
    }
}

pub open spec fn d_fold_refs(
    d: Seq<(IdentV, Seq<IdentV>)>,
    cur: IdentV,
    refs: Seq<Ident>,
    n: int,
) -> Seq<(IdentV, Seq<IdentV>)>
    decreases n,
{
    if n <= 0 {
        d
    } else {
        d_add_ref(d_fold_refs(d, cur, refs, n - 1), cur, refs[n - 1].deep_view())
    }
}

/// Enter the anonymous default binding with an empty reference list,
/// resetting it if it is already there.
pub open spec fn d_anon_insert(d: Seq<(IdentV, Seq<IdentV>)>) -> Seq<(IdentV, Seq<IdentV>)> {
    if d_contains(d, anon_ident_spec()) {
        d.update(d_index(d, anon_ident_spec()), (anon_ident_spec(), Seq::<IdentV>::empty()))
    } else {
        d.push((anon_ident_spec(), Seq::<IdentV>::empty()))
    }
}

pub open spec fn p2_fold_bindings(
    d: Seq<(IdentV, Seq<IdentV>)>,
    bs: Seq<Binding>,
    n: int,
) -> Seq<(IdentV, Seq<IdentV>)>
    decreases n,
{
    if n <= 0 {
        d
    } else {
        let b = bs[n - 1];
        d_fold_refs(
            p2_fold_bindings(d, bs, n - 1),
            b.ident.deep_view(),
            b.refs@,
            b.refs@.len() as int,
        )
    }
}

/// Pass 2 for one top-level item.
pub open spec fn p2_item(d: Seq<(IdentV, Seq<IdentV>)>, item: ModuleItem) -> Seq<
    (IdentV, Seq<IdentV>),
> {
    match item {
        ModuleItem::Decl { bindings, exported } => p2_fold_bindings(
            d,
            bindings@,
            bindings@.len() as int,
        ),
        ModuleItem::DefaultExportDecl { ident, refs } => match ident {
            Some(id) => d_fold_refs(d, id.deep_view(), refs@, refs@.len() as int),
            None => d_fold_refs(d_anon_insert(d), anon_ident_spec(), refs@, refs@.len() as int),
        },
        ModuleItem::DefaultExportExpr { expr } => match expr {
            DefaultExpr::Array(refs) => d_fold_refs(
                d_anon_insert(d),
                anon_ident_spec(),
                refs@,
                refs@.len() as int,
            ),
            DefaultExpr::ObjectLit(refs) => d_fold_refs(
                d_anon_insert(d),
                anon_ident_spec(),
                refs@,
                refs@.len() as int,
            ),
            _ => d,
        },
        _ => d,
    }
}

pub open spec fn p2_fold_items(
    d: Seq<(IdentV, Seq<IdentV>)>,
    items: Seq<ModuleItem>,
    n: int,
) -> Seq<(IdentV, Seq<IdentV>)>
    decreases n,
{
    if n <= 0 {
        d
    } else {
        p2_item(p2_fold_items(d, items, n - 1), items[n - 1])
    }
}

/// The names of `refs[..n]`, sorted and deduplicated.
pub open spec fn sorted_names(refs: Seq<IdentV>, n: int) -> Seq<Seq<char>>
    decreases n,
{
    if n <= 0 {
        Seq::empty()
    } else {
        ins_sorted(sorted_names(refs, n - 1), refs[n - 1].name)
    }
}

/// Write one reference-table entry into the local table as a `depend_on`
/// list. An entry without references leaves the table unchanged; an entry
/// whose name is not a local is an error.
pub open spec fn merge_entry(
    locals: Seq<(Seq<char>, ModuleScopedVariableV)>,
    ent: (IdentV, Seq<IdentV>),
) -> Result<Seq<(Seq<char>, ModuleScopedVariableV)>, AnalysisError> {
    if ent.1.len() == 0 {
        Ok(locals)
    } else if !seq_contains_key(locals, ent.0.name) {
        Err(AnalysisError::UnknownSymbol)
    } else {
        let cur = crate::table::seq_get(locals, ent.0.name);
        Ok(
            seq_set(
                locals,
                ent.0.name,
                ModuleScopedVariableV {
                    depend_on: Some(sorted_names(ent.1, ent.1.len() as int)),
                    import_from: cur.import_from,
                },
            ),
        )
    }
}

pub open spec fn merge_fold(
    locals: Seq<(Seq<char>, ModuleScopedVariableV)>,
    d: Seq<(IdentV, Seq<IdentV>)>,
    n: int,
) -> Result<Seq<(Seq<char>, ModuleScopedVariableV)>, AnalysisError>
    decreases n,
{
    if n <= 0 {
        Ok(locals)
    } else {
        match merge_fold(locals, d, n - 1) {
            Err(e) => Err(e),
            Ok(l1) => merge_entry(l1, d[n - 1]),
        }
    }
}

proof fn lemma_merge_fold_error(
    locals: Seq<(Seq<char>, ModuleScopedVariableV)>,
    d: Seq<(IdentV, Seq<IdentV>)>,
    n: int,
    m: int,
    e: AnalysisError,
)
    requires
        0 <= n <= m,
        merge_fold(locals, d, n) == Err::<Seq<(Seq<char>, ModuleScopedVariableV)>, AnalysisError>(
            e,
        ),
    ensures
        merge_fold(locals, d, m) == Err::<Seq<(Seq<char>, ModuleScopedVariableV)>, AnalysisError>(
            e,
        ),
    decreases m - n,
{
    if m > n {
        lemma_merge_fold_error(locals, d, n, m - 1, e);
    }
}

/// What the extractor computes, stated as three folds over the item list:
/// the symbol tables of pass 1, the reference table of pass 2, and the merge
/// of the two.
pub open spec fn extract_spec(items: Seq<ModuleItem>, path: Seq<char>) -> Result<
    SymbolDependencyV,
    AnalysisError,
> {
    match p1_fold_items(items, items.len() as int) {
        Err(e) => Err(e),
        Ok(st) => {
            let d = p2_fold_items(
                d_init(st.bound_ids, st.bound_ids.len() as int),
                items,
                items.len() as int,
            );
            match merge_fold(st.locals, d, d.len() as int) {
                Err(e) => Err(e),
                Ok(locals) => Ok(
                    SymbolDependencyV {
                        canonical_path: path,
                        local_variable_table: locals,
                        named_export_table: st.named,
                        default_export: st.default_export,
                        re_export_star_from: if st.stars.len() > 0 {
                            Some(st.stars)
                        } else {
                            None
                        },
                    },
                ),
            }
        }
    }
}

} // verus!

verus! {

/// Pass-2 reference table under construction.
struct P2State {
    deps: Vec<(Ident, Vec<Ident>)>,
}

impl P2State {
    spec fn view_spec(&self) -> Seq<(IdentV, Seq<IdentV>)> {
        deps_view(self.deps@)
    }

    /// Seed the table with every recorded binding.
    fn init(bound: &Vec<Ident>) -> (r: Self)
        ensures
            r.view_spec() == d_init(idents_view(bound@), bound@.len() as int),
    {
        let mut deps: Vec<(Ident, Vec<Ident>)> = Vec::new();
        let n = bound.len();
        proof {
            assert(deps_view(deps@) =~= d_init(idents_view(bound@), 0));
        }
        for i in 0..n
            invariant
                n == bound@.len(),
                deps_view(deps@) == d_init(idents_view(bound@), i as int),
        {
            let ghost pre = deps_view(deps@);
            let ghost depspre = deps@;
            let empty_refs: Vec<Ident> = Vec::new();
            deps.push((bound[i].duplicate(), empty_refs));
            proof {
                assert(deps_view(deps@) =~= pre.push(
                    (idents_view(bound@)[i as int], Seq::<IdentV>::empty()),
                )) by {
                    assert forall|j: int| 0 <= j < deps_view(deps@).len() implies deps_view(
                        deps@,
                    )[j] == pre.push(
                        (idents_view(bound@)[i as int], Seq::<IdentV>::empty()),
                    )[j] by {
                        if j < pre.len() {
                            assert(deps@[j] == depspre[j]);
                        } else {
                            assert(idents_view(deps@[j].1@) =~= Seq::<IdentV>::empty());
                            assert(idents_view(bound@)[i as int] == bound@[i as int].deep_view());
                        }
                    }
                }
            }
        }
        P2State { deps }
    }

    /// First index of `id` in the table, if any.
    fn find_index(&self, id: &Ident) -> (r: Option<usize>)
        ensures
            match r {
                Some(i) => i < self.view_spec().len() && self.view_spec()[i as int].0
                    == id.deep_view() && forall|j: int|
                    0 <= j < i ==> self.view_spec()[j].0 != id.deep_view(),
                None => !d_contains(self.view_spec(), id.deep_view()),
            },
    {
        let n = self.deps.len();
        for i in 0..n
            invariant
                n == self.deps@.len(),
                forall|j: int| 0 <= j < i ==> self.view_spec()[j].0 != id.deep_view(),
        {
            proof {
                assert(self.view_spec()[i as int].0 == self.deps@[i as int].0.deep_view());
            }
            if self.deps[i].0.same_as(id) {
                return Some(i);
            }
        }
        proof {
            if d_contains(self.view_spec(), id.deep_view()) {
                let j = choose|j: int|
                    0 <= j < self.view_spec().len() && self.view_spec()[j].0 == id.deep_view();
            }
        }
        None
    }

    /// Attribute one reference to the enclosing symbol.
    fn add_ref(&mut self, cur: &Ident, r: &Ident)
        ensures
            final(self).view_spec() == d_add_ref(
                old(self).view_spec(),
                cur.deep_view(),
                r.deep_view(),
            ),
    {
        let ghost d0 = self.view_spec();
        if r.same_as(cur) {
            return;
        }
        let ci = match self.find_index(cur) {
            Some(ci) => ci,
            None => {
                return;
            }
        };
        proof {
            assert(d_contains(d0, cur.deep_view()));
            lemma_d_index(d0, cur.deep_view());
            // the found index is the first, hence the spec index
            assert(d_index(d0, cur.deep_view()) == ci as int) by {
                let di = d_index(d0, cur.deep_view());
                if di < ci {
                    assert(d0[di].0 != cur.deep_view());
                } else if di > ci {
                    assert(d0[ci as int].0 != cur.deep_view());
                }
            }
        }
        if self.find_index(r).is_none() {
            proof {
                assert(self.view_spec() == d0);
                assert(!d_contains(d0, r.deep_view()));
                assert(d_add_ref(d0, cur.deep_view(), r.deep_view()) == d0);
            }
            return;
        }
        // scan the current reference list for a duplicate
        let m = self.deps[ci].1.len();
        let ghost refs0 = self.view_spec()[ci as int].1;
        for k in 0..m
            invariant
                ci < self.deps@.len(),
                m == self.deps@[ci as int].1@.len(),
                self.view_spec() == d0,
                refs0 == self.view_spec()[ci as int].1,
                d_contains(d0, cur.deep_view()),
                d_contains(d0, r.deep_view()),
                d_index(d0, cur.deep_view()) == ci as int,
                cur.deep_view() != r.deep_view(),
                forall|j: int| 0 <= j < k ==> refs0[j] != r.deep_view(),
        {
            proof {
                assert(refs0[k as int] == self.deps@[ci as int].1@[k as int].deep_view());
            }
            if self.deps[ci].1[k].same_as(r) {
                proof {
                    assert(refs0.contains(r.deep_view()));
                }
                return;
            }
        }
        proof {
            if refs0.contains(r.deep_view()) {
                let j = choose|j: int| 0 <= j < refs0.len() && refs0[j] == r.deep_view();
            }
        }
        let ghost deps0 = self.deps@;
        let entry = &mut self.deps[ci];
        entry.1.push(r.duplicate());
        proof {
            assert(self.deps@[ci as int].1@ == deps0[ci as int].1@.push(
                self.deps@[ci as int].1@[m as int],
            ));
            assert(self.deps@[ci as int].0 == deps0[ci as int].0);
            assert forall|j: int| 0 <= j < self.deps@.len() && j != ci implies self.deps@[j]
                == deps0[j] by {}
            assert(self.view_spec() =~= d0.update(
                ci as int,
                (cur.deep_view(), refs0.push(r.deep_view())),
            )) by {
                assert forall|j: int| 0 <= j < self.view_spec().len() implies self.view_spec()[j]
                    == d0.update(ci as int, (cur.deep_view(), refs0.push(r.deep_view())))[j] by {
                    if j == ci {
                        assert(idents_view(self.deps@[j].1@) =~= refs0.push(r.deep_view())) by {
                            assert forall|k: int|
                                0 <= k < idents_view(self.deps@[j].1@).len() implies idents_view(
                                self.deps@[j].1@,
                            )[k] == refs0.push(r.deep_view())[k] by {
                                if k < m {
                                    assert(self.deps@[j].1@[k] == deps0[j].1@[k]);
                                }
                            }
                        }
                        assert(self.deps@[j].0.deep_view() == cur.deep_view());
                    }
                }
            }
        }
    }

    /// All references of one enclosing symbol.
    fn add_refs(&mut self, cur: &Ident, refs: &Vec<Ident>)
        ensures
            final(self).view_spec() == d_fold_refs(
                old(self).view_spec(),
                cur.deep_view(),
                refs@,
                refs@.len() as int,
            ),
    {
        let ghost d0 = self.view_spec();
        let n = refs.len();
        for i in 0..n
            invariant
                n == refs@.len(),
                d0 == old(self).view_spec(),
                self.view_spec() == d_fold_refs(d0, cur.deep_view(), refs@, i as int),
        {
            self.add_ref(cur, &refs[i]);
        }
    }

    /// Enter (or reset) the anonymous default binding.
    fn anon_insert(&mut self)
        ensures
            final(self).view_spec() == d_anon_insert(old(self).view_spec()),
    {
        let ghost d0 = self.view_spec();
        let anon = Ident { name: anonymous_default_export_name(), scope: 0 };
        proof {
            assert(anon.deep_view() == anon_ident_spec());
        }
        match self.find_index(&anon) {
            Some(i) => {
                proof {
                    assert(d_index(d0, anon_ident_spec()) == i as int) by {
                        lemma_d_index(d0, anon_ident_spec());
                        let di = d_index(d0, anon_ident_spec());
                        if di < i {
                            assert(d0[di].0 != anon_ident_spec());
                        } else if di > i {
                            assert(d0[i as int].0 != anon_ident_spec());
                        }
                    }
                }
                let ghost deps0 = self.deps@;
                let empty_refs: Vec<Ident> = Vec::new();
                self.deps[i] = (anon, empty_refs);
                proof {
                    assert(self.view_spec() =~= d0.update(
                        i as int,
                        (anon_ident_spec(), Seq::<IdentV>::empty()),
                    )) by {
                        assert forall|j: int|
                            0 <= j < self.view_spec().len() implies self.view_spec()[j]
                            == d0.update(
                            i as int,
                            (anon_ident_spec(), Seq::<IdentV>::empty()),
                        )[j] by {
                            if j != i {
                                assert(self.deps@[j] == deps0[j]);
                            } else {
                                assert(idents_view(self.deps@[j].1@) =~= Seq::<IdentV>::empty());
                            }
                        }
                    }
                }
            }
            None => {
                let ghost deps0 = self.deps@;
                let empty_refs: Vec<Ident> = Vec::new();
                self.deps.push((anon, empty_refs));
                proof {
                    assert(self.view_spec() =~= d0.push(
                        (anon_ident_spec(), Seq::<IdentV>::empty()),
                    )) by {
                        assert forall|j: int|
                            0 <= j < self.view_spec().len() implies self.view_spec()[j] == d0.push(
                            (anon_ident_spec(), Seq::<IdentV>::empty()),
                        )[j] by {
                            if j < d0.len() {
                                assert(self.deps@[j] == deps0[j]);
                            } else {
                                assert(idents_view(self.deps@[j].1@) =~= Seq::<IdentV>::empty());
                            }
                        }
                    }
                }
            }
        }
    }

    /// Pass 2 for one top-level item.
    fn run_item(&mut self, item: &ModuleItem)
        ensures
            final(self).view_spec() == p2_item(old(self).view_spec(), *item),
    {
        let ghost d0 = self.view_spec();
        match item {
            ModuleItem::Decl { bindings, exported } => {
                let n = bindings.len();
                for i in 0..n
                    invariant
                        n == bindings@.len(),
                        d0 == old(self).view_spec(),
                        self.view_spec() == p2_fold_bindings(d0, bindings@, i as int),
                {
                    let b = &bindings[i];
                    self.add_refs(&b.ident, &b.refs);
                }
            }
            ModuleItem::DefaultExportDecl { ident, refs } => match ident {
                Some(id) => {
                    self.add_refs(id, refs);
                }
                None => {
                    self.anon_insert();
                    let anon = Ident { name: anonymous_default_export_name(), scope: 0 };
                    proof {
                        assert(anon.deep_view() == anon_ident_spec());
                    }
                    self.add_refs(&anon, refs);
                }
            },
            ModuleItem::DefaultExportExpr { expr } => match expr {
                DefaultExpr::Array(refs) => {
                    self.anon_insert();
                    let anon = Ident { name: anonymous_default_export_name(), scope: 0 };
                    proof {
                        assert(anon.deep_view() == anon_ident_spec());
                    }
                    self.add_refs(&anon, refs);
                }
                DefaultExpr::ObjectLit(refs) => {
                    self.anon_insert();
                    let anon = Ident { name: anonymous_default_export_name(), scope: 0 };
                    proof {
                        assert(anon.deep_view() == anon_ident_spec());
                    }
                    self.add_refs(&anon, refs);
                }
                _ => {}
            },
            _ => {}
        }
    }
}

} // verus!

verus! {

/// The names of the given identifiers, sorted and deduplicated.
fn sorted_names_exec(refs: &Vec<Ident>) -> (r: Vec<String>)
    ensures
        r.deep_view() == sorted_names(idents_view(refs@), refs@.len() as int),
        crate::strorder::strictly_sorted(r.deep_view()),
{
    let mut out: Vec<String> = Vec::new();
    let n = refs.len();
    proof {
        assert(out.deep_view() =~= sorted_names(idents_view(refs@), 0));
    }
    for i in 0..n
        invariant
            n == refs@.len(),
            out.deep_view() == sorted_names(idents_view(refs@), i as int),
            crate::strorder::strictly_sorted(out.deep_view()),
    {
        proof {
            crate::strorder::lemma_ins_sorted(out.deep_view(), refs@[i as int].name@);
            assert(idents_view(refs@)[i as int] == refs@[i as int].deep_view());
        }
        crate::strorder::insert_sorted_exec(&mut out, refs[i].name.clone());
    }
    out
}

/// Duplicate an optional import source.
fn dup_import_from(v: &Option<FromOtherModule>) -> (r: Option<FromOtherModule>)
    ensures
        match (r, v) {
            (Some(a), Some(b)) => a.deep_view() == b.deep_view(),
            (None, None) => true,
            _ => false,
        },
{
    match v {
        Some(f) => Some(f.duplicate()),
        None => None,
    }
}

/// Write the pass-2 reference lists into the local table.
fn merge_deps(
    locals: &mut StrTable<ModuleScopedVariable>,
    deps: &P2State,
) -> (r: Result<(), AnalysisError>)
    requires
        old(locals).wf(),
    ensures
        final(locals).wf(),
        match r {
            Ok(_) => merge_fold(old(locals)@, deps.view_spec(), deps.view_spec().len() as int)
                == Ok::<Seq<(Seq<char>, ModuleScopedVariableV)>, AnalysisError>(final(locals)@),
            Err(e) => merge_fold(old(locals)@, deps.view_spec(), deps.view_spec().len() as int)
                == Err::<Seq<(Seq<char>, ModuleScopedVariableV)>, AnalysisError>(e),
        },
{
    let ghost l0 = locals@;
    let ghost d = deps.view_spec();
    let n = deps.deps.len();
    proof {
        assert(d.len() == n);
    }
    for k in 0..n
        invariant
            n == deps.deps@.len(),
            n == d.len(),
            d == deps.view_spec(),
            l0 == old(locals)@,
            locals.wf(),
            merge_fold(l0, d, k as int) == Ok::<
                Seq<(Seq<char>, ModuleScopedVariableV)>,
                AnalysisError,
            >(locals@),
    {
        let ghost pre = locals@;
        proof {
            assert(d[k as int] == (
                deps.deps@[k as int].0.deep_view(),
                idents_view(deps.deps@[k as int].1@),
            ));
        }
        let entry = &deps.deps[k];
        if entry.1.len() > 0 {
            let name = &entry.0.name;
            match locals.get(name) {
                None => {
                    proof {
                        assert(merge_entry(pre, d[k as int]) == Err::<
                            Seq<(Seq<char>, ModuleScopedVariableV)>,
                            AnalysisError,
                        >(AnalysisError::UnknownSymbol));
                        lemma_merge_fold_error(l0, d, k + 1, n as int, AnalysisError::UnknownSymbol);
                    }
                    return Err(AnalysisError::UnknownSymbol);
                }
                Some(cur) => {
                    let import_from = dup_import_from(&cur.import_from);
                    let depend_on = sorted_names_exec(&entry.1);
                    proof {
                        assert(idents_view(entry.1@) == d[k as int].1);
                        assert(depend_on.deep_view() == sorted_names(
                            d[k as int].1,
                            d[k as int].1.len() as int,
                        ));
                    }
                    let newv = ModuleScopedVariable {
                        depend_on: Some(depend_on),
                        import_from,
                    };
                    locals.set(name.clone(), newv);
                    proof {
                        assert(merge_entry(pre, d[k as int]) == Ok::<
                            Seq<(Seq<char>, ModuleScopedVariableV)>,
                            AnalysisError,
                        >(locals@));
                    }
                }
            }
        }
    }
    Ok(())
}

/// Extract one module's `SymbolDependency` from its top-level items.
///
/// The result is exactly the value of the spec-level folds: pass 1 builds
/// the symbol tables, pass 2 collects intra-module references, and the merge
/// turns them into sorted, duplicate-free `depend_on` lists. Errors are
/// reported if and only if the folds report them: a lexical binding
/// introduced twice, a name exported twice, or a second default export.
pub fn collect_symbol_dependency(items: &Vec<ModuleItem>, src_path: &String) -> (r: Result<
    SymbolDependency,
    AnalysisError,
>)
    ensures
        match r {
            Ok(sd) => extract_spec(items@, src_path@) == Ok::<
                SymbolDependencyV,
                AnalysisError,
            >(sd.deep_view()) && sd.wf(),
            Err(e) => extract_spec(items@, src_path@) == Err::<
                SymbolDependencyV,
                AnalysisError,
            >(e),
        },
{
    let n = items.len();
    // pass 1: symbol tables
    let mut st = P1State::new();
    for i in 0..n
        invariant
            n == items@.len(),
            st.inv(),
            p1_fold_items(items@, i as int) == Ok::<P1V, AnalysisError>(st.view_spec()),
    {
        let ghost pre = st.view_spec();
        match st.run_item(&items[i]) {
            Ok(_) => {}
            Err(e) => {
                proof {
                    assert(p1_fold_items(items@, i + 1) == Err::<P1V, AnalysisError>(e));
                    lemma_p1_error_persists(items@, i + 1, n as int, e);
                }
                return Err(e);
            }
        }
    }
    let ghost p1v = st.view_spec();
    // pass 2: reference table
    let mut deps = P2State::init(&st.bound_ids);
    proof {
        assert(idents_view(st.bound_ids@) == p1v.bound_ids);
    }
    let ghost d0 = deps.view_spec();
    for i in 0..n
        invariant
            n == items@.len(),
            d0 == d_init(p1v.bound_ids, p1v.bound_ids.len() as int),
            deps.view_spec() == p2_fold_items(d0, items@, i as int),
    {
        deps.run_item(&items[i]);
    }
    let ghost d = deps.view_spec();
    // merge
    let P1State { mut locals, named, default_export, stars, bound_ids } = st;
    proof {
        assert(locals@ == p1v.locals);
        assert(locals.wf());
    }
    match merge_deps(&mut locals, &deps) {
        Ok(_) => {}
        Err(e) => {
            return Err(e);
        }
    }
    let re_export_star_from = if stars.len() > 0 {
        Some(stars)
    } else {
        None
    };
    let sd = SymbolDependency {
        canonical_path: src_path.clone(),
        local_variable_table: locals,
        named_export_table: named,
        default_export,
        re_export_star_from,
    };
    proof {
        assert(sd.deep_view() == extract_spec(items@, src_path@).unwrap());
    }
    Ok(sd)
}

} // verus!

verus! {

/// Every local's `depend_on` in the table is absent.
pub open spec fn locals_dep_none(locals: Seq<(Seq<char>, ModuleScopedVariableV)>) -> bool {
    forall|i: int| 0 <= i < locals.len() ==> (#[trigger] locals[i]).1.depend_on is None
}

proof fn lemma_seq_set_dep_none(
    locals: Seq<(Seq<char>, ModuleScopedVariableV)>,
    k: Seq<char>,
    v: ModuleScopedVariableV,
)
    requires
        locals_dep_none(locals),
        v.depend_on is None,
    ensures
        locals_dep_none(seq_set(locals, k, v)),
{
    let r = seq_set(locals, k, v);
    assert forall|i: int| 0 <= i < r.len() implies (#[trigger] r[i]).1.depend_on is None by {
        if seq_contains_key(locals, k) {
            crate::table::lemma_key_index(locals, k);
            if i != crate::table::seq_key_index(locals, k) {
                assert(r[i] == locals[i]);
            } else {
                assert(r[i].1 == v);
            }
        } else {
            if i < locals.len() {
                assert(r[i] == locals[i]);
            }
        }
    }
}

proof fn lemma_p1_track_none(st: P1V, id: IdentV)
    requires
        locals_dep_none(st.locals),
        p1_track(st, id) is Ok,
    ensures
        locals_dep_none(p1_track(st, id).unwrap().locals),
{
}

proof fn lemma_fold_import_none(st: P1V, src: Seq<char>, sps: Seq<ImportSpec>, n: int)
    requires
        locals_dep_none(st.locals),
        p1_fold_import(st, src, sps, n) is Ok,
    ensures
        locals_dep_none(p1_fold_import(st, src, sps, n).unwrap().locals),
    decreases n,
{
    if n > 0 {
        let prev = p1_fold_import(st, src, sps, n - 1);
        assert(prev is Ok);
        lemma_fold_import_none(st, src, sps, n - 1);
        let st1 = prev.unwrap();
        match sps[n - 1] {
            ImportSpec::Named { local, imported } => {
                lemma_seq_set_dep_none(
                    p1_track(st1, local.deep_view()).unwrap().locals,
                    local.name@,
                    match imported {
                        Some(orig) => if orig@ == "default"@ {
                            import_msv(src, FromTypeV::Default)
                        } else {
                            import_msv(src, FromTypeV::Named(orig@))
                        },
                        None => import_msv(src, FromTypeV::Named(local.name@)),
                    },
                );
            }
            ImportSpec::NamedStr { .. } => {}
            ImportSpec::Default { local } => {
                lemma_seq_set_dep_none(
                    p1_track(st1, local.deep_view()).unwrap().locals,
                    local.name@,
                    import_msv(src, FromTypeV::Default),
                );
            }
            ImportSpec::Namespace { local } => {
                lemma_seq_set_dep_none(
                    p1_track(st1, local.deep_view()).unwrap().locals,
                    local.name@,
                    import_msv(src, FromTypeV::Namespace),
                );
            }
        }
    }
}

proof fn lemma_fold_bindings_none(st: P1V, bs: Seq<Binding>, exported: bool, n: int)
    requires
        locals_dep_none(st.locals),
        p1_fold_bindings(st, bs, exported, n) is Ok,
    ensures
        locals_dep_none(p1_fold_bindings(st, bs, exported, n).unwrap().locals),
    decreases n,
{
    if n > 0 {
        let prev = p1_fold_bindings(st, bs, exported, n - 1);
        assert(prev is Ok);
        lemma_fold_bindings_none(st, bs, exported, n - 1);
        let st1 = prev.unwrap();
        let b = bs[n - 1];
        lemma_seq_set_dep_none(
            p1_track(st1, b.ident.deep_view()).unwrap().locals,
            b.ident.name@,
            plain_msv(),
        );
    }
}

proof fn lemma_fold_export_from_none(st: P1V, src: Seq<char>, sps: Seq<ExportSpec>, n: int)
    requires
        locals_dep_none(st.locals),
        p1_fold_export_from(st, src, sps, n) is Ok,
    ensures
        locals_dep_none(p1_fold_export_from(st, src, sps, n).unwrap().locals),
    decreases n,
{
    if n > 0 {
        assert(p1_fold_export_from(st, src, sps, n - 1) is Ok);
        lemma_fold_export_from_none(st, src, sps, n - 1);
    }
}

proof fn lemma_fold_export_list_none(st: P1V, sps: Seq<ExportSpec>, n: int)
    requires
        locals_dep_none(st.locals),
        p1_fold_export_list(st, sps, n) is Ok,
    ensures
        locals_dep_none(p1_fold_export_list(st, sps, n).unwrap().locals),
    decreases n,
{
    if n > 0 {
        assert(p1_fold_export_list(st, sps, n - 1) is Ok);
        lemma_fold_export_list_none(st, sps, n - 1);
    }
}

proof fn lemma_p1_item_none(st: P1V, item: ModuleItem)
    requires
        locals_dep_none(st.locals),
        p1_item(st, item) is Ok,
    ensures
        locals_dep_none(p1_item(st, item).unwrap().locals),
{
    match item {
        ModuleItem::Import { src, specifiers } => {
            lemma_fold_import_none(st, src@, specifiers@, specifiers@.len() as int);
        }
        ModuleItem::Decl { bindings, exported } => {
            lemma_fold_bindings_none(st, bindings@, exported, bindings@.len() as int);
        }
        ModuleItem::NamedExportList { specifiers } => {
            lemma_fold_export_list_none(st, specifiers@, specifiers@.len() as int);
        }
        ModuleItem::NamedExportFrom { src, specifiers } => {
            lemma_fold_export_from_none(st, src@, specifiers@, specifiers@.len() as int);
        }
        ModuleItem::DefaultExportDecl { ident, refs } => {
            match ident {
                Some(id) => {
                    lemma_seq_set_dep_none(
                        p1_track(st, id.deep_view()).unwrap().locals,
                        id.name@,
                        plain_msv(),
                    );
                }
                None => {
                    lemma_seq_set_dep_none(st.locals, anonymous_default_export_spec(), plain_msv());
                }
            }
        }
        ModuleItem::DefaultExportExpr { expr } => {
            match expr {
                DefaultExpr::Ident(_) => {}
                DefaultExpr::Array(_) | DefaultExpr::ObjectLit(_) | DefaultExpr::Arrow => {
                    lemma_seq_set_dep_none(st.locals, anonymous_default_export_spec(), plain_msv());
                }
                DefaultExpr::Other => {}
            }
        }
        _ => {}
    }
}

proof fn lemma_p1_fold_none(items: Seq<ModuleItem>, n: int)
    requires
        0 <= n,
        p1_fold_items(items, n) is Ok,
    ensures
        locals_dep_none(p1_fold_items(items, n).unwrap().locals),
    decreases n,
{
    if n > 0 {
        assert(p1_fold_items(items, n - 1) is Ok);
        lemma_p1_fold_none(items, n - 1);
        lemma_p1_item_none(p1_fold_items(items, n - 1).unwrap(), items[n - 1]);
    }
}

/// `sorted_names` really is strictly sorted.
proof fn lemma_sorted_names_sorted(refs: Seq<IdentV>, n: int)
    ensures
        crate::strorder::strictly_sorted(sorted_names(refs, n)),
    decreases n,
{
    if n <= 0 {
    } else {
        lemma_sorted_names_sorted(refs, n - 1);
        crate::strorder::lemma_ins_sorted(sorted_names(refs, n - 1), refs[n - 1].name);
    }
}

/// Every entry of the table is `None` or strictly sorted.
pub open spec fn locals_dep_sorted(locals: Seq<(Seq<char>, ModuleScopedVariableV)>) -> bool {
    forall|i: int|
        0 <= i < locals.len() ==> match (#[trigger] locals[i]).1.depend_on {
            Some(d) => crate::strorder::strictly_sorted(d),
            None => true,
        }
}

proof fn lemma_merge_fold_sorted(
    locals: Seq<(Seq<char>, ModuleScopedVariableV)>,
    d: Seq<(IdentV, Seq<IdentV>)>,
    n: int,
)
    requires
        locals_dep_sorted(locals),
        merge_fold(locals, d, n) is Ok,
    ensures
        locals_dep_sorted(merge_fold(locals, d, n).unwrap()),
    decreases n,
{
    if n > 0 {
        assert(merge_fold(locals, d, n - 1) is Ok);
        lemma_merge_fold_sorted(locals, d, n - 1);
        let l1 = merge_fold(locals, d, n - 1).unwrap();
        let ent = d[n - 1];
        if ent.1.len() == 0 {
        } else {
            lemma_sorted_names_sorted(ent.1, ent.1.len() as int);
            assert(seq_contains_key(l1, ent.0.name));
            crate::table::lemma_key_index(l1, ent.0.name);
            let newv = ModuleScopedVariableV {
                depend_on: Some(sorted_names(ent.1, ent.1.len() as int)),
                import_from: crate::table::seq_get(l1, ent.0.name).import_from,
            };
            let r = seq_set(l1, ent.0.name, newv);
            assert forall|i: int| 0 <= i < r.len() implies match (#[trigger] r[i]).1.depend_on {
                Some(dd) => crate::strorder::strictly_sorted(dd),
                None => true,
            } by {
                if seq_contains_key(l1, ent.0.name) {
                    if i != crate::table::seq_key_index(l1, ent.0.name) {
                        assert(r[i] == l1[i]);
                    } else {
                        assert(r[i].1 == newv);
                    }
                } else {
                    if i < l1.len() {
                        assert(r[i] == l1[i]);
                    } else {
                        assert(r[i].1 == newv);
                    }
                }
            }
        }
    }
}

/// Every `depend_on` list the extractor produces is strictly sorted, and a
/// strictly sorted list has no duplicates.
pub proof fn lemma_depend_on_lists_sorted(
    items: Seq<ModuleItem>,
    path: Seq<char>,
    sd: SymbolDependencyV,
)
    requires
        extract_spec(items, path) == Ok::<SymbolDependencyV, AnalysisError>(sd),
    ensures
        locals_dep_sorted(sd.local_variable_table),
        forall|i: int|
            0 <= i < sd.local_variable_table.len() ==> match (#[trigger] sd.local_variable_table[i]).1.depend_on {
                Some(d) => forall|a: int, b: int| 0 <= a < b < d.len() ==> d[a] != d[b],
                None => true,
            },
{
    let st = p1_fold_items(items, items.len() as int).unwrap();
    lemma_p1_fold_none(items, items.len() as int);
    assert(locals_dep_sorted(st.locals));
    let d = p2_fold_items(
        d_init(st.bound_ids, st.bound_ids.len() as int),
        items,
        items.len() as int,
    );
    lemma_merge_fold_sorted(st.locals, d, d.len() as int);
    assert forall|i: int|
        0 <= i < sd.local_variable_table.len() implies match (#[trigger] sd.local_variable_table[i]).1.depend_on {
        Some(dd) => forall|a: int, b: int| 0 <= a < b < dd.len() ==> dd[a] != dd[b],
        None => true,
    } by {
        match sd.local_variable_table[i].1.depend_on {
            Some(dd) => {
                assert(crate::strorder::strictly_sorted(dd));
                crate::strorder::lemma_strictly_sorted_pairwise(dd);
                assert forall|a: int, b: int| 0 <= a < b < dd.len() implies dd[a] != dd[b] by {
                    assert(crate::strorder::str_lt(dd[a], dd[b]));
                    crate::strorder::lemma_str_lt_irrefl(dd[a]);
                }
            }
            None => {}
        }
    }
}

} // verus!

verus! {

/// Keys survive `seq_set`, and the set key is present afterwards.
proof fn lemma_seq_set_keys<T>(s: Seq<(Seq<char>, T)>, k: Seq<char>, v: T)
    ensures
        forall|k2: Seq<char>|
            seq_contains_key(s, k2) ==> #[trigger] seq_contains_key(seq_set(s, k, v), k2),
        seq_contains_key(seq_set(s, k, v), k),
{
    let r = seq_set(s, k, v);
    if seq_contains_key(s, k) {
        crate::table::lemma_key_index(s, k);
        let i = crate::table::seq_key_index(s, k);
        assert(r[i].0 == k);
        assert forall|k2: Seq<char>|
            seq_contains_key(s, k2) implies #[trigger] seq_contains_key(r, k2) by {
            let j = choose|j: int| 0 <= j < s.len() && s[j].0 == k2;
            if j == i {
                assert(r[i].0 == k && k == k2);
            } else {
                assert(r[j].0 == k2);
            }
        }
    } else {
        assert(r[s.len() as int].0 == k);
        assert forall|k2: Seq<char>|
            seq_contains_key(s, k2) implies #[trigger] seq_contains_key(r, k2) by {
            let j = choose|j: int| 0 <= j < s.len() && s[j].0 == k2;
            assert(r[j].0 == k2);
        }
    }
}

/// Every recorded binding's name is a key of the local table.
pub open spec fn p1_nc(st: P1V) -> bool {
    forall|i: int|
        0 <= i < st.bound_ids.len() ==> seq_contains_key(
            st.locals,
            (#[trigger] st.bound_ids[i]).name,
        )
}

/// Local-table keys only grow from `st0` to `st1`.
pub open spec fn keys_grow(st0: P1V, st1: P1V) -> bool {
    forall|k: Seq<char>|
        seq_contains_key(st0.locals, k) ==> #[trigger] seq_contains_key(st1.locals, k)
}

proof fn lemma_track_local_nc(st: P1V, id: IdentV, v: ModuleScopedVariableV)
    requires
        p1_nc(st),
        p1_track_local(st, id, v) is Ok,
    ensures
        p1_nc(p1_track_local(st, id, v).unwrap()),
        keys_grow(st, p1_track_local(st, id, v).unwrap()),
{
    let st1 = p1_track_local(st, id, v).unwrap();
    lemma_seq_set_keys(st.locals, id.name, v);
    assert forall|i: int|
        0 <= i < st1.bound_ids.len() implies seq_contains_key(
        st1.locals,
        (#[trigger] st1.bound_ids[i]).name,
    ) by {
        if i < st.bound_ids.len() {
            assert(st1.bound_ids[i] == st.bound_ids[i]);
            assert(seq_contains_key(st.locals, st.bound_ids[i].name));
        } else {
            assert(st1.bound_ids[i] == id);
        }
    }
}

proof fn lemma_fold_import_nc(st: P1V, src: Seq<char>, sps: Seq<ImportSpec>, n: int)
    requires
        p1_nc(st),
        p1_fold_import(st, src, sps, n) is Ok,
    ensures
        p1_nc(p1_fold_import(st, src, sps, n).unwrap()),
        keys_grow(st, p1_fold_import(st, src, sps, n).unwrap()),
    decreases n,
{
    if n > 0 {
        assert(p1_fold_import(st, src, sps, n - 1) is Ok);
        lemma_fold_import_nc(st, src, sps, n - 1);
        let st1 = p1_fold_import(st, src, sps, n - 1).unwrap();
        match sps[n - 1] {
            ImportSpec::Named { local, imported } => {
                lemma_track_local_nc(
                    st1,
                    local.deep_view(),
                    match imported {
                        Some(orig) => if orig@ == "default"@ {
                            import_msv(src, FromTypeV::Default)
                        } else {
                            import_msv(src, FromTypeV::Named(orig@))
                        },
                        None => import_msv(src, FromTypeV::Named(local.name@)),
                    },
                );
            }
            ImportSpec::NamedStr { .. } => {}
            ImportSpec::Default { local } => {
                lemma_track_local_nc(st1, local.deep_view(), import_msv(src, FromTypeV::Default));
            }
            ImportSpec::Namespace { local } => {
                lemma_track_local_nc(
                    st1,
                    local.deep_view(),
                    import_msv(src, FromTypeV::Namespace),
                );
            }
        }
    }
}

proof fn lemma_fold_bindings_nc(st: P1V, bs: Seq<Binding>, exported: bool, n: int)
    requires
        p1_nc(st),
        p1_fold_bindings(st, bs, exported, n) is Ok,
    ensures
        p1_nc(p1_fold_bindings(st, bs, exported, n).unwrap()),
        keys_grow(st, p1_fold_bindings(st, bs, exported, n).unwrap()),
    decreases n,
{
    if n > 0 {
        assert(p1_fold_bindings(st, bs, exported, n - 1) is Ok);
        lemma_fold_bindings_nc(st, bs, exported, n - 1);
        let st1 = p1_fold_bindings(st, bs, exported, n - 1).unwrap();
        lemma_track_local_nc(st1, bs[n - 1].ident.deep_view(), plain_msv());
    }
}

proof fn lemma_fold_export_from_nc(st: P1V, src: Seq<char>, sps: Seq<ExportSpec>, n: int)
    requires
        p1_nc(st),
        p1_fold_export_from(st, src, sps, n) is Ok,
    ensures
        p1_nc(p1_fold_export_from(st, src, sps, n).unwrap()),
        keys_grow(st, p1_fold_export_from(st, src, sps, n).unwrap()),
    decreases n,
{
    if n > 0 {
        assert(p1_fold_export_from(st, src, sps, n - 1) is Ok);
        lemma_fold_export_from_nc(st, src, sps, n - 1);
    }
}

proof fn lemma_fold_export_list_nc(st: P1V, sps: Seq<ExportSpec>, n: int)
    requires
        p1_nc(st),
        p1_fold_export_list(st, sps, n) is Ok,
    ensures
        p1_nc(p1_fold_export_list(st, sps, n).unwrap()),
        keys_grow(st, p1_fold_export_list(st, sps, n).unwrap()),
    decreases n,
{
    if n > 0 {
        assert(p1_fold_export_list(st, sps, n - 1) is Ok);
        lemma_fold_export_list_nc(st, sps, n - 1);
    }
}

proof fn lemma_p1_item_nc(st: P1V, item: ModuleItem)
    requires
        p1_nc(st),
        p1_item(st, item) is Ok,
    ensures
        p1_nc(p1_item(st, item).unwrap()),
        keys_grow(st, p1_item(st, item).unwrap()),
{
    match item {
        ModuleItem::Import { src, specifiers } => {
            lemma_fold_import_nc(st, src@, specifiers@, specifiers@.len() as int);
        }
        ModuleItem::Decl { bindings, exported } => {
            lemma_fold_bindings_nc(st, bindings@, exported, bindings@.len() as int);
        }
        ModuleItem::NamedExportList { specifiers } => {
            lemma_fold_export_list_nc(st, specifiers@, specifiers@.len() as int);
        }
        ModuleItem::NamedExportFrom { src, specifiers } => {
            lemma_fold_export_from_nc(st, src@, specifiers@, specifiers@.len() as int);
        }
        ModuleItem::DefaultExportDecl { ident, refs } => match ident {
            Some(id) => {
                lemma_track_local_nc(st, id.deep_view(), plain_msv());
            }
            None => {
                lemma_seq_set_keys(st.locals, anonymous_default_export_spec(), plain_msv());
            }
        },
        ModuleItem::DefaultExportExpr { expr } => match expr {
            DefaultExpr::Ident(_) => {}
            DefaultExpr::Array(_) | DefaultExpr::ObjectLit(_) | DefaultExpr::Arrow => {
                lemma_seq_set_keys(st.locals, anonymous_default_export_spec(), plain_msv());
            }
            DefaultExpr::Other => {}
        },
        _ => {}
    }
}

proof fn lemma_p1_fold_nc(items: Seq<ModuleItem>, n: int)
    requires
        0 <= n,
        p1_fold_items(items, n) is Ok,
    ensures
        p1_nc(p1_fold_items(items, n).unwrap()),
    decreases n,
{
    if n > 0 {
        assert(p1_fold_items(items, n - 1) is Ok);
        lemma_p1_fold_nc(items, n - 1);
        lemma_p1_item_nc(p1_fold_items(items, n - 1).unwrap(), items[n - 1]);
    }
}

} // verus!

verus! {

proof fn lemma_p1_prefix_ok(items: Seq<ModuleItem>, m: int, n: int)
    requires
        0 <= m <= n,
        p1_fold_items(items, n) is Ok,
    ensures
        p1_fold_items(items, m) is Ok,
{
    match p1_fold_items(items, m) {
        Ok(_) => {}
        Err(e) => {
            lemma_p1_error_persists(items, m, n, e);
        }
    }
}

/// The item kinds that enter the anonymous default binding in pass 2.
pub open spec fn item_anon(item: ModuleItem) -> bool {
    match item {
        ModuleItem::DefaultExportDecl { ident, refs } => ident is None,
        ModuleItem::DefaultExportExpr { expr } => match expr {
            DefaultExpr::Array(_) => true,
            DefaultExpr::ObjectLit(_) => true,
            _ => false,
        },
        _ => false,
    }
}

proof fn lemma_p1_item_anon(st: P1V, item: ModuleItem)
    requires
        item_anon(item),
        p1_item(st, item) is Ok,
    ensures
        seq_contains_key(p1_item(st, item).unwrap().locals, anonymous_default_export_spec()),
{
    lemma_seq_set_keys(st.locals, anonymous_default_export_spec(), plain_msv());
}

proof fn lemma_p1_fold_anon(items: Seq<ModuleItem>, k: int, n: int)
    requires
        0 <= k < n,
        item_anon(items[k]),
        p1_fold_items(items, n) is Ok,
    ensures
        seq_contains_key(
            p1_fold_items(items, n).unwrap().locals,
            anonymous_default_export_spec(),
        ),
    decreases n,
{
    lemma_p1_prefix_ok(items, n - 1, n);
    let prev = p1_fold_items(items, n - 1).unwrap();
    if k == n - 1 {
        lemma_p1_item_anon(prev, items[n - 1]);
    } else {
        lemma_p1_fold_anon(items, k, n - 1);
        lemma_p1_fold_nc(items, n - 1);
        lemma_p1_item_nc(prev, items[n - 1]);
    }
}

proof fn lemma_d_init_keys(ids: Seq<IdentV>, n: int)
    requires
        0 <= n <= ids.len(),
    ensures
        d_init(ids, n).len() == n,
        forall|i: int| 0 <= i < n ==> (#[trigger] d_init(ids, n)[i]).0 == ids[i],
        forall|i: int| 0 <= i < n ==> (#[trigger] d_init(ids, n)[i]).1 =~= Seq::<IdentV>::empty(),
    decreases n,
{
    if n > 0 {
        lemma_d_init_keys(ids, n - 1);
    }
}

/// `d_add_ref` keeps the keys in place.
proof fn lemma_d_add_ref_keys(d: Seq<(IdentV, Seq<IdentV>)>, cur: IdentV, r: IdentV)
    ensures
        d_add_ref(d, cur, r).len() == d.len(),
        forall|i: int| 0 <= i < d.len() ==> (#[trigger] d_add_ref(d, cur, r)[i]).0 == d[i].0,
{
    if !(r == cur || !d_contains(d, cur) || !d_contains(d, r)) {
        lemma_d_index(d, cur);
    }
}

/// Every reference recorded in some list is itself a key of the table.
pub open spec fn d_closed(d: Seq<(IdentV, Seq<IdentV>)>) -> bool {
    forall|i: int, e: int|
        0 <= i < d.len() && 0 <= e < (#[trigger] d[i]).1.len() ==> d_contains(d, #[trigger] d[i].1[e])
}

proof fn lemma_d_add_ref_closed(d: Seq<(IdentV, Seq<IdentV>)>, cur: IdentV, r: IdentV)
    requires
        d_closed(d),
    ensures
        d_closed(d_add_ref(d, cur, r)),
{
    let d1 = d_add_ref(d, cur, r);
    lemma_d_add_ref_keys(d, cur, r);
    assert forall|k2: IdentV| d_contains(d, k2) implies d_contains(d1, k2) by {
        let j = choose|j: int| 0 <= j < d.len() && d[j].0 == k2;
        assert(d1[j].0 == k2);
    }
    if !(r == cur || !d_contains(d, cur) || !d_contains(d, r)) {
        lemma_d_index(d, cur);
        let ci = d_index(d, cur);
        if !d[ci].1.contains(r) {
            assert forall|i: int, e: int|
                0 <= i < d1.len() && 0 <= e < (#[trigger] d1[i]).1.len() implies d_contains(
                d1,
                #[trigger] d1[i].1[e],
            ) by {
                if i != ci {
                    assert(d1[i] == d[i]);
                    assert(d_contains(d, d[i].1[e]));
                } else {
                    assert(d1[i].1 == d[ci].1.push(r));
                    if e < d[ci].1.len() {
                        assert(d1[i].1[e] == d[ci].1[e]);
                        assert(d_contains(d, d[ci].1[e]));
                    } else {
                        assert(d1[i].1[e] == r);
                        assert(d_contains(d, r));
                    }
                }
            }
        }
    }
}

proof fn lemma_d_fold_refs_keys_closed(
    d: Seq<(IdentV, Seq<IdentV>)>,
    cur: IdentV,
    refs: Seq<Ident>,
    n: int,
)
    requires
        d_closed(d),
    ensures
        d_closed(d_fold_refs(d, cur, refs, n)),
        d_fold_refs(d, cur, refs, n).len() == d.len(),
        forall|i: int|
            0 <= i < d.len() ==> (#[trigger] d_fold_refs(d, cur, refs, n)[i]).0 == d[i].0,
    decreases n,
{
    if n > 0 {
        lemma_d_fold_refs_keys_closed(d, cur, refs, n - 1);
        let d1 = d_fold_refs(d, cur, refs, n - 1);
        lemma_d_add_ref_closed(d1, cur, refs[n - 1].deep_view());
        lemma_d_add_ref_keys(d1, cur, refs[n - 1].deep_view());
    }
}

proof fn lemma_p2_bindings_keys_closed(d: Seq<(IdentV, Seq<IdentV>)>, bs: Seq<Binding>, n: int)
    requires
        d_closed(d),
    ensures
        d_closed(p2_fold_bindings(d, bs, n)),
        p2_fold_bindings(d, bs, n).len() == d.len(),
        forall|i: int| 0 <= i < d.len() ==> (#[trigger] p2_fold_bindings(d, bs, n)[i]).0 == d[i].0,
    decreases n,
{
    if n > 0 {
        lemma_p2_bindings_keys_closed(d, bs, n - 1);
        let d1 = p2_fold_bindings(d, bs, n - 1);
        let b = bs[n - 1];
        lemma_d_fold_refs_keys_closed(d1, b.ident.deep_view(), b.refs@, b.refs@.len() as int);
    }
}

proof fn lemma_d_anon_insert_keys_closed(d: Seq<(IdentV, Seq<IdentV>)>)
    requires
        d_closed(d),
    ensures
        d_closed(d_anon_insert(d)),
        forall|i: int|
            0 <= i < d_anon_insert(d).len() ==> (#[trigger] d_anon_insert(d)[i]).0 == anon_ident_spec()
                || exists|j: int| 0 <= j < d.len() && d_anon_insert(d)[i].0 == (#[trigger] d[j]).0,
{
    let d1 = d_anon_insert(d);
    if d_contains(d, anon_ident_spec()) {
        lemma_d_index(d, anon_ident_spec());
        let ai = d_index(d, anon_ident_spec());
        assert forall|k2: IdentV| d_contains(d, k2) implies d_contains(d1, k2) by {
            let j = choose|j: int| 0 <= j < d.len() && d[j].0 == k2;
            assert(d1[j].0 == k2);
        }
        assert forall|i: int, e: int|
            0 <= i < d1.len() && 0 <= e < (#[trigger] d1[i]).1.len() implies d_contains(
            d1,
            #[trigger] d1[i].1[e],
        ) by {
            if i != ai {
                assert(d1[i] == d[i]);
                assert(d_contains(d, d[i].1[e]));
            } else {
                assert(d1[i].1 =~= Seq::<IdentV>::empty());
            }
        }
        assert forall|i: int|
            0 <= i < d1.len() implies (#[trigger] d1[i]).0 == anon_ident_spec() || exists|j: int|
            0 <= j < d.len() && d1[i].0 == (#[trigger] d[j]).0 by {
            if i != ai {
                assert(d1[i].0 == d[i].0);
            }
        }
    } else {
        assert forall|k2: IdentV| d_contains(d, k2) implies d_contains(d1, k2) by {
            let j = choose|j: int| 0 <= j < d.len() && d[j].0 == k2;
            assert(d1[j].0 == k2);
        }
        assert forall|i: int, e: int|
            0 <= i < d1.len() && 0 <= e < (#[trigger] d1[i]).1.len() implies d_contains(
            d1,
            #[trigger] d1[i].1[e],
        ) by {
            if i < d.len() {
                assert(d1[i] == d[i]);
                assert(d_contains(d, d[i].1[e]));
            } else {
                assert(d1[i].1 =~= Seq::<IdentV>::empty());
            }
        }
        assert forall|i: int|
            0 <= i < d1.len() implies (#[trigger] d1[i]).0 == anon_ident_spec() || exists|j: int|
            0 <= j < d.len() && d1[i].0 == (#[trigger] d[j]).0 by {
            if i < d.len() {
                assert(d1[i].0 == d[i].0);
            }
        }
    }
}

/// After pass 2, the table stays closed, and every key is an initial key
/// or the anonymous binding of some anonymous-default item.
proof fn lemma_p2_fold_keys_closed(
    d0: Seq<(IdentV, Seq<IdentV>)>,
    items: Seq<ModuleItem>,
    n: int,
)
    requires
        d_closed(d0),
        0 <= n <= items.len(),
    ensures
        d_closed(p2_fold_items(d0, items, n)),
        forall|i: int|
            0 <= i < p2_fold_items(d0, items, n).len() ==> (exists|j: int|
                0 <= j < d0.len() && (#[trigger] p2_fold_items(d0, items, n)[i]).0 == (
                #[trigger] d0[j]).0) || (p2_fold_items(d0, items, n)[i].0 == anon_ident_spec()
                && exists|k: int| 0 <= k < n && item_anon(#[trigger] items[k])),
    decreases n,
{
    if n > 0 {
        lemma_p2_fold_keys_closed(d0, items, n - 1);
        let d1 = p2_fold_items(d0, items, n - 1);
        let d2 = p2_fold_items(d0, items, n);
        match items[n - 1] {
            ModuleItem::Decl { bindings, exported } => {
                lemma_p2_bindings_keys_closed(d1, bindings@, bindings@.len() as int);
            }
            ModuleItem::DefaultExportDecl { ident, refs } => match ident {
                Some(id) => {
                    lemma_d_fold_refs_keys_closed(d1, id.deep_view(), refs@, refs@.len() as int);
                }
                None => {
                    lemma_d_anon_insert_keys_closed(d1);
                    lemma_d_fold_refs_keys_closed(
                        d_anon_insert(d1),
                        anon_ident_spec(),
                        refs@,
                        refs@.len() as int,
                    );
                    assert(item_anon(items[n - 1]));
                }
            },
            ModuleItem::DefaultExportExpr { expr } => match expr {
                DefaultExpr::Array(refs) => {
                    lemma_d_anon_insert_keys_closed(d1);
                    lemma_d_fold_refs_keys_closed(
                        d_anon_insert(d1),
                        anon_ident_spec(),
                        refs@,
                        refs@.len() as int,
                    );
                    assert(item_anon(items[n - 1]));
                }
                DefaultExpr::ObjectLit(refs) => {
                    lemma_d_anon_insert_keys_closed(d1);
                    lemma_d_fold_refs_keys_closed(
                        d_anon_insert(d1),
                        anon_ident_spec(),
                        refs@,
                        refs@.len() as int,
                    );
                    assert(item_anon(items[n - 1]));
                }
                _ => {}
            },
            _ => {}
        }
    }
}

} // verus!

verus! {

proof fn lemma_sorted_names_from(refs: Seq<IdentV>, n: int)
    ensures
        forall|y: Seq<char>|
            #[trigger] sorted_names(refs, n).contains(y) ==> exists|i: int|
                0 <= i < n && (#[trigger] refs[i]).name == y,
    decreases n,
{
    if n > 0 {
        lemma_sorted_names_from(refs, n - 1);
        lemma_sorted_names_sorted(refs, n - 1);
        crate::strorder::lemma_ins_sorted(sorted_names(refs, n - 1), refs[n - 1].name);
        assert forall|y: Seq<char>|
            #[trigger] sorted_names(refs, n).contains(y) implies exists|i: int|
            0 <= i < n && (#[trigger] refs[i]).name == y by {
            if y != refs[n - 1].name {
                assert(sorted_names(refs, n - 1).contains(y));
            }
        }
    }
}

/// Merging keeps the local keys in place, and every written `depend_on`
/// is the sorted names of some reference-table entry.
proof fn lemma_merge_fold_from(
    locals: Seq<(Seq<char>, ModuleScopedVariableV)>,
    d: Seq<(IdentV, Seq<IdentV>)>,
    n: int,
)
    requires
        0 <= n <= d.len(),
        merge_fold(locals, d, n) is Ok,
    ensures
        merge_fold(locals, d, n).unwrap().len() == locals.len(),
        forall|i: int|
            0 <= i < locals.len() ==> (#[trigger] merge_fold(locals, d, n).unwrap()[i]).0
                == locals[i].0,
        forall|i: int|
            0 <= i < locals.len() ==> (#[trigger] merge_fold(locals, d, n).unwrap()[i]).1.depend_on
                == locals[i].1.depend_on || exists|e: int|
                0 <= e < n && merge_fold(locals, d, n).unwrap()[i].1.depend_on == Some(
                    sorted_names((#[trigger] d[e]).1, d[e].1.len() as int),
                ),
    decreases n,
{
    if n > 0 {
        assert(merge_fold(locals, d, n - 1) is Ok);
        lemma_merge_fold_from(locals, d, n - 1);
        let l1 = merge_fold(locals, d, n - 1).unwrap();
        let l2 = merge_fold(locals, d, n).unwrap();
        let ent = d[n - 1];
        if ent.1.len() == 0 {
            assert forall|i: int|
                0 <= i < locals.len() implies (#[trigger] l2[i]).1.depend_on
                == locals[i].1.depend_on || exists|e: int|
                0 <= e < n && l2[i].1.depend_on == Some(
                    sorted_names((#[trigger] d[e]).1, d[e].1.len() as int),
                ) by {
                if l1[i].1.depend_on != locals[i].1.depend_on {
                    let e = choose|e: int|
                        0 <= e < n - 1 && l1[i].1.depend_on == Some(
                            sorted_names((#[trigger] d[e]).1, d[e].1.len() as int),
                        );
                }
            }
        } else {
            assert(seq_contains_key(l1, ent.0.name));
            crate::table::lemma_key_index(l1, ent.0.name);
            let ki = crate::table::seq_key_index(l1, ent.0.name);
            assert forall|i: int|
                0 <= i < locals.len() implies (#[trigger] l2[i]).0 == locals[i].0 by {
                if i != ki {
                    assert(l2[i] == l1[i]);
                }
            }
            assert forall|i: int|
                0 <= i < locals.len() implies (#[trigger] l2[i]).1.depend_on
                == locals[i].1.depend_on || exists|e: int|
                0 <= e < n && l2[i].1.depend_on == Some(
                    sorted_names((#[trigger] d[e]).1, d[e].1.len() as int),
                ) by {
                if i == ki {
                    assert(l2[i].1.depend_on == Some(
                        sorted_names(d[n - 1].1, d[n - 1].1.len() as int),
                    ));
                } else {
                    assert(l2[i] == l1[i]);
                    if l1[i].1.depend_on != locals[i].1.depend_on {
                        let e = choose|e: int|
                            0 <= e < n - 1 && l1[i].1.depend_on == Some(
                                sorted_names((#[trigger] d[e]).1, d[e].1.len() as int),
                            );
                    }
                }
            }
        }
    }
}

/// The membership half of the depend-on list invariant: every name in a
/// `depend_on` list the extractor produces is a key of the module's own
/// local table.
pub proof fn lemma_depend_on_names_in_locals(
    items: Seq<ModuleItem>,
    path: Seq<char>,
    sd: SymbolDependencyV,
)
    requires
        extract_spec(items, path) == Ok::<SymbolDependencyV, AnalysisError>(sd),
    ensures
        forall|i: int|
            0 <= i < sd.local_variable_table.len() ==> match (
            #[trigger] sd.local_variable_table[i]).1.depend_on {
                Some(dd) => forall|a: int|
                    0 <= a < dd.len() ==> seq_contains_key(
                        sd.local_variable_table,
                        #[trigger] dd[a],
                    ),
                None => true,
            },
{
    let st = p1_fold_items(items, items.len() as int).unwrap();
    lemma_p1_fold_nc(items, items.len() as int);
    lemma_p1_fold_none(items, items.len() as int);
    let d0 = d_init(st.bound_ids, st.bound_ids.len() as int);
    lemma_d_init_keys(st.bound_ids, st.bound_ids.len() as int);
    assert(d_closed(d0)) by {
        assert forall|i: int, e: int|
            0 <= i < d0.len() && 0 <= e < (#[trigger] d0[i]).1.len() implies d_contains(
            d0,
            #[trigger] d0[i].1[e],
        ) by {
            assert(d0[i].1.len() == 0);
        }
    }
    let d = p2_fold_items(d0, items, items.len() as int);
    lemma_p2_fold_keys_closed(d0, items, items.len() as int);
    let merged = merge_fold(st.locals, d, d.len() as int).unwrap();
    lemma_merge_fold_from(st.locals, d, d.len() as int);
    assert(sd.local_variable_table == merged);
    // merged keys are exactly the pass-1 local keys
    assert forall|k2: Seq<char>|
        seq_contains_key(st.locals, k2) implies seq_contains_key(merged, k2) by {
        let j = choose|j: int| 0 <= j < st.locals.len() && st.locals[j].0 == k2;
        assert(merged[j].0 == k2);
    }
    assert forall|i: int|
        0 <= i < sd.local_variable_table.len() implies match (
        #[trigger] sd.local_variable_table[i]).1.depend_on {
        Some(dd) => forall|a: int|
            0 <= a < dd.len() ==> seq_contains_key(sd.local_variable_table, #[trigger] dd[a]),
        None => true,
    } by {
        match sd.local_variable_table[i].1.depend_on {
            Some(dd) => {
                // the original pass-1 entry had no list, so this one was merged
                assert(st.locals[i].1.depend_on is None);
                assert(merged[i].1.depend_on == Some(dd));
                let e = choose|e: int|
                    0 <= e < d.len() && merged[i].1.depend_on == Some(
                        sorted_names((#[trigger] d[e]).1, d[e].1.len() as int),
                    );
                assert(dd == sorted_names(d[e].1, d[e].1.len() as int));
                lemma_sorted_names_from(d[e].1, d[e].1.len() as int);
                assert forall|a: int|
                    0 <= a < dd.len() implies seq_contains_key(
                    sd.local_variable_table,
                    #[trigger] dd[a],
                ) by {
                    assert(dd.contains(dd[a]));
                    let ri = choose|ri: int|
                        0 <= ri < d[e].1.len() && (#[trigger] d[e].1[ri]).name == dd[a];
                    // the reference is a key of the reference table
                    assert(d_contains(d, d[e].1[ri]));
                    let j = choose|j: int| 0 <= j < d.len() && d[j].0 == d[e].1[ri];
                    // that key is a recorded binding or the anonymous one
                    if exists|x: int| 0 <= x < d0.len() && d[j].0 == (#[trigger] d0[x]).0 {
                        let x = choose|x: int| 0 <= x < d0.len() && d[j].0 == (#[trigger] d0[x]).0;
                        assert(d0[x].0 == st.bound_ids[x]);
                        assert(seq_contains_key(st.locals, st.bound_ids[x].name));
                        assert(st.bound_ids[x].name == dd[a]);
                    } else {
                        assert(d[j].0 == anon_ident_spec());
                        let k = choose|k: int|
                            0 <= k < items.len() && item_anon(#[trigger] items[k]);
                        lemma_p1_fold_anon(items, k, items.len() as int);
                        assert(seq_contains_key(st.locals, anonymous_default_export_spec()));
                        assert(dd[a] == anonymous_default_export_spec());
                    }
                }
            }
            None => {}
        }
    }
}

} // verus!

verus! {

/// Whether one top-level item introduces a module-scope binding named `x`.
pub open spec fn binds_name(item: ModuleItem, x: Seq<char>) -> bool {
    match item {
        ModuleItem::Import { src, specifiers } => exists|j: int|
            0 <= j < specifiers@.len() && match #[trigger] specifiers@[j] {
                ImportSpec::Named { local, imported } => local.name@ == x,
                ImportSpec::NamedStr { .. } => false,
                ImportSpec::Default { local } => local.name@ == x,
                ImportSpec::Namespace { local } => local.name@ == x,
            },
        ModuleItem::Decl { bindings, exported } => exists|j: int|
            0 <= j < bindings@.len() && (#[trigger] bindings@[j]).ident.name@ == x,
        ModuleItem::DefaultExportDecl { ident, refs } => match ident {
            Some(id) => id.name@ == x,
            None => x == anonymous_default_export_spec(),
        },
        ModuleItem::DefaultExportExpr { expr } => match expr {
            DefaultExpr::Array(_) | DefaultExpr::ObjectLit(_) | DefaultExpr::Arrow => x
                == anonymous_default_export_spec(),
            _ => false,
        },
        _ => false,
    }
}

proof fn lemma_fold_import_binds(st: P1V, src: Seq<char>, sps: Seq<ImportSpec>, n: int, x: Seq<char>)
    requires
        p1_nc(st),
        p1_fold_import(st, src, sps, n) is Ok,
        exists|j: int|
            0 <= j < n && match #[trigger] sps[j] {
                ImportSpec::Named { local, imported } => local.name@ == x,
                ImportSpec::NamedStr { .. } => false,
                ImportSpec::Default { local } => local.name@ == x,
                ImportSpec::Namespace { local } => local.name@ == x,
            },
    ensures
        seq_contains_key(p1_fold_import(st, src, sps, n).unwrap().locals, x),
    decreases n,
{
    assert(p1_fold_import(st, src, sps, n - 1) is Ok);
    let st1 = p1_fold_import(st, src, sps, n - 1).unwrap();
    let binder = choose|j: int|
        0 <= j < n && match #[trigger] sps[j] {
            ImportSpec::Named { local, imported } => local.name@ == x,
            ImportSpec::NamedStr { .. } => false,
            ImportSpec::Default { local } => local.name@ == x,
            ImportSpec::Namespace { local } => local.name@ == x,
        };
    lemma_fold_import_nc(st, src, sps, n - 1);
    if binder == n - 1 {
        match sps[n - 1] {
            ImportSpec::Named { local, imported } => {
                lemma_seq_set_keys(
                    p1_track(st1, local.deep_view()).unwrap().locals,
                    local.name@,
                    match imported {
                        Some(orig) => if orig@ == "default"@ {
                            import_msv(src, FromTypeV::Default)
                        } else {
                            import_msv(src, FromTypeV::Named(orig@))
                        },
                        None => import_msv(src, FromTypeV::Named(local.name@)),
                    },
                );
            }
            ImportSpec::NamedStr { .. } => {}
            ImportSpec::Default { local } => {
                lemma_seq_set_keys(
                    p1_track(st1, local.deep_view()).unwrap().locals,
                    local.name@,
                    import_msv(src, FromTypeV::Default),
                );
            }
            ImportSpec::Namespace { local } => {
                lemma_seq_set_keys(
                    p1_track(st1, local.deep_view()).unwrap().locals,
                    local.name@,
                    import_msv(src, FromTypeV::Namespace),
                );
            }
        }
    } else {
        lemma_fold_import_binds(st, src, sps, n - 1, x);
        lemma_fold_import_nc(st, src, sps, n - 1);
        match sps[n - 1] {
            ImportSpec::Named { local, imported } => {
                lemma_track_local_nc(
                    st1,
                    local.deep_view(),
                    match imported {
                        Some(orig) => if orig@ == "default"@ {
                            import_msv(src, FromTypeV::Default)
                        } else {
                            import_msv(src, FromTypeV::Named(orig@))
                        },
                        None => import_msv(src, FromTypeV::Named(local.name@)),
                    },
                );
            }
            ImportSpec::NamedStr { .. } => {}
            ImportSpec::Default { local } => {
                lemma_track_local_nc(st1, local.deep_view(), import_msv(src, FromTypeV::Default));
            }
            ImportSpec::Namespace { local } => {
                lemma_track_local_nc(
                    st1,
                    local.deep_view(),
                    import_msv(src, FromTypeV::Namespace),
                );
            }
        }
    }
}

proof fn lemma_fold_bindings_binds(
    st: P1V,
    bs: Seq<Binding>,
    exported: bool,
    n: int,
    x: Seq<char>,
)
    requires
        p1_nc(st),
        p1_fold_bindings(st, bs, exported, n) is Ok,
        exists|j: int| 0 <= j < n && (#[trigger] bs[j]).ident.name@ == x,
    ensures
        seq_contains_key(p1_fold_bindings(st, bs, exported, n).unwrap().locals, x),
    decreases n,
{
    assert(p1_fold_bindings(st, bs, exported, n - 1) is Ok);
    let st1 = p1_fold_bindings(st, bs, exported, n - 1).unwrap();
    let binder = choose|j: int| 0 <= j < n && (#[trigger] bs[j]).ident.name@ == x;
    lemma_fold_bindings_nc(st, bs, exported, n - 1);
    if binder == n - 1 {
        lemma_seq_set_keys(
            p1_track(st1, bs[n - 1].ident.deep_view()).unwrap().locals,
            bs[n - 1].ident.name@,
            plain_msv(),
        );
    } else {
        lemma_fold_bindings_binds(st, bs, exported, n - 1, x);
        lemma_track_local_nc(st1, bs[n - 1].ident.deep_view(), plain_msv());
    }
}

proof fn lemma_p1_item_binds(st: P1V, item: ModuleItem, x: Seq<char>)
    requires
        p1_nc(st),
        binds_name(item, x),
        p1_item(st, item) is Ok,
    ensures
        seq_contains_key(p1_item(st, item).unwrap().locals, x),
{
    match item {
        ModuleItem::Import { src, specifiers } => {
            lemma_fold_import_binds(st, src@, specifiers@, specifiers@.len() as int, x);
        }
        ModuleItem::Decl { bindings, exported } => {
            lemma_fold_bindings_binds(st, bindings@, exported, bindings@.len() as int, x);
        }
        ModuleItem::DefaultExportDecl { ident, refs } => match ident {
            Some(id) => {
                lemma_seq_set_keys(p1_track(st, id.deep_view()).unwrap().locals, id.name@, plain_msv());
            }
            None => {
                lemma_seq_set_keys(st.locals, anonymous_default_export_spec(), plain_msv());
            }
        },
        ModuleItem::DefaultExportExpr { expr } => match expr {
            DefaultExpr::Array(_) | DefaultExpr::ObjectLit(_) | DefaultExpr::Arrow => {
                lemma_seq_set_keys(st.locals, anonymous_default_export_spec(), plain_msv());
            }
            _ => {}
        },
        _ => {}
    }
}

/// A name bound by some item is a key of the final local table.
proof fn lemma_p1_fold_binds(items: Seq<ModuleItem>, k: int, n: int, x: Seq<char>)
    requires
        0 <= k < n,
        binds_name(items[k], x),
        p1_fold_items(items, n) is Ok,
    ensures
        seq_contains_key(p1_fold_items(items, n).unwrap().locals, x),
    decreases n,
{
    lemma_p1_prefix_ok(items, n - 1, n);
    let prev = p1_fold_items(items, n - 1).unwrap();
    lemma_p1_fold_nc(items, n - 1);
    if k == n - 1 {
        lemma_p1_item_binds(prev, items[n - 1], x);
    } else {
        lemma_p1_fold_binds(items, k, n - 1, x);
        lemma_p1_item_nc(prev, items[n - 1]);
    }
}

} // verus!

verus! {

/// Every `Local(x)` named export (and a `Local` default export) points
/// into the table `fl`.
pub open spec fn exports_into(st: P1V, fl: Seq<(Seq<char>, ModuleScopedVariableV)>) -> bool {
    &&& forall|i: int|
        0 <= i < st.named.len() ==> match (#[trigger] st.named[i]).1 {
            ModuleExportV::Local(x) => seq_contains_key(fl, x),
            ModuleExportV::ReExportFrom(_) => true,
        }
    &&& match st.default_export {
        Some(ModuleExportV::Local(x)) => seq_contains_key(fl, x),
        _ => true,
    }
}

/// Every name a source-less export list or an identifier default export
/// refers to is bound by some item of the module.
pub open spec fn locals_declared(items: Seq<ModuleItem>) -> bool {
    forall|k: int|
        0 <= k < items.len() ==> match #[trigger] items[k] {
            ModuleItem::NamedExportList { specifiers } => forall|j: int|
                0 <= j < specifiers@.len() ==> match #[trigger] specifiers@[j] {
                    ExportSpec::Named { orig, exported } => exists|b: int|
                        0 <= b < items.len() && binds_name(#[trigger] items[b], orig@),
                    _ => true,
                },
            ModuleItem::DefaultExportExpr { expr } => match expr {
                DefaultExpr::Ident(name) => exists|b: int|
                    0 <= b < items.len() && binds_name(#[trigger] items[b], name@),
                _ => true,
            },
            _ => true,
        }
}

proof fn lemma_fold_import_exports(
    st: P1V,
    src: Seq<char>,
    sps: Seq<ImportSpec>,
    n: int,
    fl: Seq<(Seq<char>, ModuleScopedVariableV)>,
)
    requires
        exports_into(st, fl),
        p1_fold_import(st, src, sps, n) is Ok,
    ensures
        exports_into(p1_fold_import(st, src, sps, n).unwrap(), fl),
        p1_fold_import(st, src, sps, n).unwrap().named == st.named,
        p1_fold_import(st, src, sps, n).unwrap().default_export == st.default_export,
    decreases n,
{
    if n > 0 {
        assert(p1_fold_import(st, src, sps, n - 1) is Ok);
        lemma_fold_import_exports(st, src, sps, n - 1, fl);
    }
}

proof fn lemma_fold_bindings_exports(
    st: P1V,
    bs: Seq<Binding>,
    exported: bool,
    n: int,
    fl: Seq<(Seq<char>, ModuleScopedVariableV)>,
)
    requires
        0 <= n <= bs.len(),
        exports_into(st, fl),
        p1_fold_bindings(st, bs, exported, n) is Ok,
        forall|j: int| 0 <= j < bs.len() ==> seq_contains_key(fl, (#[trigger] bs[j]).ident.name@),
    ensures
        exports_into(p1_fold_bindings(st, bs, exported, n).unwrap(), fl),
    decreases n,
{
    if n > 0 {
        assert(p1_fold_bindings(st, bs, exported, n - 1) is Ok);
        lemma_fold_bindings_exports(st, bs, exported, n - 1, fl);
        let st1 = p1_fold_bindings(st, bs, exported, n - 1).unwrap();
        let st2 = p1_fold_bindings(st, bs, exported, n).unwrap();
        if exported {
            assert forall|i: int|
                0 <= i < st2.named.len() implies match (#[trigger] st2.named[i]).1 {
                ModuleExportV::Local(x) => seq_contains_key(fl, x),
                ModuleExportV::ReExportFrom(_) => true,
            } by {
                let mid = p1_track_local(st1, bs[n - 1].ident.deep_view(), plain_msv()).unwrap();
                if i < mid.named.len() {
                    assert(st2.named[i] == st1.named[i]);
                } else {
                    assert(st2.named[i].1 == ModuleExportV::Local(bs[n - 1].ident.name@));
                    assert(seq_contains_key(fl, bs[n - 1].ident.name@));
                }
            }
        }
    }
}

proof fn lemma_fold_export_from_exports(
    st: P1V,
    src: Seq<char>,
    sps: Seq<ExportSpec>,
    n: int,
    fl: Seq<(Seq<char>, ModuleScopedVariableV)>,
)
    requires
        exports_into(st, fl),
        p1_fold_export_from(st, src, sps, n) is Ok,
    ensures
        exports_into(p1_fold_export_from(st, src, sps, n).unwrap(), fl),
    decreases n,
{
    if n > 0 {
        assert(p1_fold_export_from(st, src, sps, n - 1) is Ok);
        lemma_fold_export_from_exports(st, src, sps, n - 1, fl);
        let st1 = p1_fold_export_from(st, src, sps, n - 1).unwrap();
        let st2 = p1_fold_export_from(st, src, sps, n).unwrap();
        assert forall|i: int|
            0 <= i < st2.named.len() implies match (#[trigger] st2.named[i]).1 {
            ModuleExportV::Local(x) => seq_contains_key(fl, x),
            ModuleExportV::ReExportFrom(_) => true,
        } by {
            if i < st1.named.len() {
                assert(st2.named[i] == st1.named[i]);
            }
        }
    }
}

proof fn lemma_fold_export_list_exports(
    st: P1V,
    sps: Seq<ExportSpec>,
    n: int,
    fl: Seq<(Seq<char>, ModuleScopedVariableV)>,
)
    requires
        0 <= n <= sps.len(),
        exports_into(st, fl),
        p1_fold_export_list(st, sps, n) is Ok,
        forall|j: int|
            0 <= j < sps.len() ==> match #[trigger] sps[j] {
                ExportSpec::Named { orig, exported } => seq_contains_key(fl, orig@),
                _ => true,
            },
    ensures
        exports_into(p1_fold_export_list(st, sps, n).unwrap(), fl),
    decreases n,
{
    if n > 0 {
        assert(p1_fold_export_list(st, sps, n - 1) is Ok);
        lemma_fold_export_list_exports(st, sps, n - 1, fl);
        let st1 = p1_fold_export_list(st, sps, n - 1).unwrap();
        let st2 = p1_fold_export_list(st, sps, n).unwrap();
        assert forall|i: int|
            0 <= i < st2.named.len() implies match (#[trigger] st2.named[i]).1 {
            ModuleExportV::Local(x) => seq_contains_key(fl, x),
            ModuleExportV::ReExportFrom(_) => true,
        } by {
            if i < st1.named.len() {
                assert(st2.named[i] == st1.named[i]);
            } else {
                match sps[n - 1] {
                    ExportSpec::Named { orig, exported } => {
                        assert(seq_contains_key(fl, orig@));
                    }
                    _ => {}
                }
            }
        }
        assert(match st2.default_export {
            Some(ModuleExportV::Local(x)) => seq_contains_key(fl, x),
            _ => true,
        }) by {
            match sps[n - 1] {
                ExportSpec::Named { orig, exported } => {
                    assert(seq_contains_key(fl, orig@));
                }
                _ => {}
            }
        }
    }
}

proof fn lemma_p1_fold_exports(items: Seq<ModuleItem>, n: int)
    requires
        0 <= n <= items.len(),
        p1_fold_items(items, items.len() as int) is Ok,
        locals_declared(items),
    ensures
        exports_into(
            p1_fold_items(items, n).unwrap(),
            p1_fold_items(items, items.len() as int).unwrap().locals,
        ),
    decreases n,
{
    lemma_p1_prefix_ok(items, n, items.len() as int);
    let fl = p1_fold_items(items, items.len() as int).unwrap().locals;
    if n > 0 {
        lemma_p1_fold_exports(items, n - 1);
        let prev = p1_fold_items(items, n - 1).unwrap();
        let cur = p1_fold_items(items, n).unwrap();
        match items[n - 1] {
            ModuleItem::Import { src, specifiers } => {
                lemma_fold_import_exports(prev, src@, specifiers@, specifiers@.len() as int, fl);
            }
            ModuleItem::Decl { bindings, exported } => {
                assert forall|j: int|
                    0 <= j < bindings@.len() implies seq_contains_key(
                    fl,
                    (#[trigger] bindings@[j]).ident.name@,
                ) by {
                    assert(binds_name(items[n - 1], bindings@[j].ident.name@));
                    lemma_p1_fold_binds(items, n - 1, items.len() as int, bindings@[j].ident.name@);
                }
                lemma_fold_bindings_exports(prev, bindings@, exported, bindings@.len() as int, fl);
            }
            ModuleItem::NamedExportList { specifiers } => {
                assert forall|j: int|
                    0 <= j < specifiers@.len() implies match #[trigger] specifiers@[j] {
                    ExportSpec::Named { orig, exported } => seq_contains_key(fl, orig@),
                    _ => true,
                } by {
                    match specifiers@[j] {
                        ExportSpec::Named { orig, exported } => {
                            let b = choose|b: int|
                                0 <= b < items.len() && binds_name(#[trigger] items[b], orig@);
                            lemma_p1_fold_binds(items, b, items.len() as int, orig@);
                        }
                        _ => {}
                    }
                }
                lemma_fold_export_list_exports(prev, specifiers@, specifiers@.len() as int, fl);
            }
            ModuleItem::NamedExportFrom { src, specifiers } => {
                lemma_fold_export_from_exports(prev, src@, specifiers@, specifiers@.len() as int, fl);
            }
            ModuleItem::DefaultExportDecl { ident, refs } => match ident {
                Some(id) => {
                    assert(binds_name(items[n - 1], id.name@));
                    lemma_p1_fold_binds(items, n - 1, items.len() as int, id.name@);
                }
                None => {
                    assert(binds_name(items[n - 1], anonymous_default_export_spec()));
                    lemma_p1_fold_binds(
                        items,
                        n - 1,
                        items.len() as int,
                        anonymous_default_export_spec(),
                    );
                }
            },
            ModuleItem::DefaultExportExpr { expr } => match expr {
                DefaultExpr::Ident(name) => {
                    let b = choose|b: int|
                        0 <= b < items.len() && binds_name(#[trigger] items[b], name@);
                    lemma_p1_fold_binds(items, b, items.len() as int, name@);
                }
                DefaultExpr::Array(_) | DefaultExpr::ObjectLit(_) | DefaultExpr::Arrow => {
                    assert(binds_name(items[n - 1], anonymous_default_export_spec()));
                    lemma_p1_fold_binds(
                        items,
                        n - 1,
                        items.len() as int,
                        anonymous_default_export_spec(),
                    );
                }
                DefaultExpr::Other => {}
            },
            _ => {}
        }
    }
}

/// When every exported name is declared by some item, every `Local(x)`
/// named export of the extracted module — and a `Local` default export —
/// names a key of its local table. With `lemma_expand_stars_canonical`
/// this gives the named-export table invariant: `Local` entries point into
/// the local table, and wildcard-injected entries re-export from stored
/// canonical modules.
pub proof fn lemma_named_exports_point_into_locals(
    items: Seq<ModuleItem>,
    path: Seq<char>,
    sd: SymbolDependencyV,
)
    requires
        extract_spec(items, path) == Ok::<SymbolDependencyV, AnalysisError>(sd),
        locals_declared(items),
    ensures
        forall|i: int|
            0 <= i < sd.named_export_table.len() ==> match (
            #[trigger] sd.named_export_table[i]).1 {
                ModuleExportV::Local(x) => seq_contains_key(sd.local_variable_table, x),
                ModuleExportV::ReExportFrom(_) => true,
            },
        match sd.default_export {
            Some(ModuleExportV::Local(x)) => seq_contains_key(sd.local_variable_table, x),
            _ => true,
        },
        crate::depend_on_graph::locals_closed(sd),
{
    let st = p1_fold_items(items, items.len() as int).unwrap();
    lemma_p1_fold_exports(items, items.len() as int);
    let d = p2_fold_items(
        d_init(st.bound_ids, st.bound_ids.len() as int),
        items,
        items.len() as int,
    );
    lemma_merge_fold_from(st.locals, d, d.len() as int);
    let merged = merge_fold(st.locals, d, d.len() as int).unwrap();
    assert(sd.local_variable_table == merged);
    assert(sd.named_export_table == st.named);
    assert forall|k2: Seq<char>|
        seq_contains_key(st.locals, k2) implies seq_contains_key(merged, k2) by {
        let j = choose|j: int| 0 <= j < st.locals.len() && st.locals[j].0 == k2;
        assert(merged[j].0 == k2);
    }
}


/// No two of the given idents share a name.
pub open spec fn idents_names_unique(ids: Seq<IdentV>) -> bool {
    forall|a: int, b: int|
        0 <= a < b < ids.len() ==> (#[trigger] ids[a]).name != (#[trigger] ids[b]).name
}

spec fn d_names_unique(d: Seq<(IdentV, Seq<IdentV>)>) -> bool {
    forall|a: int, b: int|
        0 <= a < b < d.len() ==> (#[trigger] d[a]).0.name != (#[trigger] d[b]).0.name
}

spec fn d_anon_clean(d: Seq<(IdentV, Seq<IdentV>)>) -> bool {
    forall|i: int|
        0 <= i < d.len() && (#[trigger] d[i]).0.name == anonymous_default_export_spec()
            ==> d[i].0 == anon_ident_spec()
}

spec fn d_refs_name_free(d: Seq<(IdentV, Seq<IdentV>)>) -> bool {
    forall|i: int, e: int|
        0 <= i < d.len() && 0 <= e < (#[trigger] d[i]).1.len() ==> (#[trigger] d[i].1[e]).name
            != d[i].0.name
}

proof fn lemma_nf_add_ref(d: Seq<(IdentV, Seq<IdentV>)>, cur: IdentV, r: IdentV)
    requires
        d_names_unique(d),
        d_anon_clean(d),
        d_refs_name_free(d),
    ensures
        d_names_unique(d_add_ref(d, cur, r)),
        d_anon_clean(d_add_ref(d, cur, r)),
        d_refs_name_free(d_add_ref(d, cur, r)),
{
    let d1 = d_add_ref(d, cur, r);
    if !(r == cur || !d_contains(d, cur) || !d_contains(d, r)) {
        lemma_d_index(d, cur);
        let ci = d_index(d, cur);
        if !d[ci].1.contains(r) {
            let rj = choose|j: int| 0 <= j < d.len() && (#[trigger] d[j]).0 == r;
            assert(rj != ci);
            assert(r.name != cur.name) by {
                if rj < ci {
                    assert(d[rj].0.name != d[ci].0.name);
                } else {
                    assert(d[ci].0.name != d[rj].0.name);
                }
            }
            assert forall|a: int, b: int| 0 <= a < b < d1.len() implies (#[trigger] d1[a]).0.name
                != (#[trigger] d1[b]).0.name by {
                assert(d1[a].0 == d[a].0);
                assert(d1[b].0 == d[b].0);
            }
            assert forall|i: int|
                0 <= i < d1.len() && (#[trigger] d1[i]).0.name
                    == anonymous_default_export_spec() implies d1[i].0 == anon_ident_spec() by {
                assert(d1[i].0 == d[i].0);
            }
            assert forall|i: int, e: int|
                0 <= i < d1.len() && 0 <= e < (#[trigger] d1[i]).1.len() implies (
            #[trigger] d1[i].1[e]).name != d1[i].0.name by {
                if i != ci {
                    assert(d1[i] == d[i]);
                } else {
                    assert(d1[i].0 == cur);
                    assert(d1[i].1 == d[ci].1.push(r));
                    if e < d[ci].1.len() {
                        assert(d1[i].1[e] == d[ci].1[e]);
                        assert(d[ci].1[e].name != d[ci].0.name);
                    } else {
                        assert(d1[i].1[e] == r);
                    }
                }
            }
        }
    }
}

proof fn lemma_nf_fold_refs(d: Seq<(IdentV, Seq<IdentV>)>, cur: IdentV, refs: Seq<Ident>, n: int)
    requires
        d_names_unique(d),
        d_anon_clean(d),
        d_refs_name_free(d),
    ensures
        d_names_unique(d_fold_refs(d, cur, refs, n)),
        d_anon_clean(d_fold_refs(d, cur, refs, n)),
        d_refs_name_free(d_fold_refs(d, cur, refs, n)),
    decreases n,
{
    if n > 0 {
        lemma_nf_fold_refs(d, cur, refs, n - 1);
        lemma_nf_add_ref(d_fold_refs(d, cur, refs, n - 1), cur, refs[n - 1].deep_view());
    }
}

proof fn lemma_nf_fold_bindings(d: Seq<(IdentV, Seq<IdentV>)>, bs: Seq<Binding>, n: int)
    requires
        d_names_unique(d),
        d_anon_clean(d),
        d_refs_name_free(d),
    ensures
        d_names_unique(p2_fold_bindings(d, bs, n)),
        d_anon_clean(p2_fold_bindings(d, bs, n)),
        d_refs_name_free(p2_fold_bindings(d, bs, n)),
    decreases n,
{
    if n > 0 {
        lemma_nf_fold_bindings(d, bs, n - 1);
        let b = bs[n - 1];
        lemma_nf_fold_refs(
            p2_fold_bindings(d, bs, n - 1),
            b.ident.deep_view(),
            b.refs@,
            b.refs@.len() as int,
        );
    }
}

proof fn lemma_nf_anon_insert(d: Seq<(IdentV, Seq<IdentV>)>)
    requires
        d_names_unique(d),
        d_anon_clean(d),
        d_refs_name_free(d),
    ensures
        d_names_unique(d_anon_insert(d)),
        d_anon_clean(d_anon_insert(d)),
        d_refs_name_free(d_anon_insert(d)),
{
    let d1 = d_anon_insert(d);
    if d_contains(d, anon_ident_spec()) {
        lemma_d_index(d, anon_ident_spec());
        let ai = d_index(d, anon_ident_spec());
        assert forall|a: int, b: int| 0 <= a < b < d1.len() implies (#[trigger] d1[a]).0.name
            != (#[trigger] d1[b]).0.name by {
            assert(d1[a].0 == d[a].0);
            assert(d1[b].0 == d[b].0);
        }
        assert forall|i: int|
            0 <= i < d1.len() && (#[trigger] d1[i]).0.name == anonymous_default_export_spec()
            implies d1[i].0 == anon_ident_spec() by {
            assert(d1[i].0 == d[i].0);
        }
        assert forall|i: int, e: int|
            0 <= i < d1.len() && 0 <= e < (#[trigger] d1[i]).1.len() implies (
        #[trigger] d1[i].1[e]).name != d1[i].0.name by {
            if i != ai {
                assert(d1[i] == d[i]);
            } else {
                assert(d1[i].1 =~= Seq::<IdentV>::empty());
            }
        }
    } else {
        assert forall|i: int| 0 <= i < d.len() implies (#[trigger] d[i]).0.name
            != anonymous_default_export_spec() by {
            if d[i].0.name == anonymous_default_export_spec() {
                assert(d[i].0 == anon_ident_spec());
                assert(d_contains(d, anon_ident_spec()));
            }
        }
        assert forall|a: int, b: int| 0 <= a < b < d1.len() implies (#[trigger] d1[a]).0.name
            != (#[trigger] d1[b]).0.name by {
            if b < d.len() {
                assert(d1[a].0 == d[a].0);
                assert(d1[b].0 == d[b].0);
            } else {
                assert(d1[a].0 == d[a].0);
                assert(d1[b].0 == anon_ident_spec());
                assert(d[a].0.name != anonymous_default_export_spec());
            }
        }
        assert forall|i: int|
            0 <= i < d1.len() && (#[trigger] d1[i]).0.name == anonymous_default_export_spec()
            implies d1[i].0 == anon_ident_spec() by {
            if i < d.len() {
                assert(d1[i].0 == d[i].0);
            }
        }
        assert forall|i: int, e: int|
            0 <= i < d1.len() && 0 <= e < (#[trigger] d1[i]).1.len() implies (
        #[trigger] d1[i].1[e]).name != d1[i].0.name by {
            if i < d.len() {
                assert(d1[i] == d[i]);
            } else {
                assert(d1[i].1 =~= Seq::<IdentV>::empty());
            }
        }
    }
}

proof fn lemma_nf_fold_items(d0: Seq<(IdentV, Seq<IdentV>)>, items: Seq<ModuleItem>, n: int)
    requires
        d_names_unique(d0),
        d_anon_clean(d0),
        d_refs_name_free(d0),
        0 <= n <= items.len(),
    ensures
        d_names_unique(p2_fold_items(d0, items, n)),
        d_anon_clean(p2_fold_items(d0, items, n)),
        d_refs_name_free(p2_fold_items(d0, items, n)),
    decreases n,
{
    if n > 0 {
        lemma_nf_fold_items(d0, items, n - 1);
        let d1 = p2_fold_items(d0, items, n - 1);
        match items[n - 1] {
            ModuleItem::Decl { bindings, exported } => {
                lemma_nf_fold_bindings(d1, bindings@, bindings@.len() as int);
            }
            ModuleItem::DefaultExportDecl { ident, refs } => match ident {
                Some(id) => {
                    lemma_nf_fold_refs(d1, id.deep_view(), refs@, refs@.len() as int);
                }
                None => {
                    lemma_nf_anon_insert(d1);
                    lemma_nf_fold_refs(
                        d_anon_insert(d1),
                        anon_ident_spec(),
                        refs@,
                        refs@.len() as int,
                    );
                }
            },
            ModuleItem::DefaultExportExpr { expr } => match expr {
                DefaultExpr::Array(refs) => {
                    lemma_nf_anon_insert(d1);
                    lemma_nf_fold_refs(
                        d_anon_insert(d1),
                        anon_ident_spec(),
                        refs@,
                        refs@.len() as int,
                    );
                }
                DefaultExpr::ObjectLit(refs) => {
                    lemma_nf_anon_insert(d1);
                    lemma_nf_fold_refs(
                        d_anon_insert(d1),
                        anon_ident_spec(),
                        refs@,
                        refs@.len() as int,
                    );
                }
                _ => {}
            },
            _ => {}
        }
    }
}

proof fn lemma_d_init_shape(ids: Seq<IdentV>, n: int)
    requires
        0 <= n <= ids.len(),
    ensures
        d_init(ids, n).len() == n,
        forall|i: int|
            0 <= i < n ==> (#[trigger] d_init(ids, n)[i]).0 == ids[i] && d_init(ids, n)[i].1.len()
                == 0,
    decreases n,
{
    if n > 0 {
        lemma_d_init_shape(ids, n - 1);
    }
}

proof fn lemma_sorted_names_members(refs: Seq<IdentV>, n: int)
    ensures
        forall|y: Seq<char>|
            #[trigger] sorted_names(refs, n).contains(y) ==> exists|e: int|
                0 <= e < n && (#[trigger] refs[e]).name == y,
    decreases n,
{
    if n > 0 {
        lemma_sorted_names_members(refs, n - 1);
        lemma_sorted_names_sorted(refs, n - 1);
        crate::strorder::lemma_ins_sorted(sorted_names(refs, n - 1), refs[n - 1].name);
        assert forall|y: Seq<char>| #[trigger] sorted_names(refs, n).contains(y) implies exists|
            e: int,
        | 0 <= e < n && (#[trigger] refs[e]).name == y by {
            if y == refs[n - 1].name {
                assert((#[trigger] refs[n - 1]).name == y);
            } else {
                assert(sorted_names(refs, n - 1).contains(y));
            }
        }
    }
}

/// No entry's `depend_on` list holds the entry's own key.
pub open spec fn locals_dep_self_free(locals: Seq<(Seq<char>, ModuleScopedVariableV)>) -> bool {
    forall|i: int|
        0 <= i < locals.len() ==> match (#[trigger] locals[i]).1.depend_on {
            Some(l) => !l.contains(locals[i].0),
            None => true,
        }
}

proof fn lemma_merge_fold_self_free(
    locals: Seq<(Seq<char>, ModuleScopedVariableV)>,
    d: Seq<(IdentV, Seq<IdentV>)>,
    n: int,
)
    requires
        locals_dep_self_free(locals),
        d_refs_name_free(d),
        0 <= n <= d.len(),
        merge_fold(locals, d, n) is Ok,
    ensures
        locals_dep_self_free(merge_fold(locals, d, n).unwrap()),
    decreases n,
{
    if n > 0 {
        assert(merge_fold(locals, d, n - 1) is Ok);
        lemma_merge_fold_self_free(locals, d, n - 1);
        let l1 = merge_fold(locals, d, n - 1).unwrap();
        let ent = d[n - 1];
        if ent.1.len() == 0 {
        } else {
            let names = sorted_names(ent.1, ent.1.len() as int);
            assert(!names.contains(ent.0.name)) by {
                lemma_sorted_names_members(ent.1, ent.1.len() as int);
                if names.contains(ent.0.name) {
                    let e = choose|e: int|
                        0 <= e < ent.1.len() && (#[trigger] ent.1[e]).name == ent.0.name;
                    assert(d[n - 1].1[e].name != d[n - 1].0.name);
                }
            }
            assert(seq_contains_key(l1, ent.0.name));
            crate::table::lemma_key_index(l1, ent.0.name);
            let newv = ModuleScopedVariableV {
                depend_on: Some(names),
                import_from: crate::table::seq_get(l1, ent.0.name).import_from,
            };
            let r = seq_set(l1, ent.0.name, newv);
            assert forall|i: int| 0 <= i < r.len() implies match (#[trigger] r[i]).1.depend_on {
                Some(l) => !l.contains(r[i].0),
                None => true,
            } by {
                if i != crate::table::seq_key_index(l1, ent.0.name) {
                    assert(r[i] == l1[i]);
                } else {
                    assert(r[i].0 == ent.0.name);
                    assert(r[i].1 == newv);
                }
            }
        }
    }
}

/// Where the module's bindings give each name a single scope — and none
/// carries the anonymous-default name — no local's `depend_on` list names
/// the local itself. Two bindings of one name under different scope tags
/// can make a symbol appear among its own dependencies; those inputs are
/// left out.
pub proof fn lemma_depend_on_excludes_self(
    items: Seq<ModuleItem>,
    path: Seq<char>,
    sd: SymbolDependencyV,
)
    requires
        extract_spec(items, path) == Ok::<SymbolDependencyV, AnalysisError>(sd),
        idents_names_unique(p1_fold_items(items, items.len() as int).unwrap().bound_ids),
        forall|a: int|
            0 <= a < p1_fold_items(items, items.len() as int).unwrap().bound_ids.len() ==> (
            #[trigger] p1_fold_items(items, items.len() as int).unwrap().bound_ids[a]).name
                != anonymous_default_export_spec(),
    ensures
        locals_dep_self_free(sd.local_variable_table),
{
    let st = p1_fold_items(items, items.len() as int).unwrap();
    let ids = st.bound_ids;
    let d0 = d_init(ids, ids.len() as int);
    lemma_d_init_shape(ids, ids.len() as int);
    assert(d_names_unique(d0)) by {
        assert forall|a: int, b: int| 0 <= a < b < d0.len() implies (#[trigger] d0[a]).0.name
            != (#[trigger] d0[b]).0.name by {
            assert(d0[a].0 == ids[a]);
            assert(d0[b].0 == ids[b]);
        }
    }
    assert(d_anon_clean(d0)) by {
        assert forall|i: int|
            0 <= i < d0.len() && (#[trigger] d0[i]).0.name == anonymous_default_export_spec()
            implies d0[i].0 == anon_ident_spec() by {
            assert(d0[i].0 == ids[i]);
            assert(ids[i].name != anonymous_default_export_spec());
        }
    }
    assert(d_refs_name_free(d0));
    lemma_nf_fold_items(d0, items, items.len() as int);
    let d = p2_fold_items(d0, items, items.len() as int);
    lemma_p1_fold_none(items, items.len() as int);
    assert(locals_dep_self_free(st.locals));
    assert(merge_fold(st.locals, d, d.len() as int) is Ok);
    lemma_merge_fold_self_free(st.locals, d, d.len() as int);
    assert(sd.local_variable_table == merge_fold(st.locals, d, d.len() as int).unwrap());
}

} // verus!
