//! Core data model: module-scoped symbols and their import/export relations.

use vstd::prelude::*;

use crate::table::StrTable;

verus! {

/// How a symbol of another module is referred to.
#[derive(Debug, PartialEq, Eq)]
pub enum FromType {
    /// `import { A } from m` / `export { a as A } from m`: the original
    /// exported name in the other module.
    Named(String),
    /// The other module's default export.
    Default,
    /// The union of the other module's named exports.
    Namespace,
}

pub ghost enum FromTypeV {
    Named(Seq<char>),
    Default,
    Namespace,
}

impl DeepView for FromType {
    type V = FromTypeV;

    open spec fn deep_view(&self) -> FromTypeV {
        match self {
            FromType::Named(s) => FromTypeV::Named(s@),
            FromType::Default => FromTypeV::Default,
            FromType::Namespace => FromTypeV::Namespace,
        }
    }
}

/// A reference from one module into another: a path plus the way the other
/// module's export is named.
#[derive(Debug, PartialEq, Eq)]
pub struct FromOtherModule {
    pub from: String,
    pub from_type: FromType,
}

pub ghost struct FromOtherModuleV {
    pub from: Seq<char>,
    pub from_type: FromTypeV,
}

impl DeepView for FromOtherModule {
    type V = FromOtherModuleV;

    open spec fn deep_view(&self) -> FromOtherModuleV {
        FromOtherModuleV { from: self.from@, from_type: self.from_type.deep_view() }
    }
}

/// What a named (or the default) export points at.
#[derive(Debug, PartialEq, Eq)]
pub enum ModuleExport {
    /// Re-exports a local of the same module.
    Local(String),
    /// Re-exports something of another module.
    ReExportFrom(FromOtherModule),
}

pub ghost enum ModuleExportV {
    Local(Seq<char>),
    ReExportFrom(FromOtherModuleV),
}

impl DeepView for ModuleExport {
    type V = ModuleExportV;

    open spec fn deep_view(&self) -> ModuleExportV {
        match self {
            ModuleExport::Local(s) => ModuleExportV::Local(s@),
            ModuleExport::ReExportFrom(f) => ModuleExportV::ReExportFrom(f.deep_view()),
        }
    }
}

/// One module-scope local: the locals of the same module it depends on
/// (sorted, deduplicated), and where it was imported from, if it was.
#[derive(Debug, PartialEq, Eq)]
pub struct ModuleScopedVariable {
    pub depend_on: Option<Vec<String>>,
    pub import_from: Option<FromOtherModule>,
}

pub ghost struct ModuleScopedVariableV {
    pub depend_on: Option<Seq<Seq<char>>>,
    pub import_from: Option<FromOtherModuleV>,
}

impl DeepView for ModuleScopedVariable {
    type V = ModuleScopedVariableV;

    open spec fn deep_view(&self) -> ModuleScopedVariableV {
        ModuleScopedVariableV {
            depend_on: match &self.depend_on {
                Some(v) => Some(v.deep_view()),
                None => None,
            },
            import_from: match &self.import_from {
                Some(f) => Some(f.deep_view()),
                None => None,
            },
        }
    }
}

/// Everything the symbol extractor learns about one module.
#[derive(Debug, PartialEq, Eq)]
pub struct SymbolDependency {
    /// Canonical path: the module's identity.
    pub canonical_path: String,
    pub local_variable_table: StrTable<ModuleScopedVariable>,
    pub named_export_table: StrTable<ModuleExport>,
    pub default_export: Option<ModuleExport>,
    /// Sources of `export * from m`, in source order.
    pub re_export_star_from: Option<Vec<String>>,
}

pub ghost struct SymbolDependencyV {
    pub canonical_path: Seq<char>,
    pub local_variable_table: Seq<(Seq<char>, ModuleScopedVariableV)>,
    pub named_export_table: Seq<(Seq<char>, ModuleExportV)>,
    pub default_export: Option<ModuleExportV>,
    pub re_export_star_from: Option<Seq<Seq<char>>>,
}

impl DeepView for SymbolDependency {
    type V = SymbolDependencyV;

    open spec fn deep_view(&self) -> SymbolDependencyV {
        SymbolDependencyV {
            canonical_path: self.canonical_path@,
            local_variable_table: self.local_variable_table@,
            named_export_table: self.named_export_table@,
            default_export: match &self.default_export {
                Some(e) => Some(e.deep_view()),
                None => None,
            },
            re_export_star_from: match &self.re_export_star_from {
                Some(v) => Some(v.deep_view()),
                None => None,
            },
        }
    }
}

impl SymbolDependency {
    /// Both tables have distinct keys.
    pub open spec fn wf(&self) -> bool {
        self.local_variable_table.wf() && self.named_export_table.wf()
    }
}

/// The error kinds of the analysis. Extraction errors abort the whole build;
/// query errors abort only that query.
#[derive(Clone, Copy, PartialEq, Eq, Structural, Debug)]
pub enum AnalysisError {
    /// The resolver found no file for an import specifier.
    UnresolvedImport,
    /// Two named exports share a name, or a module declares two defaults.
    DuplicateExport,
    /// The same lexical binding was introduced twice at module scope.
    DuplicateBinding,
    /// The same module was added to the graph twice.
    DuplicateModule,
    /// `export * from m` introduces a name that is already present.
    WildcardExportConflict,
    /// The `LABELS` object is malformed.
    InvalidLabelsShape,
    /// The tracer was asked for a symbol the graph does not hold.
    UnknownSymbol,
    /// A route entry's `path` value is not a string literal.
    InvalidRouteObject,
    /// A namespace re-export cannot be a default export.
    InvalidDefaultExport,
    /// No translation matched a search query.
    NotFound,
    /// The tracer ran out of steps: the used-by graph has a cycle.
    CircularDependency,
    /// A portable artifact could not be read back.
    MalformedArtifact,
}

/// Duplicate a vector of strings, value for value.
pub fn dup_strings(v: &Vec<String>) -> (r: Vec<String>)
    ensures
        r.deep_view() == v.deep_view(),
{
    let mut r: Vec<String> = Vec::new();
    let n = v.len();
    for i in 0..n
        invariant
            n == v.len(),
            r.deep_view() =~~= v.deep_view().take(i as int),
    {
        let ghost prev = r.deep_view();
        let s = v[i].clone();
        proof {
            assert(s@ == v@[i as int]@);
        }
        r.push(s);
        proof {
            assert(r.deep_view() =~~= prev.push(v@[i as int]@));
            assert(r.deep_view() =~~= v.deep_view().take(i + 1 as int));
        }
    }
    proof {
        assert(v.deep_view().take(n as int) =~~= v.deep_view());
    }
    r
}

impl FromType {
    pub fn duplicate(&self) -> (r: Self)
        ensures
            r.deep_view() == self.deep_view(),
    {
        match self {
            FromType::Named(s) => FromType::Named(s.clone()),
            FromType::Default => FromType::Default,
            FromType::Namespace => FromType::Namespace,
        }
    }
}

impl FromOtherModule {
    pub fn duplicate(&self) -> (r: Self)
        ensures
            r.deep_view() == self.deep_view(),
    {
        FromOtherModule { from: self.from.clone(), from_type: self.from_type.duplicate() }
    }
}

impl ModuleExport {
    pub fn duplicate(&self) -> (r: Self)
        ensures
            r.deep_view() == self.deep_view(),
    {
        match self {
            ModuleExport::Local(s) => ModuleExport::Local(s.clone()),
            ModuleExport::ReExportFrom(f) => ModuleExport::ReExportFrom(f.duplicate()),
        }
    }
}

} // verus!
