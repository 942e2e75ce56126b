//! Plain-data model of one parsed module, at the granularity the analysis
//! reads: the top-level items, with every identifier carried as its
//! lexically-resolved form (name plus opaque scope tag). A parser front end
//! produces values of these types from source text; the library never sees
//! the source itself.

use vstd::prelude::*;

verus! {

/// A lexically-resolved identifier: two textual occurrences of the same name
/// denote the same binding exactly when their scope tags agree.
pub struct Ident {
    pub name: String,
    pub scope: u64,
}

pub ghost struct IdentV {
    pub name: Seq<char>,
    pub scope: u64,
}

impl DeepView for Ident {
    type V = IdentV;

    open spec fn deep_view(&self) -> IdentV {
        IdentV { name: self.name@, scope: self.scope }
    }
}

impl Ident {
    pub fn duplicate(&self) -> (r: Self)
        ensures
            r.deep_view() == self.deep_view(),
    {
        Ident { name: self.name.clone(), scope: self.scope }
    }

    pub fn same_as(&self, other: &Ident) -> (r: bool)
        ensures
            r == (self.deep_view() == other.deep_view()),
    {
        self.name == other.name && self.scope == other.scope
    }
}

/// One specifier of an `import ... from src` item.
pub enum ImportSpec {
    /// `import { X } from m` (imported `None`) or `import { X as Y } from m`
    /// (imported `Some("X")`; `Some("default")` binds the default export).
    Named { local: Ident, imported: Option<String> },
    /// `import { 'literal' as Y } from m`: recorded by the parser, skipped by
    /// the extractor.
    NamedStr { local: Ident },
    /// `import D from m`.
    Default { local: Ident },
    /// `import * as N from m`.
    Namespace { local: Ident },
}

/// One specifier of an `export { ... }` item, with or without a source.
pub enum ExportSpec {
    /// `export * as name from m`; `None` when the name is a string literal,
    /// which the extractor skips.
    Namespace { name: Option<String> },
    /// A bare `export v from m` specifier; skipped by the extractor.
    DefaultSpecifier,
    /// `export { orig }` (exported `None`) or `export { orig as exported }`.
    Named { orig: String, exported: Option<String> },
    /// A specifier whose name is a string literal; skipped.
    NamedStr,
}

/// A top-level binding together with the lexically-resolved identifiers that
/// occur in its initializer or body.
pub struct Binding {
    pub ident: Ident,
    pub refs: Vec<Ident>,
}

/// The expression of an `export default <expr>` item, at the granularity the
/// extractor distinguishes.
pub enum DefaultExpr {
    /// `export default name`.
    Ident(String),
    /// `export default [ ... ]`, with the identifiers inside.
    Array(Vec<Ident>),
    /// `export default { ... }`, with the identifiers inside.
    ObjectLit(Vec<Ident>),
    /// `export default () => ...`: declares the anonymous local; its body is
    /// not walked for dependencies.
    Arrow,
    /// Any other expression: no effect on the tables.
    Other,
}

/// One top-level item of a module.
pub enum ModuleItem {
    /// `import ... from src`; an empty specifier list is a side-effect-only
    /// import and records nothing.
    Import { src: String, specifiers: Vec<ImportSpec> },
    /// A declaration (`var`/`let`/`const`/`function`/`class`), exported or
    /// not. Destructuring patterns are not bindings and are absent here.
    Decl { bindings: Vec<Binding>, exported: bool },
    /// `export { ... }` without a source.
    NamedExportList { specifiers: Vec<ExportSpec> },
    /// `export { ... } from src` / `export * as n from src`.
    NamedExportFrom { src: String, specifiers: Vec<ExportSpec> },
    /// `export default function f() {}` / `export default class C {}`, with
    /// `ident: None` for the anonymous forms; `refs` are the identifiers in
    /// the body.
    DefaultExportDecl { ident: Option<Ident>, refs: Vec<Ident> },
    /// `export default <expr>`.
    DefaultExportExpr { expr: DefaultExpr },
    /// `export * from src`.
    ExportAll { src: String },
    /// TypeScript-only items and statements that bind nothing.
    Other,
}

} // verus!
