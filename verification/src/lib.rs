//! Symbol-level dependency analysis for JavaScript/TypeScript projects.
//!
//! The crate builds, for a whole project, a per-module table of module-scoped
//! symbols and their import/export relations, inverts the "depends on"
//! relation into a "used by" graph, and answers reachability queries over that
//! graph. All analysis runs on plain data models of the source modules; the
//! parser front end that produces those models lives outside the library.

use vstd::prelude::*;

pub mod codec;
pub mod depend_on_graph;
pub mod extractor;
pub mod i18n;
pub mod module_model;
pub mod path_resolver;
pub mod portable;
pub mod route;
pub mod scheduler;
pub mod strorder;
pub mod table;
pub mod tracker;
pub mod types;
pub mod used_by_graph;

verus! {

/// Reserved local name that stands for an anonymous default-exported
/// expression. The characters are inadmissible in JavaScript identifiers, so
/// the name can never collide with a source-level binding.
pub fn anonymous_default_export_name() -> (r: String)
    ensures
        r@ == anonymous_default_export_spec(),
{
    proof {
        reveal_strlit("+-*/default@#$%");
    }
    String::from_str("+-*/default@#$%")
}

/// The view of the reserved anonymous-default-export name.
pub open spec fn anonymous_default_export_spec() -> Seq<char> {
    "+-*/default@#$%"@
}

} // verus!
