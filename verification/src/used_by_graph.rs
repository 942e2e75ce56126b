//! The used-by graph: the depend-on relation inverted at symbol
//! granularity. Built in one pass over a complete depend-on graph and then
//! only read.

use vstd::prelude::*;

use crate::anonymous_default_export_spec;
use crate::depend_on_graph::DependOnGraph;
use crate::table::distinct_keys;
use crate::table::seq_contains_key;
use crate::table::seq_key_index;
use crate::table::StrTable;
use crate::types::AnalysisError;
use crate::types::FromOtherModuleV;
use crate::types::FromTypeV;
use crate::types::ModuleExportV;
use crate::types::ModuleScopedVariableV;
use crate::types::SymbolDependencyV;

verus! {

/// The symbol that uses another symbol.
#[derive(Debug, PartialEq, Eq)]
pub enum UsedByType {
    NamedExport(String),
    DefaultExport,
    LocalVar(String),
}

pub ghost enum UsedByTypeV {
    NamedExport(Seq<char>),
    DefaultExport,
    LocalVar(Seq<char>),
}

impl DeepView for UsedByType {
    type V = UsedByTypeV;

    open spec fn deep_view(&self) -> UsedByTypeV {
        match self {
            UsedByType::NamedExport(s) => UsedByTypeV::NamedExport(s@),
            UsedByType::DefaultExport => UsedByTypeV::DefaultExport,
            UsedByType::LocalVar(s) => UsedByTypeV::LocalVar(s@),
        }
    }
}

/// A use from another module: the using module and the symbol there.
#[derive(Debug, PartialEq, Eq)]
pub struct UsedByOther {
    pub by: String,
    pub by_type: UsedByType,
}

pub ghost struct UsedByOtherV {
    pub by: Seq<char>,
    pub by_type: UsedByTypeV,
}

impl DeepView for UsedByOther {
    type V = UsedByOtherV;

    open spec fn deep_view(&self) -> UsedByOtherV {
        UsedByOtherV { by: self.by@, by_type: self.by_type.deep_view() }
    }
}

/// One edge of the used-by graph.
#[derive(Debug, PartialEq, Eq)]
pub enum UsedBy {
    /// Used by a symbol of the same module.
    Itself(UsedByType),
    /// Used by a symbol of another module.
    Other(UsedByOther),
}

pub ghost enum UsedByV {
    Itself(UsedByTypeV),
    Other(UsedByOtherV),
}

impl DeepView for UsedBy {
    type V = UsedByV;

    open spec fn deep_view(&self) -> UsedByV {
        match self {
            UsedBy::Itself(t) => UsedByV::Itself(t.deep_view()),
            UsedBy::Other(o) => UsedByV::Other(o.deep_view()),
        }
    }
}

impl UsedByType {
    pub fn duplicate(&self) -> (r: Self)
        ensures
            r.deep_view() == self.deep_view(),
    {
        match self {
            UsedByType::NamedExport(s) => UsedByType::NamedExport(s.clone()),
            UsedByType::DefaultExport => UsedByType::DefaultExport,
            UsedByType::LocalVar(s) => UsedByType::LocalVar(s.clone()),
        }
    }
}

impl UsedBy {
    pub fn duplicate(&self) -> (r: Self)
        ensures
            r.deep_view() == self.deep_view(),
    {
        match self {
            UsedBy::Itself(t) => UsedBy::Itself(t.duplicate()),
            UsedBy::Other(o) => UsedBy::Other(
                UsedByOther { by: o.by.clone(), by_type: o.by_type.duplicate() },
            ),
        }
    }
}

/// One module of the used-by graph: a used-by list for each local, each
/// named export, and the default export. `None` means no recorded user.
#[derive(Debug, PartialEq, Eq)]
pub struct Module {
    pub local_variable_table: StrTable<Option<Vec<UsedBy>>>,
    pub named_export_table: StrTable<Option<Vec<UsedBy>>>,
    pub default_export: Option<Vec<UsedBy>>,
}

pub ghost struct ModuleV {
    pub local_variable_table: Seq<(Seq<char>, Option<Seq<UsedByV>>)>,
    pub named_export_table: Seq<(Seq<char>, Option<Seq<UsedByV>>)>,
    pub default_export: Option<Seq<UsedByV>>,
}

impl DeepView for Module {
    type V = ModuleV;

    open spec fn deep_view(&self) -> ModuleV {
        ModuleV {
            local_variable_table: self.local_variable_table@,
            named_export_table: self.named_export_table@,
            default_export: match &self.default_export {
                Some(l) => Some(l.deep_view()),
                None => None,
            },
        }
    }
}

pub type GraphV = Seq<(Seq<char>, ModuleV)>;

/// `used_by` appended to a list, which starts on first use.
pub open spec fn add_to_list(l: Option<Seq<UsedByV>>, ub: UsedByV) -> Option<Seq<UsedByV>> {
    match l {
        Some(x) => Some(x.push(ub)),
        None => Some(seq![ub]),
    }
}

/// Record on `g` that local `sym` of module `mid` is used by `ub`; missing
/// modules or symbols are left alone (dangling paths dangle silently).
pub open spec fn g_add_local(g: GraphV, mid: Seq<char>, sym: Seq<char>, ub: UsedByV) -> GraphV {
    if !seq_contains_key(g, mid) {
        g
    } else {
        let mi = seq_key_index(g, mid);
        let m = g[mi].1;
        if !seq_contains_key(m.local_variable_table, sym) {
            g
        } else {
            let si = seq_key_index(m.local_variable_table, sym);
            g.update(
                mi,
                (
                    mid,
                    ModuleV {
                        local_variable_table: m.local_variable_table.update(
                            si,
                            (sym, add_to_list(m.local_variable_table[si].1, ub)),
                        ),
                        named_export_table: m.named_export_table,
                        default_export: m.default_export,
                    },
                ),
            )
        }
    }
}

/// As `g_add_local`, for a named export.
pub open spec fn g_add_named(g: GraphV, mid: Seq<char>, name: Seq<char>, ub: UsedByV) -> GraphV {
    if !seq_contains_key(g, mid) {
        g
    } else {
        let mi = seq_key_index(g, mid);
        let m = g[mi].1;
        if !seq_contains_key(m.named_export_table, name) {
            g
        } else {
            let si = seq_key_index(m.named_export_table, name);
            g.update(
                mi,
                (
                    mid,
                    ModuleV {
                        local_variable_table: m.local_variable_table,
                        named_export_table: m.named_export_table.update(
                            si,
                            (name, add_to_list(m.named_export_table[si].1, ub)),
                        ),
                        default_export: m.default_export,
                    },
                ),
            )
        }
    }
}

/// As `g_add_local`, for the default export.
pub open spec fn g_add_default(g: GraphV, mid: Seq<char>, ub: UsedByV) -> GraphV {
    if !seq_contains_key(g, mid) {
        g
    } else {
        let mi = seq_key_index(g, mid);
        let m = g[mi].1;
        g.update(
            mi,
            (
                mid,
                ModuleV {
                    local_variable_table: m.local_variable_table,
                    named_export_table: m.named_export_table,
                    default_export: add_to_list(m.default_export, ub),
                },
            ),
        )
    }
}

/// Record a use on every named export of `mid` except the anonymous
/// default name (a namespace import consumes them all).
pub open spec fn g_add_all_named(g: GraphV, mid: Seq<char>, ub: UsedByV) -> GraphV {
    if !seq_contains_key(g, mid) {
        g
    } else {
        let mi = seq_key_index(g, mid);
        let m = g[mi].1;
        g.update(
            mi,
            (
                mid,
                ModuleV {
                    local_variable_table: m.local_variable_table,
                    named_export_table: m.named_export_table.map_values(
                        |p: (Seq<char>, Option<Seq<UsedByV>>)| if p.0
                            == anonymous_default_export_spec() {
                            p
                        } else {
                            (p.0, add_to_list(p.1, ub))
                        },
                    ),
                    default_export: m.default_export,
                },
            ),
        )
    }
}

/// The intra-module dependency edges of one local.
pub open spec fn inv_deps(
    g: GraphV,
    mid: Seq<char>,
    sym: Seq<char>,
    deps: Seq<Seq<char>>,
    n: int,
) -> GraphV
    decreases n,
{
    if n <= 0 {
        g
    } else {
        g_add_local(
            inv_deps(g, mid, sym, deps, n - 1),
            mid,
            deps[n - 1],
            UsedByV::Itself(UsedByTypeV::LocalVar(sym)),
        )
    }
}

/// The edges a `FromOtherModule` reference induces on the source module.
pub open spec fn inv_from(g: GraphV, f: FromOtherModuleV, ub: UsedByV) -> GraphV {
    match f.from_type {
        FromTypeV::Named(orig) => g_add_named(g, f.from, orig, ub),
        FromTypeV::Default => g_add_default(g, f.from, ub),
        FromTypeV::Namespace => g_add_all_named(g, f.from, ub),
    }
}

/// The edges of one local-table entry.
pub open spec fn inv_local_entry(
    g: GraphV,
    mid: Seq<char>,
    ent: (Seq<char>, ModuleScopedVariableV),
) -> GraphV {
    let g1 = match ent.1.depend_on {
        Some(deps) => inv_deps(g, mid, ent.0, deps, deps.len() as int),
        None => g,
    };
    match ent.1.import_from {
        Some(f) => inv_from(g1, f, UsedByV::Other(UsedByOtherV { by: mid, by_type: UsedByTypeV::LocalVar(ent.0) })),
        None => g1,
    }
}

pub open spec fn inv_locals(
    g: GraphV,
    mid: Seq<char>,
    locals: Seq<(Seq<char>, ModuleScopedVariableV)>,
    n: int,
) -> GraphV
    decreases n,
{
    if n <= 0 {
        g
    } else {
        inv_local_entry(inv_locals(g, mid, locals, n - 1), mid, locals[n - 1])
    }
}

/// The edges of one named-export entry.
pub open spec fn inv_named_entry(g: GraphV, mid: Seq<char>, ent: (Seq<char>, ModuleExportV)) -> GraphV {
    match ent.1 {
        ModuleExportV::Local(sym) => g_add_local(
            g,
            mid,
            sym,
            UsedByV::Itself(UsedByTypeV::NamedExport(ent.0)),
        ),
        ModuleExportV::ReExportFrom(f) => inv_from(
            g,
            f,
            UsedByV::Other(UsedByOtherV { by: mid, by_type: UsedByTypeV::NamedExport(ent.0) }),
        ),
    }
}

pub open spec fn inv_named(
    g: GraphV,
    mid: Seq<char>,
    named: Seq<(Seq<char>, ModuleExportV)>,
    n: int,
) -> GraphV
    decreases n,
{
    if n <= 0 {
        g
    } else {
        inv_named_entry(inv_named(g, mid, named, n - 1), mid, named[n - 1])
    }
}

/// The edges of the default export. A namespace re-export as default is
/// not legal and is rejected.
pub open spec fn inv_default(g: GraphV, mid: Seq<char>, de: Option<ModuleExportV>) -> Result<
    GraphV,
    AnalysisError,
> {
    match de {
        None => Ok(g),
        Some(ModuleExportV::Local(sym)) => Ok(
            g_add_local(g, mid, sym, UsedByV::Itself(UsedByTypeV::DefaultExport)),
        ),
        Some(ModuleExportV::ReExportFrom(f)) => match f.from_type {
            FromTypeV::Namespace => Err(AnalysisError::InvalidDefaultExport),
            _ => Ok(
                inv_from(
                    g,
                    f,
                    UsedByV::Other(UsedByOtherV { by: mid, by_type: UsedByTypeV::DefaultExport }),
                ),
            ),
        },
    }
}

/// All edges of one module.
pub open spec fn inv_module(g: GraphV, mid: Seq<char>, sd: SymbolDependencyV) -> Result<
    GraphV,
    AnalysisError,
> {
    let g1 = inv_locals(g, mid, sd.local_variable_table, sd.local_variable_table.len() as int);
    let g2 = inv_named(g1, mid, sd.named_export_table, sd.named_export_table.len() as int);
    inv_default(g2, mid, sd.default_export)
}

pub open spec fn inv_fold(
    g: GraphV,
    dg: Seq<(Seq<char>, SymbolDependencyV)>,
    n: int,
) -> Result<GraphV, AnalysisError>
    decreases n,
{
    if n <= 0 {
        Ok(g)
    } else {
        match inv_fold(g, dg, n - 1) {
            Err(e) => Err(e),
            Ok(g1) => inv_module(g1, dg[n - 1].0, dg[n - 1].1),
        }
    }
}

/// One table of the initial graph: the same keys, no recorded users.
pub open spec fn none_table<T>(t: Seq<(Seq<char>, T)>) -> Seq<(Seq<char>, Option<Seq<UsedByV>>)> {
    t.map_values(|p: (Seq<char>, T)| (p.0, None::<Seq<UsedByV>>))
}

/// The initial graph: one module per depend-on entry, no edges.
pub open spec fn init_graph(dg: Seq<(Seq<char>, SymbolDependencyV)>) -> GraphV {
    dg.map_values(
        |p: (Seq<char>, SymbolDependencyV)| (
            p.0,
            ModuleV {
                local_variable_table: none_table(p.1.local_variable_table),
                named_export_table: none_table(p.1.named_export_table),
                default_export: None,
            },
        ),
    )
}

/// What `UsedByGraph::from` computes over the depend-on table.
pub open spec fn used_by_graph_spec(dg: Seq<(Seq<char>, SymbolDependencyV)>) -> Result<
    GraphV,
    AnalysisError,
> {
    inv_fold(init_graph(dg), dg, dg.len() as int)
}

proof fn lemma_inv_fold_error(
    g: GraphV,
    dg: Seq<(Seq<char>, SymbolDependencyV)>,
    n: int,
    m: int,
    e: AnalysisError,
)
    requires
        0 <= n <= m,
        inv_fold(g, dg, n) == Err::<GraphV, AnalysisError>(e),
    ensures
        inv_fold(g, dg, m) == Err::<GraphV, AnalysisError>(e),
    decreases m - n,
{
    if m > n {
        lemma_inv_fold_error(g, dg, n, m - 1, e);
    }
}

/// The used-by graph of a whole project.
#[derive(Debug, PartialEq, Eq)]
pub struct UsedByGraph {
    pub modules: StrTable<Module>,
}

impl UsedByGraph {
    /// Keys are pairwise distinct at every level.
    pub open spec fn wf(&self) -> bool {
        self.modules.wf() && forall|i: int|
            0 <= i < self.modules@.len() ==> distinct_keys((#[trigger] self.modules@[i]).1.local_variable_table)
                && distinct_keys(self.modules@[i].1.named_export_table)
    }

    /// An empty used-by entry for every symbol of every module.
    pub fn new(depend_on_graph: &DependOnGraph) -> (r: Self)
        requires
            depend_on_graph.wf(),
        ensures
            r.modules@ == init_graph(depend_on_graph.table@),
            r.wf(),
    {
        let ghost dg = depend_on_graph.table@;
        let mut modules: StrTable<Module> = StrTable::new();
        let n = depend_on_graph.table.len();
        proof {
            assert(modules@ =~= init_graph(dg.take(0)));
        }
        for i in 0..n
            invariant
                n == dg.len(),
                dg == depend_on_graph.table@,
                depend_on_graph.wf(),
                modules.wf(),
                modules@ == init_graph(dg.take(i as int)),
                forall|j: int|
                    0 <= j < modules@.len() ==> distinct_keys(
                        (#[trigger] modules@[j]).1.local_variable_table,
                    ) && distinct_keys(modules@[j].1.named_export_table),
        {
            let mid = depend_on_graph.table.key_at(i);
            let sd = depend_on_graph.table.val_at(i);
            let locals = empty_lists(&sd.local_variable_table);
            let named = empty_lists(&sd.named_export_table);
            proof {
                assert(sd.deep_view() == dg[i as int].1);
                assert(locals@ == none_table(dg[i as int].1.local_variable_table));
                assert(named@ == none_table(dg[i as int].1.named_export_table));
                assert(!seq_contains_key(modules@, mid@)) by {
                    assert(keys_same(modules@, dg.take(i as int)));
                    if seq_contains_key(modules@, mid@) {
                        let j = choose|j: int|
                            0 <= j < modules@.len() && modules@[j].0 == mid@;
                        assert(dg.take(i as int)[j].0 == dg[j].0);
                        assert(dg[j].0 == dg[i as int].0);
                    }
                }
            }
            let m = Module {
                local_variable_table: locals,
                named_export_table: named,
                default_export: None,
            };
            modules.push_new(mid.clone(), m);
            proof {
                assert(modules@ =~= init_graph(dg.take(i + 1))) by {
                    assert forall|j: int| 0 <= j < modules@.len() implies modules@[j] == init_graph(
                        dg.take(i + 1),
                    )[j] by {
                        assert(dg.take(i + 1)[j] == dg[j]);
                        if j < i {
                            assert(init_graph(dg.take(i as int))[j] == modules@[j]);
                            assert(dg.take(i as int)[j] == dg[j]);
                        }
                    }
                }
            }
        }
        proof {
            assert(dg.take(n as int) =~= dg);
        }
        UsedByGraph { modules }
    }
}

/// Whether two pair sequences bind exactly the same keys at the same
/// positions.
pub open spec fn keys_same<A, B>(a: Seq<(Seq<char>, A)>, b: Seq<(Seq<char>, B)>) -> bool {
    a.len() == b.len() && forall|i: int| 0 <= i < a.len() ==> (#[trigger] a[i]).0 == b[i].0
}

/// A `None` used-by entry under each key of the given table.
fn empty_lists<T: DeepView>(t: &StrTable<T>) -> (r: StrTable<Option<Vec<UsedBy>>>)
    requires
        t.wf(),
    ensures
        r@ == none_table(t@),
        r.wf(),
{
    let mut r: StrTable<Option<Vec<UsedBy>>> = StrTable::new();
    let n = t.len();
    proof {
        assert(r@ =~= none_table(t@.take(0)));
    }
    for i in 0..n
        invariant
            n == t@.len(),
            t.wf(),
            r.wf(),
            r@ == none_table(t@.take(i as int)),
    {
        let k = t.key_at(i);
        proof {
            assert(!seq_contains_key(r@, k@)) by {
                if seq_contains_key(r@, k@) {
                    let j = choose|j: int| 0 <= j < r@.len() && r@[j].0 == k@;
                    assert(t@.take(i as int)[j].0 == t@[j].0);
                }
            }
        }
        r.push_new(k.clone(), None);
        proof {
            assert(r@ =~= none_table(t@.take(i + 1))) by {
                assert forall|j: int| 0 <= j < r@.len() implies r@[j] == none_table(
                    t@.take(i + 1),
                )[j] by {
                    assert(t@.take(i + 1)[j] == t@[j]);
                    if j < i {
                        assert(none_table(t@.take(i as int))[j] == r@[j]);
                        assert(t@.take(i as int)[j] == t@[j]);
                    }
                }
            }
        }
    }
    proof {
        assert(t@.take(n as int) =~= t@);
    }
    r
}

} // verus!

verus! {

/// Append one edge to a used-by list, starting the list on first use.
fn push_used_by(l: &mut Option<Vec<UsedBy>>, ub: UsedBy)
    ensures
        final(l).deep_view() == add_to_list(old(l).deep_view(), ub.deep_view()),
{
    let ghost ubv = ub.deep_view();
    match l {
        Some(list) => {
            let ghost pre = list.deep_view();
            let ghost lpre = list@;
            list.push(ub);
            proof {
                assert(list.deep_view() =~= pre.push(ubv)) by {
                    assert forall|j: int| 0 <= j < list.deep_view().len() implies list.deep_view()[j]
                        == pre.push(ubv)[j] by {
                        assert(list.deep_view()[j] == list@[j].deep_view());
                        if j < pre.len() {
                            assert(list@[j] == lpre[j]);
                        }
                    }
                }
            }
        }
        None => {
            let mut list: Vec<UsedBy> = Vec::new();
            list.push(ub);
            proof {
                assert(list.deep_view() =~= seq![ubv]) by {
                    assert(list.deep_view()[0] == list@[0].deep_view());
                }
            }
            *l = Some(list);
        }
    }
}

impl UsedByGraph {
    /// Record that local `symbol_name` of `module_id` is used by `used_by`.
    pub fn add_used_by_to_local_variable(
        &mut self,
        module_id: &String,
        symbol_name: &String,
        used_by: UsedBy,
    )
        requires
            old(self).wf(),
        ensures
            final(self).wf(),
            final(self).modules@ == g_add_local(
                old(self).modules@,
                module_id@,
                symbol_name@,
                used_by.deep_view(),
            ),
    {
        let ghost g0 = self.modules@;
        let ghost ubv = used_by.deep_view();
        match self.modules.index_of(module_id) {
            None => {
            }
            Some(mi) => {
                let m = self.modules.val_at_mut(mi);
                proof {
                    assert(distinct_keys(g0[mi as int].1.local_variable_table));
                }
                match m.local_variable_table.index_of(symbol_name) {
                    None => {
                    }
                    Some(si) => {
                        let l = m.local_variable_table.val_at_mut(si);
                        push_used_by(l, used_by);
                    }
                }
            }
        }
        proof {
            assert(self.modules@ =~= g_add_local(g0, module_id@, symbol_name@, ubv));
            lemma_wf_update(g0, self.modules@);
        }
    }

    /// Record that named export `exported_name` of `module_id` is used by
    /// `used_by`.
    pub fn add_used_by_to_named_export(
        &mut self,
        module_id: &String,
        exported_name: &String,
        used_by: UsedBy,
    )
        requires
            old(self).wf(),
        ensures
            final(self).wf(),
            final(self).modules@ == g_add_named(
                old(self).modules@,
                module_id@,
                exported_name@,
                used_by.deep_view(),
            ),
    {
        let ghost g0 = self.modules@;
        let ghost ubv = used_by.deep_view();
        match self.modules.index_of(module_id) {
            None => {
            }
            Some(mi) => {
                let m = self.modules.val_at_mut(mi);
                proof {
                    assert(distinct_keys(g0[mi as int].1.named_export_table));
                }
                match m.named_export_table.index_of(exported_name) {
                    None => {
                    }
                    Some(si) => {
                        let l = m.named_export_table.val_at_mut(si);
                        push_used_by(l, used_by);
                    }
                }
            }
        }
        proof {
            assert(self.modules@ =~= g_add_named(g0, module_id@, exported_name@, ubv));
            lemma_wf_update(g0, self.modules@);
        }
    }

    /// Record that the default export of `module_id` is used by `used_by`.
    pub fn add_used_by_to_default_export(&mut self, module_id: &String, used_by: UsedBy)
        requires
            old(self).wf(),
        ensures
            final(self).wf(),
            final(self).modules@ == g_add_default(
                old(self).modules@,
                module_id@,
                used_by.deep_view(),
            ),
    {
        let ghost g0 = self.modules@;
        let ghost ubv = used_by.deep_view();
        match self.modules.index_of(module_id) {
            None => {
            }
            Some(mi) => {
                let m = self.modules.val_at_mut(mi);
                push_used_by(&mut m.default_export, used_by);
            }
        }
        proof {
            assert(self.modules@ =~= g_add_default(g0, module_id@, ubv));
            lemma_wf_update(g0, self.modules@);
        }
    }

    /// Record a use on every named export of `module_id` but the anonymous
    /// default name.
    pub fn add_used_by_to_all_named_exports(&mut self, module_id: &String, used_by: UsedBy)
        requires
            old(self).wf(),
        ensures
            final(self).wf(),
            final(self).modules@ == g_add_all_named(
                old(self).modules@,
                module_id@,
                used_by.deep_view(),
            ),
    {
        let ghost g0 = self.modules@;
        let ghost ubv = used_by.deep_view();
        match self.modules.index_of(module_id) {
            None => {
            }
            Some(mi) => {
                let anon = crate::anonymous_default_export_name();
                let m = self.modules.val_at_mut(mi);
                let ghost named0 = m.named_export_table@;
                let n = m.named_export_table.len();
                for k in 0..n
                    invariant
                        n == m.named_export_table@.len(),
                        n == named0.len(),
                        anon@ == anonymous_default_export_spec(),
                        ubv == used_by.deep_view(),
                        g0 == old(self).modules@,
                        seq_contains_key(g0, module_id@),
                        mi < g0.len(),
                        mi as int == seq_key_index(g0, module_id@),
                        named0 == g0[mi as int].1.named_export_table,
                        m.deep_view().local_variable_table == g0[mi as int].1.local_variable_table,
                        m.deep_view().default_export == g0[mi as int].1.default_export,
                        m.named_export_table.wf(),
                        forall|j: int| k <= j < n ==> m.named_export_table@[j] == named0[j],
                        forall|j: int|
                            0 <= j < k ==> m.named_export_table@[j] == (if named0[j].0
                                == anonymous_default_export_spec() {
                                named0[j]
                            } else {
                                (named0[j].0, add_to_list(named0[j].1, ubv))
                            }),
                {
                    let key_is_anon = *m.named_export_table.key_at(k) == anon;
                    if !key_is_anon {
                        let l = m.named_export_table.val_at_mut(k);
                        push_used_by(l, used_by.duplicate());
                    }
                }
                proof {
                    assert(m.named_export_table@ =~= named0.map_values(
                        |p: (Seq<char>, Option<Seq<UsedByV>>)| if p.0
                            == anonymous_default_export_spec() {
                            p
                        } else {
                            (p.0, add_to_list(p.1, ubv))
                        },
                    ));
                }
            }
        }
        proof {
            assert(self.modules@ =~= g_add_all_named(g0, module_id@, ubv));
            lemma_wf_update(g0, self.modules@);
        }
    }
}

/// Key structure is preserved by updates that keep every key in place, so
/// well-formedness carries over.
proof fn lemma_wf_update(g0: GraphV, g1: GraphV)
    requires
        distinct_keys(g0),
        forall|i: int|
            0 <= i < g0.len() ==> distinct_keys((#[trigger] g0[i]).1.local_variable_table)
                && distinct_keys(g0[i].1.named_export_table),
        g1.len() == g0.len(),
        forall|i: int| 0 <= i < g1.len() ==> (#[trigger] g1[i]).0 == g0[i].0,
        forall|i: int|
            0 <= i < g1.len() ==> keys_same((#[trigger] g1[i]).1.local_variable_table, g0[i].1.local_variable_table)
                && keys_same(g1[i].1.named_export_table, g0[i].1.named_export_table),
    ensures
        distinct_keys(g1),
        forall|i: int|
            0 <= i < g1.len() ==> distinct_keys((#[trigger] g1[i]).1.local_variable_table)
                && distinct_keys(g1[i].1.named_export_table),
{
    assert forall|i: int, j: int| 0 <= i < j < g1.len() implies g1[i].0 != g1[j].0 by {
        assert(g0[i].0 != g0[j].0);
    }
    assert forall|i: int|
        0 <= i < g1.len() implies distinct_keys(
        (#[trigger] g1[i]).1.local_variable_table,
    ) && distinct_keys(g1[i].1.named_export_table) by {
        let lt = g1[i].1.local_variable_table;
        let lt0 = g0[i].1.local_variable_table;
        assert forall|a: int, b: int| 0 <= a < b < lt.len() implies lt[a].0 != lt[b].0 by {
            assert(lt[a].0 == lt0[a].0 && lt[b].0 == lt0[b].0);
            assert(lt0[a].0 != lt0[b].0);
        }
        let nt = g1[i].1.named_export_table;
        let nt0 = g0[i].1.named_export_table;
        assert forall|a: int, b: int| 0 <= a < b < nt.len() implies nt[a].0 != nt[b].0 by {
            assert(nt[a].0 == nt0[a].0 && nt[b].0 == nt0[b].0);
            assert(nt0[a].0 != nt0[b].0);
        }
    }
}

} // verus!

verus! {

impl UsedByGraph {
    /// Invert a complete depend-on graph into the used-by graph, exactly as
    /// `used_by_graph_spec` describes; the one rejected input is a module
    /// whose default export is a namespace re-export.
    pub fn from(depend_on_graph: &DependOnGraph) -> (r: Result<UsedByGraph, AnalysisError>)
        requires
            depend_on_graph.wf(),
        ensures
            match r {
                Ok(g) => used_by_graph_spec(depend_on_graph.table@) == Ok::<
                    GraphV,
                    AnalysisError,
                >(g.modules@) && g.wf(),
                Err(e) => used_by_graph_spec(depend_on_graph.table@) == Err::<
                    GraphV,
                    AnalysisError,
                >(e),
            },
    {
        let ghost dg = depend_on_graph.table@;
        let mut g = UsedByGraph::new(depend_on_graph);
        let ghost ginit = g.modules@;
        let n = depend_on_graph.table.len();
        for i in 0..n
            invariant
                n == dg.len(),
                dg == depend_on_graph.table@,
                depend_on_graph.wf(),
                ginit == init_graph(dg),
                g.wf(),
                inv_fold(ginit, dg, i as int) == Ok::<GraphV, AnalysisError>(g.modules@),
        {
            let mid = depend_on_graph.table.key_at(i);
            let sd = depend_on_graph.table.val_at(i);
            let ghost sdv = dg[i as int].1;
            let ghost gm0 = g.modules@;
            proof {
                assert(sd.deep_view() == sdv);
            }
            // local variables
            let ln = sd.local_variable_table.len();
            for j in 0..ln
                invariant
                    ln == sd.local_variable_table@.len(),
                    sd.deep_view() == sdv,
                    sd.local_variable_table@ == sdv.local_variable_table,
                    mid@ == dg[i as int].0,
                    g.wf(),
                    inv_locals(gm0, mid@, sdv.local_variable_table, j as int) == g.modules@,
            {
                let sym = sd.local_variable_table.key_at(j);
                let msv = sd.local_variable_table.val_at(j);
                let ghost ge0 = g.modules@;
                let ghost ent = sdv.local_variable_table[j as int];
                proof {
                    assert(msv.deep_view() == ent.1);
                    assert(sym@ == ent.0);
                }
                match &msv.depend_on {
                    Some(deps) => {
                        let dn = deps.len();
                        let ghost depsv = deps.deep_view();
                        for d in 0..dn
                            invariant
                                dn == deps@.len(),
                                depsv == deps.deep_view(),
                                ent == sdv.local_variable_table[j as int],
                                ent.1.depend_on == Some(depsv),
                                sym@ == ent.0,
                                mid@ == dg[i as int].0,
                                g.wf(),
                                inv_deps(ge0, mid@, ent.0, depsv, d as int) == g.modules@,
                        {
                            proof {
                                assert(deps.deep_view()[d as int] == deps@[d as int]@);
                            }
                            g.add_used_by_to_local_variable(
                                mid,
                                &deps[d],
                                UsedBy::Itself(UsedByType::LocalVar(sym.clone())),
                            );
                        }
                    }
                    None => {}
                }
                let ghost g1 = g.modules@;
                proof {
                    assert(g1 == match ent.1.depend_on {
                        Some(depsx) => inv_deps(ge0, mid@, ent.0, depsx, depsx.len() as int),
                        None => ge0,
                    });
                }
                match &msv.import_from {
                    Some(f) => {
                        let ub = UsedBy::Other(
                            UsedByOther {
                                by: mid.clone(),
                                by_type: UsedByType::LocalVar(sym.clone()),
                            },
                        );
                        proof {
                            assert(ub.deep_view() == UsedByV::Other(
                                UsedByOtherV { by: mid@, by_type: UsedByTypeV::LocalVar(ent.0) },
                            ));
                        }
                        match &f.from_type {
                            crate::types::FromType::Named(orig) => {
                                g.add_used_by_to_named_export(&f.from, orig, ub);
                            }
                            crate::types::FromType::Default => {
                                g.add_used_by_to_default_export(&f.from, ub);
                            }
                            crate::types::FromType::Namespace => {
                                g.add_used_by_to_all_named_exports(&f.from, ub);
                            }
                        }
                    }
                    None => {}
                }
                proof {
                    assert(g.modules@ == inv_local_entry(ge0, mid@, ent));
                }
            }
            let ghost gl = g.modules@;
            proof {
                assert(gl == inv_locals(
                    gm0,
                    mid@,
                    sdv.local_variable_table,
                    sdv.local_variable_table.len() as int,
                ));
            }
            // named exports
            let nn = sd.named_export_table.len();
            for j in 0..nn
                invariant
                    nn == sd.named_export_table@.len(),
                    sd.deep_view() == sdv,
                    sd.named_export_table@ == sdv.named_export_table,
                    mid@ == dg[i as int].0,
                    g.wf(),
                    inv_named(gl, mid@, sdv.named_export_table, j as int) == g.modules@,
            {
                let name = sd.named_export_table.key_at(j);
                let me = sd.named_export_table.val_at(j);
                let ghost ent = sdv.named_export_table[j as int];
                proof {
                    assert(me.deep_view() == ent.1);
                    assert(name@ == ent.0);
                }
                match me {
                    crate::types::ModuleExport::Local(sym2) => {
                        g.add_used_by_to_local_variable(
                            mid,
                            sym2,
                            UsedBy::Itself(UsedByType::NamedExport(name.clone())),
                        );
                    }
                    crate::types::ModuleExport::ReExportFrom(f) => {
                        let ub = UsedBy::Other(
                            UsedByOther {
                                by: mid.clone(),
                                by_type: UsedByType::NamedExport(name.clone()),
                            },
                        );
                        match &f.from_type {
                            crate::types::FromType::Named(orig) => {
                                g.add_used_by_to_named_export(&f.from, orig, ub);
                            }
                            crate::types::FromType::Default => {
                                g.add_used_by_to_default_export(&f.from, ub);
                            }
                            crate::types::FromType::Namespace => {
                                g.add_used_by_to_all_named_exports(&f.from, ub);
                            }
                        }
                    }
                }
            }
            let ghost gn = g.modules@;
            proof {
                assert(gn == inv_named(
                    gl,
                    mid@,
                    sdv.named_export_table,
                    sdv.named_export_table.len() as int,
                ));
            }
            // default export
            match &sd.default_export {
                None => {}
                Some(crate::types::ModuleExport::Local(sym2)) => {
                    g.add_used_by_to_local_variable(
                        mid,
                        sym2,
                        UsedBy::Itself(UsedByType::DefaultExport),
                    );
                }
                Some(crate::types::ModuleExport::ReExportFrom(f)) => {
                    match &f.from_type {
                        crate::types::FromType::Namespace => {
                            proof {
                                assert(inv_fold(ginit, dg, i + 1) == Err::<GraphV, AnalysisError>(
                                    AnalysisError::InvalidDefaultExport,
                                ));
                                lemma_inv_fold_error(
                                    ginit,
                                    dg,
                                    i + 1,
                                    n as int,
                                    AnalysisError::InvalidDefaultExport,
                                );
                            }
                            return Err(AnalysisError::InvalidDefaultExport);
                        }
                        crate::types::FromType::Named(orig) => {
                            let ub = UsedBy::Other(
                                UsedByOther {
                                    by: mid.clone(),
                                    by_type: UsedByType::DefaultExport,
                                },
                            );
                            g.add_used_by_to_named_export(&f.from, orig, ub);
                        }
                        crate::types::FromType::Default => {
                            let ub = UsedBy::Other(
                                UsedByOther {
                                    by: mid.clone(),
                                    by_type: UsedByType::DefaultExport,
                                },
                            );
                            g.add_used_by_to_default_export(&f.from, ub);
                        }
                    }
                }
            }
            proof {
                assert(Ok::<GraphV, AnalysisError>(g.modules@) == inv_default(
                    gn,
                    mid@,
                    sdv.default_export,
                ));
                assert(inv_fold(ginit, dg, i + 1) == Ok::<GraphV, AnalysisError>(g.modules@));
            }
        }
        Ok(g)
    }
}

} // verus!

verus! {

impl UsedByGraph {
    /// Trace once from the given target with a fresh memoizing tracer: on
    /// success every path is non-empty and ends at the traced symbol; the
    /// `routeNames` barrier always succeeds (with no paths); a target the
    /// graph does not hold is `UnknownSymbol`; the only other failure is
    /// `CircularDependency`.
    pub fn trace(&self, mod_path: &String, trace_target: crate::tracker::TraceTarget) -> (r:
        Result<Vec<Vec<crate::tracker::ModuleSymbol>>, AnalysisError>)
        requires
            self.wf(),
        ensures
            match r {
                Ok(paths) => crate::tracker::paths_ok(
                    crate::tracker::paths_view(paths@),
                    crate::tracker::ms_view(((*mod_path), trace_target)),
                ) && crate::tracker::spec_agree(
                    *self,
                    crate::tracker::ms_view(((*mod_path), trace_target)),
                    false,
                    crate::tracker::paths_view(paths@),
                ),
                Err(e) => e == AnalysisError::UnknownSymbol || e
                    == AnalysisError::CircularDependency,
            },
            crate::tracker::trace_spec(
                *self,
                crate::tracker::ms_view(((*mod_path), trace_target)),
                false,
                crate::tracker::fuel_bound_spec(*self) as nat,
            ) is Ok ==> r is Ok,
            crate::tracker::target_name(trace_target.deep_view()) == "routeNames"@ ==> r is Ok,
            (crate::tracker::target_name(trace_target.deep_view()) != "routeNames"@
                && crate::tracker::seed_missing(
                *self,
                crate::tracker::ms_view(((*mod_path), trace_target)),
            )) ==> r == Err::<Vec<Vec<crate::tracker::ModuleSymbol>>, AnalysisError>(
                AnalysisError::UnknownSymbol,
            ),
    {
        let mut tracker = crate::tracker::DependencyTracker::new(self, false);
        let ghost pre = tracker.cache_view();
        let q = (mod_path.clone(), trace_target);
        let ghost qv = crate::tracker::ms_view(q);
        proof {
            assert(qv == crate::tracker::ms_view(((*mod_path), q.1)));
            assert(!crate::tracker::c_contains(pre, qv));
            assert(crate::tracker::cache_sound(
                tracker.cache_view(),
                *self,
                tracker.full_path_only_spec(),
            ));
            assert(*tracker.graph_spec() == *self);
        }
        tracker.trace(q)
    }
}

} // verus!

verus! {

/// Module `mid` of the depend-on table has a local `s` whose `depend_on`
/// list holds `d`.
pub open spec fn justified_dep(
    dg: Seq<(Seq<char>, SymbolDependencyV)>,
    mid: Seq<char>,
    s: Seq<char>,
    d: Seq<char>,
) -> bool {
    exists|k: int|
        0 <= k < dg.len() && (#[trigger] dg[k]).0 == mid && seq_contains_key(
            dg[k].1.local_variable_table,
            s,
        ) && crate::table::seq_get(dg[k].1.local_variable_table, s).depend_on is Some
            && crate::table::seq_get(
            dg[k].1.local_variable_table,
            s,
        ).depend_on.unwrap().contains(d)
}

/// The `e`-th recorded user of the `l`-th local of the `m`-th module.
pub open spec fn local_edge_at(g: GraphV, m: int, l: int, e: int) -> UsedByV {
    g[m].1.local_variable_table[l].1.unwrap()[e]
}

pub open spec fn has_local_edge(g: GraphV, m: int, l: int, e: int) -> bool {
    0 <= m < g.len() && 0 <= l < g[m].1.local_variable_table.len()
        && g[m].1.local_variable_table[l].1 is Some && 0 <= e
        < g[m].1.local_variable_table[l].1.unwrap().len()
}

/// Every intra-module used-by edge recorded on a local — `d` is used by
/// local `s` of the same module — is justified: that module really has a
/// local `s` whose `depend_on` list names `d`.
pub open spec fn local_edges_justified(g: GraphV, dg: Seq<(Seq<char>, SymbolDependencyV)>) -> bool {
    forall|m: int, l: int, e: int|
        has_local_edge(g, m, l, e) ==> match #[trigger] local_edge_at(g, m, l, e) {
            UsedByV::Itself(UsedByTypeV::LocalVar(s)) => justified_dep(
                dg,
                g[m].0,
                s,
                g[m].1.local_variable_table[l].0,
            ),
            _ => true,
        }
}

proof fn lemma_add_local_justified(
    g: GraphV,
    dg: Seq<(Seq<char>, SymbolDependencyV)>,
    mid: Seq<char>,
    sym: Seq<char>,
    ub: UsedByV,
)
    requires
        local_edges_justified(g, dg),
        match ub {
            UsedByV::Itself(UsedByTypeV::LocalVar(s)) => justified_dep(dg, mid, s, sym),
            _ => true,
        },
    ensures
        local_edges_justified(g_add_local(g, mid, sym, ub), dg),
{
    let g1 = g_add_local(g, mid, sym, ub);
    if seq_contains_key(g, mid) {
        crate::table::lemma_key_index(g, mid);
        let mi = seq_key_index(g, mid);
        let mo = g[mi].1;
        if seq_contains_key(mo.local_variable_table, sym) {
            crate::table::lemma_key_index(mo.local_variable_table, sym);
            let si = seq_key_index(mo.local_variable_table, sym);
            assert forall|m: int, l: int, e: int|
                has_local_edge(g1, m, l, e) implies match #[trigger] local_edge_at(g1, m, l, e) {
                UsedByV::Itself(UsedByTypeV::LocalVar(s)) => justified_dep(
                    dg,
                    g1[m].0,
                    s,
                    g1[m].1.local_variable_table[l].0,
                ),
                _ => true,
            } by {
                if m != mi {
                    assert(g1[m] == g[m]);
                    assert(has_local_edge(g, m, l, e));
                    assert(local_edge_at(g1, m, l, e) == local_edge_at(g, m, l, e));
                } else {
                    if l != si {
                        assert(g1[m].1.local_variable_table[l]
                            == g[m].1.local_variable_table[l]);
                        assert(has_local_edge(g, m, l, e));
                        assert(local_edge_at(g1, m, l, e) == local_edge_at(g, m, l, e));
                    } else {
                        let old_list = mo.local_variable_table[si].1;
                        let new_list = g1[m].1.local_variable_table[l].1;
                        assert(new_list == add_to_list(old_list, ub));
                        match old_list {
                            Some(x) => {
                                if e < x.len() {
                                    assert(local_edge_at(g1, m, l, e) == local_edge_at(
                                        g,
                                        m,
                                        l,
                                        e,
                                    ));
                                    assert(has_local_edge(g, m, l, e));
                                } else {
                                    assert(local_edge_at(g1, m, l, e) == ub);
                                    assert(g1[m].0 == mid);
                                    assert(g1[m].1.local_variable_table[l].0 == sym);
                                }
                            }
                            None => {
                                assert(local_edge_at(g1, m, l, e) == ub);
                                assert(g1[m].0 == mid);
                                assert(g1[m].1.local_variable_table[l].0 == sym);
                            }
                        }
                    }
                }
            }
        }
    }
}

/// The named-export and default-export records leave the local tables
/// alone, so they cannot break the justification of local edges.
proof fn lemma_locals_untouched_justified(
    g: GraphV,
    g1: GraphV,
    dg: Seq<(Seq<char>, SymbolDependencyV)>,
)
    requires
        local_edges_justified(g, dg),
        g1.len() == g.len(),
        forall|m: int| 0 <= m < g.len() ==> (#[trigger] g1[m]).0 == g[m].0,
        forall|m: int|
            0 <= m < g.len() ==> (#[trigger] g1[m]).1.local_variable_table
                == g[m].1.local_variable_table,
    ensures
        local_edges_justified(g1, dg),
{
    assert forall|m: int, l: int, e: int|
        has_local_edge(g1, m, l, e) implies match #[trigger] local_edge_at(g1, m, l, e) {
        UsedByV::Itself(UsedByTypeV::LocalVar(s)) => justified_dep(
            dg,
            g1[m].0,
            s,
            g1[m].1.local_variable_table[l].0,
        ),
        _ => true,
    } by {
        assert(has_local_edge(g, m, l, e));
        assert(local_edge_at(g1, m, l, e) == local_edge_at(g, m, l, e));
    }
}

proof fn lemma_add_named_justified(
    g: GraphV,
    dg: Seq<(Seq<char>, SymbolDependencyV)>,
    mid: Seq<char>,
    name: Seq<char>,
    ub: UsedByV,
)
    requires
        local_edges_justified(g, dg),
    ensures
        local_edges_justified(g_add_named(g, mid, name, ub), dg),
{
    let g1 = g_add_named(g, mid, name, ub);
    if seq_contains_key(g, mid) {
        crate::table::lemma_key_index(g, mid);
    }
    lemma_locals_untouched_justified(g, g1, dg);
}

proof fn lemma_add_default_justified(
    g: GraphV,
    dg: Seq<(Seq<char>, SymbolDependencyV)>,
    mid: Seq<char>,
    ub: UsedByV,
)
    requires
        local_edges_justified(g, dg),
    ensures
        local_edges_justified(g_add_default(g, mid, ub), dg),
{
    let g1 = g_add_default(g, mid, ub);
    if seq_contains_key(g, mid) {
        crate::table::lemma_key_index(g, mid);
    }
    lemma_locals_untouched_justified(g, g1, dg);
}

proof fn lemma_add_all_named_justified(
    g: GraphV,
    dg: Seq<(Seq<char>, SymbolDependencyV)>,
    mid: Seq<char>,
    ub: UsedByV,
)
    requires
        local_edges_justified(g, dg),
    ensures
        local_edges_justified(g_add_all_named(g, mid, ub), dg),
{
    let g1 = g_add_all_named(g, mid, ub);
    if seq_contains_key(g, mid) {
        crate::table::lemma_key_index(g, mid);
    }
    lemma_locals_untouched_justified(g, g1, dg);
}

proof fn lemma_inv_from_justified(
    g: GraphV,
    dg: Seq<(Seq<char>, SymbolDependencyV)>,
    f: FromOtherModuleV,
    ub: UsedByV,
)
    requires
        local_edges_justified(g, dg),
        !(ub is Itself),
    ensures
        local_edges_justified(inv_from(g, f, ub), dg),
{
    match f.from_type {
        FromTypeV::Named(orig) => lemma_add_named_justified(g, dg, f.from, orig, ub),
        FromTypeV::Default => lemma_add_default_justified(g, dg, f.from, ub),
        FromTypeV::Namespace => lemma_add_all_named_justified(g, dg, f.from, ub),
    }
}

} // verus!

verus! {

proof fn lemma_inv_deps_justified(
    g: GraphV,
    dg: Seq<(Seq<char>, SymbolDependencyV)>,
    mid: Seq<char>,
    sym: Seq<char>,
    deps: Seq<Seq<char>>,
    n: int,
)
    requires
        local_edges_justified(g, dg),
        forall|i: int| 0 <= i < n ==> justified_dep(dg, mid, sym, #[trigger] deps[i]),
    ensures
        local_edges_justified(inv_deps(g, mid, sym, deps, n), dg),
    decreases n,
{
    if n > 0 {
        lemma_inv_deps_justified(g, dg, mid, sym, deps, n - 1);
        lemma_add_local_justified(
            inv_deps(g, mid, sym, deps, n - 1),
            dg,
            mid,
            deps[n - 1],
            UsedByV::Itself(UsedByTypeV::LocalVar(sym)),
        );
    }
}

proof fn lemma_inv_local_entry_justified(
    g: GraphV,
    dg: Seq<(Seq<char>, SymbolDependencyV)>,
    mid: Seq<char>,
    ent: (Seq<char>, ModuleScopedVariableV),
)
    requires
        local_edges_justified(g, dg),
        match ent.1.depend_on {
            Some(deps) => forall|i: int|
                0 <= i < deps.len() ==> justified_dep(dg, mid, ent.0, #[trigger] deps[i]),
            None => true,
        },
    ensures
        local_edges_justified(inv_local_entry(g, mid, ent), dg),
{
    let g1 = match ent.1.depend_on {
        Some(deps) => inv_deps(g, mid, ent.0, deps, deps.len() as int),
        None => g,
    };
    match ent.1.depend_on {
        Some(deps) => {
            lemma_inv_deps_justified(g, dg, mid, ent.0, deps, deps.len() as int);
        }
        None => {}
    }
    match ent.1.import_from {
        Some(f) => {
            lemma_inv_from_justified(
                g1,
                dg,
                f,
                UsedByV::Other(UsedByOtherV { by: mid, by_type: UsedByTypeV::LocalVar(ent.0) }),
            );
        }
        None => {}
    }
}

proof fn lemma_inv_locals_justified(
    g: GraphV,
    dg: Seq<(Seq<char>, SymbolDependencyV)>,
    mid: Seq<char>,
    locals: Seq<(Seq<char>, ModuleScopedVariableV)>,
    n: int,
)
    requires
        local_edges_justified(g, dg),
        forall|j: int|
            0 <= j < n ==> match (#[trigger] locals[j]).1.depend_on {
                Some(deps) => forall|i: int|
                    0 <= i < deps.len() ==> justified_dep(
                        dg,
                        mid,
                        locals[j].0,
                        #[trigger] deps[i],
                    ),
                None => true,
            },
    ensures
        local_edges_justified(inv_locals(g, mid, locals, n), dg),
    decreases n,
{
    if n > 0 {
        lemma_inv_locals_justified(g, dg, mid, locals, n - 1);
        let ent = locals[n - 1];
        lemma_inv_local_entry_justified(inv_locals(g, mid, locals, n - 1), dg, mid, ent);
    }
}

proof fn lemma_inv_named_justified(
    g: GraphV,
    dg: Seq<(Seq<char>, SymbolDependencyV)>,
    mid: Seq<char>,
    named: Seq<(Seq<char>, ModuleExportV)>,
    n: int,
)
    requires
        local_edges_justified(g, dg),
    ensures
        local_edges_justified(inv_named(g, mid, named, n), dg),
    decreases n,
{
    if n > 0 {
        lemma_inv_named_justified(g, dg, mid, named, n - 1);
        let g1 = inv_named(g, mid, named, n - 1);
        let ent = named[n - 1];
        match ent.1 {
            ModuleExportV::Local(sym) => {
                lemma_add_local_justified(
                    g1,
                    dg,
                    mid,
                    sym,
                    UsedByV::Itself(UsedByTypeV::NamedExport(ent.0)),
                );
            }
            ModuleExportV::ReExportFrom(f) => {
                lemma_inv_from_justified(
                    g1,
                    dg,
                    f,
                    UsedByV::Other(
                        UsedByOtherV { by: mid, by_type: UsedByTypeV::NamedExport(ent.0) },
                    ),
                );
            }
        }
    }
}

proof fn lemma_inv_default_justified(
    g: GraphV,
    dg: Seq<(Seq<char>, SymbolDependencyV)>,
    mid: Seq<char>,
    de: Option<ModuleExportV>,
)
    requires
        local_edges_justified(g, dg),
        inv_default(g, mid, de) is Ok,
    ensures
        local_edges_justified(inv_default(g, mid, de).unwrap(), dg),
{
    match de {
        None => {}
        Some(ModuleExportV::Local(sym)) => {
            lemma_add_local_justified(
                g,
                dg,
                mid,
                sym,
                UsedByV::Itself(UsedByTypeV::DefaultExport),
            );
        }
        Some(ModuleExportV::ReExportFrom(f)) => {
            match f.from_type {
                FromTypeV::Namespace => {}
                _ => {
                    lemma_inv_from_justified(
                        g,
                        dg,
                        f,
                        UsedByV::Other(
                            UsedByOtherV { by: mid, by_type: UsedByTypeV::DefaultExport },
                        ),
                    );
                }
            }
        }
    }
}

proof fn lemma_inv_module_justified(
    g: GraphV,
    dg: Seq<(Seq<char>, SymbolDependencyV)>,
    k: int,
)
    requires
        local_edges_justified(g, dg),
        0 <= k < dg.len(),
        distinct_keys(dg[k].1.local_variable_table),
        inv_module(g, dg[k].0, dg[k].1) is Ok,
    ensures
        local_edges_justified(inv_module(g, dg[k].0, dg[k].1).unwrap(), dg),
{
    let mid = dg[k].0;
    let sd = dg[k].1;
    let locals = sd.local_variable_table;
    assert forall|j: int|
        0 <= j < locals.len() implies match (#[trigger] locals[j]).1.depend_on {
        Some(deps) => forall|i: int|
            0 <= i < deps.len() ==> justified_dep(dg, mid, locals[j].0, #[trigger] deps[i]),
        None => true,
    } by {
        match locals[j].1.depend_on {
            Some(deps) => {
                let s = locals[j].0;
                assert(seq_contains_key(locals, s));
                crate::table::lemma_key_index_unique(locals, s, j);
                assert(crate::table::seq_get(locals, s) == locals[j].1);
                assert forall|i: int|
                    0 <= i < deps.len() implies justified_dep(
                    dg,
                    mid,
                    locals[j].0,
                    #[trigger] deps[i],
                ) by {
                    let d = deps[i];
                    assert(deps.contains(d));
                    assert(dg[k].0 == mid && seq_contains_key(dg[k].1.local_variable_table, s)
                        && crate::table::seq_get(dg[k].1.local_variable_table, s).depend_on
                        is Some && crate::table::seq_get(
                        dg[k].1.local_variable_table,
                        s,
                    ).depend_on.unwrap().contains(d));
                }
            }
            None => {}
        }
    }
    lemma_inv_locals_justified(g, dg, mid, locals, locals.len() as int);
    let g1 = inv_locals(g, mid, locals, locals.len() as int);
    lemma_inv_named_justified(g1, dg, mid, sd.named_export_table, sd.named_export_table.len() as int);
    let g2 = inv_named(g1, mid, sd.named_export_table, sd.named_export_table.len() as int);
    lemma_inv_default_justified(g2, dg, mid, sd.default_export);
}

proof fn lemma_inv_fold_justified(
    g0: GraphV,
    dg: Seq<(Seq<char>, SymbolDependencyV)>,
    n: int,
)
    requires
        local_edges_justified(g0, dg),
        0 <= n <= dg.len(),
        forall|k: int|
            0 <= k < dg.len() ==> distinct_keys((#[trigger] dg[k]).1.local_variable_table),
        inv_fold(g0, dg, n) is Ok,
    ensures
        local_edges_justified(inv_fold(g0, dg, n).unwrap(), dg),
    decreases n,
{
    if n > 0 {
        assert(inv_fold(g0, dg, n - 1) is Ok);
        lemma_inv_fold_justified(g0, dg, n - 1);
        lemma_inv_module_justified(inv_fold(g0, dg, n - 1).unwrap(), dg, n - 1);
    }
}

/// The inversion records no unjustified intra-module edge: whenever the
/// used-by graph says local `d` of a module is used by local `s` of the
/// same module, that module's symbol table really lists `d` in the
/// `depend_on` of `s`.
pub proof fn lemma_local_edges_justified(dg: Seq<(Seq<char>, SymbolDependencyV)>, g: GraphV)
    requires
        used_by_graph_spec(dg) == Ok::<GraphV, AnalysisError>(g),
        forall|k: int|
            0 <= k < dg.len() ==> distinct_keys((#[trigger] dg[k]).1.local_variable_table),
    ensures
        local_edges_justified(g, dg),
{
    let g0 = init_graph(dg);
    assert(local_edges_justified(g0, dg)) by {
        assert forall|m: int, l: int, e: int|
            has_local_edge(g0, m, l, e) implies match #[trigger] local_edge_at(g0, m, l, e) {
            UsedByV::Itself(UsedByTypeV::LocalVar(s)) => justified_dep(
                dg,
                g0[m].0,
                s,
                g0[m].1.local_variable_table[l].0,
            ),
            _ => true,
        } by {
            assert(g0[m].1.local_variable_table == none_table(
                dg[m].1.local_variable_table,
            ));
            assert(g0[m].1.local_variable_table[l].1 is None);
        }
    }
    lemma_inv_fold_justified(g0, dg, dg.len() as int);
}

} // verus!

verus! {

/// Weak lexicographic order on strings.
pub open spec fn str_le(a: Seq<char>, b: Seq<char>) -> bool {
    a == b || crate::strorder::str_lt(a, b)
}

/// The serialization order on targets: locals first, then the default
/// export, then named exports; names break ties.
pub open spec fn ubt_le(a: UsedByTypeV, b: UsedByTypeV) -> bool {
    match (a, b) {
        (UsedByTypeV::LocalVar(x), UsedByTypeV::LocalVar(y)) => str_le(x, y),
        (UsedByTypeV::LocalVar(_), _) => true,
        (UsedByTypeV::DefaultExport, UsedByTypeV::LocalVar(_)) => false,
        (UsedByTypeV::DefaultExport, _) => true,
        (UsedByTypeV::NamedExport(x), UsedByTypeV::NamedExport(y)) => str_le(x, y),
        (UsedByTypeV::NamedExport(_), _) => false,
    }
}

/// The serialization order on used-by records: same-module uses first;
/// cross-module uses by module path, then by target.
pub open spec fn ub_le(a: UsedByV, b: UsedByV) -> bool {
    match (a, b) {
        (UsedByV::Itself(x), UsedByV::Itself(y)) => ubt_le(x, y),
        (UsedByV::Itself(_), UsedByV::Other(_)) => true,
        (UsedByV::Other(_), UsedByV::Itself(_)) => false,
        (UsedByV::Other(x), UsedByV::Other(y)) => if x.by == y.by {
            ubt_le(x.by_type, y.by_type)
        } else {
            crate::strorder::str_lt(x.by, y.by)
        },
    }
}

/// The order is total.
pub proof fn lemma_ub_le_total(a: UsedByV, b: UsedByV)
    ensures
        ub_le(a, b) || ub_le(b, a),
{
    match (a, b) {
        (UsedByV::Itself(x), UsedByV::Itself(y)) => {
            lemma_ubt_le_total(x, y);
        }
        (UsedByV::Other(x), UsedByV::Other(y)) => {
            if x.by == y.by {
                lemma_ubt_le_total(x.by_type, y.by_type);
            } else {
                crate::strorder::lemma_str_lt_connex(x.by, y.by);
            }
        }
        _ => {}
    }
}

proof fn lemma_ubt_le_total(a: UsedByTypeV, b: UsedByTypeV)
    ensures
        ubt_le(a, b) || ubt_le(b, a),
{
    match (a, b) {
        (UsedByTypeV::LocalVar(x), UsedByTypeV::LocalVar(y)) => {
            crate::strorder::lemma_str_lt_connex(x, y);
        }
        (UsedByTypeV::NamedExport(x), UsedByTypeV::NamedExport(y)) => {
            crate::strorder::lemma_str_lt_connex(x, y);
        }
        _ => {}
    }
}

/// Neighbour order between used-by records.
pub open spec fn sorted_ub(s: Seq<UsedByV>) -> bool {
    forall|i: int| 0 <= i && i + 1 < s.len() ==> #[trigger] ub_le(s[i], s[i + 1])
}

/// `s` with `x` inserted before the first record it does not follow;
/// duplicates are kept.
pub open spec fn ins_ub(s: Seq<UsedByV>, x: UsedByV) -> Seq<UsedByV>
    decreases s.len(),
{
    if s.len() == 0 {
        seq![x]
    } else if !ub_le(s[0], x) {
        seq![x] + s
    } else {
        seq![s[0]] + ins_ub(s.drop_first(), x)
    }
}

/// The list sorted by repeated insertion, in the spec-fixed order.
pub open spec fn sort_ub(s: Seq<UsedByV>, n: int) -> Seq<UsedByV>
    decreases n,
{
    if n <= 0 || n > s.len() {
        Seq::empty()
    } else {
        ins_ub(sort_ub(s, n - 1), s[n - 1])
    }
}

pub proof fn lemma_ins_ub_sorted(s: Seq<UsedByV>, x: UsedByV)
    requires
        sorted_ub(s),
    ensures
        sorted_ub(ins_ub(s, x)),
        ins_ub(s, x).len() == s.len() + 1,
    decreases s.len(),
{
    let r = ins_ub(s, x);
    if s.len() == 0 {
    } else if !ub_le(s[0], x) {
        lemma_ub_le_total(s[0], x);
        assert forall|i: int| 0 <= i && i + 1 < r.len() implies #[trigger] ub_le(r[i], r[i + 1]) by {
            if i == 0 {
                assert(r[0] == x && r[1] == s[0]);
            } else {
                assert(r[i] == s[i - 1] && r[i + 1] == s[i]);
                assert(ub_le(s[i - 1], s[i - 1 + 1]));
            }
        }
    } else {
        let t = s.drop_first();
        assert forall|i: int| 0 <= i && i + 1 < t.len() implies #[trigger] ub_le(t[i], t[i + 1]) by {
            assert(t[i] == s[i + 1] && t[i + 1] == s[i + 2]);
            assert(ub_le(s[i + 1], s[i + 2]));
        }
        lemma_ins_ub_sorted(t, x);
        let rt = ins_ub(t, x);
        assert(r == seq![s[0]] + rt);
        assert forall|i: int| 0 <= i && i + 1 < r.len() implies #[trigger] ub_le(r[i], r[i + 1]) by {
            if i == 0 {
                assert(r[0] == s[0] && r[1] == rt[0]);
                if t.len() == 0 {
                    assert(rt[0] == x);
                } else if !ub_le(t[0], x) {
                    assert(rt[0] == x);
                } else {
                    assert(rt[0] == t[0]);
                    assert(ub_le(s[0int], s[1int]));
                }
            } else {
                assert(r[i] == rt[i - 1] && r[i + 1] == rt[i]);
                assert(ub_le(rt[i - 1], rt[i - 1 + 1]));
            }
        }
    }
}

/// Insert one record into a sorted list, keeping it sorted.
fn insert_ub(v: &mut Vec<UsedBy>, x: UsedBy)
    requires
        sorted_ub(old(v).deep_view()),
    ensures
        final(v).deep_view() =~= ins_ub(old(v).deep_view(), x.deep_view()),
{
    let ghost s0 = v.deep_view();
    let ghost xv = x.deep_view();
    let n = v.len();
    proof {
        assert(s0.take(0) =~= Seq::<UsedByV>::empty());
        assert(s0.skip(0) =~= s0);
    }
    let mut i: usize = 0;
    loop
        invariant
            i <= n,
            n == v@.len(),
            n == s0.len(),
            x.deep_view() == xv,
            s0 == old(v).deep_view(),
            v.deep_view() == s0,
            sorted_ub(s0),
            ins_ub(s0, xv) == s0.take(i as int) + ins_ub(s0.skip(i as int), xv),
        ensures
            i == n,
            x.deep_view() == xv,
            v.deep_view() == s0,
            s0 == old(v).deep_view(),
            ins_ub(s0, xv) == s0.take(n as int) + ins_ub(s0.skip(n as int), xv),
        decreases n - i,
    {
        if i >= n {
            break;
        }
        proof {
            assert(v.deep_view()[i as int] == v@[i as int].deep_view());
        }
        let le = ub_le_exec(&v[i], &x);
        if !le {
            proof {
                assert(s0.skip(i as int).len() == s0.len() - i);
                assert(s0.skip(i as int)[0] == s0[i as int]);
                assert(ins_ub(s0.skip(i as int), xv) == seq![xv] + s0.skip(i as int));
            }
            let ghost vpre = v@;
            let ghost xg = x;
            v.insert(i, x);
            proof {
                vpre.insert_ensures(i as int, xg);
                assert(v@ == vpre.insert(i as int, xg));
                assert forall|j: int| 0 <= j < v.deep_view().len() implies v.deep_view()[j] == (
                s0.take(i as int) + (seq![xv] + s0.skip(i as int)))[j] by {
                    assert(v.deep_view()[j] == v@[j].deep_view());
                    if j < i {
                        assert(v@[j] == vpre[j]);
                        assert(vpre[j].deep_view() == s0[j]);
                        assert(s0.take(i as int)[j] == s0[j]);
                    } else if j == i {
                        assert(v@[j] == xg);
                    } else {
                        assert(vpre.insert(i as int, xg)[(j - 1) + 1] == vpre[j - 1]);
                        assert(v@[j] == vpre[j - 1]);
                        assert(vpre[j - 1].deep_view() == s0[j - 1]);
                        assert(s0.skip(i as int)[j - 1 - i] == s0[j - 1]);
                    }
                }
                assert(v.deep_view() =~= s0.take(i as int) + (seq![xv] + s0.skip(i as int)));
            }
            return;
        }
        proof {
            let tail = s0.skip(i as int);
            assert(tail[0] == s0[i as int]);
            assert(ub_le(s0[i as int], xv));
            assert(tail.drop_first() =~= s0.skip(i + 1));
            assert(ins_ub(tail, xv) == seq![tail[0]] + ins_ub(s0.skip(i + 1), xv));
            assert(s0.take(i as int) + (seq![tail[0]] + ins_ub(s0.skip(i + 1), xv)) =~= s0.take(
                i + 1,
            ) + ins_ub(s0.skip(i + 1), xv)) by {
                assert(s0.take(i + 1)[i as int] == s0[i as int]);
                assert(forall|j: int| 0 <= j < i ==> #[trigger] s0.take(i + 1)[j] == s0[j]);
                assert(forall|j: int| 0 <= j < i ==> #[trigger] s0.take(i as int)[j] == s0[j]);
            }
        }
        i = i + 1;
    }
    proof {
        assert(s0.skip(n as int) =~= Seq::<UsedByV>::empty());
        assert(ins_ub(s0.skip(n as int), xv) == seq![xv]);
    }
    let ghost vpre = v@;
    let ghost xg = x;
    v.push(x);
    proof {
        assert(v@ == vpre.push(xg));
        assert forall|j: int| 0 <= j < v.deep_view().len() implies v.deep_view()[j] == (s0.take(
            n as int,
        ) + seq![xv])[j] by {
            assert(v.deep_view()[j] == v@[j].deep_view());
            if j < n {
                assert(v@[j] == vpre[j]);
                assert(vpre[j].deep_view() == s0[j]);
            } else {
                assert(v@[j] == xg);
            }
        }
        assert(v.deep_view() =~= s0.take(n as int) + seq![xv]);
        assert(s0.take(n as int) =~= s0);
    }
}

/// Weak lexicographic comparison, executably.
fn str_le_exec(a: &String, b: &String) -> (r: bool)
    ensures
        r == str_le(a@, b@),
{
    if *a == *b {
        true
    } else {
        crate::strorder::str_lt_exec(a, b)
    }
}

fn ubt_le_exec(a: &UsedByType, b: &UsedByType) -> (r: bool)
    ensures
        r == ubt_le(a.deep_view(), b.deep_view()),
{
    match (a, b) {
        (UsedByType::LocalVar(x), UsedByType::LocalVar(y)) => str_le_exec(x, y),
        (UsedByType::LocalVar(_), _) => true,
        (UsedByType::DefaultExport, UsedByType::LocalVar(_)) => false,
        (UsedByType::DefaultExport, _) => true,
        (UsedByType::NamedExport(x), UsedByType::NamedExport(y)) => str_le_exec(x, y),
        (UsedByType::NamedExport(_), _) => false,
    }
}

fn ub_le_exec(a: &UsedBy, b: &UsedBy) -> (r: bool)
    ensures
        r == ub_le(a.deep_view(), b.deep_view()),
{
    match (a, b) {
        (UsedBy::Itself(x), UsedBy::Itself(y)) => ubt_le_exec(x, y),
        (UsedBy::Itself(_), UsedBy::Other(_)) => true,
        (UsedBy::Other(_), UsedBy::Itself(_)) => false,
        (UsedBy::Other(x), UsedBy::Other(y)) => {
            if x.by == y.by {
                ubt_le_exec(&x.by_type, &y.by_type)
            } else {
                crate::strorder::str_lt_exec(&x.by, &y.by)
            }
        }
    }
}

/// The list rearranged into the serialization order of spec 4.7: the exact
/// insertion-sort fold, which keeps every record (duplicates included) and
/// leaves the result sorted by `ub_le`.
pub fn sort_used_by(list: &Vec<UsedBy>) -> (r: Vec<UsedBy>)
    ensures
        r.deep_view() == sort_ub(list.deep_view(), list.deep_view().len() as int),
        sorted_ub(r.deep_view()),
{
    let ghost lv = list.deep_view();
    let mut out: Vec<UsedBy> = Vec::new();
    let n = list.len();
    proof {
        assert(out.deep_view() =~= sort_ub(lv, 0));
    }
    for k in 0..n
        invariant
            n == list@.len(),
            lv == list.deep_view(),
            out.deep_view() == sort_ub(lv, k as int),
            sorted_ub(out.deep_view()),
    {
        proof {
            assert(lv[k as int] == list@[k as int].deep_view());
            lemma_ins_ub_sorted(out.deep_view(), lv[k as int]);
        }
        insert_ub(&mut out, list[k].duplicate());
    }
    out
}

} // verus!
