//! The depend-on graph, the used-by inversion, and the tracer, exercised on
//! the picnic-time project model.

use dependency_tracker::depend_on_graph::DependOnGraph;
use dependency_tracker::extractor::collect_symbol_dependency;
use dependency_tracker::module_model::Binding;
use dependency_tracker::module_model::DefaultExpr;
use dependency_tracker::module_model::ExportSpec;
use dependency_tracker::module_model::Ident;
use dependency_tracker::module_model::ImportSpec;
use dependency_tracker::module_model::ModuleItem;
use dependency_tracker::path_resolver::normalize_path;
use dependency_tracker::table::StrTable;
use dependency_tracker::tracker::DependencyTracker;
use dependency_tracker::tracker::TraceTarget;
use dependency_tracker::types::FromOtherModule;
use dependency_tracker::types::FromType;
use dependency_tracker::types::ModuleExport;
use dependency_tracker::types::ModuleScopedVariable;
use dependency_tracker::types::SymbolDependency;
use dependency_tracker::used_by_graph::Module;
use dependency_tracker::used_by_graph::UsedBy;
use dependency_tracker::used_by_graph::UsedByGraph;
use dependency_tracker::used_by_graph::UsedByOther;
use dependency_tracker::used_by_graph::UsedByType;
use std::collections::HashMap;

const ANON: &str = "+-*/default@#$%";

fn s(x: &str) -> String {
    x.to_string()
}

fn canon(p: &str) -> String {
    normalize_path(&p.to_string())
}

fn ident(name: &str, scope: u64) -> Ident {
    Ident { name: s(name), scope }
}

fn binding(name: &str, scope: u64, refs: &[(&str, u64)]) -> Binding {
    Binding {
        ident: ident(name, scope),
        refs: refs.iter().map(|(n, sc)| ident(n, *sc)).collect(),
    }
}

fn msv(depend_on: Option<Vec<&str>>, import_from: Option<(&str, FromType)>) -> ModuleScopedVariable {
    ModuleScopedVariable {
        depend_on: depend_on.map(|v| v.into_iter().map(s).collect()),
        import_from: import_from.map(|(from, from_type)| FromOtherModule { from: s(from), from_type }),
    }
}

fn sd_from_items(items: Vec<ModuleItem>, path: &str) -> SymbolDependency {
    collect_symbol_dependency(&items, &s(path)).unwrap()
}

/// The used-by list of one key, compared as a multiset.
fn assert_edges(actual: Option<&Option<Vec<UsedBy>>>, expected: Option<Vec<UsedBy>>) {
    let actual = actual.expect("key missing");
    match expected {
        None => assert!(actual.is_none(), "expected no recorded users"),
        Some(exp) => {
            let act = actual.as_ref().expect("expected a used-by list");
            assert_eq!(act.len(), exp.len(), "used-by count mismatch");
            for e in &exp {
                let have = act.iter().filter(|a| **a == *e).count();
                let want = exp.iter().filter(|a| **a == *e).count();
                assert_eq!(have, want, "used-by multiset mismatch");
            }
        }
    }
}

fn itself(t: UsedByType) -> UsedBy {
    UsedBy::Itself(t)
}

fn other(by: &str, t: UsedByType) -> UsedBy {
    UsedBy::Other(UsedByOther { by: s(by), by_type: t })
}

fn named(n: &str) -> UsedByType {
    UsedByType::NamedExport(s(n))
}

fn local(n: &str) -> UsedByType {
    UsedByType::LocalVar(s(n))
}

#[test]
fn assertion_it_works() {
    let hash_map = HashMap::from([("a", "apple"), ("k", "kirby")]);
    assert!(hash_map.contains_key("a"));
    assert_eq!(hash_map.get("a").unwrap(), &"apple");
    assert!(hash_map.contains_key("k"));
    assert_eq!(hash_map.get("k").unwrap(), &"kirby");
    assert_eq!(hash_map.len(), 2);
}

#[test]
fn add_two_modules() {
    let root = "tests/fixture/depend_on";
    let files = vec![
        canon("tests/fixture/depend_on/hawk.js"),
        canon("tests/fixture/depend_on/red-demon.js"),
        canon("tests/fixture/depend_on/grey-demon.js"),
        canon("tests/fixture/depend_on/kirby.js"),
    ];
    let canonical_path_hawk = canon("tests/fixture/depend_on/hawk.js");
    let canonical_path_red_demon = canon("tests/fixture/depend_on/red-demon.js");
    let canonical_path_grey_demon = canon("tests/fixture/depend_on/grey-demon.js");
    let canonical_path_kirby = canon("tests/fixture/depend_on/kirby.js");

    let mut dt = DependOnGraph::new(s(root), files);

    let mut hawk_locals: StrTable<ModuleScopedVariable> = StrTable::new();
    hawk_locals.push_new(s("RedDemon"), msv(None, Some(("red-demon", FromType::Default))));
    let mut hawk_named: StrTable<ModuleExport> = StrTable::new();
    hawk_named.push_new(s("HawkRedDemon"), ModuleExport::Local(s("RedDemon")));
    hawk_named.push_new(
        s("HawkGreyDemon"),
        ModuleExport::ReExportFrom(FromOtherModule {
            from: s("grey-demon"),
            from_type: FromType::Named(s("GreyDemon")),
        }),
    );
    let hawk = SymbolDependency {
        canonical_path: canonical_path_hawk.clone(),
        local_variable_table: hawk_locals,
        named_export_table: hawk_named,
        default_export: None,
        re_export_star_from: None,
    };
    dt.add_symbol_dependency(hawk).unwrap();
    assert_eq!(dt.table.len(), 1);
    let hawk = dt.table.get(&canonical_path_hawk).unwrap();
    assert_eq!(hawk.local_variable_table.len(), 1);
    assert_eq!(
        hawk.local_variable_table.get(&s("RedDemon")).unwrap(),
        &ModuleScopedVariable {
            depend_on: None,
            import_from: Some(FromOtherModule {
                from: canonical_path_red_demon.clone(),
                from_type: FromType::Default,
            }),
        }
    );
    assert_eq!(hawk.named_export_table.len(), 2);
    assert_eq!(
        hawk.named_export_table.get(&s("HawkRedDemon")).unwrap(),
        &ModuleExport::Local(s("RedDemon"))
    );
    assert_eq!(
        hawk.named_export_table.get(&s("HawkGreyDemon")).unwrap(),
        &ModuleExport::ReExportFrom(FromOtherModule {
            from: canonical_path_grey_demon.clone(),
            from_type: FromType::Named(s("GreyDemon")),
        })
    );

    let kirby = SymbolDependency {
        canonical_path: canonical_path_kirby.clone(),
        local_variable_table: StrTable::new(),
        named_export_table: StrTable::new(),
        default_export: None,
        re_export_star_from: Some(vec![s("hawk")]),
    };
    dt.add_symbol_dependency(kirby).unwrap();
    assert_eq!(dt.table.len(), 2);
    let kirby = dt.table.get(&canonical_path_kirby).unwrap();
    assert_eq!(kirby.local_variable_table.len(), 0);
    assert_eq!(kirby.re_export_star_from, None);
    assert_eq!(kirby.named_export_table.len(), 2);
    assert_eq!(
        kirby.named_export_table.get(&s("HawkRedDemon")).unwrap(),
        &ModuleExport::ReExportFrom(FromOtherModule {
            from: canonical_path_hawk.clone(),
            from_type: FromType::Named(s("HawkRedDemon")),
        })
    );
    assert_eq!(
        kirby.named_export_table.get(&s("HawkGreyDemon")).unwrap(),
        &ModuleExport::ReExportFrom(FromOtherModule {
            from: canonical_path_hawk.clone(),
            from_type: FromType::Named(s("HawkGreyDemon")),
        })
    );
}

fn picnic_fixture() -> (UsedByGraph, [String; 5]) {
    let root = "tests/fixture/used_by";
    let happy_path = canon("tests/fixture/used_by/happy.js");
    let hawk_path = canon("tests/fixture/used_by/hawk.js");
    let kirby_path = canon("tests/fixture/used_by/kirby.js");
    let wild_path = canon("tests/fixture/used_by/wild.js");
    let picnic_time_path = canon("tests/fixture/used_by/PicnicTime.js");
    let files = vec![
        happy_path.clone(),
        hawk_path.clone(),
        kirby_path.clone(),
        wild_path.clone(),
        picnic_time_path.clone(),
    ];
    let mut dt = DependOnGraph::new(s(root), files);

    dt.add_symbol_dependency(sd_from_items(vec![], &happy_path)).unwrap();

    let hawk_items = vec![
        ModuleItem::Decl { bindings: vec![binding("Pink", 1, &[])], exported: true },
        ModuleItem::Decl { bindings: vec![binding("PigNose", 2, &[("Pink", 1)])], exported: true },
    ];
    dt.add_symbol_dependency(sd_from_items(hawk_items, &hawk_path)).unwrap();

    let kirby_items = vec![
        ModuleItem::Decl { bindings: vec![binding("Pink", 1, &[])], exported: true },
        ModuleItem::Decl { bindings: vec![binding("Puffy", 2, &[])], exported: true },
        ModuleItem::Decl {
            bindings: vec![binding("Power", 3, &[("Pink", 1), ("Puffy", 2)])],
            exported: true,
        },
        ModuleItem::DefaultExportExpr {
            expr: DefaultExpr::Array(vec![ident("Power", 3)]),
        },
    ];
    dt.add_symbol_dependency(sd_from_items(kirby_items, &kirby_path)).unwrap();

    let wild_items = vec![
        ModuleItem::Decl { bindings: vec![binding("ZigZagWild", 1, &[])], exported: true },
        ModuleItem::Decl { bindings: vec![binding("GuruguruWild", 2, &[])], exported: true },
        ModuleItem::DefaultExportExpr { expr: DefaultExpr::Ident(s("ZigZagWild")) },
    ];
    dt.add_symbol_dependency(sd_from_items(wild_items, &wild_path)).unwrap();

    let picnic_items = vec![
        ModuleItem::Import {
            src: s("./kirby"),
            specifiers: vec![
                ImportSpec::Default { local: ident("Kirby", 1) },
                ImportSpec::Named { local: ident("Power", 2), imported: None },
                ImportSpec::Named { local: ident("KirbyPink", 3), imported: Some(s("Pink")) },
                ImportSpec::Named { local: ident("Puffy", 4), imported: None },
            ],
        },
        ModuleItem::Import {
            src: s("./hawk"),
            specifiers: vec![ImportSpec::Namespace { local: ident("Hawk", 5) }],
        },
        ModuleItem::Decl {
            bindings: vec![binding("sugar", 6, &[]), binding("salt", 7, &[])],
            exported: false,
        },
        ModuleItem::Decl {
            bindings: vec![binding("cruet", 8, &[("sugar", 6), ("salt", 7)])],
            exported: false,
        },
        ModuleItem::Decl {
            bindings: vec![binding(
                "PicnicBox",
                9,
                &[("KirbyPink", 3), ("Puffy", 4), ("cruet", 8)],
            )],
            exported: true,
        },
        ModuleItem::Decl {
            bindings: vec![binding(
                "deliverPicnicBox",
                10,
                &[("Kirby", 1), ("PicnicBox", 9)],
            )],
            exported: false,
        },
        ModuleItem::Decl { bindings: vec![binding("WelcomeMessage", 11, &[])], exported: false },
        ModuleItem::NamedExportList {
            specifiers: vec![ExportSpec::Named {
                orig: s("WelcomeMessage"),
                exported: Some(s("welcome")),
            }],
        },
        ModuleItem::Decl {
            bindings: vec![binding(
                "InvitationCard",
                12,
                &[("Hawk", 5), ("WelcomeMessage", 11), ("deliverPicnicBox", 10)],
            )],
            exported: true,
        },
        ModuleItem::DefaultExportExpr { expr: DefaultExpr::Ident(s("InvitationCard")) },
        ModuleItem::ExportAll { src: s("./wild") },
        ModuleItem::NamedExportFrom {
            src: s("./wild"),
            specifiers: vec![ExportSpec::Namespace { name: Some(s("Wild")) }],
        },
        ModuleItem::ExportAll { src: s("./happy") },
    ];
    dt.add_symbol_dependency(sd_from_items(picnic_items, &picnic_time_path)).unwrap();

    let graph = UsedByGraph::from(&dt).unwrap();
    (graph, [happy_path, hawk_path, kirby_path, wild_path, picnic_time_path])
}

#[test]
fn picnic_time() {
    let (graph, [happy_path, hawk_path, kirby_path, wild_path, picnic_time_path]) =
        picnic_fixture();

    assert_eq!(graph.modules.len(), 5);

    let happy = graph.modules.get(&happy_path).unwrap();
    assert_eq!(happy.local_variable_table.len(), 0);
    assert_eq!(happy.named_export_table.len(), 0);
    assert!(happy.default_export.is_none());

    let hawk: &Module = graph.modules.get(&hawk_path).unwrap();
    assert_eq!(hawk.local_variable_table.len(), 2);
    assert_edges(
        hawk.local_variable_table.get(&s("PigNose")),
        Some(vec![itself(named("PigNose"))]),
    );
    assert_edges(
        hawk.local_variable_table.get(&s("Pink")),
        Some(vec![itself(named("Pink")), itself(local("PigNose"))]),
    );
    assert_eq!(hawk.named_export_table.len(), 2);
    assert_edges(
        hawk.named_export_table.get(&s("PigNose")),
        Some(vec![other(&picnic_time_path, local("Hawk"))]),
    );
    assert_edges(
        hawk.named_export_table.get(&s("Pink")),
        Some(vec![other(&picnic_time_path, local("Hawk"))]),
    );
    assert!(hawk.default_export.is_none());

    let kirby = graph.modules.get(&kirby_path).unwrap();
    assert_eq!(kirby.local_variable_table.len(), 4);
    assert_edges(
        kirby.local_variable_table.get(&s("Power")),
        Some(vec![itself(named("Power")), itself(local(ANON))]),
    );
    assert_edges(
        kirby.local_variable_table.get(&s("Pink")),
        Some(vec![itself(named("Pink")), itself(local("Power"))]),
    );
    assert_edges(
        kirby.local_variable_table.get(&s("Puffy")),
        Some(vec![itself(named("Puffy")), itself(local("Power"))]),
    );
    assert_edges(
        kirby.local_variable_table.get(&s(ANON)),
        Some(vec![itself(UsedByType::DefaultExport)]),
    );
    assert_edges(
        kirby.named_export_table.get(&s("Power")),
        Some(vec![other(&picnic_time_path, local("Power"))]),
    );
    assert_edges(
        kirby.named_export_table.get(&s("Pink")),
        Some(vec![other(&picnic_time_path, local("KirbyPink"))]),
    );
    assert_edges(
        kirby.named_export_table.get(&s("Puffy")),
        Some(vec![other(&picnic_time_path, local("Puffy"))]),
    );
    assert_edges(
        Some(&kirby.default_export),
        Some(vec![other(&picnic_time_path, local("Kirby"))]),
    );

    let wild = graph.modules.get(&wild_path).unwrap();
    assert_edges(
        wild.local_variable_table.get(&s("ZigZagWild")),
        Some(vec![itself(named("ZigZagWild")), itself(UsedByType::DefaultExport)]),
    );
    assert_edges(
        wild.local_variable_table.get(&s("GuruguruWild")),
        Some(vec![itself(named("GuruguruWild"))]),
    );
    assert_edges(
        wild.named_export_table.get(&s("ZigZagWild")),
        Some(vec![
            other(&picnic_time_path, named("ZigZagWild")),
            other(&picnic_time_path, named("Wild")),
        ]),
    );
    assert_edges(
        wild.named_export_table.get(&s("GuruguruWild")),
        Some(vec![
            other(&picnic_time_path, named("GuruguruWild")),
            other(&picnic_time_path, named("Wild")),
        ]),
    );
    assert!(wild.default_export.is_none());

    let picnic = graph.modules.get(&picnic_time_path).unwrap();
    assert_eq!(picnic.local_variable_table.len(), 12);
    assert_edges(
        picnic.local_variable_table.get(&s("Kirby")),
        Some(vec![itself(local("deliverPicnicBox"))]),
    );
    assert_edges(picnic.local_variable_table.get(&s("Power")), None);
    assert_edges(
        picnic.local_variable_table.get(&s("KirbyPink")),
        Some(vec![itself(local("PicnicBox"))]),
    );
    assert_edges(
        picnic.local_variable_table.get(&s("Puffy")),
        Some(vec![itself(local("PicnicBox"))]),
    );
    assert_edges(
        picnic.local_variable_table.get(&s("Hawk")),
        Some(vec![itself(local("InvitationCard"))]),
    );
    assert_edges(
        picnic.local_variable_table.get(&s("sugar")),
        Some(vec![itself(local("cruet"))]),
    );
    assert_edges(
        picnic.local_variable_table.get(&s("salt")),
        Some(vec![itself(local("cruet"))]),
    );
    assert_edges(
        picnic.local_variable_table.get(&s("cruet")),
        Some(vec![itself(local("PicnicBox"))]),
    );
    assert_edges(
        picnic.local_variable_table.get(&s("PicnicBox")),
        Some(vec![itself(named("PicnicBox")), itself(local("deliverPicnicBox"))]),
    );
    assert_edges(
        picnic.local_variable_table.get(&s("deliverPicnicBox")),
        Some(vec![itself(local("InvitationCard"))]),
    );
    assert_edges(
        picnic.local_variable_table.get(&s("WelcomeMessage")),
        Some(vec![itself(named("welcome")), itself(local("InvitationCard"))]),
    );
    assert_edges(
        picnic.local_variable_table.get(&s("InvitationCard")),
        Some(vec![itself(named("InvitationCard")), itself(UsedByType::DefaultExport)]),
    );
    assert_eq!(picnic.named_export_table.len(), 6);
    assert_edges(picnic.named_export_table.get(&s("PicnicBox")), None);
    assert_edges(picnic.named_export_table.get(&s("welcome")), None);
    assert_edges(picnic.named_export_table.get(&s("InvitationCard")), None);
    assert_edges(picnic.named_export_table.get(&s("ZigZagWild")), None);
    assert_edges(picnic.named_export_table.get(&s("GuruguruWild")), None);
    assert_edges(picnic.named_export_table.get(&s("Wild")), None);
    assert!(picnic.default_export.is_none());
}

#[test]
fn used_by_graph_it_works() {
    let (graph, [_, _, kirby_path, _, _]) = picnic_fixture();
    let paths = graph.trace(&kirby_path, TraceTarget::LocalVar(s("Power"))).unwrap();
    assert!(paths.len() > 0);
}

#[test]
fn trace_full_paths_only() {
    let (graph, [_, _, kirby_path, _, picnic_time_path]) = picnic_fixture();
    let mut dt = DependencyTracker::new(&graph, true);
    let paths = dt
        .trace((kirby_path.clone(), TraceTarget::LocalVar(s("Power"))))
        .unwrap();
    // only chains whose final consumer has no users of its own
    assert_eq!(paths.len(), 3);
    for p in &paths {
        assert_eq!(p.last().unwrap(), &(kirby_path.clone(), TraceTarget::LocalVar(s("Power"))));
    }
    let firsts: Vec<&(String, TraceTarget)> = paths.iter().map(|p| p.first().unwrap()).collect();
    assert!(firsts.contains(&&(picnic_time_path.clone(), TraceTarget::LocalVar(s("Power")))));
    assert!(firsts.contains(&&(
        picnic_time_path.clone(),
        TraceTarget::NamedExport(s("InvitationCard"))
    )));
    assert!(firsts.contains(&&(picnic_time_path.clone(), TraceTarget::DefaultExport)));
}

#[test]
fn trace_is_idempotent() {
    let (graph, [_, _, kirby_path, _, picnic_time_path]) = picnic_fixture();
    let mut dt = DependencyTracker::new(&graph, false);
    let first = dt
        .trace((kirby_path.clone(), TraceTarget::LocalVar(s("Power"))))
        .unwrap();
    let second = dt
        .trace((kirby_path.clone(), TraceTarget::LocalVar(s("Power"))))
        .unwrap();
    assert_eq!(first, second);
    assert_eq!(first.len(), 10);
    // exact chains of the reference run, compared as path multiset members
    let seed = (kirby_path.clone(), TraceTarget::LocalVar(s("Power")));
    assert!(first.contains(&vec![seed.clone()]));
    assert!(first.contains(&vec![
        (picnic_time_path.clone(), TraceTarget::LocalVar(s("Power"))),
        (kirby_path.clone(), TraceTarget::NamedExport(s("Power"))),
        seed.clone(),
    ]));
    assert!(first.contains(&vec![
        (picnic_time_path.clone(), TraceTarget::NamedExport(s("InvitationCard"))),
        (picnic_time_path.clone(), TraceTarget::LocalVar(s("InvitationCard"))),
        (picnic_time_path.clone(), TraceTarget::LocalVar(s("deliverPicnicBox"))),
        (picnic_time_path.clone(), TraceTarget::LocalVar(s("Kirby"))),
        (kirby_path.clone(), TraceTarget::DefaultExport),
        (kirby_path.clone(), TraceTarget::LocalVar(s(ANON))),
        seed.clone(),
    ]));
    // every reported path ends at the seed
    for p in &first {
        assert_eq!(p.last().unwrap(), &seed);
    }
}

#[test]
fn namespace_default_export_is_rejected() {
    let root = "tests/fixture/used_by";
    let path = canon("tests/fixture/used_by/bad.js");
    let mut dt = DependOnGraph::new(s(root), vec![path.clone()]);
    let items = vec![ModuleItem::NamedExportFrom {
        src: s("./happy"),
        specifiers: vec![],
    }];
    let mut sd = sd_from_items(items, &path);
    sd.default_export = Some(ModuleExport::ReExportFrom(FromOtherModule {
        from: s("./happy"),
        from_type: FromType::Namespace,
    }));
    dt.add_symbol_dependency(sd).unwrap();
    assert!(UsedByGraph::from(&dt).is_err());
}

#[test]
fn duplicate_binding_is_fatal() {
    let items = vec![
        ModuleItem::Decl { bindings: vec![binding("a", 1, &[])], exported: false },
        ModuleItem::Decl { bindings: vec![binding("a", 1, &[])], exported: false },
    ];
    assert_eq!(
        collect_symbol_dependency(&items, &s("test.js")),
        Err(dependency_tracker::types::AnalysisError::DuplicateBinding)
    );
}

#[test]
fn duplicate_module_is_fatal() {
    let path = canon("proj/a.js");
    let mut dt = DependOnGraph::new(s("proj"), vec![path.clone()]);
    dt.add_symbol_dependency(sd_from_items(vec![], &path)).unwrap();
    assert_eq!(
        dt.add_symbol_dependency(sd_from_items(vec![], &path)),
        Err(dependency_tracker::types::AnalysisError::DuplicateModule)
    );
}

#[test]
fn wildcard_conflict_is_fatal() {
    let a = canon("proj/a.js");
    let b = canon("proj/b.js");
    let mut dt = DependOnGraph::new(s("proj"), vec![a.clone(), b.clone()]);
    // a exports X; b declares its own X and re-exports * from a
    let a_items = vec![ModuleItem::Decl { bindings: vec![binding("X", 1, &[])], exported: true }];
    dt.add_symbol_dependency(sd_from_items(a_items, &a)).unwrap();
    let b_items = vec![
        ModuleItem::Decl { bindings: vec![binding("X", 1, &[])], exported: true },
        ModuleItem::ExportAll { src: s("./a") },
    ];
    assert_eq!(
        dt.add_symbol_dependency(sd_from_items(b_items, &b)),
        Err(dependency_tracker::types::AnalysisError::WildcardExportConflict)
    );
}

#[test]
fn unknown_symbol_is_reported() {
    let (graph, _) = picnic_fixture();
    let mut dt = DependencyTracker::new(&graph, false);
    assert!(dt.trace((s("/no/such/module.js"), TraceTarget::DefaultExport)).is_err());
    let (graph2, [_, _, kirby_path, _, _]) = picnic_fixture();
    let mut dt2 = DependencyTracker::new(&graph2, false);
    assert!(dt2
        .trace((kirby_path, TraceTarget::LocalVar(s("NoSuchLocal"))))
        .is_err());
}

#[test]
fn cyclic_graph_is_reported() {
    // a.x and a.y use each other
    let mut locals: StrTable<Option<Vec<UsedBy>>> = StrTable::new();
    locals.push_new(s("x"), Some(vec![UsedBy::Itself(UsedByType::LocalVar(s("y")))]));
    locals.push_new(s("y"), Some(vec![UsedBy::Itself(UsedByType::LocalVar(s("x")))]));
    let m = Module {
        local_variable_table: locals,
        named_export_table: StrTable::new(),
        default_export: None,
    };
    let mut modules: StrTable<Module> = StrTable::new();
    modules.push_new(s("a"), m);
    let graph = UsedByGraph { modules };
    let mut dt = DependencyTracker::new(&graph, false);
    assert_eq!(
        dt.trace((s("a"), TraceTarget::LocalVar(s("x")))),
        Err(dependency_tracker::types::AnalysisError::CircularDependency)
    );
}

#[test]
fn route_names_barrier_returns_no_paths() {
    let (graph, [_, _, kirby_path, _, _]) = picnic_fixture();
    let mut dt = DependencyTracker::new(&graph, false);
    let paths = dt
        .trace((kirby_path, TraceTarget::LocalVar(s("routeNames"))))
        .unwrap();
    assert!(paths.is_empty());
}

#[test]
fn used_by_serialization_order() {
    // LocalVar < DefaultExport < NamedExport, names break ties; same-module
    // uses come before cross-module ones, those by module then target
    let list = vec![
        other("b", named("x")),
        itself(named("b")),
        other("a", local("z")),
        itself(UsedByType::DefaultExport),
        itself(named("a")),
        itself(local("c")),
        other("a", local("y")),
        itself(local("a")),
    ];
    let sorted = dependency_tracker::used_by_graph::sort_used_by(&list);
    assert_eq!(
        sorted,
        vec![
            itself(local("a")),
            itself(local("c")),
            itself(UsedByType::DefaultExport),
            itself(named("a")),
            itself(named("b")),
            other("a", local("y")),
            other("a", local("z")),
            other("b", named("x")),
        ]
    );
}

#[test]
fn symbol_without_users_traces_to_itself() {
    let mut locals: StrTable<Option<Vec<UsedBy>>> = StrTable::new();
    locals.push_new(s("x"), None);
    locals.push_new(s("y"), Some(vec![]));
    let m = Module {
        local_variable_table: locals,
        named_export_table: StrTable::new(),
        default_export: None,
    };
    let mut modules: StrTable<Module> = StrTable::new();
    modules.push_new(s("a"), m);
    let graph = UsedByGraph { modules };
    for full in [false, true] {
        let mut dt = DependencyTracker::new(&graph, full);
        for sym in ["x", "y"] {
            let seed = (s("a"), TraceTarget::LocalVar(s(sym)));
            assert_eq!(dt.trace(seed.clone()).unwrap(), vec![vec![seed]]);
        }
        // the default export of a module never errors: no users, one path
        let seed = (s("a"), TraceTarget::DefaultExport);
        assert_eq!(dt.trace(seed.clone()).unwrap(), vec![vec![seed]]);
    }
}
