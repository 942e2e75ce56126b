//! End-to-end scenarios: the symbol extractor on a full module, the label
//! tree, the route extractor, the scheduler, and the search.

use dependency_tracker::extractor::collect_symbol_dependency;
use dependency_tracker::i18n::collect_labels_from_object_literal;
use dependency_tracker::i18n::LabelKey;
use dependency_tracker::i18n::LabelProp;
use dependency_tracker::i18n::LabelValue;
use dependency_tracker::i18n::LabelsModule;
use dependency_tracker::i18n::MemberAccess;
use dependency_tracker::i18n::SymbolChains;
use dependency_tracker::i18n::I18nToSymbol;
use dependency_tracker::module_model::Binding;
use dependency_tracker::module_model::DefaultExpr;
use dependency_tracker::module_model::ExportSpec;
use dependency_tracker::module_model::Ident;
use dependency_tracker::module_model::ImportSpec;
use dependency_tracker::module_model::ModuleItem;
use dependency_tracker::path_resolver::normalize_path;
use dependency_tracker::path_resolver::PathResolver;
use dependency_tracker::portable::search;
use dependency_tracker::portable::Portable;
use dependency_tracker::route::RouteEntry;
use dependency_tracker::route::RoutePathValue;
use dependency_tracker::route::RoutesModule;
use dependency_tracker::route::SymbolToRoutes;
use dependency_tracker::scheduler::ParserCandidateScheduler;
use dependency_tracker::table::StrTable;
use dependency_tracker::types::AnalysisError;
use dependency_tracker::types::FromType;
use dependency_tracker::types::ModuleExport;
use dependency_tracker::used_by_graph::UsedByGraph;

const ANON: &str = "+-*/default@#$%";

fn s(x: &str) -> String {
    x.to_string()
}

fn ident(name: &str, scope: u64) -> Ident {
    Ident { name: s(name), scope }
}

fn binding(name: &str, scope: u64, refs: &[(&str, u64)]) -> Binding {
    Binding {
        ident: ident(name, scope),
        refs: refs.iter().map(|(n, sc)| ident(n, *sc)).collect(),
    }
}

#[test]
fn single_file_with_imports() {
    let items = vec![
        ModuleItem::Import {
            src: s("./kirby"),
            specifiers: vec![
                ImportSpec::Default { local: ident("Kirby", 1) },
                ImportSpec::Named { local: ident("Power", 2), imported: None },
                ImportSpec::Named { local: ident("KirbyPink", 3), imported: Some(s("Pink")) },
                ImportSpec::Named { local: ident("Puffy", 4), imported: None },
            ],
        },
        ModuleItem::Import {
            src: s("./hawk"),
            specifiers: vec![ImportSpec::Namespace { local: ident("Hawk", 5) }],
        },
        ModuleItem::Decl {
            bindings: vec![binding("sugar", 6, &[]), binding("salt", 7, &[])],
            exported: false,
        },
        ModuleItem::Decl {
            bindings: vec![binding("cruet", 8, &[("sugar", 6), ("salt", 7)])],
            exported: false,
        },
        ModuleItem::Decl {
            bindings: vec![binding(
                "PicnicBox",
                9,
                &[("KirbyPink", 3), ("Puffy", 4), ("cruet", 8)],
            )],
            exported: true,
        },
        ModuleItem::Decl {
            bindings: vec![binding(
                "deliverPicnicBox",
                10,
                &[("Kirby", 1), ("PicnicBox", 9)],
            )],
            exported: false,
        },
        ModuleItem::Decl { bindings: vec![binding("WelcomeMessage", 11, &[])], exported: false },
        ModuleItem::NamedExportList {
            specifiers: vec![ExportSpec::Named {
                orig: s("WelcomeMessage"),
                exported: Some(s("welcome")),
            }],
        },
        ModuleItem::Decl {
            bindings: vec![binding(
                "InvitationCard",
                12,
                &[("Hawk", 5), ("WelcomeMessage", 11), ("deliverPicnicBox", 10)],
            )],
            exported: true,
        },
        ModuleItem::DefaultExportExpr { expr: DefaultExpr::Ident(s("InvitationCard")) },
        ModuleItem::ExportAll { src: s("./wild") },
        ModuleItem::NamedExportFrom {
            src: s("./wild"),
            specifiers: vec![ExportSpec::Namespace { name: Some(s("Wild")) }],
        },
        ModuleItem::ExportAll { src: s("./happy") },
    ];
    let sd = collect_symbol_dependency(&items, &s("test.js")).unwrap();

    let dep = |name: &str| {
        sd.local_variable_table
            .get(&s(name))
            .unwrap()
            .depend_on
            .clone()
    };
    assert_eq!(dep("cruet"), Some(vec![s("salt"), s("sugar")]));
    assert_eq!(dep("PicnicBox"), Some(vec![s("KirbyPink"), s("Puffy"), s("cruet")]));
    assert_eq!(dep("deliverPicnicBox"), Some(vec![s("Kirby"), s("PicnicBox")]));
    assert_eq!(
        dep("InvitationCard"),
        Some(vec![s("Hawk"), s("WelcomeMessage"), s("deliverPicnicBox")])
    );
    assert_eq!(
        sd.named_export_table.get(&s("PicnicBox")).unwrap(),
        &ModuleExport::Local(s("PicnicBox"))
    );
    assert_eq!(
        sd.named_export_table.get(&s("welcome")).unwrap(),
        &ModuleExport::Local(s("WelcomeMessage"))
    );
    assert_eq!(
        sd.named_export_table.get(&s("InvitationCard")).unwrap(),
        &ModuleExport::Local(s("InvitationCard"))
    );
    match sd.named_export_table.get(&s("Wild")).unwrap() {
        ModuleExport::ReExportFrom(f) => {
            assert_eq!(f.from, s("./wild"));
            assert_eq!(f.from_type, FromType::Namespace);
        }
        _ => panic!("Wild should be a namespace re-export"),
    }
    assert_eq!(sd.default_export, Some(ModuleExport::Local(s("InvitationCard"))));
    assert_eq!(sd.re_export_star_from, Some(vec![s("./wild"), s("./happy")]));
    // imported locals carry their sources
    let kirby_import = sd.local_variable_table.get(&s("KirbyPink")).unwrap();
    match &kirby_import.import_from {
        Some(f) => {
            assert_eq!(f.from, s("./kirby"));
            assert_eq!(f.from_type, FromType::Named(s("Pink")));
        }
        None => panic!("KirbyPink should be imported"),
    }
}

#[test]
fn anonymous_default_function() {
    let items = vec![
        ModuleItem::Decl {
            bindings: vec![binding("name1", 1, &[]), binding("name2", 2, &[])],
            exported: false,
        },
        ModuleItem::DefaultExportDecl {
            ident: None,
            refs: vec![ident("name1", 1), ident("name2", 2)],
        },
    ];
    let sd = collect_symbol_dependency(&items, &s("test.js")).unwrap();
    assert_eq!(
        sd.local_variable_table.get(&s(ANON)).unwrap().depend_on,
        Some(vec![s("name1"), s("name2")])
    );
    assert_eq!(sd.default_export, Some(ModuleExport::Local(s(ANON))));
}

#[test]
fn duplicate_export_is_fatal() {
    let items = vec![
        ModuleItem::Decl { bindings: vec![binding("a", 1, &[])], exported: true },
        ModuleItem::NamedExportList {
            specifiers: vec![ExportSpec::Named { orig: s("a"), exported: None }],
        },
    ];
    assert_eq!(
        collect_symbol_dependency(&items, &s("test.js")),
        Err(AnalysisError::DuplicateExport)
    );
}

fn str_prop(key: &str, value: &str) -> LabelProp {
    LabelProp { key: LabelKey::Static(s(key)), value: LabelValue::Str(s(value)) }
}

#[test]
fn labels_with_lazy_and_computed() {
    // { bird: "i18n.bird",
    //   size: { [SIZE.s]: "i18n.bird.s", [SIZE.l]: ["i18n.bird.l", "lazy"] } }
    let props = vec![
        str_prop("bird", "i18n.bird"),
        LabelProp {
            key: LabelKey::Static(s("size")),
            value: LabelValue::ObjectLit(vec![
                LabelProp { key: LabelKey::Computed, value: LabelValue::Str(s("i18n.bird.s")) },
                LabelProp {
                    key: LabelKey::Computed,
                    value: LabelValue::ArrayLit(vec![
                        LabelValue::Str(s("i18n.bird.l")),
                        LabelValue::Str(s("lazy")),
                    ]),
                },
            ]),
        },
    ];
    let tree = collect_labels_from_object_literal(&props).unwrap();
    let size_x = tree
        .get_translation_keys_for_member_expr(&vec![
            MemberAccess::IdentProp(s("size")),
            MemberAccess::Computed,
        ])
        .unwrap();
    assert_eq!(size_x.len(), 2);
    assert!(size_x.contains(&s("i18n.bird.s")));
    assert!(size_x.contains(&s("i18n.bird.l")));
    let bird = tree
        .get_translation_keys_for_member_expr(&vec![MemberAccess::IdentProp(s("bird"))])
        .unwrap();
    assert_eq!(bird, vec![s("i18n.bird")]);
}

#[test]
fn labels_mixed_keys_are_fatal() {
    let props = vec![
        str_prop("bird", "i18n.bird"),
        LabelProp { key: LabelKey::Computed, value: LabelValue::Str(s("i18n.cat")) },
    ];
    assert!(collect_labels_from_object_literal(&props).is_err());
}

#[test]
fn labels_bad_lazy_pair_is_fatal() {
    let props = vec![LabelProp {
        key: LabelKey::Static(s("bird")),
        value: LabelValue::ArrayLit(vec![LabelValue::Str(s("i18n.bird"))]),
    }];
    assert!(collect_labels_from_object_literal(&props).is_err());
}

#[test]
fn labels_usage_attribution() {
    let m = LabelsModule {
        labels_object: Some(vec![
            str_prop("bird", "i18n.bird"),
            str_prop("cat", "i18n.cat"),
        ]),
        usages: vec![
            SymbolChains {
                symbol: s("Foo"),
                chains: vec![
                    vec![MemberAccess::IdentProp(s("bird"))],
                    vec![MemberAccess::IdentProp(s("cat"))],
                ],
            },
            SymbolChains {
                symbol: s("Bar"),
                chains: vec![vec![MemberAccess::IdentProp(s("bird"))]],
            },
        ],
    };
    let mut index = I18nToSymbol::new();
    let usage = index.collect_i18n_usage(&s("/m.js"), &m).unwrap();
    assert_eq!(
        usage.get(&s("Foo")).unwrap(),
        &vec![s("i18n.bird"), s("i18n.cat")]
    );
    assert_eq!(usage.get(&s("Bar")).unwrap(), &vec![s("i18n.bird")]);
    let bird_entry = index.table.get(&s("i18n.bird")).unwrap();
    assert_eq!(
        bird_entry.get(&s("/m.js")).unwrap(),
        &vec![s("Foo"), s("Bar")]
    );
}

#[test]
fn routes_file() {
    // routes.js whose default is
    //   { 'a': {path:'/x', page:PageB, layouts:[A,E,F]},
    //     'b': {path:'/y', modal:{component:ModalG}, layouts:[A]} }
    let items = vec![
        ModuleItem::Decl {
            bindings: vec![
                binding("A", 1, &[]),
                binding("PageB", 2, &[]),
                binding("E", 3, &[]),
                binding("F", 4, &[]),
                binding("ModalG", 5, &[]),
            ],
            exported: false,
        },
        ModuleItem::DefaultExportExpr {
            expr: DefaultExpr::ObjectLit(vec![
                ident("PageB", 2),
                ident("A", 1),
                ident("E", 3),
                ident("F", 4),
                ident("ModalG", 5),
            ]),
        },
    ];
    let sd = collect_symbol_dependency(&items, &s("/proj/routes.js")).unwrap();
    let m = RoutesModule {
        route_object: Some(vec![
            RouteEntry {
                path_value: RoutePathValue::StrLit(s("/x")),
                idents: vec![s("PageB"), s("A"), s("E"), s("F")],
            },
            RouteEntry {
                path_value: RoutePathValue::StrLit(s("/y")),
                idents: vec![s("ModalG"), s("A")],
            },
        ]),
    };
    let mut str_idx = SymbolToRoutes::new();
    str_idx.collect_route_dependency(&m, &sd);
    let per_module = str_idx.table.get(&s("/proj/routes.js")).unwrap();
    assert_eq!(per_module.get(&s("A")).unwrap(), &vec![s("/x"), s("/y")]);
    assert_eq!(per_module.get(&s("PageB")).unwrap(), &vec![s("/x")]);
    assert_eq!(per_module.get(&s("E")).unwrap(), &vec![s("/x")]);
    assert_eq!(per_module.get(&s("F")).unwrap(), &vec![s("/x")]);
    assert_eq!(per_module.get(&s("ModalG")).unwrap(), &vec![s("/y")]);
}

#[test]
fn route_with_unusable_path_is_skipped() {
    let items = vec![
        ModuleItem::Decl {
            bindings: vec![binding("A", 1, &[]), binding("B", 2, &[]), binding("C", 3, &[])],
            exported: false,
        },
        ModuleItem::DefaultExportExpr {
            expr: DefaultExpr::ObjectLit(vec![ident("A", 1), ident("B", 2), ident("C", 3)]),
        },
    ];
    let sd = collect_symbol_dependency(&items, &s("/proj/routes.js")).unwrap();
    let m = RoutesModule {
        route_object: Some(vec![RouteEntry {
            path_value: RoutePathValue::Unusable,
            idents: vec![s("A"), s("B"), s("C")],
        }]),
    };
    let mut str_idx = SymbolToRoutes::new();
    str_idx.collect_route_dependency(&m, &sd);
    let per_module = str_idx.table.get(&s("/proj/routes.js")).unwrap();
    assert_eq!(per_module.len(), 0);
}

#[test]
fn wildcard_blocker_scheduling() {
    let root = "root";
    let blocker = normalize_path(&s("root/blocker.js"));
    let wildcard = normalize_path(&s("root/reexport/wildcard.js"));
    let namespace = normalize_path(&s("root/import/namespace.js"));
    let index = normalize_path(&s("root/index.js"));
    let files = vec![blocker.clone(), wildcard.clone(), namespace.clone(), index.clone()];
    let resolver = PathResolver::new(s(root), files);
    let cands = vec![
        (index.clone(), vec![]),
        (namespace.clone(), vec![s("../blocker")]),
        (wildcard.clone(), vec![s("../blocker")]),
        (blocker.clone(), vec![]),
    ];
    let mut scheduler = ParserCandidateScheduler::new(resolver, cands);
    assert_eq!(scheduler.get_total_remaining_candidate_count(), 4);
    let mut emitted: Vec<String> = Vec::new();
    loop {
        match scheduler.get_one_candidate() {
            Some(c) => {
                emitted.push(c.clone());
                scheduler.mark_candidate_as_parsed(c);
            }
            None => break,
        }
    }
    // every file is emitted exactly once
    assert_eq!(emitted.len(), 4);
    for f in [&blocker, &wildcard, &namespace, &index] {
        assert_eq!(emitted.iter().filter(|e| *e == f).count(), 1);
    }
    // the blocker comes before both dependents
    let pos = |x: &String| emitted.iter().position(|e| e == x).unwrap();
    assert!(pos(&blocker) < pos(&wildcard));
    assert!(pos(&blocker) < pos(&namespace));
    assert_eq!(scheduler.get_total_remaining_candidate_count(), 0);
}

#[test]
fn search_matches_and_misses() {
    let mut translation: StrTable<String> = StrTable::new();
    translation.push_new(s("i18n.bird"), s("Little bird"));
    translation.push_new(s("i18n.cat"), s("Lazy cat"));

    let mut symbols: StrTable<Vec<String>> = StrTable::new();
    symbols.push_new(s("/m.js"), vec![s("Foo")]);
    let mut i18n_to_symbol: StrTable<StrTable<Vec<String>>> = StrTable::new();
    i18n_to_symbol.push_new(s("i18n.bird"), symbols);

    let mut per_module: StrTable<Vec<String>> = StrTable::new();
    per_module.push_new(s("Foo"), vec![s("/route/x")]);
    let mut symbol_to_route: StrTable<StrTable<Vec<String>>> = StrTable::new();
    symbol_to_route.push_new(s("/m.js"), per_module);

    let items = vec![ModuleItem::Decl {
        bindings: vec![binding("Foo", 1, &[])],
        exported: false,
    }];
    let sd = collect_symbol_dependency(&items, &s("/m.js")).unwrap();
    let mut dt = dependency_tracker::depend_on_graph::DependOnGraph::new(
        s("/"),
        vec![s("/m.js")],
    );
    dt.add_symbol_dependency(sd).unwrap();
    let graph = UsedByGraph::from(&dt).unwrap();

    let p = Portable::new(s("/proj"), translation, i18n_to_symbol, symbol_to_route, graph);

    let hit = search(&p, &s("Little bird"), true).unwrap();
    assert_eq!(hit.project_root, s("/proj"));
    let bird = hit.trace_result.get(&s("i18n.bird")).unwrap();
    let routes = bird.get(&s("/route/x")).unwrap();
    let prefixes = routes.get(&s("Foo")).unwrap();
    assert_eq!(prefixes.len(), 1);
    assert_eq!(prefixes[0].len(), 0);

    let sub = search(&p, &s("bird"), false).unwrap();
    assert!(sub.trace_result.get(&s("i18n.bird")).is_some());

    assert_eq!(
        search(&p, &s("no such text"), false).err(),
        Some(AnalysisError::NotFound)
    );
    // exact match does not fire on substrings
    assert_eq!(
        search(&p, &s("bird"), true).err(),
        Some(AnalysisError::NotFound)
    );
}

#[test]
fn portable_round_trip() {
    let mut translation: StrTable<String> = StrTable::new();
    translation.push_new(s("i18n.bird"), s("Little \"bird\"\n"));
    translation.push_new(s("i18n.cat"), s("Lazy cat \\ tab\t"));

    let mut symbols: StrTable<Vec<String>> = StrTable::new();
    symbols.push_new(s("/m.js"), vec![s("Foo")]);
    let mut i18n_to_symbol: StrTable<StrTable<Vec<String>>> = StrTable::new();
    i18n_to_symbol.push_new(s("i18n.bird"), symbols);

    let mut per_module: StrTable<Vec<String>> = StrTable::new();
    per_module.push_new(s("Foo"), vec![s("/route/x")]);
    let mut symbol_to_route: StrTable<StrTable<Vec<String>>> = StrTable::new();
    symbol_to_route.push_new(s("/m.js"), per_module);

    let items = vec![
        ModuleItem::Decl { bindings: vec![binding("Foo", 1, &[("Bar", 2)])], exported: true },
        ModuleItem::Decl { bindings: vec![binding("Bar", 2, &[])], exported: false },
        ModuleItem::DefaultExportExpr { expr: DefaultExpr::Ident(s("Foo")) },
    ];
    let sd = collect_symbol_dependency(&items, &s("/m.js")).unwrap();
    let mut dt = dependency_tracker::depend_on_graph::DependOnGraph::new(
        s("/"),
        vec![s("/m.js")],
    );
    dt.add_symbol_dependency(sd).unwrap();
    let graph = UsedByGraph::from(&dt).unwrap();

    let p = Portable::new(s("/proj"), translation, i18n_to_symbol, symbol_to_route, graph);
    let text = p.export();
    let q = Portable::import(&text).unwrap();
    assert_eq!(q.project_root, p.project_root);
    assert_eq!(q.translation_json, p.translation_json);
    assert_eq!(q.i18n_to_symbol, p.i18n_to_symbol);
    assert_eq!(q.symbol_to_route, p.symbol_to_route);
    // the graph comes back with each used-by list in serialization order
    assert_graphs_match(&q.used_by_graph, &p.used_by_graph);
    let m = q.used_by_graph.modules.get(&s("/m.js")).unwrap();
    let foo_users = m.local_variable_table.get(&s("Foo")).unwrap().as_ref().unwrap();
    assert_eq!(
        foo_users[0],
        dependency_tracker::used_by_graph::UsedBy::Itself(
            dependency_tracker::used_by_graph::UsedByType::DefaultExport
        )
    );
    assert_eq!(
        foo_users[1],
        dependency_tracker::used_by_graph::UsedBy::Itself(
            dependency_tracker::used_by_graph::UsedByType::NamedExport(s("Foo"))
        )
    );
    // a second round agrees with the first
    assert_eq!(q.export(), text);
}

/// Same modules, same keys, and each used-by list equal as a multiset.
fn assert_graphs_match(a: &UsedByGraph, b: &UsedByGraph) {
    assert_eq!(a.modules.len(), b.modules.len());
    for i in 0..a.modules.len() {
        let key = a.modules.key_at(i).clone();
        let ma = a.modules.get(&key).unwrap();
        let mb = b.modules.get(&key).expect("module key missing");
        assert_lists_match(&ma.default_export, &mb.default_export);
        assert_eq!(
            ma.local_variable_table.len(),
            mb.local_variable_table.len()
        );
        for j in 0..ma.local_variable_table.len() {
            let lk = ma.local_variable_table.key_at(j).clone();
            assert_lists_match(
                ma.local_variable_table.get(&lk).unwrap(),
                mb.local_variable_table.get(&lk).expect("local key missing"),
            );
        }
        assert_eq!(ma.named_export_table.len(), mb.named_export_table.len());
        for j in 0..ma.named_export_table.len() {
            let nk = ma.named_export_table.key_at(j).clone();
            assert_lists_match(
                ma.named_export_table.get(&nk).unwrap(),
                mb.named_export_table.get(&nk).expect("named key missing"),
            );
        }
    }
}

fn assert_lists_match(a: &Option<Vec<dependency_tracker::used_by_graph::UsedBy>>, b: &Option<Vec<dependency_tracker::used_by_graph::UsedBy>>) {
    match (a, b) {
        (None, None) => {}
        (Some(la), Some(lb)) => {
            assert_eq!(la.len(), lb.len());
            for e in la {
                assert_eq!(
                    la.iter().filter(|x| *x == e).count(),
                    lb.iter().filter(|x| *x == e).count()
                );
            }
        }
        _ => panic!("used-by shape mismatch"),
    }
}

#[test]
fn import_rejects_malformed_text() {
    assert!(Portable::import(&s("not json")).is_err());
    assert!(Portable::import(&s("{\"project_root\":\"x\"}")).is_err());
}

#[test]
fn lib_it_works() {
    // five route entries, one of them without a usable page reference set
    let items = vec![
        ModuleItem::Decl {
            bindings: vec![
                binding("PageB", 1, &[]),
                binding("PageC", 2, &[]),
                binding("PageD", 3, &[]),
                binding("A", 4, &[]),
                binding("E", 5, &[]),
                binding("F", 6, &[]),
                binding("ModalG", 7, &[]),
            ],
            exported: false,
        },
        ModuleItem::DefaultExportExpr {
            expr: DefaultExpr::ObjectLit(vec![
                ident("PageB", 1),
                ident("PageC", 2),
                ident("PageD", 3),
                ident("A", 4),
                ident("E", 5),
                ident("F", 6),
                ident("ModalG", 7),
            ]),
        },
    ];
    let sd = collect_symbol_dependency(&items, &s("some/path/routes.js")).unwrap();
    let m = RoutesModule {
        route_object: Some(vec![
            RouteEntry {
                path_value: RoutePathValue::StrLit(s("/route/path/1")),
                idents: vec![],
            },
            RouteEntry {
                path_value: RoutePathValue::StrLit(s("/route/path/2")),
                idents: vec![s("PageB"), s("A"), s("E"), s("F")],
            },
            RouteEntry {
                path_value: RoutePathValue::StrLit(s("/route/path/3")),
                idents: vec![s("ModalG"), s("A")],
            },
            RouteEntry {
                path_value: RoutePathValue::StrLit(s("/route/path/4")),
                idents: vec![s("PageC"), s("A"), s("F")],
            },
            RouteEntry {
                path_value: RoutePathValue::StrLit(s("/route/path/5")),
                idents: vec![s("PageD"), s("E")],
            },
        ]),
    };
    let mut str_idx = SymbolToRoutes::new();
    str_idx.collect_route_dependency(&m, &sd);
    let table = str_idx.table.get(&s("some/path/routes.js")).unwrap();
    assert_eq!(
        table.get(&s("A")).unwrap(),
        &vec![s("/route/path/2"), s("/route/path/3"), s("/route/path/4")]
    );
    assert_eq!(table.get(&s("PageB")).unwrap(), &vec![s("/route/path/2")]);
    assert_eq!(table.get(&s("PageC")).unwrap(), &vec![s("/route/path/4")]);
    assert_eq!(table.get(&s("PageD")).unwrap(), &vec![s("/route/path/5")]);
    assert_eq!(
        table.get(&s("E")).unwrap(),
        &vec![s("/route/path/2"), s("/route/path/5")]
    );
    assert_eq!(
        table.get(&s("F")).unwrap(),
        &vec![s("/route/path/2"), s("/route/path/4")]
    );
    assert_eq!(table.get(&s("ModalG")).unwrap(), &vec![s("/route/path/3")]);
}

#[test]
fn parser_test_empty_input() {
    let sd = collect_symbol_dependency(&vec![], &s("test.js")).unwrap();
    assert_eq!(sd.canonical_path, s("test.js"));
    assert_eq!(sd.local_variable_table.len(), 0);
    assert_eq!(sd.named_export_table.len(), 0);
    assert!(sd.default_export.is_none());
    assert!(sd.re_export_star_from.is_none());
}

#[test]
fn parser_test_anonymous_default_export_function() {
    // let name1, name2;
    // export default function () { ...name1...name2... }
    let items = vec![
        ModuleItem::Decl {
            bindings: vec![binding("name1", 1, &[]), binding("name2", 2, &[])],
            exported: false,
        },
        ModuleItem::DefaultExportDecl {
            ident: None,
            refs: vec![ident("name1", 1), ident("name2", 2)],
        },
    ];
    let sd = collect_symbol_dependency(&items, &s("test.js")).unwrap();
    assert_eq!(sd.canonical_path, s("test.js"));
    assert_eq!(sd.local_variable_table.len(), 3);
    let plain = dependency_tracker::types::ModuleScopedVariable {
        depend_on: None,
        import_from: None,
    };
    assert_eq!(sd.local_variable_table.get(&s("name1")).unwrap(), &plain);
    assert_eq!(sd.local_variable_table.get(&s("name2")).unwrap(), &plain);
    assert_eq!(
        sd.local_variable_table.get(&s(ANON)).unwrap(),
        &dependency_tracker::types::ModuleScopedVariable {
            depend_on: Some(vec![s("name1"), s("name2")]),
            import_from: None,
        }
    );
    assert_eq!(sd.named_export_table.len(), 0);
    assert_eq!(sd.default_export, Some(ModuleExport::Local(s(ANON))));
    assert!(sd.re_export_star_from.is_none());
}

#[test]
fn export_exact_text_of_empty_artifact() {
    let translation: StrTable<String> = StrTable::new();
    let i18n_to_symbol: StrTable<StrTable<Vec<String>>> = StrTable::new();
    let symbol_to_route: StrTable<StrTable<Vec<String>>> = StrTable::new();
    let dt = dependency_tracker::depend_on_graph::DependOnGraph::new(s("/"), vec![]);
    let graph = UsedByGraph::from(&dt).unwrap();
    let p = Portable::new(s("/r"), translation, i18n_to_symbol, symbol_to_route, graph);
    let text = p.export();
    assert_eq!(
        text,
        s("{\"project_root\":\"/r\",\"translation_json\":{},\"i18n_to_symbol\":{},\"symbol_to_route\":{},\"used_by_graph\":{\"modules\":{}}}")
    );
}

#[test]
fn export_escapes_string_content() {
    let mut translation: StrTable<String> = StrTable::new();
    translation.push_new(s("k"), s("a\"b\\c\nd"));
    let i18n_to_symbol: StrTable<StrTable<Vec<String>>> = StrTable::new();
    let symbol_to_route: StrTable<StrTable<Vec<String>>> = StrTable::new();
    let dt = dependency_tracker::depend_on_graph::DependOnGraph::new(s("/"), vec![]);
    let graph = UsedByGraph::from(&dt).unwrap();
    let p = Portable::new(s("/r"), translation, i18n_to_symbol, symbol_to_route, graph);
    let text = p.export();
    assert!(text.contains("\"translation_json\":{\"k\":\"a\\\"b\\\\c\\nd\"}"));
    let back = Portable::import(&text).unwrap();
    assert_eq!(back.translation_json.get(&s("k")), Some(&s("a\"b\\c\nd")));
}
