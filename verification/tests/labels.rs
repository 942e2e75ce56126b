//! The label tree built from object-literal models, and the resolution of
//! `LABELS` member chains against it.

use dependency_tracker::i18n::collect_labels_from_object_literal;
use dependency_tracker::i18n::LabelKey;
use dependency_tracker::i18n::LabelProp;
use dependency_tracker::i18n::LabelValue;
use dependency_tracker::i18n::MemberAccess;
use dependency_tracker::i18n::TranslateObjectValue;
use dependency_tracker::i18n::LABELS;

fn s(x: &str) -> String {
    x.to_string()
}

fn sprop(key: &str, value: LabelValue) -> LabelProp {
    LabelProp { key: LabelKey::Static(s(key)), value }
}

fn cprop(value: LabelValue) -> LabelProp {
    LabelProp { key: LabelKey::Computed, value }
}

fn lit(text: &str) -> LabelValue {
    LabelValue::Str(s(text))
}

fn lazy_pair(key: &str) -> LabelValue {
    LabelValue::ArrayLit(vec![lit(key), lit("lazy")])
}

fn entry<'t>(tree: &'t LABELS, key: &str) -> &'t TranslateObjectValue {
    match tree {
        LABELS::ObjectLit(entries) => entries
            .iter()
            .find(|e| e.key == key)
            .map(|e| &e.value)
            .expect("key missing"),
        LABELS::Computed(_) => panic!("expected a static level"),
    }
}

fn leaf(v: &TranslateObjectValue) -> &String {
    match v {
        TranslateObjectValue::Str(k) => k,
        TranslateObjectValue::NestedLabels(_) => panic!("expected a translation key"),
    }
}

fn nested(v: &TranslateObjectValue) -> &LABELS {
    match v {
        TranslateObjectValue::NestedLabels(l) => l,
        TranslateObjectValue::Str(_) => panic!("expected a nested level"),
    }
}

fn computed(tree: &LABELS) -> &Vec<String> {
    match tree {
        LABELS::Computed(keys) => keys,
        LABELS::ObjectLit(_) => panic!("expected a computed level"),
    }
}

fn resolve(tree: &LABELS, chain: Vec<MemberAccess>) -> Vec<String> {
    tree.get_translation_keys_for_member_expr(&chain).unwrap()
}

fn ident_step(name: &str) -> MemberAccess {
    MemberAccess::IdentProp(s(name))
}

#[test]
fn empty_object() {
    let tree = collect_labels_from_object_literal(&vec![]).unwrap();
    match tree {
        LABELS::ObjectLit(entries) => assert!(entries.is_empty()),
        LABELS::Computed(_) => panic!("an empty literal is an empty static level"),
    }
}

#[test]
fn labels_simple_object() {
    let props = vec![
        sprop("bird", lit("i18n.bird")),
        sprop("cat", lit("i18n.cat")),
        sprop("dog", lit("i18n.dog")),
    ];
    let tree = collect_labels_from_object_literal(&props).unwrap();
    assert_eq!(leaf(entry(&tree, "bird")), "i18n.bird");
    assert_eq!(leaf(entry(&tree, "cat")), "i18n.cat");
    assert_eq!(leaf(entry(&tree, "dog")), "i18n.dog");
    // resolution against the same tree
    assert_eq!(resolve(&tree, vec![ident_step("bird")]), vec![s("i18n.bird")]);
    assert_eq!(resolve(&tree, vec![ident_step("cat")]), vec![s("i18n.cat")]);
    assert_eq!(resolve(&tree, vec![ident_step("dog")]), vec![s("i18n.dog")]);
    let all = resolve(&tree, vec![MemberAccess::Computed]);
    assert_eq!(all.len(), 3);
    for k in ["i18n.bird", "i18n.cat", "i18n.dog"] {
        assert!(all.contains(&s(k)));
    }
}

#[test]
fn labels_simple_computed() {
    let props = vec![
        cprop(lit("i18n.bird")),
        cprop(lit("i18n.cat")),
        cprop(lit("i18n.dog")),
    ];
    let tree = collect_labels_from_object_literal(&props).unwrap();
    let keys = computed(&tree);
    assert!(keys.contains(&s("i18n.bird")));
    assert!(keys.contains(&s("i18n.cat")));
    assert!(keys.contains(&s("i18n.dog")));
    let all = resolve(&tree, vec![MemberAccess::Computed]);
    assert_eq!(all.len(), 3);
    for k in ["i18n.bird", "i18n.cat", "i18n.dog"] {
        assert!(all.contains(&s(k)));
    }
}

#[test]
fn nested_object() {
    let props = vec![
        sprop("fly", LabelValue::ObjectLit(vec![sprop("bird", lit("i18n.bird"))])),
        sprop(
            "walk",
            LabelValue::ObjectLit(vec![
                sprop("cat", lit("i18n.cat")),
                sprop("dog", lit("i18n.dog")),
            ]),
        ),
    ];
    let tree = collect_labels_from_object_literal(&props).unwrap();
    let fly = nested(entry(&tree, "fly"));
    let walk = nested(entry(&tree, "walk"));
    assert_eq!(leaf(entry(fly, "bird")), "i18n.bird");
    assert_eq!(leaf(entry(walk, "cat")), "i18n.cat");
    assert_eq!(leaf(entry(walk, "dog")), "i18n.dog");
}

#[test]
fn nested_computed() {
    let pet = |name: &str, small: &str, large: &str| {
        cprop(LabelValue::ObjectLit(vec![
            sprop("name", lit(name)),
            sprop(
                "size",
                LabelValue::ObjectLit(vec![cprop(lit(small)), cprop(lit(large))]),
            ),
        ]))
    };
    let props = vec![
        pet("i18n.bird", "i18n.bird.small", "i18n.bird.large"),
        pet("i18n.cat", "i18n.cat.small", "i18n.cat.large"),
        pet("i18n.dog", "i18n.dog.small", "i18n.dog.large"),
    ];
    let tree = collect_labels_from_object_literal(&props).unwrap();
    let keys = computed(&tree);
    for k in [
        "i18n.bird", "i18n.bird.small", "i18n.bird.large", "i18n.cat", "i18n.cat.small",
        "i18n.cat.large", "i18n.dog", "i18n.dog.small", "i18n.dog.large",
    ] {
        assert!(keys.contains(&s(k)), "missing key: {}", k);
    }
}

#[test]
fn lazy() {
    let props = vec![
        sprop("bird", lazy_pair("i18n.bird")),
        sprop(
            "size",
            LabelValue::ObjectLit(vec![
                cprop(lazy_pair("i18n.bird.small")),
                cprop(lazy_pair("i18n.bird.large")),
            ]),
        ),
    ];
    let tree = collect_labels_from_object_literal(&props).unwrap();
    assert_eq!(leaf(entry(&tree, "bird")), "i18n.bird");
    let size = computed(nested(entry(&tree, "size")));
    assert!(size.contains(&s("i18n.bird.small")));
    assert!(size.contains(&s("i18n.bird.large")));
}

fn party_props() -> Vec<LabelProp> {
    let pet = |key: &str, name: &str, desc: &str, small: &str, large: &str| {
        sprop(
            key,
            LabelValue::ObjectLit(vec![
                sprop("name", lit(name)),
                sprop("desc", lazy_pair(desc)),
                sprop(
                    "size",
                    LabelValue::ObjectLit(vec![cprop(lit(small)), cprop(lazy_pair(large))]),
                ),
            ]),
        )
    };
    vec![
        sprop("title", lit("i18n.pet.party")),
        sprop("desc", lazy_pair("i18n.pet.party.desc")),
        pet("bird", "i18n.bird", "i18n.bird.desc", "i18n.bird.small", "i18n.bird.large"),
        pet("cat", "i18n.cat", "i18n.cat.desc", "i18n.cat.small", "i18n.cat.large"),
        pet("dog", "i18n.dog", "i18n.dog.desc", "i18n.dog.small", "i18n.dog.large"),
    ]
}

#[test]
fn labels_complex() {
    let tree = collect_labels_from_object_literal(&party_props()).unwrap();
    assert_eq!(leaf(entry(&tree, "title")), "i18n.pet.party");
    assert_eq!(leaf(entry(&tree, "desc")), "i18n.pet.party.desc");
    let bird = nested(entry(&tree, "bird"));
    assert_eq!(leaf(entry(bird, "name")), "i18n.bird");
    assert_eq!(leaf(entry(bird, "desc")), "i18n.bird.desc");
    let bird_size = computed(nested(entry(bird, "size")));
    assert!(bird_size.contains(&s("i18n.bird.small")));
    assert!(bird_size.contains(&s("i18n.bird.large")));
    // resolution through the static levels and into the computed one
    assert_eq!(resolve(&tree, vec![ident_step("title")]), vec![s("i18n.pet.party")]);
    assert_eq!(
        resolve(&tree, vec![ident_step("bird"), ident_step("name")]),
        vec![s("i18n.bird")]
    );
    let bird_size_keys = resolve(
        &tree,
        vec![ident_step("bird"), ident_step("size"), MemberAccess::Computed],
    );
    assert_eq!(bird_size_keys.len(), 2);
    assert!(bird_size_keys.contains(&s("i18n.bird.small")));
    assert!(bird_size_keys.contains(&s("i18n.bird.large")));
    // the whole subtree under a static key
    let bird_all = resolve(&tree, vec![ident_step("bird"), MemberAccess::Computed]);
    for k in ["i18n.bird", "i18n.bird.desc", "i18n.bird.small", "i18n.bird.large"] {
        assert!(bird_all.contains(&s(k)), "missing key: {}", k);
    }
}

#[test]
fn access_missing_name_is_an_error() {
    let props = vec![sprop("bird", lit("i18n.bird"))];
    let tree = collect_labels_from_object_literal(&props).unwrap();
    assert!(tree
        .get_translation_keys_for_member_expr(&vec![ident_step("cat")])
        .is_err());
}

#[test]
fn ident_against_computed_is_an_error() {
    let props = vec![cprop(lit("i18n.bird"))];
    let tree = collect_labels_from_object_literal(&props).unwrap();
    assert!(tree
        .get_translation_keys_for_member_expr(&vec![ident_step("bird")])
        .is_err());
}
