//! Resolution against a modelled file listing, mirroring the reference
//! project layouts.

use dependency_tracker::path_resolver::normalize_path;
use dependency_tracker::path_resolver::PathResolver;

fn canon(p: &str) -> String {
    normalize_path(&p.to_string())
}

fn model(files: &[&str]) -> Vec<String> {
    files.iter().map(|f| canon(f)).collect()
}

fn fixture_resolver() -> PathResolver {
    PathResolver::new(
        "tests/fixture".to_string(),
        model(&[
            "tests/fixture/index.js",
            "tests/fixture/index-js/a/index.js",
            "tests/fixture/index-ts/a/index.ts",
            "tests/fixture/js/a.js",
            "tests/fixture/ts/a.ts",
            "tests/fixture/jsx/a.jsx",
            "tests/fixture/tsx/a.tsx",
        ]),
    )
}

#[test]
fn resolve_relative_path() {
    let resolver = fixture_resolver();
    let cases = [
        ("./index-js/a", "tests/fixture/index-js/a/index.js"),
        ("./index-ts/a", "tests/fixture/index-ts/a/index.ts"),
        ("./js/a", "tests/fixture/js/a.js"),
        ("./ts/a", "tests/fixture/ts/a.ts"),
        ("./jsx/a", "tests/fixture/jsx/a.jsx"),
        ("./tsx/a", "tests/fixture/tsx/a.tsx"),
    ];
    for (import_src, expected) in cases {
        let resolved = resolver
            .resolve_path(&"tests/fixture/index.js".to_string(), &import_src.to_string())
            .unwrap();
        assert_eq!(resolved, canon(expected));
    }
}

#[test]
fn resolve_alias_path() {
    let resolver = fixture_resolver();
    let cases = [
        ("index-js/a", "tests/fixture/index-js/a/index.js"),
        ("index-ts/a", "tests/fixture/index-ts/a/index.ts"),
        ("js/a", "tests/fixture/js/a.js"),
        ("ts/a", "tests/fixture/ts/a.ts"),
        ("jsx/a", "tests/fixture/jsx/a.jsx"),
        ("tsx/a", "tests/fixture/tsx/a.tsx"),
    ];
    for (import_src, expected) in cases {
        let resolved = resolver
            .resolve_path(&"tests/fixture/index.js".to_string(), &import_src.to_string())
            .unwrap();
        assert_eq!(resolved, canon(expected));
    }
}

fn project_resolver(base: &str) -> PathResolver {
    PathResolver::new(
        base.to_string(),
        model(&[
            "test-project/everybodyyyy/src/App.tsx",
            "test-project/everybodyyyy/src/components/index.ts",
            "test-project/everybodyyyy/src/components/buttons/index.ts",
            "test-project/everybodyyyy/src/components/buttons/counter.tsx",
            "test-project/everybodyyyy/src/components/links/index.ts",
        ]),
    )
}

#[test]
fn test_resolve_relative_path() {
    let resolver = project_resolver("");

    assert_eq!(
        resolver
            .resolve_path(
                &"test-project/everybodyyyy/src/components/buttons/index.ts".to_string(),
                &"./counter".to_string()
            )
            .unwrap(),
        canon("test-project/everybodyyyy/src/components/buttons/counter.tsx")
    );

    assert_eq!(
        resolver
            .resolve_path(
                &"test-project/everybodyyyy/src/components/buttons/index.ts".to_string(),
                &"../links".to_string()
            )
            .unwrap(),
        canon("test-project/everybodyyyy/src/components/links/index.ts")
    );

    assert_eq!(
        resolver
            .resolve_path(
                &"test-project/everybodyyyy/src/components/buttons/index.ts".to_string(),
                &"../../App.tsx".to_string()
            )
            .unwrap(),
        canon("test-project/everybodyyyy/src/App.tsx")
    );
}

#[test]
fn test_resolve_alias_path() {
    let resolver = project_resolver("test-project/everybodyyyy/src");

    assert_eq!(
        resolver
            .resolve_path(
                &"test-project/everybodyyyy/src/components/buttons/index.ts".to_string(),
                &"components".to_string()
            )
            .unwrap(),
        canon("test-project/everybodyyyy/src/components/index.ts")
    );

    assert_eq!(
        resolver
            .resolve_path(
                &"test-project/everybodyyyy/src/components/buttons/index.ts".to_string(),
                &"components/links".to_string()
            )
            .unwrap(),
        canon("test-project/everybodyyyy/src/components/links/index.ts")
    );

    assert_eq!(
        resolver
            .resolve_path(
                &"test-project/everybodyyyy/src/components/buttons/index.ts".to_string(),
                &"App".to_string()
            )
            .unwrap(),
        canon("test-project/everybodyyyy/src/App.tsx")
    );
}

#[test]
fn unresolved_import_is_reported() {
    let resolver = fixture_resolver();
    assert!(resolver
        .resolve_path(
            &"tests/fixture/index.js".to_string(),
            &"./no-such-module".to_string()
        )
        .is_err());
}

#[test]
fn dot_segments_are_folded() {
    assert_eq!(canon("a/b/../c/./d.js"), "/a/c/d.js");
    assert_eq!(canon("/a//b/c.js"), "/a/b/c.js");
}
