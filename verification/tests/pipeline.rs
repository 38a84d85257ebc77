//! End-to-end behavior of the resolution pipeline: graph walk, metadata
//! decoding, reconciliation, and final assembly.

use license_fetcher::aggregate::finalize_package_list;
use license_fetcher::directive::ExecCargoFailure;
use license_fetcher::graph::{
    walk_dependencies, MetadataResolveNode, MetadataResolveNodeDeps, MetadataResolveNodeDepsKind,
};
use license_fetcher::metadata::{
    extract_package_name_from_id, package_list_from_cargo_metadata, PkgListFromCargoMetadataError,
};
use license_fetcher::reconcile::{package_list, PackageListError};
use license_fetcher::{Package, PackageList};

fn node(id: &str, deps: Vec<(&str, Option<&str>)>) -> MetadataResolveNode {
    MetadataResolveNode {
        id: id.to_owned(),
        deps: deps
            .into_iter()
            .map(|(pkg, kind)| MetadataResolveNodeDeps {
                pkg: pkg.to_owned(),
                dep_kinds: vec![MetadataResolveNodeDepsKind {
                    kind: kind.map(|k| k.to_owned()),
                }],
            })
            .collect(),
    }
}

fn pkg(name: &str, version: &str) -> Package {
    Package::new(
        name.to_owned(),
        version.to_owned(),
        vec![],
        None,
        None,
        None,
        None,
        None,
    )
}

const METADATA_JSON: &str = r#"{
  "packages": [
    {"name": "app", "version": "1.0.0", "id": "app 1.0.0",
     "license": "MIT", "description": "top", "authors": ["Ann"],
     "repository": null, "homepage": null},
    {"name": "libA", "version": "1.0.0", "id": "libA 1.0.0",
     "license": "MIT", "description": null, "authors": [],
     "repository": null, "homepage": null},
    {"name": "libB", "version": "1.0.0", "id": "libB 1.0.0",
     "license": null, "description": null, "authors": [],
     "repository": null, "homepage": null}
  ],
  "resolve": {
    "root": "app 1.0.0",
    "nodes": [
      {"id": "app 1.0.0", "deps": [
        {"pkg": "libA 1.0.0", "dep_kinds": [{"kind": null}]},
        {"pkg": "libB 1.0.0", "dep_kinds": [{"kind": "dev"}]}
      ]},
      {"id": "libA 1.0.0", "deps": []},
      {"id": "libB 1.0.0", "deps": []}
    ]
  }
}"#;

#[test]
fn walk_follows_only_normal_edges() {
    let nodes = vec![
        node("app", vec![("libA", None), ("libB", Some("dev"))]),
        node("libA", vec![("libC", None)]),
        node("libB", vec![]),
        node("libC", vec![]),
    ];
    let reached = walk_dependencies(&nodes, &"app".to_owned());
    assert_eq!(reached.len(), 3);
    assert!(reached.contains(&"app".to_owned()));
    assert!(reached.contains(&"libA".to_owned()));
    assert!(reached.contains(&"libC".to_owned()));
    assert!(!reached.contains(&"libB".to_owned()));
}

#[test]
fn walk_survives_cycles() {
    let nodes = vec![
        node("a", vec![("b", None)]),
        node("b", vec![("a", None)]),
        node("c", vec![]),
    ];
    let reached = walk_dependencies(&nodes, &"a".to_owned());
    assert_eq!(reached.len(), 2);
    assert!(reached.contains(&"a".to_owned()));
    assert!(reached.contains(&"b".to_owned()));
}

#[test]
fn walk_with_missing_root_is_empty() {
    let nodes = vec![node("a", vec![("b", None)]), node("b", vec![])];
    let reached = walk_dependencies(&nodes, &"zz".to_owned());
    assert!(reached.is_empty());
}

#[test]
fn metadata_resolves_reachable_packages() {
    let pkgs = package_list_from_cargo_metadata(METADATA_JSON.as_bytes()).unwrap();
    assert_eq!(pkgs.len(), 2);
    assert_eq!(pkgs[0].name, "app");
    assert!(pkgs[0].is_root_pkg);
    assert_eq!(pkgs[0].license_identifier.as_deref(), Some("MIT"));
    assert_eq!(pkgs[0].description.as_deref(), Some("top"));
    assert_eq!(pkgs[0].authors, vec!["Ann".to_owned()]);
    assert_eq!(pkgs[0].name_version, "app-1.0.0");
    assert_eq!(pkgs[1].name, "libA");
    assert!(!pkgs[1].is_root_pkg);
}

#[test]
fn metadata_rejects_invalid_documents() {
    let r = package_list_from_cargo_metadata(b"not json");
    assert!(matches!(r, Err(PkgListFromCargoMetadataError::ParseJson)));
    let r = package_list_from_cargo_metadata(b"{\"packages\": []}");
    assert!(matches!(r, Err(PkgListFromCargoMetadataError::ParseJson)));
    let no_root = r#"{"packages": [], "resolve": {"root": null, "nodes": []}}"#;
    let r = package_list_from_cargo_metadata(no_root.as_bytes());
    assert!(matches!(r, Err(PkgListFromCargoMetadataError::ParseJson)));
    let root_not_in_nodes = r#"{"packages": [], "resolve": {"root": "zz 1.0", "nodes": []}}"#;
    let r = package_list_from_cargo_metadata(root_not_in_nodes.as_bytes());
    assert!(matches!(r, Err(PkgListFromCargoMetadataError::ParseJson)));
    let dup_nodes = r#"{"packages": [],
        "resolve": {"root": "a 1", "nodes": [{"id": "a 1", "deps": []}, {"id": "a 1", "deps": []}]}}"#;
    let r = package_list_from_cargo_metadata(dup_nodes.as_bytes());
    assert!(matches!(r, Err(PkgListFromCargoMetadataError::ParseJson)));
}

#[test]
fn test_extract_package_name_from_id() {
    let pkg_id = "path+file:///M:/DEV/Projects/Rust/projects/license-fetcher#0.7.3".to_owned();
    let pkg_name = extract_package_name_from_id(&pkg_id).unwrap();
    assert_eq!(pkg_name, "license-fetcher");
}

#[test]
fn extract_name_from_registry_id() {
    let id = "registry+https://github.com/rust-lang/crates.io-index#serde@1.0.219".to_owned();
    assert_eq!(extract_package_name_from_id(&id).unwrap(), "serde");
    let bad = "no delimiters here".to_owned();
    assert!(extract_package_name_from_id(&bad).is_err());
}

#[test]
fn resolution_scenario_reconciles_both_sources() {
    let metadata: Result<Vec<u8>, ExecCargoFailure> = Ok(METADATA_JSON.as_bytes().to_vec());
    let tree: Result<Vec<u8>, ExecCargoFailure> = Ok(b"app v1.0.0\nlibA v1.0.0\n".to_vec());
    let list = package_list(&metadata, &tree).unwrap();
    let names: Vec<&str> = list.0.iter().map(|p| p.name.as_str()).collect();
    assert_eq!(names, vec!["app", "libA"]);
    let finalized = finalize_package_list(list, Some("ROOT LICENSE".to_owned())).unwrap();
    assert_eq!(finalized.0[0].name, "app");
    assert!(finalized.0[0].is_root_pkg);
    assert_eq!(finalized.0[0].license_text.as_deref(), Some("ROOT LICENSE"));
    assert_eq!(finalized.0[1].name, "libA");
    assert!(!finalized.0[1].is_root_pkg);
}

#[test]
fn reconciler_is_bypassed_when_tree_fetch_fails() {
    let metadata: Result<Vec<u8>, ExecCargoFailure> = Ok(METADATA_JSON.as_bytes().to_vec());
    let tree: Result<Vec<u8>, ExecCargoFailure> = Err(ExecCargoFailure {
        errors: vec!["tree failed".to_owned()],
    });
    let list = package_list(&metadata, &tree).unwrap();
    let names: Vec<&str> = list.0.iter().map(|p| p.name.as_str()).collect();
    assert_eq!(names, vec!["app", "libA"]);
}

#[test]
fn invalid_tree_text_bypasses_the_reconciler() {
    let metadata: Result<Vec<u8>, ExecCargoFailure> = Ok(METADATA_JSON.as_bytes().to_vec());
    let tree: Result<Vec<u8>, ExecCargoFailure> = Ok(vec![0xff, 0xfe, 0x20]);
    let list = package_list(&metadata, &tree).unwrap();
    let names: Vec<&str> = list.0.iter().map(|p| p.name.as_str()).collect();
    assert_eq!(names, vec!["app", "libA"]);
}

#[test]
fn duplicate_name_version_keys_are_rejected() {
    let doc = r#"{
      "packages": [
        {"name": "app", "version": "1.0.0", "id": "app 1.0.0 (a)",
         "license": null, "description": null, "authors": [],
         "repository": null, "homepage": null},
        {"name": "app", "version": "1.0.0", "id": "app 1.0.0 (b)",
         "license": null, "description": null, "authors": [],
         "repository": null, "homepage": null}
      ],
      "resolve": {
        "root": "app 1.0.0 (a)",
        "nodes": [
          {"id": "app 1.0.0 (a)", "deps": [
            {"pkg": "app 1.0.0 (b)", "dep_kinds": [{"kind": null}]}
          ]},
          {"id": "app 1.0.0 (b)", "deps": []}
        ]
      }
    }"#;
    let r = package_list_from_cargo_metadata(doc.as_bytes());
    assert!(matches!(r, Err(PkgListFromCargoMetadataError::ParseJson)));
}

#[test]
fn both_failures_are_reported_together() {
    let metadata: Result<Vec<u8>, ExecCargoFailure> = Err(ExecCargoFailure {
        errors: vec!["m1".to_owned(), "m2".to_owned()],
    });
    let tree: Result<Vec<u8>, ExecCargoFailure> = Err(ExecCargoFailure {
        errors: vec!["t1".to_owned()],
    });
    match package_list(&metadata, &tree) {
        Err(PackageListError::BothFetchesFailed(me, te)) => {
            assert_eq!(me.errors, vec!["m1".to_owned(), "m2".to_owned()]);
            assert_eq!(te.errors, vec!["t1".to_owned()]);
        }
        _ => panic!("expected a combined failure"),
    }
}

#[test]
fn metadata_failure_alone_is_fatal() {
    let metadata: Result<Vec<u8>, ExecCargoFailure> = Err(ExecCargoFailure {
        errors: vec!["m".to_owned()],
    });
    let tree: Result<Vec<u8>, ExecCargoFailure> = Ok(b"app\n".to_vec());
    assert!(matches!(
        package_list(&metadata, &tree),
        Err(PackageListError::MetadataFetchFailed(_))
    ));
}

#[test]
fn reconciled_list_without_root_is_rejected() {
    let metadata: Result<Vec<u8>, ExecCargoFailure> = Ok(METADATA_JSON.as_bytes().to_vec());
    let tree: Result<Vec<u8>, ExecCargoFailure> = Ok(b"libA v1.0.0\n".to_vec());
    assert!(matches!(
        package_list(&metadata, &tree),
        Err(PackageListError::Resolve(
            PkgListFromCargoMetadataError::RootPackageMissing
        ))
    ));
}

#[test]
fn finalize_pins_root_and_sorts_rest() {
    let mut zeta = pkg("zeta", "1.0.0");
    zeta.is_root_pkg = true;
    let list = PackageList(vec![
        pkg("delta", "2.0.0"),
        pkg("alpha", "1.0.0"),
        zeta,
        pkg("beta", "3.1.0"),
        pkg("beta", "0.2.0"),
    ]);
    let out = finalize_package_list(list, None).unwrap();
    let keys: Vec<&str> = out.0.iter().map(|p| p.name_version.as_str()).collect();
    assert_eq!(
        keys,
        vec![
            "zeta-1.0.0",
            "alpha-1.0.0",
            "beta-0.2.0",
            "beta-3.1.0",
            "delta-2.0.0"
        ]
    );
    let roots = out.0.iter().filter(|p| p.is_root_pkg).count();
    assert_eq!(roots, 1);
    assert!(out.0[0].is_root_pkg);
    for i in 1..out.0.len() {
        for j in (i + 1)..out.0.len() {
            assert_ne!(out.0[i].name_version, out.0[j].name_version);
        }
    }
}

#[test]
fn finalize_without_root_fails() {
    let list = PackageList(vec![pkg("a", "1"), pkg("b", "2")]);
    assert!(finalize_package_list(list, None).is_err());
}
