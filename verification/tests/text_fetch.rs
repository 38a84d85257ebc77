//! Text handling, the license locator, the directive fallback policy, and
//! package rendering.

use license_fetcher::aggregate::sort_packages;
use license_fetcher::config::{ConfigBuilder, ConfigBuildError};
use license_fetcher::directive::{
    exec_cargo_step, CargoDirective, CargoDirectiveList, ExecCargoStep,
};
use license_fetcher::fetch::{
    find_package_folder, license_file_name_matches, license_text_from_folder,
    select_license_file_names,
};
use license_fetcher::reconcile::used_pkg_names_from_cargo_tree;
use license_fetcher::{Package, PackageList};

fn pkg(name: &str, version: &str) -> Package {
    Package::new(
        name.to_owned(),
        version.to_owned(),
        vec![],
        None,
        None,
        None,
        None,
        None,
    )
}

#[test]
fn license_file_names_match_case_insensitively() {
    assert!(license_file_name_matches("LICENSE-MIT"));
    assert!(license_file_name_matches("NOTICE.txt"));
    assert!(license_file_name_matches("Copying"));
    assert!(license_file_name_matches("AUTHORS"));
    assert!(license_file_name_matches("eula.rtf"));
    assert!(license_file_name_matches("my-license.md"));
    assert!(!license_file_name_matches("README.md"));
    assert!(!license_file_name_matches("src"));
}

#[test]
fn locator_scenario_concatenates_candidates() {
    let names = vec![
        "LICENSE-MIT".to_owned(),
        "NOTICE.txt".to_owned(),
        "README.md".to_owned(),
    ];
    let picked = select_license_file_names(&names);
    assert_eq!(picked, vec![0, 1]);

    let texts = vec!["MIT terms".to_owned(), "notice body".to_owned()];
    let joined = license_text_from_folder(&texts).unwrap();
    assert_eq!(joined, "MIT terms\n\nnotice body");

    let only_readme = vec!["README.md".to_owned()];
    assert_eq!(select_license_file_names(&only_readme), Vec::<usize>::new());
    assert_eq!(license_text_from_folder(&Vec::new()), None);
    assert_eq!(license_text_from_folder(&vec!["".to_owned()]), None);
    assert_eq!(
        license_text_from_folder(&vec!["".to_owned(), "x".to_owned()]),
        Some("x".to_owned())
    );
}

#[test]
fn package_folder_is_found_by_name_version() {
    let folders = vec![
        "serde-1.0.0".to_owned(),
        "libA-1.0".to_owned(),
        "libA-2.0".to_owned(),
    ];
    assert_eq!(find_package_folder(&folders, &"libA-1.0".to_owned()), Some(1));
    assert_eq!(find_package_folder(&folders, &"libC-1.0".to_owned()), None);
}

#[test]
fn tree_output_yields_first_fields_of_nonempty_lines() {
    let out = b"app v1.0.0 (/work/app)\n  \nlibA v0.2.0\r\nlibB\n";
    let names = used_pkg_names_from_cargo_tree(out);
    assert_eq!(
        names,
        vec![b"app".to_vec(), b"libA".to_vec(), b"libB".to_vec()]
    );
}

#[test]
fn tree_tokens_are_a_set_and_end_at_any_whitespace() {
    let out = b"app v1.0.0\nlibA\tv0.2.0\napp v1.0.0\n";
    let names = used_pkg_names_from_cargo_tree(out);
    assert_eq!(names, vec![b"app".to_vec(), b"libA".to_vec()]);
}

#[test]
fn directive_fallback_takes_first_success() {
    let directives = CargoDirectiveList::prefer_locked();
    assert_eq!(
        directives.0,
        vec![CargoDirective::Locked, CargoDirective::Default]
    );
    assert_eq!(CargoDirectiveList::default().0, vec![CargoDirective::Default]);

    let no_attempts: Vec<Result<Vec<u8>, String>> = vec![];
    assert!(matches!(
        exec_cargo_step(&directives, &no_attempts),
        ExecCargoStep::RunNext(0)
    ));

    let one_failed: Vec<Result<Vec<u8>, String>> = vec![Err("locked failed".to_owned())];
    assert!(matches!(
        exec_cargo_step(&directives, &one_failed),
        ExecCargoStep::RunNext(1)
    ));

    let second_ok: Vec<Result<Vec<u8>, String>> =
        vec![Err("locked failed".to_owned()), Ok(b"out".to_vec())];
    assert!(matches!(
        exec_cargo_step(&directives, &second_ok),
        ExecCargoStep::Done(1)
    ));

    let all_failed: Vec<Result<Vec<u8>, String>> =
        vec![Err("locked failed".to_owned()), Err("default failed".to_owned())];
    match exec_cargo_step(&directives, &all_failed) {
        ExecCargoStep::Failed(f) => {
            assert_eq!(
                f.errors,
                vec!["locked failed".to_owned(), "default failed".to_owned()]
            );
        }
        _ => panic!("every mode failed, so the step must fail with all errors"),
    }
}

#[test]
fn directive_arguments_match_modes() {
    assert_eq!(CargoDirective::Default.as_argument(), "");
    assert_eq!(CargoDirective::Locked.as_argument(), "--locked");
    assert_eq!(CargoDirective::Frozen.as_argument(), "--frozen");
    assert_eq!(CargoDirective::Locked.label(), "locked");
}

#[test]
fn packages_sort_by_name_then_version() {
    let sorted = sort_packages(vec![
        pkg("b", "2"),
        pkg("a", "10"),
        pkg("b", "10"),
        pkg("a", "2"),
    ]);
    let keys: Vec<&str> = sorted.iter().map(|p| p.name_version.as_str()).collect();
    assert_eq!(keys, vec!["a-10", "a-2", "b-10", "b-2"]);
}

#[test]
fn package_report_is_rendered_exactly() {
    let p = pkg("alpha", "1.0.0");
    let expected = format!("Package:     alpha 1.0.0\n\n{}\n\n", "=".repeat(80));
    assert_eq!(p.fmt_package(), expected);

    let mut q = pkg("beta", "2.0");
    q.description = Some("short".to_owned());
    q.authors = vec!["Ann".to_owned(), "Ben".to_owned()];
    q.license_identifier = Some("MIT".to_owned());
    q.license_text = Some("TEXT".to_owned());
    let expected = format!(
        "Package:     beta 2.0\nDescription: short\nAuthors:     - Ann\n             - Ben\nSPDX Ident:  MIT\n\n{}\nTEXT\n\n{}\n\n",
        "-".repeat(80),
        "=".repeat(80)
    );
    assert_eq!(q.fmt_package(), expected);
}

#[test]
fn package_list_report_prefixes_a_separator() {
    let list = PackageList(vec![pkg("alpha", "1.0.0")]);
    let expected = format!(
        "{}\n\nPackage:     alpha 1.0.0\n\n{}\n\n",
        "=".repeat(80),
        "=".repeat(80)
    );
    assert_eq!(list.fmt_package_list(), expected);
    assert_eq!(
        PackageList(vec![]).fmt_package_list(),
        format!("{}\n\n", "=".repeat(80))
    );
}

#[test]
fn name_version_joins_name_and_version() {
    let p = pkg("name", "0.1.0");
    assert_eq!(p.name_version, "name-0.1.0");
    assert!(!p.is_root_pkg);
    assert!(!p.restored_from_cache);
}

#[test]
fn config_builder_applies_choices_over_environment() {
    let config = ConfigBuilder::default()
        .manifest_dir("/work/proj".to_owned())
        .cache(false)
        .build(
            Some("/usr/bin/cargo".to_owned()),
            Some("/home/u/.cargo".to_owned()),
            Some("default".to_owned()),
            true,
        )
        .unwrap();
    assert_eq!(config.metadata_config.manifest_dir, "/work/proj");
    assert_eq!(config.metadata_config.cargo_path, "/usr/bin/cargo");
    assert_eq!(config.metadata_config.enabled_features.as_deref(), Some("default"));
    assert_eq!(config.cargo_home_dir, "/home/u/.cargo");
    assert!(!config.cache);
    assert_eq!(
        config.metadata_config.cargo_directives.0,
        vec![CargoDirective::Default]
    );
}

#[test]
fn config_builder_requires_manifest_dir_and_home() {
    let r = ConfigBuilder::default().build(None, Some("/home/u/.cargo".to_owned()), None, false);
    assert!(matches!(r, Err(ConfigBuildError::UninitializedField)));
    let r = ConfigBuilder::default()
        .manifest_dir("/work".to_owned())
        .build(None, None, None, false);
    assert!(matches!(r, Err(ConfigBuildError::CargoHomeDir)));
    let config = ConfigBuilder::default()
        .manifest_dir("/work".to_owned())
        .cargo_home_dir("/c".to_owned())
        .build(None, None, None, true)
        .unwrap();
    assert_eq!(config.metadata_config.cargo_path, "cargo");
    assert!(config.cache);
}
