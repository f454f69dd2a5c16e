use free_disk_space::classifier::{classify, is_cargo_crate, is_rust_checkout, ProjectMarker};
use free_disk_space::fs_model::{EntryKind, FsTree};
use free_disk_space::scanner::find_artifact_directories;

fn file(name: &str) -> FsTree {
    FsTree { name: name.to_string(), kind: EntryKind::File, children: Vec::new() }
}

fn dir(name: &str, children: Vec<FsTree>) -> FsTree {
    FsTree { name: name.to_string(), kind: EntryKind::Dir, children }
}

fn symlink(name: &str) -> FsTree {
    FsTree { name: name.to_string(), kind: EntryKind::Symlink, children: Vec::new() }
}

fn rust_checkout(name: &str) -> FsTree {
    dir(name, vec![file("x.py"), dir("build", Vec::new())])
}

fn cargo_crate(name: &str) -> FsTree {
    dir(name, vec![file("Cargo.toml"), dir("target", Vec::new())])
}

fn path(components: &[&str]) -> Vec<String> {
    components.iter().map(|c| c.to_string()).collect()
}

#[test]
fn find_artifact_directories_in_root() {
    let checkout = rust_checkout("checkout");

    let artifact_directories = find_artifact_directories(&checkout);

    assert_eq!(artifact_directories, vec![path(&["checkout", "build"])]);
}

#[test]
fn find_artifact_directories_recursively() {
    let root_directory = dir(
        "root",
        vec![
            rust_checkout("checkout"),
            cargo_crate("crate"),
            dir("other", vec![dir("build", Vec::new())]),
        ],
    );

    let artifact_directories = find_artifact_directories(&root_directory);

    assert_eq!(
        artifact_directories,
        vec![path(&["root", "checkout", "build"]), path(&["root", "crate", "target"])]
    );
}

#[test]
fn is_rust_checkout_returns_true_for_rust_checkout() {
    let checkout = rust_checkout("checkout");

    assert!(is_rust_checkout(&checkout));
}

#[test]
fn is_rust_checkout_returns_false_for_cargo_crate() {
    let root_directory = cargo_crate("crate");

    assert!(!is_rust_checkout(&root_directory));
}

#[test]
fn is_rust_checkout_returns_false_for_random_directory() {
    // A build directory alone, without x.py, must not classify.
    let root_directory = dir("random", vec![dir("build", Vec::new())]);

    assert!(!is_rust_checkout(&root_directory));
}

#[test]
fn is_cargo_crate_returns_true_for_cargo_crate() {
    let root_directory = cargo_crate("crate");

    assert!(is_cargo_crate(&root_directory));
}

#[test]
fn is_cargo_crate_returns_false_for_rust_checkout() {
    let root_directory = rust_checkout("checkout");

    assert!(!is_cargo_crate(&root_directory));
}

#[test]
fn is_cargo_crate_returns_false_for_random_directory() {
    // A Cargo.toml alone, without a target directory, must not classify.
    let root_directory = dir("random", vec![file("Cargo.toml")]);

    assert!(!is_cargo_crate(&root_directory));
}

#[test]
fn classify_reports_source_checkout_with_build_directory() {
    let checkout = rust_checkout("checkout");

    let result = classify(&checkout);

    assert_eq!(result, Some((ProjectMarker::SourceCheckout, "build".to_string())));
}

#[test]
fn classify_reports_package_checkout_with_target_directory() {
    let krate = cargo_crate("crate");

    let result = classify(&krate);

    assert_eq!(result, Some((ProjectMarker::PackageCheckout, "target".to_string())));
}

#[test]
fn classify_rejects_partial_matches() {
    assert_eq!(classify(&dir("a", vec![file("x.py")])), None);
    assert_eq!(classify(&dir("b", vec![dir("build", Vec::new())])), None);
    assert_eq!(classify(&dir("c", vec![file("Cargo.toml")])), None);
    assert_eq!(classify(&dir("d", vec![dir("target", Vec::new())])), None);
    assert_eq!(classify(&dir("e", Vec::new())), None);
}

#[test]
fn classify_requires_the_right_entry_kinds() {
    // The marker present as a directory, or the artifact present as a file,
    // must not classify; neither does a symlink in either position.
    assert_eq!(classify(&dir("a", vec![dir("x.py", Vec::new()), dir("build", Vec::new())])), None);
    assert_eq!(classify(&dir("b", vec![file("x.py"), file("build")])), None);
    assert_eq!(classify(&dir("c", vec![file("Cargo.toml"), symlink("target")])), None);
}

#[test]
fn classify_is_idempotent_on_an_unchanged_directory() {
    let checkout = rust_checkout("checkout");
    let plain = dir("random", vec![file("README.md")]);

    assert_eq!(classify(&checkout), classify(&checkout));
    assert_eq!(classify(&plain), classify(&plain));
}

#[test]
fn scan_does_not_descend_into_recognized_project_roots() {
    // A project nested anywhere beneath a recognized root — even outside the
    // artifact directory — is pruned away together with the whole subtree.
    let nested_in_build = cargo_crate("nested");
    let nested_in_src = cargo_crate("tool");
    let checkout = dir(
        "checkout",
        vec![
            file("x.py"),
            dir("build", vec![nested_in_build]),
            dir("src", vec![nested_in_src]),
        ],
    );
    let root_directory = dir("root", vec![checkout]);

    let artifact_directories = find_artifact_directories(&root_directory);

    assert_eq!(artifact_directories, vec![path(&["root", "checkout", "build"])]);
}

#[test]
fn scan_finds_deeply_nested_projects() {
    let root_directory = dir("root", vec![dir("a", vec![dir("b", vec![cargo_crate("crate")])])]);

    let artifact_directories = find_artifact_directories(&root_directory);

    assert_eq!(artifact_directories, vec![path(&["root", "a", "b", "crate", "target"])]);
}

#[test]
fn scan_returns_nothing_without_projects() {
    let root_directory = dir(
        "root",
        vec![dir("other", vec![dir("build", Vec::new())]), dir("target", Vec::new()), file("notes")],
    );

    let artifact_directories = find_artifact_directories(&root_directory);

    assert_eq!(artifact_directories, Vec::<Vec<String>>::new());
}
