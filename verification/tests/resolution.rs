use buildxyz::attr::FileType;
use buildxyz::cache::{PathOrigin, StorePath};
use buildxyz::resolution::{
    compose_resolution_dbs, merge_resolution_db, Decision, ProvideData, Resolution, ResolutionDB,
};

fn store_path(name: &str) -> StorePath {
    StorePath::new(
        "/nix/store".to_string(),
        "abc".to_string(),
        name.to_string(),
        PathOrigin {
            attr: name.to_string(),
            output: "out".to_string(),
            toplevel: true,
            system: None,
        },
    )
}

fn provide(path: &str, package: &str) -> Resolution {
    Resolution::constant(
        path.to_string(),
        Decision::Provide(ProvideData {
            kind: FileType::Symlink,
            file_entry_name: format!("/{}", path),
            store_path: store_path(package),
        }),
    )
}

fn ignore(path: &str) -> Resolution {
    Resolution::constant(path.to_string(), Decision::Ignore)
}

fn db(resolutions: Vec<Resolution>) -> ResolutionDB {
    let mut db = ResolutionDB::new();
    for resolution in resolutions {
        db.insert(resolution);
    }
    db
}

fn summary(db: &ResolutionDB) -> Vec<(String, String)> {
    db.entries
        .iter()
        .map(|r| {
            let what = match r.decision() {
                Decision::Provide(data) => data.store_path.name.clone(),
                Decision::Ignore => "-".to_string(),
            };
            (r.requested_path().clone(), what)
        })
        .collect()
}

fn pairs(list: &[(&str, &str)]) -> Vec<(String, String)> {
    list.iter().map(|(a, b)| (a.to_string(), b.to_string())).collect()
}

#[test]
fn entries_stand_in_the_order_of_their_paths() {
    let db = db(vec![provide("lib/z", "z"), ignore("bin/a"), provide("include/m", "m")]);
    assert_eq!(summary(&db), pairs(&[("bin/a", "-"), ("include/m", "m"), ("lib/z", "z")]));
}

#[test]
fn a_second_resolution_for_a_path_replaces_the_first() {
    let db = db(vec![provide("bin/a", "one"), provide("bin/b", "b"), provide("bin/a", "two")]);
    assert_eq!(summary(&db), pairs(&[("bin/a", "two"), ("bin/b", "b")]));
}

#[test]
fn get_finds_what_was_inserted() {
    let db = db(vec![provide("bin/a", "one"), ignore("bin/b")]);
    assert!(matches!(db.get("bin/b").map(|r| r.decision()), Some(Decision::Ignore)));
    assert!(matches!(db.get("bin/a").map(|r| r.decision()), Some(Decision::Provide(_))));
    assert!(db.get("bin/c").is_none());
    assert!(db.get("bin").is_none());
    assert!(!db.is_empty());
    assert!(ResolutionDB::new().is_empty());
}

#[test]
fn merge_prefers_the_right() {
    let left = db(vec![provide("bin/a", "left"), provide("bin/b", "left")]);
    let right = db(vec![provide("bin/b", "right"), ignore("bin/c")]);
    let merged = merge_resolution_db(left, right);
    assert_eq!(
        summary(&merged),
        pairs(&[("bin/a", "left"), ("bin/b", "right"), ("bin/c", "-")])
    );
}

#[test]
fn merge_with_nothing_changes_nothing() {
    let a = || db(vec![provide("bin/a", "a"), ignore("bin/b")]);
    assert_eq!(summary(&merge_resolution_db(a(), ResolutionDB::new())), summary(&a()));
    assert_eq!(summary(&merge_resolution_db(ResolutionDB::new(), a())), summary(&a()));
}

#[test]
fn merge_is_associative() {
    let a = || db(vec![provide("x", "a"), provide("y", "a"), provide("z", "a")]);
    let b = || db(vec![provide("y", "b"), ignore("w")]);
    let c = || db(vec![ignore("z"), provide("w", "c")]);
    let left_first = merge_resolution_db(merge_resolution_db(a(), b()), c());
    let right_first = merge_resolution_db(a(), merge_resolution_db(b(), c()));
    assert_eq!(summary(&left_first), summary(&right_first));
    assert_eq!(
        summary(&left_first),
        pairs(&[("w", "c"), ("x", "a"), ("y", "b"), ("z", "-")])
    );
}

#[test]
fn sources_are_composed_from_the_lowest_priority_up() {
    let sources = vec![
        Some(db(vec![provide("bin/a", "core"), provide("bin/b", "core")])),
        None,
        Some(db(vec![provide("bin/b", "home")])),
        None,
        Some(db(vec![provide("bin/b", "user"), ignore("bin/c")])),
    ];
    let composed = compose_resolution_dbs(&sources);
    assert_eq!(
        summary(&composed),
        pairs(&[("bin/a", "core"), ("bin/b", "user"), ("bin/c", "-")])
    );
    assert!(compose_resolution_dbs(&Vec::new()).is_empty());
}

#[test]
fn provided_store_paths_come_in_the_order_of_the_paths() {
    let db = db(vec![provide("lib/z", "z"), ignore("bin/a"), provide("include/m", "m")]);
    let names: Vec<String> = db.provided_store_paths().iter().map(|p| p.name.clone()).collect();
    assert_eq!(names, vec!["m", "z"]);
    assert_eq!(db.ignored_paths(), vec!["bin/a".to_string()]);
}

#[test]
fn store_path_text() {
    let path = store_path("hello-2.12");
    assert_eq!(path.as_str(), "/nix/store/abc-hello-2.12");
    assert_eq!(path.join("/bin/hello"), "/nix/store/abc-hello-2.12/bin/hello");
    assert!(path.origin().toplevel);
    let copy = path.clone();
    assert_eq!(copy.as_str(), path.as_str());
    assert_eq!(copy.origin.attr, "hello-2.12");
}
