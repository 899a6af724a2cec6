use buildxyz::attr::{build_fake_fattr, FileType};
use buildxyz::cache::{FileNode, FileTreeEntry, PathOrigin, StorePath};
use buildxyz::format::{read_resolution_db, write_resolution_db};
use buildxyz::fs::{
    BuildXYZ, Fatal, FsEventMessage, LookupAction, LookupReply, ReadlinkAction, ReadlinkReply,
    DIRECTORY_TTL, ENOENT, LINK_TTL, ROOT_INODE,
};
use buildxyz::interactive::{on_request, UiStep, UserRequest};
use buildxyz::popcount::Popcount;
use buildxyz::resolution::{Decision, ResolutionDB};

const BIN: u64 = 2;
const LIB: u64 = 7;
const FIRST_FREE: u64 = 9;

fn package(name: &str, path: &str, node: FileNode<()>, toplevel: bool) -> (StorePath, FileTreeEntry) {
    let origin = PathOrigin {
        attr: name.to_string(),
        output: "out".to_string(),
        toplevel,
        system: None,
    };
    (
        StorePath::new("/nix/store".to_string(), "abc".to_string(), name.to_string(), origin),
        FileTreeEntry { path: path.to_string(), node },
    )
}

fn hello(name: &str) -> (StorePath, FileTreeEntry) {
    package(name, "/bin/hello", FileNode::Regular { size: 1, executable: true }, true)
}

fn popularity(counts: &[(&str, u32)]) -> Popcount {
    let mut popcount = Popcount::new();
    for (name, count) in counts {
        popcount.native_build_inputs.insert(format!("/nix/store/abc-{}", name), *count);
    }
    popcount
}

fn mounted(popcount: Popcount, db: ResolutionDB) -> BuildXYZ {
    let mut fs = BuildXYZ::new(popcount, db, None, "/tmp/fast".to_string());
    fs.init();
    fs
}

fn link(ino: u64) -> LookupReply {
    LookupReply::Entry {
        ttl: LINK_TTL,
        attr: build_fake_fattr(ino, FileType::Symlink),
        generation: ino,
    }
}

fn expect_reply(action: LookupAction) -> LookupReply {
    match action {
        LookupAction::Reply(reply) => reply,
        other => panic!("a reply was due, not {:?}", other),
    }
}

/// Runs a lookup to its end against a shadow tree that holds nothing, the
/// rows given as what the index holds, and a prompt in automatic mode or one
/// that declines. Says whether the index and the prompt were asked.
fn resolve(
    fs: &mut BuildXYZ,
    parent: u64,
    name: &str,
    rows: &Vec<(StorePath, FileTreeEntry)>,
    automatic: bool,
) -> (LookupReply, bool, bool) {
    assert!(fs.knows_parent(parent));
    let mut asked_index = false;
    let mut asked_prompt = false;
    let mut action = fs.lookup(parent, name);
    loop {
        action = match action {
            LookupAction::Reply(reply) => return (reply, asked_index, asked_prompt),
            LookupAction::ProbeShadowTree(_) => fs.shadow_probed(parent, name, false),
            LookupAction::QueryIndex(_) => {
                asked_index = true;
                fs.index_answered(parent, name, rows)
            }
            LookupAction::Ask { candidates, suggested } => {
                asked_prompt = true;
                let best = (suggested.0.clone(), suggested.1.clone());
                let request = UserRequest::InteractiveSearch(candidates, suggested);
                let reply = if automatic {
                    match on_request(&request, true) {
                        UiStep::Reply(reply) => Some(reply),
                        _ => panic!("automatic mode answers at once"),
                    }
                } else {
                    Some(FsEventMessage::IgnorePendingRequests)
                };
                fs.prompt_answered(parent, name, &best, reply)
            }
            LookupAction::Realize { nix_path, .. } => fs.serve_path(nix_path),
            LookupAction::Abort(fatal) => panic!("{:?}", fatal),
        };
    }
}

#[test]
fn a_new_resolver_starts_at_inode_two() {
    let fs = BuildXYZ::new(Popcount::new(), ResolutionDB::new(), None, "/tmp/fast".to_string());
    assert_eq!(fs.last_inode, 2);
    assert!(!fs.knows_parent(ROOT_INODE));
    assert!(fs.parent_prefixes.is_empty() && fs.nix_paths.is_empty());
}

#[test]
fn init_registers_the_root_and_the_fixed_directories() {
    let fs = mounted(Popcount::new(), ResolutionDB::new());
    assert_eq!(fs.last_inode, FIRST_FREE);
    assert_eq!(fs.parent_prefixes.get(&ROOT_INODE).map(|s| s.as_str()), Some(""));
    let layout = ["bin", "include", "perl", "aclocal", "cmake", "lib", "lib/pkgconfig"];
    for (i, path) in layout.iter().enumerate() {
        let ino = 2 + i as u64;
        assert_eq!(fs.global_dirs.get(path), Some(&ino));
        assert_eq!(fs.parent_prefixes.get(&ino).map(|s| s.as_str()), Some(*path));
    }
}

#[test]
fn init_returns_the_store_paths_to_extend_by() {
    let mut db = ResolutionDB::new();
    let mut scratch = mounted(Popcount::new(), ResolutionDB::new());
    resolve(&mut scratch, BIN, "hello", &vec![hello("foo")], true);
    db.insert(scratch.resolution_db.get("bin/hello").unwrap().clone());
    let mut fs = BuildXYZ::new(Popcount::new(), db, None, "/tmp/fast".to_string());
    let store_paths = fs.init();
    assert_eq!(store_paths.len(), 1);
    assert_eq!(store_paths[0].as_str(), "/nix/store/abc-foo");
}

#[test]
fn fixed_directories_are_answered_with_their_inode() {
    let fs = mounted(Popcount::new(), ResolutionDB::new());
    let reply = expect_reply(fs.lookup(ROOT_INODE, "bin"));
    assert_eq!(
        reply,
        LookupReply::Entry {
            ttl: DIRECTORY_TTL,
            attr: build_fake_fattr(BIN, FileType::Directory),
            generation: BIN,
        }
    );
    assert_eq!(DIRECTORY_TTL, 60 * 60);
}

#[test]
fn a_nested_fixed_directory_is_reached_through_its_parent() {
    let fs = mounted(Popcount::new(), ResolutionDB::new());
    let reply = expect_reply(fs.lookup(LIB, "pkgconfig"));
    assert_eq!(
        reply,
        LookupReply::Entry {
            ttl: DIRECTORY_TTL,
            attr: build_fake_fattr(8, FileType::Directory),
            generation: 8,
        }
    );
}

#[test]
fn nothing_else_is_served_at_the_root() {
    let fs = mounted(Popcount::new(), ResolutionDB::new());
    assert_eq!(expect_reply(fs.lookup(ROOT_INODE, "etc")), LookupReply::Error(ENOENT));
    assert_eq!(ENOENT, 2);
}

#[test]
fn the_fake_attributes() {
    let attr = build_fake_fattr(12, FileType::Symlink);
    assert_eq!(attr.ino, 12);
    assert_eq!(attr.kind, FileType::Symlink);
    assert_eq!((attr.size, attr.blocks, attr.blksize, attr.nlink), (1, 1, 1, 1));
    assert_eq!((attr.uid, attr.gid, attr.rdev, attr.flags), (0, 0, 0, 0));
    assert_eq!((attr.atime, attr.mtime, attr.ctime, attr.crtime), (0, 0, 0, 0));
    assert_eq!(attr.perm, 777);
}

#[test]
fn the_steps_of_a_cold_lookup() {
    let mut fs = mounted(popularity(&[("foo", 7)]), ResolutionDB::new());
    match fs.lookup(BIN, "hello") {
        LookupAction::ProbeShadowTree(path) => assert_eq!(path, "/tmp/fast/bin/hello"),
        other => panic!("{:?}", other),
    }
    match fs.shadow_probed(BIN, "hello", false) {
        LookupAction::QueryIndex(pattern) => assert_eq!(pattern, "^/bin/hello$"),
        other => panic!("{:?}", other),
    }
    let suggested = match fs.index_answered(BIN, "hello", &vec![hello("foo")]) {
        LookupAction::Ask { candidates, suggested } => {
            assert_eq!(candidates.len(), 1);
            assert_eq!(suggested.0.name, "foo");
            suggested
        }
        other => panic!("{:?}", other),
    };
    let chosen = suggested.0.clone();
    let nix_path = match fs.prompt_answered(
        BIN,
        "hello",
        &suggested,
        Some(FsEventMessage::PackageSuggestion(chosen)),
    ) {
        LookupAction::Realize { nix_path, extend } => {
            assert_eq!(nix_path, "/nix/store/abc-foo/bin/hello");
            assert_eq!(extend.map(|p| p.as_str()), Some("/nix/store/abc-foo".to_string()));
            nix_path
        }
        other => panic!("{:?}", other),
    };
    assert_eq!(fs.last_inode, FIRST_FREE);
    assert_eq!(expect_reply(fs.serve_path(nix_path)), link(FIRST_FREE));
    assert_eq!(fs.last_inode, FIRST_FREE + 1);
    assert_eq!(LINK_TTL, 60 * 20);
}

#[test]
fn cold_lookup_in_automatic_mode() {
    let mut fs = mounted(popularity(&[("foo", 7)]), ResolutionDB::new());
    let (reply, asked_index, asked_prompt) = resolve(&mut fs, BIN, "hello", &vec![hello("foo")], true);
    assert_eq!(reply, link(FIRST_FREE));
    assert!(asked_index && asked_prompt);
    match fs.readlink(FIRST_FREE) {
        ReadlinkAction::Realize(path) => assert_eq!(path, "/nix/store/abc-foo/bin/hello"),
        other => panic!("{:?}", other),
    }
    match fs.readlink_realized(FIRST_FREE, true) {
        ReadlinkReply::Data(bytes) => assert_eq!(bytes, b"/nix/store/abc-foo/bin/hello".to_vec()),
        other => panic!("{:?}", other),
    }
    match fs.resolution_db.get("bin/hello").map(|r| r.decision()) {
        Some(Decision::Provide(data)) => {
            assert_eq!(data.kind, FileType::Symlink);
            assert_eq!(data.file_entry_name, "/bin/hello");
            assert_eq!(data.store_path.as_str(), "/nix/store/abc-foo");
        }
        _ => panic!("a provide decision is recorded"),
    }
    assert_eq!(fs.resolution_db.entries.len(), 1);
}

#[test]
fn warm_lookup_asks_neither_index_nor_prompt() {
    let mut cold = mounted(popularity(&[("foo", 7)]), ResolutionDB::new());
    let (first, _, _) = resolve(&mut cold, BIN, "hello", &vec![hello("foo")], true);
    let text = write_resolution_db(&cold.resolution_db).expect("a text");

    let db = read_resolution_db(&text).expect("a database");
    let mut warm = mounted(Popcount::new(), db);
    let (second, asked_index, asked_prompt) = resolve(&mut warm, BIN, "hello", &Vec::new(), false);
    assert_eq!(second, first);
    assert!(!asked_index && !asked_prompt);
    match warm.readlink(FIRST_FREE) {
        ReadlinkAction::Realize(path) => assert_eq!(path, "/nix/store/abc-foo/bin/hello"),
        other => panic!("{:?}", other),
    }
}

#[test]
fn a_second_lookup_in_the_same_session_is_answered_from_the_record() {
    let mut fs = mounted(popularity(&[("foo", 7)]), ResolutionDB::new());
    resolve(&mut fs, BIN, "hello", &vec![hello("foo")], true);
    let (reply, asked_index, asked_prompt) = resolve(&mut fs, BIN, "hello", &Vec::new(), false);
    assert_eq!(reply, link(FIRST_FREE + 1));
    assert!(!asked_index && !asked_prompt);
}

#[test]
fn user_decline() {
    let mut fs = mounted(Popcount::new(), ResolutionDB::new());
    let rows = vec![hello("foo"), hello("bar")];
    let (reply, asked_index, asked_prompt) = resolve(&mut fs, BIN, "hello", &rows, false);
    assert_eq!(reply, LookupReply::Error(ENOENT));
    assert!(asked_index && asked_prompt);
    assert!(matches!(
        fs.resolution_db.get("bin/hello").map(|r| r.decision()),
        Some(Decision::Ignore)
    ));
    assert_eq!(fs.last_inode, FIRST_FREE);
    assert_eq!(expect_reply(fs.lookup(BIN, "hello")), LookupReply::Error(ENOENT));
    assert_eq!(fs.last_inode, FIRST_FREE);
}

#[test]
fn a_prompt_that_is_gone_counts_as_a_decline() {
    let mut fs = mounted(Popcount::new(), ResolutionDB::new());
    let reply = expect_reply(fs.prompt_answered(BIN, "hello", &hello("foo"), None));
    assert_eq!(reply, LookupReply::Error(ENOENT));
    assert!(matches!(
        fs.resolution_db.get("bin/hello").map(|r| r.decision()),
        Some(Decision::Ignore)
    ));
    assert_eq!(fs.recorded_enoent, vec![(BIN, "hello".to_string())]);
}

#[test]
fn a_recorded_ignore_is_answered_as_absent() {
    let mut declined = mounted(Popcount::new(), ResolutionDB::new());
    resolve(&mut declined, BIN, "hello", &vec![hello("foo")], false);
    let text = write_resolution_db(&declined.resolution_db).expect("a text");
    let mut fs = mounted(Popcount::new(), read_resolution_db(&text).expect("a database"));
    let (reply, asked_index, asked_prompt) = resolve(&mut fs, BIN, "hello", &vec![hello("foo")], true);
    assert_eq!(reply, LookupReply::Error(ENOENT));
    assert!(!asked_index && !asked_prompt);
    assert_eq!(fs.last_inode, FIRST_FREE);
}

#[test]
fn what_the_index_does_not_know_is_remembered_as_absent() {
    let mut fs = mounted(Popcount::new(), ResolutionDB::new());
    let (reply, asked_index, asked_prompt) = resolve(&mut fs, BIN, "nothing", &Vec::new(), true);
    assert_eq!(reply, LookupReply::Error(ENOENT));
    assert!(asked_index && !asked_prompt);
    assert!(fs.resolution_db.is_empty());
    assert_eq!(fs.last_inode, FIRST_FREE);
    assert_eq!(expect_reply(fs.lookup(BIN, "nothing")), LookupReply::Error(ENOENT));
    match fs.lookup(LIB, "nothing") {
        LookupAction::ProbeShadowTree(path) => assert_eq!(path, "/tmp/fast/lib/nothing"),
        other => panic!("{:?}", other),
    }
}

#[test]
fn packages_that_are_only_pulled_in_are_not_proposed() {
    let mut fs = mounted(Popcount::new(), ResolutionDB::new());
    let rows = vec![package(
        "dep",
        "/bin/hello",
        FileNode::Regular { size: 1, executable: true },
        false,
    )];
    let reply = expect_reply(fs.index_answered(BIN, "hello", &rows));
    assert_eq!(reply, LookupReply::Error(ENOENT));
    assert_eq!(fs.recorded_enoent, vec![(BIN, "hello".to_string())]);
}

#[test]
fn candidates_are_proposed_by_popularity() {
    let mut fs = mounted(popularity(&[("a", 1), ("b", 9), ("c", 0)]), ResolutionDB::new());
    let rows = vec![hello("a"), hello("b"), hello("c")];
    match fs.index_answered(BIN, "hello", &rows) {
        LookupAction::Ask { candidates, suggested } => {
            let names: Vec<&str> = candidates.iter().map(|c| c.0.name.as_str()).collect();
            assert_eq!(names, vec!["b", "a", "c"]);
            assert_eq!(suggested.0.name, "b");
        }
        other => panic!("{:?}", other),
    }
}

#[test]
fn files_and_directories_for_one_path_stop_the_resolver() {
    let mut fs = mounted(Popcount::new(), ResolutionDB::new());
    let rows = vec![
        hello("a"),
        package("b", "/bin/hello", FileNode::Directory { size: 0, contents: () }, true),
    ];
    assert!(matches!(
        fs.index_answered(BIN, "hello", &rows),
        LookupAction::Abort(Fatal::IndexCorruption)
    ));
    assert!(fs.recorded_enoent.is_empty());
}

#[test]
fn links_and_directories_for_one_path_stop_the_resolver() {
    let mut fs = mounted(Popcount::new(), ResolutionDB::new());
    let rows = vec![
        package("a", "/lib/x", FileNode::Symlink { target: "y".to_string() }, true),
        package("b", "/lib/x", FileNode::Directory { size: 0, contents: () }, true),
    ];
    assert!(matches!(
        fs.index_answered(LIB, "x", &rows),
        LookupAction::Abort(Fatal::IndexCorruption)
    ));
    let rows = vec![
        package("a", "/lib/x", FileNode::Symlink { target: "y".to_string() }, true),
        package("b", "/lib/x", FileNode::Directory { size: 0, contents: () }, false),
    ];
    assert!(matches!(fs.index_answered(LIB, "x", &rows), LookupAction::Ask { .. }));
}

#[test]
fn no_inode_is_handed_out_when_none_is_left() {
    let mut fs = mounted(Popcount::new(), ResolutionDB::new());
    fs.last_inode = u64::MAX;
    assert!(matches!(
        fs.serve_path("/nix/store/abc-foo/bin/hello".to_string()),
        LookupAction::Abort(Fatal::InodesExhausted)
    ));
    assert!(matches!(
        fs.shadow_probed(BIN, "hello", true),
        LookupAction::Abort(Fatal::InodesExhausted)
    ));
    assert_eq!(fs.last_inode, u64::MAX);
    assert!(fs.nix_paths.is_empty() && fs.redirections.is_empty());
    assert!(matches!(fs.shadow_probed(BIN, "hello", false), LookupAction::QueryIndex(_)));

    fs.last_inode = u64::MAX - 1;
    assert_eq!(expect_reply(fs.shadow_probed(BIN, "hello", true)), link(u64::MAX - 1));
    assert_eq!(fs.last_inode, u64::MAX);
}

#[test]
fn a_directory_is_recorded_as_one() {
    let mut fs = mounted(Popcount::new(), ResolutionDB::new());
    let dir = package("python3", "/lib/python3.9", FileNode::Directory { size: 0, contents: () }, true);
    let chosen = dir.0.clone();
    fs.prompt_answered(LIB, "python3.9", &dir, Some(FsEventMessage::PackageSuggestion(chosen)));
    match fs.resolution_db.get("lib/python3.9").map(|r| r.decision()) {
        Some(Decision::Provide(data)) => assert_eq!(data.kind, FileType::Directory),
        _ => panic!("a provide decision is recorded"),
    }
}

#[test]
fn shadow_fast_path() {
    let mut fs = mounted(popularity(&[("foo", 7)]), ResolutionDB::new());
    resolve(&mut fs, BIN, "hello", &vec![hello("foo")], true);
    assert!(matches!(fs.lookup(BIN, "hello"), LookupAction::ProbeShadowTree(_)));
    let reply = expect_reply(fs.shadow_probed(BIN, "hello", true));
    assert_eq!(reply, link(FIRST_FREE + 1));
    match fs.readlink(FIRST_FREE + 1) {
        ReadlinkAction::Reply(ReadlinkReply::Data(bytes)) => {
            assert_eq!(bytes, b"/tmp/fast/bin/hello".to_vec())
        }
        other => panic!("{:?}", other),
    }
    assert_eq!(fs.resolution_db.entries.len(), 1);
}

#[test]
fn the_shadow_tree_answers_for_files_that_were_never_asked_for() {
    let mut fs = mounted(Popcount::new(), ResolutionDB::new());
    let reply = expect_reply(fs.shadow_probed(BIN, "sibling", true));
    assert_eq!(reply, link(FIRST_FREE));
    assert!(fs.resolution_db.is_empty());
    assert_eq!(fs.redirections.get(&FIRST_FREE).map(|s| s.as_str()), Some("/tmp/fast/bin/sibling"));
}

#[test]
fn readlink_after_gc() {
    let mut fs = mounted(popularity(&[("foo", 7)]), ResolutionDB::new());
    resolve(&mut fs, BIN, "hello", &vec![hello("foo")], true);
    assert!(matches!(fs.readlink(FIRST_FREE), ReadlinkAction::Realize(_)));
    match fs.readlink_realized(FIRST_FREE, false) {
        ReadlinkReply::Error(errno) => assert_eq!(errno, ENOENT),
        other => panic!("{:?}", other),
    }
    assert_eq!(
        fs.nix_paths.get(&FIRST_FREE).map(|s| s.as_str()),
        Some("/nix/store/abc-foo/bin/hello")
    );
    match fs.readlink_realized(FIRST_FREE, true) {
        ReadlinkReply::Data(bytes) => assert_eq!(bytes, b"/nix/store/abc-foo/bin/hello".to_vec()),
        other => panic!("{:?}", other),
    }
}

#[test]
fn readlink_of_an_unknown_inode() {
    let fs = mounted(Popcount::new(), ResolutionDB::new());
    assert!(matches!(fs.readlink(99), ReadlinkAction::Reply(ReadlinkReply::Error(2))));
    assert!(matches!(fs.readlink(BIN), ReadlinkAction::Reply(ReadlinkReply::Error(2))));
}

#[test]
fn inodes_only_grow() {
    let mut fs = mounted(popularity(&[("foo", 7)]), ResolutionDB::new());
    let mut last = fs.last_inode;
    let lookups: Vec<(u64, &str, Vec<(StorePath, FileTreeEntry)>, bool)> = vec![
        (BIN, "hello", vec![hello("foo")], true),
        (ROOT_INODE, "etc", Vec::new(), true),
        (BIN, "missing", Vec::new(), true),
        (BIN, "declined", vec![hello("foo")], false),
        (BIN, "hello", Vec::new(), true),
        (BIN, "missing", Vec::new(), true),
        (ROOT_INODE, "lib", Vec::new(), true),
    ];
    for (parent, name, rows, automatic) in lookups {
        let (reply, _, _) = resolve(&mut fs, parent, name, &rows, automatic);
        match reply {
            LookupReply::Error(_) => assert_eq!(fs.last_inode, last),
            LookupReply::Entry { attr, .. } if attr.kind == FileType::Directory => {
                assert_eq!(fs.last_inode, last)
            }
            LookupReply::Entry { attr, .. } => {
                assert_eq!(attr.ino, last);
                assert_eq!(fs.last_inode, last + 1);
            }
        }
        last = fs.last_inode;
    }
    assert_eq!(last, FIRST_FREE + 2);
}

#[test]
fn every_inode_stands_in_one_table() {
    let mut fs = mounted(popularity(&[("foo", 7)]), ResolutionDB::new());
    resolve(&mut fs, BIN, "hello", &vec![hello("foo")], true);
    fs.shadow_probed(BIN, "sibling", true);
    for ino in 2..fs.last_inode {
        let tables = [
            fs.parent_prefixes.contains_key(&ino),
            fs.nix_paths.contains_key(&ino),
            fs.redirections.contains_key(&ino),
        ];
        assert_eq!(tables.iter().filter(|t| **t).count(), 1, "inode {}", ino);
    }
}

#[test]
fn the_path_below_a_directory() {
    let fs = mounted(Popcount::new(), ResolutionDB::new());
    assert_eq!(fs.build_in_construction_path(ROOT_INODE, "bin"), "bin");
    assert_eq!(fs.build_in_construction_path(BIN, "hello"), "bin/hello");
    assert_eq!(fs.build_in_construction_path(8, "zlib.pc"), "lib/pkgconfig/zlib.pc");
}

#[test]
fn a_resolution_is_recorded_and_found() {
    let mut fs = mounted(Popcount::new(), ResolutionDB::new());
    assert!(fs.get_resolution(BIN, "hello").is_none());
    assert!(fs.get_decision(BIN, "hello").is_none());
    fs.record_resolution(BIN, "hello", Decision::Ignore);
    assert_eq!(
        fs.get_resolution(BIN, "hello").map(|r| r.requested_path().as_str()),
        Some("bin/hello")
    );
    assert!(matches!(fs.get_decision(BIN, "hello"), Some(Decision::Ignore)));
    assert!(fs.get_decision(LIB, "hello").is_none());
}

#[test]
fn the_record_is_written_when_the_mount_ends() {
    let mut fs = BuildXYZ::new(
        Popcount::new(),
        ResolutionDB::new(),
        Some("/tmp/record.toml".to_string()),
        "/tmp/fast".to_string(),
    );
    fs.init();
    fs.record_resolution(BIN, "hello", Decision::Ignore);
    let (path, text) = fs.destroy().expect("a file was named");
    assert_eq!(path, "/tmp/record.toml");
    let text = text.expect("a text");
    let back = read_resolution_db(&text).expect("a database");
    assert!(matches!(back.get("bin/hello").map(|r| r.decision()), Some(Decision::Ignore)));

    let unnamed = mounted(Popcount::new(), ResolutionDB::new());
    assert!(unnamed.destroy().is_none());
}
