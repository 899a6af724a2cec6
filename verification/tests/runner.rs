use buildxyz::assoc::Assoc;
use buildxyz::runner::{
    after_exit, append_search_path, append_search_paths, instrumented_env, RunnerStep,
};

fn env(list: &[(&str, &str)]) -> Assoc<String> {
    let mut env = Assoc::new();
    for (key, value) in list {
        env.insert(key.to_string(), value.to_string());
    }
    env
}

fn value(env: &Assoc<String>, key: &str) -> Option<String> {
    env.get(key).cloned()
}

#[test]
fn a_search_path_is_extended_at_its_end() {
    let mut env = env(&[("PATH", "/usr/bin:/bin")]);
    append_search_path(&mut env, "PATH", "/tmp/mnt/bin", true);
    assert_eq!(value(&env, "PATH"), Some("/usr/bin:/bin:/tmp/mnt/bin".to_string()));
    append_search_path(&mut env, "PATH", "/x", false);
    assert_eq!(value(&env, "PATH"), Some("/usr/bin:/bin:/tmp/mnt/bin:/x".to_string()));
}

#[test]
fn a_missing_search_path_is_set_if_asked() {
    let mut env = env(&[("HOME", "/root")]);
    append_search_path(&mut env, "PATH", "/tmp/mnt/bin", true);
    assert_eq!(value(&env, "PATH"), Some("/tmp/mnt/bin".to_string()));
    assert_eq!(value(&env, "HOME"), Some("/root".to_string()));
}

#[test]
fn a_missing_search_path_stays_unset_if_not_asked() {
    let mut env = env(&[("HOME", "/root")]);
    append_search_path(&mut env, "PERL5LIB", "/tmp/mnt/perl", false);
    assert_eq!(value(&env, "PERL5LIB"), None);
    assert_eq!(env.entries.len(), 1);
}

#[test]
fn the_search_paths_of_a_root() {
    let mut env = env(&[
        ("PATH", "/usr/bin"),
        ("ACLOCAL_PATH", "/share/aclocal"),
        ("NIX_CFLAGS_COMPILE", "-O2"),
    ]);
    append_search_paths(&mut env, "/mnt");
    assert_eq!(value(&env, "PATH"), Some("/usr/bin:/mnt/bin".to_string()));
    assert_eq!(value(&env, "PERL5LIB"), None);
    assert_eq!(value(&env, "PKG_CONFIG_PATH"), Some("/mnt/lib/pkgconfig".to_string()));
    assert_eq!(value(&env, "CMAKE_INCLUDE_PATH"), Some("/mnt/cmake".to_string()));
    assert_eq!(value(&env, "ACLOCAL_PATH"), Some("/share/aclocal:/mnt/aclocal".to_string()));
    assert_eq!(value(&env, "LIBRARY_PATH"), Some("/mnt/lib".to_string()));
    assert_eq!(
        value(&env, "NIX_CFLAGS_COMPILE"),
        Some("-O2 -idirafter /mnt/include".to_string())
    );
    assert_eq!(value(&env, "LD_LIBRARY_PATH"), None);
}

#[test]
fn compiler_flags_are_not_invented() {
    let mut env = env(&[]);
    append_search_paths(&mut env, "/mnt");
    assert_eq!(value(&env, "NIX_CFLAGS_COMPILE"), None);
    assert_eq!(value(&env, "PATH"), Some("/mnt/bin".to_string()));
}

#[test]
fn the_shadow_tree_is_searched_before_the_mount() {
    let mut env = env(&[("PATH", "/usr/bin")]);
    instrumented_env(&mut env, "/mnt", "/fast");
    assert_eq!(value(&env, "PATH"), Some("/usr/bin:/fast/bin:/mnt/bin".to_string()));
    assert_eq!(value(&env, "LIBRARY_PATH"), Some("/fast/lib:/mnt/lib".to_string()));
}

#[test]
fn a_failed_command_is_run_again_if_asked() {
    assert_eq!(after_exit(false, true), RunnerStep::Restart);
    assert_eq!(after_exit(false, false), RunnerStep::Finish);
    assert_eq!(after_exit(true, true), RunnerStep::Finish);
    assert_eq!(after_exit(true, false), RunnerStep::Finish);
}

#[test]
fn a_table_holds_one_entry_for_a_key() {
    let mut table: Assoc<u64> = Assoc::new();
    table.insert("bin".to_string(), 2);
    assert_eq!(table.get("bin"), Some(&2));
    table.insert("bin".to_string(), 4);
    assert_eq!(table.get("bin"), Some(&4));
    assert!(table.contains_key("bin"));
    assert!(!table.contains_key("lib"));
    assert_eq!(table.entries.len(), 1);
}
