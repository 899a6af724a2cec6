//! The environment of the command that is run: where it searches.

use vstd::prelude::*;
use vstd::string::*;
use crate::assoc::{value_at, Assoc};
use crate::text::{join_text, join_path, joined};

verus! {

/// The variables of an environment, as plain values.
pub type EnvView = Map<Seq<char>, Seq<char>>;

/// The variables that a table holds.
pub open spec fn env_view(entries: Seq<(String, String)>) -> EnvView {
    Map::new(
        |key: Seq<char>| value_at(entries, key) is Some,
        |key: Seq<char>| value_at(entries, key)->0@,
    )
}

/// The environment with `value` at the end of the search path `key`. Where
/// the variable is not set, it is set to `value` alone if `insert` says so,
/// and else left unset.
pub open spec fn appended(env: EnvView, key: Seq<char>, value: Seq<char>, insert: bool) -> EnvView {
    if env.contains_key(key) {
        env.insert(key, env[key] + seq![':'] + value)
    } else if insert {
        env.insert(key, value)
    } else {
        env
    }
}

/// The environment with the include directory among the flags of the
/// compiler, where such flags are set.
pub open spec fn flagged(env: EnvView, include_path: Seq<char>) -> EnvView {
    if env.contains_key("NIX_CFLAGS_COMPILE"@) {
        env.insert(
            "NIX_CFLAGS_COMPILE"@,
            env["NIX_CFLAGS_COMPILE"@] + " -idirafter "@ + include_path,
        )
    } else {
        env
    }
}

/// The environment with the directories below `root` at the end of the
/// search paths.
pub open spec fn with_search_paths(env: EnvView, root: Seq<char>) -> EnvView {
    let e = appended(env, "PATH"@, joined(root, "bin"@), true);
    let e = appended(e, "PERL5LIB"@, joined(root, "perl"@), false);
    let e = appended(e, "PKG_CONFIG_PATH"@, joined(joined(root, "lib"@), "pkgconfig"@), true);
    let e = appended(e, "CMAKE_INCLUDE_PATH"@, joined(root, "cmake"@), true);
    let e = appended(e, "ACLOCAL_PATH"@, joined(root, "aclocal"@), false);
    let e = appended(e, "LIBRARY_PATH"@, joined(root, "lib"@), true);
    flagged(e, joined(root, "include"@))
}

/// Sets the variable `key` to `value`.
fn set_variable(env: &mut Assoc<String>, key: &str, value: String)
    ensures
        env_view(final(env).entries@) == env_view(old(env).entries@).insert(key@, value@),
{
    env.insert(String::from_str(key), value);
    assert(env_view(env.entries@) =~= env_view(old(env).entries@).insert(key@, value@));
}

/// Puts `value` at the end of the search path `key`. Where the variable is
/// not set, it is set to `value` alone if `insert` says so, and else left
/// unset.
pub fn append_search_path(env: &mut Assoc<String>, key: &str, value: &str, insert: bool)
    ensures
        env_view(final(env).entries@) == appended(
            env_view(old(env).entries@),
            key@,
            value@,
            insert,
        ),
{
    proof {
        reveal_strlit(":");
    }
    let next = match env.get(key) {
        Some(env_path) => {
            let mut next = join_text(env_path.as_str(), ":");
            next.append(value);
            assert(":"@ =~= seq![':']);
            Some(next)
        },
        None => {
            if insert {
                Some(String::from_str(value))
            } else {
                None
            }
        },
    };
    match next {
        Some(next) => {
            set_variable(env, key, next);
        },
        None => {},
    }
}

/// Puts the directories below `root_path` at the end of the search paths of
/// the command, of the compiler and of the build tools.
pub fn append_search_paths(env: &mut Assoc<String>, root_path: &str)
    ensures
        env_view(final(env).entries@) == with_search_paths(
            env_view(old(env).entries@),
            root_path@,
        ),
{
    let bin_path = join_path(root_path, "bin");
    let library_path = join_path(root_path, "lib");
    let pkgconfig_path = join_path(library_path.as_str(), "pkgconfig");
    let include_path = join_path(root_path, "include");
    let cmake_path = join_path(root_path, "cmake");
    let aclocal_path = join_path(root_path, "aclocal");
    let perl_path = join_path(root_path, "perl");

    append_search_path(env, "PATH", bin_path.as_str(), true);
    append_search_path(env, "PERL5LIB", perl_path.as_str(), false);
    append_search_path(env, "PKG_CONFIG_PATH", pkgconfig_path.as_str(), true);
    append_search_path(env, "CMAKE_INCLUDE_PATH", cmake_path.as_str(), true);
    append_search_path(env, "ACLOCAL_PATH", aclocal_path.as_str(), false);
    // Build-time libraries
    append_search_path(env, "LIBRARY_PATH", library_path.as_str(), true);

    let flags = match env.get("NIX_CFLAGS_COMPILE") {
        Some(env_path) => {
            let mut flags = join_text(env_path.as_str(), " -idirafter ");
            flags.append(include_path.as_str());
            Some(flags)
        },
        None => None,
    };
    match flags {
        Some(flags) => {
            set_variable(env, "NIX_CFLAGS_COMPILE", flags);
        },
        None => {},
    }
}

/// The environment in which the command is run: the one given, with the
/// search paths into the shadow tree first and those into the mount behind
/// them.
pub fn instrumented_env(env: &mut Assoc<String>, mountpoint: &str, fast_working_root: &str)
    ensures
        env_view(final(env).entries@) == with_search_paths(
            with_search_paths(env_view(old(env).entries@), fast_working_root@),
            mountpoint@,
        ),
{
    // Fast working tree
    append_search_paths(env, fast_working_root);
    // FUSE
    append_search_paths(env, mountpoint);
}

/// What follows the end of the command.
#[derive(Clone, Copy, Debug, PartialEq, Eq, Structural)]
pub enum RunnerStep {
    /// Run the command again.
    Restart,
    /// Report that the command is done, with its exit code.
    Finish,
}

/// What follows the end of the command: it is run again if it failed and a
/// retry was asked for.
pub fn after_exit(success: bool, should_retry: bool) -> (step: RunnerStep)
    ensures
        step == if !success && should_retry {
            RunnerStep::Restart
        } else {
            RunnerStep::Finish
        },
{
    if !success && should_retry {
        RunnerStep::Restart
    } else {
        RunnerStep::Finish
    }
}

} // verus!
