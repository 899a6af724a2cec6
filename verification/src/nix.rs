//! The store helper: how it is called, and what its outcome means.

use vstd::prelude::*;
use vstd::string::*;

verus! {

/// The store that is asked.
#[derive(Debug)]
pub enum StoreKind {
    Local,
    Remote(String),
}

/// The store helper rejected the path.
#[derive(Clone, Copy, Debug, PartialEq, Eq, Structural)]
pub struct InvalidPath;

/// The arguments with which the store helper makes `path` real.
pub fn realize_arguments(path: String) -> (args: Vec<String>)
    ensures
        args@.len() == 2,
        args@[0]@ == "--realize"@,
        args@[1] == path,
{
    let mut args: Vec<String> = Vec::new();
    args.push(String::from_str("--realize"));
    args.push(path);
    args
}

/// What the end of the store helper means: the path is real if the helper
/// succeeded, and invalid if it did not.
pub fn realized(success: bool) -> (r: Result<(), InvalidPath>)
    ensures
        r is Ok == success,
{
    if success {
        Ok(())
    } else {
        Err(InvalidPath)
    }
}

/// The arguments with which the size of the closure of `path` is asked for.
pub fn path_info_arguments(path: &str, store: StoreKind) -> (args: Vec<String>)
    ensures
        args@.len() == (if store is Remote { 6nat } else { 4nat }),
        args@[0]@ == "path-info"@,
        args@[1]@ == "--json"@,
        args@[2]@ == "-S"@,
        args@[3]@ == path@,
        store matches StoreKind::Remote(remote_store) ==> args@[4]@ == "--store"@ && args@[5]
            == remote_store,
{
    let mut args: Vec<String> = Vec::new();
    args.push(String::from_str("path-info"));
    args.push(String::from_str("--json"));
    args.push(String::from_str("-S"));
    args.push(String::from_str(path));
    match store {
        StoreKind::Local => {},
        StoreKind::Remote(remote_store) => {
            args.push(String::from_str("--store"));
            args.push(remote_store);
        },
    }
    args
}

/// The size of the closure that the helper reported: that of the first
/// path it spoke of, where it gave one.
pub fn closure_size(sizes: &Vec<Option<usize>>) -> (r: Option<usize>)
    requires
        sizes.len() > 0,
    ensures
        r == sizes@[0],
{
    sizes[0]
}

} // verus!
