//! Messages to the popup thread.

use vstd::prelude::*;

verus! {

/// What the popup is told to do.
#[derive(Clone, Copy, Debug, PartialEq, Eq, Structural)]
pub enum PopupEvent {
    /// The queue changed: lay the popups out again.
    QueueChanged,
    /// The configuration was reloaded: restyle and lay out again.
    ReloadConfig,
}

/// The parent `std::path::Path::parent` gives of a path.
pub uninterp spec fn path_parent_of(path: Seq<char>) -> Option<Seq<char>>;

/// Whether `std::path::Path::starts_with` finds `base`'s components at the
/// start of `path`.
pub uninterp spec fn path_starts_with(path: Seq<char>, base: Seq<char>) -> bool;

/// Whether two paths have the same components, as `==` on `std::path::Path`
/// compares them.
pub uninterp spec fn path_same(a: Seq<char>, b: Seq<char>) -> bool;

/// The parent directory of a path.
///
/// Trusted: calls `std::path::Path::parent`; the parent of a path made from
/// a string is itself valid text, so its conversion back loses nothing.
#[verifier::external_body]
fn parent_path(path: &str) -> (r: Option<String>)
    ensures
        match r {
            Some(p) => path_parent_of(path@) == Some(p@),
            None => path_parent_of(path@) is None,
        },
{
    match std::path::Path::new(path).parent() {
        Some(parent) => Some(parent.to_string_lossy().into_owned()),
        None => None,
    }
}

/// Whether `path` starts with the components of `base`.
///
/// Trusted: calls `std::path::Path::starts_with`.
#[verifier::external_body]
fn path_has_prefix(path: &str, base: &str) -> (r: bool)
    ensures
        r == path_starts_with(path@, base@),
{
    std::path::Path::new(path).starts_with(base)
}

/// Whether two paths are the same path.
///
/// Trusted: calls `<std::path::Path as PartialEq>::eq`.
#[verifier::external_body]
fn same_path(a: &str, b: &str) -> (r: bool)
    ensures
        r == path_same(a@, b@),
{
    std::path::Path::new(a) == std::path::Path::new(b)
}

/// Whether a changed path bears on a file: it is the file, or the file's
/// directory, or a directory on the way to it.
pub open spec fn bears_on(path: Seq<char>, file: Seq<char>) -> bool {
    ||| path_same(path, file)
    ||| match path_parent_of(file) {
        Some(parent) => path_same(path, parent) || path_starts_with(parent, path),
        None => false,
    }
}

/// Whether a changed path may change the configuration: it bears on the
/// configuration file or on the file that points to it.
pub open spec fn touches_config_file(path: Seq<char>, config: Seq<char>, pointer: Seq<char>) -> bool {
    ||| path_same(path, config)
    ||| path_same(path, pointer)
    ||| bears_on(path, pointer)
    ||| bears_on(path, config)
}

fn path_bears_on(path: &str, file: &str) -> (b: bool)
    ensures
        b == bears_on(path@, file@),
{
    if same_path(path, file) {
        return true;
    }
    match parent_path(file) {
        Some(parent) => same_path(path, parent.as_str()) || path_has_prefix(parent.as_str(), path),
        None => false,
    }
}

/// Whether a file system event should reload the configuration: it
/// creates, modifies or removes something (`changes_content`), and one of
/// its paths touches the configuration file or the file pointing to it.
pub fn is_config_change(changes_content: bool, paths: &[String], config_path: &str, pointer_path: &str) -> (b:
    bool)
    ensures
        b == (changes_content && exists|i: int|
            0 <= i < paths@.len() && touches_config_file(
                #[trigger] paths@[i]@,
                config_path@,
                pointer_path@,
            )),
{
    if !changes_content {
        return false;
    }
    let mut i: usize = 0;
    while i < paths.len()
        invariant
            changes_content,
            i <= paths@.len(),
            forall|k: int|
                0 <= k < i ==> !touches_config_file(#[trigger] paths@[k]@, config_path@, pointer_path@),
        decreases paths@.len() - i,
    {
        let path = paths[i].as_str();
        if same_path(path, config_path) || same_path(path, pointer_path) || path_bears_on(
            path,
            pointer_path,
        ) || path_bears_on(path, config_path) {
            assert(path@ == paths@[i as int]@);
            assert(touches_config_file(paths@[i as int]@, config_path@, pointer_path@));
            return true;
        }
        i = i + 1;
    }
    false
}

} // verus!
