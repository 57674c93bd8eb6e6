use vstd::prelude::*;

verus! {

/// What `std::path::Path::parent` gives for a path, by its characters.
pub uninterp spec fn path_parent(path: Seq<char>) -> Option<Seq<char>>;

/// What `std::path::Path::join` gives for a base path and a part.
pub uninterp spec fn path_join(base: Seq<char>, part: Seq<char>) -> Seq<char>;

/// Calls `std::path::Path::parent` on `path`: the path without its last
/// component, or `None` when the path ends in a root or prefix or is empty.
/// The contract claims only that the result is the named one; the parent of
/// a path given as a `str` is again valid UTF-8, so the conversion back to a
/// `String` loses nothing.
#[verifier::external_body]
fn parent_path(path: &str) -> (res: Option<String>)
    ensures
        match res {
            Some(p) => path_parent(path@) == Some(p@),
            None => path_parent(path@) is None,
        },
{
    match std::path::Path::new(path).parent() {
        Some(p) => Some(p.to_string_lossy().into_owned()),
        None => None,
    }
}

/// Calls `std::path::Path::join`, which appends `part` to `base` with a
/// separator (or gives `part` when it is absolute). The contract claims only
/// that the result is the named one.
#[verifier::external_body]
fn join_path(base: &str, part: &str) -> (res: String)
    ensures
        res@ == path_join(base@, part@),
{
    std::path::Path::new(base).join(part).to_string_lossy().into_owned()
}

/// The two levels above a crate's manifest directory, where the workspace
/// root lies, if the path has them.
pub open spec fn workspace_root(manifest_dir: Seq<char>) -> Option<Seq<char>> {
    match path_parent(manifest_dir) {
        Some(p) => path_parent(p),
        None => None,
    }
}

/// Where the demo scene lies under a workspace root.
pub open spec fn scene_under(root: Seq<char>) -> Seq<char> {
    path_join(path_join(path_join(root, "assets"@), "demo"@), "scene.toml"@)
}

/// The demo scene file, `assets/demo/scene.toml` under the workspace root two
/// levels above the manifest directory of a crate.
pub fn scene_path(manifest_dir: &str) -> (res: String)
    requires
        workspace_root(manifest_dir@) is Some,
    ensures
        res@ == scene_under(workspace_root(manifest_dir@).unwrap()),
{
    let parent = parent_path(manifest_dir);
    let p = match parent {
        Some(p) => p,
        None => {
            assert(false);
            String::new()
        },
    };
    let root = match parent_path(p.as_str()) {
        Some(r) => r,
        None => {
            assert(false);
            String::new()
        },
    };
    let assets = join_path(root.as_str(), "assets");
    let demo = join_path(assets.as_str(), "demo");
    join_path(demo.as_str(), "scene.toml")
}

/// The demo scene file as `scene_path` finds it, or `None` when the manifest
/// directory has no workspace root two levels above it.
pub fn find_scene_path(manifest_dir: &str) -> (res: Option<String>)
    ensures
        match res {
            Some(s) => workspace_root(manifest_dir@) is Some && s@ == scene_under(
                workspace_root(manifest_dir@).unwrap(),
            ),
            None => workspace_root(manifest_dir@) is None,
        },
{
    match parent_path(manifest_dir) {
        None => None,
        Some(p) => match parent_path(p.as_str()) {
            None => None,
            Some(_) => Some(scene_path(manifest_dir)),
        },
    }
}

} // verus!
