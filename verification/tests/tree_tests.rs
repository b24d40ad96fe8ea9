use soyuz_studio::tree::{file_icon, sort_entries, splice_dir_children, FileIcon, TreeNode};
use soyuz_studio::tree::{directory_listing, is_hidden_name};
use soyuz_studio::tree::{create_destination, drop_destination, rename_destination};

fn node(path: &str, is_dir: bool, depth: usize) -> TreeNode {
    TreeNode { name: path.rsplit('/').next().unwrap_or(path).to_string(), path: path.to_string(), is_dir, depth }
}

fn paths(nodes: &[TreeNode]) -> Vec<&str> {
    nodes.iter().map(|n| n.path.as_str()).collect()
}

#[test]
fn splice_expands_a_collapsed_directory() {
    let mut nodes = vec![node("/ws/a", true, 0), node("/ws/z.rhai", false, 0)];
    let inserted =
        splice_dir_children(&mut nodes, "/ws/a", vec![node("/ws/a/b", true, 1), node("/ws/a/c.rhai", false, 1)]);
    assert!(inserted);
    assert_eq!(paths(&nodes), ["/ws/a", "/ws/a/b", "/ws/a/c.rhai", "/ws/z.rhai"]);
}

#[test]
fn splice_with_empty_children_collapses_all_descendants() {
    let mut nodes = vec![
        node("/ws/a", true, 0),
        node("/ws/a/b", true, 1),
        node("/ws/a/b/d.rhai", false, 2),
        node("/ws/z.rhai", false, 0),
    ];
    assert!(splice_dir_children(&mut nodes, "/ws/a", Vec::new()));
    assert_eq!(paths(&nodes), ["/ws/a", "/ws/z.rhai"]);
}

#[test]
fn splice_refreshes_children_in_place() {
    let mut nodes = vec![node("/ws/a", true, 0), node("/ws/a/old.rhai", false, 1), node("/ws/z.rhai", false, 0)];
    assert!(splice_dir_children(&mut nodes, "/ws/a", vec![node("/ws/a/new.rhai", false, 1)]));
    assert_eq!(paths(&nodes), ["/ws/a", "/ws/a/new.rhai", "/ws/z.rhai"]);
}

#[test]
fn splice_is_a_noop_when_parent_is_missing() {
    let mut nodes = vec![node("/ws/a", true, 0)];
    assert!(!splice_dir_children(&mut nodes, "/ws/missing", vec![node("/ws/missing/x.rhai", false, 1)]));
    assert_eq!(paths(&nodes), ["/ws/a"]);
}

#[test]
fn splice_matches_paths_by_component() {
    // A trailing slash names the same directory.
    let mut nodes = vec![node("/ws/a", true, 0), node("/ws/b", true, 0)];
    assert!(splice_dir_children(&mut nodes, "/ws/a/", vec![node("/ws/a/x", false, 1)]));
    assert_eq!(paths(&nodes), ["/ws/a", "/ws/a/x", "/ws/b"]);
}

#[test]
fn entries_list_directories_first_then_names_without_case() {
    let sorted = sort_entries(vec![
        node("/ws/zeta.rhai", false, 0),
        node("/ws/Beta", true, 0),
        node("/ws/alpha.rhai", false, 0),
        node("/ws/alpha", true, 0),
        node("/ws/Gamma.rhai", false, 0),
    ]);
    assert_eq!(paths(&sorted), ["/ws/alpha", "/ws/Beta", "/ws/alpha.rhai", "/ws/Gamma.rhai", "/ws/zeta.rhai"]);
    assert!(sort_entries(Vec::new()).is_empty());
}

#[test]
fn icons_follow_the_extension() {
    assert_eq!(file_icon(&node("/ws/dir", true, 0)), FileIcon::Folder);
    assert_eq!(file_icon(&node("/ws/a.rhai", false, 0)), FileIcon::Rhai);
    assert_eq!(file_icon(&node("/ws/a.RS", false, 0)), FileIcon::Rust);
    assert_eq!(file_icon(&node("/ws/model.glb", false, 0)), FileIcon::Model);
    assert_eq!(file_icon(&node("/ws/pic.JPEG", false, 0)), FileIcon::Image);
    assert_eq!(file_icon(&node("/ws/Cargo.lock", false, 0)), FileIcon::Lock);
    assert_eq!(file_icon(&node("/ws/README", false, 0)), FileIcon::Generic);
    assert_eq!(file_icon(&node("/ws/.hidden", false, 0)), FileIcon::Generic);
}

#[test]
fn listings_hide_dot_entries() {
    assert!(is_hidden_name(".git"));
    assert!(!is_hidden_name("src"));
    assert!(!is_hidden_name(""));
    let listed = directory_listing(vec![
        node("/ws/.git", true, 0),
        node("/ws/b.rhai", false, 0),
        node("/ws/lib", true, 0),
        node("/ws/.env", false, 0),
        node("/ws/A.rhai", false, 0),
    ]);
    assert_eq!(paths(&listed), ["/ws/lib", "/ws/A.rhai", "/ws/b.rhai"]);
}

#[test]
fn dropped_and_renamed_entries_get_their_new_paths() {
    assert_eq!(drop_destination("/ws/a/x.rhai", "/ws/b").as_deref(), Some("/ws/b/x.rhai"));
    // Dropping on the folder it is already in does nothing.
    assert_eq!(drop_destination("/ws/a/x.rhai", "/ws/a"), None);
    assert_eq!(drop_destination("/ws/a/x.rhai", "/ws/a/"), None);
    assert_eq!(drop_destination("/", "/ws"), None);
    assert_eq!(rename_destination("/ws/a/x.rhai", "y.rhai").as_deref(), Some("/ws/a/y.rhai"));
    assert_eq!(rename_destination("/ws/a/x.rhai", ""), None);
    assert_eq!(rename_destination("/", "y"), None);
}

#[test]
fn new_entries_are_created_under_their_folder_by_trimmed_name() {
    assert_eq!(create_destination("/ws/a", "  new.rhai ").as_deref(), Some("/ws/a/new.rhai"));
    assert_eq!(create_destination("/ws", "shapes").as_deref(), Some("/ws/shapes"));
    assert_eq!(create_destination("/ws", "   "), None);
    assert_eq!(create_destination("/ws", ""), None);
}
