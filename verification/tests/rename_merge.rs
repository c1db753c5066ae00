use csd_cleaner::file_info::DirectoryNode;
use csd_cleaner::rename_merge::{
    apply_rename_pre_merge, attach_under_parent, extract_subtree, file_name_text, relocate_subtree_path, RenameEvent,
};

fn node(path: &str, size: u64, children: Vec<DirectoryNode>) -> DirectoryNode {
    DirectoryNode {
        path: path.to_string(),
        name: path.rsplit('\\').next().unwrap().to_string(),
        size,
        file_count: 1,
        dir_count: 0,
        has_children: !children.is_empty(),
        children,
        is_symlink: false,
        link_target: None,
        safety: None,
        modified_time: Some(7),
        file_id: Some(size),
    }
}

fn sample_tree() -> Vec<DirectoryNode> {
    vec![
        node("C:\\root\\A", 30, vec![node("C:\\root\\A\\Deep", 20, vec![])]),
        node("C:\\root\\b", 5, vec![]),
    ]
}

fn rename(old: &str, new: &str, is_dir: bool) -> RenameEvent {
    RenameEvent { old_path: old.to_string(), new_path: new.to_string(), is_dir }
}

#[test]
fn file_names_are_the_last_component() {
    assert_eq!(file_name_text("C:\\a\\b.txt"), Some("b.txt".to_string()));
    assert_eq!(file_name_text("C:\\a\\b\\"), Some("b".to_string()));
    assert_eq!(file_name_text("C:\\"), None);
    assert_eq!(file_name_text("C:\\a\\.."), None);
}

#[test]
fn relocation_moves_every_path_of_the_subtree() {
    let mut n = node("C:\\root\\A", 30, vec![node("C:\\root\\A\\Deep", 20, vec![])]);
    relocate_subtree_path(&mut n, "c:\\root\\a", "C:\\root\\b\\Moved");
    assert_eq!(n.path, "C:\\root\\b\\Moved");
    assert_eq!(n.name, "Moved");
    assert_eq!(n.children[0].path, "C:\\root\\b\\Moved\\deep");
    assert_eq!(n.children[0].name, "deep");
    assert_eq!(n.children[0].size, 20);
}

#[test]
fn extraction_takes_the_first_match_and_refreshes_the_flag() {
    let mut tree = sample_tree();
    let taken = extract_subtree(&mut tree, "c:\\root\\a\\deep").unwrap();
    assert_eq!(taken.path, "C:\\root\\A\\Deep");
    assert!(tree[0].children.is_empty());
    assert!(!tree[0].has_children);
    assert!(extract_subtree(&mut tree, "c:\\nowhere").is_none());
    assert_eq!(tree.len(), 2);
}

#[test]
fn attaching_needs_the_parent_in_the_tree() {
    let mut tree = sample_tree();
    assert!(attach_under_parent(&mut tree, "C:\\root\\b\\new", node("C:\\root\\b\\new", 1, vec![])));
    assert_eq!(tree[1].children.len(), 1);
    assert!(tree[1].has_children);
    assert!(!attach_under_parent(&mut tree, "C:\\elsewhere\\x", node("C:\\elsewhere\\x", 1, vec![])));
}

#[test]
fn a_directory_rename_moves_the_cached_subtree() {
    let deleted = vec!["C:\\root\\a".to_string(), "C:\\root\\other".to_string()];
    let renames = vec![rename("C:\\root\\A", "C:\\root\\b\\A2", true)];
    let (deleted, tree, applied) = apply_rename_pre_merge(sample_tree(), deleted, &renames, &vec![]);
    assert_eq!(applied, 1);
    assert_eq!(deleted, vec!["C:\\root\\other".to_string()]);
    assert_eq!(tree.len(), 1);
    assert_eq!(tree[0].path, "C:\\root\\b");
    let moved = &tree[0].children[0];
    assert_eq!(moved.path, "C:\\root\\b\\A2");
    assert_eq!(moved.name, "A2");
    assert_eq!(moved.size, 30);
    assert_eq!(moved.children[0].path, "C:\\root\\b\\A2\\deep");
}

#[test]
fn renames_the_merge_must_handle_leave_everything_alone() {
    let deleted = vec!["C:\\root\\a".to_string()];
    let renames = vec![
        rename("C:\\root\\A", "C:\\root\\b\\A2", false),
        rename("C:\\root\\A", "C:\\root\\b\\A2", true),
        rename("C:\\root\\A", "C:\\ROOT\\a", true),
        rename("C:\\root\\A", "C:\\root\\b", true),
    ];
    let rescanned = vec!["c:\\root\\b".to_string()];
    let (kept, tree, applied) = apply_rename_pre_merge(sample_tree(), deleted.clone(), &renames, &rescanned);
    assert_eq!(applied, 0);
    assert_eq!(kept, deleted);
    assert_eq!(tree.len(), 2);
    assert_eq!(tree[0].children.len(), 1);
}

#[test]
fn a_rename_without_a_cached_parent_drops_the_subtree() {
    let renames = vec![rename("C:\\root\\A", "D:\\x\\A", true)];
    let deleted = vec!["C:\\root\\A".to_string()];
    let (kept, tree, applied) = apply_rename_pre_merge(sample_tree(), deleted.clone(), &renames, &vec![]);
    assert_eq!(applied, 0);
    assert_eq!(kept, deleted);
    assert_eq!(tree.len(), 1);
    assert_eq!(tree[0].path, "C:\\root\\b");
}
