use node_sweep::entry::{get_directory_size, Entry, EntryKind};

fn node(depth: usize, kind: EntryKind, name: &str, len: u64) -> Entry {
    Entry { depth, kind, name: name.to_string(), len }
}

#[test]
fn a_directory_of_that_name_is_a_match() {
    assert!(node(1, EntryKind::Directory, "node_modules", 0).matches());
    assert!(node(7, EntryKind::Directory, "node_modules", 4096).matches());
}

#[test]
fn the_name_must_be_exact() {
    assert!(!node(1, EntryKind::Directory, "Node_Modules", 0).matches());
    assert!(!node(1, EntryKind::Directory, "node_modules2", 0).matches());
    assert!(!node(1, EntryKind::Directory, "node_module", 0).matches());
    assert!(!node(1, EntryKind::Directory, "my_node_modules", 0).matches());
    assert!(!node(1, EntryKind::Directory, "", 0).matches());
    assert!(!node(1, EntryKind::Directory, "src", 0).matches());
}

#[test]
fn only_a_directory_is_a_match() {
    assert!(!node(1, EntryKind::File, "node_modules", 10).matches());
    assert!(!node(1, EntryKind::Other, "node_modules", 0).matches());
}

#[test]
fn size_adds_up_the_files() {
    let entries = vec![
        node(0, EntryKind::Directory, "node_modules", 4096),
        node(1, EntryKind::File, "a.js", 100),
        node(1, EntryKind::Directory, "lib", 4096),
        node(2, EntryKind::File, "b.js", 23),
        node(2, EntryKind::Other, "dangling", 77),
        node(1, EntryKind::File, "empty", 0),
    ];
    assert_eq!(get_directory_size(&entries), Some(123));
}

#[test]
fn size_of_an_empty_directory_is_zero() {
    assert_eq!(get_directory_size(&vec![]), Some(0));
    assert_eq!(get_directory_size(&vec![node(0, EntryKind::Directory, "node_modules", 4096)]), Some(0));
}

#[test]
fn size_fills_64_bits_and_no_more() {
    let full = vec![node(1, EntryKind::File, "a", u64::MAX - 1), node(1, EntryKind::File, "b", 1)];
    assert_eq!(get_directory_size(&full), Some(u64::MAX));
    let over = vec![
        node(1, EntryKind::File, "a", u64::MAX),
        node(1, EntryKind::Directory, "d", 5),
        node(1, EntryKind::File, "b", 1),
    ];
    assert_eq!(get_directory_size(&over), None);
}
