use vfs_shell::errors::VfsError;
use vfs_shell::serial::SerialAllocator;
use vfs_shell::types::create_root;
use vfs_shell::types::Inode;
use vfs_shell::types::DIR_MODE;
use vfs_shell::types::DIR_OVERHEAD;
use vfs_shell::types::FILE_MODE;
use vfs_shell::types::FILE_OVERHEAD;

#[test]
fn root_is_an_empty_directory() {
    let mut alloc = SerialAllocator::new();
    let root = create_root(&mut alloc, 7);
    assert_eq!(root.get_name(), "/");
    assert_eq!(root.get_size(), DIR_OVERHEAD);
    assert!(root.is_directory());
    assert!(!root.is_file());
    assert_eq!(root.serial_number, 0);
    assert_eq!(alloc.next, 1);
}

#[test]
fn new_directory_and_new_file_have_overhead_sizes() {
    let mut alloc = SerialAllocator::new();
    let d = Inode::new(DIR_MODE, String::from("docs"), &mut alloc, 1);
    let f = Inode::new(FILE_MODE, String::from("notes"), &mut alloc, 2);
    assert_eq!(d.get_size(), DIR_OVERHEAD);
    assert!(d.is_directory());
    assert_eq!(f.get_size(), FILE_OVERHEAD);
    assert!(f.is_file());
    assert_eq!(d.serial_number, 0);
    assert_eq!(f.serial_number, 1);
    assert_eq!(d.get_name(), "docs");
    assert_eq!(f.get_name(), "notes");
}

#[test]
fn file_with_content_counts_its_length() {
    let mut alloc = SerialAllocator::new();
    let f = Inode::new_file_with_data(String::from("a.txt"), String::from("hello"), &mut alloc, 3);
    assert_eq!(f.get_size(), FILE_OVERHEAD + 5);
    assert!(f.is_file());
}

#[test]
fn scenario_insert_lookup_remove_restores_size() {
    // create root; insert a file "a.txt" with content "hi"; the size grows
    // by exactly the file overhead plus 2; lookup finds it; removing it
    // makes lookup fail and returns the size to its baseline
    let mut alloc = SerialAllocator::new();
    let mut root = create_root(&mut alloc, 7);
    let baseline = root.get_size();
    let f = Inode::new_file_with_data(String::from("a.txt"), String::from("hi"), &mut alloc, 8);
    let file_size = f.get_size();
    assert_eq!(file_size, FILE_OVERHEAD + 2);
    root.add_inode(f, 9).unwrap();
    assert_eq!(root.get_size(), baseline + FILE_OVERHEAD + 2);
    let found = root.get_inode_by_name("a.txt").expect("lookup after insert");
    assert_eq!(found.get_name(), "a.txt");
    assert_eq!(found.get_size(), file_size);
    root.remove_inode("a.txt", 10).unwrap();
    assert!(root.get_inode_by_name("a.txt").is_none());
    assert_eq!(root.get_size(), baseline);
}

#[test]
fn scenario_removing_nested_directory_removes_descendants() {
    // directory "d" with child file "f" and child directory "e" holding
    // file "g": removing "e" removes "e" and "g" and shrinks "d" by their
    // combined size
    let mut alloc = SerialAllocator::new();
    let mut d = Inode::new(DIR_MODE, String::from("d"), &mut alloc, 1);
    let f = Inode::new_file_with_data(String::from("f"), String::from("xy"), &mut alloc, 1);
    let mut e = Inode::new(DIR_MODE, String::from("e"), &mut alloc, 1);
    let g = Inode::new_file_with_data(String::from("g"), String::from("zzz"), &mut alloc, 1);
    let g_size = g.get_size();
    e.add_inode(g, 2).unwrap();
    let e_size = e.get_size();
    assert_eq!(e_size, DIR_OVERHEAD + g_size);
    d.add_inode(f, 3).unwrap();
    d.add_inode(e, 4).unwrap();
    let before = d.get_size();
    d.remove_inode("e", 5).unwrap();
    assert!(d.get_inode_by_name("e").is_none());
    assert!(d.get_inode_by_name("f").is_some());
    assert_eq!(d.get_size(), before - e_size);
}

#[test]
fn inserting_and_removing_many_children_restores_size() {
    let mut alloc = SerialAllocator::new();
    let mut root = create_root(&mut alloc, 1);
    let baseline = root.get_size();
    for (name, content) in [("a", "1"), ("b", "22"), ("c", "333")] {
        let f = Inode::new_file_with_data(
            String::from(name),
            String::from(content),
            &mut alloc,
            2,
        );
        root.add_inode(f, 2).unwrap();
    }
    assert_eq!(root.get_size(), baseline + 3 * FILE_OVERHEAD + 6);
    for name in ["c", "b", "a"] {
        root.remove_inode(name, 3).unwrap();
    }
    assert_eq!(root.get_size(), baseline);
}

#[test]
fn serial_numbers_are_unique_and_never_reused() {
    let mut alloc = SerialAllocator::new();
    let mut root = create_root(&mut alloc, 1);
    let a = Inode::new(FILE_MODE, String::from("a"), &mut alloc, 1);
    let first_serial = a.serial_number;
    root.add_inode(a, 2).unwrap();
    root.remove_inode("a", 3).unwrap();
    let b = Inode::new(FILE_MODE, String::from("b"), &mut alloc, 4);
    assert_ne!(b.serial_number, first_serial);
    assert!(b.serial_number > first_serial);
}

#[test]
fn lookup_is_case_sensitive_and_first_match_wins() {
    let mut alloc = SerialAllocator::new();
    let mut root = create_root(&mut alloc, 1);
    let a1 = Inode::new_file_with_data(String::from("a"), String::from("first"), &mut alloc, 1);
    let a2 = Inode::new_file_with_data(String::from("a"), String::from("second!"), &mut alloc, 1);
    root.add_inode(a1, 2).unwrap();
    root.add_inode(a2, 2).unwrap();
    assert!(root.get_inode_by_name("A").is_none());
    let found = root.get_inode_by_name("a").unwrap();
    assert_eq!(found.get_size(), FILE_OVERHEAD + 5);
}

#[test]
fn add_inode_to_a_file_is_refused() {
    let mut alloc = SerialAllocator::new();
    let mut f = Inode::new(FILE_MODE, String::from("plain"), &mut alloc, 1);
    let child = Inode::new(FILE_MODE, String::from("sub"), &mut alloc, 1);
    assert_eq!(f.add_inode(child, 2), Err(VfsError::NotADirectory));
    assert_eq!(f.get_size(), FILE_OVERHEAD);
}

#[test]
fn remove_inode_errors() {
    let mut alloc = SerialAllocator::new();
    let mut root = create_root(&mut alloc, 1);
    assert_eq!(root.remove_inode("ghost", 2), Err(VfsError::NotFound));
    let mut f = Inode::new(FILE_MODE, String::from("plain"), &mut alloc, 1);
    assert_eq!(f.remove_inode("x", 2), Err(VfsError::NotADirectory));
}

#[test]
fn lookup_on_a_file_gives_none() {
    let mut alloc = SerialAllocator::new();
    let f = Inode::new(FILE_MODE, String::from("plain"), &mut alloc, 1);
    assert!(f.get_inode_by_name("anything").is_none());
}

#[test]
fn inode_clone_is_a_deep_copy() {
    let mut alloc = SerialAllocator::new();
    let mut d = Inode::new(DIR_MODE, String::from("d"), &mut alloc, 1);
    let f = Inode::new_file_with_data(String::from("f"), String::from("data"), &mut alloc, 1);
    d.add_inode(f, 2).unwrap();
    let copy = d.clone();
    assert_eq!(copy.get_name(), "d");
    assert_eq!(copy.get_size(), d.get_size());
    assert_eq!(copy.serial_number, d.serial_number);
    let inner = copy.get_inode_by_name("f").unwrap();
    assert_eq!(inner.get_size(), FILE_OVERHEAD + 4);
    // mutating the original leaves the copy untouched
    d.remove_inode("f", 3).unwrap();
    assert!(copy.get_inode_by_name("f").is_some());
}

#[test]
fn timestamps_are_stamped_and_updated() {
    let mut alloc = SerialAllocator::new();
    let mut root = create_root(&mut alloc, 100);
    assert_eq!(root.created_at, Some(100));
    assert_eq!(root.updated_at, Some(100));
    assert_eq!(root.accessed_at, Some(100));
    let f = Inode::new(FILE_MODE, String::from("f"), &mut alloc, 150);
    root.add_inode(f, 200).unwrap();
    assert_eq!(root.updated_at, Some(200));
    assert_eq!(root.created_at, Some(100));
    root.remove_inode("f", 300).unwrap();
    assert_eq!(root.updated_at, Some(300));
}

#[test]
fn error_messages_name_the_failure() {
    assert_eq!(
        VfsError::NotADirectory.message(),
        "The hard link is a file, it should be a directory"
    );
    assert_eq!(VfsError::NotFound.message(), "File or directory not found");
    assert_eq!(VfsError::InvalidName.message(), "Invalid name");
    assert_eq!(
        VfsError::InvalidArgumentCount.message(),
        "Invalid number of arguments"
    );
}
