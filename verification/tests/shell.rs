use vfs_shell::commands::create_new_file;
use vfs_shell::commands::is_valid_name;
use vfs_shell::commands::parse_command;
use vfs_shell::commands::ShellCommand;
use vfs_shell::errors::VfsError;
use vfs_shell::serial::SerialAllocator;
use vfs_shell::types::create_root;
use vfs_shell::types::Inode;
use vfs_shell::types::FILE_MODE;
use vfs_shell::types::FILE_OVERHEAD;
use vfs_shell::utils::now_date;

fn tokens(line: &str) -> Vec<String> {
    line.split_whitespace().map(String::from).collect()
}

#[test]
fn valid_names_are_nonempty_without_separators() {
    assert!(is_valid_name("a.txt"));
    assert!(is_valid_name("notes"));
    assert!(!is_valid_name(""));
    assert!(!is_valid_name("a/b"));
    assert!(!is_valid_name("a\\b"));
    assert!(!is_valid_name("/"));
}

#[test]
fn parse_help_forms() {
    assert_eq!(parse_command(&tokens("help")), Ok(ShellCommand::Help(None)));
    assert_eq!(
        parse_command(&tokens("help new")),
        Ok(ShellCommand::Help(Some(String::from("new"))))
    );
    assert_eq!(
        parse_command(&tokens("help new file")),
        Err(VfsError::InvalidArgumentCount)
    );
}

#[test]
fn parse_new_file_and_directory() {
    assert_eq!(
        parse_command(&tokens("new file a.txt")),
        Ok(ShellCommand::NewFile(String::from("a.txt")))
    );
    assert_eq!(
        parse_command(&tokens("new directory docs")),
        Ok(ShellCommand::NewDirectory(String::from("docs")))
    );
}

#[test]
fn parse_new_rejects_bad_arguments() {
    assert_eq!(parse_command(&tokens("new")), Err(VfsError::InvalidArgumentCount));
    assert_eq!(
        parse_command(&tokens("new file")),
        Err(VfsError::InvalidArgumentCount)
    );
    assert_eq!(
        parse_command(&tokens("new file a b")),
        Err(VfsError::InvalidArgumentCount)
    );
    assert_eq!(
        parse_command(&tokens("new symlink a")),
        Err(VfsError::InvalidArgumentCount)
    );
    assert_eq!(
        parse_command(&tokens("new file a/b")),
        Err(VfsError::InvalidName)
    );
    assert_eq!(
        parse_command(&tokens("new directory a\\b")),
        Err(VfsError::InvalidName)
    );
}

#[test]
fn parse_remove_and_exit() {
    assert_eq!(
        parse_command(&tokens("remove a.txt")),
        Ok(ShellCommand::Remove(String::from("a.txt")))
    );
    assert_eq!(
        parse_command(&tokens("remove")),
        Err(VfsError::InvalidArgumentCount)
    );
    assert_eq!(
        parse_command(&tokens("remove a b")),
        Err(VfsError::InvalidArgumentCount)
    );
    assert_eq!(parse_command(&tokens("exit")), Ok(ShellCommand::Exit));
}

#[test]
fn parse_unknown_and_empty_lines() {
    assert_eq!(parse_command(&tokens("")), Ok(ShellCommand::Unknown));
    assert_eq!(parse_command(&tokens("list")), Ok(ShellCommand::Unknown));
}

#[test]
fn create_new_file_commits_content_into_the_tree() {
    let mut alloc = SerialAllocator::new();
    let mut root = create_root(&mut alloc, 1);
    let baseline = root.get_size();
    create_new_file(
        String::from("story.txt"),
        String::from("ab\nc"),
        &mut root,
        &mut alloc,
        2,
    )
    .unwrap();
    assert_eq!(root.get_size(), baseline + FILE_OVERHEAD + 4);
    let f = root.get_inode_by_name("story.txt").unwrap();
    assert!(f.is_file());
    assert_eq!(f.get_size(), FILE_OVERHEAD + 4);
}

#[test]
fn create_new_file_under_a_file_fails_but_consumes_a_serial() {
    let mut alloc = SerialAllocator::new();
    let mut plain = Inode::new(FILE_MODE, String::from("plain"), &mut alloc, 1);
    let before = alloc.next;
    let r = create_new_file(
        String::from("x"),
        String::from("y"),
        &mut plain,
        &mut alloc,
        2,
    );
    assert_eq!(r, Err(VfsError::NotADirectory));
    assert_eq!(alloc.next, before + 1);
    assert_eq!(plain.get_size(), FILE_OVERHEAD);
}

#[test]
fn the_clock_can_be_read() {
    // nothing is promised of the value; the call must simply not fail
    let _t = now_date();
}
