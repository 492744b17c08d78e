use vfs_shell::path::render_path;

fn names(list: &[&str]) -> Vec<String> {
    list.iter().map(|s| String::from(*s)).collect()
}

#[test]
fn root_alone_renders_without_separators() {
    assert_eq!(render_path(&names(&["/"])), "/ > ");
}

#[test]
fn the_separator_after_the_root_is_not_doubled() {
    assert_eq!(render_path(&names(&["/", "a.txt"])), "/a.txt > ");
    assert_eq!(render_path(&names(&["/", "docs", "b"])), "/docs/b > ");
}

#[test]
fn segments_are_joined_with_one_separator_each() {
    assert_eq!(render_path(&names(&["home", "user", "src"])), "home/user/src > ");
    let rendered = render_path(&names(&["home", "user", "src"]));
    assert_eq!(rendered.matches('/').count(), 2);
}

#[test]
fn an_empty_chain_renders_only_the_marker() {
    assert_eq!(render_path(&names(&[])), " > ");
}
