use engine::link::{resolve, resolve_link};

#[test]
fn test_resolve_link() {
    assert_eq!(resolve_link("index.tml", "index.tml"), "index.tml");
    assert_eq!(resolve_link("article/a1.tml", "index.tml"), "article/a1.tml");
    assert_eq!(resolve_link("index.tml", "article/a1.tml"), "../index.tml");
    assert_eq!(resolve_link("diary/d1.tml", "article/a1.tml"), "../diary/d1.tml");
    assert_eq!(resolve_link("article/a2.tml", "article/a1.tml"), "a2.tml");
}

#[test]
fn resolve_to_self_is_file_name() {
    assert_eq!(resolve("article/a1", "article/a1"), "a1");
    assert_eq!(resolve("a/b/c.html", "a/b/c.html"), "c.html");
    assert_eq!(resolve("index", "index"), "index");
}

#[test]
fn resolve_climbs_out_of_directories() {
    assert_eq!(resolve("index", "article/a1"), "../index");
    assert_eq!(resolve("article/a2", "article/a1"), "a2");
    assert_eq!(resolve("diary/d1", "article/a1"), "../diary/d1");
    assert_eq!(resolve("index.css", "a/b/c.html"), "../../index.css");
    assert_eq!(resolve("a/x/y.html", "a/b/c.html"), "../x/y.html");
}

#[test]
fn resolve_into_own_directory_parent() {
    assert_eq!(resolve("article", "article/a1"), "");
    assert_eq!(resolve("article/a1", "article"), "a1");
}
