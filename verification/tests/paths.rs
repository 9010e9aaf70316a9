use zipstore::paths::{sanitize, strip_root};

#[test]
fn sanitize_plain_name_is_kept() {
    assert_eq!(sanitize(b"a/b/c.txt"), vec![b"a".to_vec(), b"b".to_vec(), b"c.txt".to_vec()]);
    assert_eq!(sanitize(b"file"), vec![b"file".to_vec()]);
}

#[test]
fn sanitize_drops_traversal_segments() {
    assert_eq!(sanitize(b"../../etc/passwd"), vec![b"etc".to_vec(), b"passwd".to_vec()]);
    assert_eq!(sanitize(b"a/../b"), vec![b"a".to_vec(), b"b".to_vec()]);
    assert_eq!(sanitize(b".."), Vec::<Vec<u8>>::new());
}

#[test]
fn sanitize_drops_absolute_prefix_and_empties() {
    assert_eq!(sanitize(b"/abs/path"), vec![b"abs".to_vec(), b"path".to_vec()]);
    assert_eq!(sanitize(b"a//b/"), vec![b"a".to_vec(), b"b".to_vec()]);
    assert_eq!(sanitize(b"./x"), vec![b"x".to_vec()]);
}

#[test]
fn sanitize_splits_backslashes_too() {
    assert_eq!(sanitize(b"\\srv\\share\\f"), vec![b"srv".to_vec(), b"share".to_vec(), b"f".to_vec()]);
}

#[test]
fn sanitize_cuts_at_nul() {
    assert_eq!(sanitize(b"a\0b/c"), vec![b"a".to_vec()]);
    assert_eq!(sanitize(b"\0whatever"), Vec::<Vec<u8>>::new());
}

#[test]
fn strip_root_computes_relative_names() {
    assert_eq!(strip_root(b"/src", b"/src/a/b"), Some(b"a/b".to_vec()));
    assert_eq!(strip_root(b"/src", b"/src/f"), Some(b"f".to_vec()));
    assert_eq!(strip_root(b"/src", b"/other/x"), None);
    assert_eq!(strip_root(b"/src", b"/src"), None);
    assert_eq!(strip_root(b"/src", b"/srcs/x"), None);
}
