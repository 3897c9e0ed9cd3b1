use webserve::resolve::access_file;

fn resolved(root: &str, path: &str) -> Option<(Vec<u8>, Vec<u8>)> {
    access_file(&root.as_bytes().to_vec(), &path.as_bytes().to_vec())
}

#[test]
fn root_rewrites_to_index_html() {
    let (full, mime) = resolved("/srv", "/").unwrap();
    assert_eq!(full, b"/srv/index.html".to_vec());
    assert_eq!(mime, b"text/html".to_vec());
}

#[test]
fn dotdot_in_the_middle_is_rejected() {
    assert!(resolved("/srv", "/a/../b").is_none());
}

#[test]
fn dotdot_at_the_start_is_rejected() {
    assert!(resolved("/srv", "/..b").is_none());
}

#[test]
fn plain_path_is_joined_by_concatenation() {
    let (full, _) = resolved("/srv", "/sub/file.txt").unwrap();
    assert_eq!(full, b"/srv/sub/file.txt".to_vec());
}

#[test]
fn known_extension_maps_to_its_type() {
    let (_, mime) = resolved("/srv", "/notes.txt").unwrap();
    assert_eq!(mime, b"text/plain".to_vec());
}

#[test]
fn extension_lookup_ignores_case() {
    let (_, mime) = resolved("/srv", "/page.HTML").unwrap();
    assert_eq!(mime, b"text/html".to_vec());
}

#[test]
fn unknown_extension_falls_back() {
    let (_, mime) = resolved("/srv", "/blob.zzzzz").unwrap();
    assert_eq!(mime, b"application/octet-stream".to_vec());
}

#[test]
fn missing_extension_falls_back() {
    let (_, mime) = resolved("/srv", "/README").unwrap();
    assert_eq!(mime, b"application/octet-stream".to_vec());
}

#[test]
fn leading_dot_file_has_no_extension() {
    let (_, mime) = resolved("/srv", "/.bashrc").unwrap();
    assert_eq!(mime, b"application/octet-stream".to_vec());
}

#[test]
fn last_extension_wins() {
    let (_, mime) = resolved("/srv", "/archive.tar.html").unwrap();
    assert_eq!(mime, b"text/html".to_vec());
}
