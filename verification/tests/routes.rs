use corex::route::{derive_route, route_path};

#[test]
fn root_file_registers_at_root() {
    let dirs: Vec<String> = vec![];
    let r = derive_route(&dirs, "get.ts");
    let (method, path) = r.expect("a file with an extension defines a route");
    assert_eq!(method, "GET");
    assert_eq!(path, "/");
}

#[test]
fn one_segment_path() {
    let dirs: Vec<String> = vec!["hello".to_string()];
    let (method, path) = derive_route(&dirs, "get.ts").unwrap();
    assert_eq!(method, "GET");
    assert_eq!(path, "/hello");
}

#[test]
fn nested_segments_path() {
    let dirs: Vec<String> = vec!["api".to_string(), "users".to_string()];
    let (method, path) = derive_route(&dirs, "post.ts").unwrap();
    assert_eq!(method, "POST");
    assert_eq!(path, "/api/users");
}

#[test]
fn method_is_upper_cased() {
    let dirs: Vec<String> = vec![];
    let (method, _) = derive_route(&dirs, "Delete.ts").unwrap();
    assert_eq!(method, "DELETE");
}

#[test]
fn stem_stops_at_first_dot() {
    let dirs: Vec<String> = vec![];
    let (method, _) = derive_route(&dirs, "get.handler.ts").unwrap();
    assert_eq!(method, "GET");
}

#[test]
fn file_without_extension_defines_no_route() {
    let dirs: Vec<String> = vec!["hello".to_string()];
    assert!(derive_route(&dirs, "helpers").is_none());
}

#[test]
fn route_path_joins_segments() {
    assert_eq!(route_path(&vec![]), "/");
    assert_eq!(route_path(&vec!["a".to_string()]), "/a");
    assert_eq!(route_path(&vec!["a".to_string(), "b".to_string(), "c".to_string()]), "/a/b/c");
}
