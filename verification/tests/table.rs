use corex::table::RouteTable;

#[test]
fn lookup_finds_inserted_route() {
    let mut t: RouteTable<u32> = RouteTable::new();
    t.insert("GET".to_string(), "/".to_string(), "routes/get.ts".to_string(), 1).unwrap();
    t.insert("GET".to_string(), "/hello".to_string(), "routes/hello/get.ts".to_string(), 2)
        .unwrap();
    assert_eq!(t.lookup("GET", "/"), Some(&1));
    assert_eq!(t.lookup("GET", "/hello"), Some(&2));
}

#[test]
fn lookup_is_exact_match_only() {
    let mut t: RouteTable<u32> = RouteTable::new();
    t.insert("GET".to_string(), "/hello".to_string(), "routes/hello/get.ts".to_string(), 2)
        .unwrap();
    assert_eq!(t.lookup("POST", "/hello"), None);
    assert_eq!(t.lookup("GET", "/hell"), None);
    assert_eq!(t.lookup("get", "/hello"), None);
    assert_eq!(t.lookup("GET", "/hello/"), None);
}

#[test]
fn duplicate_route_names_both_files() {
    let mut t: RouteTable<u32> = RouteTable::new();
    t.insert("GET".to_string(), "/hello".to_string(), "routes/hello/get.ts".to_string(), 1)
        .unwrap();
    let err = t
        .insert("GET".to_string(), "/hello".to_string(), "routes/hello/get.js".to_string(), 2)
        .unwrap_err();
    assert_eq!(err.method, "GET");
    assert_eq!(err.path, "/hello");
    assert_eq!(err.existing_source, "routes/hello/get.ts");
    assert_eq!(err.new_source, "routes/hello/get.js");
    // The first registration is kept untouched.
    assert_eq!(t.lookup("GET", "/hello"), Some(&1));
}
