use interpreter::table::{NameMap, SymbolTable};

#[test]
fn a_new_symbol_table_is_empty() {
    let table = SymbolTable::new();
    assert_eq!(table.len(), 0);
    assert!(table.is_empty());
    assert_eq!(table.address("a"), None);
    assert!(!table.contains("a"));
    assert_eq!(table.names(), Vec::<String>::new());
}

#[test]
fn addresses_follow_the_order_of_declaration() {
    let mut table = SymbolTable::new();
    assert_eq!(table.declare("x".to_string()), Some(0));
    assert_eq!(table.declare("a".to_string()), Some(1));
    assert_eq!(table.declare("m".to_string()), Some(2));
    assert_eq!(table.len(), 3);
    assert!(!table.is_empty());
    assert_eq!(table.address("x"), Some(0));
    assert_eq!(table.address("a"), Some(1));
    assert_eq!(table.address("m"), Some(2));
    assert_eq!(table.address("z"), None);
    assert_eq!(table.name(0), Some(&"x".to_string()));
    assert_eq!(table.name(2), Some(&"m".to_string()));
    assert_eq!(table.name(3), None);
    assert_eq!(table.names(), vec!["x".to_string(), "a".to_string(), "m".to_string()]);
}

#[test]
fn a_name_that_is_in_the_table_is_not_declared_again() {
    let mut table = SymbolTable::new();
    assert_eq!(table.declare("a".to_string()), Some(0));
    assert_eq!(table.declare("b".to_string()), Some(1));
    assert_eq!(table.declare("a".to_string()), None);
    assert_eq!(table.declare("b".to_string()), None);
    assert_eq!(table.names(), vec!["a".to_string(), "b".to_string()]);
    assert_eq!(table.declare("c".to_string()), Some(2));
}

#[test]
fn names_are_case_sensitive() {
    let mut table = SymbolTable::new();
    table.declare("a".to_string());
    assert!(table.contains("a"));
    assert!(!table.contains("A"));
    assert!(!table.contains("a "));
    assert!(!table.contains(""));
}

#[test]
fn a_cleared_symbol_table_is_empty() {
    let mut table = SymbolTable::new();
    table.declare("a".to_string());
    table.declare("b".to_string());
    table.clear();
    assert!(table.is_empty());
    assert_eq!(table.address("a"), None);
    table.declare("b".to_string());
    assert_eq!(table.address("b"), Some(0));
}

#[test]
fn a_new_map_is_empty() {
    let map = NameMap::new();
    assert_eq!(map.len(), 0);
    assert_eq!(map.get("f"), None);
    assert!(!map.contains_key("f"));
    assert_eq!(map.entries(), Vec::<(String, usize)>::new());
}

#[test]
fn a_map_gives_back_what_was_inserted() {
    let mut map = NameMap::new();
    map.insert("f".to_string(), 3);
    map.insert("g".to_string(), 9);
    assert_eq!(map.len(), 2);
    assert_eq!(map.get("f"), Some(3));
    assert_eq!(map.get("g"), Some(9));
    assert_eq!(map.get("h"), None);
    assert!(map.contains_key("g"));
    assert_eq!(map.entries(), vec![("f".to_string(), 3), ("g".to_string(), 9)]);
}

#[test]
fn inserting_a_name_again_replaces_its_number() {
    let mut map = NameMap::new();
    map.insert("b".to_string(), 1);
    map.insert("c".to_string(), 2);
    map.insert("b".to_string(), 5);
    assert_eq!(map.len(), 2);
    assert_eq!(map.get("b"), Some(5));
    assert_eq!(map.get("c"), Some(2));
    assert_eq!(map.entries(), vec![("b".to_string(), 5), ("c".to_string(), 2)]);
}
