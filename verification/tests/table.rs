use porkbun::table::Table;

#[test]
fn table_keeps_each_name_once() {
    let mut table: Table<u64> = Table::new();
    assert!(table.is_empty());
    assert_eq!(table.len(), 0);
    assert_eq!(table.get("a"), None);
    table.insert("a".to_string(), 1);
    table.insert("b".to_string(), 2);
    assert_eq!(table.len(), 2);
    assert_eq!(table.get("a"), Some(&1));
    assert_eq!(table.get("b"), Some(&2));
    assert_eq!(table.get("c"), None);
    table.insert("a".to_string(), 3);
    assert_eq!(table.len(), 2);
    assert_eq!(table.get("a"), Some(&3));
    assert_eq!(table.get("b"), Some(&2));
    assert!(!table.is_empty());
    let names: Vec<&str> = table.entries().iter().map(|e| e.0.as_str()).collect();
    assert_eq!(names, ["a", "b"]);
}
