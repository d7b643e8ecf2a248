use flatsql::schema::{load_schema, ConfigError, FieldKind, KeyValue};

fn kv(k: &str, v: &str) -> KeyValue {
    KeyValue { key: k.to_string(), value: v.to_string() }
}

fn no_links() -> Vec<KeyValue> {
    Vec::new()
}

#[test]
fn loads_a_consistent_schema() {
    let rts = vec![kv("H", "number+string"), kv("D", "string")];
    let names = vec![kv("H", "id+name"), kv("D", "item")];
    let tables = vec![kv("H", "Orders"), kv("D", "Details")];
    let links = vec![kv("D", "ord->H:1")];
    let s = load_schema(&rts, &names, &tables, &links).unwrap();
    assert_eq!(s.entries.len(), 2);
    assert_eq!(s.entries[0].key, 'H');
    assert_eq!(s.entries[0].table_name, "Orders");
    assert_eq!(s.entries[0].fields.len(), 2);
    assert_eq!(s.entries[0].fields[0].name, "id");
    assert!(matches!(s.entries[0].fields[0].kind, FieldKind::Number));
    assert!(!s.entries[0].fields[0].optional);
    assert_eq!(s.entries[1].links.len(), 1);
    assert_eq!(s.entries[1].links[0].output_column, "ord");
    assert_eq!(s.entries[1].links[0].source_key, 'H');
    assert_eq!(s.entries[1].links[0].source_column_index, 1);
}

#[test]
fn column_count_mismatch_fails_loading() {
    let rts = vec![kv("H", "number+string")];
    let names = vec![kv("H", "id")];
    let tables = vec![kv("H", "Orders")];
    let r = load_schema(&rts, &names, &tables, &no_links());
    assert_eq!(r.unwrap_err(), ConfigError::ColumnCountMismatch('H'));
}

#[test]
fn missing_column_names_fails_loading() {
    let rts = vec![kv("H", "number")];
    let names = Vec::new();
    let tables = vec![kv("H", "Orders")];
    let r = load_schema(&rts, &names, &tables, &no_links());
    assert_eq!(r.unwrap_err(), ConfigError::MissingColumnNames('H'));
}

#[test]
fn missing_table_name_fails_loading() {
    let rts = vec![kv("H", "number")];
    let names = vec![kv("H", "id")];
    let tables = Vec::new();
    let r = load_schema(&rts, &names, &tables, &no_links());
    assert_eq!(r.unwrap_err(), ConfigError::MissingTableName('H'));
}

#[test]
fn date_without_format_fails_loading() {
    let rts = vec![kv("H", "date")];
    let names = vec![kv("H", "when")];
    let tables = vec![kv("H", "Orders")];
    let r = load_schema(&rts, &names, &tables, &no_links());
    assert_eq!(r.unwrap_err(), ConfigError::MissingDateFormat('H'));
}

#[test]
fn malformed_link_fails_loading() {
    let rts = vec![kv("D", "string")];
    let names = vec![kv("D", "item")];
    let tables = vec![kv("D", "Details")];
    let links = vec![kv("D", "nonsense")];
    let r = load_schema(&rts, &names, &tables, &links);
    assert_eq!(r.unwrap_err(), ConfigError::MalformedLink('D'));
}

#[test]
fn duplicate_key_fails_loading() {
    let rts = vec![kv("H", "number"), kv("H", "string")];
    let names = vec![kv("H", "id")];
    let tables = vec![kv("H", "Orders")];
    let r = load_schema(&rts, &names, &tables, &no_links());
    assert_eq!(r.unwrap_err(), ConfigError::DuplicateKey('H'));
}

#[test]
fn multi_character_key_fails_loading() {
    let rts = vec![kv("HH", "number")];
    let names = vec![kv("HH", "id")];
    let tables = vec![kv("HH", "Orders")];
    let r = load_schema(&rts, &names, &tables, &no_links());
    assert_eq!(r.unwrap_err(), ConfigError::InvalidKey("HH".to_string()));
}

#[test]
fn optional_marker_and_date_format_are_parsed() {
    let rts = vec![kv("H", "number*+date*|%Y-%m-%d+mystery")];
    let names = vec![kv("H", "count+when+other")];
    let tables = vec![kv("H", "Orders")];
    let s = load_schema(&rts, &names, &tables, &no_links()).unwrap();
    let f = &s.entries[0].fields;
    assert!(matches!(f[0].kind, FieldKind::Number));
    assert!(f[0].optional);
    assert!(matches!(f[1].kind, FieldKind::Date));
    assert!(f[1].optional);
    assert_eq!(f[1].date_format, "%Y-%m-%d");
    assert!(matches!(f[2].kind, FieldKind::Unconstrained));
}

#[test]
fn empty_link_declaration_yields_no_links() {
    let rts = vec![kv("D", "string")];
    let names = vec![kv("D", "item")];
    let tables = vec![kv("D", "Details")];
    let links = vec![kv("D", "")];
    let s = load_schema(&rts, &names, &tables, &links).unwrap();
    assert_eq!(s.entries[0].links.len(), 0);
}
