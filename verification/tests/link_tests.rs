use flatsql::link::LinkState;
use flatsql::schema::{load_schema, ConfigError, KeyValue};

fn kv(k: &str, v: &str) -> KeyValue {
    KeyValue { key: k.to_string(), value: v.to_string() }
}

fn row(fields: &[&str]) -> Vec<Vec<char>> {
    fields.iter().map(|f| f.chars().collect()).collect()
}

#[test]
fn the_most_recent_row_of_a_key_wins() {
    let mut st = LinkState::new();
    st.observe('H', row(&["H", "100", "Acme"]));
    st.observe('D', row(&["D", "x1"]));
    let v = st.resolve('H', 1).unwrap();
    assert_eq!(v.iter().collect::<String>(), "100");
    st.observe('H', row(&["H", "200", "Beta"]));
    let v = st.resolve('H', 1).unwrap();
    assert_eq!(v.iter().collect::<String>(), "200");
}

#[test]
fn resolving_an_unseen_key_or_a_long_index_fails() {
    let mut st = LinkState::new();
    assert!(st.resolve('H', 0).is_none());
    st.observe('H', row(&["H", "100"]));
    assert!(st.resolve('H', 2).is_none());
    assert!(st.resolve('D', 0).is_none());
}

#[test]
fn a_link_index_too_large_for_the_machine_is_malformed() {
    let rts = vec![kv("D", "string")];
    let names = vec![kv("D", "item")];
    let tables = vec![kv("D", "Details")];
    let links = vec![kv("D", "ord->H:18446744073709551616")];
    let r = load_schema(&rts, &names, &tables, &links);
    assert_eq!(r.unwrap_err(), ConfigError::MalformedLink('D'));
}
