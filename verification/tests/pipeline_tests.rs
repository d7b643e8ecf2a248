use flatsql::batch::{
    check_lines, compile_lines, run_batch, validate_file_type, BatchOutcome, FileInput,
};
use flatsql::report::{render_message, render_report};
use flatsql::schema::{load_schema, KeyValue, Schema};
use flatsql::validate::{is_string_numeric, ErrorKind, LineError};

fn kv(k: &str, v: &str) -> KeyValue {
    KeyValue { key: k.to_string(), value: v.to_string() }
}

fn orders_schema() -> Schema {
    let rts = vec![kv("H", "number+string")];
    let names = vec![kv("H", "id+name")];
    let tables = vec![kv("H", "Orders")];
    load_schema(&rts, &names, &tables, &Vec::new()).unwrap()
}

fn linked_schema() -> Schema {
    let rts = vec![kv("H", "number+string"), kv("D", "string")];
    let names = vec![kv("H", "id+name"), kv("D", "item")];
    let tables = vec![kv("H", "Orders"), kv("D", "Details")];
    let links = vec![kv("D", "ord->H:1")];
    load_schema(&rts, &names, &tables, &links).unwrap()
}

fn strings(v: &[&str]) -> Vec<String> {
    v.iter().map(|s| s.to_string()).collect()
}

#[test]
fn clean_header_line_compiles_to_one_statement() {
    let s = orders_schema();
    let lines = strings(&["H\t42\tAcme"]);
    let errs = check_lines(&s, &lines, false);
    assert_eq!(errs.len(), 0);
    let stmts = compile_lines(&s, &lines, "data2024.txt", false).unwrap();
    assert_eq!(stmts.len(), 1);
    assert_eq!(stmts[0].table_name, "Orders");
    assert_eq!(
        stmts[0].sql_text,
        "INSERT INTO Orders ( \"id\",\"name\",\"hdrFileName\",\"hdrFileQuarter\") \
         VALUES (42,'Acme', 'data2024.txt', '2024')"
    );
    assert!(stmts[0].sql_text.contains("42,"));
    assert!(stmts[0].sql_text.contains("'Acme'"));
    assert!(!stmts[0].sql_text.contains("'42'"));
}

#[test]
fn empty_required_number_is_invalid_and_blocks_the_batch() {
    let s = orders_schema();
    let files = vec![FileInput { name: "a.txt".to_string(), lines: strings(&["H\t\tAcme"]) }];
    let errs = check_lines(&s, &files[0].lines, false);
    assert_eq!(errs.len(), 1);
    assert_eq!(errs[0], LineError { line: 1, kind: ErrorKind::InvalidNumber(0) });
    match run_batch(&s, &files, false).unwrap() {
        BatchOutcome::Invalid(groups) => {
            assert_eq!(groups.len(), 1);
            assert_eq!(groups[0].name, "a.txt");
            assert_eq!(groups[0].errors.len(), 1);
        },
        BatchOutcome::Compiled(_) => panic!("a batch with an error must not compile"),
    }
}

#[test]
fn any_error_in_one_file_suppresses_every_statement() {
    let s = orders_schema();
    let files = vec![
        FileInput { name: "good.txt".to_string(), lines: strings(&["H\t1\tAcme"]) },
        FileInput { name: "bad.txt".to_string(), lines: strings(&["H\t\tBeta"]) },
    ];
    match run_batch(&s, &files, false).unwrap() {
        BatchOutcome::Invalid(groups) => {
            assert_eq!(groups.len(), 1);
            assert_eq!(groups[0].name, "bad.txt");
        },
        BatchOutcome::Compiled(_) => panic!("a batch with an error must not compile"),
    }
}

#[test]
fn error_free_batch_compiles_one_statement_per_line() {
    let s = orders_schema();
    let files = vec![
        FileInput { name: "a.txt".to_string(), lines: strings(&["H\t1\tAcme", "H\t2\tBeta"]) },
        FileInput { name: "b.txt".to_string(), lines: strings(&["H\t3\tGamma"]) },
    ];
    match run_batch(&s, &files, false).unwrap() {
        BatchOutcome::Compiled(stmts) => {
            assert_eq!(stmts.len(), 3);
            assert!(stmts[2].sql_text.contains("'Gamma'"));
        },
        BatchOutcome::Invalid(_) => panic!("an error-free batch must compile"),
    }
}

#[test]
fn three_records_link_to_the_most_recent_header() {
    let s = linked_schema();
    let lines = strings(&["H\t100\tAcme", "D\tx1", "H\t200\tBeta", "D\tx2"]);
    assert_eq!(check_lines(&s, &lines, false).len(), 0);
    let stmts = compile_lines(&s, &lines, "q.txt", false).unwrap();
    assert_eq!(stmts.len(), 4);
    assert_eq!(stmts[1].table_name, "Details");
    assert_eq!(stmts[1].sql_text, "INSERT INTO Details ( \"item\",\"ord\") VALUES ('x1','100')");
    assert_eq!(stmts[3].sql_text, "INSERT INTO Details ( \"item\",\"ord\") VALUES ('x2','200')");
}

#[test]
fn unresolved_link_is_a_resolution_failure() {
    let s = linked_schema();
    let lines = strings(&["D\tx1"]);
    assert_eq!(check_lines(&s, &lines, false).len(), 0);
    let r = compile_lines(&s, &lines, "q.txt", false);
    let f = r.unwrap_err();
    assert_eq!(f.source_key, 'H');
    assert_eq!(f.source_column_index, 1);
    assert!(run_batch(
        &s,
        &vec![FileInput { name: "q.txt".to_string(), lines }],
        false,
    ).is_err());
}

#[test]
fn single_quotes_are_escaped_and_numbers_stay_bare() {
    let rts = vec![kv("T", "number+string")];
    let names = vec![kv("T", "id+name")];
    let tables = vec![kv("T", "People")];
    let s = load_schema(&rts, &names, &tables, &Vec::new()).unwrap();
    let lines = strings(&["T\t7\tO'Brien"]);
    let stmts = compile_lines(&s, &lines, "f.txt", false).unwrap();
    assert_eq!(stmts[0].sql_text, "INSERT INTO People ( \"id\",\"name\") VALUES (7,'O\\'Brien')");
}

#[test]
fn outer_double_quotes_are_stripped_once() {
    let rts = vec![kv("T", "string")];
    let names = vec![kv("T", "name")];
    let tables = vec![kv("T", "People")];
    let s = load_schema(&rts, &names, &tables, &Vec::new()).unwrap();
    let lines = strings(&["T\t\"Acme\""]);
    let stmts = compile_lines(&s, &lines, "f.txt", false).unwrap();
    assert_eq!(stmts[0].sql_text, "INSERT INTO People ( \"name\") VALUES ('Acme')");
}

#[test]
fn trailing_empty_optional_field_leaves_no_dangling_comma() {
    let rts = vec![kv("T", "number+number*")];
    let names = vec![kv("T", "a+b")];
    let tables = vec![kv("T", "Counts")];
    let s = load_schema(&rts, &names, &tables, &Vec::new()).unwrap();
    let lines = strings(&["T\t42\t"]);
    assert_eq!(check_lines(&s, &lines, false).len(), 0);
    let stmts = compile_lines(&s, &lines, "f.txt", false).unwrap();
    assert!(!stmts[0].sql_text.contains(",)"));
    assert!(!stmts[0].sql_text.contains(",,"));
    assert_eq!(stmts[0].sql_text, "INSERT INTO Counts ( \"a\",\"b\") VALUES (42)");
}

#[test]
fn validating_twice_gives_identical_error_lists() {
    let s = orders_schema();
    let lines = strings(&["H\t\t", "X\t1", " led by space"]);
    let first = check_lines(&s, &lines, false);
    let second = check_lines(&s, &lines, false);
    assert_eq!(first, second);
    assert_eq!(first.len(), 4);
}

#[test]
fn classification_errors_are_reported_per_line() {
    let s = orders_schema();
    let lines = strings(&["", " x", "Z\t1", "H\t1"]);
    let errs = check_lines(&s, &lines, false);
    assert_eq!(
        errs,
        vec![
            LineError { line: 1, kind: ErrorKind::EmptyLine },
            LineError { line: 2, kind: ErrorKind::EmptyLine },
            LineError { line: 3, kind: ErrorKind::UnknownRecordType('Z') },
            LineError { line: 4, kind: ErrorKind::WrongFieldCount('H') },
        ]
    );
}

#[test]
fn ignored_empty_lines_yield_no_error_and_no_statement() {
    let s = orders_schema();
    let lines = strings(&["", "H\t1\tAcme", ""]);
    assert_eq!(check_lines(&s, &lines, true).len(), 0);
    let stmts = compile_lines(&s, &lines, "f.txt", true).unwrap();
    assert_eq!(stmts.len(), 1);
    assert_eq!(check_lines(&s, &lines, false).len(), 2);
}

#[test]
fn date_fields_parse_under_their_declared_format() {
    let rts = vec![kv("T", "date|%Y-%m-%d+date*|%d/%m/%Y")];
    let names = vec![kv("T", "when+maybe")];
    let tables = vec![kv("T", "Times")];
    let s = load_schema(&rts, &names, &tables, &Vec::new()).unwrap();
    assert_eq!(check_lines(&s, &strings(&["T\t2021-05-17\t"]), false).len(), 0);
    assert_eq!(check_lines(&s, &strings(&["T\t2021-05-17\t17/05/2021"]), false).len(), 0);
    let errs = check_lines(&s, &strings(&["T\t2021-13-40\tnope"]), false);
    assert_eq!(
        errs,
        vec![
            LineError { line: 1, kind: ErrorKind::InvalidDate(0) },
            LineError { line: 1, kind: ErrorKind::InvalidDate(1) },
        ]
    );
}

#[test]
fn optional_numbers_must_be_digits_when_present() {
    let rts = vec![kv("T", "number*")];
    let names = vec![kv("T", "n")];
    let tables = vec![kv("T", "Counts")];
    let s = load_schema(&rts, &names, &tables, &Vec::new()).unwrap();
    assert_eq!(check_lines(&s, &strings(&["T\t"]), false).len(), 0);
    assert_eq!(check_lines(&s, &strings(&["T\t123"]), false).len(), 0);
    let errs = check_lines(&s, &strings(&["T\t12a"]), false);
    assert_eq!(errs, vec![LineError { line: 1, kind: ErrorKind::InvalidNumber(0) }]);
}

#[test]
fn required_string_must_be_non_empty() {
    let rts = vec![kv("T", "string+string*")];
    let names = vec![kv("T", "a+b")];
    let tables = vec![kv("T", "People")];
    let s = load_schema(&rts, &names, &tables, &Vec::new()).unwrap();
    let errs = check_lines(&s, &strings(&["T\t\t"]), false);
    assert_eq!(errs, vec![LineError { line: 1, kind: ErrorKind::InvalidString(0) }]);
}

#[test]
fn is_string_numeric_accepts_digits_only() {
    assert!(is_string_numeric("12345"));
    assert!(is_string_numeric(""));
    assert!(!is_string_numeric("12a"));
    assert!(!is_string_numeric("-1"));
}

#[test]
fn only_the_three_known_extensions_are_accepted() {
    assert!(validate_file_type("tab"));
    assert!(validate_file_type("txt"));
    assert!(validate_file_type("ta1"));
    assert!(!validate_file_type("csv"));
    assert!(!validate_file_type(""));
    assert!(!validate_file_type("TXT"));
}

#[test]
fn messages_name_the_line_and_column() {
    let m = render_message(&LineError { line: 3, kind: ErrorKind::InvalidNumber(2) });
    assert_eq!(m, "#3, Invalid Number at column #2");
    let m = render_message(&LineError { line: 12, kind: ErrorKind::UnknownRecordType('Z') });
    assert_eq!(m, "#12, Unexpected Letter Type: Z");
    let m = render_message(&LineError { line: 1, kind: ErrorKind::WrongFieldCount('H') });
    assert_eq!(m, "#1, Wrong number of fields, Line Type => H");
}

#[test]
fn the_report_groups_errors_under_file_markers() {
    let s = orders_schema();
    let files = vec![FileInput { name: "a.txt".to_string(), lines: strings(&["H\t\tAcme"]) }];
    match run_batch(&s, &files, false).unwrap() {
        BatchOutcome::Invalid(groups) => {
            let lines = render_report(&groups);
            assert_eq!(
                lines,
                vec![
                    "=============================".to_string(),
                    "FILE: a.txt".to_string(),
                    "#1, Invalid Number at column #0".to_string(),
                ]
            );
        },
        BatchOutcome::Compiled(_) => panic!("expected an invalid batch"),
    }
}

#[test]
fn short_file_stems_tag_with_the_whole_stem() {
    let s = orders_schema();
    let stmts = compile_lines(&s, &strings(&["H\t1\tAcme"]), "ab.txt", false).unwrap();
    assert!(stmts[0].sql_text.ends_with("'ab.txt', 'ab')"));
}
