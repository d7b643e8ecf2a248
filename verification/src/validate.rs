//! Per-line field validation: each declared field of a classified row is
//! checked against its declared kind, and every violation is collected.

use vstd::prelude::*;
use crate::schema::{FieldKind, FieldSpec, SchemaEntry};
use crate::text::{is_numeric_char, numeric_char, chars_to_string, to_chars};

verus! {

/// Whether the given value parses as a date under the given format
/// pattern, as `chrono::NaiveDate::parse_from_str` decides it.
pub uninterp spec fn date_parses(s: Seq<char>, fmt: Seq<char>) -> bool;

/// Relies on `chrono::NaiveDate::parse_from_str`: it returns a `Result`
/// and never panics, and whether parsing succeeds depends on the value
/// and the format pattern alone.
#[verifier::external_body]
pub(crate) fn parse_date(value: &str, fmt: &str) -> (r: bool)
    ensures
        r == date_parses(value@, fmt@),
{
    chrono::NaiveDate::parse_from_str(value, fmt).is_ok()
}

/// Whether every character of `s` is numeric; holds vacuously of the
/// empty sequence.
pub open spec fn all_numeric(s: Seq<char>) -> bool {
    forall|i: int| 0 <= i < s.len() ==> is_numeric_char(#[trigger] s[i])
}

fn chars_all_numeric(v: &Vec<char>) -> (r: bool)
    ensures
        r == all_numeric(v@),
{
    let mut i: usize = 0;
    while i < v.len()
        invariant
            i <= v@.len(),
            forall|j: int| 0 <= j < i ==> is_numeric_char(#[trigger] v@[j]),
        decreases v@.len() - i,
    {
        if !numeric_char(v[i]) {
            return false;
        }
        i = i + 1;
    }
    true
}

/// Whether the string consists of numeric characters only; true of the
/// empty string.
pub fn is_string_numeric(s: &str) -> (r: bool)
    ensures
        r == all_numeric(s@),
{
    let v = to_chars(s);
    chars_all_numeric(&v)
}

/// What was wrong with one line.
#[derive(PartialEq, Eq, Structural, Debug, Clone, Copy)]
pub enum ErrorKind {
    /// The line is blank or starts with whitespace.
    EmptyLine,
    /// No schema entry declares the line's first character.
    UnknownRecordType(char),
    /// The line has fewer raw fields than its record type declares.
    WrongFieldCount(char),
    /// A required number field is empty, or an optional one holds a
    /// non-numeric character.
    InvalidNumber(usize),
    /// A required string field is empty.
    InvalidString(usize),
    /// A date field does not parse under its declared format.
    InvalidDate(usize),
}

/// One error found on one line: the 1-based line number and the defect.
#[derive(PartialEq, Eq, Structural, Debug, Clone, Copy)]
pub struct LineError {
    pub line: usize,
    pub kind: ErrorKind,
}

/// Whether field value `v` violates spec `f`. A required number must be
/// non-empty; an optional number must be all numeric; a required string
/// must be non-empty; a date must parse unless it is optional and empty.
pub open spec fn field_bad(f: FieldSpec, v: Seq<char>) -> bool {
    match f.kind {
        FieldKind::Number => if f.optional {
            !all_numeric(v)
        } else {
            v.len() == 0
        },
        FieldKind::Text => !f.optional && v.len() == 0,
        FieldKind::Date => (!f.optional || v.len() != 0) && !date_parses(v, f.date_format@),
        FieldKind::Unconstrained => false,
    }
}

/// The error kind reported for a bad value of field `f` at position `k`.
pub open spec fn field_error_kind(f: FieldSpec, k: int) -> ErrorKind {
    match f.kind {
        FieldKind::Number => ErrorKind::InvalidNumber(k as usize),
        FieldKind::Text => ErrorKind::InvalidString(k as usize),
        _ => ErrorKind::InvalidDate(k as usize),
    }
}

/// The errors among the first `k` declared fields, in field order. Field
/// `j` is paired with raw field `j + 1`: raw field `0` is the leading
/// record-type cell.
pub open spec fn field_errors_upto(
    fields: Seq<FieldSpec>,
    raw: Seq<Seq<char>>,
    line: usize,
    k: int,
) -> Seq<LineError>
    decreases k,
{
    if k <= 0 {
        Seq::<LineError>::empty()
    } else {
        field_errors_upto(fields, raw, line, k - 1) + if field_bad(fields[k - 1], raw[k]) {
            seq![LineError { line, kind: field_error_kind(fields[k - 1], k - 1) }]
        } else {
            Seq::<LineError>::empty()
        }
    }
}

/// All errors that validating one classified row yields: one
/// wrong-field-count error when the row is too short for its declared
/// fields (after the leading record-type cell), else the per-field
/// errors in field order.
pub open spec fn row_errors(e: SchemaEntry, raw: Seq<Seq<char>>, line: usize) -> Seq<LineError> {
    if raw.len() < e.fields@.len() + 1 {
        seq![LineError { line, kind: ErrorKind::WrongFieldCount(e.key) }]
    } else {
        field_errors_upto(e.fields@, raw, line, e.fields@.len() as int)
    }
}

/// Checks one classified row against its schema entry, collecting every
/// field-level error rather than stopping at the first.
#[verifier::loop_isolation(false)]
pub fn validate_row(e: &SchemaEntry, raw: &Vec<Vec<char>>, line: usize) -> (r: Vec<LineError>)
    ensures
        r@ == row_errors(*e, raw.deep_view(), line),
{
    let mut r: Vec<LineError> = Vec::new();
    if raw.len() <= e.fields.len() {
        r.push(LineError { line, kind: ErrorKind::WrongFieldCount(e.key) });
        proof {
            assert(r@ =~= row_errors(*e, raw.deep_view(), line));
        }
        return r;
    }
    let mut k: usize = 0;
    while k < e.fields.len()
        invariant
            k <= e.fields@.len(),
            r@ == field_errors_upto(e.fields@, raw.deep_view(), line, k as int),
        decreases e.fields@.len() - k,
    {
        let f = &e.fields[k];
        let v = &raw[k + 1];
        proof {
            assert(raw.deep_view()[k as int + 1] == raw@[k as int + 1]@);
        }
        let bad: bool = match f.kind {
            FieldKind::Number => if f.optional {
                !chars_all_numeric(v)
            } else {
                v.len() == 0
            },
            FieldKind::Text => !f.optional && v.len() == 0,
            FieldKind::Date => {
                if !f.optional || v.len() != 0 {
                    let vs = chars_to_string(v);
                    !parse_date(vs.as_str(), f.date_format.as_str())
                } else {
                    false
                }
            },
            FieldKind::Unconstrained => false,
        };
        if bad {
            let kind = match f.kind {
                FieldKind::Number => ErrorKind::InvalidNumber(k),
                FieldKind::Text => ErrorKind::InvalidString(k),
                _ => ErrorKind::InvalidDate(k),
            };
            r.push(LineError { line, kind });
        }
        k = k + 1;
    }
    r
}

} // verus!
