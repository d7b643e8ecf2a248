//! Line classification: the first character of a raw line names its
//! record type, and tabs delimit its fields.

use vstd::prelude::*;
use crate::schema::{Schema, has_key};
use crate::text::{split_by, split_chars, is_space, space_char};
use crate::validate::ErrorKind;

verus! {

/// How a raw line classifies: its record-type key, or why it does not.
/// A blank or whitespace-led line is an empty-line error; a first
/// character no schema entry declares is an unknown-record-type error.
pub open spec fn classify_spec(line: Seq<char>, s: Schema) -> Result<char, ErrorKind> {
    if line.len() == 0 || is_space(line[0]) {
        Err(ErrorKind::EmptyLine)
    } else if !has_key(s.entries@, line[0]) {
        Err(ErrorKind::UnknownRecordType(line[0]))
    } else {
        Ok(line[0])
    }
}

/// Identifies the schema entry governing a raw line and splits the line
/// at tabs; the leading record-type cell stays as raw field `0`.
pub fn classify(line: &Vec<char>, s: &Schema) -> (r: Result<(usize, Vec<Vec<char>>), ErrorKind>)
    ensures
        match r {
            Ok(p) => {
                &&& classify_spec(line@, *s) == Ok::<char, ErrorKind>(line@[0])
                &&& p.0 < s.entries@.len()
                &&& s.entries@[p.0 as int].key == line@[0]
                &&& p.1.deep_view() == split_by(line@, '\t')
            },
            Err(e) => classify_spec(line@, *s) == Err::<char, ErrorKind>(e),
        },
{
    if line.len() == 0 {
        return Err(ErrorKind::EmptyLine);
    }
    let c = line[0];
    if space_char(c) {
        return Err(ErrorKind::EmptyLine);
    }
    match s.find(c) {
        Some(i) => {
            proof {
                assert(has_key(s.entries@, c));
            }
            Ok((i, split_chars(line, '\t')))
        },
        None => Err(ErrorKind::UnknownRecordType(c)),
    }
}

} // verus!
