//! Report rendering: one human-readable line per error, grouped by file
//! with a separator and a `FILE:` marker line before each group.

use vstd::prelude::*;
use vstd::string::*;
use crate::validate::{LineError, ErrorKind};
use crate::batch::FileErrors;
use crate::text::{dec_chars, usize_chars, push_str, push_chars, chars_to_string};

verus! {

/// The report text of one error: its 1-based line number and what was
/// wrong, naming the column or record type involved.
pub open spec fn message_chars(e: LineError) -> Seq<char> {
    "#"@ + dec_chars(e.line as nat) + match e.kind {
        ErrorKind::EmptyLine => ", Empty Line"@,
        ErrorKind::UnknownRecordType(c) => ", Unexpected Letter Type: "@ + seq![c],
        ErrorKind::WrongFieldCount(c) => ", Wrong number of fields, Line Type => "@ + seq![c],
        ErrorKind::InvalidNumber(k) => ", Invalid Number at column #"@ + dec_chars(k as nat),
        ErrorKind::InvalidString(k) => ", Invalid String at column #"@ + dec_chars(k as nat),
        ErrorKind::InvalidDate(k) => ", Invalid Date at column #"@ + dec_chars(k as nat),
    }
}

/// Renders one error as its report line.
pub fn render_message(e: &LineError) -> (r: String)
    ensures
        r@ == message_chars(*e),
{
    let mut out: Vec<char> = Vec::new();
    push_str(&mut out, "#");
    let num = usize_chars(e.line);
    push_chars(&mut out, &num);
    match e.kind {
        ErrorKind::EmptyLine => {
            push_str(&mut out, ", Empty Line");
        },
        ErrorKind::UnknownRecordType(c) => {
            push_str(&mut out, ", Unexpected Letter Type: ");
            out.push(c);
        },
        ErrorKind::WrongFieldCount(c) => {
            push_str(&mut out, ", Wrong number of fields, Line Type => ");
            out.push(c);
        },
        ErrorKind::InvalidNumber(k) => {
            push_str(&mut out, ", Invalid Number at column #");
            let col = usize_chars(k);
            push_chars(&mut out, &col);
        },
        ErrorKind::InvalidString(k) => {
            push_str(&mut out, ", Invalid String at column #");
            let col = usize_chars(k);
            push_chars(&mut out, &col);
        },
        ErrorKind::InvalidDate(k) => {
            push_str(&mut out, ", Invalid Date at column #");
            let col = usize_chars(k);
            push_chars(&mut out, &col);
        },
    }
    proof {
        assert(out@ =~= message_chars(*e));
    }
    chars_to_string(&out)
}

/// The report lines of one file's error group: a separator, the `FILE:`
/// marker with the file name, then one line per error in order.
pub open spec fn group_lines(g: FileErrors) -> Seq<Seq<char>> {
    seq!["============================="@, "FILE: "@ + g.name@] + messages_of(g.errors@)
}

/// The report lines of a sequence of errors, in order.
pub open spec fn messages_of(errs: Seq<LineError>) -> Seq<Seq<char>>
    decreases errs.len(),
{
    if errs.len() == 0 {
        Seq::<Seq<char>>::empty()
    } else {
        messages_of(errs.drop_last()).push(message_chars(errs.last()))
    }
}

/// The whole report: every file group's lines, in file order.
pub open spec fn report_lines(groups: Seq<FileErrors>) -> Seq<Seq<char>>
    decreases groups.len(),
{
    if groups.len() == 0 {
        Seq::<Seq<char>>::empty()
    } else {
        report_lines(groups.drop_last()) + group_lines(groups.last())
    }
}

/// Renders the whole grouped error report, one string per report line.
#[verifier::loop_isolation(false)]
pub fn render_report(groups: &Vec<FileErrors>) -> (r: Vec<String>)
    ensures
        r.deep_view() == report_lines(groups@),
{
    let mut out: Vec<String> = Vec::new();
    let mut i: usize = 0;
    while i < groups.len()
        invariant
            i <= groups@.len(),
            out.deep_view() =~~= report_lines(groups@.take(i as int)),
        decreases groups@.len() - i,
    {
        let g = &groups[i];
        let ghost d0 = out.deep_view();
        out.push(String::from_str("============================="));
        proof {
            assert(out.deep_view() =~~= d0.push("============================="@));
        }
        let mut header: Vec<char> = Vec::new();
        push_str(&mut header, "FILE: ");
        push_str(&mut header, g.name.as_str());
        let ghost d1 = out.deep_view();
        out.push(chars_to_string(&header));
        proof {
            assert(out.deep_view() =~~= d1.push("FILE: "@ + g.name@));
        }
        let mut t: usize = 0;
        while t < g.errors.len()
            invariant
                t <= g.errors@.len(),
                out.deep_view() =~~= report_lines(groups@.take(i as int)) + seq![
                    "============================="@,
                    "FILE: "@ + groups@[i as int].name@,
                ] + messages_of(groups@[i as int].errors@.take(t as int)),
            decreases g.errors@.len() - t,
        {
            let ghost d2 = out.deep_view();
            let msg = render_message(&g.errors[t]);
            out.push(msg);
            proof {
                assert(g.errors@.take(t as int + 1).drop_last() =~= g.errors@.take(t as int));
                assert(out.deep_view() =~~= d2.push(message_chars(g.errors@[t as int])));
            }
            t = t + 1;
        }
        proof {
            assert(g.errors@.take(g.errors@.len() as int) =~= g.errors@);
            assert(groups@.take(i as int + 1).drop_last() =~= groups@.take(i as int));
            assert(groups@.take(i as int + 1).last() == groups@[i as int]);
            assert(out.deep_view() =~~= report_lines(groups@.take(i as int + 1)));
        }
        i = i + 1;
    }
    proof {
        assert(groups@.take(groups@.len() as int) =~= groups@);
    }
    out
}

} // verus!
