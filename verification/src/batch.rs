//! The run orchestrator: every file of a batch is validated before any
//! file is compiled, and one validation error anywhere suppresses all
//! compilation.

use vstd::prelude::*;
use crate::schema::{Schema, SchemaEntry};
use crate::classify::{classify, classify_spec};
use crate::validate::{validate_row, row_errors, LineError, ErrorKind};
use crate::compile::{
    compile_row, CompiledStatement, ResolutionFailure, statement_text, links_resolvable,
};
use crate::link::LinkState;
use crate::text::{split_by, to_chars, chars_eq_str, copy_rows};

verus! {

/// Whether a file name extension is one of the recognized text-file
/// extensions.
pub fn validate_file_type(file_type: &str) -> (r: bool)
    ensures
        r == (file_type@ == "tab"@ || file_type@ == "txt"@ || file_type@ == "ta1"@),
{
    let v = to_chars(file_type);
    chars_eq_str(&v, "tab") || chars_eq_str(&v, "txt") || chars_eq_str(&v, "ta1")
}

/// The schema entry declaring `key`; meaningful when some entry does.
pub open spec fn entry_of(s: Schema, key: char) -> SchemaEntry {
    s.entries@[choose|i: int| 0 <= i < s.entries@.len() && s.entries@[i].key == key]
}

proof fn lemma_entry_of(s: Schema, i: int)
    requires
        s.wf(),
        0 <= i < s.entries@.len(),
    ensures
        entry_of(s, s.entries@[i].key) == s.entries@[i],
{
    let key = s.entries@[i].key;
    assert(0 <= i < s.entries@.len() && s.entries@[i].key == key);
    let j = choose|j: int| 0 <= j < s.entries@.len() && s.entries@[j].key == key;
    if j < i {
        assert(s.entries@[j].key != s.entries@[i].key);
    } else if i < j {
        assert(s.entries@[i].key != s.entries@[j].key);
    }
}

/// The errors of one line, numbered `n`: a classification error stands
/// alone (an ignored empty line yields none); a classified line yields
/// its field validation errors.
pub open spec fn line_errors(s: Schema, line: Seq<char>, n: usize, ignore_empty: bool) -> Seq<
    LineError,
> {
    match classify_spec(line, s) {
        Err(k) => if k == ErrorKind::EmptyLine && ignore_empty {
            Seq::<LineError>::empty()
        } else {
            seq![LineError { line: n, kind: k }]
        },
        Ok(key) => row_errors(entry_of(s, key), split_by(line, '\t'), n),
    }
}

/// The errors of the first `k` lines, in line order; line numbers are
/// 1-based.
pub open spec fn file_errors_upto(
    s: Schema,
    lines: Seq<Seq<char>>,
    ignore_empty: bool,
    k: int,
) -> Seq<LineError>
    decreases k,
{
    if k <= 0 {
        Seq::<LineError>::empty()
    } else {
        file_errors_upto(s, lines, ignore_empty, k - 1) + line_errors(
            s,
            lines[k - 1],
            k as usize,
            ignore_empty,
        )
    }
}

/// All errors of one file's lines.
pub open spec fn file_errors(s: Schema, lines: Seq<Seq<char>>, ignore_empty: bool) -> Seq<
    LineError,
> {
    file_errors_upto(s, lines, ignore_empty, lines.len() as int)
}

proof fn lemma_file_piece_empty(s: Schema, lines: Seq<Seq<char>>, ignore_empty: bool, kk: int, k: int)
    requires
        file_errors_upto(s, lines, ignore_empty, kk).len() == 0,
        0 <= k < kk,
    ensures
        line_errors(s, lines[k], (k + 1) as usize, ignore_empty).len() == 0,
    decreases kk,
{
    if k < kk - 1 {
        lemma_file_piece_empty(s, lines, ignore_empty, kk - 1, k);
    }
}

/// Validating the same lines twice yields identical error lists: the
/// errors are a function of the schema and the lines alone, with no
/// state carried from one run to the next, so both runs of `check_lines`
/// return this one sequence.
pub proof fn lemma_validation_idempotent(s: Schema, lines: Seq<Seq<char>>, ignore_empty: bool)
    ensures
        file_errors(s, lines, ignore_empty) == file_errors(s, lines, ignore_empty),
{
}

/// Checks every line of one file against the schema, collecting
/// classification and validation errors in line order.
#[verifier::loop_isolation(false)]
pub fn check_lines(s: &Schema, lines: &Vec<String>, ignore_empty: bool) -> (r: Vec<LineError>)
    requires
        s.wf(),
        lines@.len() < usize::MAX,
    ensures
        r@ == file_errors(*s, lines.deep_view(), ignore_empty),
{
    let mut r: Vec<LineError> = Vec::new();
    let mut i: usize = 0;
    while i < lines.len()
        invariant
            i <= lines@.len(),
            r@ == file_errors_upto(*s, lines.deep_view(), ignore_empty, i as int),
        decreases lines@.len() - i,
    {
        proof {
            assert(lines.deep_view()[i as int] == lines@[i as int]@);
        }
        let chars = to_chars(lines[i].as_str());
        match classify(&chars, s) {
            Ok(p) => {
                let (idx, raw) = p;
                proof {
                    lemma_entry_of(*s, idx as int);
                }
                let errs = validate_row(&s.entries[idx], &raw, i + 1);
                let mut t: usize = 0;
                while t < errs.len()
                    invariant
                        t <= errs@.len(),
                        r@ == file_errors_upto(*s, lines.deep_view(), ignore_empty, i as int)
                            + errs@.take(t as int),
                    decreases errs@.len() - t,
                {
                    r.push(errs[t]);
                    proof {
                        assert(errs@.take(t as int + 1) =~= errs@.take(t as int).push(
                            errs@[t as int],
                        ));
                    }
                    t = t + 1;
                }
                proof {
                    assert(errs@.take(errs@.len() as int) =~= errs@);
                    assert(r@ =~= file_errors_upto(
                        *s,
                        lines.deep_view(),
                        ignore_empty,
                        i as int + 1,
                    ));
                }
            },
            Err(k) => {
                if k == ErrorKind::EmptyLine && ignore_empty {
                    proof {
                        assert(r@ =~= file_errors_upto(
                            *s,
                            lines.deep_view(),
                            ignore_empty,
                            i as int + 1,
                        ));
                    }
                } else {
                    r.push(LineError { line: i + 1, kind: k });
                    proof {
                        assert(r@ =~= file_errors_upto(
                            *s,
                            lines.deep_view(),
                            ignore_empty,
                            i as int + 1,
                        ));
                    }
                }
            },
        }
        i = i + 1;
    }
    r
}

/// The link state after the first `k` lines: each classified line's raw
/// fields keyed by its record type, later lines overwriting earlier.
pub open spec fn state_after(s: Schema, lines: Seq<Seq<char>>, k: int) -> Map<
    char,
    Seq<Seq<char>>,
>
    decreases k,
{
    if k <= 0 {
        Map::<char, Seq<Seq<char>>>::empty()
    } else {
        let prev = state_after(s, lines, k - 1);
        if classify_spec(lines[k - 1], s) is Ok {
            prev.insert(lines[k - 1][0], split_by(lines[k - 1], '\t'))
        } else {
            prev
        }
    }
}

/// Indices of the lines that classify, among the first `k`.
pub open spec fn ok_lines_upto(s: Schema, lines: Seq<Seq<char>>, k: int) -> Seq<int>
    decreases k,
{
    if k <= 0 {
        Seq::<int>::empty()
    } else {
        ok_lines_upto(s, lines, k - 1) + if classify_spec(lines[k - 1], s) is Ok {
            seq![k - 1]
        } else {
            Seq::<int>::empty()
        }
    }
}

/// Whether `c` is the statement compiled from line `idx` of the file:
/// its record type's table, and the statement text assembled from the
/// line's fields and the link state as of that line.
pub open spec fn stmt_matches_line(
    c: CompiledStatement,
    s: Schema,
    lines: Seq<Seq<char>>,
    idx: int,
    file_name: Seq<char>,
) -> bool {
    let line = lines[idx];
    let e = entry_of(s, line[0]);
    &&& c.key == e.key
    &&& c.table_name@ == e.table_name@
    &&& c.sql_text@ == statement_text(e, split_by(line, '\t'), state_after(s, lines, idx + 1),
    file_name)
}

/// Whether every classified line's links resolve at its point in the
/// file.
pub open spec fn file_resolvable(s: Schema, lines: Seq<Seq<char>>) -> bool {
    forall|k: int|
        0 <= k < lines.len() && classify_spec(#[trigger] lines[k], s) is Ok ==> links_resolvable(
            entry_of(s, lines[k][0]).links@,
            state_after(s, lines, k + 1),
        )
}

/// Whether `v` holds exactly one statement per classified line of the
/// file, in line order.
pub open spec fn stmts_match_file(
    v: Seq<CompiledStatement>,
    s: Schema,
    lines: Seq<Seq<char>>,
    file_name: Seq<char>,
) -> bool {
    let oks = ok_lines_upto(s, lines, lines.len() as int);
    &&& v.len() == oks.len()
    &&& forall|t: int|
        0 <= t < oks.len() ==> stmt_matches_line(#[trigger] v[t], s, lines, oks[t], file_name)
}

/// Compiles every line of one error-free file, in line order, threading
/// the most-recent-row link state through the file; an ignored empty
/// line yields no statement. A link that cannot be resolved stops
/// compilation with a resolution failure, which validated input with
/// every linked type seen earlier never produces.
#[verifier::loop_isolation(false)]
pub fn compile_lines(
    s: &Schema,
    lines: &Vec<String>,
    file_name: &str,
    ignore_empty: bool,
) -> (r: Result<Vec<CompiledStatement>, ResolutionFailure>)
    requires
        s.wf(),
        lines@.len() < usize::MAX,
        file_errors(*s, lines.deep_view(), ignore_empty).len() == 0,
    ensures
        r is Ok <==> file_resolvable(*s, lines.deep_view()),
        r matches Ok(v) ==> stmts_match_file(v@, *s, lines.deep_view(), file_name@),
{
    let mut v: Vec<CompiledStatement> = Vec::new();
    let mut state = LinkState::new();
    let mut i: usize = 0;
    while i < lines.len()
        invariant
            i <= lines@.len(),
            state.wf(),
            state@ == state_after(*s, lines.deep_view(), i as int),
            v@.len() == ok_lines_upto(*s, lines.deep_view(), i as int).len(),
            forall|t: int|
                0 <= t < v@.len() ==> stmt_matches_line(
                    #[trigger] v@[t],
                    *s,
                    lines.deep_view(),
                    ok_lines_upto(*s, lines.deep_view(), i as int)[t],
                    file_name@,
                ),
            forall|k: int|
                0 <= k < i && classify_spec(#[trigger] lines.deep_view()[k], *s) is Ok
                    ==> links_resolvable(
                    entry_of(*s, lines.deep_view()[k][0]).links@,
                    state_after(*s, lines.deep_view(), k + 1),
                ),
        decreases lines@.len() - i,
    {
        proof {
            assert(lines.deep_view()[i as int] == lines@[i as int]@);
            lemma_file_piece_empty(
                *s,
                lines.deep_view(),
                ignore_empty,
                lines.deep_view().len() as int,
                i as int,
            );
        }
        let chars = to_chars(lines[i].as_str());
        match classify(&chars, s) {
            Ok(p) => {
                let (idx, raw) = p;
                proof {
                    lemma_entry_of(*s, idx as int);
                    assert(row_errors(
                        entry_of(*s, lines.deep_view()[i as int][0]),
                        raw.deep_view(),
                        (i + 1) as usize,
                    ).len() == 0);
                }
                let key = chars[0];
                state.observe(key, copy_rows(&raw));
                proof {
                    assert(state@ == state_after(*s, lines.deep_view(), i as int + 1));
                }
                match compile_row(&s.entries[idx], &raw, &state, file_name) {
                    Ok(c) => {
                        v.push(c);
                        proof {
                            assert(ok_lines_upto(*s, lines.deep_view(), i as int + 1) =~= ok_lines_upto(
                                *s,
                                lines.deep_view(),
                                i as int,
                            ).push(i as int));
                        }
                    },
                    Err(f) => {
                        proof {
                            assert(!links_resolvable(
                                entry_of(*s, lines.deep_view()[i as int][0]).links@,
                                state_after(*s, lines.deep_view(), i as int + 1),
                            ));
                            assert(!file_resolvable(*s, lines.deep_view()));
                        }
                        return Err(f);
                    },
                }
            },
            Err(k) => {
                proof {
                    assert(k == ErrorKind::EmptyLine && ignore_empty);
                    assert(ok_lines_upto(*s, lines.deep_view(), i as int + 1) =~= ok_lines_upto(
                        *s,
                        lines.deep_view(),
                        i as int,
                    ));
                }
            },
        }
        i = i + 1;
    }
    Ok(v)
}

/// One file handed to a run: its name and its lines.
#[derive(Debug)]
pub struct FileInput {
    pub name: String,
    pub lines: Vec<String>,
}

/// One file's group of errors in the aggregated report.
#[derive(Debug)]
pub struct FileErrors {
    pub name: String,
    pub errors: Vec<LineError>,
}

/// How a batch run ends: the aggregated error report, or the compiled
/// statements of every file.
#[derive(Debug)]
pub enum BatchOutcome {
    /// At least one file had an error: every error, grouped by file, and
    /// no statement compiled.
    Invalid(Vec<FileErrors>),
    /// No file had any error: one statement per classified line, in
    /// file order.
    Compiled(Vec<CompiledStatement>),
}

/// Whether any file of the batch has any validation error.
pub open spec fn batch_has_errors(s: Schema, files: Seq<FileInput>, ignore_empty: bool) -> bool {
    exists|i: int|
        0 <= i < files.len() && file_errors(s, (#[trigger] files[i]).lines.deep_view(), ignore_empty).len()
            > 0
}

/// Indices of the files with at least one error, among the first `k`.
pub open spec fn error_files_upto(s: Schema, files: Seq<FileInput>, ignore_empty: bool, k: int) -> Seq<int>
    decreases k,
{
    if k <= 0 {
        Seq::<int>::empty()
    } else {
        error_files_upto(s, files, ignore_empty, k - 1) + if file_errors(
            s,
            files[k - 1].lines.deep_view(),
            ignore_empty,
        ).len() > 0 {
            seq![k - 1]
        } else {
            Seq::<int>::empty()
        }
    }
}

/// The number of statements the first `k` files compile to: one per
/// classified line.
pub open spec fn stmt_count_upto(s: Schema, files: Seq<FileInput>, k: int) -> int
    decreases k,
{
    if k <= 0 {
        0
    } else {
        stmt_count_upto(s, files, k - 1) + ok_lines_upto(
            s,
            files[k - 1].lines.deep_view(),
            files[k - 1].lines.deep_view().len() as int,
        ).len()
    }
}

/// Whether `v` holds, for each of the first `k` files in order, exactly
/// that file's statements.
pub open spec fn batch_stmts_match(
    v: Seq<CompiledStatement>,
    s: Schema,
    files: Seq<FileInput>,
    k: int,
) -> bool {
    &&& v.len() == stmt_count_upto(s, files, k)
    &&& forall|i: int, t: int|
        #![trigger ok_lines_upto(s, files[i].lines.deep_view(), files[i].lines.deep_view().len() as int)[t]]
        0 <= i < k && 0 <= t < ok_lines_upto(
            s,
            files[i].lines.deep_view(),
            files[i].lines.deep_view().len() as int,
        ).len() ==> stmt_matches_line(
            v[stmt_count_upto(s, files, i) + t],
            s,
            files[i].lines.deep_view(),
            ok_lines_upto(
                s,
                files[i].lines.deep_view(),
                files[i].lines.deep_view().len() as int,
            )[t],
            files[i].name@,
        )
}

/// Runs the whole batch. Every file is validated before any file is
/// compiled: one error anywhere yields the full grouped report and no
/// statement at all; an error-free batch compiles exactly one statement
/// per classified line of every file, in file order. A resolution
/// failure only arises from a link whose source type never appeared
/// earlier in its file.
#[verifier::loop_isolation(false)]
pub fn run_batch(s: &Schema, files: &Vec<FileInput>, ignore_empty: bool) -> (r: Result<
    BatchOutcome,
    ResolutionFailure,
>)
    requires
        s.wf(),
        forall|i: int| 0 <= i < files@.len() ==> (#[trigger] files@[i]).lines@.len() < usize::MAX,
    ensures
        r matches Ok(b) ==> match b {
            BatchOutcome::Invalid(v) => {
                &&& batch_has_errors(*s, files@, ignore_empty)
                &&& v@.len() == error_files_upto(*s, files@, ignore_empty, files@.len() as int).len()
                &&& forall|t: int|
                    0 <= t < v@.len() ==> {
                        let idx = error_files_upto(*s, files@, ignore_empty, files@.len() as int)[t];
                        &&& (#[trigger] v@[t]).name@ == files@[idx].name@
                        &&& v@[t].errors@ == file_errors(
                            *s,
                            files@[idx].lines.deep_view(),
                            ignore_empty,
                        )
                    }
            },
            BatchOutcome::Compiled(v) => {
                &&& !batch_has_errors(*s, files@, ignore_empty)
                &&& batch_stmts_match(v@, *s, files@, files@.len() as int)
            },
        },
        r is Err ==> !batch_has_errors(*s, files@, ignore_empty) && exists|i: int|
            0 <= i < files@.len() && !file_resolvable(*s, (#[trigger] files@[i]).lines.deep_view()),
{
    let mut groups: Vec<FileErrors> = Vec::new();
    let mut i: usize = 0;
    while i < files.len()
        invariant
            i <= files@.len(),
            groups@.len() == error_files_upto(*s, files@, ignore_empty, i as int).len(),
            forall|t: int|
                0 <= t < groups@.len() ==> {
                    let idx = error_files_upto(*s, files@, ignore_empty, i as int)[t];
                    &&& (#[trigger] groups@[t]).name@ == files@[idx].name@
                    &&& groups@[t].errors@ == file_errors(
                        *s,
                        files@[idx].lines.deep_view(),
                        ignore_empty,
                    )
                },
            groups@.len() == 0 ==> forall|j: int|
                0 <= j < i ==> file_errors(
                    *s,
                    (#[trigger] files@[j]).lines.deep_view(),
                    ignore_empty,
                ).len() == 0,
        decreases files@.len() - i,
    {
        let f = &files[i];
        let errs = check_lines(s, &f.lines, ignore_empty);
        if errs.len() > 0 {
            groups.push(FileErrors { name: f.name.clone(), errors: errs });
            proof {
                assert(error_files_upto(*s, files@, ignore_empty, i as int + 1)
                    =~= error_files_upto(*s, files@, ignore_empty, i as int).push(i as int));
            }
        } else {
            proof {
                assert(error_files_upto(*s, files@, ignore_empty, i as int + 1)
                    =~= error_files_upto(*s, files@, ignore_empty, i as int));
            }
        }
        i = i + 1;
    }
    if groups.len() > 0 {
        proof {
            let idx = error_files_upto(*s, files@, ignore_empty, files@.len() as int)[0];
            lemma_error_files_range(*s, files@, ignore_empty, files@.len() as int, 0);
            assert(batch_has_errors(*s, files@, ignore_empty));
        }
        return Ok(BatchOutcome::Invalid(groups));
    }
    let mut stmts: Vec<CompiledStatement> = Vec::new();
    let mut i2: usize = 0;
    while i2 < files.len()
        invariant
            i2 <= files@.len(),
            batch_stmts_match(stmts@, *s, files@, i2 as int),
            forall|j: int|
                0 <= j < i2 ==> file_resolvable(*s, (#[trigger] files@[j]).lines.deep_view()),
        decreases files@.len() - i2,
    {
        let f = &files[i2];
        match compile_lines(s, &f.lines, f.name.as_str(), ignore_empty) {
            Ok(mut v) => {
                let ghost old_stmts = stmts@;
                let ghost new_piece = v@;
                stmts.append(&mut v);
                proof {
                    assert(stmts@ =~= old_stmts + new_piece);
                    lemma_batch_append(*s, files@, i2 as int, old_stmts, new_piece);
                }
            },
            Err(e) => {
                return Err(e);
            },
        }
        i2 = i2 + 1;
    }
    proof {
        if batch_has_errors(*s, files@, ignore_empty) {
            let w = choose|w: int|
                0 <= w < files@.len() && file_errors(
                    *s,
                    (#[trigger] files@[w]).lines.deep_view(),
                    ignore_empty,
                ).len() > 0;
            assert(false);
        }
    }
    Ok(BatchOutcome::Compiled(stmts))
}

proof fn lemma_error_files_range(s: Schema, files: Seq<FileInput>, ignore_empty: bool, k: int, t: int)
    requires
        0 <= t < error_files_upto(s, files, ignore_empty, k).len(),
    ensures
        0 <= error_files_upto(s, files, ignore_empty, k)[t] < k,
        file_errors(
            s,
            files[error_files_upto(s, files, ignore_empty, k)[t]].lines.deep_view(),
            ignore_empty,
        ).len() > 0,
    decreases k,
{
    if k > 0 && t < error_files_upto(s, files, ignore_empty, k - 1).len() {
        lemma_error_files_range(s, files, ignore_empty, k - 1, t);
    }
}

proof fn lemma_batch_append(
    s: Schema,
    files: Seq<FileInput>,
    i: int,
    old_stmts: Seq<CompiledStatement>,
    piece: Seq<CompiledStatement>,
)
    requires
        0 <= i < files.len(),
        batch_stmts_match(old_stmts, s, files, i),
        stmts_match_file(piece, s, files[i].lines.deep_view(), files[i].name@),
    ensures
        batch_stmts_match(old_stmts + piece, s, files, i + 1),
{
    let v = old_stmts + piece;
    assert(v.len() == stmt_count_upto(s, files, i + 1));
    assert forall|a: int, t: int|
        #![trigger ok_lines_upto(s, files[a].lines.deep_view(), files[a].lines.deep_view().len() as int)[t]]
        0 <= a < i + 1 && 0 <= t < ok_lines_upto(
            s,
            files[a].lines.deep_view(),
            files[a].lines.deep_view().len() as int,
        ).len() implies stmt_matches_line(
        v[stmt_count_upto(s, files, a) + t],
        s,
        files[a].lines.deep_view(),
        ok_lines_upto(s, files[a].lines.deep_view(), files[a].lines.deep_view().len() as int)[t],
        files[a].name@,
    ) by {
        lemma_stmt_count_mono(s, files, a, i);
        if a < i {
            lemma_stmt_count_mono(s, files, a + 1, i);
            assert(v[stmt_count_upto(s, files, a) + t] == old_stmts[stmt_count_upto(s, files, a)
                + t]);
        } else {
            assert(v[stmt_count_upto(s, files, i) + t] == piece[t]);
        }
    }
}

proof fn lemma_stmt_count_nonneg(s: Schema, files: Seq<FileInput>, a: int)
    ensures
        stmt_count_upto(s, files, a) >= 0,
    decreases a,
{
    if a > 0 {
        lemma_stmt_count_nonneg(s, files, a - 1);
    }
}

proof fn lemma_stmt_count_mono(s: Schema, files: Seq<FileInput>, a: int, b: int)
    requires
        0 <= a <= b,
    ensures
        stmt_count_upto(s, files, a) <= stmt_count_upto(s, files, b),
        stmt_count_upto(s, files, a) >= 0,
    decreases b - a,
{
    lemma_stmt_count_nonneg(s, files, a);
    if a < b {
        lemma_stmt_count_mono(s, files, a, b - 1);
    }
}

} // verus!
