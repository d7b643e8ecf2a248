//! Statement compilation: a validated row becomes one INSERT statement
//! for its record type's destination table, with declared columns first,
//! provenance columns for the primary record type, then link columns,
//! and two cleanup passes on the assembled text.

use vstd::prelude::*;
use crate::schema::{FieldKind, FieldSpec, LinkSpec, SchemaEntry};
use crate::link::LinkState;
use crate::text::{push_str, push_chars, chars_to_string, split_by, split_chars, sub_chars};

verus! {

/// The record type that receives the two implicit provenance columns:
/// the originating file name and its derived batch tag.
pub const PRIMARY_KEY: char = 'H';

/// One compiled statement and where it belongs.
#[derive(Debug)]
pub struct CompiledStatement {
    /// Record-type key of the row it came from.
    pub key: char,
    /// Destination table identifier.
    pub table_name: String,
    /// The full INSERT statement text.
    pub sql_text: String,
}

/// A link that could not be resolved: its source type was never seen in
/// the file, or its column index is beyond that row's fields. Only
/// reachable when compiling data that did not validate, so it marks an
/// internal-invariant violation rather than a data error.
#[derive(PartialEq, Eq, Structural, Debug, Clone, Copy)]
pub struct ResolutionFailure {
    pub source_key: char,
    pub source_column_index: usize,
}

/// `s` with a backslash inserted before every single quote.
pub open spec fn escape_quotes(s: Seq<char>) -> Seq<char>
    decreases s.len(),
{
    if s.len() == 0 {
        Seq::<char>::empty()
    } else {
        escape_quotes(s.drop_last()) + if s.last() == '\'' {
            seq!['\\', '\'']
        } else {
            seq![s.last()]
        }
    }
}

/// `s` with at most one trailing and then at most one leading double
/// quote removed: an artifact of the source format's optional quoting.
pub open spec fn strip_outer_dquotes(s: Seq<char>) -> Seq<char> {
    let a = if s.len() > 0 && s.last() == '"' {
        s.drop_last()
    } else {
        s
    };
    if a.len() > 0 && a[0] == '"' {
        a.skip(1)
    } else {
        a
    }
}

/// The emitted SQL text for one field value: numbers verbatim and never
/// quote-wrapped; every other kind quote-wrapped after escaping single
/// quotes and shedding outer double quotes.
pub open spec fn value_text(kind: FieldKind, v: Seq<char>) -> Seq<char> {
    if kind == FieldKind::Number {
        v
    } else {
        "'"@ + strip_outer_dquotes(escape_quotes(v)) + "'"@
    }
}

/// Every single quote in an escaped value is directly preceded by a
/// backslash, and a number value passes through verbatim.
pub proof fn lemma_quoting(kind: FieldKind, v: Seq<char>)
    ensures
        kind == FieldKind::Number ==> value_text(kind, v) == v,
        forall|i: int|
            0 <= i < escape_quotes(v).len() && #[trigger] escape_quotes(v)[i] == '\'' ==> i > 0
                && escape_quotes(v)[i - 1] == '\\',
    decreases v.len(),
{
    if v.len() > 0 {
        lemma_quoting(kind, v.drop_last());
        let e = escape_quotes(v);
        let ep = escape_quotes(v.drop_last());
        assert forall|i: int| 0 <= i < e.len() && #[trigger] e[i] == '\'' implies i > 0 && e[i - 1]
            == '\\' by {
            if i < ep.len() {
                assert(e[i] == ep[i]);
                assert(e[i - 1] == ep[i - 1]);
            } else {
                if v.last() == '\'' {
                    assert(e[ep.len() as int] == '\\');
                    assert(e[ep.len() as int + 1] == '\'');
                } else {
                    assert(e[ep.len() as int] == v.last());
                }
            }
        }
    }
}

/// `acc` with every trailing comma removed.
pub open spec fn pop_commas(acc: Seq<char>) -> Seq<char>
    decreases acc.len(),
{
    if acc.len() > 0 && acc.last() == ',' {
        pop_commas(acc.drop_last())
    } else {
        acc
    }
}

/// One step of the cleanup pass: a comma after a comma is dropped, and a
/// closing parenthesis first discards the commas directly before it.
pub open spec fn cleanup_push(acc: Seq<char>, c: char) -> Seq<char> {
    if c == ',' && acc.len() > 0 && acc.last() == ',' {
        acc
    } else if c == ')' {
        pop_commas(acc).push(')')
    } else {
        acc.push(c)
    }
}

/// The statement text after the cleanup passes: every `,,` collapses to
/// a single comma, and every comma directly before a `)` is dropped.
pub open spec fn cleanup_text(s: Seq<char>) -> Seq<char>
    decreases s.len(),
{
    if s.len() == 0 {
        Seq::<char>::empty()
    } else {
        cleanup_push(cleanup_text(s.drop_last()), s.last())
    }
}

/// The two-character pattern `a b` occurs in `s` at position `i`.
pub open spec fn occurs_at(s: Seq<char>, a: char, b: char, i: int) -> bool {
    0 <= i && i + 1 < s.len() && s[i] == a && s[i + 1] == b
}

/// The two-character pattern `a b` occurs nowhere in `s`.
pub open spec fn no_pair(s: Seq<char>, a: char, b: char) -> bool {
    forall|i: int| !occurs_at(s, a, b, i)
}

proof fn lemma_push_pairs(t: Seq<char>, c: char, a: char, b: char)
    requires
        no_pair(t, a, b),
        !(t.len() > 0 && t.last() == a && c == b),
    ensures
        no_pair(t.push(c), a, b),
{
    assert forall|i: int| !occurs_at(t.push(c), a, b, i) by {
        if occurs_at(t.push(c), a, b, i) {
            if i + 1 < t.len() {
                assert(occurs_at(t, a, b, i));
            }
        }
    }
}

proof fn lemma_pop_commas_clean(t: Seq<char>, a: char, b: char)
    requires
        no_pair(t, a, b),
    ensures
        no_pair(pop_commas(t), a, b),
        pop_commas(t).len() > 0 ==> pop_commas(t).last() != ',',
    decreases t.len(),
{
    if t.len() > 0 && t.last() == ',' {
        assert forall|i: int| !occurs_at(t.drop_last(), a, b, i) by {
            if occurs_at(t.drop_last(), a, b, i) {
                assert(occurs_at(t, a, b, i));
            }
        }
        lemma_pop_commas_clean(t.drop_last(), a, b);
    }
}

/// The cleanup passes leave no dangling `,,` and no dangling `,)`
/// anywhere in the final text, whatever empty trailing fields put into
/// the assembled statement.
pub proof fn lemma_cleanup_clean(s: Seq<char>)
    ensures
        no_pair(cleanup_text(s), ',', ','),
        no_pair(cleanup_text(s), ',', ')'),
    decreases s.len(),
{
    if s.len() > 0 {
        lemma_cleanup_clean(s.drop_last());
        let r = cleanup_text(s.drop_last());
        let c = s.last();
        if c == ',' && r.len() > 0 && r.last() == ',' {
        } else if c == ')' {
            lemma_pop_commas_clean(r, ',', ',');
            lemma_pop_commas_clean(r, ',', ')');
            lemma_push_pairs(pop_commas(r), ')', ',', ',');
            lemma_push_pairs(pop_commas(r), ')', ',', ')');
        } else {
            lemma_push_pairs(r, c, ',', ',');
            lemma_push_pairs(r, c, ',', ')');
        }
    }
}

/// Runs the cleanup passes over an assembled statement text.
#[verifier::loop_isolation(false)]
pub fn cleanup(s: &Vec<char>) -> (r: Vec<char>)
    ensures
        r@ == cleanup_text(s@),
{
    let mut out: Vec<char> = Vec::new();
    let mut i: usize = 0;
    while i < s.len()
        invariant
            i <= s@.len(),
            out@ == cleanup_text(s@.take(i as int)),
        decreases s@.len() - i,
    {
        let c = s[i];
        proof {
            assert(s@.take(i as int + 1).drop_last() =~= s@.take(i as int));
            assert(s@.take(i as int + 1).last() == s@[i as int]);
        }
        let ghost target = cleanup_text(s@.take(i as int));
        if c == ',' && out.len() > 0 && out[out.len() - 1] == ',' {
        } else if c == ')' {
            while out.len() > 0 && out[out.len() - 1] == ','
                invariant
                    pop_commas(out@) == pop_commas(target),
                decreases out@.len(),
            {
                out.pop();
            }
            out.push(')');
        } else {
            out.push(c);
        }
        i = i + 1;
    }
    proof {
        assert(s@.take(s@.len() as int) =~= s@);
    }
    out
}

/// The batch tag derived from a file name: the last four characters of
/// the part before the first `.`, or all of it when it is shorter.
pub open spec fn quarter_tag(name: Seq<char>) -> Seq<char> {
    let stem = split_by(name, '.')[0];
    if stem.len() >= 4 {
        stem.skip(stem.len() - 4)
    } else {
        stem
    }
}

/// Derives the batch tag of a file name.
pub fn quarter_chars(name: &Vec<char>) -> (r: Vec<char>)
    ensures
        r@ == quarter_tag(name@),
{
    let pieces = split_chars(name, '.');
    proof {
        assert(pieces.deep_view()[0] == pieces@[0]@);
    }
    let stem = &pieces[0];
    if stem.len() >= 4 {
        let r = sub_chars(stem, stem.len() - 4, stem.len());
        proof {
            assert(r@ =~= quarter_tag(name@));
        }
        r
    } else {
        sub_chars(stem, 0, stem.len())
    }
}

/// The column-list text of the declared fields: `"name",` for each.
pub open spec fn columns_text(fields: Seq<FieldSpec>) -> Seq<char>
    decreases fields.len(),
{
    if fields.len() == 0 {
        Seq::<char>::empty()
    } else {
        columns_text(fields.drop_last()) + "\""@ + fields.last().name@ + "\","@
    }
}

/// The column-list text of the links: `,"name",` for each.
pub open spec fn link_columns_text(links: Seq<LinkSpec>) -> Seq<char>
    decreases links.len(),
{
    if links.len() == 0 {
        Seq::<char>::empty()
    } else {
        link_columns_text(links.drop_last()) + ",\""@ + links.last().output_column@ + "\","@
    }
}

/// The value-list text of the first `k` declared fields, each emitted
/// value followed by a comma; field `j` takes raw field `j + 1`.
pub open spec fn values_text(fields: Seq<FieldSpec>, raw: Seq<Seq<char>>, k: int) -> Seq<char>
    decreases k,
{
    if k <= 0 {
        Seq::<char>::empty()
    } else {
        values_text(fields, raw, k - 1) + value_text(fields[k - 1].kind, raw[k]) + ","@
    }
}

/// Whether one link resolves in state `m`.
pub open spec fn link_resolvable(l: LinkSpec, m: Map<char, Seq<Seq<char>>>) -> bool {
    m.contains_key(l.source_key) && l.source_column_index < m[l.source_key].len()
}

/// Whether every link of the sequence resolves in state `m`.
pub open spec fn links_resolvable(links: Seq<LinkSpec>, m: Map<char, Seq<Seq<char>>>) -> bool {
    forall|k: int| 0 <= k < links.len() ==> link_resolvable(#[trigger] links[k], m)
}

/// The value-list text of the links: `,'value',` for each, the value
/// copied from the most recent row of the link's source type.
pub open spec fn link_values_text(links: Seq<LinkSpec>, m: Map<char, Seq<Seq<char>>>) -> Seq<char>
    decreases links.len(),
{
    if links.len() == 0 {
        Seq::<char>::empty()
    } else {
        link_values_text(links.drop_last(), m) + ",'"@ + m[links.last().source_key][
            links.last().source_column_index as int
        ] + "',"@
    }
}

/// The provenance column-list text of the primary record type.
pub open spec fn provenance_columns(key: char) -> Seq<char> {
    if key == PRIMARY_KEY {
        ",\"hdrFileName\",\"hdrFileQuarter\","@
    } else {
        Seq::<char>::empty()
    }
}

/// The provenance value text of the primary record type: the file name
/// and its batch tag.
pub open spec fn provenance_values(key: char, file_name: Seq<char>) -> Seq<char> {
    if key == PRIMARY_KEY {
        ", '"@ + file_name + "', '"@ + quarter_tag(file_name) + "',"@
    } else {
        Seq::<char>::empty()
    }
}

/// The assembled statement text before the cleanup passes.
pub open spec fn statement_raw(
    e: SchemaEntry,
    raw: Seq<Seq<char>>,
    m: Map<char, Seq<Seq<char>>>,
    file_name: Seq<char>,
) -> Seq<char> {
    "INSERT INTO "@ + e.table_name@ + " ( "@ + columns_text(e.fields@) + provenance_columns(e.key)
        + link_columns_text(e.links@) + ") VALUES ("@ + values_text(
        e.fields@,
        raw,
        e.fields@.len() as int,
    ) + provenance_values(e.key, file_name) + link_values_text(e.links@, m) + ")"@
}

/// The full compiled statement text: the raw assembly after cleanup.
pub open spec fn statement_text(
    e: SchemaEntry,
    raw: Seq<Seq<char>>,
    m: Map<char, Seq<Seq<char>>>,
    file_name: Seq<char>,
) -> Seq<char> {
    cleanup_text(statement_raw(e, raw, m, file_name))
}

fn escape_strip(v: &Vec<char>) -> (r: Vec<char>)
    ensures
        r@ == strip_outer_dquotes(escape_quotes(v@)),
{
    let mut esc: Vec<char> = Vec::new();
    let mut k: usize = 0;
    while k < v.len()
        invariant
            k <= v@.len(),
            esc@ == escape_quotes(v@.take(k as int)),
        decreases v@.len() - k,
    {
        let c = v[k];
        proof {
            assert(v@.take(k as int + 1).drop_last() =~= v@.take(k as int));
            assert(v@.take(k as int + 1).last() == v@[k as int]);
        }
        if c == '\'' {
            esc.push('\\');
            esc.push('\'');
        } else {
            esc.push(c);
        }
        k = k + 1;
    }
    proof {
        assert(v@.take(v@.len() as int) =~= v@);
    }
    if esc.len() > 0 && esc[esc.len() - 1] == '"' {
        esc.pop();
    }
    if esc.len() > 0 && esc[0] == '"' {
        let r = sub_chars(&esc, 1, esc.len());
        proof {
            assert(r@ =~= strip_outer_dquotes(escape_quotes(v@)));
        }
        r
    } else {
        proof {
            assert(esc@ =~= strip_outer_dquotes(escape_quotes(v@)));
        }
        esc
    }
}

/// Compiles one validated row into an INSERT statement for its record
/// type's destination table. Assumes the row already passed validation;
/// an unresolvable link (a source type never seen, or an index past its
/// row) is reported as a resolution failure, which validated input with
/// every linked type seen earlier in the file never produces.
#[verifier::loop_isolation(false)]
#[verifier::rlimit(30)]
pub fn compile_row(
    e: &SchemaEntry,
    raw: &Vec<Vec<char>>,
    state: &LinkState,
    file_name: &str,
) -> (r: Result<CompiledStatement, ResolutionFailure>)
    requires
        state.wf(),
        raw.deep_view().len() >= e.fields@.len() + 1,
    ensures
        r is Ok <==> links_resolvable(e.links@, state@),
        r matches Ok(c) ==> {
            &&& c.key == e.key
            &&& c.table_name@ == e.table_name@
            &&& c.sql_text@ == statement_text(*e, raw.deep_view(), state@, file_name@)
        },
        r matches Err(f) ==> exists|k: int|
            {
                &&& 0 <= k < e.links@.len()
                &&& !link_resolvable(#[trigger] e.links@[k], state@)
                &&& forall|j: int| 0 <= j < k ==> link_resolvable(#[trigger] e.links@[j], state@)
                &&& f.source_key == e.links@[k].source_key
                &&& f.source_column_index == e.links@[k].source_column_index
            },
{
    let mut out: Vec<char> = Vec::new();
    push_str(&mut out, "INSERT INTO ");
    push_str(&mut out, e.table_name.as_str());
    push_str(&mut out, " ( ");
    let ghost head_cols = "INSERT INTO "@ + e.table_name@ + " ( "@;
    proof {
        assert(out@ =~= head_cols);
    }
    let mut k: usize = 0;
    while k < e.fields.len()
        invariant
            k <= e.fields@.len(),
            out@ == head_cols + columns_text(e.fields@.take(k as int)),
        decreases e.fields@.len() - k,
    {
        push_str(&mut out, "\"");
        push_str(&mut out, e.fields[k].name.as_str());
        push_str(&mut out, "\",");
        proof {
            assert(e.fields@.take(k as int + 1).drop_last() =~= e.fields@.take(k as int));
            assert(out@ =~= head_cols + columns_text(e.fields@.take(k as int + 1)));
        }
        k = k + 1;
    }
    proof {
        assert(e.fields@.take(e.fields@.len() as int) =~= e.fields@);
    }
    if e.key == PRIMARY_KEY {
        push_str(&mut out, ",\"hdrFileName\",\"hdrFileQuarter\",");
    }
    let ghost head_links = head_cols + columns_text(e.fields@) + provenance_columns(e.key);
    proof {
        assert(out@ =~= head_links);
    }
    let mut k2: usize = 0;
    while k2 < e.links.len()
        invariant
            k2 <= e.links@.len(),
            out@ == head_links + link_columns_text(e.links@.take(k2 as int)),
        decreases e.links@.len() - k2,
    {
        push_str(&mut out, ",\"");
        push_str(&mut out, e.links[k2].output_column.as_str());
        push_str(&mut out, "\",");
        proof {
            assert(e.links@.take(k2 as int + 1).drop_last() =~= e.links@.take(k2 as int));
            assert(out@ =~= head_links + link_columns_text(e.links@.take(k2 as int + 1)));
        }
        k2 = k2 + 1;
    }
    proof {
        assert(e.links@.take(e.links@.len() as int) =~= e.links@);
    }
    push_str(&mut out, ") VALUES (");
    let ghost head_vals = head_links + link_columns_text(e.links@) + ") VALUES ("@;
    proof {
        assert(out@ =~= head_vals);
    }
    let mut k3: usize = 0;
    while k3 < e.fields.len()
        invariant
            k3 <= e.fields@.len(),
            out@ == head_vals + values_text(e.fields@, raw.deep_view(), k3 as int),
        decreases e.fields@.len() - k3,
    {
        let v = &raw[k3 + 1];
        proof {
            assert(raw.deep_view()[k3 as int + 1] == raw@[k3 as int + 1]@);
        }
        if e.fields[k3].kind == FieldKind::Number {
            push_chars(&mut out, v);
        } else {
            push_str(&mut out, "'");
            let esc = escape_strip(v);
            push_chars(&mut out, &esc);
            push_str(&mut out, "'");
        }
        push_str(&mut out, ",");
        proof {
            assert(out@ =~= head_vals + values_text(e.fields@, raw.deep_view(), k3 as int + 1));
        }
        k3 = k3 + 1;
    }
    if e.key == PRIMARY_KEY {
        push_str(&mut out, ", '");
        push_str(&mut out, file_name);
        push_str(&mut out, "', '");
        let fchars = crate::text::to_chars(file_name);
        let q = quarter_chars(&fchars);
        push_chars(&mut out, &q);
        push_str(&mut out, "',");
    }
    let ghost head_link_vals = head_vals + values_text(
        e.fields@,
        raw.deep_view(),
        e.fields@.len() as int,
    ) + provenance_values(e.key, file_name@);
    proof {
        assert(out@ =~= head_link_vals);
    }
    let mut k4: usize = 0;
    while k4 < e.links.len()
        invariant
            k4 <= e.links@.len(),
            out@ == head_link_vals + link_values_text(e.links@.take(k4 as int), state@),
            forall|j: int| 0 <= j < k4 ==> link_resolvable(#[trigger] e.links@[j], state@),
        decreases e.links@.len() - k4,
    {
        let l = &e.links[k4];
        match state.resolve(l.source_key, l.source_column_index) {
            Some(v) => {
                push_str(&mut out, ",'");
                push_chars(&mut out, &v);
                push_str(&mut out, "',");
                proof {
                    assert(e.links@.take(k4 as int + 1).drop_last() =~= e.links@.take(k4 as int));
                    assert(out@ =~= head_link_vals + link_values_text(
                        e.links@.take(k4 as int + 1),
                        state@,
                    ));
                }
            },
            None => {
                return Err(
                    ResolutionFailure {
                        source_key: l.source_key,
                        source_column_index: l.source_column_index,
                    },
                );
            },
        }
        k4 = k4 + 1;
    }
    proof {
        assert(e.links@.take(e.links@.len() as int) =~= e.links@);
    }
    push_str(&mut out, ")");
    proof {
        assert(out@ =~= statement_raw(*e, raw.deep_view(), state@, file_name@));
    }
    let cleaned = cleanup(&out);
    Ok(
        CompiledStatement {
            key: e.key,
            table_name: e.table_name.clone(),
            sql_text: chars_to_string(&cleaned),
        },
    )
}

} // verus!
