//! The schema model: per-record-type field specifications, destination
//! tables and link declarations, loaded from a key-value configuration and
//! cross-checked for consistency.

use vstd::prelude::*;
use crate::text::{
    split_by, split_chars, chars_eq_str, chars_to_string, parse_usize, all_digits, digits_value,
    sub_chars,
};

verus! {

/// The declared type of one field, decided once at schema load.
#[derive(Clone, Copy, PartialEq, Eq, Structural, Debug)]
pub enum FieldKind {
    /// Declared `number`.
    Number,
    /// Declared `string`.
    Text,
    /// Declared `date`, with a format pattern.
    Date,
    /// Any other declared kind: no constraint applies.
    Unconstrained,
}

/// One declared field of a record type.
#[derive(Debug)]
pub struct FieldSpec {
    /// Output column name.
    pub name: String,
    /// Declared kind.
    pub kind: FieldKind,
    /// Whether a `*` modifier marked the field optional.
    pub optional: bool,
    /// Date format pattern; non-empty whenever `kind` is `Date`.
    pub date_format: String,
}

/// A column whose value is copied from the most recently seen row of
/// another record type.
#[derive(Debug)]
pub struct LinkSpec {
    /// Name of the column to emit in the generated statement.
    pub output_column: String,
    /// Record-type key whose most recent row supplies the value.
    pub source_key: char,
    /// Zero-based index into that row's raw fields.
    pub source_column_index: usize,
}

/// The full declaration for one record-type key.
#[derive(Debug)]
pub struct SchemaEntry {
    /// Record-type character, unique across the schema.
    pub key: char,
    /// Destination table identifier.
    pub table_name: String,
    /// Declared fields, in column order.
    pub fields: Vec<FieldSpec>,
    /// Declared links, in declaration order.
    pub links: Vec<LinkSpec>,
}

/// One key-value pair of a configuration section.
#[derive(Debug)]
pub struct KeyValue {
    pub key: String,
    pub value: String,
}

/// A fatal configuration defect: the whole run aborts before any file is
/// read.
#[derive(PartialEq, Eq, Debug)]
pub enum ConfigError {
    /// The count of declared column names differs from the count of
    /// declared field-type tokens for this key.
    ColumnCountMismatch(char),
    /// A record-type key is not a single character.
    InvalidKey(String),
    /// The same record-type key is declared twice.
    DuplicateKey(char),
    /// No column names are declared for this key.
    MissingColumnNames(char),
    /// No destination table is declared for this key.
    MissingTableName(char),
    /// A `date` field-type token has no format pattern.
    MissingDateFormat(char),
    /// A link declaration does not follow `column->K:index`.
    MalformedLink(char),
}

/// First value in `s` whose key reads as `key`.
pub open spec fn lookup_kv(s: Seq<KeyValue>, key: Seq<char>) -> Option<Seq<char>>
    decreases s.len(),
{
    if s.len() == 0 {
        None
    } else if s[0].key@ == key {
        Some(s[0].value@)
    } else {
        lookup_kv(s.skip(1), key)
    }
}

proof fn lemma_lookup_skip(s: Seq<KeyValue>, key: Seq<char>, i: int)
    requires
        0 <= i <= s.len(),
        forall|j: int| 0 <= j < i ==> s[j].key@ != key,
    ensures
        lookup_kv(s, key) == lookup_kv(s.skip(i), key),
    decreases i,
{
    if i > 0 {
        lemma_lookup_skip(s, key, i - 1);
        assert(s.skip(i - 1).len() > 0);
        assert(s.skip(i - 1)[0] == s[i - 1]);
        assert(s.skip(i - 1)[0].key@ != key);
        assert(s.skip(i - 1).skip(1) =~= s.skip(i));
        assert(lookup_kv(s.skip(i - 1), key) == lookup_kv(s.skip(i - 1).skip(1), key));
    } else {
        assert(s.skip(0) =~= s);
    }
}

/// Finds the first entry of `s` whose key reads as `key`.
pub fn lookup_section<'a>(s: &'a Vec<KeyValue>, key: &Vec<char>) -> (r: Option<&'a String>)
    ensures
        match r {
            Some(v) => lookup_kv(s@, key@) == Some(v@),
            None => lookup_kv(s@, key@) is None,
        },
{
    let mut i: usize = 0;
    while i < s.len()
        invariant
            i <= s@.len(),
            forall|j: int| 0 <= j < i ==> s@[j].key@ != key@,
        decreases s@.len() - i,
    {
        if chars_eq_str(key, s[i].key.as_str()) {
            proof {
                lemma_lookup_skip(s@, key@, i as int);
                assert(s@.skip(i as int)[0] == s@[i as int]);
            }
            return Some(&s[i].value);
        }
        i = i + 1;
    }
    proof {
        lemma_lookup_skip(s@, key@, s@.len() as int);
        assert(s@.skip(s@.len() as int) =~= Seq::<KeyValue>::empty());
    }
    None
}

/// The field-type tokens declared by a `+`-joined value.
pub open spec fn tokens_of(v: Seq<char>) -> Seq<Seq<char>> {
    split_by(v, '+')
}

/// The part of a token before any `|` delimiter.
pub open spec fn token_base(t: Seq<char>) -> Seq<char> {
    split_by(t, '|')[0]
}

/// The format pattern a token declares after `|`, empty when absent.
pub open spec fn token_format(t: Seq<char>) -> Seq<char> {
    if split_by(t, '|').len() >= 2 {
        split_by(t, '|')[1]
    } else {
        Seq::<char>::empty()
    }
}

/// Whether a trailing `*` marks the token optional.
pub open spec fn token_optional(t: Seq<char>) -> bool {
    token_base(t).len() > 0 && token_base(t).last() == '*'
}

/// The token's kind word, with any `*` modifier removed.
pub open spec fn token_stem(t: Seq<char>) -> Seq<char> {
    if token_optional(t) {
        token_base(t).drop_last()
    } else {
        token_base(t)
    }
}

/// The kind a token declares; unknown kind words carry no constraint.
pub open spec fn token_kind(t: Seq<char>) -> FieldKind {
    if token_stem(t) == "number"@ {
        FieldKind::Number
    } else if token_stem(t) == "string"@ {
        FieldKind::Text
    } else if token_stem(t) == "date"@ {
        FieldKind::Date
    } else {
        FieldKind::Unconstrained
    }
}

/// A token is well formed unless it declares a date without a format.
pub open spec fn token_ok(t: Seq<char>) -> bool {
    !(token_kind(t) == FieldKind::Date && token_format(t).len() == 0)
}

/// Whether positions `i` and `i + 1` of `t` hold the link arrow `->`.
pub open spec fn arrow_at(t: Seq<char>, i: int) -> bool {
    0 <= i && i + 1 < t.len() && t[i] == '-' && t[i + 1] == '>'
}

/// Position of the first link arrow at or after `i`.
pub open spec fn first_arrow_from(t: Seq<char>, i: int) -> Option<int>
    decreases t.len() - i,
{
    if i + 1 >= t.len() {
        None
    } else if arrow_at(t, i) {
        Some(i)
    } else {
        first_arrow_from(t, i + 1)
    }
}

proof fn lemma_arrow_from(t: Seq<char>, i: int)
    requires
        0 <= i,
        forall|j: int| 0 <= j < i ==> !arrow_at(t, j),
    ensures
        first_arrow_from(t, 0) == first_arrow_from(t, i),
    decreases i,
{
    if i > 0 {
        lemma_arrow_from(t, i - 1);
    }
}

/// The source part of a link token: everything after the first arrow,
/// split at `:`.
pub open spec fn link_source_parts(t: Seq<char>) -> Seq<Seq<char>> {
    split_by(t.skip(first_arrow_from(t, 0)->Some_0 + 2), ':')
}

/// Whether a link token follows `column->K:index` with a single source key
/// character and an index that fits in `usize`.
pub open spec fn link_ok(t: Seq<char>) -> bool {
    &&& first_arrow_from(t, 0) is Some
    &&& link_source_parts(t).len() == 2
    &&& link_source_parts(t)[0].len() == 1
    &&& link_source_parts(t)[1].len() > 0
    &&& all_digits(link_source_parts(t)[1])
    &&& digits_value(link_source_parts(t)[1]) <= usize::MAX
}

/// Whether `l` is the link that token `t` declares.
pub open spec fn link_matches(l: LinkSpec, t: Seq<char>) -> bool {
    &&& link_ok(t)
    &&& l.output_column@ == t.take(first_arrow_from(t, 0)->Some_0)
    &&& l.source_key == link_source_parts(t)[0][0]
    &&& l.source_column_index == digits_value(link_source_parts(t)[1])
}

proof fn lemma_arrow_some(t: Seq<char>, i: int)
    requires
        0 <= i,
        first_arrow_from(t, i) is Some,
    ensures
        arrow_at(t, first_arrow_from(t, i)->Some_0),
        first_arrow_from(t, i)->Some_0 >= i,
    decreases t.len() - i,
{
    if i + 1 < t.len() && !arrow_at(t, i) {
        lemma_arrow_some(t, i + 1);
    }
}

fn find_arrow(t: &Vec<char>) -> (r: Option<usize>)
    ensures
        match r {
            Some(p) => first_arrow_from(t@, 0) == Some(p as int),
            None => first_arrow_from(t@, 0) is None,
        },
{
    let mut i: usize = 0;
    while i < t.len() && i + 1 < t.len()
        invariant
            i <= t@.len(),
            forall|j: int| 0 <= j < i ==> !arrow_at(t@, j),
        decreases t@.len() - i,
    {
        if t[i] == '-' && t[i + 1] == '>' {
            proof {
                lemma_arrow_from(t@, i as int);
            }
            return Some(i);
        }
        i = i + 1;
    }
    proof {
        lemma_arrow_from(t@, i as int);
    }
    None
}

/// Reads one link declaration of the form `column->K:index`.
fn parse_link(t: &Vec<char>) -> (r: Option<LinkSpec>)
    ensures
        r is Some <==> link_ok(t@),
        r matches Some(l) ==> link_matches(l, t@),
{
    let p = match find_arrow(t) {
        Some(p) => p,
        None => {
            return None;
        },
    };
    proof {
        lemma_arrow_some(t@, 0);
        assert(arrow_at(t@, p as int));
    }
    let out = sub_chars(t, 0, p);
    let n = t.len();
    proof {
        assert(p as int + 2 <= t@.len());
    }
    let rest = sub_chars(t, p + 2, n);
    proof {
        assert(rest@ =~= t@.skip(p as int + 2));
        assert(out@ =~= t@.take(p as int));
    }
    let parts = split_chars(&rest, ':');
    if parts.len() != 2 {
        return None;
    }
    proof {
        assert(parts.deep_view()[0] == parts@[0]@);
        assert(parts.deep_view()[1] == parts@[1]@);
    }
    if parts[0].len() != 1 {
        return None;
    }
    let idx = match parse_usize(&parts[1]) {
        Some(n) => n,
        None => {
            return None;
        },
    };
    Some(
        LinkSpec {
            output_column: chars_to_string(&out),
            source_key: parts[0][0],
            source_column_index: idx,
        },
    )
}

/// Whether `f` is the field that token `t` and column name `name` declare.
pub open spec fn field_matches(f: FieldSpec, name: Seq<char>, t: Seq<char>) -> bool {
    &&& f.name@ == name
    &&& f.kind == token_kind(t)
    &&& f.optional == token_optional(t)
    &&& f.date_format@ == token_format(t)
}

/// Reads one field-type token of the form `kind[*][|format]`.
fn parse_field(token: &Vec<char>, name: &Vec<char>) -> (r: Option<FieldSpec>)
    ensures
        r is Some <==> token_ok(token@),
        r matches Some(f) ==> field_matches(f, name@, token@),
{
    let pieces = split_chars(token, '|');
    proof {
        assert(pieces.deep_view()[0] == pieces@[0]@);
        if pieces.deep_view().len() >= 2 {
            assert(pieces.deep_view()[1] == pieces@[1]@);
        }
    }
    let base = &pieces[0];
    let optional = base.len() > 0 && base[base.len() - 1] == '*';
    let stem = if optional {
        sub_chars(base, 0, base.len() - 1)
    } else {
        sub_chars(base, 0, base.len())
    };
    proof {
        if optional {
            assert(stem@ =~= token_base(token@).drop_last());
        } else {
            assert(stem@ =~= token_base(token@));
        }
    }
    let format: Vec<char> = if pieces.len() >= 2 {
        sub_chars(&pieces[1], 0, pieces[1].len())
    } else {
        Vec::new()
    };
    proof {
        assert(format@ =~= token_format(token@));
    }
    let kind = if chars_eq_str(&stem, "number") {
        FieldKind::Number
    } else if chars_eq_str(&stem, "string") {
        FieldKind::Text
    } else if chars_eq_str(&stem, "date") {
        FieldKind::Date
    } else {
        FieldKind::Unconstrained
    };
    if kind == FieldKind::Date && format.len() == 0 {
        return None;
    }
    Some(
        FieldSpec {
            name: chars_to_string(name),
            kind,
            optional,
            date_format: chars_to_string(&format),
        },
    )
}

/// The link tokens declared by an optional `+`-joined value; an absent or
/// empty declaration yields none.
pub open spec fn links_of(v: Option<Seq<char>>) -> Seq<Seq<char>> {
    match v {
        Some(s) => if s.len() > 0 {
            split_by(s, '+')
        } else {
            Seq::<Seq<char>>::empty()
        },
        None => Seq::<Seq<char>>::empty(),
    }
}

/// Whether `e` is exactly the entry that the declarations for `key`
/// describe.
pub open spec fn entry_matches(
    e: SchemaEntry,
    key: Seq<char>,
    types_val: Seq<char>,
    names: Seq<KeyValue>,
    tables: Seq<KeyValue>,
    links: Seq<KeyValue>,
) -> bool {
    let tokens = tokens_of(types_val);
    let name_pieces = split_by(lookup_kv(names, key)->Some_0, '+');
    let link_tokens = links_of(lookup_kv(links, key));
    &&& e.key == key[0]
    &&& lookup_kv(tables, key) == Some(e.table_name@)
    &&& e.fields@.len() == tokens.len()
    &&& forall|k: int|
        0 <= k < tokens.len() ==> field_matches(#[trigger] e.fields@[k], name_pieces[k], tokens[k])
    &&& e.links@.len() == link_tokens.len()
    &&& forall|k: int|
        0 <= k < link_tokens.len() ==> link_matches(#[trigger] e.links@[k], link_tokens[k])
}

/// The first defect in one record type's declarations, if any, in the
/// order the checks run: column names declared, counts equal, date formats
/// present, table declared, links well formed.
pub open spec fn entry_fault(
    key: Seq<char>,
    types_val: Seq<char>,
    names: Seq<KeyValue>,
    tables: Seq<KeyValue>,
    links: Seq<KeyValue>,
) -> Option<ConfigError> {
    let tokens = tokens_of(types_val);
    let link_tokens = links_of(lookup_kv(links, key));
    if lookup_kv(names, key) is None {
        Some(ConfigError::MissingColumnNames(key[0]))
    } else if split_by(lookup_kv(names, key)->Some_0, '+').len() != tokens.len() {
        Some(ConfigError::ColumnCountMismatch(key[0]))
    } else if exists|k: int| 0 <= k < tokens.len() && !token_ok(#[trigger] tokens[k]) {
        Some(ConfigError::MissingDateFormat(key[0]))
    } else if lookup_kv(tables, key) is None {
        Some(ConfigError::MissingTableName(key[0]))
    } else if exists|k: int| 0 <= k < link_tokens.len() && !link_ok(#[trigger] link_tokens[k]) {
        Some(ConfigError::MalformedLink(key[0]))
    } else {
        None
    }
}

/// Builds the schema entry for one record type, or reports the first
/// defect in its declarations.
#[verifier::loop_isolation(false)]
pub fn build_entry(
    rt: &KeyValue,
    names: &Vec<KeyValue>,
    tables: &Vec<KeyValue>,
    links: &Vec<KeyValue>,
) -> (r: Result<SchemaEntry, ConfigError>)
    requires
        rt.key@.len() == 1,
    ensures
        match r {
            Ok(e) => entry_fault(rt.key@, rt.value@, names@, tables@, links@) is None
                && entry_matches(e, rt.key@, rt.value@, names@, tables@, links@),
            Err(e) => entry_fault(rt.key@, rt.value@, names@, tables@, links@) == Some(e),
        },
{
    let keyv = crate::text::to_chars(rt.key.as_str());
    let key0 = keyv[0];
    let names_val = match lookup_section(names, &keyv) {
        Some(v) => v,
        None => {
            return Err(ConfigError::MissingColumnNames(key0));
        },
    };
    let types_chars = crate::text::to_chars(rt.value.as_str());
    let tokens = split_chars(&types_chars, '+');
    let names_chars = crate::text::to_chars(names_val.as_str());
    let name_pieces = split_chars(&names_chars, '+');
    if name_pieces.len() != tokens.len() {
        return Err(ConfigError::ColumnCountMismatch(key0));
    }
    let ghost tokens_spec = tokens_of(rt.value@);
    let ghost names_spec = split_by(lookup_kv(names@, rt.key@)->Some_0, '+');
    let mut fields: Vec<FieldSpec> = Vec::new();
    let mut k: usize = 0;
    while k < tokens.len()
        invariant
            k <= tokens@.len(),
            tokens.deep_view() == tokens_spec,
            name_pieces.deep_view() == names_spec,
            tokens@.len() == tokens_spec.len(),
            name_pieces@.len() == tokens_spec.len(),
            fields@.len() == k,
            forall|j: int| 0 <= j < k ==> token_ok(tokens_spec[j]),
            forall|j: int|
                0 <= j < k ==> field_matches(#[trigger] fields@[j], names_spec[j], tokens_spec[j]),
        decreases tokens@.len() - k,
    {
        proof {
            assert(tokens.deep_view()[k as int] == tokens@[k as int]@);
            assert(name_pieces.deep_view()[k as int] == name_pieces@[k as int]@);
        }
        match parse_field(&tokens[k], &name_pieces[k]) {
            Some(f) => {
                fields.push(f);
            },
            None => {
                proof {
                    assert(!token_ok(tokens_spec[k as int]));
                }
                return Err(ConfigError::MissingDateFormat(key0));
            },
        }
        k = k + 1;
    }
    let table_val = match lookup_section(tables, &keyv) {
        Some(v) => v,
        None => {
            return Err(ConfigError::MissingTableName(key0));
        },
    };
    let ghost link_tokens_spec = links_of(lookup_kv(links@, rt.key@));
    let mut link_specs: Vec<LinkSpec> = Vec::new();
    let links_val_opt = lookup_section(links, &keyv);
    if let Some(lv) = links_val_opt {
        if lv.as_str().unicode_len() > 0 {
            let lchars = crate::text::to_chars(lv.as_str());
            let ltokens = split_chars(&lchars, '+');
            let mut k2: usize = 0;
            while k2 < ltokens.len()
                invariant
                    k2 <= ltokens@.len(),
                    ltokens.deep_view() == link_tokens_spec,
                    ltokens@.len() == link_tokens_spec.len(),
                    link_specs@.len() == k2,
                    forall|j: int| 0 <= j < k2 ==> link_ok(link_tokens_spec[j]),
                    forall|j: int|
                        0 <= j < k2 ==> link_matches(
                            #[trigger] link_specs@[j],
                            link_tokens_spec[j],
                        ),
                decreases ltokens@.len() - k2,
            {
                proof {
                    assert(ltokens.deep_view()[k2 as int] == ltokens@[k2 as int]@);
                }
                match parse_link(&ltokens[k2]) {
                    Some(l) => {
                        link_specs.push(l);
                    },
                    None => {
                        proof {
                            assert(!link_ok(link_tokens_spec[k2 as int]));
                        }
                        return Err(ConfigError::MalformedLink(key0));
                    },
                }
                k2 = k2 + 1;
            }
        }
    }
    Ok(
        SchemaEntry {
            key: key0,
            table_name: table_val.clone(),
            fields,
            links: link_specs,
        },
    )
}


/// Whether the key of row-type entry `i` fails to be a single character.
pub open spec fn key_invalid(rts: Seq<KeyValue>, i: int) -> bool {
    rts[i].key@.len() != 1
}

/// Whether the key of row-type entry `i` repeats an earlier key.
pub open spec fn key_dup(rts: Seq<KeyValue>, i: int) -> bool {
    exists|j: int| 0 <= j < i && (#[trigger] rts[j].key@) == rts[i].key@
}

/// Whether loading stops at row-type entry `i`: a bad or repeated key, or
/// a defect in the entry's own declarations.
pub open spec fn load_fault(
    rts: Seq<KeyValue>,
    names: Seq<KeyValue>,
    tables: Seq<KeyValue>,
    links: Seq<KeyValue>,
    i: int,
) -> bool {
    ||| key_invalid(rts, i)
    ||| key_dup(rts, i)
    ||| entry_fault(rts[i].key@, rts[i].value@, names, tables, links) is Some
}

/// Whether `e` is the error that the fault at entry `i` produces, in the
/// order the checks run.
pub open spec fn fault_error_matches(
    e: ConfigError,
    rts: Seq<KeyValue>,
    names: Seq<KeyValue>,
    tables: Seq<KeyValue>,
    links: Seq<KeyValue>,
    i: int,
) -> bool {
    if key_invalid(rts, i) {
        e matches ConfigError::InvalidKey(k) && k@ == rts[i].key@
    } else if key_dup(rts, i) {
        e == ConfigError::DuplicateKey(rts[i].key@[0])
    } else {
        entry_fault(rts[i].key@, rts[i].value@, names, tables, links) == Some(e)
    }
}

/// The loaded record-type contract: one entry per declared key.
#[derive(Debug)]
pub struct Schema {
    pub entries: Vec<SchemaEntry>,
}

/// Whether some entry declares `key`.
pub open spec fn has_key(s: Seq<SchemaEntry>, key: char) -> bool {
    exists|i: int| 0 <= i < s.len() && (#[trigger] s[i].key) == key
}

impl Schema {
    /// Record-type keys are unique across the schema.
    pub open spec fn wf(&self) -> bool {
        forall|i: int, j: int|
            0 <= i < j < self.entries@.len() ==> (#[trigger] self.entries@[i].key) != (
            #[trigger] self.entries@[j].key)
    }

    /// Finds the entry declaring `key`.
    pub fn find(&self, key: char) -> (r: Option<usize>)
        ensures
            match r {
                Some(i) => i < self.entries@.len() && self.entries@[i as int].key == key,
                None => !has_key(self.entries@, key),
            },
    {
        let mut i: usize = 0;
        while i < self.entries.len()
            invariant
                i <= self.entries@.len(),
                forall|j: int| 0 <= j < i ==> (#[trigger] self.entries@[j].key) != key,
            decreases self.entries@.len() - i,
        {
            if self.entries[i].key == key {
                return Some(i);
            }
            i = i + 1;
        }
        None
    }
}

/// Loads the whole schema from the four configuration sections, or
/// reports the first defect found, walking the row-type section in order.
#[verifier::loop_isolation(false)]
pub fn load_schema(
    row_types: &Vec<KeyValue>,
    column_names: &Vec<KeyValue>,
    table_names: &Vec<KeyValue>,
    column_links: &Vec<KeyValue>,
) -> (r: Result<Schema, ConfigError>)
    ensures
        r is Ok <==> (forall|i: int|
            0 <= i < row_types@.len() ==> !load_fault(
                row_types@,
                column_names@,
                table_names@,
                column_links@,
                i,
            )),
        r matches Ok(s) ==> {
            &&& s.wf()
            &&& s.entries@.len() == row_types@.len()
            &&& forall|i: int|
                0 <= i < row_types@.len() ==> entry_matches(
                    #[trigger] s.entries@[i],
                    row_types@[i].key@,
                    row_types@[i].value@,
                    column_names@,
                    table_names@,
                    column_links@,
                )
        },
        r matches Err(e) ==> exists|i: int|
            {
                &&& 0 <= i < row_types@.len()
                &&& #[trigger] load_fault(row_types@, column_names@, table_names@, column_links@, i)
                &&& forall|j: int|
                    0 <= j < i ==> !load_fault(
                        row_types@,
                        column_names@,
                        table_names@,
                        column_links@,
                        j,
                    )
                &&& fault_error_matches(
                    e,
                    row_types@,
                    column_names@,
                    table_names@,
                    column_links@,
                    i,
                )
            },
{
    let mut entries: Vec<SchemaEntry> = Vec::new();
    let mut i: usize = 0;
    while i < row_types.len()
        invariant
            i <= row_types@.len(),
            entries@.len() == i,
            forall|j: int|
                0 <= j < i ==> !load_fault(
                    row_types@,
                    column_names@,
                    table_names@,
                    column_links@,
                    j,
                ),
            forall|j: int|
                0 <= j < i ==> entry_matches(
                    #[trigger] entries@[j],
                    row_types@[j].key@,
                    row_types@[j].value@,
                    column_names@,
                    table_names@,
                    column_links@,
                ),
        decreases row_types@.len() - i,
    {
        let rt = &row_types[i];
        let keyv = crate::text::to_chars(rt.key.as_str());
        if keyv.len() != 1 {
            proof {
                assert(key_invalid(row_types@, i as int));
                assert(load_fault(row_types@, column_names@, table_names@, column_links@, i as int));
            }
            return Err(ConfigError::InvalidKey(rt.key.clone()));
        }
        let key0 = keyv[0];
        let mut j: usize = 0;
        while j < i
            invariant
                j <= i,
                forall|k: int| 0 <= k < j ==> (#[trigger] entries@[k].key) != key0,
            decreases i - j,
        {
            if entries[j].key == key0 {
                proof {
                    assert(!load_fault(row_types@, column_names@, table_names@, column_links@, j as int));
                    assert(row_types@[j as int].key@.len() == 1);
                    assert(entry_matches(
                        entries@[j as int],
                        row_types@[j as int].key@,
                        row_types@[j as int].value@,
                        column_names@,
                        table_names@,
                        column_links@,
                    ));
                    assert(entries@[j as int].key == row_types@[j as int].key@[0]);
                    assert(row_types@[j as int].key@ =~= row_types@[i as int].key@);
                    assert(key_dup(row_types@, i as int));
                    assert(load_fault(row_types@, column_names@, table_names@, column_links@, i as int));
                    assert(!key_invalid(row_types@, i as int));
                }
                return Err(ConfigError::DuplicateKey(key0));
            }
            j = j + 1;
        }
        proof {
            assert(!key_dup(row_types@, i as int)) by {
                if key_dup(row_types@, i as int) {
                    let jj = choose|jj: int|
                        0 <= jj < i && (#[trigger] row_types@[jj].key@) == row_types@[
                            i as int
                        ].key@;
                    assert(entries@[jj].key == row_types@[jj].key@[0]);
                }
            }
        }
        match build_entry(rt, column_names, table_names, column_links) {
            Ok(e) => {
                entries.push(e);
            },
            Err(e) => {
                proof {
                    assert(entry_fault(
                        row_types@[i as int].key@,
                        row_types@[i as int].value@,
                        column_names@,
                        table_names@,
                        column_links@,
                    ) == Some(e));
                    assert(load_fault(row_types@, column_names@, table_names@, column_links@, i as int));
                    assert(!key_invalid(row_types@, i as int));
                }
                return Err(e);
            },
        }
        i = i + 1;
    }
    proof {
        assert forall|a: int, b: int|
            0 <= a < b < entries@.len() implies (#[trigger] entries@[a].key) != (
        #[trigger] entries@[b].key) by {
            if entries@[a].key == entries@[b].key {
                assert(!load_fault(row_types@, column_names@, table_names@, column_links@, a));
                assert(!load_fault(row_types@, column_names@, table_names@, column_links@, b));
                assert(row_types@[a].key@.len() == 1);
                assert(row_types@[b].key@.len() == 1);
                assert(entries@[a].key == row_types@[a].key@[0]);
                assert(entries@[b].key == row_types@[b].key@[0]);
                assert(row_types@[a].key@ =~= row_types@[b].key@);
                assert(key_dup(row_types@, b));
            }
        }
    }
    Ok(Schema { entries })
}

} // verus!
