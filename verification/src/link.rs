//! Link state: the most recently seen row of each record type, used to
//! copy fields across record types when statements are compiled.

use vstd::prelude::*;
use crate::text::sub_chars;

verus! {

/// The per-file record of the most recently seen row of each record-type
/// key. Created empty at the start of each file and discarded at its
/// end; each observed row unconditionally overwrites the previous row of
/// its key.
pub struct LinkState {
    keys: Vec<char>,
    rows: Vec<Vec<Vec<char>>>,
}

/// The map that a history of observations denotes: later observations of
/// a key overwrite earlier ones.
pub open spec fn map_of(keys: Seq<char>, rows: Seq<Seq<Seq<char>>>) -> Map<char, Seq<Seq<char>>>
    decreases keys.len(),
{
    if keys.len() == 0 || rows.len() == 0 {
        Map::<char, Seq<Seq<char>>>::empty()
    } else {
        map_of(keys.drop_last(), rows.drop_last()).insert(keys.last(), rows.last())
    }
}

proof fn lemma_map_hit(keys: Seq<char>, rows: Seq<Seq<Seq<char>>>, key: char, i: int)
    requires
        keys.len() == rows.len(),
        0 <= i < keys.len(),
        keys[i] == key,
        forall|j: int| i < j < keys.len() ==> keys[j] != key,
    ensures
        map_of(keys, rows).contains_key(key),
        map_of(keys, rows)[key] == rows[i],
    decreases keys.len(),
{
    if i < keys.len() - 1 {
        lemma_map_hit(keys.drop_last(), rows.drop_last(), key, i);
    }
}

proof fn lemma_map_miss(keys: Seq<char>, rows: Seq<Seq<Seq<char>>>, key: char)
    requires
        keys.len() == rows.len(),
        forall|j: int| 0 <= j < keys.len() ==> keys[j] != key,
    ensures
        !map_of(keys, rows).contains_key(key),
    decreases keys.len(),
{
    if keys.len() > 0 {
        lemma_map_miss(keys.drop_last(), rows.drop_last(), key);
    }
}

impl LinkState {
    /// The state as a map from record-type key to the latest row seen.
    pub closed spec fn view(&self) -> Map<char, Seq<Seq<char>>> {
        map_of(self.keys@, self.rows.deep_view())
    }

    /// The observation history is consistent.
    pub closed spec fn wf(&self) -> bool {
        self.keys@.len() == self.rows@.len()
    }

    /// An empty state: no record type has been seen.
    pub fn new() -> (r: LinkState)
        ensures
            r.wf(),
            r@ == Map::<char, Seq<Seq<char>>>::empty(),
    {
        LinkState { keys: Vec::new(), rows: Vec::new() }
    }

    /// Records `row` as the most recent row of type `key`, overwriting
    /// any earlier row of that key.
    pub fn observe(&mut self, key: char, row: Vec<Vec<char>>)
        requires
            old(self).wf(),
        ensures
            final(self).wf(),
            final(self)@ == old(self)@.insert(key, row.deep_view()),
    {
        let ghost old_keys = self.keys@;
        let ghost old_rows = self.rows.deep_view();
        self.keys.push(key);
        self.rows.push(row);
        proof {
            assert(self.keys@.drop_last() =~= old_keys);
            assert(self.rows.deep_view().drop_last() =~~= old_rows);
            assert(self.rows.deep_view().last() =~~= self.rows@.last().deep_view());
        }
    }

    /// The value of a linked column: field `idx` of the most recent row
    /// of type `key`, if that type has been seen and its row reaches
    /// `idx`.
    pub fn resolve(&self, key: char, idx: usize) -> (r: Option<Vec<char>>)
        requires
            self.wf(),
        ensures
            match r {
                Some(v) => {
                    &&& self@.contains_key(key)
                    &&& idx < self@[key].len()
                    &&& v@ == self@[key][idx as int]
                },
                None => !self@.contains_key(key) || idx >= self@[key].len(),
            },
    {
        let n = self.keys.len();
        let mut i: usize = n;
        while i > 0
            invariant
                i <= n,
                n == self.keys@.len(),
                self.wf(),
                forall|j: int| i <= j < n ==> self.keys@[j] != key,
            decreases i,
        {
            i = i - 1;
            if self.keys[i] == key {
                proof {
                    lemma_map_hit(self.keys@, self.rows.deep_view(), key, i as int);
                    assert(self.rows.deep_view()[i as int] =~~= self.rows@[i as int].deep_view());
                }
                let row = &self.rows[i];
                if idx < row.len() {
                    proof {
                        assert(row.deep_view()[idx as int] == row@[idx as int]@);
                    }
                    return Some(sub_chars(&row[idx], 0, row[idx].len()));
                } else {
                    return None;
                }
            }
        }
        proof {
            lemma_map_miss(self.keys@, self.rows.deep_view(), key);
        }
        None
    }
}

/// Link freshness: once a second row of type `h` has been seen, a link
/// on `h` resolves to the second row's fields, not the first's — the
/// most recent row wins, whatever rows of a distinct type `d` arrive in
/// between.
pub proof fn lemma_link_freshness(
    m: Map<char, Seq<Seq<char>>>,
    h: char,
    d: char,
    h1: Seq<Seq<char>>,
    d1: Seq<Seq<char>>,
    h2: Seq<Seq<char>>,
    d2: Seq<Seq<char>>,
)
    requires
        h != d,
    ensures
        m.insert(h, h1).insert(d, d1)[h] == h1,
        m.insert(h, h1).insert(d, d1).insert(h, h2).insert(d, d2)[h] == h2,
{
}

} // verus!
