//! The result store: one row for each dependency, holding the text of its
//! support links.
//!
//! A store is an owned value that is handed to whoever fills it. Writing a
//! name that the store already holds replaces the text of its row; a new name
//! gets a new row behind the others, so rows come out in the order in which
//! their names first came in.

use vstd::prelude::*;

verus! {

/// A row as contracts see it: the name of a dependency and the text stored
/// for it.
pub type Row = (Seq<char>, Seq<char>);

/// The rows of a vector of pairs of strings.
pub open spec fn row_views(rows: Seq<(String, String)>) -> Seq<Row> {
    Seq::new(rows.len(), |i: int| (rows[i].0@, rows[i].1@))
}

/// Some row carries `name`.
pub open spec fn has_name(rows: Seq<Row>, name: Seq<char>) -> bool {
    exists|i: int| 0 <= i < rows.len() && (#[trigger] rows[i]).0 == name
}

/// The position of a row that carries `name`, where there is one.
pub open spec fn position(rows: Seq<Row>, name: Seq<char>) -> int {
    choose|i: int| 0 <= i < rows.len() && (#[trigger] rows[i]).0 == name
}

/// No two rows carry the same name.
pub open spec fn distinct_names(rows: Seq<Row>) -> bool {
    forall|i: int, j: int|
        0 <= i < j < rows.len() ==> (#[trigger] rows[i]).0 != (#[trigger] rows[j]).0
}

/// The text stored for `name`, if any.
pub open spec fn lookup(rows: Seq<Row>, name: Seq<char>) -> Option<Seq<char>> {
    if has_name(rows, name) {
        Some(rows[position(rows, name)].1)
    } else {
        None
    }
}

/// The rows after `text` was written for `name`: the row of `name` holds
/// `text` in place of what it held, or, where there was none, a new row
/// stands behind the others.
pub open spec fn upserted(rows: Seq<Row>, name: Seq<char>, text: Seq<char>) -> Seq<Row> {
    if has_name(rows, name) {
        rows.update(position(rows, name), (name, text))
    } else {
        rows.push((name, text))
    }
}

/// The rows read as a mapping from names to texts.
pub open spec fn as_map(rows: Seq<Row>) -> Map<Seq<char>, Seq<char>> {
    Map::new(|name: Seq<char>| has_name(rows, name), |name: Seq<char>| lookup(rows, name).unwrap())
}

/// Where names are distinct, the row that carries a name is the only one.
pub proof fn lemma_position(rows: Seq<Row>, at: int)
    requires
        distinct_names(rows),
        0 <= at < rows.len(),
    ensures
        has_name(rows, rows[at].0),
        position(rows, rows[at].0) == at,
        lookup(rows, rows[at].0) == Some(rows[at].1),
{
    let name = rows[at].0;
    assert(has_name(rows, name));
    let p = position(rows, name);
    if p < at {
        assert(rows[p].0 != rows[at].0);
    } else if at < p {
        assert(rows[at].0 != rows[p].0);
    }
}

/// Writing keeps names distinct.
pub proof fn lemma_upserted_distinct(rows: Seq<Row>, name: Seq<char>, text: Seq<char>)
    requires
        distinct_names(rows),
    ensures
        distinct_names(upserted(rows, name, text)),
        upserted(rows, name, text).len() == if has_name(rows, name) {
            rows.len()
        } else {
            rows.len() + 1
        },
{
    let after = upserted(rows, name, text);
    if has_name(rows, name) {
        let p = position(rows, name);
        assert forall|i: int, j: int| 0 <= i < j < after.len() implies (#[trigger] after[i]).0 != (
        #[trigger] after[j]).0 by {
            assert(after[i].0 == rows[i].0);
            assert(after[j].0 == rows[j].0);
        }
    } else {
        assert forall|i: int, j: int| 0 <= i < j < after.len() implies (#[trigger] after[i]).0 != (
        #[trigger] after[j]).0 by {
            if j == rows.len() {
                assert(after[i] == rows[i]);
            } else {
                assert(after[i] == rows[i]);
                assert(after[j] == rows[j]);
            }
        }
    }
}

/// Last write wins: after `text` was written for `name`, the store holds
/// `text` for `name` and, for every other name, what it held before.
pub proof fn lemma_upserted_lookup(
    rows: Seq<Row>,
    name: Seq<char>,
    text: Seq<char>,
    other: Seq<char>,
)
    requires
        distinct_names(rows),
    ensures
        lookup(upserted(rows, name, text), name) == Some(text),
        other != name ==> lookup(upserted(rows, name, text), other) == lookup(rows, other),
        has_name(upserted(rows, name, text), other) == (other == name || has_name(rows, other)),
{
    let after = upserted(rows, name, text);
    lemma_upserted_distinct(rows, name, text);
    let at = if has_name(rows, name) {
        position(rows, name)
    } else {
        rows.len() as int
    };
    assert(after[at] == (name, text));
    lemma_position(after, at);
    if other != name {
        if has_name(rows, other) {
            let p = position(rows, other);
            assert(after[p] == rows[p]);
            lemma_position(after, p);
        }
        if has_name(after, other) {
            let q = position(after, other);
            assert(q != at);
            assert(after[q] == rows[q]);
            assert(has_name(rows, other));
        }
    }
}

/// Read as a mapping, a write is an insertion that replaces what was there.
pub proof fn lemma_upserted_as_map(rows: Seq<Row>, name: Seq<char>, text: Seq<char>)
    requires
        distinct_names(rows),
    ensures
        as_map(upserted(rows, name, text)) == as_map(rows).insert(name, text),
{
    let after = upserted(rows, name, text);
    assert forall|other: Seq<char>|
        as_map(after).dom().contains(other) == as_map(rows).insert(name, text).dom().contains(
            other,
        ) by {
        lemma_upserted_lookup(rows, name, text, other);
    }
    assert forall|other: Seq<char>| #[trigger] as_map(after).dom().contains(other) implies as_map(
        after,
    )[other] == as_map(rows).insert(name, text)[other] by {
        lemma_upserted_lookup(rows, name, text, other);
    }
    assert(as_map(after) =~= as_map(rows).insert(name, text));
}

/// A write leaves no trace of the write before it for the same name: two
/// writes for one name give the rows that the second alone would give.
pub proof fn lemma_upserted_overwrites(
    rows: Seq<Row>,
    name: Seq<char>,
    first: Seq<char>,
    second: Seq<char>,
)
    requires
        distinct_names(rows),
    ensures
        upserted(upserted(rows, name, first), name, second) == upserted(rows, name, second),
{
    let once = upserted(rows, name, first);
    lemma_upserted_distinct(rows, name, first);
    let at = if has_name(rows, name) {
        position(rows, name)
    } else {
        rows.len() as int
    };
    assert(once[at] == (name, first));
    lemma_position(once, at);
    assert(once.update(at, (name, second)) =~= upserted(rows, name, second));
}

/// Writing the same text for the same name again changes nothing.
pub proof fn lemma_upserted_twice(rows: Seq<Row>, name: Seq<char>, text: Seq<char>)
    requires
        distinct_names(rows),
    ensures
        upserted(upserted(rows, name, text), name, text) == upserted(rows, name, text),
{
    lemma_upserted_overwrites(rows, name, text, text);
}

/// The mapping from the names of dependencies to the text of their support
/// links.
pub struct ResultStore {
    rows: Vec<(String, String)>,
}

impl View for ResultStore {
    type V = Seq<Row>;

    closed spec fn view(&self) -> Seq<Row> {
        row_views(self.rows@)
    }
}

impl ResultStore {
    #[verifier::type_invariant]
    spec fn one_row_for_each_name(self) -> bool {
        distinct_names(row_views(self.rows@))
    }

    /// A store without rows.
    pub fn new() -> (store: ResultStore)
        ensures
            store@ == Seq::<Row>::empty(),
    {
        let store = ResultStore { rows: Vec::new() };
        assert(store@ =~= Seq::<Row>::empty());
        store
    }

    /// The number of rows.
    pub fn len(&self) -> (n: usize)
        ensures
            n == self@.len(),
    {
        self.rows.len()
    }

    /// Whether the store has no rows.
    pub fn is_empty(&self) -> (empty: bool)
        ensures
            empty == (self@.len() == 0),
    {
        self.rows.len() == 0
    }

    /// Writes `text` for `name`, in place of whatever was stored for it.
    pub fn upsert(&mut self, name: String, text: String)
        ensures
            final(self)@ == upserted(old(self)@, name@, text@),
            distinct_names(old(self)@),
            distinct_names(final(self)@),
    {
        proof {
            use_type_invariant(&*self);
            lemma_upserted_distinct(self@, name@, text@);
        }
        let ghost before = self@;
        let mut taken = ResultStore::new();
        core::mem::swap(self, &mut taken);
        let mut rows = taken.rows;
        let mut i: usize = 0;
        while i < rows.len()
            invariant
                i <= rows.len(),
                row_views(rows@) == before,
                before == old(self)@,
                distinct_names(before),
                forall|k: int| 0 <= k < i ==> (#[trigger] before[k]).0 != name@,
            decreases rows.len() - i,
        {
            if rows[i].0 == name {
                proof {
                    assert(before[i as int].0 == name@);
                    lemma_position(before, i as int);
                }
                rows.set(i, (name, text));
                assert(row_views(rows@) =~= before.update(i as int, (name@, text@)));
                self.rows = rows;
                return ;
            }
            i += 1;
        }
        assert(!has_name(before, name@));
        rows.push((name, text));
        assert(row_views(rows@) =~= before.push((name@, text@)));
        self.rows = rows;
    }

    /// The text stored for `name`, if any.
    pub fn get(&self, name: &str) -> (found: Option<&String>)
        ensures
            match found {
                Some(text) => lookup(self@, name@) == Some(text@),
                None => lookup(self@, name@) is None,
            },
    {
        proof {
            use_type_invariant(self);
        }
        let mut i: usize = 0;
        while i < self.rows.len()
            invariant
                i <= self.rows.len(),
                distinct_names(self@),
                forall|k: int| 0 <= k < i ==> (#[trigger] self@[k]).0 != name@,
            decreases self.rows.len() - i,
        {
            if crate::text::same_text(self.rows[i].0.as_str(), name) {
                proof {
                    assert(self@[i as int].0 == name@);
                    lemma_position(self@, i as int);
                }
                return Some(&self.rows[i].1);
            }
            i += 1;
        }
        None
    }

    /// The rows, each as a pair of name and text, in the order in which the
    /// names first came in.
    pub fn entries(&self) -> (rows: Vec<(String, String)>)
        ensures
            row_views(rows@) == self@,
            distinct_names(self@),
    {
        proof {
            use_type_invariant(self);
        }
        let mut rows: Vec<(String, String)> = Vec::new();
        let mut i: usize = 0;
        while i < self.rows.len()
            invariant
                i <= self.rows.len(),
                rows.len() == i,
                forall|k: int| 0 <= k < i ==> row_views(rows@)[k] == self@[k],
            decreases self.rows.len() - i,
        {
            let name = self.rows[i].0.clone();
            let text = self.rows[i].1.clone();
            rows.push((name, text));
            i += 1;
        }
        assert(row_views(rows@) =~= self@);
        rows
    }
}

} // verus!
