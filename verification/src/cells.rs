//! The set of live cells: unique packed coordinates in insertion order.

use indexmap::IndexSet;
use vstd::prelude::*;

verus! {

/// `indexmap::IndexSet`, carried as an opaque value.
#[verifier::external_type_specification]
#[verifier::external_body]
#[verifier::reject_recursive_types(T)]
#[verifier::reject_recursive_types(S)]
pub struct ExIndexSet<T, S>(IndexSet<T, S>);

/// The values an `IndexSet<u32>` holds, in its iteration order.
pub uninterp spec fn index_set_items(s: IndexSet<u32>) -> Seq<u32>;

/// `IndexSet::new`: the new set holds nothing.
#[verifier::external_body]
fn index_set_new() -> (s: IndexSet<u32>)
    ensures
        index_set_items(s) == Seq::<u32>::empty(),
{
    IndexSet::new()
}

/// `IndexSet::insert`: a value already present leaves the set and its order
/// untouched and gives `false`; any other value goes last and gives `true`.
#[verifier::external_body]
fn index_set_insert(s: &mut IndexSet<u32>, value: u32) -> (inserted: bool)
    ensures
        inserted == !index_set_items(*old(s)).contains(value),
        index_set_items(*final(s)) == if index_set_items(*old(s)).contains(value) {
            index_set_items(*old(s))
        } else {
            index_set_items(*old(s)).push(value)
        },
{
    s.insert(value)
}

/// `IndexSet::contains`: whether the value is among those held.
#[verifier::external_body]
fn index_set_contains(s: &IndexSet<u32>, value: u32) -> (found: bool)
    ensures
        found == index_set_items(*s).contains(value),
{
    s.contains(&value)
}

/// `IndexSet::len`: the number of values held.
#[verifier::external_body]
fn index_set_len(s: &IndexSet<u32>) -> (n: usize)
    ensures
        n == index_set_items(*s).len(),
{
    s.len()
}

/// `IndexSet::get_index`: the value at a position of the iteration order,
/// `None` from the length on.
#[verifier::external_body]
fn index_set_get_index(s: &IndexSet<u32>, index: usize) -> (value: Option<u32>)
    ensures
        value == if index < index_set_items(*s).len() {
            Some(index_set_items(*s)[index as int])
        } else {
            None
        },
{
    s.get_index(index).copied()
}

/// What a sequence of values becomes once one more is inserted: a value
/// already there changes nothing, a new one goes last.
pub open spec fn insert_value(cells: Seq<u32>, value: u32) -> Seq<u32> {
    if cells.contains(value) {
        cells
    } else {
        cells.push(value)
    }
}

/// The values of a sequence in order of first appearance, each once.
pub open spec fn distinct_in_order(values: Seq<u32>) -> Seq<u32>
    decreases values.len(),
{
    if values.len() == 0 {
        Seq::empty()
    } else {
        insert_value(distinct_in_order(values.drop_last()), values.last())
    }
}

/// Values that are already distinct stay as they are.
pub proof fn lemma_distinct_of_distinct(values: Seq<u32>)
    requires
        values.no_duplicates(),
    ensures
        distinct_in_order(values) == values,
    decreases values.len(),
{
    if values.len() > 0 {
        lemma_distinct_of_distinct(values.drop_last());
    }
}

/// What `distinct_in_order` gives has no value twice.
pub proof fn lemma_distinct_in_order_distinct(values: Seq<u32>)
    ensures
        distinct_in_order(values).no_duplicates(),
    decreases values.len(),
{
    if values.len() > 0 {
        lemma_distinct_in_order_distinct(values.drop_last());
    }
}

/// The live cells of a grid: packed coordinates, each held once, in the
/// order in which they were first inserted.
#[derive(Debug)]
pub struct CoordinateSet {
    cells: IndexSet<u32>,
}

impl View for CoordinateSet {
    type V = Seq<u32>;

    closed spec fn view(&self) -> Seq<u32> {
        index_set_items(self.cells)
    }
}

impl CoordinateSet {
    #[verifier::type_invariant]
    spec fn distinct(self) -> bool {
        index_set_items(self.cells).no_duplicates()
    }

    /// The empty set.
    pub fn new() -> (s: Self)
        ensures
            s@ == Seq::<u32>::empty(),
    {
        CoordinateSet { cells: index_set_new() }
    }

    /// Adds a value, last in order; a value already present is left where
    /// it is and nothing changes.
    pub fn insert(&mut self, value: u32) -> (inserted: bool)
        ensures
            final(self)@ == insert_value(old(self)@, value),
            inserted == !old(self)@.contains(value),
            forall|other: u32|
                final(self)@.contains(other) <==> old(self)@.contains(other) || other == value,
    {
        proof {
            use_type_invariant(&*self);
        }
        let mut cells = index_set_new();
        std::mem::swap(&mut cells, &mut self.cells);
        let inserted = index_set_insert(&mut cells, value);
        proof {
            let before = old(self)@;
            let after = index_set_items(cells);
            assert forall|other: u32| after.contains(other) <==> before.contains(other) || other
                == value by {
                if !before.contains(value) {
                    assert(after[before.len() as int] == value);
                    if before.contains(other) {
                        let i = choose|i: int| 0 <= i < before.len() && before[i] == other;
                        assert(after[i] == other);
                    }
                }
            }
        }
        self.cells = cells;
        inserted
    }

    /// Whether the value is in the set.
    pub fn contains(&self, value: u32) -> (found: bool)
        ensures
            found == self@.contains(value),
    {
        index_set_contains(&self.cells, value)
    }

    /// The number of values in the set, none of which occurs twice.
    pub fn len(&self) -> (n: usize)
        ensures
            n == self@.len(),
            self@.no_duplicates(),
    {
        proof {
            use_type_invariant(self);
        }
        index_set_len(&self.cells)
    }

    /// The value at a position of the insertion order; none from `len` on.
    pub fn get(&self, index: usize) -> (value: Option<u32>)
        ensures
            value == if index < self@.len() { Some(self@[index as int]) } else { None },
    {
        index_set_get_index(&self.cells, index)
    }

    /// Collects values in order; a value seen before changes nothing.
    pub fn from_values(values: &[u32]) -> (set: CoordinateSet)
        ensures
            set@ == distinct_in_order(values@),
    {
        let mut set = CoordinateSet::new();
        let mut i: usize = 0;
        while i < values.len()
            invariant
                i <= values@.len(),
                set@ == distinct_in_order(values@.take(i as int)),
            decreases values@.len() - i,
        {
            set.insert(values[i]);
            proof {
                assert(values@.take(i + 1).drop_last() =~= values@.take(i as int));
            }
            i = i + 1;
        }
        proof {
            assert(values@.take(i as int) =~= values@);
        }
        set
    }

    /// The values of the set, in insertion order.
    pub fn to_vec(&self) -> (values: Vec<u32>)
        ensures
            values@ == self@,
            values@.no_duplicates(),
    {
        let n = self.len();
        let mut values: Vec<u32> = Vec::new();
        let mut i: usize = 0;
        while i < n
            invariant
                i <= n,
                n == self@.len(),
                values@ == self@.take(i as int),
            decreases n - i,
        {
            let value = match self.get(i) {
                Some(value) => value,
                None => 0,
            };
            values.push(value);
            i = i + 1;
        }
        values
    }
}

} // verus!
