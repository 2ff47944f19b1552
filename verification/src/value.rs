//! The dynamic value of the scripting runtime, held as a plain tree.

use vstd::prelude::*;

verus! {

/// A value of the scripting runtime.
///
/// A table is held as the list of its entries, in the order in which the
/// runtime hands them out (when the value was read from a runtime) or in which
/// they are to be assigned (when the value is to be written to one). A number
/// is held by the bits of its 64-bit float, a string by its bytes, which need
/// not be UTF-8. Functions, threads and userdata are all `Other`.
#[derive(Debug, PartialEq)]
pub enum Value {
    Nil,
    Boolean(bool),
    Integer(i64),
    Number(u64),
    String(Vec<u8>),
    Table(Vec<(Value, Value)>),
    Other,
}

/// The mathematical model of a [`Value`].
pub enum ValueModel {
    Nil,
    Boolean(bool),
    Integer(i64),
    Number(u64),
    String(Seq<u8>),
    Table(Seq<(ValueModel, ValueModel)>),
    Other,
}

impl View for Value {
    type V = ValueModel;

    open spec fn view(&self) -> ValueModel
        decreases self,
    {
        match self {
            Value::Nil => ValueModel::Nil,
            Value::Boolean(b) => ValueModel::Boolean(*b),
            Value::Integer(i) => ValueModel::Integer(*i),
            Value::Number(n) => ValueModel::Number(*n),
            Value::String(s) => ValueModel::String(s@),
            Value::Table(entries) => ValueModel::Table(entries_view(entries@)),
            Value::Other => ValueModel::Other,
        }
    }
}

/// The models of a list of entries, entry by entry.
pub open spec fn entries_view(entries: Seq<(Value, Value)>) -> Seq<(ValueModel, ValueModel)>
    decreases entries,
{
    Seq::new(
        entries.len(),
        |i: int|
            if 0 <= i < entries.len() {
                (entries[i].0.view(), entries[i].1.view())
            } else {
                (ValueModel::Nil, ValueModel::Nil)
            },
    )
}

/// Whether an entry stores a value under the integer key `k`. An entry whose
/// value is nil stores nothing.
pub open spec fn holds_index(entry: (ValueModel, ValueModel), k: int) -> bool {
    &&& entry.0 matches ValueModel::Integer(i)
    &&& i == k
    &&& entry.1 != ValueModel::Nil
}

/// The index of the first entry at or after `from` that stores a value under
/// the integer key `k`, or the number of entries if there is none.
pub open spec fn position(entries: Seq<(ValueModel, ValueModel)>, k: int, from: int) -> int
    decreases entries.len() - from,
{
    if from < 0 || from >= entries.len() {
        entries.len() as int
    } else if holds_index(entries[from], k) {
        from
    } else {
        position(entries, k, from + 1)
    }
}

/// The index of the entry that is read for the integer key `k`, or the number
/// of entries if the table stores nothing under `k`.
///
/// The search starts where a sequence keeps its `k`-th element and falls back
/// to the whole table. In a table whose keys are distinct the order of the
/// search makes no difference.
pub open spec fn slot(entries: Seq<(ValueModel, ValueModel)>, k: int) -> int {
    let near = position(entries, k, k - 1);
    if near < entries.len() {
        near
    } else {
        position(entries, k, 0)
    }
}

/// Whether the sequential run has an element at place `n`, counted from 0:
/// whether the table stores a value under the integer key `n + 1`.
///
/// A run has no more elements than the table has entries, which is why `n`
/// stays below their number.
pub open spec fn has_index(entries: Seq<(ValueModel, ValueModel)>, n: int) -> bool {
    &&& 0 <= n < entries.len()
    &&& 0 <= slot(entries, n + 1) < entries.len()
}

/// The values stored under the integer keys `n + 1`, `n + 2`, and so on, up to
/// the first key under which nothing is stored.
pub open spec fn sequence_from(entries: Seq<(ValueModel, ValueModel)>, n: int) -> Seq<ValueModel>
    decreases entries.len() - n,
{
    if has_index(entries, n) {
        seq![entries[slot(entries, n + 1)].1] + sequence_from(entries, n + 1)
    } else {
        Seq::empty()
    }
}

/// The sequential run of a table: the values under 1, 2, 3, and so on, up to
/// the first integer key under which nothing is stored. Its length is the
/// length of the table.
///
/// Both go by the entries alone. The runtime's own length of a table with
/// gaps may be any of its borders, and a metatable can answer for a table in
/// its stead; neither is asked here.
pub open spec fn sequence(entries: Seq<(ValueModel, ValueModel)>) -> Seq<ValueModel> {
    sequence_from(entries, 0)
}

/// The models of the values that a list of references points to.
pub open spec fn refs_view(refs: Seq<&Value>) -> Seq<ValueModel> {
    Seq::new(refs.len(), |i: int| refs[i]@)
}

/// Whether the reference at place `i` of `run` points at the value that the
/// table keeps under the integer key `i + 1`.
pub open spec fn reads_index(run: Seq<&Value>, entries: Seq<(Value, Value)>, i: int) -> bool {
    &&& 0 <= slot(entries_view(entries), i + 1)
    &&& slot(entries_view(entries), i + 1) < entries.len()
    &&& *run[i] == entries[slot(entries_view(entries), i + 1)].1
}

/// Whether each reference of `run` points at the value that the table keeps
/// under the integer key of its place: the first under 1, the second under 2.
pub open spec fn reads_sequence(run: Seq<&Value>, entries: Seq<(Value, Value)>) -> bool {
    forall|i: int| 0 <= i < run.len() ==> #[trigger] reads_index(run, entries, i)
}

/// The model of a value, one level deep.
pub proof fn lemma_view(value: Value)
    ensures
        match value {
            Value::Nil => value@ == ValueModel::Nil,
            Value::Boolean(b) => value@ == ValueModel::Boolean(b),
            Value::Integer(i) => value@ == ValueModel::Integer(i),
            Value::Number(n) => value@ == ValueModel::Number(n),
            Value::String(bytes) => value@ == ValueModel::String(bytes@),
            Value::Table(entries) => value@ == ValueModel::Table(entries_view(entries@)),
            Value::Other => value@ == ValueModel::Other,
        },
{
}

/// A search ends at or after the place where it starts, and where it ends
/// inside the table, the entry there stores a value under the key.
pub proof fn lemma_position_bounds(entries: Seq<(ValueModel, ValueModel)>, k: int, from: int)
    ensures
        from <= position(entries, k, from) || position(entries, k, from) == entries.len(),
        0 <= position(entries, k, from) <= entries.len(),
        position(entries, k, from) < entries.len() ==> holds_index(
            entries[position(entries, k, from)],
            k,
        ),
    decreases entries.len() - from,
{
    if 0 <= from < entries.len() && !holds_index(entries[from], k) {
        lemma_position_bounds(entries, k, from + 1);
    }
}

/// The entry that is read for a key, where there is one, stores a value
/// under that key.
pub proof fn lemma_slot_bounds(entries: Seq<(ValueModel, ValueModel)>, k: int)
    ensures
        0 <= slot(entries, k) <= entries.len(),
        slot(entries, k) < entries.len() ==> holds_index(entries[slot(entries, k)], k),
{
    lemma_position_bounds(entries, k, k - 1);
    lemma_position_bounds(entries, k, 0);
}

/// The run that starts at place `n` is what is left of the whole run after
/// its first `n` elements.
pub proof fn lemma_sequence_skip(entries: Seq<(ValueModel, ValueModel)>, n: int)
    requires
        0 <= n <= sequence(entries).len(),
    ensures
        sequence_from(entries, n) == sequence(entries).skip(n),
        has_index(entries, n) <==> n < sequence(entries).len(),
    decreases n,
{
    if n == 0 {
        assert(sequence(entries).skip(0) =~= sequence(entries));
    } else {
        lemma_sequence_skip(entries, n - 1);
        let before = sequence_from(entries, n - 1);
        assert(has_index(entries, n - 1));
        assert(before.skip(1) =~= sequence_from(entries, n));
        assert(sequence(entries).skip(n) =~= sequence(entries).skip(n - 1).skip(1));
    }
}

impl Value {
    /// Whether the value is nil.
    pub fn is_nil(&self) -> (r: bool)
        ensures
            r == (self@ == ValueModel::Nil),
    {
        match self {
            Value::Nil => true,
            _ => false,
        }
    }
}

/// Finds the first entry at or after `from` that stores a value under `k`.
fn find_from(entries: &Vec<(Value, Value)>, k: i64, from: usize) -> (j: usize)
    ensures
        j == position(entries_view(entries@), k as int, from as int),
{
    let ghost model = entries_view(entries@);
    let mut j: usize = from;
    while j < entries.len()
        invariant
            from <= j,
            model == entries_view(entries@),
            position(model, k as int, from as int) == position(model, k as int, j as int),
        decreases entries.len() - j,
    {
        let found = match &entries[j].0 {
            Value::Integer(i) => *i == k && !entries[j].1.is_nil(),
            _ => false,
        };
        assert(found == holds_index(model[j as int], k as int));
        if found {
            return j;
        }
        j += 1;
    }
    entries.len()
}

/// Finds the entry that is read for the integer key `k`.
pub fn find_index(entries: &Vec<(Value, Value)>, k: i64) -> (j: usize)
    ensures
        j == slot(entries_view(entries@), k as int),
        j <= entries.len(),
        j < entries.len() ==> holds_index(entries_view(entries@)[j as int], k as int),
{
    proof {
        lemma_slot_bounds(entries_view(entries@), k as int);
    }
    if k >= 1 {
        let near: usize = if (k - 1) as u64 <= usize::MAX as u64 {
            (k - 1) as usize
        } else {
            entries.len()
        };
        let j = find_from(entries, k, near);
        if j < entries.len() {
            return j;
        }
    }
    find_from(entries, k, 0)
}

/// The sequential run of a table, as references into its entries.
pub fn sequence_values<'a>(entries: &'a Vec<(Value, Value)>) -> (run: Vec<&'a Value>)
    ensures
        refs_view(run@) == sequence(entries_view(entries@)),
        reads_sequence(run@, entries@),
{
    let ghost model = entries_view(entries@);
    let mut run: Vec<&'a Value> = Vec::new();
    let mut n: usize = 0;
    loop
        invariant
            model == entries_view(entries@),
            n == run@.len(),
            n <= entries.len(),
            sequence(model) == refs_view(run@) + sequence_from(model, n as int),
            reads_sequence(run@, entries@),
        decreases entries.len() - n,
    {
        if n >= entries.len() || n as u64 >= i64::MAX as u64 {
            proof {
                if n < entries.len() {
                    lemma_slot_bounds(model, n + 1);
                }
                assert(sequence_from(model, n as int) == Seq::<ValueModel>::empty());
                assert(refs_view(run@) + Seq::<ValueModel>::empty() == refs_view(run@));
            }
            return run;
        }
        let k: i64 = (n + 1) as i64;
        let j = find_index(entries, k);
        if j >= entries.len() {
            proof {
                assert(refs_view(run@) + Seq::<ValueModel>::empty() == refs_view(run@));
            }
            return run;
        }
        let ghost before = run@;
        run.push(&entries[j].1);
        proof {
            assert(refs_view(run@) == refs_view(before) + seq![model[j as int].1]);
            assert forall|i: int| 0 <= i < run@.len() implies #[trigger] reads_index(
                run@,
                entries@,
                i,
            ) by {
                if i < before.len() {
                    assert(reads_index(before, entries@, i));
                    assert(run@[i] == before[i]);
                }
            }
            assert(refs_view(before) + (seq![model[j as int].1] + sequence_from(
                model,
                n + 1,
            )) == refs_view(run@) + sequence_from(model, n + 1));
        }
        n += 1;
    }
}

/// The length of a table: the number of elements of its sequential run.
pub fn sequence_len(entries: &Vec<(Value, Value)>) -> (n: usize)
    ensures
        n == sequence(entries_view(entries@)).len(),
{
    let run = sequence_values(entries);
    assert(refs_view(run@).len() == run@.len());
    run.len()
}

} // verus!
