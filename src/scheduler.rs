//! What the task scheduler decides: the cache that tasks of one kind share,
//! which kinds run one task at a time, and the counts that a run reports.
use vstd::prelude::*;
use crate::ast::str_eq;
use crate::tasks::cp::copy_bytes;
use crate::TaskError;

verus! {

/// One cache cell per task kind, each filled at most once in a run.
pub struct CacheCells {
    pub cells: Vec<(String, Option<Vec<u8>>)>,
}

/// The cell of kind `id`: the index of the first cell of that kind.
pub open spec fn cell_of(cells: Seq<(String, Option<Vec<u8>>)>, id: Seq<char>, i: int) -> bool {
    &&& 0 <= i < cells.len()
    &&& cells[i].0@ == id
    &&& forall|k: int| 0 <= k < i ==> (#[trigger] cells[k]).0@ != id
}

pub open spec fn has_cell(cells: Seq<(String, Option<Vec<u8>>)>, id: Seq<char>) -> bool {
    exists|i: int| 0 <= i < cells.len() && (#[trigger] cells[i]).0@ == id
}

fn find_cell(cells: &Vec<(String, Option<Vec<u8>>)>, id: &str) -> (r: Option<usize>)
    ensures
        match r {
            Some(i) => cell_of(cells@, id@, i as int),
            None => !has_cell(cells@, id@),
        },
{
    let mut i: usize = 0;
    while i < cells.len()
        invariant
            i <= cells@.len(),
            forall|k: int| 0 <= k < i ==> (#[trigger] cells@[k]).0@ != id@,
        decreases cells.len() - i,
    {
        if str_eq(cells[i].0.as_str(), id) {
            return Some(i);
        }
        i += 1;
    }
    None
}

/// The bytes that a seed gives for kind `id`: those of its first entry for it.
pub open spec fn seed_for(seed: Seq<(String, Vec<u8>)>, id: Seq<char>) -> Option<Seq<u8>>
    decreases seed.len(),
{
    if seed.len() == 0 {
        None
    } else if seed[0].0@ == id {
        Some(seed[0].1@)
    } else {
        seed_for(seed.drop_first(), id)
    }
}

/// Some cell holds `entry`: its kind and its bytes.
pub open spec fn holds_cell(cells: Seq<(String, Option<Vec<u8>>)>, entry: (String, Vec<u8>)) -> bool {
    exists|k: int|
        0 <= k < cells.len() && (#[trigger] cells[k]).0@ == entry.0@ && cells[k].1 is Some
            && cells[k].1->0@ == entry.1@
}

impl CacheCells {
    /// A cell for each kind of `ids`, empty, or holding what `seed` gives
    /// for that kind (its first entry for it: a cache kept from an earlier
    /// run).
    pub fn new(ids: &Vec<String>, seed: &Vec<(String, Vec<u8>)>) -> (r: CacheCells)
        ensures
            r.cells@.len() == ids@.len(),
            forall|i: int|
                0 <= i < ids@.len() ==> (#[trigger] r.cells@[i]).0@ == ids@[i]@ && match seed_for(
                    seed@,
                    ids@[i]@,
                ) {
                    Some(b) => r.cells@[i].1 is Some && r.cells@[i].1->0@ == b,
                    None => r.cells@[i].1 is None,
                },
    {
        let mut cells: Vec<(String, Option<Vec<u8>>)> = Vec::new();
        let mut i: usize = 0;
        while i < ids.len()
            invariant
                i <= ids@.len(),
                cells@.len() == i,
                forall|k: int|
                    0 <= k < i ==> (#[trigger] cells@[k]).0@ == ids@[k]@ && match seed_for(seed@, ids@[k]@) {
                        Some(b) => cells@[k].1 is Some && cells@[k].1->0@ == b,
                        None => cells@[k].1 is None,
                    },
            decreases ids.len() - i,
        {
            let mut value: Option<Vec<u8>> = None;
            let mut j: usize = 0;
            assert(seed@.subrange(0, seed@.len() as int) == seed@);
            while j < seed.len()
                invariant
                    i < ids@.len(),
                    j <= seed@.len(),
                    value is None ==> seed_for(seed@, ids@[i as int]@) == seed_for(
                        seed@.subrange(j as int, seed@.len() as int),
                        ids@[i as int]@,
                    ),
                    value is Some ==> seed_for(seed@, ids@[i as int]@) == Some(value->0@),
                decreases seed.len() - j,
            {
                let ghost rest = seed@.subrange(j as int, seed@.len() as int);
                assert(rest.drop_first() == seed@.subrange(j + 1, seed@.len() as int));
                if value.is_none() && str_eq(seed[j].0.as_str(), ids[i].as_str()) {
                    value = Some(copy_bytes(seed[j].1.as_slice()));
                }
                j += 1;
            }
            let ghost old_cells = cells@;
            cells.push((ids[i].clone(), value));
            assert forall|k: int| 0 <= k < i + 1 implies (#[trigger] cells@[k]).0@ == ids@[k]@ && match seed_for(
                seed@,
                ids@[k]@,
            ) {
                Some(b) => cells@[k].1 is Some && cells@[k].1->0@ == b,
                None => cells@[k].1 is None,
            } by {
                if k < i {
                    assert(cells@[k] == old_cells[k]);
                }
            }
            i += 1;
        }
        CacheCells { cells }
    }

    /// What the cell of kind `id` holds.
    pub fn get(&self, id: &str) -> (r: Option<&Vec<u8>>)
        ensures
            r is Some ==> exists|i: int|
                cell_of(self.cells@, id@, i) && self.cells@[i].1 == Some(*r->0),
            r is None ==> !has_cell(self.cells@, id@) || exists|i: int|
                cell_of(self.cells@, id@, i) && self.cells@[i].1 is None,
    {
        match find_cell(&self.cells, id) {
            Some(i) => match &self.cells[i].1 {
                Some(v) => Some(v),
                None => None,
            },
            None => None,
        }
    }

    /// Fills the cell of kind `id` with `value` unless it holds something
    /// already (the first to fill it wins). Whether it was filled now.
    pub fn fill(&mut self, id: &str, value: Vec<u8>) -> (r: bool)
        ensures
            final(self).cells@.len() == old(self).cells@.len(),
            forall|k: int| 0 <= k < old(self).cells@.len() ==> (#[trigger] final(self).cells@[k]).0 == old(self).cells@[k].0,
            r ==> exists|i: int|
                cell_of(old(self).cells@, id@, i) && old(self).cells@[i].1 is None && final(self).cells@[i].1
                    == Some(value) && forall|k: int|
                    0 <= k < old(self).cells@.len() && k != i ==> final(self).cells@[k] == old(self).cells@[k],
            !r ==> final(self).cells@ == old(self).cells@,
            !r ==> !has_cell(old(self).cells@, id@) || exists|i: int|
                cell_of(old(self).cells@, id@, i) && old(self).cells@[i].1 is Some,
    {
        match find_cell(&self.cells, id) {
            Some(i) => {
                if self.cells[i].1.is_some() {
                    return false;
                }
                let name = self.cells[i].0.clone();
                self.cells.set(i, (name, Some(value)));
                true
            },
            None => false,
        }
    }

    /// The filled cells, by kind: what a run keeps for the next one.
    pub fn persisted(&self) -> (r: Vec<(String, Vec<u8>)>)
        ensures
            r@.len() <= self.cells@.len(),
            forall|i: int| 0 <= i < r@.len() ==> holds_cell(self.cells@, #[trigger] r@[i]),
            forall|k: int|
                0 <= k < self.cells@.len() && (#[trigger] self.cells@[k]).1 is Some ==> exists|i: int|
                    0 <= i < r@.len() && r@[i].0@ == self.cells@[k].0@ && r@[i].1@ == self.cells@[k].1->0@,
    {
        let mut r: Vec<(String, Vec<u8>)> = Vec::new();
        let mut i: usize = 0;
        while i < self.cells.len()
            invariant
                i <= self.cells@.len(),
                r@.len() <= i,
                forall|j: int| 0 <= j < r@.len() ==> holds_cell(self.cells@, #[trigger] r@[j]),
                forall|k: int|
                    0 <= k < i && (#[trigger] self.cells@[k]).1 is Some ==> exists|j: int|
                        0 <= j < r@.len() && r@[j].0@ == self.cells@[k].0@ && r@[j].1@ == self.cells@[k].1->0@,
            decreases self.cells.len() - i,
        {
            match &self.cells[i].1 {
                Some(v) => {
                    let ghost old_r = r@;
                    let name = self.cells[i].0.clone();
                    let bytes = copy_bytes(v.as_slice());
                    r.push((name, bytes));
                    assert(self.cells@[i as int].0@ == r@[r@.len() - 1].0@);
                    assert(holds_cell(self.cells@, r@[r@.len() - 1]));
                    assert forall|j: int| 0 <= j < r@.len() implies holds_cell(self.cells@, #[trigger] r@[j]) by {
                        if j < old_r.len() {
                            assert(r@[j] == old_r[j]);
                        }
                    }
                    assert forall|k: int|
                        0 <= k < i + 1 && (#[trigger] self.cells@[k]).1 is Some implies exists|j: int|
                            0 <= j < r@.len() && r@[j].0@ == self.cells@[k].0@ && r@[j].1@
                                == self.cells@[k].1->0@ by {
                        if k < i {
                            let j = choose|j: int|
                                0 <= j < old_r.len() && old_r[j].0@ == self.cells@[k].0@ && old_r[j].1@
                                    == self.cells@[k].1->0@;
                            assert(r@[j] == old_r[j]);
                        } else {
                            assert(r@[old_r.len() as int].0@ == self.cells@[k].0@);
                        }
                    }
                },
                None => {},
            }
            i += 1;
        }
        r
    }
}

/// Whether tasks of kind `id` must run one at a time.
pub fn must_serialize(serialize_ids: &Vec<String>, id: &str) -> (r: bool)
    ensures
        r == exists|i: int| 0 <= i < serialize_ids@.len() && (#[trigger] serialize_ids@[i])@ == id@,
{
    let mut i: usize = 0;
    while i < serialize_ids.len()
        invariant
            i <= serialize_ids@.len(),
            forall|k: int| 0 <= k < i ==> (#[trigger] serialize_ids@[k])@ != id@,
        decreases serialize_ids.len() - i,
    {
        if str_eq(serialize_ids[i].as_str(), id) {
            return true;
        }
        i += 1;
    }
    false
}

/// The counts that a run reports: changed, unchanged and failed tasks.
pub struct RunStats {
    pub changed: u64,
    pub skipped: u64,
    pub failed: u64,
}

impl RunStats {
    pub fn new() -> (r: RunStats)
        ensures
            r.changed == 0 && r.skipped == 0 && r.failed == 0,
    {
        RunStats { changed: 0, skipped: 0, failed: 0 }
    }

    /// Counts the result of one task (saturating at the largest count).
    pub fn record(&mut self, result: &Result<bool, TaskError>)
        ensures
            final(self).changed == if old(self).changed < u64::MAX && result matches Ok(true) {
                old(self).changed + 1
            } else {
                old(self).changed as int
            },
            final(self).skipped == if old(self).skipped < u64::MAX && result matches Ok(false) {
                old(self).skipped + 1
            } else {
                old(self).skipped as int
            },
            final(self).failed == if old(self).failed < u64::MAX && result is Err {
                old(self).failed + 1
            } else {
                old(self).failed as int
            },
    {
        match result {
            Ok(true) => {
                self.changed = self.changed.saturating_add(1);
            },
            Ok(false) => {
                self.skipped = self.skipped.saturating_add(1);
            },
            Err(_) => {
                self.failed = self.failed.saturating_add(1);
            },
        }
    }
}

} // verus!
