//! Compaction: merging sorted runs, newest first, so that each key keeps only its
//! newest entry; plus the task queue and the policy selection.
use vstd::prelude::*;
pub use crate::config::CompactionStrategy;
use crate::error::Error;
use crate::run::{drop_tombstones, entries_map, keys_ascending, lemma_entries_map_push, live_only, SortedRun};
use crate::api::AuraEngine;
use crate::storage::{EntryModel, OpType};

verus! {

/// What a stack of runs says, newest first: a key's entry is the one in the newest run
/// that has the key.
pub open spec fn layered(maps: Seq<Map<Seq<u8>, EntryModel>>) -> Map<Seq<u8>, EntryModel>
    decreases maps.len(),
{
    if maps.len() == 0 {
        Map::empty()
    } else {
        layered(maps.drop_first()).union_prefer_right(maps[0])
    }
}

/// Merges a newer run into an older one: each key keeps the newer run's entry if it has
/// one, else the older run's.
pub fn merge_runs(newer: &SortedRun, older: SortedRun) -> (r: SortedRun)
    requires
        newer.well_formed(),
        older.well_formed(),
    ensures
        r.well_formed(),
        r@ == older@.union_prefer_right(newer@),
{
    let entries = newer.entries();
    let mut acc = older;
    let mut i: usize = 0;
    proof {
        assert(entries_map(entries@.take(0)) =~= Map::<Seq<u8>, EntryModel>::empty());
        assert(acc@ =~= older@.union_prefer_right(entries_map(entries@.take(0))));
    }
    while i < entries.len()
        invariant
            0 <= i <= entries@.len(),
            keys_ascending(entries@),
            entries_map(entries@) == newer@,
            acc.well_formed(),
            acc@ == older@.union_prefer_right(entries_map(entries@.take(i as int))),
        decreases entries@.len() - i,
    {
        let ghost pre = entries@.take(i as int);
        proof {
            let next = entries@.take(i + 1);
            assert(next =~= pre.push(entries@[i as int]));
            assert(keys_ascending(next)) by {
                assert forall|a: int, b: int| 0 <= a < b < next.len() implies crate::bytes::bytes_lt(#[trigger] next[a].key@, #[trigger] next[b].key@) by {
                    assert(next[a] == entries@[a] && next[b] == entries@[b]);
                }
            }
            lemma_entries_map_push(pre, entries@[i as int]);
        }
        acc.insert(entries[i].duplicate());
        proof {
            let e = entries@[i as int];
            assert(acc@ =~= older@.union_prefer_right(entries_map(entries@.take(i + 1))));
        }
        i = i + 1;
    }
    proof {
        assert(entries@.take(i as int) =~= entries@);
    }
    acc
}

/// Merges runs, newest first, into one run that says what the stack says; tombstones
/// are dropped when `bottom` holds, as nothing below can hold the key.
pub fn compact_runs(runs: Vec<SortedRun>, bottom: bool) -> (r: SortedRun)
    requires
        forall|i: int| 0 <= i < runs@.len() ==> (#[trigger] runs@[i]).well_formed(),
    ensures
        r.well_formed(),
        r@ == if bottom {
            live_only(layered(runs@.map_values(|x: SortedRun| x@)))
        } else {
            layered(runs@.map_values(|x: SortedRun| x@))
        },
{
    let ghost maps = runs@.map_values(|x: SortedRun| x@);
    let mut runs = runs;
    let mut acc = SortedRun::new();
    let n = runs.len();
    proof {
        assert(maps.skip(n as int) =~= Seq::<Map<Seq<u8>, EntryModel>>::empty());
        assert(acc@ =~= layered(maps.skip(n as int)));
    }
    let mut i: usize = n;
    while i > 0
        invariant
            0 <= i <= n,
            runs@.len() == i,
            maps.len() == n,
            forall|j: int| 0 <= j < i ==> (#[trigger] runs@[j]).well_formed() && runs@[j]@ == maps[j],
            acc.well_formed(),
            acc@ == layered(maps.skip(i as int)),
        decreases i,
    {
        let ghost j = (i - 1) as int;
        let ghost last = runs@[j];
        let top = runs.pop().unwrap();
        proof {
            assert(top == last);
            assert(maps.skip(j).drop_first() =~= maps.skip(i as int));
            assert(maps.skip(j)[0] == maps[j]);
        }
        acc = merge_runs(&top, acc);
        i = i - 1;
    }
    proof {
        assert(maps.skip(0) =~= maps);
    }
    if bottom {
        let entries = acc.take_entries();
        let live = drop_tombstones(entries);
        SortedRun::from_sorted(live)
    } else {
        acc
    }
}

/// A compaction task.
#[derive(Debug, Clone)]
pub struct CompactionTask {
    pub id: u64,
    pub source_level: u32,
    pub target_level: u32,
    pub input_files: Vec<String>,
    pub output_file: String,
    pub priority: u32,
}

/// The queue of pending compaction tasks, highest priority first, ties in order of
/// scheduling.
#[derive(Debug)]
pub struct CompactionManager {
    pending: Vec<CompactionTask>,
    completed: u64,
}

/// Priorities do not increase along the queue.
pub open spec fn by_priority(tasks: Seq<CompactionTask>) -> bool {
    forall|i: int, j: int| 0 <= i < j < tasks.len() ==> (#[trigger] tasks[i]).priority >= (#[trigger] tasks[j]).priority
}

impl CompactionManager {
    pub closed spec fn spec_pending(&self) -> Seq<CompactionTask> {
        self.pending@
    }

    pub closed spec fn spec_completed(&self) -> u64 {
        self.completed
    }

    /// An empty queue.
    pub fn new() -> (r: CompactionManager)
        ensures
            r.spec_pending().len() == 0,
            r.spec_completed() == 0,
    {
        CompactionManager { pending: Vec::new(), completed: 0 }
    }

    /// Queues a task behind every task of at least its priority.
    pub fn schedule_task(&mut self, task: CompactionTask) -> (r: Result<(), Error>)
        requires
            by_priority(old(self).spec_pending()),
        ensures
            r is Ok,
            by_priority(final(self).spec_pending()),
            final(self).spec_pending().len() == old(self).spec_pending().len() + 1,
            final(self).spec_pending().to_multiset() == old(self).spec_pending().to_multiset().insert(task),
            final(self).spec_completed() == old(self).spec_completed(),
    {
        let ghost before = self.pending@;
        let mut at: usize = 0;
        while at < self.pending.len() && self.pending[at].priority >= task.priority
            invariant
                self.pending@ == before,
                0 <= at <= before.len(),
                forall|i: int| 0 <= i < at ==> (#[trigger] before[i]).priority >= task.priority,
            decreases before.len() - at,
        {
            at = at + 1;
        }
        self.pending.insert(at, task);
        proof {
            let s = self.pending@;
            assert(s == before.insert(at as int, task));
            assert forall|i: int, j: int| 0 <= i < j < s.len() implies (#[trigger] s[i]).priority >= (#[trigger] s[j]).priority by {
                if i < at && j < at {
                } else if i < at && j == at {
                } else if i < at {
                    assert(s[j] == before[j - 1]);
                    assert(before[i].priority >= before[j - 1].priority);
                } else if i == at {
                    if at < before.len() {
                        assert(before[at as int].priority < task.priority);
                        if j - 1 > at {
                            assert(before[at as int].priority >= before[j - 1].priority);
                        }
                    }
                } else {
                    assert(before[i - 1].priority >= before[j - 1].priority);
                }
            }
            vstd::seq_lib::to_multiset_insert(before, at as int, task);
        }
        Ok(())
    }

    /// The pending tasks, in queue order.
    pub fn get_pending_tasks(&self) -> (r: Vec<CompactionTask>)
        ensures
            r@.len() == self.spec_pending().len(),
            forall|i: int| 0 <= i < r@.len() ==> (#[trigger] r@[i]).id == self.spec_pending()[i].id
                && r@[i].priority == self.spec_pending()[i].priority
                && r@[i].source_level == self.spec_pending()[i].source_level
                && r@[i].target_level == self.spec_pending()[i].target_level,
    {
        let mut out: Vec<CompactionTask> = Vec::new();
        let mut i: usize = 0;
        while i < self.pending.len()
            invariant
                0 <= i <= self.pending@.len(),
                out@.len() == i,
                forall|j: int| 0 <= j < i ==> (#[trigger] out@[j]).id == self.pending@[j].id
                    && out@[j].priority == self.pending@[j].priority
                    && out@[j].source_level == self.pending@[j].source_level
                    && out@[j].target_level == self.pending@[j].target_level,
            decreases self.pending@.len() - i,
        {
            let t = &self.pending[i];
            out.push(CompactionTask {
                id: t.id,
                source_level: t.source_level,
                target_level: t.target_level,
                input_files: t.input_files.clone(),
                output_file: t.output_file.clone(),
                priority: t.priority,
            });
            i = i + 1;
        }
        out
    }

    /// Takes the task at the head of the queue, if any, to run it.
    pub fn next_task(&mut self) -> (r: Option<CompactionTask>)
        ensures
            r is Some <==> old(self).spec_pending().len() > 0,
            r is Some ==> r.unwrap() == old(self).spec_pending()[0]
                && final(self).spec_pending() == old(self).spec_pending().drop_first(),
            r is None ==> final(self).spec_pending() == old(self).spec_pending(),
            final(self).spec_completed() == old(self).spec_completed(),
    {
        if self.pending.len() == 0 {
            None
        } else {
            Some(self.pending.remove(0))
        }
    }

    /// Runs the pending tasks as one full compaction of the engine: every table is
    /// merged into one, each key keeping only its newest entry and tombstones dropped,
    /// and the queue is emptied. What the engine makes visible does not change.
    pub fn run_compaction(&mut self, engine: &mut AuraEngine) -> (r: Result<(), Error>)
        requires
            old(engine).well_formed(),
        ensures
            r is Ok,
            final(engine).well_formed(),
            final(engine)@ == old(engine)@,
            final(engine).spec_pending() == old(engine).spec_pending(),
            final(engine).spec_vlog() == old(engine).spec_vlog(),
            old(engine).spec_table_ids_left() >= 2 ==> final(engine).spec_table_count() == 1
                && final(engine).spec_memtable() == Map::<Seq<u8>, EntryModel>::empty()
                && forall|k: Seq<u8>| #[trigger] final(engine).spec_holding(k) == if old(engine).state().contains_key(k)
                    && old(engine).state()[k].op_type != OpType::Delete { 1nat } else { 0nat },
            final(self).spec_pending().len() == 0,
            final(self).spec_completed() == if old(self).spec_completed() + old(self).spec_pending().len() > u64::MAX {
                u64::MAX as int
            } else {
                old(self).spec_completed() + old(self).spec_pending().len()
            },
    {
        let _ = engine.compact();
        let n = self.pending.len() as u64;
        self.completed = if self.completed > u64::MAX - n { u64::MAX } else { self.completed + n };
        self.pending = Vec::new();
        Ok(())
    }

    /// The number of tasks run so far, saturating.
    pub fn completed_tasks(&self) -> (r: u64)
        ensures
            r == self.spec_completed(),
    {
        self.completed
    }
}

/// The point where an external observer chooses the compaction policy; leveled until it
/// has chosen.
#[derive(Debug)]
pub struct RlCompactionAgent {
    choice: Option<CompactionStrategy>,
    observations: u64,
}

impl RlCompactionAgent {
    pub closed spec fn spec_choice(&self) -> Option<CompactionStrategy> {
        self.choice
    }

    pub closed spec fn spec_observations(&self) -> u64 {
        self.observations
    }

    /// An agent that has chosen nothing.
    pub fn new() -> (r: RlCompactionAgent)
        ensures
            r.spec_choice() is None,
            r.spec_observations() == 0,
    {
        RlCompactionAgent { choice: None, observations: 0 }
    }

    /// Counts one observation of the engine's state.
    pub fn observe_state(&mut self) -> (r: Result<(), Error>)
        ensures
            r is Ok,
            final(self).spec_choice() == old(self).spec_choice(),
            final(self).spec_observations() == if old(self).spec_observations() == u64::MAX {
                u64::MAX
            } else {
                (old(self).spec_observations() + 1) as u64
            },
    {
        self.observations = if self.observations == u64::MAX { u64::MAX } else { self.observations + 1 };
        Ok(())
    }

    /// Records the policy the observer chose.
    pub fn set_policy(&mut self, strategy: CompactionStrategy)
        ensures
            final(self).spec_choice() == Some(strategy),
            final(self).spec_observations() == old(self).spec_observations(),
    {
        self.choice = Some(strategy);
    }

    /// The chosen policy, or leveled if none was chosen.
    pub fn select_action(&self) -> (r: CompactionStrategy)
        ensures
            r == match self.spec_choice() {
                Some(s) => s,
                None => CompactionStrategy::Leveled,
            },
    {
        match self.choice {
            Some(s) => s,
            None => CompactionStrategy::Leveled,
        }
    }
}

} // verus!

verus! {

/// A key's entry in a stack is the one of the first run that has it.
pub proof fn lemma_layered_lookup(maps: Seq<Map<Seq<u8>, EntryModel>>, i: int, k: Seq<u8>)
    requires
        0 <= i < maps.len(),
        forall|j: int| 0 <= j < i ==> !(#[trigger] maps[j]).contains_key(k),
        maps[i].contains_key(k),
    ensures
        layered(maps).contains_key(k),
        layered(maps)[k] == maps[i][k],
    decreases i,
{
    if i > 0 {
        let rest = maps.drop_first();
        assert forall|j: int| 0 <= j < i - 1 implies !(#[trigger] rest[j]).contains_key(k) by {
            assert(rest[j] == maps[j + 1]);
        }
        lemma_layered_lookup(rest, i - 1, k);
        assert(!maps[0].contains_key(k));
    }
}

/// A key that no run has is not in the stack.
pub proof fn lemma_layered_absent(maps: Seq<Map<Seq<u8>, EntryModel>>, k: Seq<u8>)
    requires
        forall|j: int| 0 <= j < maps.len() ==> !(#[trigger] maps[j]).contains_key(k),
    ensures
        !layered(maps).contains_key(k),
    decreases maps.len(),
{
    if maps.len() > 0 {
        let rest = maps.drop_first();
        assert forall|j: int| 0 <= j < rest.len() implies !(#[trigger] rest[j]).contains_key(k) by {
            assert(rest[j] == maps[j + 1]);
        }
        lemma_layered_absent(rest, k);
    }
}

/// A stack with a run on top is the rest overlaid with that run.
pub proof fn lemma_layered_cons(m: Map<Seq<u8>, EntryModel>, rest: Seq<Map<Seq<u8>, EntryModel>>)
    ensures
        layered(seq![m] + rest) == layered(rest).union_prefer_right(m),
{
    assert((seq![m] + rest).drop_first() =~= rest);
}

} // verus!
