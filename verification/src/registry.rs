//! The watcher registry: the process-wide table mapping each watched folder
//! path to its watch handle. It is the one shared mutable structure of the
//! synchronizer; every operation is a single indivisible check-and-act, so
//! that two concurrent attempts to watch the same folder can never both
//! succeed. The caller serializes access (one lock around the registry) and
//! each method below is what one critical section does.

use vstd::prelude::*;
use vstd::pervasive::VecAdditionalExecFns;
use crate::assoc::assoc_map;
use crate::assoc::distinct_keys;
use crate::assoc::lemma_assoc_map_contains;
use crate::assoc::lemma_assoc_map_index;
use crate::assoc::lemma_assoc_map_len;
use crate::assoc::lemma_assoc_map_push;
use crate::assoc::lemma_assoc_map_remove;
use crate::assoc::lemma_assoc_map_update;
use crate::paths::str_eq;

verus! {

/// The state of one registered folder: a placeholder while the OS watch is
/// still being created, then the watch handle itself. The handle is owned
/// exclusively by its slot and leaves it only through deregistration.
pub enum WatchSlot<H> {
    Pending,
    Active(H),
}

/// The registry: an association list from folder path to watch slot, with
/// each folder present at most once.
pub struct WatcherRegistry<H> {
    entries: Vec<(String, WatchSlot<H>)>,
}

impl<H> View for WatcherRegistry<H> {
    type V = Map<Seq<char>, WatchSlot<H>>;

    closed spec fn view(&self) -> Map<Seq<char>, WatchSlot<H>> {
        assoc_map(self.entries@)
    }
}

/// What one `try_register` does to the registry map: nothing when the
/// folder is present, else it gains a pending slot. The second component
/// says whether this call was the successful one.
pub open spec fn spec_try_register<H>(m: Map<Seq<char>, WatchSlot<H>>, folder: Seq<char>) -> (
    Map<Seq<char>, WatchSlot<H>>,
    bool,
) {
    if m.contains_key(folder) {
        (m, false)
    } else {
        (m.insert(folder, WatchSlot::Pending), true)
    }
}

impl<H> WatcherRegistry<H> {
    /// The registry's invariant: no folder is listed twice.
    pub closed spec fn wf(&self) -> bool {
        distinct_keys(self.entries@)
    }

    /// An empty registry: nothing is watched.
    pub fn new() -> (r: Self)
        ensures
            r.wf(),
            r@ == Map::<Seq<char>, WatchSlot<H>>::empty(),
    {
        WatcherRegistry { entries: Vec::new() }
    }

    /// The index at which `folder` is listed, if any.
    fn find_index(&self, folder: &str) -> (r: Option<usize>)
        ensures
            match r {
                Option::Some(i) => i < self.entries@.len() && self.entries@[i as int].0@
                    == folder@,
                Option::None => forall|i: int|
                    0 <= i < self.entries@.len() ==> (#[trigger] self.entries@[i]).0@ != folder@,
            },
    {
        let n = self.entries.len();
        let mut i: usize = 0;
        while i < n
            invariant
                i <= n,
                n == self.entries@.len(),
                forall|j: int| 0 <= j < i ==> (#[trigger] self.entries@[j]).0@ != folder@,
            decreases n - i,
        {
            if str_eq(self.entries[i].0.as_str(), folder) {
                return Option::Some(i);
            }
            i = i + 1;
        }
        Option::None
    }

    /// Whether `folder` is currently registered.
    pub fn contains(&self, folder: &str) -> (r: bool)
        requires
            self.wf(),
        ensures
            r == self@.contains_key(folder@),
    {
        proof {
            lemma_assoc_map_contains(self.entries@, folder@);
        }
        match self.find_index(folder) {
            Option::Some(i) => {
                proof {
                    assert(self.entries@[i as int].0@ == folder@);
                }
                true
            },
            Option::None => false,
        }
    }

    /// Atomically test absence and insert: when `folder` is not yet
    /// registered, claim it with a pending slot and report success; when it
    /// is, change nothing and report that this call was a no-op.
    pub fn try_register(&mut self, folder: &str) -> (r: bool)
        requires
            old(self).wf(),
        ensures
            final(self).wf(),
            r == !old(self)@.contains_key(folder@),
            final(self)@ == spec_try_register(old(self)@, folder@).0,
            r == spec_try_register(old(self)@, folder@).1,
    {
        proof {
            lemma_assoc_map_contains(self.entries@, folder@);
        }
        match self.find_index(folder) {
            Option::Some(i) => {
                proof {
                    assert(self.entries@[i as int].0@ == folder@);
                }
                false
            },
            Option::None => {
                let owned = folder.to_owned();
                proof {
                    lemma_assoc_map_push(self.entries@, (owned, WatchSlot::<H>::Pending));
                }
                self.entries.push((owned, WatchSlot::Pending));
                true
            },
        }
    }

    /// Install the watch handle for a folder whose slot is still pending:
    /// the step completing a successful `start` once the OS watch exists.
    pub fn activate(&mut self, folder: &str, handle: H)
        requires
            old(self).wf(),
            old(self)@.contains_key(folder@),
            old(self)@[folder@] is Pending,
        ensures
            final(self).wf(),
            final(self)@ == old(self)@.insert(folder@, WatchSlot::Active(handle)),
    {
        proof {
            lemma_assoc_map_contains(self.entries@, folder@);
        }
        match self.find_index(folder) {
            Option::Some(i) => {
                let owned = folder.to_owned();
                proof {
                    lemma_assoc_map_update(
                        self.entries@,
                        i as int,
                        (owned, WatchSlot::Active(handle)),
                    );
                }
                self.entries.set(i, (owned, WatchSlot::Active(handle)));
            },
            Option::None => {
                proof {
                    assert(false);
                }
            },
        }
    }

    /// Atomically remove `folder` and hand back its slot, or report that it
    /// was not registered. The returned handle, if any, is the caller's to
    /// tear down; the registry forgets it in the same step.
    pub fn deregister(&mut self, folder: &str) -> (r: Option<WatchSlot<H>>)
        requires
            old(self).wf(),
        ensures
            final(self).wf(),
            match r {
                Option::Some(slot) => old(self)@.contains_key(folder@) && slot == old(
                    self,
                )@[folder@] && final(self)@ == old(self)@.remove(folder@),
                Option::None => !old(self)@.contains_key(folder@) && final(self)@ == old(self)@,
            },
    {
        proof {
            lemma_assoc_map_contains(self.entries@, folder@);
        }
        match self.find_index(folder) {
            Option::Some(i) => {
                proof {
                    lemma_assoc_map_index(self.entries@, i as int);
                    lemma_assoc_map_remove(self.entries@, i as int);
                }
                let (_, slot) = self.entries.remove(i);
                Option::Some(slot)
            },
            Option::None => Option::None,
        }
    }

    /// How many folders are registered.
    pub fn len(&self) -> (r: usize)
        requires
            self.wf(),
        ensures
            r == self@.len(),
    {
        proof {
            lemma_assoc_map_len(self.entries@);
        }
        self.entries.len()
    }
}

/// The registry map and success count after `n` attempts to register
/// `folder`, one after the other.
pub open spec fn spec_register_rounds<H>(
    m: Map<Seq<char>, WatchSlot<H>>,
    folder: Seq<char>,
    n: nat,
) -> (Map<Seq<char>, WatchSlot<H>>, nat)
    decreases n,
{
    if n == 0 {
        (m, 0)
    } else {
        let prev = spec_register_rounds(m, folder, (n - 1) as nat);
        let step = spec_try_register(prev.0, folder);
        (step.0, prev.1 + if step.1 {
            1nat
        } else {
            0nat
        })
    }
}

/// Registry exclusivity: however many callers race to register the same
/// folder, serialized through the registry's critical section, exactly one
/// succeeds and the rest are no-ops, and afterwards the folder is
/// registered exactly once, every other folder untouched.
pub proof fn lemma_register_exclusive<H>(
    m: Map<Seq<char>, WatchSlot<H>>,
    folder: Seq<char>,
    n: nat,
)
    requires
        !m.contains_key(folder),
        n >= 1,
    ensures
        spec_register_rounds::<H>(m, folder, n).1 == 1,
        spec_register_rounds::<H>(m, folder, n).0 == m.insert(folder, WatchSlot::<H>::Pending),
    decreases n,
{
    if n == 1 {
        assert(spec_register_rounds::<H>(m, folder, 0) == (m, 0nat));
    } else {
        lemma_register_exclusive::<H>(m, folder, (n - 1) as nat);
    }
}

} // verus!
