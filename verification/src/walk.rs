//! The walk that finds reclaimable subtrees.
//!
//! The walk is breadth-first from a root. For every directory it lists, each
//! subdirectory is either measured (it may be reclaimable) or queued to be
//! listed later. A measured directory that is reported is never descended
//! into, so a reclaimable directory nested in another one is counted as part
//! of its outermost ancestor; a `~/.cache` child measured under its size
//! floor is not reported, and is queued to be listed like any other
//! directory. The caller lists directories and sizes subtrees; the queue and
//! the decisions live here.

use vstd::prelude::*;
use crate::classify::{DirFacts, EntryKind, SurveyEntry, admitted, classify_dir_name, entry_spec, kind_of, measured_entry};
use crate::size::SizeResult;
use crate::timestamp::Timestamp;

verus! {

/// What the walk does with one child of a listed directory.
#[derive(Clone, Copy, Debug, PartialEq, Eq, Structural)]
pub enum ChildStep {
    /// Not a directory: ignored.
    Skip,
    /// A directory that is not reclaimable: listed later.
    Descend,
    /// A directory of the given kind: sized, and never descended into once
    /// reported as an entry.
    Measure(EntryKind),
}

/// The step the walk takes for a child.
pub open spec fn step_for(d: DirFacts) -> ChildStep {
    if !d.is_dir_entry {
        ChildStep::Skip
    } else {
        match kind_of(d) {
            Some(k) => ChildStep::Measure(k),
            None => ChildStep::Descend,
        }
    }
}

/// Decides what the walk does with one child.
pub fn plan_child(d: &DirFacts) -> (s: ChildStep)
    ensures
        s == step_for(*d),
{
    if !d.is_dir_entry {
        ChildStep::Skip
    } else {
        match classify_dir_name(d) {
            Some(k) => ChildStep::Measure(k),
            None => ChildStep::Descend,
        }
    }
}

/// The children, in order, that the walk descends into.
pub open spec fn descended(children: Seq<DirFacts>) -> Seq<DirFacts>
    decreases children.len(),
{
    if children.len() == 0 {
        Seq::empty()
    } else {
        let rest = descended(children.drop_last());
        if step_for(children.last()) == ChildStep::Descend {
            rest.push(children.last())
        } else {
            rest
        }
    }
}

/// The children, in order, that the walk measures, with their kinds.
pub open spec fn measured(children: Seq<DirFacts>) -> Seq<(DirFacts, EntryKind)>
    decreases children.len(),
{
    if children.len() == 0 {
        Seq::empty()
    } else {
        let rest = measured(children.drop_last());
        match step_for(children.last()) {
            ChildStep::Measure(k) => rest.push((children.last(), k)),
            _ => rest,
        }
    }
}

proof fn lemma_descended_unmatched(children: Seq<DirFacts>)
    ensures
        forall|i: int| 0 <= i < descended(children).len() ==> step_for(#[trigger] descended(children)[i]) == ChildStep::Descend,
    decreases children.len(),
{
    if children.len() > 0 {
        lemma_descended_unmatched(children.drop_last());
    }
}

/// The walk lists a directory child `d` that it did not report: `d` is not
/// reclaimable and was never measured, or `d` is a `~/.cache` child that was
/// measured at `measured_size`, under its floor.
pub open spec fn walked_into(d: DirFacts, measured_size: Option<SizeResult>) -> bool {
    &&& d.is_dir_entry
    &&& {
        ||| kind_of(d) is None && measured_size is None
        ||| kind_of(d) == Some(EntryKind::CacheChild) && match measured_size {
            Some(s) => !admitted(EntryKind::CacheChild, s),
            None => false,
        }
    }
}

/// Every child whose step is to be measured is handed back for measuring,
/// once, with the kind of that step, and in the children's order; nothing
/// else is: whatever the kind, no measured child is dropped. `idx` gives the
/// position among the children of each child handed back.
pub proof fn every_measured_child_is_handed_back(children: Seq<DirFacts>) -> (idx: Seq<int>)
    ensures
        idx.len() == measured(children).len(),
        forall|j: int| 0 <= j < idx.len() ==> {
            &&& 0 <= #[trigger] idx[j] < children.len()
            &&& measured(children)[j].0 == children[idx[j]]
            &&& step_for(children[idx[j]]) == ChildStep::Measure(measured(children)[j].1)
        },
        forall|j: int, l: int| 0 <= j < l < idx.len() ==> #[trigger] idx[j] < #[trigger] idx[l],
        forall|i: int| 0 <= i < children.len() && (#[trigger] step_for(children[i])) is Measure ==> exists|j: int|
            0 <= j < idx.len() && idx[j] == i,
    decreases children.len(),
{
    if children.len() == 0 {
        Seq::empty()
    } else {
        let rest = children.drop_last();
        let prev = every_measured_child_is_handed_back(rest);
        let n = children.len() - 1;
        assert forall|i: int| 0 <= i < n implies children[i] == #[trigger] rest[i] by {}
        match step_for(children.last()) {
            ChildStep::Measure(k) => {
                let idx = prev.push(n);
                assert forall|i: int| 0 <= i < children.len() && (#[trigger] step_for(children[i])) is Measure implies exists|j: int|
                    0 <= j < idx.len() && idx[j] == i by {
                    if i < n {
                        assert(step_for(rest[i]) is Measure);
                        let j = choose|j: int| 0 <= j < prev.len() && prev[j] == i;
                        assert(idx[j] == i);
                    } else {
                        assert(idx[prev.len() as int] == i);
                    }
                }
                assert forall|j: int| 0 <= j < idx.len() implies {
                    &&& 0 <= #[trigger] idx[j] < children.len()
                    &&& measured(children)[j].0 == children[idx[j]]
                    &&& step_for(children[idx[j]]) == ChildStep::Measure(measured(children)[j].1)
                } by {
                    if j < prev.len() {
                        assert(idx[j] == prev[j]);
                        assert(measured(children)[j] == measured(rest)[j]);
                        assert(rest[prev[j]] == children[prev[j]]);
                    }
                }
                idx
            },
            _ => {
                assert forall|i: int| 0 <= i < children.len() && (#[trigger] step_for(children[i])) is Measure implies exists|j: int|
                    0 <= j < prev.len() && prev[j] == i by {
                    assert(i < n);
                    assert(step_for(rest[i]) is Measure);
                }
                assert forall|j: int| 0 <= j < prev.len() implies {
                    &&& 0 <= #[trigger] prev[j] < children.len()
                    &&& measured(children)[j].0 == children[prev[j]]
                    &&& step_for(children[prev[j]]) == ChildStep::Measure(measured(children)[j].1)
                } by {
                    assert(rest[prev[j]] == children[prev[j]]);
                }
                prev
            },
        }
    }
}

/// A directory child is measured with the kind it is classified as, and
/// walked into exactly when it is not classified: a `node_modules`
/// directory, say, is always measured as `NodeModules`.
pub proof fn directories_step_by_their_kind(d: DirFacts)
    requires
        d.is_dir_entry,
    ensures
        kind_of(d) matches Some(k) ==> step_for(d) == ChildStep::Measure(k),
        kind_of(d) is None ==> step_for(d) == ChildStep::Descend,
{
}

/// Every directory the walk lists, but the root, is a directory child that
/// it did not report, read from a directory listed before it: the walk never
/// descends into a directory it reports, so nothing nested in one is counted
/// twice.
pub open spec fn walks_only_unreported(q: WalkQueue) -> bool {
    &&& q.queued().len() == q.origins().len() + 1
    &&& q.parents().len() == q.origins().len()
    &&& q.sizes().len() == q.origins().len()
    &&& forall|i: int| 0 <= i < q.origins().len() ==> {
        &&& (#[trigger] q.origins()[i]).path@ == q.queued()[i + 1]
        &&& walked_into(q.origins()[i], q.sizes()[i])
        &&& q.parents()[i] <= i
        &&& q.parents()[i] < q.handed_out()
    }
}

/// The queue positions of the directories through which the walk reached
/// the one queued at position `i`, from the root (position 0) to `i`.
pub open spec fn lineage(q: WalkQueue, i: nat) -> Seq<nat>
    decreases i,
{
    if i == 0 || i > q.parents().len() || q.parents()[i - 1] >= i {
        seq![i]
    } else {
        lineage(q, q.parents()[i - 1]).push(i)
    }
}

/// The walk reaches every directory it queues from the root through
/// directories it listed before, none of which but the root it reported:
/// each lineage starts at the root, ends at the directory, climbs strictly,
/// passes only through directories already handed out, and every directory
/// on it after the root is a directory child the walk did not report.
pub proof fn lemma_walk_reaches_from_root(q: WalkQueue, i: nat)
    requires
        walks_only_unreported(q),
        i < q.queued().len(),
    ensures
        lineage(q, i).len() >= 1,
        lineage(q, i)[0] == 0,
        lineage(q, i).last() == i,
        forall|k: int| 0 <= k < lineage(q, i).len() - 1 ==> {
            &&& #[trigger] lineage(q, i)[k] < lineage(q, i)[k + 1]
            &&& lineage(q, i)[k] < q.handed_out()
        },
        forall|k: int| 1 <= k < lineage(q, i).len() ==> {
            &&& 1 <= #[trigger] lineage(q, i)[k]
            &&& walked_into(q.origins()[lineage(q, i)[k] - 1], q.sizes()[lineage(q, i)[k] - 1])
        },
    decreases i,
{
    if i > 0 {
        let p = q.parents()[i - 1];
        assert(q.origins()[i - 1].path@ == q.queued()[i as int]);
        lemma_walk_reaches_from_root(q, p);
        let l = lineage(q, p);
        assert(lineage(q, i) == l.push(i));
        assert forall|k: int| 0 <= k < lineage(q, i).len() - 1 implies {
            &&& #[trigger] lineage(q, i)[k] < lineage(q, i)[k + 1]
            &&& lineage(q, i)[k] < q.handed_out()
        } by {
            if k < l.len() - 1 {
                assert(lineage(q, i)[k] == l[k]);
                assert(lineage(q, i)[k + 1] == l[k + 1]);
            } else {
                assert(lineage(q, i)[k] == p);
            }
        }
        assert forall|k: int| 1 <= k < lineage(q, i).len() implies {
            &&& 1 <= #[trigger] lineage(q, i)[k]
            &&& walked_into(q.origins()[lineage(q, i)[k] - 1], q.sizes()[lineage(q, i)[k] - 1])
        } by {
            if k < l.len() {
                assert(lineage(q, i)[k] == l[k]);
            } else {
                assert(walked_into(q.origins()[i - 1], q.sizes()[i - 1]));
            }
        }
    }
}

/// The breadth-first queue of directories to list.
pub struct WalkQueue {
    dirs: Vec<String>,
    next: usize,
    origins: Ghost<Seq<DirFacts>>,
    parents: Ghost<Seq<nat>>,
    sizes: Ghost<Seq<Option<SizeResult>>>,
}

impl WalkQueue {
    /// Every directory ever queued, in queue order; the root first.
    pub closed spec fn queued(&self) -> Seq<Seq<char>> {
        self.dirs@.map_values(|d: String| d@)
    }

    /// How many queued directories have been handed out for listing.
    pub closed spec fn handed_out(&self) -> nat {
        self.next as nat
    }

    /// What the walk read about each queued directory but the root, in queue order.
    pub closed spec fn origins(&self) -> Seq<DirFacts> {
        self.origins@
    }

    /// For each queued directory but the root, in queue order, the queue
    /// position of the listed directory it was read from.
    pub closed spec fn parents(&self) -> Seq<nat> {
        self.parents@
    }

    /// For each queued directory but the root, in queue order, the size it
    /// was measured at before the walk went into it, if it was measured.
    pub closed spec fn sizes(&self) -> Seq<Option<SizeResult>> {
        self.sizes@
    }

    #[verifier::type_invariant]
    closed spec fn inv(self) -> bool {
        &&& self.next <= self.dirs.len()
        &&& self.dirs.len() == self.origins@.len() + 1
        &&& self.parents@.len() == self.origins@.len()
        &&& self.sizes@.len() == self.origins@.len()
        &&& forall|i: int| 0 <= i < self.origins@.len() ==> {
            &&& (#[trigger] self.origins@[i]).path@ == self.dirs@[i + 1]@
            &&& walked_into(self.origins@[i], self.sizes@[i])
            &&& self.parents@[i] <= i
            &&& self.parents@[i] < self.next
        }
    }

    /// A walk that starts at `root`.
    pub fn new(root: String) -> (q: WalkQueue)
        ensures
            q.queued() == seq![root@],
            q.handed_out() == 0,
            q.origins() == Seq::<DirFacts>::empty(),
            q.parents() == Seq::<nat>::empty(),
            q.sizes() == Seq::<Option<SizeResult>>::empty(),
            walks_only_unreported(q),
    {
        let mut dirs: Vec<String> = Vec::new();
        dirs.push(root);
        let q = WalkQueue {
            dirs,
            next: 0,
            origins: Ghost(Seq::empty()),
            parents: Ghost(Seq::empty()),
            sizes: Ghost(Seq::empty()),
        };
        assert(q.queued() =~= seq![root@]);
        q
    }

    /// The next directory to list, in first-in first-out order; `None` when
    /// every queued directory has been handed out.
    pub fn next_dir(&mut self) -> (d: Option<String>)
        ensures
            final(self).queued() == old(self).queued(),
            final(self).origins() == old(self).origins(),
            final(self).parents() == old(self).parents(),
            final(self).sizes() == old(self).sizes(),
            walks_only_unreported(*final(self)),
            old(self).handed_out() < old(self).queued().len() ==> {
                &&& d matches Some(p) && p@ == old(self).queued()[old(self).handed_out() as int]
                &&& final(self).handed_out() == old(self).handed_out() + 1
            },
            old(self).handed_out() >= old(self).queued().len() ==> {
                &&& d is None
                &&& final(self).handed_out() == old(self).handed_out()
            },
    {
        proof {
            use_type_invariant(&*self);
        }
        if self.next < self.dirs.len() {
            let d = self.dirs[self.next].clone();
            self.next = self.next + 1;
            proof {
                use_type_invariant(&*self);
            }
            Some(d)
        } else {
            None
        }
    }

    /// Takes in the children of the directory handed out last: queues, in
    /// order, those to descend into, and returns, in order, the positions in
    /// `children` and the kinds of those to measure.
    pub fn absorb(&mut self, children: &Vec<DirFacts>) -> (to_measure: Vec<(usize, EntryKind)>)
        requires
            old(self).handed_out() > 0,
        ensures
            final(self).queued() == old(self).queued() + descended(children@).map_values(|d: DirFacts| d.path@),
            final(self).origins() == old(self).origins() + descended(children@),
            final(self).parents() == old(self).parents() + Seq::new(
                descended(children@).len(),
                |k: int| (old(self).handed_out() - 1) as nat,
            ),
            final(self).sizes() == old(self).sizes() + Seq::new(
                descended(children@).len(),
                |k: int| None::<SizeResult>,
            ),
            final(self).handed_out() == old(self).handed_out(),
            walks_only_unreported(*final(self)),
            to_measure@.len() == measured(children@).len(),
            forall|i: int| 0 <= i < to_measure@.len() ==> {
                &&& (#[trigger] to_measure@[i]).0 < children@.len()
                &&& children@[to_measure@[i].0 as int] == measured(children@)[i].0
                &&& to_measure@[i].1 == measured(children@)[i].1
            },
    {
        proof {
            use_type_invariant(&*self);
        }
        let ghost start_dirs = self.dirs@;
        let ghost start_origins = self.origins@;
        let ghost start_parents = self.parents@;
        let ghost start_sizes = self.sizes@;
        let mut placeholder_dirs: Vec<String> = Vec::new();
        placeholder_dirs.push(String::new());
        let mut taken = WalkQueue {
            dirs: placeholder_dirs,
            next: 0,
            origins: Ghost(Seq::empty()),
            parents: Ghost(Seq::empty()),
            sizes: Ghost(Seq::empty()),
        };
        std::mem::swap(&mut taken, self);
        let WalkQueue { dirs: mut dirs, next, origins: _, parents: _, sizes: _ } = taken;
        let mut to_measure: Vec<(usize, EntryKind)> = Vec::new();
        let mut i: usize = 0;
        while i < children.len()
            invariant
                0 <= i <= children.len(),
                dirs@.len() == start_dirs.len() + descended(children@.take(i as int)).len(),
                forall|j: int| 0 <= j < start_dirs.len() ==> #[trigger] dirs@[j] == start_dirs[j],
                forall|j: int| 0 <= j < descended(children@.take(i as int)).len() ==>
                    (#[trigger] dirs@[start_dirs.len() + j])@ == descended(children@.take(i as int))[j].path@,
                to_measure@.len() == measured(children@.take(i as int)).len(),
                forall|j: int| 0 <= j < to_measure@.len() ==> {
                    &&& (#[trigger] to_measure@[j]).0 < i
                    &&& children@[to_measure@[j].0 as int] == measured(children@.take(i as int))[j].0
                    &&& to_measure@[j].1 == measured(children@.take(i as int))[j].1
                },
            decreases children.len() - i,
        {
            let ghost before = children@.take(i as int);
            assert(children@.take(i + 1).drop_last() =~= before);
            let c = &children[i];
            match plan_child(c) {
                ChildStep::Skip => {},
                ChildStep::Descend => {
                    dirs.push(c.path.clone());
                },
                ChildStep::Measure(k) => {
                    to_measure.push((i, k));
                },
            }
            i = i + 1;
        }
        assert(children@.take(children.len() as int) =~= children@);
        let ghost new_parents = start_parents + Seq::new(
            descended(children@).len(),
            |k: int| (next - 1) as nat,
        );
        let ghost new_sizes = start_sizes + Seq::new(descended(children@).len(), |k: int| None::<SizeResult>);
        proof {
            lemma_descended_unmatched(children@);
            let new_origins = start_origins + descended(children@);
            assert(next <= start_dirs.len());
            assert forall|j: int| 0 <= j < new_origins.len() implies {
                &&& (#[trigger] new_origins[j]).path@ == dirs@[j + 1]@
                &&& walked_into(new_origins[j], new_sizes[j])
                &&& new_parents[j] <= j
                &&& new_parents[j] < next
            } by {
                if j < start_origins.len() {
                    assert(new_origins[j] == start_origins[j]);
                    assert(new_parents[j] == start_parents[j]);
                    assert(new_sizes[j] == start_sizes[j]);
                } else {
                    let k = j - start_origins.len();
                    assert(new_origins[j] == descended(children@)[k]);
                    assert(dirs@[start_dirs.len() + k] == dirs@[j + 1]);
                    assert(new_parents[j] == next - 1);
                    assert(new_sizes[j] is None);
                    assert(step_for(new_origins[j]) == ChildStep::Descend);
                }
            }
        }
        *self = WalkQueue {
            dirs,
            next,
            origins: Ghost(start_origins + descended(children@)),
            parents: Ghost(new_parents),
            sizes: Ghost(new_sizes),
        };
        proof {
            use_type_invariant(&*self);
        }
        proof {
            let lhs = self.queued();
            let rhs = old(self).queued() + descended(children@).map_values(|d: DirFacts| d.path@);
            assert(old(self).queued() == start_dirs.map_values(|d: String| d@));
            assert forall|k: int| 0 <= k < lhs.len() implies lhs[k] == rhs[k] by {
                if k < start_dirs.len() {
                    assert(self.dirs@[k] == start_dirs[k]);
                } else {
                    let j = k - start_dirs.len();
                    assert(self.dirs@[start_dirs.len() + j]@ == descended(children@)[j].path@);
                }
            }
            assert(lhs =~= rhs);
        }
        to_measure
    }

    /// Settles a child that [`WalkQueue::absorb`] gave to measure, of kind
    /// `kind`, once it is sized as `size`: its entry when it is reported (see
    /// [`admitted`]); otherwise, a `~/.cache` child under its floor, it is
    /// queued to be listed like any other directory, and `None` comes back.
    pub fn settle(&mut self, child: &DirFacts, kind: EntryKind, size: &SizeResult, now: &Timestamp) -> (r: Option<
        SurveyEntry,
    >)
        requires
            old(self).handed_out() > 0,
            step_for(*child) == ChildStep::Measure(kind),
        ensures
            r is Some <==> admitted(kind, *size),
            r matches Some(e) ==> entry_spec(e, child.path@, kind, *size, *now),
            final(self).handed_out() == old(self).handed_out(),
            walks_only_unreported(*final(self)),
            admitted(kind, *size) ==> {
                &&& final(self).queued() == old(self).queued()
                &&& final(self).origins() == old(self).origins()
                &&& final(self).parents() == old(self).parents()
                &&& final(self).sizes() == old(self).sizes()
            },
            !admitted(kind, *size) ==> {
                &&& final(self).queued() == old(self).queued().push(child.path@)
                &&& final(self).origins() == old(self).origins().push(*child)
                &&& final(self).parents() == old(self).parents().push((old(self).handed_out() - 1) as nat)
                &&& final(self).sizes() == old(self).sizes().push(Some(*size))
            },
    {
        proof {
            use_type_invariant(&*self);
        }
        let r = measured_entry(child.path.clone(), kind, size, now);
        if r.is_none() {
            let ghost start_dirs = self.dirs@;
            let ghost start_origins = self.origins@;
            let ghost start_parents = self.parents@;
            let ghost start_sizes = self.sizes@;
            let mut placeholder_dirs: Vec<String> = Vec::new();
            placeholder_dirs.push(String::new());
            let mut taken = WalkQueue {
                dirs: placeholder_dirs,
                next: 0,
                origins: Ghost(Seq::empty()),
                parents: Ghost(Seq::empty()),
                sizes: Ghost(Seq::empty()),
            };
            std::mem::swap(&mut taken, self);
            let WalkQueue { dirs: mut dirs, next, origins: _, parents: _, sizes: _ } = taken;
            dirs.push(child.path.clone());
            let ghost new_origins = start_origins.push(*child);
            let ghost new_parents = start_parents.push((next - 1) as nat);
            let ghost new_sizes = start_sizes.push(Some(*size));
            proof {
                assert forall|j: int| 0 <= j < new_origins.len() implies {
                    &&& (#[trigger] new_origins[j]).path@ == dirs@[j + 1]@
                    &&& walked_into(new_origins[j], new_sizes[j])
                    &&& new_parents[j] <= j
                    &&& new_parents[j] < next
                } by {
                    if j < start_origins.len() {
                        assert(new_origins[j] == start_origins[j]);
                        assert(new_parents[j] == start_parents[j]);
                        assert(new_sizes[j] == start_sizes[j]);
                        assert(dirs@[j + 1] == start_dirs[j + 1]);
                    } else {
                        assert(new_origins[j] == *child);
                        assert(kind == EntryKind::CacheChild);
                    }
                }
            }
            *self = WalkQueue {
                dirs,
                next,
                origins: Ghost(new_origins),
                parents: Ghost(new_parents),
                sizes: Ghost(new_sizes),
            };
            proof {
                use_type_invariant(&*self);
                assert(self.queued() =~= old(self).queued().push(child.path@));
            }
        }
        r
    }
}

} // verus!
