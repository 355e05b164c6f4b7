//! The ready queue: one first-in-first-out list of tasks per priority level,
//! and a bitmap that tells which levels hold a task.
use vstd::prelude::*;
use crate::prio_bitmap::{lemma_lowest_set_is_lowest, lowest_set, FixedPrioBitmap, FIXED_PRIO_BITMAP_MAX_LEN};

verus! {

/// The ready queue as plain data: the lists by level, level 0 being the most
/// urgent, and the 64 flags of the bitmap.
pub struct ReadyQueueView {
    pub levels: Seq<Seq<usize>>,
    pub bitmap: Seq<bool>,
}

impl ReadyQueueView {
    /// There is at least one level and at most as many as the bitmap has
    /// bits, and a level's flag is set exactly where the level holds a task.
    pub open spec fn wf(self) -> bool {
        &&& 1 <= self.levels.len() <= FIXED_PRIO_BITMAP_MAX_LEN
        &&& self.bitmap.len() == FIXED_PRIO_BITMAP_MAX_LEN
        &&& forall|p: int|
            0 <= p < self.bitmap.len() ==> (#[trigger] self.bitmap[p] <==> p < self.levels.len()
                && self.levels[p].len() > 0)
    }

    /// Task `t` waits at level `p`.
    pub open spec fn holds(self, p: int, t: usize) -> bool {
        0 <= p < self.levels.len() && self.levels[p].contains(t)
    }

    /// Task `t` is somewhere in the queue.
    pub open spec fn contains(self, t: usize) -> bool {
        exists|p: int| self.holds(p, t)
    }

    /// No task occurs twice, neither within a level nor across levels.
    pub open spec fn no_duplicates(self) -> bool {
        &&& forall|p: int| 0 <= p < self.levels.len() ==> (#[trigger] self.levels[p]).no_duplicates()
        &&& forall|p: int, q: int, t: usize|
            #![trigger self.holds(p, t), self.holds(q, t)]
            p != q && self.holds(p, t) ==> !self.holds(q, t)
    }

    /// The queue after `t` has joined the tail of level `p`.
    pub open spec fn push_back(self, p: int, t: usize) -> ReadyQueueView {
        ReadyQueueView {
            levels: self.levels.update(p, self.levels[p].push(t)),
            bitmap: self.bitmap.update(p, true),
        }
    }

    /// The most urgent level that holds a task.
    pub open spec fn top_level(self) -> Option<usize> {
        lowest_set(self.bitmap)
    }

    /// The task that is next in line: the head of the most urgent level that
    /// holds a task.
    pub open spec fn front(self) -> Option<usize> {
        match self.top_level() {
            Some(p) => Some(self.levels[p as int][0]),
            None => None,
        }
    }

    /// The queue after the task that is next in line has left it.
    pub open spec fn pop_front(self) -> ReadyQueueView {
        match self.top_level() {
            Some(p) => {
                let rest = self.levels[p as int].drop_first();
                ReadyQueueView {
                    levels: self.levels.update(p as int, rest),
                    bitmap: self.bitmap.update(p as int, rest.len() > 0),
                }
            },
            None => self,
        }
    }

    /// In a well-formed queue the most urgent occupied level is occupied and
    /// every level above it is empty; there is none only where all are empty.
    pub proof fn lemma_top_level(self)
        requires
            self.wf(),
        ensures
            match self.top_level() {
                Some(p) => p < self.levels.len() && self.levels[p as int].len() > 0 && forall|
                    q: int,
                |
                    0 <= q < p ==> (#[trigger] self.levels[q]).len() == 0,
                None => forall|q: int|
                    0 <= q < self.levels.len() ==> (#[trigger] self.levels[q]).len() == 0,
            },
    {
        lemma_lowest_set_is_lowest(self.bitmap);
        match self.top_level() {
            Some(p) => {
                assert(self.bitmap[p as int]);
                assert forall|q: int| 0 <= q < p implies (#[trigger] self.levels[q]).len() == 0 by {
                    assert(!self.bitmap[q]);
                }
            },
            None => {
                assert forall|q: int| 0 <= q < self.levels.len() implies (
                #[trigger] self.levels[q]).len() == 0 by {
                    assert(!self.bitmap[q]);
                }
            },
        }
    }
}

pub struct ReadyQueue {
    pub levels: Vec<Vec<usize>>,
    pub bitmap: FixedPrioBitmap,
}

impl View for ReadyQueue {
    type V = ReadyQueueView;

    open spec fn view(&self) -> ReadyQueueView {
        ReadyQueueView {
            levels: Seq::new(self.levels@.len(), |p: int| self.levels@[p]@),
            bitmap: self.bitmap@,
        }
    }
}

impl ReadyQueue {
    /// An empty queue of `num_levels` levels.
    pub fn new(num_levels: usize) -> (r: ReadyQueue)
        requires
            1 <= num_levels <= FIXED_PRIO_BITMAP_MAX_LEN,
        ensures
            r@.wf(),
            r@.levels == Seq::new(num_levels as nat, |p: int| Seq::<usize>::empty()),
            r@.bitmap == Seq::new(64, |p: int| false),
    {
        let mut levels: Vec<Vec<usize>> = Vec::new();
        let mut i: usize = 0;
        while i < num_levels
            invariant
                i <= num_levels,
                levels@.len() == i,
                forall|p: int| 0 <= p < i ==> (#[trigger] levels@[p])@ == Seq::<usize>::empty(),
            decreases num_levels - i,
        {
            levels.push(Vec::new());
            i += 1;
        }
        let r = ReadyQueue { levels, bitmap: FixedPrioBitmap::new() };
        proof {
            assert(r@.levels =~= Seq::new(num_levels as nat, |p: int| Seq::<usize>::empty()));
        }
        r
    }

    pub fn num_levels(&self) -> (r: usize)
        ensures
            r == self@.levels.len(),
    {
        self.levels.len()
    }

    /// Appends task `t` to the tail of level `p`.
    pub fn push_back(&mut self, p: usize, t: usize)
        requires
            old(self)@.wf(),
            p < old(self)@.levels.len(),
        ensures
            final(self)@ == old(self)@.push_back(p as int, t),
            final(self)@.wf(),
    {
        self.levels[p].push(t);
        self.bitmap.set(p);
        proof {
            assert(self@.levels =~= old(self)@.push_back(p as int, t).levels);
        }
    }

    /// The most urgent level that holds a task.
    pub fn top_level(&self) -> (r: Option<usize>)
        requires
            self@.wf(),
        ensures
            r == self@.top_level(),
            r is Some ==> r->Some_0 < self@.levels.len() && self@.levels[r->Some_0 as int].len() > 0,
    {
        proof {
            self@.lemma_top_level();
        }
        self.bitmap.find_set()
    }

    /// Takes the task that is next in line out of the queue.
    pub fn pop_front(&mut self) -> (r: Option<usize>)
        requires
            old(self)@.wf(),
        ensures
            r == old(self)@.front(),
            final(self)@ == old(self)@.pop_front(),
            final(self)@.wf(),
    {
        proof {
            self@.lemma_top_level();
        }
        match self.bitmap.find_set() {
            Some(p) => {
                let t = self.levels[p].remove(0);
                if self.levels[p].len() == 0 {
                    self.bitmap.clear(p);
                }
                proof {
                    let rest = old(self)@.levels[p as int].drop_first();
                    assert(self.levels@[p as int]@ =~= rest);
                    assert(self@.levels =~= old(self)@.pop_front().levels);
                    assert(self@.bitmap =~= old(self)@.pop_front().bitmap);
                }
                Some(t)
            },
            None => None,
        }
    }
}

/// Appending a task that the queue does not hold keeps it free of
/// duplicates.
pub proof fn lemma_push_back_no_duplicates(q: ReadyQueueView, p: int, t: usize)
    requires
        q.no_duplicates(),
        0 <= p < q.levels.len(),
        !q.contains(t),
    ensures
        q.push_back(p, t).no_duplicates(),
        forall|l: int, u: usize| #[trigger]
            q.push_back(p, t).holds(l, u) <==> (q.holds(l, u) || (l == p && u == t)),
{
    let r = q.push_back(p, t);
    assert forall|l: int, u: usize| #[trigger]
        r.holds(l, u) <==> (q.holds(l, u) || (l == p && u == t)) by {
        if 0 <= l < q.levels.len() {
            if l == p {
                if q.levels[p].contains(u) {
                    let i = choose|i: int| 0 <= i < q.levels[p].len() && q.levels[p][i] == u;
                    assert(r.levels[p][i] == u);
                }
                if u == t {
                    assert(r.levels[p][q.levels[p].len() as int] == t);
                }
            }
        }
    }
    assert forall|l: int| 0 <= l < r.levels.len() implies (#[trigger] r.levels[l]).no_duplicates() by {
        if l == p {
            assert(!q.holds(p, t));
            assert(q.levels[p].no_duplicates());
        } else {
            assert(q.levels[l].no_duplicates());
        }
    }
    assert forall|l: int, m: int, u: usize|
        #![trigger r.holds(l, u), r.holds(m, u)]
        l != m && r.holds(l, u) implies !r.holds(m, u) by {
        if q.holds(l, u) {
            assert(!q.holds(m, u));
            if m == p && u == t {
                assert(q.contains(t));
            }
        } else {
            assert(!q.holds(m, t));
        }
    }
}

/// Taking the next task out keeps the queue free of duplicates, and the
/// queue then holds what it held before, but for that task.
pub proof fn lemma_pop_front_no_duplicates(q: ReadyQueueView)
    requires
        q.wf(),
        q.no_duplicates(),
        q.front() is Some,
    ensures
        q.pop_front().no_duplicates(),
        q.holds(q.top_level()->Some_0 as int, q.front()->Some_0),
        forall|l: int, u: usize| #[trigger]
            q.pop_front().holds(l, u) <==> (q.holds(l, u) && u != q.front()->Some_0),
{
    q.lemma_top_level();
    let p = q.top_level()->Some_0 as int;
    let t = q.front()->Some_0;
    let r = q.pop_front();
    let lv = q.levels[p];
    assert(lv[0] == t);
    assert(lv.no_duplicates());
    assert forall|l: int, u: usize| #[trigger] r.holds(l, u) <==> (q.holds(l, u) && u != t) by {
        if 0 <= l < q.levels.len() {
            if l == p {
                if r.levels[p].contains(u) {
                    let i = choose|i: int| 0 <= i < r.levels[p].len() && r.levels[p][i] == u;
                    assert(lv[i + 1] == u);
                }
                if lv.contains(u) && u != t {
                    let i = choose|i: int| 0 <= i < lv.len() && lv[i] == u;
                    assert(r.levels[p][i - 1] == u);
                }
            } else {
                if q.holds(l, u) && u == t {
                    assert(q.holds(p, t));
                }
            }
        }
    }
    assert forall|l: int| 0 <= l < r.levels.len() implies (#[trigger] r.levels[l]).no_duplicates() by {
        if l == p {
            assert forall|i: int, j: int|
                0 <= i < r.levels[p].len() && 0 <= j < r.levels[p].len() && i != j implies r.levels[p][i]
                != r.levels[p][j] by {
                assert(lv[i + 1] != lv[j + 1]);
            }
        } else {
            assert(q.levels[l].no_duplicates());
        }
    }
    assert forall|l: int, m: int, u: usize|
        #![trigger r.holds(l, u), r.holds(m, u)]
        l != m && r.holds(l, u) implies !r.holds(m, u) by {
        assert(q.holds(l, u));
        assert(!q.holds(m, u));
    }
}


/// Appending a task keeps the flags in step with the levels.
pub proof fn lemma_push_back_wf(q: ReadyQueueView, p: int, t: usize)
    requires
        q.wf(),
        0 <= p < q.levels.len(),
    ensures
        q.push_back(p, t).wf(),
        q.push_back(p, t).levels.len() == q.levels.len(),
{
    let r = q.push_back(p, t);
    assert forall|l: int| 0 <= l < r.bitmap.len() implies (#[trigger] r.bitmap[l] <==> l
        < r.levels.len() && r.levels[l].len() > 0) by {
        if l != p {
            assert(q.bitmap[l] <==> l < q.levels.len() && q.levels[l].len() > 0);
        }
    }
}

/// Taking the next task out keeps the flags in step with the levels.
pub proof fn lemma_pop_front_wf(q: ReadyQueueView)
    requires
        q.wf(),
    ensures
        q.pop_front().wf(),
        q.pop_front().levels.len() == q.levels.len(),
{
    q.lemma_top_level();
    let r = q.pop_front();
    match q.top_level() {
        Some(p) => {
            assert forall|l: int| 0 <= l < r.bitmap.len() implies (#[trigger] r.bitmap[l] <==> l
                < r.levels.len() && r.levels[l].len() > 0) by {
                if l != p {
                    assert(q.bitmap[l] <==> l < q.levels.len() && q.levels[l].len() > 0);
                }
            }
        },
        None => {},
    }
}

} // verus!
