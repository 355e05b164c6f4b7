//! The set of pending timeouts, ordered by absolute expiration on the 32-bit
//! tick circle as seen from the current tick.
use vstd::prelude::*;
use crate::time::{is_due, saturating_duration_until, spec_is_due, spec_remaining, tick_modulus, Time32};

verus! {

/// Whose timeout it is: that is who is told when it expires.
#[derive(Clone, Copy, PartialEq, Eq, Structural, Debug)]
pub enum TimeoutOwner {
    /// The timer with this index.
    Timer(usize),
    /// The wait of the task with this index.
    Task(usize),
}

/// A linked timeout: an absolute expiration and its owner.
#[derive(Clone, Copy, PartialEq, Eq, Structural, Debug)]
pub struct Timeout {
    pub at: Time32,
    pub owner: TimeoutOwner,
}

/// Where an expiration stands in the order as seen from `now`: the most
/// overdue come first, then what is due at `now`, then the future in the
/// order of arrival.
pub open spec fn spec_urgency(at: Time32, now: Time32) -> int {
    (at - now + 0x8000_0000) % tick_modulus()
}

pub fn urgency(at: Time32, now: Time32) -> (r: u32)
    ensures
        r == spec_urgency(at, now),
{
    at.wrapping_sub(now).wrapping_add(0x8000_0000)
}

/// An expiration is due exactly where its place in the order is within the
/// first half of the circle.
pub proof fn lemma_due_by_urgency(at: Time32, now: Time32)
    ensures
        spec_is_due(at, now) <==> spec_urgency(at, now) <= 0x8000_0000,
{
}

/// The pending timeouts in the order in which they were linked.
pub type Timeouts = Seq<Timeout>;

/// Some linked timeout belongs to `owner`.
pub open spec fn is_linked(s: Timeouts, owner: TimeoutOwner) -> bool {
    exists|i: int| 0 <= i < s.len() && (#[trigger] s[i]).owner == owner
}

/// No owner has two linked timeouts.
pub open spec fn owners_distinct(s: Timeouts) -> bool {
    forall|i: int, j: int|
        0 <= i < s.len() && 0 <= j < s.len() && i != j ==> (#[trigger] s[i]).owner != (
        #[trigger] s[j]).owner
}

/// The place of the first timeout of `owner` at or after `from`; the length
/// where there is none.
pub open spec fn position_from(s: Timeouts, owner: TimeoutOwner, from: int) -> int
    decreases s.len() - from,
{
    if from < 0 || from >= s.len() {
        s.len() as int
    } else if s[from].owner == owner {
        from
    } else {
        position_from(s, owner, from + 1)
    }
}

/// The place of the first timeout of `owner`; the length where there is
/// none.
pub open spec fn position(s: Timeouts, owner: TimeoutOwner) -> int {
    position_from(s, owner, 0)
}

pub proof fn lemma_position_from(s: Timeouts, owner: TimeoutOwner, from: int)
    requires
        0 <= from <= s.len(),
    ensures
        from <= position_from(s, owner, from) <= s.len(),
        position_from(s, owner, from) < s.len() ==> s[position_from(s, owner, from)].owner
            == owner,
        forall|i: int| from <= i < position_from(s, owner, from) ==> (#[trigger] s[i]).owner != owner,
    decreases s.len() - from,
{
    if from < s.len() && s[from].owner != owner {
        lemma_position_from(s, owner, from + 1);
    }
}

/// The first timeout of an owner is where `position` says, and an owner is
/// linked exactly where `position` is within the sequence.
pub proof fn lemma_position(s: Timeouts, owner: TimeoutOwner)
    ensures
        0 <= position(s, owner) <= s.len(),
        position(s, owner) < s.len() <==> is_linked(s, owner),
        position(s, owner) < s.len() ==> s[position(s, owner)].owner == owner,
        forall|i: int| 0 <= i < position(s, owner) ==> (#[trigger] s[i]).owner != owner,
{
    lemma_position_from(s, owner, 0);
}

/// The expiration of `owner`'s timeout, where it is linked.
pub open spec fn expiration_of(s: Timeouts, owner: TimeoutOwner) -> Option<Time32> {
    if is_linked(s, owner) {
        Some(s[position(s, owner)].at)
    } else {
        None
    }
}

/// The timeouts without the first one of `owner`.
pub open spec fn unlinked(s: Timeouts, owner: TimeoutOwner) -> Timeouts {
    if is_linked(s, owner) {
        s.remove(position(s, owner))
    } else {
        s
    }
}

/// After unlinking, an owner with just one timeout is linked no more, every
/// other owner is as before, and the rest keeps its order and expirations.
pub proof fn lemma_unlinked(s: Timeouts, owner: TimeoutOwner)
    requires
        owners_distinct(s),
    ensures
        owners_distinct(unlinked(s, owner)),
        !is_linked(unlinked(s, owner), owner),
        forall|o: TimeoutOwner|
            o != owner ==> is_linked(unlinked(s, owner), o) == is_linked(s, o),
        forall|o: TimeoutOwner|
            o != owner ==> expiration_of(unlinked(s, owner), o) == expiration_of(s, o),
        forall|i: int|
            0 <= i < unlinked(s, owner).len() ==> s.contains(#[trigger] unlinked(s, owner)[i]),
{
    lemma_position(s, owner);
    let r = unlinked(s, owner);
    let k = position(s, owner);
    if is_linked(s, owner) {
        assert forall|i: int| 0 <= i < r.len() implies s.contains(#[trigger] r[i]) by {
            if i < k {
                assert(r[i] == s[i]);
            } else {
                assert(r[i] == s[i + 1]);
            }
        }
        assert forall|i: int, j: int| 0 <= i < r.len() && 0 <= j < r.len() && i != j implies (
        #[trigger] r[i]).owner != (#[trigger] r[j]).owner by {
            let si = if i < k { i } else { i + 1 };
            let sj = if j < k { j } else { j + 1 };
            assert(r[i] == s[si] && r[j] == s[sj]);
        }
        if is_linked(r, owner) {
            let i = choose|i: int| 0 <= i < r.len() && (#[trigger] r[i]).owner == owner;
            let si = if i < k { i } else { i + 1 };
            assert(r[i] == s[si]);
            assert(s[si].owner == s[k].owner);
        }
        assert forall|o: TimeoutOwner| o != owner implies is_linked(r, o) == is_linked(s, o)
            && expiration_of(r, o) == expiration_of(s, o) by {
            lemma_position(s, o);
            lemma_position(r, o);
            if is_linked(s, o) {
                let si = position(s, o);
                let ri = if si < k { si } else { si - 1 };
                assert(r[ri] == s[si]);
                assert(is_linked(r, o));
                let rj = position(r, o);
                let sj = if rj < k { rj } else { rj + 1 };
                assert(r[rj] == s[sj]);
                assert(s[sj].owner == o);
                assert(sj == si);
            }
            if is_linked(r, o) {
                let ri = position(r, o);
                let si = if ri < k { ri } else { ri + 1 };
                assert(r[ri] == s[si]);
                assert(is_linked(s, o));
            }
        }
    } else {
        assert forall|i: int| 0 <= i < r.len() implies s.contains(#[trigger] r[i]) by {
            assert(r[i] == s[i]);
        }
    }
}

/// After linking a timeout of an owner that had none, that owner has it, and
/// every other owner is as before.
pub proof fn lemma_linked(s: Timeouts, t: Timeout)
    requires
        owners_distinct(s),
        !is_linked(s, t.owner),
    ensures
        owners_distinct(s.push(t)),
        is_linked(s.push(t), t.owner),
        expiration_of(s.push(t), t.owner) == Some(t.at),
        forall|o: TimeoutOwner| o != t.owner ==> is_linked(s.push(t), o) == is_linked(s, o),
        forall|o: TimeoutOwner|
            o != t.owner ==> expiration_of(s.push(t), o) == expiration_of(s, o),
{
    let r = s.push(t);
    assert(r[s.len() as int] == t);
    assert forall|i: int, j: int| 0 <= i < r.len() && 0 <= j < r.len() && i != j implies (
    #[trigger] r[i]).owner != (#[trigger] r[j]).owner by {
        if i < s.len() {
            assert(r[i] == s[i]);
        }
        if j < s.len() {
            assert(r[j] == s[j]);
        }
    }
    lemma_position(r, t.owner);
    assert(position(r, t.owner) == s.len()) by {
        let k = position(r, t.owner);
        if k < s.len() {
            assert(r[k] == s[k]);
        }
    }
    assert forall|o: TimeoutOwner| o != t.owner implies is_linked(r, o) == is_linked(s, o)
        && expiration_of(r, o) == expiration_of(s, o) by {
        lemma_position(s, o);
        lemma_position(r, o);
        if is_linked(s, o) {
            let si = position(s, o);
            assert(r[si] == s[si]);
            let rj = position(r, o);
            assert(r[rj] == s[rj]);
        }
        if is_linked(r, o) {
            let ri = position(r, o);
            assert(r[ri] == s[ri]);
        }
    }
}

/// The timeout at place `i` expires first as seen from `now`: none is more
/// urgent, and of those just as urgent it was linked first.
pub open spec fn is_earliest(s: Timeouts, now: Time32, i: int) -> bool {
    &&& 0 <= i < s.len()
    &&& forall|j: int|
        0 <= j < s.len() ==> spec_urgency(s[i].at, now) <= spec_urgency((#[trigger] s[j]).at, now)
    &&& forall|j: int|
        0 <= j < i ==> spec_urgency(s[i].at, now) < spec_urgency((#[trigger] s[j]).at, now)
}

/// At most one place holds the timeout that expires first.
pub proof fn lemma_earliest_is_unique(s: Timeouts, now: Time32, i: int, j: int)
    requires
        is_earliest(s, now, i),
        is_earliest(s, now, j),
    ensures
        i == j,
{
    if i < j {
        assert(spec_urgency(s[j].at, now) < spec_urgency(s[i].at, now));
    } else if j < i {
        assert(spec_urgency(s[i].at, now) < spec_urgency(s[j].at, now));
    }
}

/// The place of the timeout that expires first; none where nothing is
/// linked.
pub open spec fn earliest(s: Timeouts, now: Time32) -> Option<int> {
    if exists|i: int| is_earliest(s, now, i) {
        Some(choose|i: int| is_earliest(s, now, i))
    } else {
        None
    }
}

/// The timeout that is to fire next at `now`: the one that expires first,
/// if it is due.
pub open spec fn next_due(s: Timeouts, now: Time32) -> Option<Timeout> {
    match earliest(s, now) {
        Some(i) => if spec_is_due(s[i].at, now) {
            Some(s[i])
        } else {
            None
        },
        None => None,
    }
}

/// The timeouts after the one that is to fire next has been unlinked.
pub open spec fn after_next_due(s: Timeouts, now: Time32) -> Timeouts {
    match earliest(s, now) {
        Some(i) => if spec_is_due(s[i].at, now) {
            s.remove(i)
        } else {
            s
        },
        None => s,
    }
}

/// What is to fire next at `now` is linked and is due at `now`, and no
/// linked timeout comes before it in the order of expirations: no timeout
/// fires before its tick, nor before one that expires earlier.
pub proof fn lemma_next_due_is_due(s: Timeouts, now: Time32)
    requires
        next_due(s, now) is Some,
    ensures
        s.contains(next_due(s, now)->Some_0),
        spec_is_due(next_due(s, now)->Some_0.at, now),
        s.len() == after_next_due(s, now).len() + 1,
        forall|j: int|
            0 <= j < s.len() ==> spec_urgency(next_due(s, now)->Some_0.at, now) <= spec_urgency(
                (#[trigger] s[j]).at,
                now,
            ),
{
    let i = earliest(s, now)->Some_0;
    assert(is_earliest(s, now, i));
    assert(s[i] == next_due(s, now)->Some_0);
}

/// The timeouts that fire at `now`, in the order in which they fire: the one
/// that is to fire next, then what fires of the rest.
pub open spec fn all_due(s: Timeouts, now: Time32) -> Seq<Timeout>
    decreases s.len(),
{
    match next_due(s, now) {
        Some(t) => if after_next_due(s, now).len() < s.len() {
            seq![t] + all_due(after_next_due(s, now), now)
        } else {
            seq![t]
        },
        None => Seq::empty(),
    }
}

/// The timeouts that are left when all that fire at `now` have fired.
pub open spec fn after_all_due(s: Timeouts, now: Time32) -> Timeouts
    decreases s.len(),
{
    match next_due(s, now) {
        Some(t) => if after_next_due(s, now).len() < s.len() {
            after_all_due(after_next_due(s, now), now)
        } else {
            after_next_due(s, now)
        },
        None => s,
    }
}

/// When all that fire at `now` have fired, no linked timeout is due.
pub proof fn lemma_after_all_due(s: Timeouts, now: Time32)
    ensures
        next_due(after_all_due(s, now), now) is None,
        forall|j: int|
            0 <= j < after_all_due(s, now).len() ==> !spec_is_due(
                (#[trigger] after_all_due(s, now)[j]).at,
                now,
            ),
    decreases s.len(),
{
    if next_due(s, now) is Some {
        lemma_next_due_is_due(s, now);
        lemma_after_all_due(after_next_due(s, now), now);
    }
    lemma_none_due(after_all_due(s, now), now);
}

/// Where nothing is to fire at `now`, no linked timeout is due: no timeout
/// is left behind once its tick has come.
pub proof fn lemma_none_due(s: Timeouts, now: Time32)
    requires
        next_due(s, now) is None,
    ensures
        forall|j: int| 0 <= j < s.len() ==> !spec_is_due((#[trigger] s[j]).at, now),
{
    if s.len() > 0 {
        lemma_earliest_exists(s, now, s.len() as int);
        let i = earliest(s, now)->Some_0;
        assert(is_earliest(s, now, i));
        assert forall|j: int| 0 <= j < s.len() implies !spec_is_due((#[trigger] s[j]).at, now) by {
            lemma_due_by_urgency(s[j].at, now);
            lemma_due_by_urgency(s[i].at, now);
        }
    }
}

/// The place of the timeout that expires first among the first `n`.
pub open spec fn earliest_among(s: Timeouts, now: Time32, n: int) -> int
    decreases n,
{
    if n <= 1 {
        0
    } else {
        let best = earliest_among(s, now, n - 1);
        if spec_urgency(s[n - 1].at, now) < spec_urgency(s[best].at, now) {
            n - 1
        } else {
            best
        }
    }
}

pub proof fn lemma_earliest_among(s: Timeouts, now: Time32, n: int)
    requires
        1 <= n <= s.len(),
    ensures
        is_earliest(s.take(n), now, earliest_among(s, now, n)),
    decreases n,
{
    let b = earliest_among(s, now, n);
    if n > 1 {
        lemma_earliest_among(s, now, n - 1);
        let best = earliest_among(s, now, n - 1);
        assert(is_earliest(s.take(n - 1), now, best));
        assert forall|j: int| 0 <= j < n implies spec_urgency(s.take(n)[b].at, now) <= spec_urgency(
            (#[trigger] s.take(n)[j]).at,
            now,
        ) by {
            if j < n - 1 {
                assert(s.take(n - 1)[j] == s[j]);
            }
        }
        assert forall|j: int| 0 <= j < b implies spec_urgency(s.take(n)[b].at, now) < spec_urgency(
            (#[trigger] s.take(n)[j]).at,
            now,
        ) by {
            assert(s.take(n - 1)[j] == s[j]);
        }
    }
}

/// Where something is linked, some timeout expires first.
pub proof fn lemma_earliest_exists(s: Timeouts, now: Time32, n: int)
    requires
        n == s.len(),
        n > 0,
    ensures
        earliest(s, now) == Some(earliest_among(s, now, n)),
        is_earliest(s, now, earliest_among(s, now, n)),
{
    lemma_earliest_among(s, now, n);
    assert(s.take(n) =~= s);
    let b = earliest_among(s, now, n);
    let c = choose|i: int| is_earliest(s, now, i);
    lemma_earliest_is_unique(s, now, b, c);
}

pub struct TimeoutHeap {
    pub entries: Vec<Timeout>,
}

impl View for TimeoutHeap {
    type V = Seq<Timeout>;

    open spec fn view(&self) -> Seq<Timeout> {
        self.entries@
    }
}

impl TimeoutHeap {
    pub fn new() -> (r: TimeoutHeap)
        ensures
            r@ == Seq::<Timeout>::empty(),
    {
        TimeoutHeap { entries: Vec::new() }
    }

    pub fn len(&self) -> (r: usize)
        ensures
            r == self@.len(),
    {
        self.entries.len()
    }

    /// Links a timeout. It comes after those already linked that expire at
    /// the same tick.
    pub fn insert(&mut self, t: Timeout)
        ensures
            final(self)@ == old(self)@.push(t),
    {
        self.entries.push(t);
    }

    /// The place of `owner`'s timeout.
    pub fn find(&self, owner: TimeoutOwner) -> (r: Option<usize>)
        ensures
            r is Some <==> is_linked(self@, owner),
            r is Some ==> r->Some_0 == position(self@, owner) && r->Some_0 < self@.len(),
    {
        proof {
            lemma_position(self@, owner);
        }
        let mut i: usize = 0;
        while i < self.entries.len()
            invariant
                i <= self.entries.len(),
                position(self@, owner) == position_from(self@, owner, i as int),
            decreases self.entries.len() - i,
        {
            if self.entries[i].owner == owner {
                return Some(i);
            }
            i += 1;
        }
        None
    }

    pub fn is_linked(&self, owner: TimeoutOwner) -> (r: bool)
        ensures
            r == is_linked(self@, owner),
    {
        self.find(owner).is_some()
    }

    /// The expiration of `owner`'s timeout, where it is linked.
    pub fn expiration_of(&self, owner: TimeoutOwner) -> (r: Option<Time32>)
        ensures
            r == expiration_of(self@, owner),
    {
        match self.find(owner) {
            Some(i) => Some(self.entries[i].at),
            None => None,
        }
    }

    /// Unlinks `owner`'s timeout and returns its expiration; does nothing
    /// where the owner has none.
    pub fn remove(&mut self, owner: TimeoutOwner) -> (r: Option<Time32>)
        ensures
            r == expiration_of(old(self)@, owner),
            final(self)@ == unlinked(old(self)@, owner),
    {
        match self.find(owner) {
            Some(i) => {
                let t = self.entries.remove(i);
                Some(t.at)
            },
            None => None,
        }
    }

    /// The place of the timeout that expires first as seen from `now`.
    pub fn peek_earliest(&self, now: Time32) -> (r: Option<usize>)
        ensures
            r is Some <==> self@.len() > 0,
            r is Some ==> earliest(self@, now) == Some(r->Some_0 as int) && is_earliest(
                self@,
                now,
                r->Some_0 as int,
            ),
            r is None ==> earliest(self@, now) is None,
    {
        if self.entries.len() == 0 {
            return None;
        }
        let mut best: usize = 0;
        let mut i: usize = 1;
        while i < self.entries.len()
            invariant
                1 <= i <= self.entries.len(),
                best == earliest_among(self@, now, i as int),
                best < i,
            decreases self.entries.len() - i,
        {
            let u: u32 = urgency(self.entries[i].at, now);
            if u < urgency(self.entries[best].at, now) {
                best = i;
            }
            i += 1;
        }
        proof {
            lemma_earliest_exists(self@, now, self@.len() as int);
        }
        Some(best)
    }

    /// Unlinks and returns the timeout that is to fire next at `now`; does
    /// nothing where none is due.
    pub fn pop_due(&mut self, now: Time32) -> (r: Option<Timeout>)
        ensures
            r == next_due(old(self)@, now),
            final(self)@ == after_next_due(old(self)@, now),
    {
        match self.peek_earliest(now) {
            Some(i) => {
                if is_due(self.entries[i].at, now) {
                    let t = self.entries.remove(i);
                    Some(t)
                } else {
                    None
                }
            },
            None => None,
        }
    }

    /// Unlinks every timeout that is due at `now` and returns them in the
    /// order of their expirations, and in the order in which they were
    /// linked where they expire at the same tick.
    pub fn expire_due(&mut self, now: Time32) -> (r: Vec<Timeout>)
        ensures
            r@ == all_due(old(self)@, now),
            final(self)@ == after_all_due(old(self)@, now),
    {
        let mut fired: Vec<Timeout> = Vec::new();
        loop
            invariant
                fired@ + all_due(self@, now) == all_due(old(self)@, now),
                after_all_due(self@, now) == after_all_due(old(self)@, now),
            ensures
                fired@ == all_due(old(self)@, now),
                self@ == after_all_due(old(self)@, now),
            decreases self@.len(),
        {
            let ghost before = self@;
            match self.pop_due(now) {
                Some(t) => {
                    proof {
                        lemma_next_due_is_due(before, now);
                        assert((fired@ + seq![t]) + all_due(self@, now) =~= fired@ + (seq![t]
                            + all_due(self@, now)));
                    }
                    fired.push(t);
                },
                None => {
                    proof {
                        assert(fired@ + Seq::<Timeout>::empty() =~= fired@);
                    }
                    break ;
                },
            }
        }
        fired
    }

    /// How many ticks are left until the first expiration; `None` where
    /// nothing is linked.
    pub fn ticks_until_next(&self, now: Time32) -> (r: Option<Time32>)
        ensures
            r == match earliest(self@, now) {
                Some(i) => Some(spec_remaining(self@[i].at, now)),
                None => None,
            },
    {
        match self.peek_earliest(now) {
            Some(i) => Some(saturating_duration_until(self.entries[i].at, now)),
            None => None,
        }
    }
}

} // verus!
