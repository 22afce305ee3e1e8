//! Shared, mutable path state.
//!
//! A path addresses a container in the hierarchical store as an ordered
//! sequence of segment names.  Several entries and views may share one path
//! (editing a segment through one holder must be visible to all of them), so
//! paths live in an arena: a [`PathHandle`] names a slot, handing the handle
//! around shares the slot, and [`PathArena::deep_clone_slot`] copies the
//! segment sequence into an independent slot.

use crate::text::push_char;
use vstd::prelude::*;

verus! {

/// The segments of `s` split at every occurrence of `sep`.
///
/// Empty segments are kept, and an empty input yields one empty segment,
/// matching the usual splitting convention.
pub open spec fn split_on(s: Seq<char>, sep: char) -> Seq<Seq<char>>
    decreases s.len(),
{
    if s.len() == 0 {
        seq![Seq::<char>::empty()]
    } else {
        let rest = split_on(s.drop_last(), sep);
        if s.last() == sep {
            rest.push(Seq::<char>::empty())
        } else {
            rest.update(rest.len() - 1, rest.last().push(s.last()))
        }
    }
}

/// `split_on` always yields at least one segment.
pub proof fn lemma_split_on_len(s: Seq<char>, sep: char)
    ensures
        split_on(s, sep).len() >= 1,
    decreases s.len(),
{
    if s.len() > 0 {
        lemma_split_on_len(s.drop_last(), sep);
    }
}

/// Splits `s` at every occurrence of `sep` into owned segment strings.
pub fn split_string(s: &str, sep: char) -> (r: Vec<String>)
    ensures
        r.deep_view() == split_on(s@, sep),
{
    let n = s.unicode_len();
    let mut segs: Vec<String> = Vec::new();
    let mut cur: String = String::new();
    let mut i: usize = 0;
    proof {
        assert(s@.take(0) =~= Seq::<char>::empty());
        assert(segs.deep_view().push(cur@) =~= split_on(s@.take(0), sep));
    }
    while i < n
        invariant
            0 <= i <= n,
            n == s@.len(),
            segs.deep_view().push(cur@) == split_on(s@.take(i as int), sep),
        decreases n - i,
    {
        let c = s.get_char(i);
        proof {
            lemma_split_on_len(s@.take(i as int), sep);
            assert(s@.take(i as int + 1).drop_last() =~= s@.take(i as int));
            assert(s@.take(i as int + 1).last() == s@[i as int]);
        }
        if c == sep {
            segs.push(cur);
            cur = String::new();
            proof {
                assert(segs.deep_view().push(cur@) =~~= split_on(
                    s@.take(i as int + 1),
                    sep,
                ));
            }
        } else {
            push_char(&mut cur, c);
            proof {
                assert(segs.deep_view().push(cur@) =~~= split_on(
                    s@.take(i as int + 1),
                    sep,
                ));
            }
        }
        i += 1;
    }
    segs.push(cur);
    proof {
        assert(s@.take(n as int) =~= s@);
        assert(segs.deep_view() =~~= split_on(s@, sep));
    }
    segs
}

/// A handle naming one slot of a [`PathArena`].  Copying the handle shares
/// the underlying segment sequence.
#[derive(Clone, Copy, Debug, PartialEq, Eq, Structural)]
pub struct PathHandle {
    pub index: usize,
}

/// The arena owning every path's segment sequence.  Slots are never freed,
/// so a handle once issued stays valid for the life of the arena.
pub struct PathArena {
    slots: Vec<Vec<String>>,
}

impl View for PathArena {
    type V = Seq<Seq<Seq<char>>>;

    closed spec fn view(&self) -> Seq<Seq<Seq<char>>> {
        self.slots.deep_view()
    }
}

impl PathArena {
    /// An arena with no slots.
    pub fn new() -> (a: PathArena)
        ensures
            a@ == Seq::<Seq<Seq<char>>>::empty(),
    {
        let a = PathArena { slots: Vec::new() };
        proof {
            assert(a@ =~= Seq::<Seq<Seq<char>>>::empty());
        }
        a
    }

    /// Whether `h` names a slot of this arena.
    pub open spec fn valid(self, h: PathHandle) -> bool {
        h.index < self@.len()
    }

    /// The segment sequence that `h` names.
    pub open spec fn path(self, h: PathHandle) -> Seq<Seq<char>> {
        self@[h.index as int]
    }

    /// Appends a fresh slot holding `segs` and hands out its handle.
    pub fn new_slot(&mut self, segs: Vec<String>) -> (h: PathHandle)
        ensures
            final(self)@ == old(self)@.push(segs.deep_view()),
            h.index == old(self)@.len(),
            final(self).valid(h),
            final(self).path(h) == segs.deep_view(),
    {
        let h = PathHandle { index: self.slots.len() };
        self.slots.push(segs);
        proof {
            assert(self@ =~= old(self)@.push(self.slots@.last().deep_view()));
        }
        h
    }

    /// Whether `h` names a slot of this arena, decided at run time.
    pub fn is_valid(&self, h: PathHandle) -> (r: bool)
        ensures
            r == self.valid(h),
    {
        h.index < self.slots.len()
    }

    /// Read access to the segments of the slot that `h` names.
    pub fn segments(&self, h: PathHandle) -> (r: &Vec<String>)
        requires
            self.valid(h),
        ensures
            r.deep_view() == self.path(h),
    {
        &self.slots[h.index]
    }

    /// Overwrites segment `i` of the slot that `h` names; the change is
    /// visible through every handle sharing that slot.
    pub fn set_segment(&mut self, h: PathHandle, i: usize, seg: String)
        requires
            old(self).valid(h),
            i < old(self).path(h).len(),
        ensures
            final(self)@ == old(self)@.update(
                h.index as int,
                old(self).path(h).update(i as int, seg@),
            ),
    {
        let slot = self.slots.remove(h.index);
        let mut slot = slot;
        slot.set(i, seg);
        self.slots.insert(h.index, slot);
        proof {
            assert(self@ =~~= old(self)@.update(
                h.index as int,
                old(self).path(h).update(i as int, seg@),
            ));
        }
    }

    /// Copies the slot that `h` names into an independent fresh slot.
    pub fn deep_clone_slot(&mut self, h: PathHandle) -> (r: PathHandle)
        requires
            old(self).valid(h),
        ensures
            final(self)@ == old(self)@.push(old(self).path(h)),
            r.index == old(self)@.len(),
            final(self).valid(r),
            final(self).path(r) == old(self).path(h),
    {
        let copy: Vec<String> = self.slots[h.index].clone();
        proof {
            let slot = self.slots@[h.index as int];
            assert forall|j: int| 0 <= j < copy@.len() implies copy@[j]@ == slot@[j]@ by {
                assert(cloned::<String>(slot@[j], copy@[j]));
            }
            assert(copy.deep_view() =~= self.path(h));
        }
        self.new_slot(copy)
    }
}

} // verus!
