//! Attendees, time slots, and the merging of neighbouring slots.

use vstd::prelude::*;

verus! {

/// How long a slot lasts when it is created: a quarter of an hour, in seconds.
pub const SLOT_SECONDS: i64 = 900;

/// One attendee in one slot.
#[derive(Debug, PartialEq, Clone)]
pub struct Person {
    pub name: String,
    pub available: bool,
}

/// A stretch of time with everyone's availability in it. Instants are seconds
/// since the Unix epoch, UTC.
#[derive(Debug, PartialEq, Clone)]
pub struct Slot {
    pub start_time: i64,
    pub end_time: i64,
    pub people: Vec<Person>,
}

/// What a `Person` stands for.
pub struct PersonView {
    pub name: Seq<char>,
    pub available: bool,
}

/// What a `Slot` stands for.
pub struct SlotView {
    pub start: int,
    pub end: int,
    pub people: Seq<PersonView>,
}

impl View for Person {
    type V = PersonView;

    open spec fn view(&self) -> PersonView {
        PersonView { name: self.name@, available: self.available }
    }
}

impl DeepView for Person {
    type V = PersonView;

    open spec fn deep_view(&self) -> PersonView {
        self.view()
    }
}

impl View for Slot {
    type V = SlotView;

    open spec fn view(&self) -> SlotView {
        SlotView {
            start: self.start_time as int,
            end: self.end_time as int,
            people: self.people.deep_view(),
        }
    }
}

impl DeepView for Slot {
    type V = SlotView;

    open spec fn deep_view(&self) -> SlotView {
        self.view()
    }
}

impl Person {
    /// A copy of this attendee.
    pub fn copy(&self) -> (person: Person)
        ensures
            person@ == self@,
    {
        Person { name: self.name.clone(), available: self.available }
    }
}

/// A copy of a list of attendees.
pub fn copy_people(people: &Vec<Person>) -> (copied: Vec<Person>)
    ensures
        copied.deep_view() == people.deep_view(),
{
    let mut copied: Vec<Person> = Vec::new();
    let mut i: usize = 0;
    while i < people.len()
        invariant
            i <= people.len(),
            copied.len() == i,
            forall|j: int| 0 <= j < i ==> copied[j]@ == people[j]@,
        decreases people.len() - i,
    {
        copied.push(people[i].copy());
        i += 1;
    }
    copied
}

/// Whether two lists of attendees agree entry by entry: the same names, in
/// the same order, with the same availability.
pub fn same_people(left: &Vec<Person>, right: &Vec<Person>) -> (same: bool)
    ensures
        same == (left.deep_view() == right.deep_view()),
{
    if left.len() != right.len() {
        assert(left.deep_view().len() != right.deep_view().len());
        return false;
    }
    let mut i: usize = 0;
    while i < left.len()
        invariant
            i <= left.len(),
            left.len() == right.len(),
            forall|j: int| 0 <= j < i ==> left[j]@ == right[j]@,
        decreases left.len() - i,
    {
        if left[i].name != right[i].name || left[i].available != right[i].available {
            assert(left.deep_view()[i as int] == left[i as int]@);
            return false;
        }
        i += 1;
    }
    assert(left.deep_view() =~= right.deep_view());
    true
}

impl Slot {
    /// A slot that starts at `start_time` and lasts `SLOT_SECONDS`.
    pub fn new(start_time: i64, people: Vec<Person>) -> (slot: Slot)
        requires
            start_time + SLOT_SECONDS <= i64::MAX,
        ensures
            slot.start_time == start_time,
            slot.end_time == start_time + SLOT_SECONDS,
            slot.people == people,
    {
        Slot { start_time, end_time: start_time + SLOT_SECONDS, people }
    }

    /// A copy of this slot.
    pub fn copy(&self) -> (slot: Slot)
        ensures
            slot@ == self@,
    {
        Slot {
            start_time: self.start_time,
            end_time: self.end_time,
            people: copy_people(&self.people),
        }
    }
}

/// `next` continues `last`: it starts at the instant `last` ends, with the
/// same attendance.
pub open spec fn continues(last: SlotView, next: SlotView) -> bool {
    last.end == next.start && last.people == next.people
}

/// One step of folding: `next` either widens the last slot of `done` or is
/// added after it.
pub open spec fn fold_step(done: Seq<SlotView>, next: SlotView) -> Seq<SlotView> {
    if done.len() > 0 && continues(done.last(), next) {
        done.drop_last().push(SlotView { end: next.end, ..done.last() })
    } else {
        done.push(next)
    }
}

/// The slots with every run of continuing slots merged into one, taking the
/// slots from left to right.
pub open spec fn folded(slots: Seq<SlotView>) -> Seq<SlotView>
    decreases slots.len(),
{
    if slots.len() == 0 {
        Seq::<SlotView>::empty()
    } else {
        fold_step(folded(slots.drop_last()), slots.last())
    }
}

/// Merges each slot into the one before it where it continues that slot.
/// The outcome never has more slots than were given.
pub fn fold(slots: Vec<Slot>) -> (merged: Vec<Slot>)
    ensures
        merged.deep_view() == folded(slots.deep_view()),
        merged.len() <= slots.len(),
{
    let mut merged: Vec<Slot> = Vec::new();
    let ghost all = slots.deep_view();
    for slot in it: slots
        invariant
            it.seq().len() == all.len(),
            forall|j: int| 0 <= j < all.len() ==> it.seq()[j]@ == all[j],
            merged.deep_view() == folded(all.take(it.index() as int)),
    {
        proof {
            let upto = all.take(it.index() as int);
            let next = all.take(it.index() + 1);
            assert(next.drop_last() =~= upto);
        }
        let n = merged.len();
        if n > 0 && merged[n - 1].end_time == slot.start_time && same_people(
            &merged[n - 1].people,
            &slot.people,
        ) {
            let mut last = merged.pop().unwrap();
            last.end_time = slot.end_time;
            merged.push(last);
        } else {
            merged.push(slot);
        }
    }
    proof {
        assert(all.take(all.len() as int) =~= all);
        lemma_fold_len(all);
    }
    merged
}

/// No slot continues the one before it.
pub open spec fn settled(slots: Seq<SlotView>) -> bool {
    forall|i: int| 0 <= i < slots.len() - 1 ==> !continues(#[trigger] slots[i], slots[i + 1])
}

/// Each slot starts at the instant the one before it ends.
pub open spec fn contiguous(slots: Seq<SlotView>) -> bool {
    forall|i: int| 0 <= i < slots.len() - 1 ==> (#[trigger] slots[i]).end == slots[i + 1].start
}

/// The time the slots cover, each counted by itself: the sum of `end - start`.
pub open spec fn total_seconds(slots: Seq<SlotView>) -> int
    decreases slots.len(),
{
    if slots.len() == 0 {
        0
    } else {
        total_seconds(slots.drop_last()) + (slots.last().end - slots.last().start)
    }
}

/// Folding no slots gives no slots.
pub proof fn lemma_fold_empty()
    ensures
        folded(Seq::<SlotView>::empty()) == Seq::<SlotView>::empty(),
{
}

/// Folding never yields more slots than it was given, and yields at least
/// one where it was given any.
pub proof fn lemma_fold_len(slots: Seq<SlotView>)
    ensures
        folded(slots).len() <= slots.len(),
        slots.len() > 0 ==> folded(slots).len() > 0,
    decreases slots.len(),
{
    if slots.len() > 0 {
        lemma_fold_len(slots.drop_last());
    }
}

/// In a folded list no slot continues the one before it.
pub proof fn lemma_fold_settled(slots: Seq<SlotView>)
    ensures
        settled(folded(slots)),
    decreases slots.len(),
{
    if slots.len() > 0 {
        let done = folded(slots.drop_last());
        let next = slots.last();
        lemma_fold_settled(slots.drop_last());
        let out = fold_step(done, next);
        assert forall|i: int| 0 <= i < out.len() - 1 implies !continues(
            #[trigger] out[i],
            out[i + 1],
        ) by {
            if i < done.len() - 2 {
                assert(out[i] == done[i]);
                assert(out[i + 1] == done[i + 1]);
            } else if done.len() > 0 && continues(done.last(), next) {
                assert(out[i] == done[i]);
                assert(!continues(done[i], done[i + 1]));
            } else {
                assert(out[i] == done[i]);
            }
        }
    }
}

/// Folding leaves a list alone in which no slot continues the one before it.
pub proof fn lemma_fold_of_settled(slots: Seq<SlotView>)
    requires
        settled(slots),
    ensures
        folded(slots) == slots,
    decreases slots.len(),
{
    if slots.len() > 0 {
        let front = slots.drop_last();
        assert forall|i: int| 0 <= i < front.len() - 1 implies !continues(
            #[trigger] front[i],
            front[i + 1],
        ) by {
            assert(front[i] == slots[i]);
            assert(front[i + 1] == slots[i + 1]);
        }
        lemma_fold_of_settled(front);
        if front.len() > 0 {
            assert(front.last() == slots[slots.len() - 2]);
            assert(!continues(slots[slots.len() - 2], slots[slots.len() - 2 + 1]));
        }
        assert(front.push(slots.last()) =~= slots);
    }
}

/// Folding is idempotent: folding a folded list changes nothing.
pub proof fn lemma_fold_idempotent(slots: Seq<SlotView>)
    ensures
        folded(folded(slots)) == folded(slots),
{
    lemma_fold_settled(slots);
    lemma_fold_of_settled(folded(slots));
}

/// Folding keeps the total time covered: a slot is merged only where it
/// starts at the instant the one before it ends, so the widened slot covers
/// what the two covered. This holds of every list, contiguous or not.
pub proof fn lemma_fold_total_seconds(slots: Seq<SlotView>)
    ensures
        total_seconds(folded(slots)) == total_seconds(slots),
    decreases slots.len(),
{
    if slots.len() > 0 {
        let done = folded(slots.drop_last());
        let next = slots.last();
        lemma_fold_total_seconds(slots.drop_last());
        if done.len() > 0 && continues(done.last(), next) {
            let wider = SlotView { end: next.end, ..done.last() };
            let out = done.drop_last().push(wider);
            assert(out.drop_last() =~= done.drop_last());
        } else {
            let out = done.push(next);
            assert(out.drop_last() =~= done);
        }
    }
}

/// Each folded slot begins as one of the given slots: it has that slot's
/// start and that slot's attendance.
pub proof fn lemma_fold_origin(slots: Seq<SlotView>, i: int)
    requires
        0 <= i < folded(slots).len(),
    ensures
        exists|j: int|
            0 <= j < slots.len() && (#[trigger] slots[j]).start == folded(slots)[i].start
                && slots[j].people == folded(slots)[i].people,
    decreases slots.len(),
{
    let front = slots.drop_last();
    let done = folded(front);
    let next = slots.last();
    if done.len() > 0 && continues(done.last(), next) {
        lemma_fold_origin(front, i);
        let j = choose|j: int|
            0 <= j < front.len() && (#[trigger] front[j]).start == done[i].start
                && front[j].people == done[i].people;
        assert(slots[j] == front[j]);
    } else if i < done.len() {
        lemma_fold_origin(front, i);
        let j = choose|j: int|
            0 <= j < front.len() && (#[trigger] front[j]).start == done[i].start
                && front[j].people == done[i].people;
        assert(slots[j] == front[j]);
    } else {
        assert(slots[slots.len() - 1] == next);
    }
}

/// Folding a contiguous list gives a contiguous list over the same span: it
/// starts where the first slot started and ends where the last slot ended.
pub proof fn lemma_fold_contiguous(slots: Seq<SlotView>)
    requires
        slots.len() > 0,
        contiguous(slots),
    ensures
        folded(slots).len() > 0,
        contiguous(folded(slots)),
        folded(slots).first().start == slots.first().start,
        folded(slots).last().end == slots.last().end,
    decreases slots.len(),
{
    let front = slots.drop_last();
    let next = slots.last();
    if front.len() > 0 {
        assert forall|i: int| 0 <= i < front.len() - 1 implies (#[trigger] front[i]).end
            == front[i + 1].start by {
            assert(front[i] == slots[i]);
            assert(front[i + 1] == slots[i + 1]);
        }
        lemma_fold_contiguous(front);
        let done = folded(front);
        assert(front.last() == slots[slots.len() - 2]);
        assert(slots[slots.len() - 2].end == slots[slots.len() - 2 + 1].start);
        let out = fold_step(done, next);
        assert forall|i: int| 0 <= i < out.len() - 1 implies (#[trigger] out[i]).end == out[i
            + 1].start by {
            if i < done.len() - 2 {
                assert(out[i] == done[i]);
                assert(out[i + 1] == done[i + 1]);
            } else if continues(done.last(), next) {
                assert(out[i] == done[i]);
                assert(done[i].end == done[i + 1].start);
            } else {
                assert(out[i] == done[i]);
            }
        }
    } else {
        assert(folded(front) =~= Seq::<SlotView>::empty());
    }
}

} // verus!
