//! The two ways to choose slots: by the people who must attend, or, where
//! nobody is named, by how many can.

use crate::fetch_availability::model::{
    fold, folded, lemma_fold_origin, Person, PersonView, Slot, SlotView,
};
use crate::text::{name_matches, names_match};
use vstd::prelude::*;

verus! {

/// Somebody who matches the required name is available in the slot.
pub open spec fn attends(slot: SlotView, required: Seq<char>, flexible: bool) -> bool {
    exists|i: int|
        0 <= i < slot.people.len() && names_match(
            (#[trigger] slot.people[i]).name,
            required,
            flexible,
        ) && slot.people[i].available
}

/// Every required name finds somebody available in the slot. Two names may
/// find the same person.
pub open spec fn qualifies(slot: SlotView, required: Seq<Seq<char>>, flexible: bool) -> bool {
    forall|r: int| 0 <= r < required.len() ==> attends(slot, #[trigger] required[r], flexible)
}

/// `qualifies` as a predicate on slots.
pub open spec fn qualifying(required: Seq<Seq<char>>, flexible: bool) -> spec_fn(SlotView) -> bool {
    |slot: SlotView| qualifies(slot, required, flexible)
}

/// How many of the people are available.
pub open spec fn available_count(people: Seq<PersonView>) -> nat
    decreases people.len(),
{
    if people.len() == 0 {
        0
    } else {
        available_count(people.drop_last()) + if people.last().available {
            1nat
        } else {
            0nat
        }
    }
}

/// The greatest number of available people in any of the slots; 0 for no
/// slots.
pub open spec fn most_available(slots: Seq<SlotView>) -> nat
    decreases slots.len(),
{
    if slots.len() == 0 {
        0
    } else {
        let before = most_available(slots.drop_last());
        let here = available_count(slots.last().people);
        if here > before {
            here
        } else {
            before
        }
    }
}

/// "Exactly `count` people are available" as a predicate on slots.
pub open spec fn with_available(count: nat) -> spec_fn(SlotView) -> bool {
    |slot: SlotView| available_count(slot.people) == count
}

/// The slots that suit best. With required names: the slots in which every
/// one of them attends, folded. Without: the slots with the most available
/// people, as they stand, and none at all where nobody is ever available.
pub open spec fn optimal(slots: Seq<SlotView>, required: Seq<Seq<char>>, flexible: bool) -> Seq<
    SlotView,
> {
    if required.len() > 0 {
        folded(slots.filter(qualifying(required, flexible)))
    } else if most_available(slots) == 0 {
        Seq::<SlotView>::empty()
    } else {
        slots.filter(with_available(most_available(slots)))
    }
}

/// Whether somebody who matches the required name is available in the slot.
pub fn has_available(slot: &Slot, required: &String, flexible: bool) -> (found: bool)
    ensures
        found == attends(slot@, required@, flexible),
{
    let mut i: usize = 0;
    while i < slot.people.len()
        invariant
            i <= slot.people.len(),
            forall|j: int|
                0 <= j < i ==> !(names_match((#[trigger] slot@.people[j]).name, required@, flexible)
                    && slot@.people[j].available),
        decreases slot.people.len() - i,
    {
        assert(slot@.people[i as int] == slot.people[i as int]@);
        if slot.people[i].available && name_matches(&slot.people[i].name, required, flexible) {
            return true;
        }
        i += 1;
    }
    false
}

/// Whether every required name finds somebody available in the slot.
pub fn has_all_available(slot: &Slot, required_people: &[String], flexible: bool) -> (all: bool)
    ensures
        all == qualifies(slot@, required_people.deep_view(), flexible),
{
    let mut r: usize = 0;
    while r < required_people.len()
        invariant
            r <= required_people.len(),
            forall|j: int|
                0 <= j < r ==> attends(
                    slot@,
                    #[trigger] required_people.deep_view()[j],
                    flexible,
                ),
        decreases required_people.len() - r,
    {
        assert(required_people.deep_view()[r as int] == required_people[r as int]@);
        if !has_available(slot, &required_people[r], flexible) {
            return false;
        }
        r += 1;
    }
    true
}

/// Counts the available people.
pub fn count_available(people: &Vec<Person>) -> (count: usize)
    ensures
        count == available_count(people.deep_view()),
{
    let ghost all = people.deep_view();
    let mut count: usize = 0;
    let mut i: usize = 0;
    while i < people.len()
        invariant
            i <= people.len(),
            all == people.deep_view(),
            count <= i,
            count == available_count(all.take(i as int)),
        decreases people.len() - i,
    {
        assert(all.take(i + 1).drop_last() =~= all.take(i as int));
        if people[i].available {
            count += 1;
        }
        i += 1;
    }
    assert(all.take(all.len() as int) =~= all);
    count
}

/// The greatest number of available people in any of the slots.
pub fn max_available(slots: &[Slot]) -> (most: usize)
    ensures
        most == most_available(slots.deep_view()),
{
    let ghost all = slots.deep_view();
    let mut most: usize = 0;
    let mut i: usize = 0;
    while i < slots.len()
        invariant
            i <= slots.len(),
            all == slots.deep_view(),
            most == most_available(all.take(i as int)),
        decreases slots.len() - i,
    {
        assert(all.take(i + 1).drop_last() =~= all.take(i as int));
        let here = count_available(&slots[i].people);
        if here > most {
            most = here;
        }
        i += 1;
    }
    assert(all.take(all.len() as int) =~= all);
    most
}

/// Picks the slots that suit best.
///
/// With required people, a slot is kept where each required name matches
/// somebody available in it (exactly, or with `flexible_naming` as a
/// case-insensitive part of the attendee's name), and the kept slots are
/// folded. Without, the slots with the greatest number of available people
/// are kept as they stand; where nobody is available in any slot, none is.
pub fn find_opt(slots: &[Slot], required_people: &[String], flexible_naming: &bool) -> (best: Vec<
    Slot,
>)
    ensures
        best.deep_view() == optimal(
            slots.deep_view(),
            required_people.deep_view(),
            *flexible_naming,
        ),
{
    let ghost all = slots.deep_view();
    let ghost required = required_people.deep_view();
    let mut kept: Vec<Slot> = Vec::new();
    let mut i: usize = 0;
    if required_people.len() > 0 {
        let ghost keep = qualifying(required, *flexible_naming);
        proof {
            reveal(Seq::filter);
        }
        while i < slots.len()
            invariant
                i <= slots.len(),
                all == slots.deep_view(),
                required == required_people.deep_view(),
                keep == qualifying(required, *flexible_naming),
                kept.deep_view() == all.take(i as int).filter(keep),
            decreases slots.len() - i,
        {
            proof {
                assert(all.take(i + 1) =~= all.take(i as int).push(slots[i as int]@));
                all.take(i as int).lemma_filter_push(slots[i as int]@, keep);
            }
            if has_all_available(&slots[i], required_people, *flexible_naming) {
                kept.push(slots[i].copy());
            }
            i += 1;
        }
        assert(all.take(all.len() as int) =~= all);
        fold(kept)
    } else {
        let most = max_available(slots);
        if most == 0 {
            return kept;
        }
        let ghost keep = with_available(most as nat);
        proof {
            reveal(Seq::filter);
        }
        while i < slots.len()
            invariant
                i <= slots.len(),
                all == slots.deep_view(),
                keep == with_available(most as nat),
                kept.deep_view() == all.take(i as int).filter(keep),
            decreases slots.len() - i,
        {
            proof {
                assert(all.take(i + 1) =~= all.take(i as int).push(slots[i as int]@));
                all.take(i as int).lemma_filter_push(slots[i as int]@, keep);
            }
            if count_available(&slots[i].people) == most {
                kept.push(slots[i].copy());
            }
            i += 1;
        }
        assert(all.take(all.len() as int) =~= all);
        kept
    }
}

/// Filtering keeps nothing where no element meets the predicate.
proof fn lemma_filter_none(slots: Seq<SlotView>, keep: spec_fn(SlotView) -> bool)
    requires
        forall|i: int| 0 <= i < slots.len() ==> !keep(#[trigger] slots[i]),
    ensures
        slots.filter(keep) == Seq::<SlotView>::empty(),
    decreases slots.len(),
{
    reveal(Seq::filter);
    if slots.len() > 0 {
        lemma_filter_none(slots.drop_last(), keep);
    }
}

/// No slot has more available people than `most_available` says, and where
/// there are slots, one of them has exactly that many.
pub proof fn lemma_most_available_is_greatest(slots: Seq<SlotView>)
    ensures
        forall|i: int|
            0 <= i < slots.len() ==> available_count((#[trigger] slots[i]).people)
                <= most_available(slots),
        slots.len() > 0 ==> exists|i: int|
            0 <= i < slots.len() && available_count((#[trigger] slots[i]).people)
                == most_available(slots),
    decreases slots.len(),
{
    if slots.len() > 0 {
        let front = slots.drop_last();
        lemma_most_available_is_greatest(front);
        assert forall|i: int| 0 <= i < slots.len() implies available_count(
            (#[trigger] slots[i]).people,
        ) <= most_available(slots) by {
            if i < front.len() {
                assert(front[i] == slots[i]);
            }
        }
        if available_count(slots.last().people) < most_available(front) {
            let i = choose|i: int|
                0 <= i < front.len() && available_count((#[trigger] front[i]).people)
                    == most_available(front);
            assert(front[i] == slots[i]);
        }
    }
}

/// With required people, nothing is chosen where one of the required names
/// attends in no slot at all.
pub proof fn lemma_optimal_missing_person(
    slots: Seq<SlotView>,
    required: Seq<Seq<char>>,
    flexible: bool,
    missing: int,
)
    requires
        0 <= missing < required.len(),
        forall|i: int|
            0 <= i < slots.len() ==> !attends(#[trigger] slots[i], required[missing], flexible),
    ensures
        optimal(slots, required, flexible) == Seq::<SlotView>::empty(),
{
    let keep = qualifying(required, flexible);
    assert forall|i: int| 0 <= i < slots.len() implies !keep(#[trigger] slots[i]) by {
        assert(!attends(slots[i], required[missing], flexible));
    }
    lemma_filter_none(slots, keep);
}

/// With required people, every required name attends in each chosen slot.
pub proof fn lemma_optimal_required_attend(
    slots: Seq<SlotView>,
    required: Seq<Seq<char>>,
    flexible: bool,
)
    requires
        required.len() > 0,
    ensures
        forall|i: int|
            0 <= i < optimal(slots, required, flexible).len() ==> qualifies(
                #[trigger] optimal(slots, required, flexible)[i],
                required,
                flexible,
            ),
{
    let keep = qualifying(required, flexible);
    let kept = slots.filter(keep);
    let chosen = folded(kept);
    assert forall|i: int| 0 <= i < chosen.len() implies qualifies(
        #[trigger] chosen[i],
        required,
        flexible,
    ) by {
        lemma_fold_origin(kept, i);
        let j = choose|j: int|
            0 <= j < kept.len() && (#[trigger] kept[j]).start == chosen[i].start && kept[j].people
                == chosen[i].people;
        slots.lemma_filter_pred(keep, j);
        assert(qualifies(kept[j], required, flexible));
        assert forall|r: int| 0 <= r < required.len() implies attends(
            chosen[i],
            #[trigger] required[r],
            flexible,
        ) by {
            assert(attends(kept[j], required[r], flexible));
        }
    }
}

/// Without required people, nothing is chosen where nobody is available in
/// any slot.
pub proof fn lemma_optimal_nobody_available(slots: Seq<SlotView>, flexible: bool)
    requires
        forall|i: int| 0 <= i < slots.len() ==> available_count((#[trigger] slots[i]).people) == 0,
    ensures
        optimal(slots, Seq::<Seq<char>>::empty(), flexible) == Seq::<SlotView>::empty(),
{
    lemma_most_available_is_greatest(slots);
}

/// Without required people, and with somebody available somewhere, the
/// chosen slots are exactly the given slots that have the greatest number of
/// available people: each chosen slot is one of them, and each of them is
/// chosen.
pub proof fn lemma_optimal_most_available(slots: Seq<SlotView>, flexible: bool)
    requires
        most_available(slots) > 0,
    ensures
        forall|slot: SlotView|
            #[trigger] optimal(slots, Seq::<Seq<char>>::empty(), flexible).contains(slot) <==> (
            slots.contains(slot) && available_count(slot.people) == most_available(slots)),
        optimal(slots, Seq::<Seq<char>>::empty(), flexible).len() > 0,
{
    let keep = with_available(most_available(slots));
    let chosen = slots.filter(keep);
    lemma_most_available_is_greatest(slots);
    let i = choose|i: int|
        0 <= i < slots.len() && available_count((#[trigger] slots[i]).people) == most_available(
            slots,
        );
    slots.lemma_filter_contains(keep, i);
    assert forall|slot: SlotView| #[trigger] chosen.contains(slot) <==> (slots.contains(slot)
        && available_count(slot.people) == most_available(slots)) by {
        if chosen.contains(slot) {
            let k = choose|k: int| 0 <= k < chosen.len() && chosen[k] == slot;
            slots.lemma_filter_pred(keep, k);
            slots.lemma_filter_contains_rev(keep, slot);
        }
        if slots.contains(slot) && available_count(slot.people) == most_available(slots) {
            let k = choose|k: int| 0 <= k < slots.len() && slots[k] == slot;
            slots.lemma_filter_contains(keep, k);
        }
    }
}

} // verus!
