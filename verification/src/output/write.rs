//! Rendering slots for a person to read.

use crate::fetch_availability::model::{Person, PersonView, Slot, SlotView};
use std::fmt::Write;
use vstd::prelude::*;
use vstd::string::StringExecFns;

verus! {

/// How the start of a slot is shown: the day of the week and the time on a
/// twelve-hour clock.
pub const START_PATTERN: &'static str = "%A %I:%M%P";

/// How the end of a slot is shown: the time on a twelve-hour clock.
pub const END_PATTERN: &'static str = "%I:%M%P";

/// The instant `seconds` after the Unix epoch, in UTC, shown after
/// `pattern`; `None` where the instant or the pattern cannot be shown.
pub uninterp spec fn formatted_instant(seconds: int, pattern: Seq<char>) -> Option<Seq<char>>;

/// `chrono::DateTime::from_timestamp`, then `DateTime::format` written into
/// a string: the instant shown after the pattern. The outcome is a function
/// of the two arguments alone. It is `None` where chrono cannot hold the
/// instant or cannot show it after the pattern.
#[verifier::external_body]
pub(crate) fn format_instant(seconds: i64, pattern: &str) -> (text: Option<String>)
    ensures
        text is Some == formatted_instant(seconds as int, pattern@) is Some,
        text is Some ==> formatted_instant(seconds as int, pattern@) == Some(text->Some_0@),
{
    match chrono::DateTime::from_timestamp(seconds, 0) {
        Some(instant) => {
            let mut text = String::new();
            match write!(text, "{}", instant.format(pattern)) {
                Ok(()) => Some(text),
                Err(_) => None,
            }
        },
        None => None,
    }
}

/// Somebody among the people has the given availability.
pub open spec fn any_with(people: Seq<PersonView>, available: bool) -> bool {
    exists|i: int| 0 <= i < people.len() && (#[trigger] people[i]).available == available
}

/// One line, `- ` and the name, for each person with the given
/// availability, in the people's order.
pub open spec fn name_lines(people: Seq<PersonView>, available: bool) -> Seq<char>
    decreases people.len(),
{
    if people.len() == 0 {
        Seq::<char>::empty()
    } else if people.last().available == available {
        name_lines(people.drop_last(), available) + "- "@ + people.last().name + "\n"@
    } else {
        name_lines(people.drop_last(), available)
    }
}

/// A titled list of the people with the given availability, or nothing
/// where there is nobody to list.
pub open spec fn section(people: Seq<PersonView>, title: Seq<char>, available: bool) -> Seq<char> {
    if any_with(people, available) {
        title + "\n"@ + name_lines(people, available)
    } else {
        Seq::<char>::empty()
    }
}

/// A slot as text: a line with the times and the time zone's abbreviation,
/// then who is available, then who is not.
pub open spec fn slot_text(
    slot: SlotView,
    start_text: Seq<char>,
    end_text: Seq<char>,
    abbreviation: Seq<char>,
) -> Seq<char> {
    "Timestamp: "@ + start_text + " - "@ + end_text + " "@ + abbreviation + "\n"@ + section(
        slot.people,
        "Available People:"@,
        true,
    ) + section(slot.people, "Unavailable People:"@, false)
}

/// A slot as text, where its two instants can be shown.
pub open spec fn displayed(slot: SlotView, abbreviation: Seq<char>) -> Option<Seq<char>> {
    match (
        formatted_instant(slot.start, START_PATTERN@),
        formatted_instant(slot.end, END_PATTERN@),
    ) {
        (Some(start_text), Some(end_text)) => Some(
            slot_text(slot, start_text, end_text, abbreviation),
        ),
        _ => None,
    }
}

/// The texts one after the other, with a line break between each two.
pub open spec fn joined(texts: Seq<Seq<char>>) -> Seq<char>
    decreases texts.len(),
{
    if texts.len() == 0 {
        Seq::<char>::empty()
    } else if texts.len() == 1 {
        texts[0]
    } else {
        joined(texts.drop_last()) + "\n"@ + texts.last()
    }
}

fn push_section(out: &mut String, people: &Vec<Person>, title: &str, available: bool)
    ensures
        final(out)@ == old(out)@ + section(people.deep_view(), title@, available),
{
    let ghost all = people.deep_view();
    let mut lines = String::new();
    let mut any = false;
    let mut i: usize = 0;
    while i < people.len()
        invariant
            i <= people.len(),
            all == people.deep_view(),
            lines@ == name_lines(all.take(i as int), available),
            any == any_with(all.take(i as int), available),
        decreases people.len() - i,
    {
        let ghost upto = all.take(i as int);
        let ghost next = all.take(i + 1);
        proof {
            assert(next.drop_last() =~= upto);
            assert(next.last() == people[i as int]@);
            if any_with(upto, available) {
                let k = choose|k: int|
                    0 <= k < upto.len() && (#[trigger] upto[k]).available == available;
                assert(next[k] == upto[k]);
            }
            if any_with(next, available) && people[i as int].available != available {
                let k = choose|k: int|
                    0 <= k < next.len() && (#[trigger] next[k]).available == available;
                assert(upto[k] == next[k]);
            }
        }
        if people[i].available == available {
            lines.append("- ");
            lines.append(people[i].name.as_str());
            lines.append("\n");
            any = true;
        }
        i += 1;
    }
    assert(all.take(all.len() as int) =~= all);
    if any {
        out.append(title);
        out.append("\n");
        out.append(lines.as_str());
    }
}

/// Renders a slot from the texts of its two instants and the abbreviation of
/// the time zone they are shown in.
pub fn render_slot(slot: &Slot, start_text: &str, end_text: &str, abbreviation: &str) -> (text:
    String)
    ensures
        text@ == slot_text(slot@, start_text@, end_text@, abbreviation@),
{
    let mut text = "Timestamp: ".to_owned();
    text.append(start_text);
    text.append(" - ");
    text.append(end_text);
    text.append(" ");
    text.append(abbreviation);
    text.append("\n");
    push_section(&mut text, &slot.people, "Available People:", true);
    push_section(&mut text, &slot.people, "Unavailable People:", false);
    text
}

impl Slot {
    /// This slot as text for a person to read, with the abbreviation of the
    /// time zone that the reader is in; `None` where one of its instants
    /// cannot be shown.
    pub fn to_text(&self, abbreviation: &str) -> (text: Option<String>)
        ensures
            text is Some == displayed(self@, abbreviation@) is Some,
            text is Some ==> displayed(self@, abbreviation@) == Some(text->Some_0@),
    {
        let start_text = match format_instant(self.start_time, START_PATTERN) {
            Some(start_text) => start_text,
            None => return None,
        };
        let end_text = match format_instant(self.end_time, END_PATTERN) {
            Some(end_text) => end_text,
            None => return None,
        };
        Some(render_slot(self, start_text.as_str(), end_text.as_str(), abbreviation))
    }
}

/// Joins texts with a line break between each two.
pub fn join_texts(texts: &Vec<String>) -> (text: String)
    ensures
        text@ == joined(texts.deep_view()),
{
    let ghost all = texts.deep_view();
    let mut text = String::new();
    let mut i: usize = 0;
    while i < texts.len()
        invariant
            i <= texts.len(),
            all == texts.deep_view(),
            text@ == joined(all.take(i as int)),
        decreases texts.len() - i,
    {
        proof {
            assert(all.take(i + 1).drop_last() =~= all.take(i as int));
        }
        if i > 0 {
            text.append("\n");
        }
        text.append(texts[i].as_str());
        i += 1;
    }
    assert(all.take(all.len() as int) =~= all);
    text
}

/// Each of the slots can be shown.
pub open spec fn all_displayed(slots: Seq<SlotView>, abbreviation: Seq<char>) -> bool {
    forall|i: int| 0 <= i < slots.len() ==> displayed(#[trigger] slots[i], abbreviation) is Some
}

/// What `write_slots` gives for the slots: their texts joined, where each of
/// them can be shown.
pub open spec fn written(slots: Seq<SlotView>, abbreviation: Seq<char>) -> Option<Seq<char>> {
    if all_displayed(slots, abbreviation) {
        Some(joined(Seq::new(slots.len(), |i: int| displayed(slots[i], abbreviation)->Some_0)))
    } else {
        None
    }
}

/// Renders the slots one after the other, with a line break between each
/// two; `None` where an instant of one of them cannot be shown.
pub fn write_slots(slots: &[Slot], abbreviation: &str) -> (text: Option<String>)
    ensures
        text is Some == written(slots.deep_view(), abbreviation@) is Some,
        text is Some ==> written(slots.deep_view(), abbreviation@) == Some(text->Some_0@),
{
    let ghost all = slots.deep_view();
    let mut texts: Vec<String> = Vec::new();
    let mut i: usize = 0;
    while i < slots.len()
        invariant
            i <= slots.len(),
            all == slots.deep_view(),
            texts.len() == i,
            forall|j: int|
                0 <= j < i ==> displayed(#[trigger] all[j], abbreviation@) == Some(texts[j]@),
        decreases slots.len() - i,
    {
        assert(all[i as int] == slots[i as int]@);
        match slots[i].to_text(abbreviation) {
            Some(text) => {
                texts.push(text);
            },
            None => {
                return None;
            },
        }
        i += 1;
    }
    assert(texts.deep_view() =~= Seq::new(
        all.len(),
        |i: int| displayed(all[i], abbreviation@)->Some_0,
    ));
    Some(join_texts(&texts))
}

} // verus!
