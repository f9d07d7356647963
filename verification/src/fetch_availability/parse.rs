//! Decoding the page's raw strings and building slots from them.

use crate::fetch_availability::errors::{
    FetchError, ParseError, ParseWhen2MeetError, ProcessResultError,
};
use crate::fetch_availability::model::{
    fold, folded, Person, PersonView, Slot, SlotView, SLOT_SECONDS,
};
use crate::text::{chars_of, lemma_split_on_nonempty, split, split_chars, split_on};
use vstd::prelude::*;
use vstd::slice::slice_subrange;

verus! {

/// How many quoting characters wrap a raw string at each end.
pub const QUOTE_CHARS: usize = 1;

/// What separates the fields of a record, and the names of the name list.
pub const FIELD_SEPARATOR: char = ',';

/// What separates the records of the availability matrix.
pub const RECORD_SEPARATOR: char = '|';

/// A raw string carries content: something is left between its quotes.
/// Lengths are counted in characters.
pub open spec fn has_content(raw: Seq<char>) -> bool {
    raw.len() > 2 * QUOTE_CHARS
}

/// A raw string without the quoting at its two ends.
pub open spec fn unquoted(raw: Seq<char>) -> Seq<char>
    recommends
        has_content(raw),
{
    raw.subrange(QUOTE_CHARS as int, raw.len() - QUOTE_CHARS)
}

/// Strips the quoting from a raw string and splits what is left on `sep`.
pub fn parse_quoted_list(raw: &str, sep: char) -> (parsed: Result<Vec<String>, ParseError>)
    ensures
        !has_content(raw@) ==> parsed == Err::<Vec<String>, ParseError>(ParseError::EmptyRaw),
        has_content(raw@) ==> parsed is Ok && parsed->Ok_0.deep_view() == split_on(
            unquoted(raw@),
            sep,
        ),
{
    let chars = chars_of(raw);
    if chars.len() <= 2 * QUOTE_CHARS {
        return Err(ParseError::EmptyRaw);
    }
    Ok(split_chars(&chars, QUOTE_CHARS, chars.len() - QUOTE_CHARS, sep))
}

/// Decodes the raw list of attendee names: the quoting is stripped and the
/// rest split on commas, each name kept exactly as it stands.
pub fn parse_people_names_from_result(raw_names: String) -> (names: Result<
    Vec<String>,
    ParseError,
>)
    ensures
        !has_content(raw_names@) ==> names == Err::<Vec<String>, ParseError>(
            ParseError::EmptyRaw,
        ),
        has_content(raw_names@) ==> names is Ok && names->Ok_0.deep_view() == split_on(
            unquoted(raw_names@),
            FIELD_SEPARATOR,
        ),
{
    parse_quoted_list(raw_names.as_str(), FIELD_SEPARATOR)
}

/// Decodes the raw availability matrix into its records, one per slot: the
/// quoting is stripped and the rest split on the record separator.
pub fn parse_avail_matrix_from_result(raw_avail_matrix: String) -> (records: Result<
    Vec<String>,
    ParseError,
>)
    ensures
        !has_content(raw_avail_matrix@) ==> records == Err::<Vec<String>, ParseError>(
            ParseError::EmptyRaw,
        ),
        has_content(raw_avail_matrix@) ==> records is Ok && records->Ok_0.deep_view() == split_on(
            unquoted(raw_avail_matrix@),
            RECORD_SEPARATOR,
        ),
{
    parse_quoted_list(raw_avail_matrix.as_str(), RECORD_SEPARATOR)
}

/// The instant that a timestamp field denotes, in seconds since the Unix
/// epoch, or `None` where the field is not a timestamp.
pub uninterp spec fn epoch_seconds(text: Seq<char>) -> Option<i64>;

/// `chrono::DateTime::parse_from_str` with the format `%s`, then
/// `DateTime::timestamp`: the text read as a count of seconds since the Unix
/// epoch. The outcome is a function of the text alone. Of the empty text it
/// is a failure, as the parser asks for at least one digit.
#[verifier::external_body]
pub(crate) fn parse_epoch_seconds(text: &str) -> (seconds: Option<i64>)
    ensures
        seconds == epoch_seconds(text@),
        text@.len() == 0 ==> seconds is None,
{
    match chrono::DateTime::parse_from_str(text, "%s") {
        Ok(instant) => Some(instant.timestamp()),
        Err(_) => None,
    }
}

/// What reading a timestamp field gives: nothing for an empty field, and
/// for any other what `epoch_seconds` says.
pub open spec fn timestamp_of(field: Seq<char>) -> Option<i64> {
    if field.len() == 0 {
        None
    } else {
        epoch_seconds(field)
    }
}

/// Reads a timestamp field.
pub fn read_timestamp(field: &str) -> (seconds: Option<i64>)
    ensures
        seconds == timestamp_of(field@),
{
    parse_epoch_seconds(field)
}

/// The attendance that a record's flags give the names: name and flag are
/// paired by position up to the shorter of the two lists, and a person is
/// available exactly where the flag is `1`.
pub open spec fn attendance(names: Seq<Seq<char>>, flags: Seq<Seq<char>>) -> Seq<PersonView> {
    Seq::new(
        if names.len() <= flags.len() {
            names.len()
        } else {
            flags.len()
        },
        |i: int| PersonView { name: names[i], available: flags[i] == "1"@ },
    )
}

/// A start instant is usable: it was read, and a slot that starts there
/// ends at an instant that can still be counted.
pub open spec fn usable_start(start: Option<i64>) -> bool {
    start matches Some(t) && t + SLOT_SECONDS <= i64::MAX
}

/// The slot that starts at `start` with the attendance that the flags give
/// the names.
pub open spec fn slot_of_flags(
    names: Seq<Seq<char>>,
    flags: Seq<Seq<char>>,
    start: int,
) -> SlotView {
    SlotView { start, end: start + SLOT_SECONDS, people: attendance(names, flags) }
}

/// The timestamp field of a record: what stands before its first separator.
pub open spec fn first_field(record: Seq<char>) -> Seq<char> {
    split_on(record, FIELD_SEPARATOR).first()
}

/// The start instant that a record gives.
pub open spec fn record_start(record: Seq<char>) -> Option<i64> {
    timestamp_of(first_field(record))
}

/// The slot that a record with a usable start gives.
pub open spec fn record_slot(names: Seq<Seq<char>>, record: Seq<char>) -> SlotView
    recommends
        usable_start(record_start(record)),
{
    slot_of_flags(
        names,
        split_on(record, FIELD_SEPARATOR).skip(1),
        record_start(record)->Some_0 as int,
    )
}

/// Every record has a usable start.
pub open spec fn all_usable(records: Seq<Seq<char>>) -> bool {
    forall|j: int| 0 <= j < records.len() ==> usable_start(record_start(#[trigger] records[j]))
}

/// Record `k` is the first without a usable start.
pub open spec fn first_unusable(records: Seq<Seq<char>>, k: int) -> bool {
    &&& 0 <= k < records.len()
    &&& !usable_start(record_start(records[k]))
    &&& forall|j: int| 0 <= j < k ==> usable_start(record_start(#[trigger] records[j]))
}

/// The slots that the records give, one per record, in order.
pub open spec fn built(names: Seq<Seq<char>>, records: Seq<Seq<char>>) -> Seq<SlotView> {
    Seq::new(records.len(), |i: int| record_slot(names, records[i]))
}

/// Pairs names and flags by position, up to the shorter of the two lists.
pub fn mark_people(names: &Vec<String>, flags: &[String]) -> (people: Vec<Person>)
    ensures
        people.deep_view() == attendance(names.deep_view(), flags.deep_view()),
{
    let count: usize = if names.len() <= flags.len() {
        names.len()
    } else {
        flags.len()
    };
    let one = "1".to_owned();
    let mut people: Vec<Person> = Vec::new();
    let mut i: usize = 0;
    while i < count
        invariant
            i <= count,
            count <= names.len(),
            count <= flags.len(),
            one@ == "1"@,
            people.len() == i,
            forall|j: int|
                0 <= j < i ==> people[j]@ == (PersonView {
                    name: names[j]@,
                    available: flags[j]@ == "1"@,
                }),
        decreases count - i,
    {
        people.push(Person { name: names[i].clone(), available: flags[i] == one });
        i += 1;
    }
    people
}

/// The timestamp field of a record that was split into `fields`: the first
/// of them. A record that gave no field at all is refused, and the error
/// carries the record.
pub fn timestamp_field<'a>(section: &String, fields: &'a Vec<String>) -> (field: Result<
    &'a String,
    ProcessResultError,
>)
    ensures
        fields.len() > 0 ==> field is Ok && *field->Ok_0 == fields[0],
        fields.len() == 0 ==> field is Err && field->Err_0.is_no_next(section@),
{
    if fields.len() == 0 {
        return Err(ProcessResultError::AvailMatrixNoNext { section: section.clone() });
    }
    Ok(&fields[0])
}

/// Builds a slot from a record's flags once its timestamp field was read:
/// `start` is what the reading gave. Without a usable start the record is
/// refused, and the error carries the timestamp field as it stood.
pub fn slot_with_start(
    names: &Vec<String>,
    timestamp: &String,
    flags: &[String],
    start: Option<i64>,
) -> (slot: Result<Slot, ProcessResultError>)
    ensures
        usable_start(start) ==> slot is Ok && slot->Ok_0@ == slot_of_flags(
            names.deep_view(),
            flags.deep_view(),
            start->Some_0 as int,
        ),
        !usable_start(start) ==> slot is Err && slot->Err_0.is_bad_timestamp(timestamp@),
{
    match start {
        Some(seconds) if seconds <= i64::MAX - SLOT_SECONDS => Ok(
            Slot::new(seconds, mark_people(names, flags)),
        ),
        _ => Err(
            ProcessResultError::AvailMatrixFailedTimestampParse { timestamp: timestamp.clone() },
        ),
    }
}

/// Builds the slot of one record: its first field is the start instant, the
/// fields after it are the flags of the names. Splitting always gives a first
/// field, so the only failure is a first field without a usable start; the
/// empty record is such a one.
pub fn build_slot(names: &Vec<String>, section: &String) -> (slot: Result<
    Slot,
    ProcessResultError,
>)
    ensures
        usable_start(record_start(section@)) ==> slot is Ok && slot->Ok_0@ == record_slot(
            names.deep_view(),
            section@,
        ),
        !usable_start(record_start(section@)) ==> slot is Err && slot->Err_0.is_bad_timestamp(
            first_field(section@),
        ),
        section@.len() == 0 ==> slot is Err && slot->Err_0.is_bad_timestamp(Seq::<char>::empty()),
{
    let fields = split(section.as_str(), FIELD_SEPARATOR);
    proof {
        lemma_split_on_nonempty(section@, FIELD_SEPARATOR);
    }
    let timestamp = match timestamp_field(section, &fields) {
        Ok(timestamp) => timestamp,
        Err(no_next) => return Err(no_next),
    };
    let start = read_timestamp(timestamp.as_str());
    let flags = slice_subrange(fields.as_slice(), 1, fields.len());
    assert(flags.deep_view() =~= fields.deep_view().skip(1));
    slot_with_start(names, timestamp, flags, start)
}

/// Building gives one slot per record, in the records' order; each lasts
/// `SLOT_SECONDS` and lists at most as many people as there are names, under
/// their names and in their order.
pub proof fn lemma_built(names: Seq<Seq<char>>, records: Seq<Seq<char>>)
    ensures
        built(names, records).len() == records.len(),
        forall|i: int|
            0 <= i < records.len() ==> {
                let slot = #[trigger] built(names, records)[i];
                &&& slot == record_slot(names, records[i])
                &&& slot.end - slot.start == SLOT_SECONDS
                &&& slot.people.len() <= names.len()
                &&& forall|j: int|
                    0 <= j < slot.people.len() ==> (#[trigger] slot.people[j]).name == names[j]
            },
{
}

/// The empty record gives no slot: its timestamp field is empty, and an
/// empty field is no timestamp.
pub proof fn lemma_empty_record(record: Seq<char>)
    requires
        record.len() == 0,
    ensures
        first_field(record) == Seq::<char>::empty(),
        !usable_start(record_start(record)),
{
}

/// Records with an empty one among them are not all usable.
pub proof fn lemma_empty_record_among(records: Seq<Seq<char>>, k: int)
    requires
        0 <= k < records.len(),
        records[k].len() == 0,
    ensures
        !all_usable(records),
{
    lemma_empty_record(records[k]);
}

/// Builds one slot per record, in the records' order, each a quarter of an
/// hour long. The first record without a usable start ends the building with
/// its error: there is no partial result.
pub fn build_slots(names: &Vec<String>, avail_matrix: &Vec<String>) -> (slots: Result<
    Vec<Slot>,
    ProcessResultError,
>)
    ensures
        all_usable(avail_matrix.deep_view()) ==> slots is Ok && slots->Ok_0.deep_view() == built(
            names.deep_view(),
            avail_matrix.deep_view(),
        ),
        slots matches Ok(made) ==> made.len() == avail_matrix.len() && forall|i: int|
            0 <= i < made.len() ==> (#[trigger] made[i]).end_time - made[i].start_time
                == SLOT_SECONDS,
        !all_usable(avail_matrix.deep_view()) ==> slots is Err && exists|k: int|
            first_unusable(avail_matrix.deep_view(), k) && slots->Err_0.is_bad_timestamp(
                first_field(#[trigger] avail_matrix.deep_view()[k]),
            ),
{
    let ghost records = avail_matrix.deep_view();
    let mut made: Vec<Slot> = Vec::new();
    let mut i: usize = 0;
    while i < avail_matrix.len()
        invariant
            i <= avail_matrix.len(),
            records == avail_matrix.deep_view(),
            made.len() == i,
            forall|j: int| 0 <= j < i ==> usable_start(record_start(#[trigger] records[j])),
            forall|j: int|
                0 <= j < i ==> (#[trigger] made[j])@ == record_slot(names.deep_view(), records[j]),
            forall|j: int|
                0 <= j < i ==> (#[trigger] made[j]).end_time - made[j].start_time == SLOT_SECONDS,
        decreases avail_matrix.len() - i,
    {
        assert(records[i as int] == avail_matrix[i as int]@);
        match build_slot(names, &avail_matrix[i]) {
            Ok(slot) => {
                made.push(slot);
            },
            Err(e) => {
                return Err(e);
            },
        }
        i += 1;
    }
    Ok(made)
}

/// Builds the slots of all records and folds them: neighbouring slots with
/// the same attendance come back as one.
pub fn process_names_and_matrix(names: Vec<String>, avail_matrix: Vec<String>) -> (slots: Result<
    Vec<Slot>,
    ProcessResultError,
>)
    ensures
        all_usable(avail_matrix.deep_view()) ==> slots is Ok && slots->Ok_0.deep_view() == folded(
            built(names.deep_view(), avail_matrix.deep_view()),
        ),
        !all_usable(avail_matrix.deep_view()) ==> slots is Err && exists|k: int|
            first_unusable(avail_matrix.deep_view(), k) && slots->Err_0.is_bad_timestamp(
                first_field(#[trigger] avail_matrix.deep_view()[k]),
            ),
{
    match build_slots(&names, &avail_matrix) {
        Ok(made) => Ok(fold(made)),
        Err(e) => Err(e),
    }
}

/// What the two raw strings of a page come to, stage by stage: a string that
/// could not be fetched, then one without content, then a record without a
/// usable start ends the run with the error of its stage, the names before
/// the matrix; otherwise the slots are built and folded.
pub open spec fn page_outcome(
    raw_names: Result<String, FetchError>,
    raw_avail_matrix: Result<String, FetchError>,
    slots: Result<Vec<Slot>, ParseWhen2MeetError>,
) -> bool {
    match raw_names {
        Err(e) => slots == Err::<Vec<Slot>, ParseWhen2MeetError>(ParseWhen2MeetError::Fetch(e)),
        Ok(names_text) => if !has_content(names_text@) {
            slots == Err::<Vec<Slot>, ParseWhen2MeetError>(
                ParseWhen2MeetError::Parse(ParseError::EmptyRaw),
            )
        } else {
            match raw_avail_matrix {
                Err(e) => slots == Err::<Vec<Slot>, ParseWhen2MeetError>(
                    ParseWhen2MeetError::Fetch(e),
                ),
                Ok(matrix_text) => if !has_content(matrix_text@) {
                    slots == Err::<Vec<Slot>, ParseWhen2MeetError>(
                        ParseWhen2MeetError::Parse(ParseError::EmptyRaw),
                    )
                } else {
                    let names = split_on(unquoted(names_text@), FIELD_SEPARATOR);
                    let records = split_on(unquoted(matrix_text@), RECORD_SEPARATOR);
                    if all_usable(records) {
                        slots is Ok && slots->Ok_0.deep_view() == folded(built(names, records))
                    } else {
                        slots matches Err(ParseWhen2MeetError::ProcessResult(e)) && exists|k: int|
                            first_unusable(records, k) && e.is_bad_timestamp(
                                first_field(#[trigger] records[k]),
                            )
                    }
                },
            }
        },
    }
}

/// Turns what was fetched from a page into folded slots. The two arguments
/// are the outcomes of fetching the raw list of names and the raw
/// availability matrix.
pub fn parse_when2meet(
    raw_names: Result<String, FetchError>,
    raw_avail_matrix: Result<String, FetchError>,
) -> (slots: Result<Vec<Slot>, ParseWhen2MeetError>)
    ensures
        page_outcome(raw_names, raw_avail_matrix, slots),
{
    let raw_names = match raw_names {
        Ok(raw_names) => raw_names,
        Err(fetch_error) => return Err(ParseWhen2MeetError::Fetch(fetch_error)),
    };
    let names = match parse_people_names_from_result(raw_names) {
        Ok(names) => names,
        Err(parse_error) => return Err(ParseWhen2MeetError::Parse(parse_error)),
    };
    let raw_avail_matrix = match raw_avail_matrix {
        Ok(raw_avail_matrix) => raw_avail_matrix,
        Err(fetch_error) => return Err(ParseWhen2MeetError::Fetch(fetch_error)),
    };
    let avail_matrix = match parse_avail_matrix_from_result(raw_avail_matrix) {
        Ok(avail_matrix) => avail_matrix,
        Err(parse_error) => return Err(ParseWhen2MeetError::Parse(parse_error)),
    };
    match process_names_and_matrix(names, avail_matrix) {
        Ok(slots) => Ok(slots),
        Err(process_result_error) => Err(ParseWhen2MeetError::ProcessResult(process_result_error)),
    }
}

} // verus!
