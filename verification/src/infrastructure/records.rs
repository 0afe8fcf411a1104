//! The records of a guild's queue as a keyed list store keeps them: one JSON
//! object for each entry, under a key made from the guild id.

use vstd::prelude::*;

use crate::domain::queue::{entry_views, is_position_of, Enrollment, EntryView, QueueEntry};
use crate::infrastructure::json::{
    json_string, parse_document, parsed_members, quote, string_member,
};

verus! {

/// The texts of a run of records, in the same order.
pub open spec fn record_texts(records: Seq<String>) -> Seq<Seq<char>> {
    records.map_values(|r: String| r@)
}

/// The key under which the queue of `guild_id` is kept.
pub fn queue_key(guild_id: &str) -> (key: String)
    ensures
        key@ == "queue:"@ + guild_id@,
{
    let mut key = String::from_str("queue:");
    key.append(guild_id);
    key
}

/// The record of an entry, built from its two fields as JSON strings.
pub open spec fn framed(user_id: Seq<char>, display_name: Seq<char>) -> Seq<char> {
    "{\"user_id\":"@ + user_id + ",\"display_name\":"@ + display_name + "}"@
}

/// The record that stands for `entry`: the frame of its two fields, each
/// written as a JSON string.
pub open spec fn encoded(entry: EntryView) -> Seq<char> {
    framed(json_string(entry.user_id), json_string(entry.display_name))
}

/// The entry that `record` stands for. A record is a JSON object whose members
/// `user_id` and `display_name` are strings; other members do not matter, and
/// where a name is repeated its last value counts. Any other text stands for no
/// entry: so does a JSON array of the two fields, and so does an object in
/// which one of the two is missing or is no string.
pub open spec fn decoded(record: Seq<char>) -> Option<EntryView> {
    match parsed_members(record) {
        Some(members) => if members.contains_key("user_id"@) && members.contains_key(
            "display_name"@,
        ) {
            Some(
                EntryView { user_id: members["user_id"@], display_name: members["display_name"@] },
            )
        } else {
            None
        },
        None => None,
    }
}

/// The entries that `records` stand for, in their order, without the records
/// that stand for none.
pub open spec fn usable(records: Seq<Seq<char>>) -> Seq<EntryView> {
    records.filter_map(|record: Seq<char>| decoded(record))
}

/// The places in `records` of the records that stand for no entry, ascending.
pub open spec fn malformed(records: Seq<Seq<char>>) -> Seq<int>
    decreases records.len(),
{
    if records.len() == 0 {
        Seq::empty()
    } else if decoded(records.last()) is None {
        malformed(records.drop_last()).push(records.len() - 1)
    } else {
        malformed(records.drop_last())
    }
}

/// Whether `record` stands for an entry of `user_id`.
pub open spec fn belongs_to(record: Seq<char>, user_id: Seq<char>) -> bool {
    match decoded(record) {
        Some(entry) => entry.user_id == user_id,
        None => false,
    }
}

/// The record of an entry whose two fields are already written as JSON
/// strings.
pub fn frame_record(user_id: &str, display_name: &str) -> (record: String)
    ensures
        record@ == framed(user_id@, display_name@),
{
    let mut record = String::from_str("{\"user_id\":");
    record.append(user_id);
    record.append(",\"display_name\":");
    record.append(display_name);
    record.append("}");
    record
}

/// The record that stands for `entry`.
pub fn encode_entry(entry: &QueueEntry) -> (record: String)
    ensures
        record@ == encoded(entry@),
{
    let user_id = match quote(entry.user_id.as_str()) {
        Some(q) => q,
        None => unreached(),
    };
    let display_name = match quote(entry.display_name.as_str()) {
        Some(q) => q,
        None => unreached(),
    };
    frame_record(user_id.as_str(), display_name.as_str())
}

/// The entry that `record` stands for, if it stands for one.
pub fn decode_entry(record: &str) -> (entry: Option<QueueEntry>)
    ensures
        match entry {
            Some(e) => decoded(record@) == Some(e@),
            None => decoded(record@) is None,
        },
{
    let document = match parse_document(record) {
        Some(d) => d,
        None => {
            return None;
        },
    };
    let user_id = match string_member(&document, "user_id") {
        Some(s) => s,
        None => {
            return None;
        },
    };
    let display_name = match string_member(&document, "display_name") {
        Some(s) => s,
        None => {
            return None;
        },
    };
    Some(QueueEntry::new(user_id, display_name))
}

/// What a run of records holds: the entries, and where the records stand that
/// could not be read.
pub struct Decoded {
    /// The entries that the records stand for, in their order.
    pub entries: Vec<QueueEntry>,
    /// The places of the records that stand for no entry, ascending.
    pub malformed: Vec<usize>,
}

/// Reads a run of records, as a list or a removal of several hands them out. A
/// record that stands for no entry is left out and its place is noted.
pub fn decode_records(records: &Vec<String>) -> (read: Decoded)
    ensures
        entry_views(read.entries@) == usable(record_texts(records@)),
        read.malformed@.map_values(|i: usize| i as int) == malformed(record_texts(records@)),
{
    let ghost texts = record_texts(records@);
    let mut entries: Vec<QueueEntry> = Vec::new();
    let mut skipped: Vec<usize> = Vec::new();
    let mut i: usize = 0;
    assert(texts.take(0) =~= Seq::empty());
    assert(entry_views(entries@) =~= usable(texts.take(0)));
    assert(skipped@.map_values(|i: usize| i as int) =~= malformed(texts.take(0)));
    while i < records.len()
        invariant
            i <= records.len(),
            texts == record_texts(records@),
            entry_views(entries@) == usable(texts.take(i as int)),
            skipped@.map_values(|i: usize| i as int) == malformed(texts.take(i as int)),
        decreases records.len() - i,
    {
        proof {
            assert(texts.take(i + 1).drop_last() == texts.take(i as int));
            assert(texts.take(i + 1).last() == records@[i as int]@);
        }
        let ghost entries_before = entries@;
        let ghost skipped_before = skipped@;
        match decode_entry(records[i].as_str()) {
            Some(entry) => {
                entries.push(entry);
                assert(entry_views(entries@) =~= entry_views(entries_before).push(entry@));
            },
            None => {
                skipped.push(i);
                assert(skipped@.map_values(|i: usize| i as int) =~= skipped_before.map_values(
                    |i: usize| i as int,
                ).push(i as int));
            },
        }
        i = i + 1;
    }
    assert(texts.take(i as int) == texts);
    Decoded { entries, malformed: skipped }
}

/// `at` is where the first record of `user_id` stands in `records`, counted
/// from 0 at the front, or `None` when no record is that user's. Every record
/// counts for a place, also one that stands for no entry.
pub open spec fn is_place_of(records: Seq<Seq<char>>, user_id: Seq<char>, at: Option<int>) -> bool {
    match at {
        Some(i) => {
            &&& 0 <= i < records.len()
            &&& belongs_to(records[i], user_id)
            &&& forall|j: int| 0 <= j < i ==> !belongs_to(records[j], user_id)
        },
        None => forall|j: int| 0 <= j < records.len() ==> !belongs_to(records[j], user_id),
    }
}

/// A place as a number without bounds.
pub open spec fn place(at: Option<usize>) -> Option<int> {
    match at {
        Some(i) => Some(i as int),
        None => None,
    }
}

/// Where every record can be read, the records stand for as many entries, each
/// at the place of its record.
pub proof fn law_readable_records(records: Seq<Seq<char>>)
    requires
        malformed(records).len() == 0,
    ensures
        usable(records).len() == records.len(),
        forall|i: int|
            0 <= i < records.len() ==> decoded(#[trigger] records[i]) == Some(usable(records)[i]),
    decreases records.len(),
{
    if records.len() > 0 {
        let earlier = records.drop_last();
        law_readable_records(earlier);
        assert forall|i: int| 0 <= i < records.len() implies decoded(#[trigger] records[i])
            == Some(usable(records)[i]) by {
            if i < earlier.len() {
                assert(earlier[i] == records[i]);
            }
        }
    }
}

/// Where every record can be read, the place of a user among the records is
/// the user's place among the entries that the records stand for.
pub proof fn law_place_among_readable(records: Seq<Seq<char>>, user_id: Seq<char>, at: Option<int>)
    requires
        malformed(records).len() == 0,
    ensures
        is_place_of(records, user_id, at) <==> is_position_of(usable(records), user_id, at),
{
    law_readable_records(records);
    let entries = usable(records);
    assert forall|j: int| 0 <= j < records.len() implies (belongs_to(records[j], user_id)
        <==> entries[j].user_id == user_id) by {
        assert(decoded(records[j]) == Some(entries[j]));
    }
}

/// Where the first record of `user_id` stands in `records`, counted from 0 at
/// the front. Every record counts for a place, also one that stands for no
/// entry. `None` when no record is that user's. Where every record can be
/// read, that is the user's place among the entries.
pub fn position_of(records: &Vec<String>, user_id: &str) -> (found: Option<usize>)
    ensures
        is_place_of(record_texts(records@), user_id@, place(found)),
        malformed(record_texts(records@)).len() == 0 ==> is_position_of(
            usable(record_texts(records@)),
            user_id@,
            place(found),
        ),
{
    let ghost texts = record_texts(records@);
    let wanted: String = user_id.to_owned();
    let mut i: usize = 0;
    while i < records.len()
        invariant
            i <= records.len(),
            wanted@ == user_id@,
            texts == record_texts(records@),
            forall|j: int| 0 <= j < i ==> !belongs_to(texts[j], user_id@),
        decreases records.len() - i,
    {
        if let Some(entry) = decode_entry(records[i].as_str()) {
            if entry.user_id == wanted {
                proof {
                    assert(belongs_to(texts[i as int], user_id@));
                    if malformed(texts).len() == 0 {
                        law_place_among_readable(texts, user_id@, Some(i as int));
                    }
                }
                return Some(i);
            }
        }
        i = i + 1;
    }
    proof {
        if malformed(texts).len() == 0 {
            law_place_among_readable(texts, user_id@, None);
        }
    }
    None
}

/// What a request of `user_id` to join is told without an entry being added,
/// by a store that keeps `records` for the guild and knows whether the guild
/// `is_open`: that the queue is closed, or where the user already stands.
/// `None` when nothing stands against adding the entry.
pub fn refusal(is_open: bool, records: &Vec<String>, user_id: &str) -> (refused: Option<Enrollment>)
    ensures
        match refused {
            Some(Enrollment::Closed) => !is_open,
            Some(Enrollment::AlreadyPresent(at)) => is_open && is_place_of(
                record_texts(records@),
                user_id@,
                Some(at as int),
            ),
            Some(Enrollment::Enrolled(_)) => false,
            None => is_open && is_place_of(record_texts(records@), user_id@, None),
        },
{
    if !is_open {
        return Some(Enrollment::Closed);
    }
    match position_of(records, user_id) {
        Some(at) => Some(Enrollment::AlreadyPresent(at)),
        None => None,
    }
}

/// The entry that a removal of one record handed out: the store answers with
/// the record removed, or with nothing when the list was empty. `None` too when
/// the record stands for no entry.
pub fn decode_popped(records: Vec<String>) -> (entry: Option<QueueEntry>)
    ensures
        match entry {
            Some(e) => records@.len() > 0 && decoded(records@.last()@) == Some(e@),
            None => records@.len() == 0 || decoded(records@.last()@) is None,
        },
{
    let mut records = records;
    match records.pop() {
        Some(record) => decode_entry(record.as_str()),
        None => None,
    }
}

} // verus!
