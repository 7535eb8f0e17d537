//! The header codec: between the protocol's header entries and a header map.

use crate::error::{ConversionError, RequestFault};
use crate::fields::{
    extended, lemma_extended_by_nothing, lemma_extended_twice, lemma_field_is_named, lemma_names,
    lemma_names_within, lemma_values_named_are_fields, lemma_values_named_concat, names,
    names_held, same_multimap, values_named, Field,
};
use crate::grammar::{
    bytes_text, is_header_name, is_header_value, is_text, lower_name, text_bytes, texts_bytes,
    values_text,
};
use crate::http_api::{
    append_header, header_fields, header_map_fields, header_name_str, header_name_text,
    header_value_bytes, header_value_str, new_header_map, parse_header_name, parse_header_value,
    sure_names,
};
use crate::pluginv2::{HeaderEntries, StringList};
use vstd::prelude::*;

verus! {

/// The fields that one entry of the protocol stands for: its name in lower
/// case with each of its values, in order.
pub open spec fn entry_fields(name: Seq<char>, values: Seq<Seq<char>>) -> Seq<Field> {
    values.map_values(|value: Seq<char>| (lower_name(name), text_bytes(value)))
}

/// The fields that the entries stand for, entry by entry.
pub open spec fn wire_fields(entries: HeaderEntries) -> Seq<Field>
    decreases entries.len(),
{
    if entries.len() == 0 {
        Seq::empty()
    } else {
        wire_fields(entries.drop_last()) + entry_fields(entries.last().0, entries.last().1)
    }
}

/// Every one of the values is a header value.
pub open spec fn all_header_values(values: Seq<Seq<char>>) -> bool {
    forall|j: int| 0 <= j < values.len() ==> is_header_value(text_bytes(#[trigger] values[j]))
}

/// What is wrong with one entry, if anything: its name is looked at first,
/// then its values.
pub open spec fn entry_fault(name: Seq<char>, values: Seq<Seq<char>>) -> Option<RequestFault> {
    if !is_header_name(name) {
        Some(RequestFault::HeaderName)
    } else if !all_header_values(values) {
        Some(RequestFault::HeaderValue)
    } else {
        None
    }
}

/// The fault of the first entry that has one.
pub open spec fn first_fault(entries: HeaderEntries) -> Option<RequestFault>
    decreases entries.len(),
{
    if entries.len() == 0 {
        None
    } else {
        match first_fault(entries.drop_last()) {
            Some(fault) => Some(fault),
            None => entry_fault(entries.last().0, entries.last().1),
        }
    }
}

/// A fault that follows a faultless run of entries is the first fault of
/// every longer run.
proof fn lemma_first_fault_found(entries: HeaderEntries, at: int, upto: int)
    requires
        0 <= at < upto <= entries.len(),
        first_fault(entries.take(at)) is None,
        entry_fault(entries[at].0, entries[at].1) is Some,
    ensures
        first_fault(entries.take(upto)) == entry_fault(entries[at].0, entries[at].1),
    decreases upto - at,
{
    assert(entries.take(upto).drop_last() =~= entries.take(upto - 1));
    if upto - 1 > at {
        lemma_first_fault_found(entries, at, upto - 1);
    }
}

/// The values under a name grow with the run of entries, and every entry of
/// the run has added its values under its name in lower case.
proof fn lemma_wire_values_grow(entries: HeaderEntries, at: int, upto: int, name: Seq<char>)
    requires
        0 <= at <= upto <= entries.len(),
    ensures
        values_named(wire_fields(entries.take(at)), name).len() <= values_named(
            wire_fields(entries.take(upto)),
            name,
        ).len(),
        at < upto ==> values_named(
            wire_fields(entries.take(upto)),
            lower_name(entries[at].0),
        ).len() >= entries[at].1.len(),
    decreases upto - at,
{
    if at < upto {
        let before = wire_fields(entries.take(upto - 1));
        let last = entries[upto - 1];
        let own = lower_name(entries[at].0);
        assert(entries.take(upto).drop_last() =~= entries.take(upto - 1));
        lemma_values_named_concat(before, entry_fields(last.0, last.1), name);
        lemma_values_named_concat(before, entry_fields(last.0, last.1), own);
        lemma_entry_values(last.0, last.1, own);
        lemma_wire_values_grow(entries, at, upto - 1, name);
        lemma_wire_values_grow(entries, at, upto - 1, own);
    }
}

/// The names that a header map holds while an entry with a value is being
/// decoded, and the name of that entry, are names of the whole message.
proof fn lemma_names_of_message(entries: HeaderEntries, at: int, held: Seq<Field>)
    requires
        0 <= at < entries.len(),
        same_multimap(held, wire_fields(entries.take(at))),
        entries[at].1.len() > 0,
    ensures
        names(held).insert(lower_name(entries[at].0)).len() <= names_held(wire_fields(entries)),
{
    let all = wire_fields(entries);
    let own = lower_name(entries[at].0);
    assert(entries.take(entries.len() as int) =~= entries);
    assert forall|name: Seq<char>| names(held).insert(own).contains(name) implies names(
        all,
    ).contains(name) by {
        lemma_names(held, name);
        lemma_names(all, name);
        lemma_wire_values_grow(entries, at, entries.len() as int, name);
        lemma_wire_values_grow(entries, at + 1, entries.len() as int, name);
        lemma_wire_values_grow(entries, at, at + 1, name);
        if name != own {
            assert(values_named(held, name) == values_named(wire_fields(entries.take(at)), name));
        }
    }
    lemma_names(all, own);
    vstd::set_lib::lemma_len_subset(names(held).insert(own), names(all));
}

/// What an attempt to append to a header map means for the decoding: no
/// fault where it succeeded, too many headers where the map took no more.
pub fn append_fault(appended: Result<bool, http::header::MaxSizeReached>) -> (fault: Option<
    RequestFault,
>)
    ensures
        fault == match appended {
            Ok(_) => None,
            Err(_) => Some(RequestFault::TooManyHeaders),
        },
{
    match appended {
        Ok(_) => None,
        Err(_) => Some(RequestFault::TooManyHeaders),
    }
}

/// Checks each of the values and appends it to the map under `name`, in
/// order. The first value that is no header value ends the work; so does a
/// map that takes no more fields, which holds `sure_names()` names or more
/// once `name` is counted in.
fn append_values(
    map: &mut http::HeaderMap<http::HeaderValue>,
    name: &http::HeaderName,
    values: &Vec<String>,
) -> (appended: Result<(), RequestFault>)
    ensures
        match appended {
            Ok(_) => {
                &&& all_header_values(values.deep_view())
                &&& extended(
                    header_fields(*old(map)),
                    header_fields(*final(map)),
                    header_name_text(*name),
                    texts_bytes(values.deep_view()),
                )
            },
            Err(fault) => {
                ||| fault == RequestFault::HeaderValue && !all_header_values(values.deep_view())
                ||| {
                    &&& fault == RequestFault::TooManyHeaders
                    &&& values.len() > 0
                    &&& names(header_fields(*old(map))).insert(header_name_text(*name)).len()
                        >= sure_names()
                }
            },
        },
{
    let ghost texts = values.deep_view();
    let ghost start = header_fields(*map);
    let mut j: usize = 0;
    proof {
        lemma_extended_by_nothing(start, header_name_text(*name));
        assert(texts_bytes(texts.take(0)) =~= Seq::empty());
    }
    while j < values.len()
        invariant
            j <= values.len(),
            texts == values.deep_view(),
            start == header_fields(*old(map)),
            all_header_values(texts.take(j as int)),
            extended(
                start,
                header_fields(*map),
                header_name_text(*name),
                texts_bytes(texts.take(j as int)),
            ),
        decreases values.len() - j,
    {
        let value = match parse_header_value(values[j].as_str()) {
            Ok(value) => value,
            Err(_) => {
                assert(!is_header_value(text_bytes(texts[j as int])));
                return Err(RequestFault::HeaderValue);
            },
        };
        let ghost before = header_fields(*map);
        if let Some(fault) = append_fault(append_header(map, name, value)) {
            proof {
                let own = header_name_text(*name);
                lemma_names_within(before, start, set![own]);
                assert(names(start).union(set![own]) =~= names(start).insert(own));
            }
            return Err(fault);
        }
        proof {
            let bytes = text_bytes(texts[j as int]);
            lemma_extended_twice(
                start,
                before,
                header_fields(*map),
                header_name_text(*name),
                texts_bytes(texts.take(j as int)),
                seq![bytes],
            );
            assert(texts_bytes(texts.take(j + 1)) =~= texts_bytes(texts.take(j as int))
                + seq![bytes]);
            assert forall|k: int| 0 <= k < j + 1 implies is_header_value(
                text_bytes(#[trigger] texts.take(j + 1)[k]),
            ) by {
                if k < j {
                    assert(texts.take(j as int)[k] == texts[k]);
                }
            }
        }
        j += 1;
    }
    assert(texts.take(j as int) =~= texts);
    Ok(())
}

/// Decodes the protocol's header entries into a header map.
///
/// Entries are taken in order. A name is checked once, then each value under
/// it is checked and appended under that name in lower case. The first name
/// or value that breaks the grammar ends the decoding with its fault. A
/// header map that takes no more fields ends it too; that happens only to
/// entries with `sure_names()` names or more, so entries without a fault and
/// with fewer names are always decoded.
pub fn decode_headers(headers: &Vec<(String, StringList)>) -> (decoded: Result<
    http::HeaderMap<http::HeaderValue>,
    ConversionError,
>)
    ensures
        first_fault(headers.deep_view()) is Some ==> decoded matches Err(
            ConversionError::InvalidRequest { .. },
        ),
        first_fault(headers.deep_view()) is None && names_held(wire_fields(headers.deep_view()))
            < sure_names() ==> decoded is Ok,
        match decoded {
            Ok(map) => {
                &&& first_fault(headers.deep_view()) is None
                &&& same_multimap(header_fields(map), wire_fields(headers.deep_view()))
            },
            Err(error) => {
                &&& error matches ConversionError::InvalidRequest { cause }
                &&& {
                    ||| first_fault(headers.deep_view()) == Some(cause)
                    ||| cause == RequestFault::TooManyHeaders && names_held(
                        wire_fields(headers.deep_view()),
                    ) >= sure_names()
                }
            },
        },
{
    let ghost entries = headers.deep_view();
    let mut map = new_header_map();
    let mut i: usize = 0;
    assert(entries.take(0) =~= Seq::empty());
    while i < headers.len()
        invariant
            i <= headers.len(),
            entries == headers.deep_view(),
            first_fault(entries.take(i as int)) is None,
            same_multimap(header_fields(map), wire_fields(entries.take(i as int))),
        decreases headers.len() - i,
    {
        proof {
            assert(entries.take(i + 1).drop_last() =~= entries.take(i as int));
            assert(entries.take(entries.len() as int) =~= entries);
        }
        let name = match parse_header_name(headers[i].0.as_str()) {
            Ok(name) => name,
            Err(_) => {
                proof {
                    lemma_first_fault_found(entries, i as int, entries.len() as int);
                }
                return Err(ConversionError::InvalidRequest { cause: RequestFault::HeaderName });
            },
        };
        let ghost held = header_fields(map);
        if let Err(cause) = append_values(&mut map, &name, &headers[i].1.values) {
            proof {
                if cause == RequestFault::HeaderValue {
                    lemma_first_fault_found(entries, i as int, entries.len() as int);
                } else {
                    lemma_names_of_message(entries, i as int, held);
                }
            }
            return Err(ConversionError::InvalidRequest { cause });
        }
        proof {
            let done = wire_fields(entries.take(i as int));
            let entry = entries[i as int];
            assert forall|other: Seq<char>| #[trigger]
                values_named(header_fields(map), other) == values_named(
                    wire_fields(entries.take(i + 1)),
                    other,
                ) by {
                lemma_values_named_concat(done, entry_fields(entry.0, entry.1), other);
                lemma_entry_values(entry.0, entry.1, other);
                assert(values_named(done, other) + Seq::<Seq<u8>>::empty() =~= values_named(
                    done,
                    other,
                ));
            }
        }
        i += 1;
    }
    assert(entries.take(i as int) =~= entries);
    Ok(map)
}

/// Every value among the fields can be written out as text.
pub open spec fn all_text(fields: Seq<Field>) -> bool {
    forall|i: int| 0 <= i < fields.len() ==> is_text(#[trigger] fields[i].1)
}

/// Where the entry named `name` stands among the entries: the first such
/// entry, if there is one.
pub open spec fn entry_position(entries: HeaderEntries, name: Seq<char>) -> Option<int>
    decreases entries.len(),
{
    if entries.len() == 0 {
        None
    } else {
        match entry_position(entries.drop_last(), name) {
            Some(at) => Some(at),
            None => if entries.last().0 == name {
                Some(entries.len() - 1)
            } else {
                None
            },
        }
    }
}

/// The entries with one more value under `name`: at the end of the entry of
/// that name, or in a new last entry where none has that name.
pub open spec fn with_value(entries: HeaderEntries, name: Seq<char>, value: Seq<char>)
    -> HeaderEntries {
    match entry_position(entries, name) {
        Some(at) => entries.update(at, (name, entries[at].1.push(value))),
        None => entries.push((name, seq![value])),
    }
}

/// The fields grouped by name: one entry per name, in the order in which the
/// names first occur, holding as text all values of that name in the order
/// in which they occur, wherever among the fields they stand.
pub open spec fn grouped_entries(fields: Seq<Field>) -> HeaderEntries
    decreases fields.len(),
{
    if fields.len() == 0 {
        Seq::empty()
    } else {
        with_value(
            grouped_entries(fields.drop_last()),
            fields.last().0,
            bytes_text(fields.last().1),
        )
    }
}

/// Looks for the entry with the given name.
fn find_entry(entries: &Vec<(String, StringList)>, name: &String) -> (found: Option<usize>)
    ensures
        match found {
            Some(at) => entry_position(entries.deep_view(), name@) == Some(at as int),
            None => entry_position(entries.deep_view(), name@) is None,
        },
        found matches Some(at) ==> at < entries.len(),
{
    let ghost all = entries.deep_view();
    let mut k: usize = 0;
    assert(all.take(0) =~= Seq::empty());
    while k < entries.len()
        invariant
            k <= entries.len(),
            all == entries.deep_view(),
            entry_position(all.take(k as int), name@) is None,
        decreases entries.len() - k,
    {
        assert(all.take(k + 1).drop_last() =~= all.take(k as int));
        if entries[k].0 == *name {
            proof {
                lemma_position_found(all, name@, k as int, all.len() as int);
                assert(all.take(all.len() as int) =~= all);
            }
            return Some(k);
        }
        k += 1;
    }
    assert(all.take(k as int) =~= all);
    None
}

/// An entry found after a run without its name keeps its place in every
/// longer run.
proof fn lemma_position_found(entries: HeaderEntries, name: Seq<char>, at: int, upto: int)
    requires
        0 <= at < upto <= entries.len(),
        entry_position(entries.take(at), name) is None,
        entries[at].0 == name,
    ensures
        entry_position(entries.take(upto), name) == Some(at),
    decreases upto - at,
{
    assert(entries.take(upto).drop_last() =~= entries.take(upto - 1));
    if upto - 1 > at {
        lemma_position_found(entries, name, at, upto - 1);
    }
}

/// The place that `entry_position` gives is the place of an entry with that
/// name.
pub proof fn lemma_position_names(entries: HeaderEntries, name: Seq<char>)
    ensures
        entry_position(entries, name) matches Some(at) ==> 0 <= at < entries.len() && entries[at].0
            == name,
    decreases entries.len(),
{
    if entries.len() > 0 {
        lemma_position_names(entries.drop_last(), name);
    }
}

/// Adds a value under a name: at the end of the entry of that name, or in a
/// new last entry where none has that name.
fn add_value(entries: &mut Vec<(String, StringList)>, name: String, value: String)
    ensures
        final(entries).deep_view() == with_value(old(entries).deep_view(), name@, value@),
{
    let ghost before = entries.deep_view();
    let ghost held = entries@;
    match find_entry(entries, &name) {
        Some(at) => {
            entries[at].1.values.push(value);
            proof {
                lemma_position_names(before, name@);
                assert(entries@[at as int].1.values.deep_view() =~= before[at as int].1.push(
                    value@,
                ));
                assert forall|k: int| 0 <= k < held.len() && k != at implies entries@[k]
                    == held[k] by {}
                assert(entries.deep_view() =~= before.update(
                    at as int,
                    (name@, before[at as int].1.push(value@)),
                ));
            }
        },
        None => {
            let mut values: Vec<String> = Vec::new();
            values.push(value);
            assert(values.deep_view() =~= seq![value@]);
            entries.push((name, StringList { values }));
            assert(entries.deep_view() =~= before.push((name@, seq![value@])));
        },
    }
}

/// Encodes a header map into the protocol's header entries.
///
/// The fields are grouped by name, in the order in which the names first
/// occur. A value that cannot be written out as text ends the encoding.
pub fn encode_headers(map: &http::HeaderMap<http::HeaderValue>) -> (encoded: Result<
    Vec<(String, StringList)>,
    ConversionError,
>)
    ensures
        match encoded {
            Ok(entries) => {
                &&& all_text(header_fields(*map))
                &&& entries.deep_view() == grouped_entries(header_fields(*map))
                &&& distinct_names(entries.deep_view())
            },
            Err(error) => {
                &&& error == ConversionError::InvalidResponse
                &&& !all_text(header_fields(*map))
            },
        },
{
    let ghost all = header_fields(*map);
    let fields = header_map_fields(map);
    let mut entries: Vec<(String, StringList)> = Vec::new();
    let mut i: usize = 0;
    assert(all.take(0) =~= Seq::empty());
    assert(entries.deep_view() =~= Seq::empty());
    while i < fields.len()
        invariant
            i <= fields.len(),
            all == header_fields(*map),
            fields@.len() == all.len(),
            forall|k: int|
                0 <= k < fields@.len() ==> (
                    header_name_text(#[trigger] fields@[k].0),
                    header_value_bytes(fields@[k].1),
                ) == all[k],
            all_text(all.take(i as int)),
            entries.deep_view() == grouped_entries(all.take(i as int)),
        decreases fields.len() - i,
    {
        assert(all.take(i + 1).drop_last() =~= all.take(i as int));
        assert(header_name_text(fields@[i as int].0) == all[i as int].0);
        let text = match header_value_str(&fields[i].1) {
            Ok(text) => text,
            Err(_) => {
                assert(!is_text(all[i as int].1));
                return Err(ConversionError::InvalidResponse);
            },
        };
        assert(text@ == bytes_text(all[i as int].1)) by {
            vstd::utf8::encode_utf8_decode_utf8(text@);
        }
        add_value(&mut entries, header_name_str(&fields[i].0).to_owned(), text.to_owned());
        i += 1;
    }
    proof {
        assert(all.take(i as int) =~= all);
        lemma_grouped_distinct(all);
    }
    Ok(entries)
}

/// The values that the entries keep under `name`: those of the entry of that
/// name, or none where no entry has it.
pub open spec fn values_of(entries: HeaderEntries, name: Seq<char>) -> Seq<Seq<char>> {
    match entry_position(entries, name) {
        Some(at) => entries[at].1,
        None => Seq::empty(),
    }
}

/// No name occurs in two entries.
pub open spec fn distinct_names(entries: HeaderEntries) -> bool {
    forall|i: int, j: int|
        0 <= i < j < entries.len() ==> (#[trigger] entries[i]).0 != (#[trigger] entries[j]).0
}

/// Where no entry has the name, `entry_position` finds none, and the other
/// way round.
pub proof fn lemma_position_none(entries: HeaderEntries, name: Seq<char>)
    ensures
        entry_position(entries, name) is None <==> forall|i: int|
            0 <= i < entries.len() ==> (#[trigger] entries[i]).0 != name,
    decreases entries.len(),
{
    if entries.len() > 0 {
        lemma_position_none(entries.drop_last(), name);
        if entry_position(entries, name) is None {
            assert forall|i: int| 0 <= i < entries.len() implies (#[trigger] entries[i]).0
                != name by {
                if i < entries.len() - 1 {
                    assert(entries.drop_last()[i].0 != name);
                }
            }
        } else if entry_position(entries.drop_last(), name) is Some {
            lemma_position_names(entries.drop_last(), name);
            let at = entry_position(entries.drop_last(), name).unwrap();
            assert(entries[at].0 == name);
        } else {
            assert(entries[entries.len() - 1].0 == name);
        }
    }
}

/// Where the entries are kept depends on their names alone.
proof fn lemma_position_by_names(a: HeaderEntries, b: HeaderEntries, name: Seq<char>)
    requires
        a.len() == b.len(),
        forall|i: int| 0 <= i < a.len() ==> (#[trigger] a[i]).0 == b[i].0,
    ensures
        entry_position(a, name) == entry_position(b, name),
    decreases a.len(),
{
    if a.len() > 0 {
        assert forall|i: int| 0 <= i < a.drop_last().len() implies (#[trigger] a.drop_last()[i]).0
            == b.drop_last()[i].0 by {
            assert(a[i].0 == b[i].0);
        }
        lemma_position_by_names(a.drop_last(), b.drop_last(), name);
        assert(a.last().0 == b.last().0) by {
            assert(a[a.len() - 1].0 == b[a.len() - 1].0);
        }
    }
}

/// One more value under a name lengthens the values of that name by it and
/// leaves every other name as it was.
pub proof fn lemma_with_value(
    entries: HeaderEntries,
    name: Seq<char>,
    value: Seq<char>,
    other: Seq<char>,
)
    ensures
        values_of(with_value(entries, name, value), other) == if other == name {
            values_of(entries, other).push(value)
        } else {
            values_of(entries, other)
        },
{
    let grown = with_value(entries, name, value);
    match entry_position(entries, name) {
        Some(at) => {
            lemma_position_names(entries, name);
            lemma_position_by_names(entries, grown, other);
            if other != name {
                lemma_position_names(entries, other);
            }
        },
        None => {
            assert(grown.drop_last() =~= entries);
            if other != name {
                lemma_position_names(entries, other);
            } else {
                assert(Seq::<Seq<char>>::empty().push(value) =~= seq![value]);
            }
        },
    }
}

/// One more value under a name keeps the names apart.
proof fn lemma_with_value_distinct(entries: HeaderEntries, name: Seq<char>, value: Seq<char>)
    requires
        distinct_names(entries),
    ensures
        distinct_names(with_value(entries, name, value)),
{
    let grown = with_value(entries, name, value);
    lemma_position_names(entries, name);
    lemma_position_none(entries, name);
    assert forall|i: int, j: int| 0 <= i < j < grown.len() implies (#[trigger] grown[i]).0 != (
    #[trigger] grown[j]).0 by {
        if j < entries.len() {
            assert(entries[i].0 != entries[j].0);
        } else {
            assert(entries[i].0 != name);
        }
    }
}

/// Grouping puts every name into one entry.
pub proof fn lemma_grouped_distinct(fields: Seq<Field>)
    ensures
        distinct_names(grouped_entries(fields)),
    decreases fields.len(),
{
    if fields.len() > 0 {
        lemma_grouped_distinct(fields.drop_last());
        lemma_with_value_distinct(
            grouped_entries(fields.drop_last()),
            fields.last().0,
            bytes_text(fields.last().1),
        );
    }
}

/// Grouping keeps under every name the values that the fields hold under
/// it, as text and in their order.
pub proof fn lemma_grouped_values(fields: Seq<Field>, name: Seq<char>)
    ensures
        values_of(grouped_entries(fields), name) == values_text(values_named(fields, name)),
    decreases fields.len(),
{
    if fields.len() == 0 {
        assert(values_text(values_named(fields, name)) =~= Seq::empty());
    } else {
        lemma_grouped_values(fields.drop_last(), name);
        lemma_with_value(
            grouped_entries(fields.drop_last()),
            fields.last().0,
            bytes_text(fields.last().1),
            name,
        );
        let before = values_named(fields.drop_last(), name);
        if fields.last().0 == name {
            assert(values_text(before.push(fields.last().1)) =~= values_text(before).push(
                bytes_text(fields.last().1),
            ));
        }
    }
}

/// The fields of entries with distinct names in lower case hold under every
/// name the bytes of the values that the entries keep under it.
proof fn lemma_wire_values(entries: HeaderEntries, name: Seq<char>)
    requires
        distinct_names(entries),
        forall|i: int| 0 <= i < entries.len() ==> lower_name((#[trigger] entries[i]).0) == entries[i].0,
    ensures
        values_named(wire_fields(entries), name) == texts_bytes(values_of(entries, name)),
    decreases entries.len(),
{
    if entries.len() == 0 {
        assert(texts_bytes(values_of(entries, name)) =~= Seq::empty());
    } else {
        let rest = entries.drop_last();
        let last = entries.last();
        assert forall|i: int| 0 <= i < rest.len() implies lower_name((#[trigger] rest[i]).0)
            == rest[i].0 by {
            assert(lower_name(entries[i].0) == entries[i].0);
        }
        assert(distinct_names(rest)) by {
            assert forall|i: int, j: int| 0 <= i < j < rest.len() implies (#[trigger] rest[i]).0
                != (#[trigger] rest[j]).0 by {
                assert(entries[i].0 != entries[j].0);
            }
        }
        lemma_wire_values(rest, name);
        lemma_values_named_concat(wire_fields(rest), entry_fields(last.0, last.1), name);
        lemma_entry_values(last.0, last.1, name);
        assert(lower_name(last.0) == last.0) by {
            assert(lower_name(entries[entries.len() - 1].0) == entries[entries.len() - 1].0);
        }
        lemma_position_none(rest, name);
        if last.0 == name {
            assert forall|i: int| 0 <= i < rest.len() implies (#[trigger] rest[i]).0 != name by {
                assert(entries[i].0 != entries[entries.len() - 1].0);
            }
            assert(values_of(rest, name) =~= Seq::empty());
            assert(texts_bytes(values_of(rest, name)) =~= Seq::empty());
            assert(values_named(wire_fields(rest), name) + texts_bytes(last.1) =~= texts_bytes(
                last.1,
            ));
            assert(entry_position(entries, name) == Some(entries.len() - 1));
            assert(values_of(entries, name) == last.1);
        } else {
            lemma_position_names(rest, name);
            assert(values_of(entries, name) == values_of(rest, name));
            assert(values_named(wire_fields(rest), name) + Seq::<Seq<u8>>::empty()
                =~= values_named(wire_fields(rest), name));
        }
    }
}

/// The fields of one entry hold under its name in lower case the bytes of
/// its values, and nothing under any other name.
proof fn lemma_entry_values(entry_name: Seq<char>, values: Seq<Seq<char>>, name: Seq<char>)
    ensures
        values_named(entry_fields(entry_name, values), name) == if lower_name(entry_name) == name {
            texts_bytes(values)
        } else {
            Seq::empty()
        },
    decreases values.len(),
{
    if values.len() == 0 {
        assert(entry_fields(entry_name, values) =~= Seq::empty());
        assert(texts_bytes(values) =~= Seq::empty());
    } else {
        assert(entry_fields(entry_name, values).drop_last() =~= entry_fields(
            entry_name,
            values.drop_last(),
        ));
        lemma_entry_values(entry_name, values.drop_last(), name);
        if lower_name(entry_name) == name {
            assert(texts_bytes(values.drop_last()).push(text_bytes(values.last()))
                =~= texts_bytes(values));
        }
    }
}

/// Every field of entries whose values are text has a value that is text.
proof fn lemma_wire_fields_text(entries: HeaderEntries)
    requires
        forall|i: int, j: int|
            0 <= i < entries.len() && 0 <= j < entries[i].1.len() ==> is_text(
                text_bytes(#[trigger] entries[i].1[j]),
            ),
    ensures
        all_text(wire_fields(entries)),
    decreases entries.len(),
{
    if entries.len() > 0 {
        let rest = entries.drop_last();
        let last = entries.last();
        assert forall|i: int, j: int| 0 <= i < rest.len() && 0 <= j < rest[i].1.len() implies is_text(
            text_bytes(#[trigger] rest[i].1[j]),
        ) by {
            assert(is_text(text_bytes(entries[i].1[j])));
        }
        lemma_wire_fields_text(rest);
        let fields = wire_fields(entries);
        assert forall|k: int| 0 <= k < fields.len() implies is_text(#[trigger] fields[k].1) by {
            if k < wire_fields(rest).len() {
                assert(fields[k] == wire_fields(rest)[k]);
            } else {
                let j = k - wire_fields(rest).len();
                assert(fields[k] == entry_fields(last.0, last.1)[j]);
                assert(is_text(text_bytes(entries[entries.len() - 1].1[j])));
            }
        }
    }
}

/// Fields that hold the same multimap as fields whose values are text have
/// values that are text.
proof fn lemma_same_multimap_text(a: Seq<Field>, b: Seq<Field>)
    requires
        same_multimap(a, b),
        all_text(b),
    ensures
        all_text(a),
{
    assert forall|i: int| 0 <= i < a.len() implies is_text(#[trigger] a[i].1) by {
        lemma_field_is_named(a, i);
        let k = choose|k: int|
            0 <= k < values_named(a, a[i].0).len() && #[trigger] values_named(a, a[i].0)[k]
                == a[i].1;
        assert(values_named(a, a[i].0) == values_named(b, a[i].0));
        lemma_values_named_are_fields(b, a[i].0, k);
        let at = choose|at: int|
            0 <= at < b.len() && #[trigger] b[at] == (a[i].0, values_named(b, a[i].0)[k]);
        assert(is_text(b[at].1));
    }
}

/// Entries whose names are header names and whose values are text have no
/// fault.
proof fn lemma_no_fault(entries: HeaderEntries)
    requires
        forall|i: int| 0 <= i < entries.len() ==> is_header_name((#[trigger] entries[i]).0),
        forall|i: int, j: int|
            0 <= i < entries.len() && 0 <= j < entries[i].1.len() ==> is_text(
                text_bytes(#[trigger] entries[i].1[j]),
            ),
    ensures
        first_fault(entries) is None,
    decreases entries.len(),
{
    if entries.len() > 0 {
        let rest = entries.drop_last();
        let at = entries.len() - 1;
        assert forall|i: int| 0 <= i < rest.len() implies is_header_name((#[trigger] rest[i]).0) by {
            assert(is_header_name(entries[i].0));
        }
        assert forall|i: int, j: int| 0 <= i < rest.len() && 0 <= j < rest[i].1.len() implies is_text(
            text_bytes(#[trigger] rest[i].1[j]),
        ) by {
            assert(is_text(text_bytes(entries[i].1[j])));
        }
        lemma_no_fault(rest);
        assert(is_header_name(entries[at].0));
        assert forall|j: int| 0 <= j < entries[at].1.len() implies is_header_value(
            text_bytes(#[trigger] entries[at].1[j]),
        ) by {
            let bytes = text_bytes(entries[at].1[j]);
            assert(is_text(bytes));
            assert forall|k: int| 0 <= k < bytes.len() implies crate::grammar::is_value_byte(
                #[trigger] bytes[k],
            ) by {
                assert(crate::grammar::is_text_byte(bytes[k]));
            }
        }
    }
}

/// The entries with every name in lower case.
pub open spec fn lowered_entries(entries: HeaderEntries) -> HeaderEntries {
    entries.map_values(|entry: (Seq<char>, Seq<Seq<char>>)| (lower_name(entry.0), entry.1))
}

/// A name in lower case stays as it is when put into lower case.
pub proof fn lemma_lower_name_twice(name: Seq<char>)
    ensures
        lower_name(lower_name(name)) == lower_name(name),
{
    assert(lower_name(lower_name(name)) =~= lower_name(name));
}

/// Entries stand for the same fields whatever the case of their names.
proof fn lemma_wire_fields_lowered(entries: HeaderEntries)
    ensures
        wire_fields(lowered_entries(entries)) == wire_fields(entries),
    decreases entries.len(),
{
    if entries.len() > 0 {
        let last = entries.last();
        assert(lowered_entries(entries).drop_last() =~= lowered_entries(entries.drop_last()));
        lemma_wire_fields_lowered(entries.drop_last());
        lemma_lower_name_twice(last.0);
        assert(entry_fields(lower_name(last.0), last.1) =~= entry_fields(last.0, last.1));
    }
}

/// Decoding and then encoding keeps the multimap, with every name in lower
/// case.
///
/// Take entries whose names are header names that differ from one another
/// even in lower case, and whose values are made of tabs and printable
/// ASCII. Such entries have no fault, so decoding does not fail on their
/// grammar. Let `fields` be what a header map decoded from them holds. Then
/// encoding succeeds, the encoded entries have distinct names, and under
/// every name they keep the values that the first entries keep under that
/// name once it is put into lower case, in the same order. Where the names
/// are in lower case to begin with, `lowered_entries(entries)` is `entries`.
pub proof fn lemma_round_trip(entries: HeaderEntries, fields: Seq<Field>, name: Seq<char>)
    requires
        distinct_names(lowered_entries(entries)),
        forall|i: int| 0 <= i < entries.len() ==> is_header_name((#[trigger] entries[i]).0),
        forall|i: int, j: int|
            0 <= i < entries.len() && 0 <= j < entries[i].1.len() ==> is_text(
                text_bytes(#[trigger] entries[i].1[j]),
            ),
        same_multimap(fields, wire_fields(entries)),
    ensures
        first_fault(entries) is None,
        all_text(fields),
        distinct_names(grouped_entries(fields)),
        values_of(grouped_entries(fields), name) == values_of(lowered_entries(entries), name),
        (forall|i: int| 0 <= i < entries.len() ==> lower_name((#[trigger] entries[i]).0)
            == entries[i].0) ==> lowered_entries(entries) == entries,
{
    let lowered = lowered_entries(entries);
    lemma_no_fault(entries);
    lemma_wire_fields_text(entries);
    lemma_same_multimap_text(fields, wire_fields(entries));
    lemma_grouped_distinct(fields);
    lemma_grouped_values(fields, name);
    lemma_wire_fields_lowered(entries);
    assert forall|i: int| 0 <= i < lowered.len() implies lower_name((#[trigger] lowered[i]).0)
        == lowered[i].0 by {
        lemma_lower_name_twice(entries[i].0);
    }
    lemma_wire_values(lowered, name);
    assert(values_named(fields, name) == values_named(wire_fields(entries), name));
    let kept = values_of(lowered, name);
    assert(values_text(texts_bytes(kept)) =~= kept) by {
        assert forall|k: int| 0 <= k < kept.len() implies bytes_text(text_bytes(#[trigger] kept[k]))
            == kept[k] by {
            vstd::utf8::encode_utf8_decode_utf8(kept[k]);
        }
    }
    if forall|i: int| 0 <= i < entries.len() ==> lower_name((#[trigger] entries[i]).0)
        == entries[i].0 {
        assert(lowered =~= entries);
    }
}

} // verus!
