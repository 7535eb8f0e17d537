//! Header fields as a multimap: a sequence of fields, read name by name.

use vstd::prelude::*;

verus! {

/// One header field: a name in lower case and the bytes of one value.
pub type Field = (Seq<char>, Seq<u8>);

/// The values that `fields` holds under `name`, in the order in which they
/// occur.
pub open spec fn values_named(fields: Seq<Field>, name: Seq<char>) -> Seq<Seq<u8>>
    decreases fields.len(),
{
    if fields.len() == 0 {
        Seq::empty()
    } else {
        let before = values_named(fields.drop_last(), name);
        if fields.last().0 == name {
            before.push(fields.last().1)
        } else {
            before
        }
    }
}

/// Two sequences of fields hold the same multimap: under every name the same
/// values in the same order. The order among different names is left open.
pub open spec fn same_multimap(a: Seq<Field>, b: Seq<Field>) -> bool {
    forall|name: Seq<char>| #[trigger] values_named(a, name) == values_named(b, name)
}

/// The names of the fields, field by field.
pub open spec fn field_names(fields: Seq<Field>) -> Seq<Seq<char>> {
    fields.map_values(|field: Field| field.0)
}

/// The names under which the fields hold a value.
pub open spec fn names(fields: Seq<Field>) -> Set<Seq<char>> {
    field_names(fields).to_set()
}

/// How many names the fields hold a value under.
pub open spec fn names_held(fields: Seq<Field>) -> nat {
    names(fields).len()
}

/// `after` holds what `before` holds and, behind the values under `name`,
/// the values `added`: no other name has changed.
pub open spec fn extended(
    before: Seq<Field>,
    after: Seq<Field>,
    name: Seq<char>,
    added: Seq<Seq<u8>>,
) -> bool {
    forall|other: Seq<char>| #[trigger]
        values_named(after, other) == if other == name {
            values_named(before, other) + added
        } else {
            values_named(before, other)
        }
}

/// Fields to which nothing is added stay what they are.
pub proof fn lemma_extended_by_nothing(fields: Seq<Field>, name: Seq<char>)
    ensures
        extended(fields, fields, name, Seq::empty()),
{
    assert(values_named(fields, name) + Seq::<Seq<u8>>::empty() =~= values_named(fields, name));
}

/// Adding values under a name and then more values under it adds them all,
/// in this order.
pub proof fn lemma_extended_twice(
    a: Seq<Field>,
    b: Seq<Field>,
    c: Seq<Field>,
    name: Seq<char>,
    first: Seq<Seq<u8>>,
    then: Seq<Seq<u8>>,
)
    requires
        extended(a, b, name, first),
        extended(b, c, name, then),
    ensures
        extended(a, c, name, first + then),
{
    assert forall|other: Seq<char>| #[trigger]
        values_named(c, other) == if other == name {
            values_named(a, other) + (first + then)
        } else {
            values_named(a, other)
        } by {
        assert(values_named(b, other) == if other == name {
            values_named(a, other) + first
        } else {
            values_named(a, other)
        });
        assert(values_named(a, name) + (first + then) =~= (values_named(a, name) + first) + then);
    }
}

/// The values under a name in two runs of fields, one after the other, are
/// the values in the first run followed by those in the second.
pub proof fn lemma_values_named_concat(a: Seq<Field>, b: Seq<Field>, name: Seq<char>)
    ensures
        values_named(a + b, name) == values_named(a, name) + values_named(b, name),
    decreases b.len(),
{
    if b.len() == 0 {
        assert(a + b =~= a);
        assert(values_named(a, name) + values_named(b, name) =~= values_named(a, name));
    } else {
        assert((a + b).drop_last() =~= a + b.drop_last());
        assert((a + b).last() == b.last());
        lemma_values_named_concat(a, b.drop_last(), name);
        if b.last().0 == name {
            assert(values_named(a + b, name) =~= values_named(a, name) + values_named(b, name));
        }
    }
}

/// Every value found under a name is the value of a field.
pub proof fn lemma_values_named_are_fields(fields: Seq<Field>, name: Seq<char>, k: int)
    requires
        0 <= k < values_named(fields, name).len(),
    ensures
        exists|i: int|
            0 <= i < fields.len() && #[trigger] fields[i] == (name, values_named(fields, name)[k]),
    decreases fields.len(),
{
    if fields.len() > 0 {
        let before = values_named(fields.drop_last(), name);
        if k < before.len() {
            lemma_values_named_are_fields(fields.drop_last(), name, k);
            let i = choose|i: int|
                0 <= i < fields.drop_last().len() && #[trigger] fields.drop_last()[i] == (
                    name,
                    before[k],
                );
            assert(fields[i] == (name, values_named(fields, name)[k]));
        } else {
            assert(fields[fields.len() - 1] == (name, values_named(fields, name)[k]));
        }
    }
}

/// Every field is found under its name.
pub proof fn lemma_field_is_named(fields: Seq<Field>, i: int)
    requires
        0 <= i < fields.len(),
    ensures
        exists|k: int|
            0 <= k < values_named(fields, fields[i].0).len() && #[trigger] values_named(
                fields,
                fields[i].0,
            )[k] == fields[i].1,
    decreases fields.len(),
{
    let name = fields[i].0;
    let before = values_named(fields.drop_last(), name);
    if i == fields.len() - 1 {
        assert(values_named(fields, name)[before.len() as int] == fields[i].1);
    } else {
        lemma_field_is_named(fields.drop_last(), i);
        let k = choose|k: int|
            0 <= k < before.len() && #[trigger] values_named(fields.drop_last(), name)[k]
                == fields.drop_last()[i].1;
        assert(values_named(fields, name)[k] == fields[i].1);
    }
}

/// A name is among the names of the fields exactly if the fields hold a
/// value under it; and the names are finitely many.
pub proof fn lemma_names(fields: Seq<Field>, name: Seq<char>)
    ensures
        names(fields).contains(name) <==> values_named(fields, name).len() > 0,
        names(fields).finite(),
{
    vstd::seq_lib::seq_to_set_is_finite(field_names(fields));
    if names(fields).contains(name) {
        let i = choose|i: int|
            0 <= i < field_names(fields).len() && field_names(fields)[i] == name;
        lemma_field_is_named(fields, i);
    }
    if values_named(fields, name).len() > 0 {
        lemma_values_named_are_fields(fields, name, 0);
        let i = choose|i: int|
            0 <= i < fields.len() && #[trigger] fields[i] == (name, values_named(fields, name)[0]);
        assert(field_names(fields)[i] == name);
    }
}

/// Fields hold no more names than there are fields.
pub proof fn lemma_names_held_bound(fields: Seq<Field>)
    ensures
        names_held(fields) <= fields.len(),
{
    field_names(fields).lemma_cardinality_of_set();
}

/// Fields that hold a value under every name under which other fields hold
/// one, and perhaps under one name more, hold at most that many names.
pub proof fn lemma_names_within(a: Seq<Field>, b: Seq<Field>, more: Set<Seq<char>>)
    requires
        more.finite(),
        forall|name: Seq<char>| #[trigger]
            values_named(a, name).len() > 0 ==> values_named(b, name).len() > 0 || more.contains(
                name,
            ),
    ensures
        names(a).subset_of(names(b).union(more)),
        names_held(a) <= names(b).union(more).len(),
{
    assert forall|name: Seq<char>| names(a).contains(name) implies names(b).union(more).contains(
        name,
    ) by {
        lemma_names(a, name);
        lemma_names(b, name);
        assert(values_named(a, name).len() > 0);
    }
    lemma_names(b, Seq::empty());
    vstd::set_lib::lemma_len_subset(names(a), names(b).union(more));
}

} // verus!
