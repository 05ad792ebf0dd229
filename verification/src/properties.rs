//! Sequences of properties in which no name occurs twice, and the mapping
//! from names to values that such a sequence stands for.

use crate::identifiers::same_text;
use crate::search::{first_true, is_first_true, lemma_first_true};
use crate::value::{FlatTomlProperty, FlatValueView, PropertyView};
use vstd::prelude::*;

verus! {

/// The models of a sequence of properties, in order.
pub open spec fn property_views(props: Seq<FlatTomlProperty>) -> Seq<PropertyView> {
    Seq::new(props.len(), |i: int| props[i]@)
}

/// No two properties of the sequence have the same name.
pub open spec fn distinct_names(props: Seq<PropertyView>) -> bool {
    forall|i: int, j: int| 0 <= i < j < props.len() ==> props[i].name != props[j].name
}

/// Every property of the sequence has a name.
pub open spec fn named_properties(props: Seq<PropertyView>) -> bool {
    forall|i: int| 0 <= i < props.len() ==> (#[trigger] props[i]).name.len() > 0
}

/// The mapping from names to values that a sequence of properties stands
/// for. It is meant for sequences in which no name occurs twice.
pub open spec fn property_map(props: Seq<PropertyView>) -> Map<Seq<char>, FlatValueView> {
    Map::new(
        |n: Seq<char>| exists|i: int| 0 <= i < props.len() && (#[trigger] props[i]).name == n,
        |n: Seq<char>|
            props[choose|i: int| 0 <= i < props.len() && (#[trigger] props[i]).name == n].value,
    )
}

/// Where no name occurs twice, each property is found in the mapping under
/// its name.
pub proof fn lemma_property_map_index(props: Seq<PropertyView>, i: int)
    requires
        distinct_names(props),
        0 <= i < props.len(),
    ensures
        property_map(props).dom().contains(props[i].name),
        property_map(props)[props[i].name] == props[i].value,
{
    let n = props[i].name;
    let c = choose|c: int| 0 <= c < props.len() && (#[trigger] props[c]).name == n;
    if c < i {
        assert(props[c].name != props[i].name);
    } else if i < c {
        assert(props[i].name != props[c].name);
    }
}

/// A property with a new name, added at the end, adds its entry to the
/// mapping.
pub proof fn lemma_property_map_push(props: Seq<PropertyView>, p: PropertyView)
    requires
        distinct_names(props),
        forall|i: int| 0 <= i < props.len() ==> (#[trigger] props[i]).name != p.name,
    ensures
        distinct_names(props.push(p)),
        property_map(props.push(p)) == property_map(props).insert(p.name, p.value),
{
    let after = props.push(p);
    let expected = property_map(props).insert(p.name, p.value);
    assert(after[props.len() as int] == p);
    assert forall|n: Seq<char>| property_map(after).dom().contains(n) implies expected.dom().contains(
        n,
    ) && property_map(after)[n] == expected[n] by {
        let c = choose|c: int| 0 <= c < after.len() && (#[trigger] after[c]).name == n;
        lemma_property_map_index(after, c);
        if c < props.len() {
            assert(props[c] == after[c]);
            lemma_property_map_index(props, c);
        }
    }
    assert forall|n: Seq<char>| expected.dom().contains(n) implies property_map(after).dom().contains(
        n,
    ) by {
        if n != p.name {
            let c = choose|c: int| 0 <= c < props.len() && (#[trigger] props[c]).name == n;
            assert(after[c] == props[c]);
        }
    }
    assert(property_map(after) =~= expected);
}

/// A property put in the place of one with the same name replaces that
/// entry of the mapping.
pub proof fn lemma_property_map_update(props: Seq<PropertyView>, i: int, p: PropertyView)
    requires
        distinct_names(props),
        0 <= i < props.len(),
        props[i].name == p.name,
    ensures
        distinct_names(props.update(i, p)),
        property_map(props.update(i, p)) == property_map(props).insert(p.name, p.value),
{
    let after = props.update(i, p);
    let expected = property_map(props).insert(p.name, p.value);
    assert forall|a: int, b: int| 0 <= a < b < after.len() implies after[a].name != after[b].name by {
        assert(after[a].name == props[a].name);
        assert(after[b].name == props[b].name);
    }
    assert forall|n: Seq<char>| property_map(after).dom().contains(n) implies expected.dom().contains(
        n,
    ) && property_map(after)[n] == expected[n] by {
        let c = choose|c: int| 0 <= c < after.len() && (#[trigger] after[c]).name == n;
        lemma_property_map_index(after, c);
        if c != i {
            assert(props[c] == after[c]);
            lemma_property_map_index(props, c);
        }
    }
    assert forall|n: Seq<char>| expected.dom().contains(n) implies property_map(after).dom().contains(
        n,
    ) by {
        if n != p.name {
            let c = choose|c: int| 0 <= c < props.len() && (#[trigger] props[c]).name == n;
            assert(after[c].name == props[c].name);
        } else {
            assert(after[i].name == n);
        }
    }
    assert(property_map(after) =~= expected);
}

/// For each property of a sequence, whether it has the name.
pub open spec fn has_name(props: Seq<PropertyView>, name: Seq<char>) -> Seq<bool> {
    Seq::new(props.len(), |i: int| props[i].name == name)
}

/// A sequence of properties after a name is given its value: the first
/// property that has the name is replaced where it stands, and a new name is
/// added at the end.
pub open spec fn with_property(props: Seq<PropertyView>, p: PropertyView) -> Seq<PropertyView> {
    match first_true(has_name(props, p.name)) {
        Some(i) => props.update(i, p),
        None => props.push(p),
    }
}

/// A sequence of properties after others are laid over it: each property of
/// the second sequence, in order, gives its name its value.
pub open spec fn overlaid(props: Seq<PropertyView>, over: Seq<PropertyView>) -> Seq<PropertyView>
    decreases over.len(),
{
    if over.len() == 0 {
        props
    } else {
        with_property(overlaid(props, over.drop_last()), over.last())
    }
}

/// Giving a name its value keeps the names apart and changes the mapping at
/// that name alone.
pub proof fn lemma_with_property(props: Seq<PropertyView>, p: PropertyView)
    requires
        distinct_names(props),
    ensures
        distinct_names(with_property(props, p)),
        property_map(with_property(props, p)) == property_map(props).insert(p.name, p.value),
        named_properties(props) && p.name.len() > 0 ==> named_properties(with_property(props, p)),
{
    let flags = has_name(props, p.name);
    lemma_first_true(flags);
    match first_true(flags) {
        Some(i) => {
            assert(is_first_true(flags, i));
            lemma_property_map_update(props, i, p);
        },
        None => {
            assert forall|i: int| 0 <= i < props.len() implies (#[trigger] props[i]).name
                != p.name by {
                assert(!flags[i]);
            }
            lemma_property_map_push(props, p);
        },
    }
}

/// Laying properties over others keeps the names apart, and in the mapping
/// the properties laid over win: a name has the value that they give it, and
/// else the value it had.
pub proof fn lemma_overlaid(props: Seq<PropertyView>, over: Seq<PropertyView>)
    requires
        distinct_names(props),
        distinct_names(over),
    ensures
        distinct_names(overlaid(props, over)),
        property_map(overlaid(props, over)) == property_map(props).union_prefer_right(
            property_map(over),
        ),
        named_properties(props) && named_properties(over) ==> named_properties(
            overlaid(props, over),
        ),
    decreases over.len(),
{
    if over.len() == 0 {
        assert(property_map(over) =~= Map::empty());
        assert(property_map(props).union_prefer_right(Map::empty()) =~= property_map(props));
    } else {
        let rest = over.drop_last();
        let p = over.last();
        assert forall|i: int, j: int| 0 <= i < j < rest.len() implies rest[i].name
            != rest[j].name by {
            assert(rest[i] == over[i] && rest[j] == over[j]);
        }
        assert forall|i: int| 0 <= i < rest.len() implies (#[trigger] rest[i]).name != p.name by {
            assert(rest[i] == over[i]);
        }
        assert(named_properties(over) ==> named_properties(rest)) by {
            if named_properties(over) {
                assert forall|i: int| 0 <= i < rest.len() implies (#[trigger] rest[i]).name.len()
                    > 0 by {
                    assert(rest[i] == over[i]);
                }
            }
        }
        lemma_overlaid(props, rest);
        lemma_with_property(overlaid(props, rest), p);
        lemma_property_map_push(rest, p);
        assert(rest.push(p) =~= over);
        assert(property_map(props).union_prefer_right(property_map(rest)).insert(p.name, p.value)
            =~= property_map(props).union_prefer_right(
            property_map(rest).insert(p.name, p.value),
        ));
    }
}

/// The place of a name among properties: the index of the first property
/// that has it.
pub fn find_property(props: &Vec<FlatTomlProperty>, name: &str) -> (r: Option<usize>)
    ensures
        match r {
            Some(i) => first_true(has_name(property_views(props@), name@)) == Some(i as int),
            None => first_true(has_name(property_views(props@), name@)).is_none(),
        },
        match r {
            Some(i) => i < props.len() && props[i as int].name@ == name@,
            None => forall|j: int| 0 <= j < props.len() ==> (#[trigger] props[j]).name@ != name@,
        },
{
    let ghost flags = has_name(property_views(props@), name@);
    let mut i: usize = 0;
    while i < props.len()
        invariant
            i <= props.len(),
            flags == has_name(property_views(props@), name@),
            forall|j: int| 0 <= j < i ==> !flags[j],
        decreases props.len() - i,
    {
        if same_text(props[i].name.as_str(), name) {
            proof {
                assert(is_first_true(flags, i as int));
                lemma_first_true(flags);
            }
            return Some(i);
        }
        i += 1;
    }
    proof {
        lemma_first_true(flags);
        assert forall|j: int| 0 <= j < props.len() implies (#[trigger] props[j]).name@ != name@ by {
            assert(!flags[j]);
        }
    }
    None
}

/// Gives a name its value among properties: the first property that has the
/// name is replaced where it stands, and a new name is added at the end.
pub fn set_property(props: &mut Vec<FlatTomlProperty>, p: FlatTomlProperty)
    ensures
        property_views(final(props)@) == with_property(property_views(old(props)@), p@),
{
    let ghost before = property_views(props@);
    match find_property(props, p.name.as_str()) {
        Some(i) => {
            props.set(i, p);
            assert(property_views(props@) =~= before.update(i as int, p@));
        },
        None => {
            props.push(p);
            assert(property_views(props@) =~= before.push(p@));
        },
    }
}

/// Lays properties over those gathered so far: each property of the second
/// sequence, in order, gives its name its value.
pub fn overlay_properties(props: &mut Vec<FlatTomlProperty>, over: &Vec<FlatTomlProperty>)
    ensures
        property_views(final(props)@) == overlaid(
            property_views(old(props)@),
            property_views(over@),
        ),
{
    let ghost base = property_views(props@);
    let ghost given = property_views(over@);
    let mut k: usize = 0;
    while k < over.len()
        invariant
            given == property_views(over@),
            k <= over.len(),
            property_views(props@) == overlaid(base, given.take(k as int)),
        decreases over.len() - k,
    {
        let p = over[k].clone();
        proof {
            assert(given.take(k as int + 1).drop_last() =~= given.take(k as int));
            assert(given.take(k as int + 1).last() == p@);
        }
        set_property(props, p);
        k += 1;
    }
    assert(given.take(k as int) =~= given);
}

} // verus!
