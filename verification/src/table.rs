//! The two maps of a range table, kept in the insertion-ordered hash map of
//! the `indexmap` crate.
//!
//! Nothing in this file is proved. Each function makes one call into
//! `indexmap`, and its contract restates what that method is documented to
//! do, over the entries that the map holds.

use crate::range::Segment;
use indexmap::IndexMap;
use vstd::prelude::*;

verus! {

#[verifier::external_type_specification]
#[verifier::external_body]
#[verifier::reject_recursive_types(K)]
#[verifier::reject_recursive_types(V)]
#[verifier::reject_recursive_types(S)]
pub struct ExIndexMap<K, V, S>(IndexMap<K, V, S>);

/// The segments that a map of agency prefixes holds, each under its prefix.
pub uninterp spec fn agency_entries(map: IndexMap<u16, Segment>) -> Map<u16, Segment>;

/// The segments that a map of registration groups holds, each under its
/// prefix and group element.
pub uninterp spec fn group_entries(map: IndexMap<(u16, u32), Segment>) -> Map<
    (u16, u32),
    Segment,
>;

/// `IndexMap::new`: a map that holds nothing.
#[verifier::external_body]
pub(crate) fn agency_map() -> (fresh: IndexMap<u16, Segment>)
    ensures
        agency_entries(fresh).dom() == Set::<u16>::empty(),
{
    IndexMap::new()
}

/// `IndexMap::insert`: puts the segment under the key, in place of the one
/// that was there, and hands that one back.
#[verifier::external_body]
pub(crate) fn agency_insert(
    map: &mut IndexMap<u16, Segment>,
    key: u16,
    segment: Segment,
) -> (previous: Option<Segment>)
    ensures
        agency_entries(*final(map)) == agency_entries(*old(map)).insert(key, segment),
        previous == if agency_entries(*old(map)).contains_key(key) {
            Some(agency_entries(*old(map))[key])
        } else {
            None
        },
{
    map.insert(key, segment)
}

/// `IndexMap::get`: the segment under the key, if there is one.
#[verifier::external_body]
pub(crate) fn agency_get(map: &IndexMap<u16, Segment>, key: u16) -> (found: Option<&Segment>)
    ensures
        found == if agency_entries(*map).contains_key(key) {
            Some(&agency_entries(*map)[key])
        } else {
            None
        },
{
    map.get(&key)
}

/// `IndexMap::new`: a map that holds nothing.
#[verifier::external_body]
pub(crate) fn group_map() -> (fresh: IndexMap<(u16, u32), Segment>)
    ensures
        group_entries(fresh).dom() == Set::<(u16, u32)>::empty(),
{
    IndexMap::new()
}

/// `IndexMap::insert`: puts the segment under the key, in place of the one
/// that was there, and hands that one back.
#[verifier::external_body]
pub(crate) fn group_insert(
    map: &mut IndexMap<(u16, u32), Segment>,
    key: (u16, u32),
    segment: Segment,
) -> (previous: Option<Segment>)
    ensures
        group_entries(*final(map)) == group_entries(*old(map)).insert(key, segment),
        previous == if group_entries(*old(map)).contains_key(key) {
            Some(group_entries(*old(map))[key])
        } else {
            None
        },
{
    map.insert(key, segment)
}

/// `IndexMap::get`: the segment under the key, if there is one.
#[verifier::external_body]
pub(crate) fn group_get(map: &IndexMap<(u16, u32), Segment>, key: (u16, u32)) -> (found: Option<
    &Segment,
>)
    ensures
        found == if group_entries(*map).contains_key(key) {
            Some(&group_entries(*map)[key])
        } else {
            None
        },
{
    map.get(&key)
}

} // verus!
