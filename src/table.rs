use vstd::prelude::*;
use fnv::FnvHashMap;
use crate::message::{CollectedMessage, MessageView};

verus! {

/// The distinct messages of one run, keyed by identity, held in fnv's map.
#[verifier::external_body]
pub struct MessageTable {
    map: FnvHashMap<String, CollectedMessage>,
}

/// What a table holds: the message stored under each identity.
pub uninterp spec fn table_contents(t: MessageTable) -> Map<Seq<char>, MessageView>;

/// Relies on `FnvHashMap::default`: a map with no entries.
#[verifier::external_body]
pub(crate) fn table_new() -> (r: MessageTable)
    ensures
        table_contents(r) =~= Map::empty(),
{
    MessageTable { map: FnvHashMap::default() }
}

/// Relies on `HashMap::insert` (under fnv's hasher): the entry for `key` is
/// set to `m`, replacing any earlier one; `String` keys are equal exactly
/// when their characters are.
#[verifier::external_body]
pub(crate) fn table_insert(t: &mut MessageTable, key: String, m: CollectedMessage)
    ensures
        table_contents(*final(t)) == table_contents(*old(t)).insert(key@, m@),
{
    t.map.insert(key, m);
}

/// Relies on `HashMap::len`: the number of entries.
#[verifier::external_body]
pub(crate) fn table_len(t: &MessageTable) -> (r: usize)
    ensures
        r == table_contents(*t).len(),
{
    t.map.len()
}

/// Relies on `HashMap::into_iter`: every entry once, as a key and its value,
/// in an order the map chooses.
#[verifier::external_body]
pub(crate) fn table_into_entries(t: MessageTable) -> (r: Vec<(String, CollectedMessage)>)
    ensures
        r@.len() == table_contents(t).len(),
        forall|i: int| 0 <= i < r@.len() ==> {
            &&& table_contents(t).contains_key(#[trigger] r@[i].0@)
            &&& table_contents(t)[r@[i].0@] == r@[i].1@
        },
        forall|i: int, j: int| 0 <= i < j < r@.len() ==> r@[i].0@ != r@[j].0@,
{
    t.map.into_iter().collect()
}

} // verus!
