//! The concurrent map that holds the figures of every backend.
//!
//! The map is `dashmap::DashMap`. Its contents are named by [`entries`]; the
//! functions below state what each of its methods does to them. Methods that
//! change the map take it by `&mut`, so that between two calls nobody else does.
//! Figures are changed by taking their entry out and entering it again.

use dashmap::mapref::one::Ref;
use dashmap::DashMap;
use std::collections::hash_map::RandomState;
use std::collections::VecDeque;
use vstd::prelude::*;

verus! {

/// The figures of one backend.
#[derive(Debug)]
pub struct BackendStats {
    /// Number of the registration that these figures belong to.
    pub registration: u64,
    /// Requests in flight.
    pub active: usize,
    /// The most recent latencies, oldest first.
    pub recent_latencies_ms: VecDeque<u64>,
    /// When the most recent requests were answered, oldest first.
    pub recent_request_times: VecDeque<u128>,
}

/// What the figures of one backend are, as mathematical values.
#[verifier::ext_equal]
pub struct BackendView {
    pub registration: u64,
    pub active: usize,
    pub latencies: Seq<u64>,
    pub times: Seq<u128>,
}

impl View for BackendStats {
    type V = BackendView;

    open spec fn view(&self) -> BackendView {
        BackendView {
            registration: self.registration,
            active: self.active,
            latencies: self.recent_latencies_ms@,
            times: self.recent_request_times@,
        }
    }
}

/// The map type of the `dashmap` crate.
#[verifier::external_type_specification]
#[verifier::external_body]
#[verifier::reject_recursive_types(K)]
#[verifier::reject_recursive_types(V)]
#[verifier::reject_recursive_types(S)]
pub struct ExDashMap<K, V, S>(dashmap::DashMap<K, V, S>);

/// The reference to an entry that `DashMap::get` hands out.
#[verifier::external_type_specification]
#[verifier::external_body]
#[verifier::reject_recursive_types(K)]
#[verifier::reject_recursive_types(V)]
pub struct ExRef<'a, K, V>(dashmap::mapref::one::Ref<'a, K, V>);

/// What a map holds: the figures under each container id.
pub uninterp spec fn entries(map: DashMap<String, BackendStats, RandomState>) -> Map<
    Seq<char>,
    BackendStats,
>;

/// The figures that a reference into a map points at.
pub uninterp spec fn pointee(reference: Ref<'_, String, BackendStats>) -> BackendStats;

/// `DashMap::new`: the new map holds nothing.
#[verifier::external_body]
pub(crate) fn new_map() -> (map: DashMap<String, BackendStats, RandomState>)
    ensures
        entries(map).dom() == Set::<Seq<char>>::empty(),
{
    DashMap::new()
}

/// `DashMap::get`: finds the entry of an id if there is one.
#[verifier::external_body]
pub(crate) fn get<'a>(map: &'a DashMap<String, BackendStats, RandomState>, id: &str) -> (found:
    Option<Ref<'a, String, BackendStats>>)
    ensures
        found is Some <==> entries(*map).contains_key(id@),
        found matches Some(reference) ==> pointee(reference) == entries(*map)[id@],
{
    map.get(id)
}

/// `Ref::value`: the figures that the reference points at.
#[verifier::external_body]
pub(crate) fn value<'a>(reference: &'a Ref<'_, String, BackendStats>) -> (stats: &'a BackendStats)
    ensures
        *stats == pointee(*reference),
{
    reference.value()
}

/// `DashMap::entry` with `Entry::or_insert_with`: enters the figures under an id
/// unless the id has an entry already.
#[verifier::external_body]
pub(crate) fn insert_if_vacant(
    map: &mut DashMap<String, BackendStats, RandomState>,
    id: String,
    stats: BackendStats,
)
    ensures
        entries(*final(map)) == if entries(*old(map)).contains_key(id@) {
            entries(*old(map))
        } else {
            entries(*old(map)).insert(id@, stats)
        },
{
    map.entry(id).or_insert_with(|| stats);
}

/// `DashMap::remove`: takes out the entry of an id, if there is one, and hands
/// over its id and its figures.
#[verifier::external_body]
pub(crate) fn remove(map: &mut DashMap<String, BackendStats, RandomState>, id: &str) -> (removed:
    Option<(String, BackendStats)>)
    ensures
        entries(*final(map)) == entries(*old(map)).remove(id@),
        removed is Some <==> entries(*old(map)).contains_key(id@),
        removed matches Some((key, stats)) ==> key@ == id@ && stats == entries(*old(map))[id@],
{
    map.remove(id)
}

/// `DashMap::iter`: visits every entry once, in no particular order; here each
/// entry is given by its id.
#[verifier::external_body]
pub(crate) fn ids(map: &DashMap<String, BackendStats, RandomState>) -> (ids: Vec<String>)
    ensures
        forall|i: int| 0 <= i < ids@.len() ==> entries(*map).contains_key(#[trigger] ids@[i]@),
        forall|id: Seq<char>| #[trigger]
            entries(*map).contains_key(id) ==> exists|i: int|
                0 <= i < ids@.len() && #[trigger] ids@[i]@ == id,
        forall|i: int, j: int|
            0 <= i < j < ids@.len() ==> #[trigger] ids@[i]@ != #[trigger] ids@[j]@,
{
    map.iter().map(|entry| entry.key().clone()).collect()
}

} // verus!
