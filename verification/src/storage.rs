//! The persistent structures behind the ledger: a scalar cell for the
//! identity counter and two ordered tables, all living in stable memory.
//!
//! Everything in this file is a trusted boundary. The stable structures are
//! opaque to the verifier; each handle below hides one of them, a spec
//! function names what it currently holds, and each operation states over
//! those names what the stable structure does. Records cross this boundary
//! as plain bytes, so the only encodings trusted here are the ones the stable
//! structures ship for `u64`, `Vec<u8>` and `Principal`.
//!
//! Three things are assumed of the memory underneath and stated in no
//! contract below: that it can grow when a structure needs room, that a
//! region that is reopened was last written by the same kind of structure,
//! and that the process's memory is not opened a second time while
//! structures live on it. The stable structures trap, rather than return,
//! when one of the first two fails, and corrupt one another when the third
//! does. Within one opened memory the third is secured here: a memory
//! hands out its regions once, each with a number of its own.

use candid::Principal;
use ic_stable_structures::memory_manager::{MemoryId, MemoryManager, VirtualMemory};
use ic_stable_structures::{Cell, DefaultMemoryImpl, StableBTreeMap};
use vstd::prelude::*;

verus! {

/// The longest identity, in bytes, that a bid key can carry.
pub const MAX_IDENTITY_LEN: usize = 29;

/// The longest record, in bytes, that a table stores faithfully.
pub const MAX_RECORD_LEN: usize = 0xffff_ffff;

/// A stable memory, split into independently growing regions, none of
/// which is in use.
#[verifier::external_body]
pub struct Regions {
    manager: MemoryManager<DefaultMemoryImpl>,
}

/// A stable memory while structures live on regions of it. It hands out
/// no region; all it can do is become `Regions` again.
#[verifier::external_body]
pub struct Lease {
    manager: MemoryManager<DefaultMemoryImpl>,
}

/// One region of stable memory. It is handed out once and consumed by the
/// one structure that is made on it.
#[verifier::external_body]
pub struct Region {
    memory: VirtualMemory<DefaultMemoryImpl>,
}

/// The persistent scalar that remembers the last identifier handed out.
#[verifier::external_body]
pub struct IdCounter {
    cell: Cell<u64, VirtualMemory<DefaultMemoryImpl>>,
}

/// The persistent table of encoded item records, ordered by item id.
#[verifier::external_body]
pub struct ItemTable {
    map: StableBTreeMap<u64, Vec<u8>, VirtualMemory<DefaultMemoryImpl>>,
}

/// The persistent table of encoded bid records, keyed by item id and bidder.
#[verifier::external_body]
pub struct BidTable {
    map: StableBTreeMap<(u64, Principal), Vec<u8>, VirtualMemory<DefaultMemoryImpl>>,
}

/// The value currently held by the counter cell.
pub uninterp spec fn counter_value(counter: IdCounter) -> u64;

/// The entries currently held by the item table.
pub uninterp spec fn item_entries(table: ItemTable) -> Map<u64, Seq<u8>>;

/// The entries currently held by the bid table; the bidder is named by its bytes.
pub uninterp spec fn bid_entries(table: BidTable) -> Map<(u64, Seq<u8>), Seq<u8>>;

/// What an item table holds when it holds nothing.
pub open spec fn no_items() -> Map<u64, Seq<u8>> {
    Map::empty()
}

/// What a bid table holds when it holds nothing.
pub open spec fn no_bids() -> Map<(u64, Seq<u8>), Seq<u8>> {
    Map::empty()
}

/// `listing` enumerates exactly the entries of `entries`, in ascending key order.
pub open spec fn lists_items_in_order(
    listing: Seq<(u64, Vec<u8>)>,
    entries: Map<u64, Seq<u8>>,
) -> bool {
    &&& forall|i: int, j: int|
        0 <= i < j < listing.len() ==> (#[trigger] listing[i]).0 < (#[trigger] listing[j]).0
    &&& forall|i: int|
        0 <= i < listing.len() ==> entries.contains_key((#[trigger] listing[i]).0)
            && entries[listing[i].0] == listing[i].1@
    &&& forall|id: u64| #[trigger]
        entries.contains_key(id) ==> exists|i: int|
            0 <= i < listing.len() && (#[trigger] listing[i]).0 == id
}

/// `listing` enumerates exactly the entries of `entries`: each listed entry is
/// one of them, and each of them is listed.
pub open spec fn lists_bids(
    listing: Seq<(u64, Vec<u8>, Vec<u8>)>,
    entries: Map<(u64, Seq<u8>), Seq<u8>>,
) -> bool {
    &&& forall|i: int|
        0 <= i < listing.len() ==> entries.contains_key(
            ((#[trigger] listing[i]).0, listing[i].1@),
        ) && entries[(listing[i].0, listing[i].1@)] == listing[i].2@
    &&& forall|id: u64, bidder: Seq<u8>| #[trigger]
        entries.contains_key((id, bidder)) ==> exists|i: int|
            0 <= i < listing.len() && (#[trigger] listing[i]).0 == id && listing[i].1@ == bidder
}

/// `MemoryManager::init` over the process's default stable memory. Nothing
/// is claimed of the manager: it only hands out regions.
///
/// On a canister the default memory is the one stable memory of the
/// process, and every call opens that same memory. Nothing here can stop a
/// second call: whoever calls it answers for there being no structure
/// alive on the memory at that time.
#[verifier::external_body]
pub(crate) fn open_regions() -> Regions {
    Regions { manager: MemoryManager::init(DefaultMemoryImpl::default()) }
}

/// `MemoryManager::get`, three times: the regions with the three numbers.
/// Two handles on one number are handles on the same bytes, and the stable
/// structures ask for a memory each of their own, so the numbers differ,
/// and the memory is taken in and comes back as a lease that hands out
/// nothing more. `MemoryId::new` rejects 255, which is left out. Nothing
/// is claimed of the regions.
#[verifier::external_body]
pub(crate) fn take_regions(regions: Regions, first: u8, second: u8, third: u8) -> (
    Region,
    Region,
    Region,
    Lease,
)
    requires
        first != second,
        first != third,
        second != third,
        first != 255,
        second != 255,
        third != 255,
{
    let manager = regions.manager;
    let one = Region { memory: manager.get(MemoryId::new(first)) };
    let two = Region { memory: manager.get(MemoryId::new(second)) };
    let three = Region { memory: manager.get(MemoryId::new(third)) };
    (one, two, three, Lease { manager })
}

/// The memory behind a lease as regions again: the `MemoryManager` is
/// moved from one handle to the other. Whoever calls it has let go of
/// every structure that was made on the lease's regions.
#[verifier::external_body]
pub(crate) fn return_regions(lease: Lease) -> Regions {
    Regions { manager: lease.manager }
}

/// `Cell::new`: overwrites the region with a cell holding `value`. It fails
/// only when the region cannot grow; on success the cell holds `value`.
#[verifier::external_body]
pub(crate) fn counter_create(memory: Region, value: u64) -> (made: Option<IdCounter>)
    ensures
        made is Some ==> counter_value(made->0) == value,
{
    match Cell::new(memory.memory, value) {
        Ok(cell) => Some(IdCounter { cell }),
        Err(_) => None,
    }
}

/// `Cell::init`: reopens the cell that the region holds, or starts one at
/// `fallback` when the region holds none. The value found is whatever was
/// persisted, so nothing is claimed of it.
#[verifier::external_body]
pub(crate) fn counter_load(memory: Region, fallback: u64) -> Option<IdCounter> {
    match Cell::init(memory.memory, fallback) {
        Ok(cell) => Some(IdCounter { cell }),
        Err(_) => None,
    }
}

/// `Cell::get`: the value the cell holds.
#[verifier::external_body]
pub(crate) fn counter_get(counter: &IdCounter) -> (value: u64)
    ensures
        value == counter_value(*counter),
{
    *counter.cell.get()
}

/// `Cell::set`: persists `value`, makes it the cell's value and hands back
/// the value it replaces.
///
/// `Cell::set` refuses a value only when the cell's memory has to grow for
/// it and cannot. That cannot happen to this cell: its memory has held at
/// least one page since `Cell::new` or `Cell::init` made the cell, a region
/// never shrinks, and the eight bytes of a `u64` behind the eight bytes of
/// the cell's header fit in one page. A refusal would leave the counter
/// behind the identifiers already handed out, so it is fatal.
#[verifier::external_body]
pub(crate) fn counter_set(counter: &mut IdCounter, value: u64) -> (previous: u64)
    ensures
        previous == counter_value(*old(counter)),
        counter_value(*final(counter)) == value,
{
    counter.cell.set(value).expect("a cell always has room for eight bytes")
}

/// `StableBTreeMap::new`: an empty table that overwrites the region.
#[verifier::external_body]
pub(crate) fn item_table_create(memory: Region) -> (table: ItemTable)
    ensures
        item_entries(table) == no_items(),
{
    ItemTable { map: StableBTreeMap::new(memory.memory) }
}

/// `StableBTreeMap::init`: reopens the table that the region holds, or
/// starts an empty one. Nothing is claimed of what it holds.
#[verifier::external_body]
pub(crate) fn item_table_load(memory: Region) -> ItemTable {
    ItemTable { map: StableBTreeMap::init(memory.memory) }
}

/// `StableBTreeMap::get`: the bytes stored under `id`, if any.
#[verifier::external_body]
pub(crate) fn item_table_get(table: &ItemTable, id: u64) -> (found: Option<Vec<u8>>)
    ensures
        found is Some == item_entries(*table).contains_key(id),
        found is Some ==> (found->0)@ == item_entries(*table)[id],
{
    table.map.get(&id)
}

/// `StableBTreeMap::insert`: stores `bytes` under `id`, replacing and
/// returning what was there. The table writes a record's length in 32
/// bits, so longer records are left out.
#[verifier::external_body]
pub(crate) fn item_table_insert(table: &mut ItemTable, id: u64, bytes: Vec<u8>) -> (previous:
    Option<Vec<u8>>)
    requires
        bytes@.len() <= MAX_RECORD_LEN,
    ensures
        item_entries(*final(table)) == item_entries(*old(table)).insert(id, bytes@),
        previous is Some == item_entries(*old(table)).contains_key(id),
        previous is Some ==> (previous->0)@ == item_entries(*old(table))[id],
{
    table.map.insert(id, bytes)
}

/// `StableBTreeMap::len`: the number of entries.
#[verifier::external_body]
pub(crate) fn item_table_len(table: &ItemTable) -> (count: u64)
    ensures
        count == item_entries(*table).len(),
{
    table.map.len()
}

/// `StableBTreeMap::iter`: every entry once, in ascending order of id.
#[verifier::external_body]
pub(crate) fn item_table_entries(table: &ItemTable) -> (listing: Vec<(u64, Vec<u8>)>)
    ensures
        lists_items_in_order(listing@, item_entries(*table)),
{
    table.map.iter().collect()
}

/// `StableBTreeMap::new`: an empty table that overwrites the region.
#[verifier::external_body]
pub(crate) fn bid_table_create(memory: Region) -> (table: BidTable)
    ensures
        bid_entries(table) == no_bids(),
{
    BidTable { map: StableBTreeMap::new(memory.memory) }
}

/// `StableBTreeMap::init`: reopens the table that the region holds, or
/// starts an empty one. Nothing is claimed of what it holds.
#[verifier::external_body]
pub(crate) fn bid_table_load(memory: Region) -> BidTable {
    BidTable { map: StableBTreeMap::init(memory.memory) }
}

/// `StableBTreeMap::get` under the key made of `id` and the principal with
/// the bytes `bidder`. `Principal::from_slice` rejects more than 29 bytes,
/// which are left out; two principals are equal exactly when their bytes are.
#[verifier::external_body]
pub(crate) fn bid_table_get(table: &BidTable, id: u64, bidder: &Vec<u8>) -> (found: Option<
    Vec<u8>,
>)
    requires
        bidder@.len() <= MAX_IDENTITY_LEN,
    ensures
        found is Some == bid_entries(*table).contains_key((id, bidder@)),
        found is Some ==> (found->0)@ == bid_entries(*table)[(id, bidder@)],
{
    table.map.get(&(id, Principal::from_slice(bidder)))
}

/// `StableBTreeMap::insert` under the key made of `id` and the principal
/// with the bytes `bidder`: stores `bytes`, replacing and returning what
/// that key held. Over-long identities and records are left out.
#[verifier::external_body]
pub(crate) fn bid_table_insert(
    table: &mut BidTable,
    id: u64,
    bidder: &Vec<u8>,
    bytes: Vec<u8>,
) -> (previous: Option<Vec<u8>>)
    requires
        bidder@.len() <= MAX_IDENTITY_LEN,
        bytes@.len() <= MAX_RECORD_LEN,
    ensures
        bid_entries(*final(table)) == bid_entries(*old(table)).insert((id, bidder@), bytes@),
        previous is Some == bid_entries(*old(table)).contains_key((id, bidder@)),
        previous is Some ==> (previous->0)@ == bid_entries(*old(table))[(id, bidder@)],
{
    table.map.insert((id, Principal::from_slice(bidder)), bytes)
}

/// `StableBTreeMap::iter`: every entry once, the principal of each key
/// handed out as its bytes.
#[verifier::external_body]
pub(crate) fn bid_table_entries(table: &BidTable) -> (listing: Vec<(u64, Vec<u8>, Vec<u8>)>)
    ensures
        lists_bids(listing@, bid_entries(*table)),
{
    table.map.iter().map(|((id, who), bytes)| (id, who.as_slice().to_vec(), bytes)).collect()
}

} // verus!
