//! The auction service: the one writer of the counter, the item table and
//! the bid table. Every operation takes the caller and the time as
//! arguments, checks what the rules ask, and writes only once all checks
//! have passed.

use crate::codec::{
    decode_bid,
    decode_bid_bytes,
    decode_item,
    decode_item_bytes,
    encode_bid_bytes,
    encode_item_bytes,
    lemma_bid_round_trip,
    lemma_decoded_item_valid,
    lemma_item_round_trip,
};
use crate::identity::Identity;
use crate::ledger::{
    lemma_minted_valid,
    lemma_place_bid_valid,
    lemma_stop_listing_valid,
    lemma_update_listing_valid,
    Action,
    Ledger,
};
use crate::records::{text_fits, Bid, BidView, Error, Item, ItemView};
use crate::storage::{
    bid_entries,
    bid_table_create,
    bid_table_entries,
    bid_table_get,
    bid_table_insert,
    bid_table_load,
    counter_create,
    counter_get,
    counter_load,
    counter_set,
    counter_value,
    item_entries,
    item_table_create,
    item_table_entries,
    item_table_get,
    item_table_insert,
    item_table_len,
    item_table_load,
    lists_bids,
    lists_items_in_order,
    open_regions,
    return_regions,
    take_regions,
    BidTable,
    IdCounter,
    ItemTable,
    Lease,
    Regions,
};
use crate::text::{
    bid_too_low_message,
    bid_too_low_text,
    not_found_message,
    not_found_text,
    stop_refused_message,
    stop_refused_text,
    update_refused_message,
    update_refused_text,
};
use vstd::pervasive::unreached;
use vstd::prelude::*;
use vstd::seq_lib::seq_to_set_is_finite;
use vstd::slice::slice_to_vec;

verus! {

/// The region of stable memory that holds the identity counter.
pub const COUNTER_REGION: u8 = 0;

/// The region of stable memory that holds the item table.
pub const ITEM_REGION: u8 = 1;

/// The region of stable memory that holds the bid table.
pub const BID_REGION: u8 = 2;

/// The listings that a table of stored items holds.
pub open spec fn stored_items(entries: Map<u64, Seq<u8>>) -> Map<u64, ItemView> {
    Map::new(|id: u64| entries.contains_key(id), |id: u64| decode_item(entries[id])->0)
}

/// The bids that a table of stored bids holds.
pub open spec fn stored_bids(entries: Map<(u64, Seq<u8>), Seq<u8>>) -> Map<
    (u64, Seq<u8>),
    BidView,
> {
    Map::new(
        |key: (u64, Seq<u8>)| entries.contains_key(key),
        |key: (u64, Seq<u8>)| decode_bid(entries[key])->0,
    )
}

/// Whether every stored item decodes.
pub open spec fn items_decode(entries: Map<u64, Seq<u8>>) -> bool {
    forall|id: u64| #[trigger] entries.contains_key(id) ==> decode_item(entries[id]) is Some
}

/// Whether every stored bid decodes.
pub open spec fn bids_decode(entries: Map<(u64, Seq<u8>), Seq<u8>>) -> bool {
    forall|key: (u64, Seq<u8>)| #[trigger]
        entries.contains_key(key) ==> decode_bid(entries[key]) is Some
}

/// `listing` holds exactly the listings of `items`, in ascending order of id.
pub open spec fn lists_all(listing: Seq<Item>, items: Map<u64, ItemView>) -> bool {
    &&& forall|i: int, j: int|
        0 <= i < j < listing.len() ==> (#[trigger] listing[i]).id < (#[trigger] listing[j]).id
    &&& forall|i: int|
        0 <= i < listing.len() ==> items.contains_key((#[trigger] listing[i]).id)
            && items[listing[i].id] == listing[i]@
    &&& forall|id: u64| #[trigger]
        items.contains_key(id) ==> exists|i: int|
            0 <= i < listing.len() && (#[trigger] listing[i]).id == id
}

impl Regions {
    /// The stable memory of the process. On a canister that is the one
    /// stable memory it has; elsewhere every call gives a blank memory of
    /// its own.
    ///
    /// On a canister every call opens the same memory, and structures made
    /// on two openings of it corrupt one another. Open it once per
    /// process, or again only after every service over it has been closed.
    pub fn open() -> Regions {
        open_regions()
    }
}

/// The auction ledger over its three persistent structures. It holds the
/// memory they live on, and gives it back when it is closed.
pub struct AuctionService {
    counter: IdCounter,
    items: ItemTable,
    bids: BidTable,
    lease: Lease,
}

impl View for AuctionService {
    type V = Ledger;

    closed spec fn view(&self) -> Ledger {
        Ledger {
            last_id: counter_value(self.counter),
            items: stored_items(item_entries(self.items)),
            bids: stored_bids(bid_entries(self.bids)),
        }
    }
}

impl AuctionService {
    /// Whether the service is well formed: every stored record decodes,
    /// and the ledger they make up is in order.
    pub closed spec fn wf(&self) -> bool {
        &&& items_decode(item_entries(self.items))
        &&& bids_decode(bid_entries(self.bids))
        &&& self@.valid()
    }

    /// A well-formed service holds a ledger that is in order.
    pub proof fn lemma_wf_valid(&self)
        requires
            self.wf(),
        ensures
            self@.valid(),
    {
    }

    /// Starts a ledger with nothing listed in the process's stable memory,
    /// overwriting what it held. Nothing comes back when the counter
    /// cannot be placed.
    ///
    /// This opens the process's stable memory, which on a canister is the
    /// same memory at every call: no other service may be alive over it.
    pub fn new() -> (made: Option<AuctionService>)
        ensures
            made is Some ==> (made->0).wf() && (made->0)@ == Ledger::empty(),
    {
        AuctionService::new_in(Regions::open())
    }

    /// Starts a ledger with nothing listed in `regions`, overwriting what
    /// its first three regions held. Nothing comes back when the counter
    /// cannot be placed.
    ///
    /// The service takes the regions for itself; `close` gives them back.
    pub fn new_in(regions: Regions) -> (made: Option<AuctionService>)
        ensures
            made is Some ==> (made->0).wf() && (made->0)@ == Ledger::empty(),
    {
        let (first, second, third, lease) = take_regions(
            regions,
            COUNTER_REGION,
            ITEM_REGION,
            BID_REGION,
        );
        match counter_create(first, 0) {
            Some(counter) => Some(
                AuctionService::started(
                    counter,
                    item_table_create(second),
                    bid_table_create(third),
                    lease,
                ),
            ),
            None => None,
        }
    }

    /// Whether the item stored under `id` is in order: it decodes, what
    /// it decodes to is in order within the ledger, and the bid it points
    /// to decodes.
    spec fn item_entry_ok(&self, id: u64) -> bool {
        let item = decode_item(item_entries(self.items)[id]);
        &&& item is Some
        &&& self@.item_in_order(id)
        &&& item->0.highest_bidder is Some ==> decode_bid(
            bid_entries(self.bids)[(id, item->0.highest_bidder->0)],
        ) is Some
    }

    /// Whether the bid stored for `bidder` on `id` is in order: it
    /// decodes, what it decodes to is in order within the ledger, and the
    /// item it points to decodes.
    spec fn bid_entry_ok(&self, id: u64, bidder: Seq<u8>) -> bool {
        &&& decode_bid(bid_entries(self.bids)[(id, bidder)]) is Some
        &&& self@.bid_in_order(id, bidder)
        &&& decode_item(item_entries(self.items)[id]) is Some
    }

    /// Whether every stored entry is in order.
    spec fn entries_ok(&self) -> bool {
        &&& forall|id: u64| #[trigger]
            item_entries(self.items).contains_key(id) ==> self.item_entry_ok(id)
        &&& forall|id: u64, bidder: Seq<u8>| #[trigger]
            bid_entries(self.bids).contains_key((id, bidder)) ==> self.bid_entry_ok(id, bidder)
    }

    /// A service is well formed exactly when every stored entry is in order.
    proof fn lemma_wf_by_entries(&self)
        ensures
            self.wf() == self.entries_ok(),
    {
        if self.wf() {
            assert forall|id: u64| #[trigger]
                item_entries(self.items).contains_key(id) implies self.item_entry_ok(id) by {
                assert(self@.items.contains_key(id));
                assert(self@.item_in_order(id));
                let item = self@.items[id];
                if let Some(who) = item.highest_bidder {
                    assert(self@.bids.contains_key((id, who)));
                    assert(bid_entries(self.bids).contains_key((id, who)));
                }
            }
            assert forall|id: u64, bidder: Seq<u8>| #[trigger]
                bid_entries(self.bids).contains_key((id, bidder)) implies self.bid_entry_ok(
                id,
                bidder,
            ) by {
                assert(self@.bids.contains_key((id, bidder)));
                assert(self@.bid_in_order(id, bidder));
                assert(item_entries(self.items).contains_key(id));
            }
        }
        if self.entries_ok() {
            assert forall|id: u64| #[trigger] self@.items.contains_key(id) implies self@.item_in_order(
                id,
            ) by {
                assert(item_entries(self.items).contains_key(id));
                assert(self.item_entry_ok(id));
            }
            assert forall|id: u64, bidder: Seq<u8>| #[trigger]
                self@.bids.contains_key((id, bidder)) implies self@.bid_in_order(id, bidder) by {
                assert(bid_entries(self.bids).contains_key((id, bidder)));
                assert(self.bid_entry_ok(id, bidder));
            }
            assert forall|id: u64| #[trigger]
                item_entries(self.items).contains_key(id) implies decode_item(
                item_entries(self.items)[id],
            ) is Some by {
                assert(self.item_entry_ok(id));
            }
            assert forall|key: (u64, Seq<u8>)| #[trigger]
                bid_entries(self.bids).contains_key(key) implies decode_bid(
                bid_entries(self.bids)[key],
            ) is Some by {
                assert(bid_entries(self.bids).contains_key((key.0, key.1)));
                assert(self.bid_entry_ok(key.0, key.1));
            }
        }
    }

    /// Checks the item stored under `id`, whose stored bytes are `bytes`.
    fn check_item(&self, last: u64, id: u64, bytes: &Vec<u8>) -> (ok: bool)
        requires
            last == counter_value(self.counter),
            item_entries(self.items).contains_key(id),
            item_entries(self.items)[id] == bytes@,
        ensures
            ok == self.item_entry_ok(id),
    {
        let item = match decode_item_bytes(bytes.as_slice()) {
            Some(item) => item,
            None => { return false; },
        };
        proof {
            lemma_decoded_item_valid(bytes@);
            assert(self@.items.contains_key(id));
        }
        if item.id != id || id == 0 || id > last {
            return false;
        }
        match &item.highest_bidder {
            None => true,
            Some(who) => match bid_table_get(&self.bids, id, who.as_bytes()) {
                None => false,
                Some(stored) => match decode_bid_bytes(stored.as_slice()) {
                    None => false,
                    Some(bid) => match item.highest_bid {
                        Some(amount) => bid.amount == amount,
                        None => false,
                    },
                },
            },
        }
    }

    /// Checks the bid stored for `bidder` on `id`, whose stored bytes are `bytes`.
    fn check_bid(&self, id: u64, bidder: &Vec<u8>, bytes: &Vec<u8>) -> (ok: bool)
        requires
            bid_entries(self.bids).contains_key((id, bidder@)),
            bid_entries(self.bids)[(id, bidder@)] == bytes@,
        ensures
            ok == self.bid_entry_ok(id, bidder@),
    {
        let bid = match decode_bid_bytes(bytes.as_slice()) {
            Some(bid) => bid,
            None => { return false; },
        };
        proof {
            assert(self@.bids.contains_key((id, bidder@)));
        }
        let named = match Identity::new(slice_to_vec(bidder.as_slice())) {
            Some(named) => named,
            None => { return false; },
        };
        if bid.item_id != id || !bid.bidder.same(&named) {
            return false;
        }
        match item_table_get(&self.items, id) {
            None => false,
            Some(stored) => match decode_item_bytes(stored.as_slice()) {
                None => false,
                Some(item) => {
                    proof {
                        assert(self@.items.contains_key(id));
                    }
                    match item.highest_bid {
                        Some(amount) => bid.amount <= amount,
                        None => false,
                    }
                },
            },
        }
    }

    /// Checks everything that is stored: whether the service is well formed.
    pub fn check(&self) -> (ok: bool)
        ensures
            ok == self.wf(),
    {
        let last = counter_get(&self.counter);
        let stored = item_table_entries(&self.items);
        let mut i: usize = 0;
        while i < stored.len()
            invariant
                last == counter_value(self.counter),
                lists_items_in_order(stored@, item_entries(self.items)),
                i <= stored@.len(),
                forall|k: int| 0 <= k < i ==> self.item_entry_ok((#[trigger] stored@[k]).0),
            decreases stored@.len() - i,
        {
            assert(item_entries(self.items).contains_key(stored@[i as int].0));
            if !self.check_item(last, stored[i].0, &stored[i].1) {
                proof {
                    self.lemma_wf_by_entries();
                }
                return false;
            }
            i += 1;
        }
        let placed = bid_table_entries(&self.bids);
        let mut j: usize = 0;
        while j < placed.len()
            invariant
                lists_bids(placed@, bid_entries(self.bids)),
                j <= placed@.len(),
                forall|k: int|
                    0 <= k < j ==> self.bid_entry_ok((#[trigger] placed@[k]).0, placed@[k].1@),
            decreases placed@.len() - j,
        {
            assert(bid_entries(self.bids).contains_key((placed@[j as int].0, placed@[j as int].1@)));
            if !self.check_bid(placed[j].0, &placed[j].1, &placed[j].2) {
                proof {
                    self.lemma_wf_by_entries();
                }
                return false;
            }
            j += 1;
        }
        proof {
            self.lemma_wf_by_entries();
            assert forall|id: u64| #[trigger]
                item_entries(self.items).contains_key(id) implies self.item_entry_ok(id) by {
                let k = choose|k: int| 0 <= k < stored@.len() && (#[trigger] stored@[k]).0 == id;
                assert(self.item_entry_ok(stored@[k].0));
            }
            assert forall|id: u64, bidder: Seq<u8>| #[trigger]
                bid_entries(self.bids).contains_key((id, bidder)) implies self.bid_entry_ok(
                id,
                bidder,
            ) by {
                let k = choose|k: int|
                    0 <= k < placed@.len() && (#[trigger] placed@[k]).0 == id && placed@[k].1@
                        == bidder;
                assert(self.bid_entry_ok(placed@[k].0, placed@[k].1@));
            }
        }
        true
    }

    /// Reopens the ledger that the process's stable memory holds, or
    /// starts an empty one when it holds none. Nothing comes back when the
    /// counter cannot be read or what is stored is not in order.
    ///
    /// This opens the process's stable memory, which on a canister is the
    /// same memory at every call: no other service may be alive over it.
    ///
    /// Memory that something other than this ledger has written is not
    /// always told apart by returning nothing: the stable structures trap
    /// on a region that holds a structure of another kind or layout.
    pub fn load() -> (made: Option<AuctionService>)
        ensures
            made is Some ==> (made->0).wf(),
    {
        AuctionService::load_from(Regions::open())
    }

    /// Reopens the ledger that the first three regions of `regions` hold,
    /// or starts an empty one when they hold none. Nothing comes back when
    /// the counter cannot be read or what is stored is not in order.
    ///
    /// The service takes the regions for itself; `close` gives them back.
    ///
    /// Memory that something other than this ledger has written is not
    /// always told apart by returning nothing: the stable structures trap
    /// on a region that holds a structure of another kind or layout, such
    /// as a cell whose value is not eight bytes long or a table of an
    /// unknown version.
    pub fn load_from(regions: Regions) -> (made: Option<AuctionService>)
        ensures
            made is Some ==> (made->0).wf(),
    {
        let (first, second, third, lease) = take_regions(
            regions,
            COUNTER_REGION,
            ITEM_REGION,
            BID_REGION,
        );
        match counter_load(first, 0) {
            Some(counter) => AuctionService::admitted(
                counter,
                item_table_load(second),
                bid_table_load(third),
                lease,
            ),
            None => None,
        }
    }

    /// The service over a counter at zero and two empty tables: it is
    /// well formed and holds the empty ledger.
    fn started(counter: IdCounter, items: ItemTable, bids: BidTable, lease: Lease) -> (service:
        AuctionService)
        requires
            counter_value(counter) == 0,
            item_entries(items) == crate::storage::no_items(),
            bid_entries(bids) == crate::storage::no_bids(),
        ensures
            service == (AuctionService { counter, items, bids, lease }),
            service.wf(),
            service@ == Ledger::empty(),
    {
        let service = AuctionService { counter, items, bids, lease };
        assert(service@.items =~= Ledger::empty().items);
        assert(service@.bids =~= Ledger::empty().bids);
        service
    }

    /// The service over a counter and two tables as they were found, if
    /// what they hold is in order, and nothing if it is not.
    fn admitted(counter: IdCounter, items: ItemTable, bids: BidTable, lease: Lease) -> (made:
        Option<AuctionService>)
        ensures
            made is Some == (AuctionService { counter, items, bids, lease }).wf(),
            made is Some ==> made->0 == (AuctionService { counter, items, bids, lease }),
    {
        let service = AuctionService { counter, items, bids, lease };
        if service.check() {
            Some(service)
        } else {
            None
        }
    }

    /// Closes the service and gives back the regions it lived on, with
    /// everything it stored still in them.
    pub fn close(self) -> Regions {
        return_regions(self.lease)
    }

    /// Whether a further identifier can be handed out.
    pub fn can_mint(&self) -> (can: bool)
        ensures
            can == self@.can_mint(),
    {
        counter_get(&self.counter) < u64::MAX
    }

    /// Hands out the next identifier: one more than the last, persisted
    /// before it is returned. The counter must not be exhausted, which
    /// `can_mint` tells.
    pub fn next_id(&mut self) -> (id: u64)
        requires
            old(self).wf(),
            old(self)@.can_mint(),
        ensures
            final(self).wf(),
            id == old(self)@.next_id(),
            final(self)@ == old(self)@.minted(),
    {
        let id: u64 = counter_get(&self.counter) + 1;
        counter_set(&mut self.counter, id);
        proof {
            lemma_minted_valid(old(self)@);
        }
        id
    }

    /// Reads the listing stored under `id`.
    fn read_item(&self, id: u64) -> (item: Option<Item>)
        requires
            self.wf(),
        ensures
            item is Some == self@.lists(id),
            item is Some ==> (item->0)@ == self@.items[id] && (item->0)@.valid() && (item->0).id
                == id,
    {
        match item_table_get(&self.items, id) {
            Some(bytes) => {
                proof {
                    assert(item_entries(self.items).contains_key(id));
                    assert(self@.items.contains_key(id));
                    assert(self@.item_in_order(id));
                }
                match decode_item_bytes(bytes.as_slice()) {
                    Some(item) => Some(item),
                    None => unreached(),
                }
            },
            None => None,
        }
    }

    /// Writes `item` under its id.
    fn write_item(&mut self, item: &Item)
        requires
            old(self).wf(),
            item@.valid(),
        ensures
            items_decode(item_entries(final(self).items)),
            bids_decode(bid_entries(final(self).bids)),
            final(self)@ == (Ledger {
                items: old(self)@.items.insert(item.id, item@),
                ..old(self)@
            }),
    {
        let bytes = encode_item_bytes(item);
        proof {
            lemma_item_round_trip(item@);
        }
        item_table_insert(&mut self.items, item.id, bytes);
        assert(self@.items =~= old(self)@.items.insert(item.id, item@));
    }

    /// Lists a new item under `id`, the identifier that was handed out last.
    fn list_under(
        &mut self,
        id: u64,
        caller: &Identity,
        now: u64,
        title: String,
        description: String,
        starting_bid: u64,
    ) -> (item: Item)
        requires
            old(self).wf(),
            0 < id == old(self)@.last_id,
            !old(self)@.lists(id),
            text_fits(title@),
            text_fits(description@),
        ensures
            final(self).wf(),
            item@ == ItemView::listed(id, caller@, now, title@, description@, starting_bid),
            final(self)@ == (Ledger {
                items: old(self)@.items.insert(id, item@),
                ..old(self)@
            }),
    {
        let item = Item {
            id,
            title,
            description,
            starting_bid,
            highest_bid: None,
            highest_bidder: None,
            owner: caller.clone(),
            new_owner: None,
            created_at: now,
            updated_at: None,
        };
        self.write_item(&item);
        proof {
            let before = old(self)@;
            let after = self@;
            assert forall|other: u64| #[trigger] after.items.contains_key(other) implies after.item_in_order(
                other,
            ) by {
                if other != id {
                    assert(before.item_in_order(other));
                }
            }
            assert forall|other: u64, bidder: Seq<u8>| #[trigger]
                after.bids.contains_key((other, bidder)) implies after.bid_in_order(
                other,
                bidder,
            ) by {
                assert(before.bid_in_order(other, bidder));
            }
        }
        item
    }

    /// Creates a listing owned by `caller`, under a freshly handed-out id.
    /// The counter must not be exhausted, which `can_mint` tells.
    pub fn create_item(
        &mut self,
        caller: &Identity,
        now: u64,
        title: String,
        description: String,
        starting_bid: u64,
    ) -> (item: Item)
        requires
            old(self).wf(),
            old(self)@.can_mint(),
            text_fits(title@),
            text_fits(description@),
        ensures
            final(self).wf(),
            item@ == ItemView::listed(
                old(self)@.next_id(),
                caller@,
                now,
                title@,
                description@,
                starting_bid,
            ),
            !old(self)@.lists(item.id),
            final(self)@ == old(self)@.create_item(
                caller@,
                now,
                title@,
                description@,
                starting_bid,
            ),
            final(self)@ == old(self)@.step(
                (Action::Create {
                    owner: caller@,
                    now,
                    title: title@,
                    description: description@,
                    starting_bid,
                }),
            ),
    {
        let id = self.next_id();
        proof {
            if old(self)@.lists(id) {
                old(self).lemma_wf_valid();
                assert(old(self)@.item_in_order(id));
            }
        }
        self.list_under(id, caller, now, title, description, starting_bid)
    }

    /// Places a bid by `caller` on the listing `item_id`.
    ///
    /// The bid is refused with `NotFound` when no such listing exists, and
    /// with `InvalidBid` when the amount does not exceed the floor; a
    /// refusal changes nothing. Otherwise the bid becomes the caller's
    /// standing bid on the item and the item's highest bid.
    pub fn place_bid(&mut self, caller: &Identity, now: u64, item_id: u64, amount: u64) -> (outcome:
        Result<Item, Error>)
        requires
            old(self).wf(),
        ensures
            final(self).wf(),
            !old(self)@.lists(item_id) ==> final(self)@ == old(self)@ && (outcome matches Err(
                Error::NotFound { msg },
            ) && msg@ == not_found_text(item_id)),
            old(self)@.lists(item_id) && !old(self)@.outbids(item_id, amount) ==> final(self)@
                == old(self)@ && (outcome matches Err(Error::InvalidBid { msg }) && msg@
                == bid_too_low_text(
                old(self)@.items[item_id].highest_bid,
                old(self)@.items[item_id].starting_bid,
            )),
            old(self)@.lists(item_id) && old(self)@.outbids(item_id, amount) ==> final(self)@
                == old(self)@.place_bid(caller@, now, item_id, amount) && (outcome matches Ok(
                item,
            ) && item@ == old(self)@.items[item_id].with_bid(caller@, amount, now)),
            final(self)@ == old(self)@.step(
                (Action::Bid { bidder: caller@, now, id: item_id, amount }),
            ),
    {
        let found = match self.read_item(item_id) {
            Some(found) => found,
            None => { return Err(Error::NotFound { msg: not_found_message(item_id) }); },
        };
        if amount <= found.floor() {
            return Err(
                Error::InvalidBid {
                    msg: bid_too_low_message(found.highest_bid, found.starting_bid),
                },
            );
        }
        let bid = Bid { item_id, bidder: caller.clone(), amount, timestamp: now };
        let bid_bytes = encode_bid_bytes(&bid);
        let who = caller.as_bytes();
        proof {
            lemma_bid_round_trip(bid@);
        }
        bid_table_insert(&mut self.bids, item_id, who, bid_bytes);
        let item = Item {
            id: found.id,
            title: found.title,
            description: found.description,
            starting_bid: found.starting_bid,
            highest_bid: Some(amount),
            highest_bidder: Some(caller.clone()),
            owner: found.owner,
            new_owner: found.new_owner,
            created_at: found.created_at,
            updated_at: Some(now),
        };
        let ghost between = self@;
        proof {
            assert(between.bids =~= old(self)@.bids.insert((item_id, caller@), bid@));
            assert(item@ == old(self)@.items[item_id].with_bid(caller@, amount, now));
            lemma_place_bid_valid(old(self)@, caller@, now, item_id, amount);
        }
        let encoded = encode_item_bytes(&item);
        proof {
            lemma_item_round_trip(item@);
        }
        item_table_insert(&mut self.items, item_id, encoded);
        proof {
            assert(self@.items =~= old(self)@.items.insert(item_id, item@));
            assert(self@ == old(self)@.place_bid(caller@, now, item_id, amount));
        }
        Ok(item)
    }

    /// Rewrites the title, description and starting bid of the listing
    /// `item_id`, whatever its bidding state.
    ///
    /// The change is refused with `NotFound` when no such listing exists,
    /// and with `Unauthorized` when the caller is not its owner; a refusal
    /// changes nothing.
    pub fn update_listing(
        &mut self,
        caller: &Identity,
        now: u64,
        item_id: u64,
        title: String,
        description: String,
        starting_bid: u64,
    ) -> (outcome: Result<Item, Error>)
        requires
            old(self).wf(),
            text_fits(title@),
            text_fits(description@),
        ensures
            final(self).wf(),
            !old(self)@.lists(item_id) ==> final(self)@ == old(self)@ && (outcome matches Err(
                Error::NotFound { msg },
            ) && msg@ == not_found_text(item_id)),
            old(self)@.lists(item_id) && !old(self)@.owns(item_id, caller@) ==> final(self)@
                == old(self)@ && (outcome matches Err(Error::Unauthorized { msg }) && msg@
                == update_refused_text()),
            old(self)@.lists(item_id) && old(self)@.owns(item_id, caller@) ==> final(self)@
                == old(self)@.update_listing(now, item_id, title@, description@, starting_bid)
                && (outcome matches Ok(item) && item@ == old(self)@.items[item_id].relisted(
                title@,
                description@,
                starting_bid,
                now,
            )),
            final(self)@ == old(self)@.step(
                (Action::Update {
                    caller: caller@,
                    now,
                    id: item_id,
                    title: title@,
                    description: description@,
                    starting_bid,
                }),
            ),
    {
        let found = match self.read_item(item_id) {
            Some(found) => found,
            None => { return Err(Error::NotFound { msg: not_found_message(item_id) }); },
        };
        if !found.owner.same(caller) {
            return Err(Error::Unauthorized { msg: update_refused_message() });
        }
        let item = Item {
            id: found.id,
            title,
            description,
            starting_bid,
            highest_bid: found.highest_bid,
            highest_bidder: found.highest_bidder,
            owner: found.owner,
            new_owner: found.new_owner,
            created_at: found.created_at,
            updated_at: Some(now),
        };
        self.write_item(&item);
        proof {
            lemma_update_listing_valid(
                old(self)@,
                now,
                item_id,
                item@.title,
                item@.description,
                starting_bid,
            );
        }
        Ok(item)
    }

    /// Stops the listing `item_id`: its highest bidder, if there is one,
    /// becomes the new owner.
    ///
    /// Stopping is refused with `NotFound` when no such listing exists, and
    /// with `Unauthorized` when the caller is not its owner; a refusal
    /// changes nothing.
    pub fn stop_listing(&mut self, caller: &Identity, now: u64, item_id: u64) -> (outcome: Result<
        Item,
        Error,
    >)
        requires
            old(self).wf(),
        ensures
            final(self).wf(),
            !old(self)@.lists(item_id) ==> final(self)@ == old(self)@ && (outcome matches Err(
                Error::NotFound { msg },
            ) && msg@ == not_found_text(item_id)),
            old(self)@.lists(item_id) && !old(self)@.owns(item_id, caller@) ==> final(self)@
                == old(self)@ && (outcome matches Err(Error::Unauthorized { msg }) && msg@
                == stop_refused_text()),
            old(self)@.lists(item_id) && old(self)@.owns(item_id, caller@) ==> final(self)@
                == old(self)@.stop_listing(now, item_id) && (outcome matches Ok(item) && item@
                == old(self)@.items[item_id].stopped(now)),
            final(self)@ == old(self)@.step((Action::Stop { caller: caller@, now, id: item_id })),
    {
        let found = match self.read_item(item_id) {
            Some(found) => found,
            None => { return Err(Error::NotFound { msg: not_found_message(item_id) }); },
        };
        if !found.owner.same(caller) {
            return Err(Error::Unauthorized { msg: stop_refused_message() });
        }
        let item = Item {
            id: found.id,
            title: found.title,
            description: found.description,
            starting_bid: found.starting_bid,
            highest_bid: found.highest_bid,
            new_owner: crate::records::copy_of(&found.highest_bidder),
            highest_bidder: found.highest_bidder,
            owner: found.owner,
            created_at: found.created_at,
            updated_at: Some(now),
        };
        self.write_item(&item);
        proof {
            lemma_stop_listing_valid(old(self)@, now, item_id);
        }
        Ok(item)
    }

    /// Looks up the listing `item_id`.
    pub fn get_item(&self, item_id: u64) -> (outcome: Result<Item, Error>)
        requires
            self.wf(),
        ensures
            self@.lists(item_id) ==> (outcome matches Ok(item) && item@ == self@.items[item_id]),
            !self@.lists(item_id) ==> (outcome matches Err(Error::NotFound { msg }) && msg@
                == not_found_text(item_id)),
    {
        match self.read_item(item_id) {
            Some(item) => Ok(item),
            None => Err(Error::NotFound { msg: not_found_message(item_id) }),
        }
    }

    /// Looks up the standing bid of `bidder` on the listing `item_id`.
    pub fn get_bid(&self, item_id: u64, bidder: &Identity) -> (bid: Option<Bid>)
        requires
            self.wf(),
        ensures
            bid is Some == self@.bids.contains_key((item_id, bidder@)),
            bid is Some ==> (bid->0)@ == self@.bids[(item_id, bidder@)],
    {
        match bid_table_get(&self.bids, item_id, bidder.as_bytes()) {
            Some(bytes) => match decode_bid_bytes(bytes.as_slice()) {
                Some(bid) => Some(bid),
                None => unreached(),
            },
            None => None,
        }
    }

    /// The number of listings.
    pub fn get_items_count(&self) -> (count: u64)
        requires
            self.wf(),
        ensures
            count == self@.items.len(),
    {
        assert(self@.items.dom() =~= item_entries(self.items).dom());
        item_table_len(&self.items)
    }

    /// Every listing, in ascending order of id.
    pub fn get_all_items(&self) -> (listing: Vec<Item>)
        requires
            self.wf(),
        ensures
            lists_all(listing@, self@.items),
            listing@.len() == self@.items.len(),
    {
        let stored = item_table_entries(&self.items);
        let mut listing: Vec<Item> = Vec::new();
        let mut i: usize = 0;
        while i < stored.len()
            invariant
                self.wf(),
                lists_items_in_order(stored@, item_entries(self.items)),
                i <= stored@.len(),
                listing@.len() == i,
                forall|k: int|
                    0 <= k < i ==> (#[trigger] listing@[k])@ == self@.items[stored@[k].0]
                        && listing@[k].id == stored@[k].0,
            decreases stored@.len() - i,
        {
            let ghost id = stored@[i as int].0;
            proof {
                assert(item_entries(self.items).contains_key(id));
                assert(self@.items.contains_key(id));
                assert(self@.item_in_order(id));
            }
            let item = match decode_item_bytes(stored[i].1.as_slice()) {
                Some(item) => item,
                None => unreached(),
            };
            listing.push(item);
            i += 1;
        }
        proof {
            assert forall|id: u64| #[trigger] self@.items.contains_key(id) implies exists|i: int|
                0 <= i < listing@.len() && (#[trigger] listing@[i]).id == id by {
                assert(item_entries(self.items).contains_key(id));
                let k = choose|k: int| 0 <= k < stored@.len() && (#[trigger] stored@[k]).0 == id;
                assert(listing@[k].id == id);
            }
            assert forall|i: int| 0 <= i < listing@.len() implies self@.items.contains_key(
                (#[trigger] listing@[i]).id,
            ) && self@.items[listing@[i].id] == listing@[i]@ by {
                assert(item_entries(self.items).contains_key(stored@[i].0));
            }
            assert forall|i: int, j: int| 0 <= i < j < listing@.len() implies (
            #[trigger] listing@[i]).id < (#[trigger] listing@[j]).id by {
                assert(stored@[i].0 < stored@[j].0);
            }
            lemma_listing_counts(listing@, self@.items);
        }
        listing
    }

    /// The listing with the highest bid among those that take part, the
    /// first one met in order of id winning among equals.
    fn highest(&self, closed_only: bool) -> (best: Option<Item>)
        requires
            self.wf(),
        ensures
            match best {
                Some(item) => self@.is_best(item.id, closed_only) && item@ == self@.items[item.id],
                None => !self@.any_counts(closed_only),
            },
    {
        let stored = item_table_entries(&self.items);
        let mut best: Option<Item> = None;
        let ghost mut at: int = 0;
        let mut i: usize = 0;
        while i < stored.len()
            invariant
                self.wf(),
                lists_items_in_order(stored@, item_entries(self.items)),
                i <= stored@.len(),
                match best {
                    Some(item) => 0 <= at < i && item.id == stored@[at].0 && item@
                        == self@.items[item.id] && self@.counts(item.id, closed_only) && forall|
                        k: int,
                    |
                        0 <= k < i && self@.counts((#[trigger] stored@[k]).0, closed_only)
                            ==> self@.items[stored@[k].0].bid_or_zero() < item@.bid_or_zero() || (
                        self@.items[stored@[k].0].bid_or_zero() == item@.bid_or_zero() && at
                            <= k),
                    None => forall|k: int|
                        0 <= k < i ==> !self@.counts((#[trigger] stored@[k]).0, closed_only),
                },
            decreases stored@.len() - i,
        {
            let ghost id = stored@[i as int].0;
            proof {
                assert(item_entries(self.items).contains_key(id));
                assert(self@.items.contains_key(id));
                assert(self@.item_in_order(id));
            }
            let item = match decode_item_bytes(stored[i].1.as_slice()) {
                Some(item) => item,
                None => unreached(),
            };
            if !closed_only || item.is_closed() {
                let better = match &best {
                    Some(held) => item.bid_or_zero() > held.bid_or_zero(),
                    None => true,
                };
                if better {
                    best = Some(item);
                    proof {
                        at = i as int;
                    }
                }
            }
            i += 1;
        }
        proof {
            match &best {
                Some(item) => {
                    assert forall|other: u64| #[trigger]
                        self@.counts(other, closed_only) implies self@.items[other].bid_or_zero()
                        < self@.items[item.id].bid_or_zero() || (
                    self@.items[other].bid_or_zero() == self@.items[item.id].bid_or_zero()
                        && item.id <= other) by {
                        assert(item_entries(self.items).contains_key(other));
                        let k = choose|k: int|
                            0 <= k < stored@.len() && (#[trigger] stored@[k]).0 == other;
                        assert(self@.counts(stored@[k].0, closed_only));
                        if at < k {
                            assert(stored@[at].0 < stored@[k].0);
                        }
                    }
                },
                None => {
                    assert forall|id: u64| !self@.counts(id, closed_only) by {
                        if self@.items.contains_key(id) {
                            assert(item_entries(self.items).contains_key(id));
                            let k = choose|k: int|
                                0 <= k < stored@.len() && (#[trigger] stored@[k]).0 == id;
                            assert(!self@.counts(stored@[k].0, closed_only));
                        }
                    }
                },
            }
        }
        best
    }

    /// The closed listing that sold for the most, if any listing is closed.
    pub fn get_item_sold_for_most(&self) -> (best: Option<Item>)
        requires
            self.wf(),
        ensures
            match best {
                Some(item) => self@.is_best(item.id, true) && item@ == self@.items[item.id],
                None => !self@.any_counts(true),
            },
    {
        self.highest(true)
    }

    /// The listing, open or closed, with the highest bid, if anything is listed.
    pub fn get_item_bid_on_most(&self) -> (best: Option<Item>)
        requires
            self.wf(),
        ensures
            match best {
                Some(item) => self@.is_best(item.id, false) && item@ == self@.items[item.id],
                None => !self@.any_counts(false),
            },
    {
        self.highest(false)
    }
}

/// A map whose keys are listed once each, in ascending order, has as many
/// entries as the listing is long.
pub proof fn lemma_keys_count<V>(keys: Seq<u64>, entries: Map<u64, V>)
    requires
        forall|i: int, j: int| 0 <= i < j < keys.len() ==> keys[i] < keys[j],
        forall|i: int| 0 <= i < keys.len() ==> entries.contains_key(#[trigger] keys[i]),
        forall|id: u64| #[trigger]
            entries.contains_key(id) ==> exists|i: int| 0 <= i < keys.len() && keys[i] == id,
    ensures
        entries.dom().finite(),
        entries.len() == keys.len(),
{
    assert(keys.no_duplicates()) by {
        assert forall|i: int, j: int| 0 <= i < keys.len() && 0 <= j < keys.len() && i != j implies keys[i]
            != keys[j] by {
            if i < j {
                assert(keys[i] < keys[j]);
            } else {
                assert(keys[j] < keys[i]);
            }
        }
    }
    keys.unique_seq_to_set();
    seq_to_set_is_finite(keys);
    assert(keys.to_set() =~= entries.dom()) by {
        assert forall|id: u64| keys.to_set().contains(id) == entries.dom().contains(id) by {
            if keys.contains(id) {
                let i = choose|i: int| 0 <= i < keys.len() && keys[i] == id;
                assert(entries.contains_key(keys[i]));
            }
            if entries.contains_key(id) {
                let i = choose|i: int| 0 <= i < keys.len() && keys[i] == id;
                assert(keys.contains(id));
            }
        }
    }
}

/// A complete listing is as long as the ledger has listings.
pub proof fn lemma_listing_counts(listing: Seq<Item>, items: Map<u64, ItemView>)
    requires
        lists_all(listing, items),
    ensures
        items.dom().finite(),
        items.len() == listing.len(),
{
    let keys = Seq::new(listing.len(), |i: int| listing[i].id);
    assert forall|id: u64| #[trigger] items.contains_key(id) implies exists|i: int|
        0 <= i < keys.len() && keys[i] == id by {
        let i = choose|i: int| 0 <= i < listing.len() && (#[trigger] listing[i]).id == id;
        assert(keys[i] == id);
    }
    assert forall|i: int| 0 <= i < keys.len() implies items.contains_key(#[trigger] keys[i]) by {
        assert(items.contains_key(listing[i].id));
    }
    assert forall|i: int, j: int| 0 <= i < j < keys.len() implies keys[i] < keys[j] by {
        assert(listing[i].id < listing[j].id);
    }
    lemma_keys_count(keys, items);
}

} // verus!
