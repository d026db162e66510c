//! The ledger as a mathematical value: what it holds, what holds of it at
//! all times, and what each operation makes of it.

use crate::records::{text_fits, BidView, ItemView};
use crate::storage::MAX_IDENTITY_LEN;
use vstd::prelude::*;

verus! {

/// The state of the ledger: the last identifier handed out, the listings
/// by id, and each bidder's standing bid per item.
pub struct Ledger {
    pub last_id: u64,
    pub items: Map<u64, ItemView>,
    pub bids: Map<(u64, Seq<u8>), BidView>,
}

/// One call of a mutating operation, with the caller and the time it came with.
pub enum Action {
    Create { owner: Seq<u8>, now: u64, title: Seq<char>, description: Seq<char>, starting_bid: u64 },
    Bid { bidder: Seq<u8>, now: u64, id: u64, amount: u64 },
    Update {
        caller: Seq<u8>,
        now: u64,
        id: u64,
        title: Seq<char>,
        description: Seq<char>,
        starting_bid: u64,
    },
    Stop { caller: Seq<u8>, now: u64, id: u64 },
}

impl Action {
    /// Whether the texts and the identity that come with the call have
    /// storable sizes.
    pub open spec fn sized(self) -> bool {
        match self {
            Action::Create { owner, title, description, .. } => owner.len() <= MAX_IDENTITY_LEN
                && text_fits(title) && text_fits(description),
            Action::Bid { bidder, .. } => bidder.len() <= MAX_IDENTITY_LEN,
            Action::Update { caller, title, description, .. } => caller.len() <= MAX_IDENTITY_LEN
                && text_fits(title) && text_fits(description),
            Action::Stop { caller, .. } => caller.len() <= MAX_IDENTITY_LEN,
        }
    }
}

impl Ledger {
    /// The ledger before anything was listed.
    pub open spec fn empty() -> Ledger {
        Ledger { last_id: 0, items: Map::empty(), bids: Map::empty() }
    }

    /// What holds of the listing stored under `id`: it carries that id, the
    /// id was handed out by the counter, the record is valid, and its
    /// highest bid is the standing bid of its highest bidder.
    pub open spec fn item_in_order(self, id: u64) -> bool {
        let item = self.items[id];
        &&& item.id == id
        &&& 0 < id <= self.last_id
        &&& item.valid()
        &&& item.highest_bidder is Some ==> self.bids.contains_key((id, item.highest_bidder->0))
            && self.bids[(id, item.highest_bidder->0)].amount == item.highest_bid->0
    }

    /// What holds of the bid stored for `bidder` on `id`: it names that
    /// item and bidder, the item is listed, and the amount does not exceed
    /// the item's highest bid.
    pub open spec fn bid_in_order(self, id: u64, bidder: Seq<u8>) -> bool {
        let bid = self.bids[(id, bidder)];
        &&& bid.item_id == id
        &&& bid.bidder == bidder
        &&& bidder.len() <= MAX_IDENTITY_LEN
        &&& self.items.contains_key(id)
        &&& self.items[id].highest_bid is Some
        &&& bid.amount <= self.items[id].highest_bid->0
    }

    /// The invariant of the ledger.
    pub open spec fn valid(self) -> bool {
        &&& forall|id: u64| #[trigger] self.items.contains_key(id) ==> self.item_in_order(id)
        &&& forall|id: u64, bidder: Seq<u8>| #[trigger]
            self.bids.contains_key((id, bidder)) ==> self.bid_in_order(id, bidder)
    }

    /// Whether a further identifier can be handed out.
    pub open spec fn can_mint(self) -> bool {
        self.last_id < u64::MAX
    }

    /// The identifier that is handed out next.
    pub open spec fn next_id(self) -> u64 {
        (self.last_id + 1) as u64
    }

    /// The ledger after one identifier has been handed out.
    pub open spec fn minted(self) -> Ledger {
        Ledger { last_id: self.next_id(), ..self }
    }

    /// The ledger after `owner` has created a listing at time `now`.
    pub open spec fn create_item(
        self,
        owner: Seq<u8>,
        now: u64,
        title: Seq<char>,
        description: Seq<char>,
        starting_bid: u64,
    ) -> Ledger {
        Ledger {
            last_id: self.next_id(),
            items: self.items.insert(
                self.next_id(),
                ItemView::listed(self.next_id(), owner, now, title, description, starting_bid),
            ),
            bids: self.bids,
        }
    }

    /// Whether `id` names a listing.
    pub open spec fn lists(self, id: u64) -> bool {
        self.items.contains_key(id)
    }

    /// Whether a bid of `amount` on `id` exceeds the floor.
    pub open spec fn outbids(self, id: u64, amount: u64) -> bool {
        amount > self.items[id].floor()
    }

    /// Whether `caller` owns the listing `id`.
    pub open spec fn owns(self, id: u64, caller: Seq<u8>) -> bool {
        self.items[id].owner == caller
    }

    /// The ledger after `bidder` has placed an accepted bid on `id`.
    pub open spec fn place_bid(self, bidder: Seq<u8>, now: u64, id: u64, amount: u64) -> Ledger {
        Ledger {
            last_id: self.last_id,
            items: self.items.insert(id, self.items[id].with_bid(bidder, amount, now)),
            bids: self.bids.insert(
                (id, bidder),
                BidView { item_id: id, bidder, amount, timestamp: now },
            ),
        }
    }

    /// The ledger after the owner has rewritten the listing `id`.
    pub open spec fn update_listing(
        self,
        now: u64,
        id: u64,
        title: Seq<char>,
        description: Seq<char>,
        starting_bid: u64,
    ) -> Ledger {
        Ledger {
            items: self.items.insert(
                id,
                self.items[id].relisted(title, description, starting_bid, now),
            ),
            ..self
        }
    }

    /// The ledger after the owner has stopped the listing `id`.
    pub open spec fn stop_listing(self, now: u64, id: u64) -> Ledger {
        Ledger { items: self.items.insert(id, self.items[id].stopped(now)), ..self }
    }

    /// The ledger after one call: what the operation makes of it when the
    /// call is accepted, and the ledger unchanged when it is refused.
    pub open spec fn step(self, action: Action) -> Ledger {
        match action {
            Action::Create { owner, now, title, description, starting_bid } => if self.can_mint() {
                self.create_item(owner, now, title, description, starting_bid)
            } else {
                self
            },
            Action::Bid { bidder, now, id, amount } => if self.lists(id) && self.outbids(
                id,
                amount,
            ) {
                self.place_bid(bidder, now, id, amount)
            } else {
                self
            },
            Action::Update { caller, now, id, title, description, starting_bid } => if self.lists(
                id,
            ) && self.owns(id, caller) {
                self.update_listing(now, id, title, description, starting_bid)
            } else {
                self
            },
            Action::Stop { caller, now, id } => if self.lists(id) && self.owns(id, caller) {
                self.stop_listing(now, id)
            } else {
                self
            },
        }
    }

    /// The ledger after a sequence of calls, taken in order.
    pub open spec fn run(self, actions: Seq<Action>) -> Ledger
        decreases actions.len(),
    {
        if actions.len() == 0 {
            self
        } else {
            self.run(actions.drop_last()).step(actions.last())
        }
    }

    /// Whether a listing takes part in a search for the highest bid: every
    /// listing does, unless only closed ones are asked for.
    pub open spec fn counts(self, id: u64, closed_only: bool) -> bool {
        self.items.contains_key(id) && (closed_only ==> self.items[id].closed())
    }

    /// Whether `id` is the listing with the highest bid among those that
    /// take part, the smallest id winning among equals.
    pub open spec fn is_best(self, id: u64, closed_only: bool) -> bool {
        &&& self.counts(id, closed_only)
        &&& forall|other: u64| #[trigger]
            self.counts(other, closed_only) ==> self.items[other].bid_or_zero()
                < self.items[id].bid_or_zero() || (self.items[other].bid_or_zero()
                == self.items[id].bid_or_zero() && id <= other)
    }

    /// Whether any listing takes part.
    pub open spec fn any_counts(self, closed_only: bool) -> bool {
        exists|id: u64| self.counts(id, closed_only)
    }
}

/// Handing out an identifier keeps the ledger in order.
pub proof fn lemma_minted_valid(ledger: Ledger)
    requires
        ledger.valid(),
        ledger.can_mint(),
    ensures
        ledger.minted().valid(),
{
    let after = ledger.minted();
    assert forall|id: u64| #[trigger] after.items.contains_key(id) implies after.item_in_order(
        id,
    ) by {
        assert(ledger.item_in_order(id));
    }
    assert forall|id: u64, bidder: Seq<u8>| #[trigger]
        after.bids.contains_key((id, bidder)) implies after.bid_in_order(id, bidder) by {
        assert(ledger.bid_in_order(id, bidder));
    }
}

/// Creating a listing keeps the ledger in order.
pub proof fn lemma_create_item_valid(
    ledger: Ledger,
    owner: Seq<u8>,
    now: u64,
    title: Seq<char>,
    description: Seq<char>,
    starting_bid: u64,
)
    requires
        ledger.valid(),
        ledger.can_mint(),
        ItemView::listed(ledger.next_id(), owner, now, title, description, starting_bid).valid(),
    ensures
        ledger.create_item(owner, now, title, description, starting_bid).valid(),
        !ledger.lists(ledger.next_id()),
{
    let after = ledger.create_item(owner, now, title, description, starting_bid);
    if ledger.items.contains_key(ledger.next_id()) {
        assert(ledger.item_in_order(ledger.next_id()));
    }
    assert forall|id: u64| #[trigger] after.items.contains_key(id) implies after.item_in_order(
        id,
    ) by {
        if id != ledger.next_id() {
            assert(ledger.item_in_order(id));
        }
    }
    assert forall|id: u64, bidder: Seq<u8>| #[trigger]
        after.bids.contains_key((id, bidder)) implies after.bid_in_order(id, bidder) by {
        assert(ledger.bid_in_order(id, bidder));
        assert(ledger.item_in_order(id));
    }
}

/// An accepted bid keeps the ledger in order.
pub proof fn lemma_place_bid_valid(ledger: Ledger, bidder: Seq<u8>, now: u64, id: u64, amount: u64)
    requires
        ledger.valid(),
        ledger.lists(id),
        ledger.outbids(id, amount),
        bidder.len() <= MAX_IDENTITY_LEN,
    ensures
        ledger.place_bid(bidder, now, id, amount).valid(),
{
    let after = ledger.place_bid(bidder, now, id, amount);
    assert(ledger.item_in_order(id));
    assert forall|other: u64| #[trigger] after.items.contains_key(other) implies after.item_in_order(
        other,
    ) by {
        assert(ledger.item_in_order(other));
    }
    assert forall|other: u64, who: Seq<u8>| #[trigger]
        after.bids.contains_key((other, who)) implies after.bid_in_order(other, who) by {
        if !(other == id && who == bidder) {
            assert(ledger.bids.contains_key((other, who)));
            assert(ledger.bid_in_order(other, who));
        }
    }
}

/// Rewriting a listing keeps the ledger in order.
pub proof fn lemma_update_listing_valid(
    ledger: Ledger,
    now: u64,
    id: u64,
    title: Seq<char>,
    description: Seq<char>,
    starting_bid: u64,
)
    requires
        ledger.valid(),
        ledger.lists(id),
        ledger.items[id].relisted(title, description, starting_bid, now).valid(),
    ensures
        ledger.update_listing(now, id, title, description, starting_bid).valid(),
{
    let after = ledger.update_listing(now, id, title, description, starting_bid);
    assert(ledger.item_in_order(id));
    assert forall|other: u64| #[trigger] after.items.contains_key(other) implies after.item_in_order(
        other,
    ) by {
        assert(ledger.item_in_order(other));
    }
    assert forall|other: u64, who: Seq<u8>| #[trigger]
        after.bids.contains_key((other, who)) implies after.bid_in_order(other, who) by {
        assert(ledger.bid_in_order(other, who));
    }
}

/// Stopping a listing keeps the ledger in order.
pub proof fn lemma_stop_listing_valid(ledger: Ledger, now: u64, id: u64)
    requires
        ledger.valid(),
        ledger.lists(id),
    ensures
        ledger.stop_listing(now, id).valid(),
{
    let after = ledger.stop_listing(now, id);
    assert(ledger.item_in_order(id));
    assert forall|other: u64| #[trigger] after.items.contains_key(other) implies after.item_in_order(
        other,
    ) by {
        assert(ledger.item_in_order(other));
    }
    assert forall|other: u64, who: Seq<u8>| #[trigger]
        after.bids.contains_key((other, who)) implies after.bid_in_order(other, who) by {
        assert(ledger.bid_in_order(other, who));
    }
}

} // verus!
