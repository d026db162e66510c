//! The records the ledger keeps, their mathematical views, and the pure
//! rules that turn one listing state into the next.

use crate::identity::Identity;
use crate::storage::MAX_IDENTITY_LEN;
use vstd::prelude::*;
use vstd::utf8::encode_utf8;

verus! {

/// The longest title or description, in bytes of UTF-8, that a listing may
/// carry. Two texts of this size and the rest of a record still fit in one
/// stored record.
pub const MAX_TEXT_LEN: usize = 0x7fff_ff00;

/// An auctionable listing together with its current bidding state.
#[derive(Debug, PartialEq, Eq)]
pub struct Item {
    pub id: u64,
    pub title: String,
    pub description: String,
    pub starting_bid: u64,
    pub highest_bid: Option<u64>,
    pub highest_bidder: Option<Identity>,
    pub owner: Identity,
    pub new_owner: Option<Identity>,
    pub created_at: u64,
    pub updated_at: Option<u64>,
}

/// A bidder's standing bid on one item.
#[derive(Debug, PartialEq, Eq)]
pub struct Bid {
    pub item_id: u64,
    pub bidder: Identity,
    pub amount: u64,
    pub timestamp: u64,
}

/// Why an operation was refused.
#[derive(Debug, PartialEq, Eq)]
pub enum Error {
    /// The item id names no listing.
    NotFound { msg: String },
    /// The amount does not exceed the current floor.
    InvalidBid { msg: String },
    /// The caller is not the owner of the listing.
    Unauthorized { msg: String },
}

/// An item as a mathematical value.
pub struct ItemView {
    pub id: u64,
    pub title: Seq<char>,
    pub description: Seq<char>,
    pub starting_bid: u64,
    pub highest_bid: Option<u64>,
    pub highest_bidder: Option<Seq<u8>>,
    pub owner: Seq<u8>,
    pub new_owner: Option<Seq<u8>>,
    pub created_at: u64,
    pub updated_at: Option<u64>,
}

/// A bid as a mathematical value.
pub struct BidView {
    pub item_id: u64,
    pub bidder: Seq<u8>,
    pub amount: u64,
    pub timestamp: u64,
}

/// The view of an optional identity.
pub open spec fn view_of(who: Option<Identity>) -> Option<Seq<u8>> {
    match who {
        Some(identity) => Some(identity@),
        None => None,
    }
}

/// Whether a text is short enough to be listed.
pub open spec fn text_fits(text: Seq<char>) -> bool {
    encode_utf8(text).len() <= MAX_TEXT_LEN
}

/// Whether an optional identity, if present, has a storable length.
pub open spec fn identity_fits(who: Option<Seq<u8>>) -> bool {
    who is Some ==> who->0.len() <= MAX_IDENTITY_LEN
}

impl ItemView {
    /// What every stored item satisfies: its texts and identities have
    /// storable sizes, and the highest bid and its bidder are present together.
    pub open spec fn valid(self) -> bool {
        &&& text_fits(self.title)
        &&& text_fits(self.description)
        &&& self.owner.len() <= MAX_IDENTITY_LEN
        &&& identity_fits(self.highest_bidder)
        &&& identity_fits(self.new_owner)
        &&& self.highest_bid is Some <==> self.highest_bidder is Some
    }

    /// The amount a new bid must exceed: the highest bid, or the starting
    /// bid while there is none.
    pub open spec fn floor(self) -> u64 {
        match self.highest_bid {
            Some(amount) => amount,
            None => self.starting_bid,
        }
    }

    /// The highest bid, counting a listing without bids as zero.
    pub open spec fn bid_or_zero(self) -> u64 {
        match self.highest_bid {
            Some(amount) => amount,
            None => 0,
        }
    }

    /// Whether the listing has been stopped with a winner.
    pub open spec fn closed(self) -> bool {
        self.new_owner is Some
    }

    /// A listing as it is first created.
    pub open spec fn listed(
        id: u64,
        owner: Seq<u8>,
        now: u64,
        title: Seq<char>,
        description: Seq<char>,
        starting_bid: u64,
    ) -> ItemView {
        ItemView {
            id,
            title,
            description,
            starting_bid,
            highest_bid: None,
            highest_bidder: None,
            owner,
            new_owner: None,
            created_at: now,
            updated_at: None,
        }
    }

    /// The listing after `bidder` has bid `amount` at time `now`.
    pub open spec fn with_bid(self, bidder: Seq<u8>, amount: u64, now: u64) -> ItemView {
        ItemView {
            highest_bid: Some(amount),
            highest_bidder: Some(bidder),
            updated_at: Some(now),
            ..self
        }
    }

    /// The listing after its owner has rewritten it at time `now`.
    pub open spec fn relisted(
        self,
        title: Seq<char>,
        description: Seq<char>,
        starting_bid: u64,
        now: u64,
    ) -> ItemView {
        ItemView { title, description, starting_bid, updated_at: Some(now), ..self }
    }

    /// The listing after its owner has stopped it at time `now`: the
    /// highest bidder, if there is one, becomes the new owner.
    pub open spec fn stopped(self, now: u64) -> ItemView {
        ItemView { new_owner: self.highest_bidder, updated_at: Some(now), ..self }
    }
}

impl View for Item {
    type V = ItemView;

    open spec fn view(&self) -> ItemView {
        ItemView {
            id: self.id,
            title: self.title@,
            description: self.description@,
            starting_bid: self.starting_bid,
            highest_bid: self.highest_bid,
            highest_bidder: view_of(self.highest_bidder),
            owner: self.owner@,
            new_owner: view_of(self.new_owner),
            created_at: self.created_at,
            updated_at: self.updated_at,
        }
    }
}

impl View for Bid {
    type V = BidView;

    open spec fn view(&self) -> BidView {
        BidView {
            item_id: self.item_id,
            bidder: self.bidder@,
            amount: self.amount,
            timestamp: self.timestamp,
        }
    }
}

/// Whether `text` is short enough to be listed.
pub fn fits(text: &str) -> (fits: bool)
    ensures
        fits == text_fits(text@),
{
    text.as_bytes().len() <= MAX_TEXT_LEN
}

/// A copy of an optional identity.
pub fn copy_of(who: &Option<Identity>) -> (copy: Option<Identity>)
    ensures
        view_of(copy) == view_of(*who),
{
    match who {
        Some(identity) => Some(identity.clone()),
        None => None,
    }
}

impl Item {
    /// The amount a new bid must exceed.
    pub fn floor(&self) -> (floor: u64)
        ensures
            floor == self@.floor(),
    {
        match self.highest_bid {
            Some(amount) => amount,
            None => self.starting_bid,
        }
    }

    /// The highest bid, counting a listing without bids as zero.
    pub fn bid_or_zero(&self) -> (amount: u64)
        ensures
            amount == self@.bid_or_zero(),
    {
        match self.highest_bid {
            Some(amount) => amount,
            None => 0,
        }
    }

    /// Whether the listing has been stopped with a winner.
    pub fn is_closed(&self) -> (closed: bool)
        ensures
            closed == self@.closed(),
    {
        self.new_owner.is_some()
    }
}

impl Clone for Item {
    fn clone(&self) -> (copy: Item)
        ensures
            copy@ == self@,
    {
        Item {
            id: self.id,
            title: self.title.clone(),
            description: self.description.clone(),
            starting_bid: self.starting_bid,
            highest_bid: self.highest_bid,
            highest_bidder: copy_of(&self.highest_bidder),
            owner: self.owner.clone(),
            new_owner: copy_of(&self.new_owner),
            created_at: self.created_at,
            updated_at: self.updated_at,
        }
    }
}

impl Clone for Bid {
    fn clone(&self) -> (copy: Bid)
        ensures
            copy@ == self@,
    {
        Bid {
            item_id: self.item_id,
            bidder: self.bidder.clone(),
            amount: self.amount,
            timestamp: self.timestamp,
        }
    }
}

} // verus!
