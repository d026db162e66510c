//! The stored form of the ledger's records.
//!
//! A record is stored as the framing of its fields, in declaration order.
//! Integers are eight bytes little-endian, texts are UTF-8, an identity is
//! its bytes; an absent integer is the empty field, and an optional
//! identity is the empty field when absent and a marker byte followed by
//! the identity when present. Decoding accepts exactly the byte strings
//! that encode a valid record, and gives that record back.

use crate::framing::{
    frame,
    frame_one,
    lemma_frame_next,
    lemma_unframe_frame,
    put_field,
    split_fields,
    unframe,
};
use crate::identity::Identity;
use crate::records::{text_fits, view_of, Bid, BidView, Item, ItemView, MAX_TEXT_LEN};
use crate::storage::{MAX_IDENTITY_LEN, MAX_RECORD_LEN};
use vstd::bytes::{
    lemma_auto_spec_u64_to_from_le_bytes,
    spec_u64_from_le_bytes,
    spec_u64_to_le_bytes,
    u64_from_le_bytes,
    u64_to_le_bytes,
};
use vstd::prelude::*;
use vstd::slice::{slice_subrange, slice_to_vec};
use vstd::utf8::{
    decode_utf8,
    decode_utf8_encode_utf8,
    encode_utf8,
    encode_utf8_decode_utf8,
    encode_utf8_valid_utf8,
    valid_utf8,
};

verus! {

/// The byte that marks an optional identity as present.
pub const PRESENT: u8 = 1;

/// The number of fields in a stored item.
pub const ITEM_FIELDS: usize = 10;

/// The number of fields in a stored bid.
pub const BID_FIELDS: usize = 4;

/// The field that holds an optional integer.
pub open spec fn optional_u64_field(value: Option<u64>) -> Seq<u8> {
    match value {
        Some(number) => spec_u64_to_le_bytes(number),
        None => Seq::empty(),
    }
}

/// The field that holds an optional identity.
pub open spec fn optional_identity_field(who: Option<Seq<u8>>) -> Seq<u8> {
    match who {
        Some(bytes) => seq![PRESENT] + bytes,
        None => Seq::empty(),
    }
}

/// The integer held by a field, if it holds one.
pub open spec fn parse_u64(field: Seq<u8>) -> Option<u64> {
    if field.len() == 8 {
        Some(spec_u64_from_le_bytes(field))
    } else {
        None
    }
}

/// The optional integer held by a field, if it holds one.
pub open spec fn parse_optional_u64(field: Seq<u8>) -> Option<Option<u64>> {
    if field.len() == 0 {
        Some(None)
    } else if field.len() == 8 {
        Some(Some(spec_u64_from_le_bytes(field)))
    } else {
        None
    }
}

/// The text held by a field, if it holds one that may be listed.
pub open spec fn parse_text(field: Seq<u8>) -> Option<Seq<char>> {
    if field.len() <= MAX_TEXT_LEN && valid_utf8(field) {
        Some(decode_utf8(field))
    } else {
        None
    }
}

/// The identity held by a field, if it holds one.
pub open spec fn parse_identity(field: Seq<u8>) -> Option<Seq<u8>> {
    if field.len() <= MAX_IDENTITY_LEN {
        Some(field)
    } else {
        None
    }
}

/// The optional identity held by a field, if it holds one.
pub open spec fn parse_optional_identity(field: Seq<u8>) -> Option<Option<Seq<u8>>> {
    if field.len() == 0 {
        Some(None)
    } else if field[0] == PRESENT && field.len() - 1 <= MAX_IDENTITY_LEN {
        Some(Some(field.subrange(1, field.len() as int)))
    } else {
        None
    }
}

/// The fields of a stored item.
pub open spec fn item_fields(item: ItemView) -> Seq<Seq<u8>> {
    seq![
        spec_u64_to_le_bytes(item.id),
        encode_utf8(item.title),
        encode_utf8(item.description),
        spec_u64_to_le_bytes(item.starting_bid),
        optional_u64_field(item.highest_bid),
        optional_identity_field(item.highest_bidder),
        item.owner,
        optional_identity_field(item.new_owner),
        spec_u64_to_le_bytes(item.created_at),
        optional_u64_field(item.updated_at),
    ]
}

/// The stored form of an item.
pub open spec fn encode_item(item: ItemView) -> Seq<u8> {
    frame(item_fields(item))
}

/// Whether a sequence of fields holds a valid item: there are as many
/// fields as an item has, each holds what its place asks for, and the
/// highest bid and its bidder are present together.
pub open spec fn holds_item(fields: Seq<Seq<u8>>) -> bool {
    &&& fields.len() == ITEM_FIELDS
    &&& parse_u64(fields[0]) is Some
    &&& parse_text(fields[1]) is Some
    &&& parse_text(fields[2]) is Some
    &&& parse_u64(fields[3]) is Some
    &&& parse_optional_u64(fields[4]) is Some
    &&& parse_optional_identity(fields[5]) is Some
    &&& parse_identity(fields[6]) is Some
    &&& parse_optional_identity(fields[7]) is Some
    &&& parse_u64(fields[8]) is Some
    &&& parse_optional_u64(fields[9]) is Some
    &&& parse_optional_u64(fields[4])->0 is Some <==> parse_optional_identity(fields[5])->0
        is Some
}

/// The item that a sequence of fields holds, if it holds a valid one.
pub open spec fn item_of_fields(fields: Seq<Seq<u8>>) -> Option<ItemView> {
    if holds_item(fields) {
        Some(
            ItemView {
                id: parse_u64(fields[0])->0,
                title: parse_text(fields[1])->0,
                description: parse_text(fields[2])->0,
                starting_bid: parse_u64(fields[3])->0,
                highest_bid: parse_optional_u64(fields[4])->0,
                highest_bidder: parse_optional_identity(fields[5])->0,
                owner: parse_identity(fields[6])->0,
                new_owner: parse_optional_identity(fields[7])->0,
                created_at: parse_u64(fields[8])->0,
                updated_at: parse_optional_u64(fields[9])->0,
            },
        )
    } else {
        None
    }
}

/// The item that a byte string stores, if it stores a valid one.
pub open spec fn decode_item(bytes: Seq<u8>) -> Option<ItemView> {
    match unframe(bytes) {
        Some(fields) => item_of_fields(fields),
        None => None,
    }
}

/// The fields of a stored bid.
pub open spec fn bid_fields(bid: BidView) -> Seq<Seq<u8>> {
    seq![
        spec_u64_to_le_bytes(bid.item_id),
        bid.bidder,
        spec_u64_to_le_bytes(bid.amount),
        spec_u64_to_le_bytes(bid.timestamp),
    ]
}

/// The stored form of a bid.
pub open spec fn encode_bid(bid: BidView) -> Seq<u8> {
    frame(bid_fields(bid))
}

/// Whether a sequence of fields holds a bid: there are as many fields as
/// a bid has, and each holds what its place asks for.
pub open spec fn holds_bid(fields: Seq<Seq<u8>>) -> bool {
    &&& fields.len() == BID_FIELDS
    &&& parse_u64(fields[0]) is Some
    &&& parse_identity(fields[1]) is Some
    &&& parse_u64(fields[2]) is Some
    &&& parse_u64(fields[3]) is Some
}

/// The bid that a sequence of fields holds, if it holds one.
pub open spec fn bid_of_fields(fields: Seq<Seq<u8>>) -> Option<BidView> {
    if holds_bid(fields) {
        Some(
            BidView {
                item_id: parse_u64(fields[0])->0,
                bidder: parse_identity(fields[1])->0,
                amount: parse_u64(fields[2])->0,
                timestamp: parse_u64(fields[3])->0,
            },
        )
    } else {
        None
    }
}

/// The bid that a byte string stores, if it stores one.
pub open spec fn decode_bid(bytes: Seq<u8>) -> Option<BidView> {
    match unframe(bytes) {
        Some(fields) => bid_of_fields(fields),
        None => None,
    }
}

/// Every item that decoding accepts is valid.
pub proof fn lemma_decoded_item_valid(bytes: Seq<u8>)
    requires
        decode_item(bytes) is Some,
    ensures
        decode_item(bytes)->0.valid(),
{
    let fields = unframe(bytes)->0;
    decode_utf8_encode_utf8(fields[1]);
    decode_utf8_encode_utf8(fields[2]);
}

/// Decoding the stored form of a valid item gives the item back.
pub proof fn lemma_item_round_trip(item: ItemView)
    requires
        item.valid(),
    ensures
        decode_item(encode_item(item)) == Some(item),
{
    lemma_auto_spec_u64_to_from_le_bytes();
    let fields = item_fields(item);
    encode_utf8_valid_utf8(item.title);
    encode_utf8_valid_utf8(item.description);
    encode_utf8_decode_utf8(item.title);
    encode_utf8_decode_utf8(item.description);
    lemma_unframe_frame(fields);
    if let Some(who) = item.highest_bidder {
        assert(fields[5].subrange(1, fields[5].len() as int) =~= who);
    }
    if let Some(who) = item.new_owner {
        assert(fields[7].subrange(1, fields[7].len() as int) =~= who);
    }
    assert(item_of_fields(fields) == Some(item));
}

/// Decoding the stored form of a bid with a storable bidder gives the bid back.
pub proof fn lemma_bid_round_trip(bid: BidView)
    requires
        bid.bidder.len() <= MAX_IDENTITY_LEN,
    ensures
        decode_bid(encode_bid(bid)) == Some(bid),
{
    lemma_auto_spec_u64_to_from_le_bytes();
    lemma_unframe_frame(bid_fields(bid));
}

/// `String::from_utf8`, which the verifier's library leaves unspecified:
/// it accepts exactly the well-formed UTF-8 byte strings, and the text it
/// returns is the one those bytes encode.
#[verifier::external_body]
fn text_from_utf8(bytes: Vec<u8>) -> (text: Option<String>)
    ensures
        text is Some == valid_utf8(bytes@),
        text is Some ==> (text->0)@ == decode_utf8(bytes@),
{
    String::from_utf8(bytes).ok()
}

/// Appends the field of an optional integer to `out`.
fn put_optional_u64(out: &mut Vec<u8>, value: Option<u64>)
    ensures
        final(out)@ == old(out)@ + frame_one(optional_u64_field(value)),
{
    match value {
        Some(number) => {
            let bytes = u64_to_le_bytes(number);
            put_field(out, bytes.as_slice());
        },
        None => {
            let bytes: Vec<u8> = Vec::new();
            put_field(out, bytes.as_slice());
            assert(bytes@ =~= optional_u64_field(value));
        },
    }
}

/// Appends the field of an optional identity to `out`.
fn put_optional_identity(out: &mut Vec<u8>, who: &Option<Identity>)
    ensures
        final(out)@ == old(out)@ + frame_one(optional_identity_field(view_of(*who))),
        view_of(*who) is Some ==> (view_of(*who)->0).len() <= MAX_IDENTITY_LEN,
{
    let mut bytes: Vec<u8> = Vec::new();
    match who {
        Some(identity) => {
            bytes.push(PRESENT);
            let held = identity.as_bytes();
            let mut i: usize = 0;
            while i < held.len()
                invariant
                    i <= held@.len(),
                    bytes@ == seq![PRESENT] + held@.take(i as int),
                decreases held@.len() - i,
            {
                bytes.push(held[i]);
                i += 1;
                assert(held@.take(i as int) =~= held@.take(i - 1).push(held@[i - 1]));
                assert(bytes@ =~= seq![PRESENT] + held@.take(i as int));
            }
            assert(held@.take(i as int) =~= held@);
        },
        None => {
            assert(bytes@ =~= optional_identity_field(view_of(*who)));
        },
    }
    put_field(out, bytes.as_slice());
}

/// The stored form of `item`.
pub fn encode_item_bytes(item: &Item) -> (bytes: Vec<u8>)
    requires
        text_fits(item@.title),
        text_fits(item@.description),
    ensures
        bytes@ == encode_item(item@),
        bytes@.len() <= MAX_RECORD_LEN,
{
    let ghost fields = item_fields(item@);
    let mut out: Vec<u8> = Vec::new();
    assert(out@ =~= frame(fields.take(0))) by {
        assert(fields.take(0) =~= Seq::<Seq<u8>>::empty());
    }
    let id = u64_to_le_bytes(item.id);
    put_field(&mut out, id.as_slice());
    proof {
        lemma_frame_next(fields, 0);
    }
    put_field(&mut out, item.title.as_str().as_bytes());
    proof {
        lemma_frame_next(fields, 1);
    }
    put_field(&mut out, item.description.as_str().as_bytes());
    proof {
        lemma_frame_next(fields, 2);
    }
    let starting = u64_to_le_bytes(item.starting_bid);
    put_field(&mut out, starting.as_slice());
    proof {
        lemma_frame_next(fields, 3);
    }
    put_optional_u64(&mut out, item.highest_bid);
    proof {
        lemma_frame_next(fields, 4);
    }
    put_optional_identity(&mut out, &item.highest_bidder);
    proof {
        lemma_frame_next(fields, 5);
    }
    put_field(&mut out, item.owner.as_bytes().as_slice());
    proof {
        lemma_frame_next(fields, 6);
    }
    put_optional_identity(&mut out, &item.new_owner);
    proof {
        lemma_frame_next(fields, 7);
    }
    let created = u64_to_le_bytes(item.created_at);
    put_field(&mut out, created.as_slice());
    proof {
        lemma_frame_next(fields, 8);
    }
    put_optional_u64(&mut out, item.updated_at);
    proof {
        lemma_frame_next(fields, 9);
        assert(fields.take(10) =~= fields);
        lemma_auto_spec_u64_to_from_le_bytes();
    }
    out
}

/// The stored form of `bid`.
pub fn encode_bid_bytes(bid: &Bid) -> (bytes: Vec<u8>)
    ensures
        bytes@ == encode_bid(bid@),
        bytes@.len() <= MAX_RECORD_LEN,
{
    let ghost fields = bid_fields(bid@);
    let mut out: Vec<u8> = Vec::new();
    assert(out@ =~= frame(fields.take(0))) by {
        assert(fields.take(0) =~= Seq::<Seq<u8>>::empty());
    }
    let id = u64_to_le_bytes(bid.item_id);
    put_field(&mut out, id.as_slice());
    proof {
        lemma_frame_next(fields, 0);
    }
    put_field(&mut out, bid.bidder.as_bytes().as_slice());
    proof {
        lemma_frame_next(fields, 1);
    }
    let amount = u64_to_le_bytes(bid.amount);
    put_field(&mut out, amount.as_slice());
    proof {
        lemma_frame_next(fields, 2);
    }
    let timestamp = u64_to_le_bytes(bid.timestamp);
    put_field(&mut out, timestamp.as_slice());
    proof {
        lemma_frame_next(fields, 3);
        assert(fields.take(4) =~= fields);
        lemma_auto_spec_u64_to_from_le_bytes();
    }
    out
}

/// Reads the integer that `field` holds.
fn read_u64(field: &Vec<u8>) -> (value: Option<u64>)
    ensures
        value == parse_u64(field@),
{
    if field.len() == 8 {
        Some(u64_from_le_bytes(field.as_slice()))
    } else {
        None
    }
}

/// Reads the optional integer that `field` holds.
fn read_optional_u64(field: &Vec<u8>) -> (value: Option<Option<u64>>)
    ensures
        value == parse_optional_u64(field@),
{
    if field.len() == 0 {
        Some(None)
    } else if field.len() == 8 {
        Some(Some(u64_from_le_bytes(field.as_slice())))
    } else {
        None
    }
}

/// Reads the text that `field` holds.
fn read_text(field: &Vec<u8>) -> (text: Option<String>)
    ensures
        text is Some == parse_text(field@) is Some,
        text is Some ==> (text->0)@ == parse_text(field@)->0,
{
    if field.len() <= MAX_TEXT_LEN {
        text_from_utf8(slice_to_vec(field.as_slice()))
    } else {
        None
    }
}

/// Reads the identity that `field` holds.
fn read_identity(field: &Vec<u8>) -> (who: Option<Identity>)
    ensures
        view_of(who) == parse_identity(field@),
{
    Identity::new(slice_to_vec(field.as_slice()))
}

/// Reads the optional identity that `field` holds.
fn read_optional_identity(field: &Vec<u8>) -> (who: Option<Option<Identity>>)
    ensures
        who is Some == parse_optional_identity(field@) is Some,
        who is Some ==> view_of(who->0) == parse_optional_identity(field@)->0,
{
    if field.len() == 0 {
        Some(None)
    } else if field[0] == PRESENT {
        let held = slice_to_vec(slice_subrange(field.as_slice(), 1, field.len()));
        match Identity::new(held) {
            Some(identity) => Some(Some(identity)),
            None => None,
        }
    } else {
        None
    }
}

/// Decodes a stored item.
pub fn decode_item_bytes(bytes: &[u8]) -> (item: Option<Item>)
    ensures
        match item {
            Some(found) => decode_item(bytes@) == Some(found@),
            None => decode_item(bytes@) is None,
        },
{
    let fields = match split_fields(bytes) {
        Some(fields) => fields,
        None => { return None; },
    };
    if fields.len() != ITEM_FIELDS {
        return None;
    }
    let id = match read_u64(&fields[0]) {
        Some(id) => id,
        None => { return None; },
    };
    let title = match read_text(&fields[1]) {
        Some(title) => title,
        None => { return None; },
    };
    let description = match read_text(&fields[2]) {
        Some(description) => description,
        None => { return None; },
    };
    let starting_bid = match read_u64(&fields[3]) {
        Some(starting_bid) => starting_bid,
        None => { return None; },
    };
    let highest_bid = match read_optional_u64(&fields[4]) {
        Some(highest_bid) => highest_bid,
        None => { return None; },
    };
    let highest_bidder = match read_optional_identity(&fields[5]) {
        Some(highest_bidder) => highest_bidder,
        None => { return None; },
    };
    let owner = match read_identity(&fields[6]) {
        Some(owner) => owner,
        None => { return None; },
    };
    let new_owner = match read_optional_identity(&fields[7]) {
        Some(new_owner) => new_owner,
        None => { return None; },
    };
    let created_at = match read_u64(&fields[8]) {
        Some(created_at) => created_at,
        None => { return None; },
    };
    let updated_at = match read_optional_u64(&fields[9]) {
        Some(updated_at) => updated_at,
        None => { return None; },
    };
    if highest_bid.is_some() != highest_bidder.is_some() {
        return None;
    }
    Some(
        Item {
            id,
            title,
            description,
            starting_bid,
            highest_bid,
            highest_bidder,
            owner,
            new_owner,
            created_at,
            updated_at,
        },
    )
}

/// Decodes a stored bid.
pub fn decode_bid_bytes(bytes: &[u8]) -> (bid: Option<Bid>)
    ensures
        match bid {
            Some(found) => decode_bid(bytes@) == Some(found@),
            None => decode_bid(bytes@) is None,
        },
{
    let fields = match split_fields(bytes) {
        Some(fields) => fields,
        None => { return None; },
    };
    if fields.len() != BID_FIELDS {
        return None;
    }
    let item_id = match read_u64(&fields[0]) {
        Some(item_id) => item_id,
        None => { return None; },
    };
    let bidder = match read_identity(&fields[1]) {
        Some(bidder) => bidder,
        None => { return None; },
    };
    let amount = match read_u64(&fields[2]) {
        Some(amount) => amount,
        None => { return None; },
    };
    let timestamp = match read_u64(&fields[3]) {
        Some(timestamp) => timestamp,
        None => { return None; },
    };
    Some(Bid { item_id, bidder, amount, timestamp })
}

} // verus!
