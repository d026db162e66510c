use auction_ledger::codec::{
    decode_bid_bytes, decode_item_bytes, encode_bid_bytes, encode_item_bytes,
};
use auction_ledger::framing::{put_bytes, put_field, split_fields};
use auction_ledger::identity::Identity;
use auction_ledger::records::{copy_of, fits, Bid, Item};
use auction_ledger::text::{
    bid_too_low_message, not_found_message, push_decimal, stop_refused_message,
    update_refused_message,
};

fn named(bytes: &[u8]) -> Identity {
    Identity::new(bytes.to_vec()).expect("a short identity")
}

fn sample() -> Item {
    Item {
        id: 7,
        title: "Lamp".to_string(),
        description: "Brass".to_string(),
        starting_bid: 100,
        highest_bid: Some(250),
        highest_bidder: Some(named(&[1, 2])),
        owner: named(&[3]),
        new_owner: None,
        created_at: 11,
        updated_at: Some(12),
    }
}

#[test]
fn identity_takes_up_to_twenty_nine_bytes() {
    assert!(Identity::new(vec![]).is_some());
    assert!(Identity::new(vec![0; 29]).is_some());
    assert!(Identity::new(vec![0; 30]).is_none());
}

#[test]
fn identity_hands_its_bytes_back() {
    assert_eq!(named(&[4, 5, 6]).as_bytes(), &vec![4, 5, 6]);
}

#[test]
fn identities_are_the_same_exactly_when_their_bytes_are() {
    assert!(named(&[1, 2]).same(&named(&[1, 2])));
    assert!(!named(&[1, 2]).same(&named(&[1, 3])));
    assert!(!named(&[1, 2]).same(&named(&[1])));
    assert!(!named(&[]).same(&named(&[0])));
    assert!(named(&[]).same(&named(&[])));
    assert!(named(&[8]).clone().same(&named(&[8])));
}

#[test]
fn copy_of_an_optional_identity_is_equal_to_it() {
    assert_eq!(copy_of(&None), None);
    assert_eq!(copy_of(&Some(named(&[1]))), Some(named(&[1])));
}

#[test]
fn floor_is_the_highest_bid_or_else_the_starting_bid() {
    let mut item = sample();
    assert_eq!(item.floor(), 250);
    assert_eq!(item.bid_or_zero(), 250);
    item.highest_bid = None;
    item.highest_bidder = None;
    assert_eq!(item.floor(), 100);
    assert_eq!(item.bid_or_zero(), 0);
}

#[test]
fn item_is_closed_once_it_has_a_new_owner() {
    let mut item = sample();
    assert!(!item.is_closed());
    item.new_owner = Some(named(&[9]));
    assert!(item.is_closed());
}

#[test]
fn clones_are_equal_to_what_they_were_made_from() {
    let item = sample();
    assert_eq!(item.clone(), item);
    let bid = Bid { item_id: 1, bidder: named(&[2]), amount: 3, timestamp: 4 };
    assert_eq!(bid.clone(), bid);
}

#[test]
fn short_texts_fit() {
    assert!(fits(""));
    assert!(fits("Lamp"));
    assert!(fits(&"x".repeat(100_000)));
}

#[test]
fn one_field_is_framed_as_its_length_then_its_bytes() {
    let mut out = vec![0xEE];
    put_field(&mut out, &[0xAA, 0xBB, 0xCC]);
    assert_eq!(out, vec![0xEE, 3, 0, 0, 0, 0, 0, 0, 0, 0xAA, 0xBB, 0xCC]);
    let mut empty = Vec::new();
    put_field(&mut empty, &[]);
    assert_eq!(empty, vec![0; 8]);
}

#[test]
fn put_bytes_appends() {
    let mut out = vec![1, 2];
    put_bytes(&mut out, &[3, 4]);
    put_bytes(&mut out, &[]);
    assert_eq!(out, vec![1, 2, 3, 4]);
}

#[test]
fn framed_fields_split_back_into_the_fields() {
    let fields: Vec<Vec<u8>> = vec![vec![], vec![1], vec![2, 3], vec![0; 300], vec![]];
    let mut out = Vec::new();
    for field in &fields {
        put_field(&mut out, field);
    }
    assert_eq!(split_fields(&out), Some(fields));
    assert_eq!(split_fields(&[]), Some(vec![]));
}

#[test]
fn bytes_that_are_no_framing_do_not_split() {
    assert_eq!(split_fields(&[1, 0, 0]), None);
    assert_eq!(split_fields(&[2, 0, 0, 0, 0, 0, 0, 0, 9]), None);
    assert_eq!(split_fields(&[0xFF; 8]), None);
    assert_eq!(split_fields(&[1, 0, 0, 0, 0, 0, 0, 0, 9, 1]), None);
    assert_eq!(split_fields(&[1, 0, 0, 0, 0, 0, 0, 0, 9]), Some(vec![vec![9]]));
}

#[test]
fn stored_item_has_the_documented_layout() {
    let item = Item {
        id: 0x0102,
        title: "é".to_string(),
        description: String::new(),
        starting_bid: 5,
        highest_bid: None,
        highest_bidder: None,
        owner: named(&[0xAB]),
        new_owner: Some(named(&[])),
        created_at: 1,
        updated_at: Some(2),
    };
    let mut expected: Vec<u8> = Vec::new();
    expected.extend([8, 0, 0, 0, 0, 0, 0, 0, 2, 1, 0, 0, 0, 0, 0, 0]);
    expected.extend([2, 0, 0, 0, 0, 0, 0, 0, 0xC3, 0xA9]);
    expected.extend([0, 0, 0, 0, 0, 0, 0, 0]);
    expected.extend([8, 0, 0, 0, 0, 0, 0, 0, 5, 0, 0, 0, 0, 0, 0, 0]);
    expected.extend([0, 0, 0, 0, 0, 0, 0, 0]);
    expected.extend([0, 0, 0, 0, 0, 0, 0, 0]);
    expected.extend([1, 0, 0, 0, 0, 0, 0, 0, 0xAB]);
    expected.extend([1, 0, 0, 0, 0, 0, 0, 0, 1]);
    expected.extend([8, 0, 0, 0, 0, 0, 0, 0, 1, 0, 0, 0, 0, 0, 0, 0]);
    expected.extend([8, 0, 0, 0, 0, 0, 0, 0, 2, 0, 0, 0, 0, 0, 0, 0]);
    assert_eq!(encode_item_bytes(&item), expected);
    assert_eq!(decode_item_bytes(&expected), Some(item));
}

#[test]
fn items_decode_to_what_was_encoded() {
    let mut item = sample();
    assert_eq!(decode_item_bytes(&encode_item_bytes(&item)), Some(item.clone()));
    item.highest_bid = None;
    item.highest_bidder = None;
    item.new_owner = Some(named(&[0; 29]));
    item.updated_at = None;
    item.title = "Žluťoučký 🎏".to_string();
    item.id = u64::MAX;
    assert_eq!(decode_item_bytes(&encode_item_bytes(&item)), Some(item));
}

#[test]
fn bids_decode_to_what_was_encoded() {
    let bid = Bid { item_id: 3, bidder: named(&[5, 6]), amount: u64::MAX, timestamp: 0 };
    let bytes = encode_bid_bytes(&bid);
    assert_eq!(bytes.len(), 4 * 8 + 8 + 2 + 8 + 8);
    assert_eq!(decode_bid_bytes(&bytes), Some(bid));
}

#[test]
fn item_with_a_bid_but_no_bidder_does_not_decode() {
    let mut item = sample();
    item.highest_bidder = None;
    assert_eq!(decode_item_bytes(&encode_item_bytes(&item)), None);
    let mut item = sample();
    item.highest_bid = None;
    assert_eq!(decode_item_bytes(&encode_item_bytes(&item)), None);
}

#[test]
fn item_with_a_broken_text_or_a_missing_field_does_not_decode() {
    let good = encode_item_bytes(&sample());
    assert!(decode_item_bytes(&good).is_some());
    let mut broken = good.clone();
    broken[16 + 8] = 0xFF;
    assert_eq!(decode_item_bytes(&broken), None);
    assert_eq!(decode_item_bytes(&good[..good.len() - 1]), None);
    assert_eq!(decode_item_bytes(&good[..good.len() - 16]), None);
    assert_eq!(decode_item_bytes(&[]), None);
    let mut longer = good.clone();
    put_field(&mut longer, &[]);
    assert_eq!(decode_item_bytes(&longer), None);
}

#[test]
fn item_with_an_overlong_identity_does_not_decode() {
    let fields: Vec<Vec<u8>> = vec![
        vec![1, 0, 0, 0, 0, 0, 0, 0],
        vec![],
        vec![],
        vec![0; 8],
        vec![],
        vec![],
        vec![7; 30],
        vec![],
        vec![0; 8],
        vec![],
    ];
    let mut bytes = Vec::new();
    for field in &fields {
        put_field(&mut bytes, field);
    }
    assert_eq!(decode_item_bytes(&bytes), None);
    let mut fields = fields;
    fields[6] = vec![7; 29];
    let mut bytes = Vec::new();
    for field in &fields {
        put_field(&mut bytes, field);
    }
    assert_eq!(decode_item_bytes(&bytes).expect("a valid item").owner, named(&[7; 29]));
    fields[7] = vec![2, 9];
    let mut bytes = Vec::new();
    for field in &fields {
        put_field(&mut bytes, field);
    }
    assert_eq!(decode_item_bytes(&bytes), None);
}

#[test]
fn bid_with_a_wrong_field_does_not_decode() {
    let good = encode_bid_bytes(&Bid { item_id: 3, bidder: named(&[5]), amount: 1, timestamp: 2 });
    assert!(decode_bid_bytes(&good).is_some());
    assert_eq!(decode_bid_bytes(&good[..good.len() - 1]), None);
    assert_eq!(decode_bid_bytes(&good[..good.len() - 16]), None);
    assert_eq!(decode_bid_bytes(&encode_item_bytes(&sample())), None);
}

#[test]
fn numbers_are_written_in_decimal() {
    for (value, text) in [
        (0u64, "0"),
        (7, "7"),
        (9, "9"),
        (10, "10"),
        (99, "99"),
        (100, "100"),
        (1_234_567_890, "1234567890"),
        (u64::MAX, "18446744073709551615"),
    ] {
        let mut out = String::from("n=");
        push_decimal(&mut out, value);
        assert_eq!(out, format!("n={}", text));
    }
}

#[test]
fn refusals_are_worded_as_documented() {
    assert_eq!(not_found_message(0), "Item with id=0 not found");
    assert_eq!(not_found_message(4_096), "Item with id=4096 not found");
    assert_eq!(
        bid_too_low_message(Some(150), 100),
        "Bid amount is too low. Current highest bid: Some(150)"
    );
    assert_eq!(
        bid_too_low_message(None, 100),
        "Bid amount is too low. Current highest bid: None, starting bid: 100"
    );
    assert_eq!(update_refused_message(), "Only the owner can update the item");
    assert_eq!(stop_refused_message(), "Only the owner can stop the item listing");
}
