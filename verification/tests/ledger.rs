use auction_ledger::identity::Identity;
use auction_ledger::records::{Error, Item};
use auction_ledger::service::AuctionService;
use auction_ledger::storage::Regions;

fn who(bytes: &[u8]) -> Identity {
    Identity::new(bytes.to_vec()).expect("a short identity")
}

fn fresh() -> AuctionService {
    AuctionService::new().expect("a fresh ledger")
}

fn list(service: &mut AuctionService, owner: &Identity, now: u64, title: &str, start: u64) -> Item {
    assert!(service.can_mint());
    service.create_item(owner, now, title.to_string(), format!("about {}", title), start)
}

#[test]
fn a_fresh_ledger_is_empty_and_consistent() {
    let service = fresh();
    assert_eq!(service.get_items_count(), 0);
    assert!(service.get_all_items().is_empty());
    assert!(service.get_item_bid_on_most().is_none());
    assert!(service.get_item_sold_for_most().is_none());
    assert!(service.check());
}

#[test]
fn a_loaded_ledger_over_blank_memory_is_empty() {
    let service = AuctionService::load().expect("blank memory holds an empty ledger");
    assert_eq!(service.get_items_count(), 0);
    assert!(service.check());
}

#[test]
fn created_item_has_the_given_fields_and_no_bidding_state() {
    let mut service = fresh();
    let owner = who(&[1, 2, 3]);
    assert!(service.can_mint());
    let item =
        service.create_item(&owner, 1_000, "Lamp".to_string(), "Brass, 1920s".to_string(), 100);
    assert_eq!(item.id, 1);
    assert_eq!(item.title, "Lamp");
    assert_eq!(item.description, "Brass, 1920s");
    assert_eq!(item.starting_bid, 100);
    assert_eq!(item.highest_bid, None);
    assert_eq!(item.highest_bidder, None);
    assert_eq!(item.owner, owner);
    assert_eq!(item.new_owner, None);
    assert_eq!(item.created_at, 1_000);
    assert_eq!(item.updated_at, None);
    assert_eq!(service.get_item(1), Ok(item));
}

#[test]
fn created_ids_start_at_one_and_increase_by_one() {
    let mut service = fresh();
    let owner = who(&[9]);
    let mut previous = 0;
    for round in 0..40u64 {
        let item = list(&mut service, &owner, round, "Thing", round);
        assert_eq!(item.id, previous + 1);
        previous = item.id;
    }
    assert_eq!(service.get_items_count(), 40);
}

#[test]
fn next_id_hands_out_consecutive_identifiers_and_creation_skips_them() {
    let mut service = fresh();
    assert!(service.can_mint());
    assert_eq!(service.next_id(), 1);
    assert_eq!(service.next_id(), 2);
    let item = list(&mut service, &who(&[4]), 5, "Vase", 10);
    assert_eq!(item.id, 3);
    assert_eq!(service.get_items_count(), 1);
    assert!(service.get_item(1).is_err());
    assert!(service.check());
}

#[test]
fn bid_on_a_missing_item_is_not_found() {
    let mut service = fresh();
    let outcome = service.place_bid(&who(&[5]), 10, 7, 1_000);
    assert_eq!(outcome, Err(Error::NotFound { msg: "Item with id=7 not found".to_string() }));
    assert!(service.get_bid(7, &who(&[5])).is_none());
}

#[test]
fn get_item_on_a_missing_item_is_not_found() {
    let service = fresh();
    assert_eq!(
        service.get_item(12),
        Err(Error::NotFound { msg: "Item with id=12 not found".to_string() })
    );
}

#[test]
fn bid_at_or_below_the_starting_bid_is_refused_and_changes_nothing() {
    let mut service = fresh();
    let owner = who(&[1]);
    let bidder = who(&[2]);
    let item = list(&mut service, &owner, 1, "Clock", 100);
    let equal = service.place_bid(&bidder, 2, item.id, 100);
    assert_eq!(
        equal,
        Err(Error::InvalidBid {
            msg: "Bid amount is too low. Current highest bid: None, starting bid: 100".to_string()
        })
    );
    let below = service.place_bid(&bidder, 3, item.id, 99);
    assert!(matches!(below, Err(Error::InvalidBid { .. })));
    assert_eq!(service.get_item(item.id), Ok(item));
    assert!(service.get_bid(1, &bidder).is_none());
    assert!(service.check());
}

#[test]
fn bid_at_or_below_the_highest_bid_is_refused_and_changes_nothing() {
    let mut service = fresh();
    let owner = who(&[1]);
    let first = who(&[2]);
    let second = who(&[3]);
    let id = list(&mut service, &owner, 1, "Clock", 100).id;
    let after_first = service.place_bid(&first, 2, id, 150).expect("an accepted bid");
    let refused = service.place_bid(&second, 3, id, 150);
    assert_eq!(
        refused,
        Err(Error::InvalidBid {
            msg: "Bid amount is too low. Current highest bid: Some(150)".to_string()
        })
    );
    assert_eq!(service.get_item(id), Ok(after_first));
    assert!(service.get_bid(id, &second).is_none());
    assert_eq!(service.get_bid(id, &first).expect("the standing bid").amount, 150);
}

#[test]
fn accepted_bid_is_shown_on_the_item_and_kept_as_the_standing_bid() {
    let mut service = fresh();
    let owner = who(&[1]);
    let bidder = who(&[7, 7, 7]);
    let id = list(&mut service, &owner, 1, "Clock", 100).id;
    let item = service.place_bid(&bidder, 42, id, 101).expect("an accepted bid");
    assert_eq!(item.highest_bid, Some(101));
    assert_eq!(item.highest_bidder, Some(bidder.clone()));
    assert_eq!(item.updated_at, Some(42));
    assert_eq!(item.created_at, 1);
    assert_eq!(item.owner, owner);
    assert_eq!(item.new_owner, None);
    assert_eq!(service.get_item(id), Ok(item));
    let bid = service.get_bid(id, &bidder).expect("the standing bid");
    assert_eq!(bid.item_id, id);
    assert_eq!(bid.bidder, bidder);
    assert_eq!(bid.amount, 101);
    assert_eq!(bid.timestamp, 42);
    assert!(service.check());
}

#[test]
fn second_bid_by_the_same_bidder_replaces_the_first() {
    let mut service = fresh();
    let owner = who(&[1]);
    let bidder = who(&[2]);
    let other = who(&[3]);
    let id = list(&mut service, &owner, 1, "Clock", 100).id;
    service.place_bid(&bidder, 2, id, 110).expect("an accepted bid");
    service.place_bid(&other, 3, id, 120).expect("an accepted bid");
    service.place_bid(&bidder, 4, id, 130).expect("an accepted bid");
    let standing = service.get_bid(id, &bidder).expect("the standing bid");
    assert_eq!(standing.amount, 130);
    assert_eq!(standing.timestamp, 4);
    let outbid = service.get_bid(id, &other).expect("the other standing bid");
    assert_eq!(outbid.amount, 120);
    let item = service.get_item(id).expect("the listing");
    assert_eq!(item.highest_bid, Some(130));
    assert_eq!(item.highest_bidder, Some(bidder));
    assert!(service.check());
}

#[test]
fn bids_on_different_items_are_kept_apart() {
    let mut service = fresh();
    let owner = who(&[1]);
    let bidder = who(&[2]);
    let first = list(&mut service, &owner, 1, "Clock", 10).id;
    let second = list(&mut service, &owner, 2, "Chair", 20).id;
    service.place_bid(&bidder, 3, first, 11).expect("an accepted bid");
    service.place_bid(&bidder, 4, second, 21).expect("an accepted bid");
    assert_eq!(service.get_bid(first, &bidder).expect("a bid").amount, 11);
    assert_eq!(service.get_bid(second, &bidder).expect("a bid").amount, 21);
    assert!(service.get_bid(3, &bidder).is_none());
}

#[test]
fn update_by_someone_else_is_unauthorized_and_changes_nothing() {
    let mut service = fresh();
    let owner = who(&[1]);
    let stranger = who(&[1, 0]);
    let item = list(&mut service, &owner, 1, "Clock", 100);
    let outcome =
        service.update_listing(&stranger, 2, item.id, "Mine".to_string(), "now".to_string(), 1);
    assert_eq!(
        outcome,
        Err(Error::Unauthorized { msg: "Only the owner can update the item".to_string() })
    );
    assert_eq!(service.get_item(item.id), Ok(item));
}

#[test]
fn stop_by_someone_else_is_unauthorized_and_changes_nothing() {
    let mut service = fresh();
    let owner = who(&[1]);
    let stranger = who(&[]);
    let item = list(&mut service, &owner, 1, "Clock", 100);
    let outcome = service.stop_listing(&stranger, 2, item.id);
    assert_eq!(
        outcome,
        Err(Error::Unauthorized { msg: "Only the owner can stop the item listing".to_string() })
    );
    assert_eq!(service.get_item(item.id), Ok(item));
}

#[test]
fn update_and_stop_on_a_missing_item_are_not_found() {
    let mut service = fresh();
    let caller = who(&[1]);
    assert_eq!(
        service.update_listing(&caller, 1, 3, "a".to_string(), "b".to_string(), 1),
        Err(Error::NotFound { msg: "Item with id=3 not found".to_string() })
    );
    assert_eq!(
        service.stop_listing(&caller, 1, 3),
        Err(Error::NotFound { msg: "Item with id=3 not found".to_string() })
    );
}

#[test]
fn update_by_the_owner_rewrites_the_listing_and_keeps_the_bidding_state() {
    let mut service = fresh();
    let owner = who(&[1]);
    let bidder = who(&[2]);
    let id = list(&mut service, &owner, 1, "Clock", 100).id;
    service.place_bid(&bidder, 2, id, 500).expect("an accepted bid");
    let item = service
        .update_listing(&owner, 3, id, "Wall clock".to_string(), "Oak".to_string(), 900)
        .expect("an accepted update");
    assert_eq!(item.id, id);
    assert_eq!(item.title, "Wall clock");
    assert_eq!(item.description, "Oak");
    assert_eq!(item.starting_bid, 900);
    assert_eq!(item.highest_bid, Some(500));
    assert_eq!(item.highest_bidder, Some(bidder));
    assert_eq!(item.updated_at, Some(3));
    assert_eq!(item.created_at, 1);
    assert_eq!(service.get_item(id), Ok(item));
    assert!(service.check());
}

#[test]
fn floor_stays_the_highest_bid_after_the_starting_bid_is_raised() {
    let mut service = fresh();
    let owner = who(&[1]);
    let bidder = who(&[2]);
    let id = list(&mut service, &owner, 1, "Clock", 100).id;
    service.place_bid(&bidder, 2, id, 500).expect("an accepted bid");
    service
        .update_listing(&owner, 3, id, "Clock".to_string(), "same".to_string(), 10_000)
        .expect("an accepted update");
    assert!(service.place_bid(&bidder, 4, id, 500).is_err());
    let item = service.place_bid(&bidder, 5, id, 501).expect("an accepted bid");
    assert_eq!(item.highest_bid, Some(501));
}

#[test]
fn stop_without_bids_leaves_the_listing_without_a_new_owner() {
    let mut service = fresh();
    let owner = who(&[1]);
    let id = list(&mut service, &owner, 1, "Clock", 100).id;
    let item = service.stop_listing(&owner, 9, id).expect("an accepted stop");
    assert_eq!(item.new_owner, None);
    assert_eq!(item.updated_at, Some(9));
    assert_eq!(service.get_item(id), Ok(item));
    assert!(service.get_item_sold_for_most().is_none());
}

#[test]
fn stop_makes_the_highest_bidder_the_new_owner() {
    let mut service = fresh();
    let owner = who(&[1]);
    let low = who(&[2]);
    let high = who(&[3]);
    let id = list(&mut service, &owner, 1, "Clock", 100).id;
    service.place_bid(&low, 2, id, 101).expect("an accepted bid");
    service.place_bid(&high, 3, id, 102).expect("an accepted bid");
    let item = service.stop_listing(&owner, 4, id).expect("an accepted stop");
    assert_eq!(item.new_owner, Some(high.clone()));
    assert_eq!(item.highest_bidder, Some(high));
    assert_eq!(item.highest_bid, Some(102));
    assert_eq!(item.owner, owner);
}

#[test]
fn listing_runs_from_creation_to_a_new_owner() {
    let mut service = fresh();
    let owner = who(&[0xA]);
    let x = who(&[0xB]);
    let y = who(&[0xC]);
    let a = list(&mut service, &owner, 1, "A", 100);
    service.place_bid(&x, 2, a.id, 150).expect("the bid of 150 is accepted");
    let low = service.place_bid(&y, 3, a.id, 120);
    assert_eq!(
        low,
        Err(Error::InvalidBid {
            msg: "Bid amount is too low. Current highest bid: Some(150)".to_string()
        })
    );
    let item = service.place_bid(&y, 4, a.id, 200).expect("the bid of 200 is accepted");
    assert_eq!(item.highest_bidder, Some(y.clone()));
    assert_eq!(item.highest_bid, Some(200));
    let stopped = service.stop_listing(&owner, 5, a.id).expect("the owner stops the listing");
    assert_eq!(stopped.new_owner, Some(y));
    assert!(service.check());
}

fn closed_a_and_open_b(service: &mut AuctionService) -> (Item, Item) {
    let owner = who(&[1]);
    let bidder = who(&[2]);
    let a = list(service, &owner, 1, "A", 10).id;
    let b = list(service, &owner, 2, "B", 10).id;
    service.place_bid(&bidder, 3, a, 200).expect("an accepted bid");
    service.place_bid(&bidder, 4, b, 50).expect("an accepted bid");
    let a = service.stop_listing(&owner, 5, a).expect("an accepted stop");
    let b = service.get_item(b).expect("the open listing");
    (a, b)
}

#[test]
fn most_bid_on_is_the_closed_item_with_the_higher_bid() {
    let mut service = fresh();
    let (a, _) = closed_a_and_open_b(&mut service);
    assert_eq!(service.get_item_bid_on_most(), Some(a));
}

#[test]
fn sold_for_most_is_the_only_closed_item() {
    let mut service = fresh();
    let (a, _) = closed_a_and_open_b(&mut service);
    assert_eq!(service.get_item_sold_for_most(), Some(a));
}

#[test]
fn sold_for_most_is_none_when_nothing_is_closed() {
    let mut service = fresh();
    let owner = who(&[1]);
    let bidder = who(&[2]);
    let a = list(&mut service, &owner, 1, "A", 10).id;
    list(&mut service, &owner, 2, "B", 10);
    service.place_bid(&bidder, 3, a, 200).expect("an accepted bid");
    assert_eq!(service.get_item_sold_for_most(), None);
    assert!(service.get_item_bid_on_most().is_some());
}

#[test]
fn sold_for_most_passes_over_an_open_item_with_a_higher_bid() {
    let mut service = fresh();
    let owner = who(&[1]);
    let bidder = who(&[2]);
    let closed = list(&mut service, &owner, 1, "closed", 10).id;
    let open = list(&mut service, &owner, 2, "open", 10).id;
    service.place_bid(&bidder, 3, closed, 20).expect("an accepted bid");
    service.place_bid(&bidder, 4, open, 9_000).expect("an accepted bid");
    let closed = service.stop_listing(&owner, 5, closed).expect("an accepted stop");
    assert_eq!(service.get_item_sold_for_most(), Some(closed));
    assert_eq!(service.get_item_bid_on_most().expect("a listing").id, open);
}

#[test]
fn among_equal_highest_bids_the_first_listing_wins() {
    let mut service = fresh();
    let owner = who(&[1]);
    let bidder = who(&[2]);
    let first = list(&mut service, &owner, 1, "first", 10).id;
    let second = list(&mut service, &owner, 2, "second", 10).id;
    let third = list(&mut service, &owner, 3, "third", 10).id;
    service.place_bid(&bidder, 4, third, 70).expect("an accepted bid");
    service.place_bid(&bidder, 5, second, 70).expect("an accepted bid");
    service.place_bid(&bidder, 6, first, 30).expect("an accepted bid");
    assert_eq!(service.get_item_bid_on_most().expect("a listing").id, second);
}

#[test]
fn without_any_bid_the_first_listing_is_the_most_bid_on() {
    let mut service = fresh();
    let owner = who(&[1]);
    let first = list(&mut service, &owner, 1, "first", 10);
    list(&mut service, &owner, 2, "second", 99);
    assert_eq!(service.get_item_bid_on_most(), Some(first));
}

#[test]
fn all_items_come_in_order_of_id_and_as_many_as_are_counted() {
    let mut service = fresh();
    let owner = who(&[1]);
    let mut made = Vec::new();
    for round in 0..25u64 {
        made.push(list(&mut service, &owner, round, "Thing", round));
        let all = service.get_all_items();
        assert_eq!(all.len() as u64, service.get_items_count());
        assert_eq!(all, made);
    }
}

#[test]
fn all_items_show_the_latest_state_of_each_listing() {
    let mut service = fresh();
    let owner = who(&[1]);
    let bidder = who(&[2]);
    let first = list(&mut service, &owner, 1, "first", 10).id;
    let second = list(&mut service, &owner, 2, "second", 10);
    let first = service.place_bid(&bidder, 3, first, 11).expect("an accepted bid");
    assert_eq!(service.get_all_items(), vec![first, second]);
    assert_eq!(service.get_items_count(), 2);
}

#[test]
fn bid_after_stop_is_still_accepted_and_a_second_stop_renames_the_new_owner() {
    let mut service = fresh();
    let owner = who(&[1]);
    let early = who(&[2]);
    let late = who(&[3]);
    let id = list(&mut service, &owner, 1, "Clock", 100).id;
    service.place_bid(&early, 2, id, 150).expect("an accepted bid");
    let stopped = service.stop_listing(&owner, 3, id).expect("an accepted stop");
    assert_eq!(stopped.new_owner, Some(early.clone()));
    let item = service.place_bid(&late, 4, id, 151).expect("a bid after the stop");
    assert_eq!(item.new_owner, Some(early));
    assert_eq!(item.highest_bidder, Some(late.clone()));
    let again = service.stop_listing(&owner, 5, id).expect("a second stop");
    assert_eq!(again.new_owner, Some(late));
}

#[test]
fn the_empty_identity_and_the_longest_identity_can_own_and_bid() {
    let mut service = fresh();
    let nobody = who(&[]);
    let longest = who(&[0xFF; 29]);
    let id = list(&mut service, &nobody, 1, "Clock", 0).id;
    let item = service.place_bid(&longest, 2, id, 1).expect("an accepted bid");
    assert_eq!(item.owner, nobody);
    assert_eq!(item.highest_bidder, Some(longest.clone()));
    assert_eq!(service.get_bid(id, &longest).expect("the standing bid").amount, 1);
    assert!(service.get_bid(id, &nobody).is_none());
    let stopped = service.stop_listing(&nobody, 3, id).expect("an accepted stop");
    assert_eq!(stopped.new_owner, Some(longest));
    assert!(service.check());
}

#[test]
fn the_largest_amount_can_be_bid_and_nothing_can_outbid_it() {
    let mut service = fresh();
    let owner = who(&[1]);
    let bidder = who(&[2]);
    let id = list(&mut service, &owner, 1, "Clock", u64::MAX - 1).id;
    assert!(service.place_bid(&bidder, 2, id, u64::MAX - 1).is_err());
    let item = service.place_bid(&bidder, 3, id, u64::MAX).expect("an accepted bid");
    assert_eq!(item.highest_bid, Some(u64::MAX));
    assert_eq!(
        service.place_bid(&owner, 4, id, u64::MAX),
        Err(Error::InvalidBid {
            msg: "Bid amount is too low. Current highest bid: Some(18446744073709551615)"
                .to_string()
        })
    );
}

#[test]
fn texts_outside_ascii_are_stored_and_read_back() {
    let mut service = fresh();
    let owner = who(&[1]);
    let item =
        service.create_item(&owner, 1, "Žluťoučký kůň".to_string(), "日本語 🎏".to_string(), 5);
    let read = service.get_item(item.id).expect("the listing");
    assert_eq!(read.title, "Žluťoučký kůň");
    assert_eq!(read.description, "日本語 🎏");
}

#[test]
fn many_listings_and_bids_stay_consistent() {
    let mut service = fresh();
    let owner = who(&[1]);
    for round in 1..=60u64 {
        let id = list(&mut service, &owner, round, "Thing", round).id;
        for bidder in 0..4u8 {
            let amount = round + 1 + u64::from(bidder);
            service.place_bid(&who(&[bidder, 7]), round, id, amount).expect("an accepted bid");
        }
    }
    assert_eq!(service.get_items_count(), 60);
    assert!(service.check());
    let best = service.get_item_bid_on_most().expect("a listing");
    assert_eq!(best.id, 60);
    assert_eq!(best.highest_bid, Some(64));
    assert_eq!(service.get_bid(17, &who(&[2, 7])).expect("a standing bid").amount, 20);
}

#[test]
fn a_ledger_is_found_again_when_its_memory_is_reopened() {
    let owner = who(&[1]);
    let bidder = who(&[2, 2]);
    let mut service = AuctionService::new_in(Regions::open()).expect("a fresh ledger");
    let first = list(&mut service, &owner, 1, "first", 10).id;
    let second = list(&mut service, &owner, 2, "second", 20).id;
    service.place_bid(&bidder, 3, first, 500).expect("an accepted bid");
    service.place_bid(&owner, 4, second, 21).expect("an accepted bid");
    let first = service.stop_listing(&owner, 5, first).expect("an accepted stop");
    let second = service.get_item(second).expect("the listing");
    let regions = service.close();
    let mut reopened = AuctionService::load_from(regions).expect("what was stored is in order");
    assert!(reopened.check());
    assert_eq!(reopened.get_items_count(), 2);
    assert_eq!(reopened.get_all_items(), vec![first.clone(), second]);
    assert_eq!(reopened.get_item_sold_for_most(), Some(first));
    let standing = reopened.get_bid(1, &bidder).expect("the standing bid");
    assert_eq!(standing.amount, 500);
    assert_eq!(standing.timestamp, 3);
    assert_eq!(reopened.get_bid(2, &owner).expect("the standing bid").amount, 21);
    let third = list(&mut reopened, &owner, 6, "third", 30);
    assert_eq!(third.id, 3);
}

#[test]
fn a_ledger_survives_being_closed_and_reopened_again_and_again() {
    let owner = who(&[1]);
    let mut regions = Regions::open();
    for round in 1..=20u64 {
        let mut service = AuctionService::load_from(regions).expect("a ledger in order");
        assert_eq!(service.get_items_count(), round - 1);
        let item = list(&mut service, &owner, round, "again", round);
        assert_eq!(item.id, round);
        service.place_bid(&owner, round, round, round + 1).expect("an accepted bid");
        assert!(service.check());
        regions = service.close();
    }
    let service = AuctionService::load_from(regions).expect("a ledger in order");
    assert_eq!(service.get_items_count(), 20);
    assert_eq!(service.get_item_bid_on_most().expect("a listing").id, 20);
}

#[test]
fn a_new_ledger_overwrites_what_its_memory_held() {
    let owner = who(&[1]);
    let mut old = AuctionService::new_in(Regions::open()).expect("a fresh ledger");
    let id = list(&mut old, &owner, 1, "old", 10).id;
    old.place_bid(&owner, 2, id, 11).expect("an accepted bid");
    let mut service = AuctionService::new_in(old.close()).expect("a fresh ledger");
    assert_eq!(service.get_items_count(), 0);
    assert!(service.get_item(1).is_err());
    assert!(service.get_bid(1, &owner).is_none());
    assert_eq!(list(&mut service, &owner, 3, "new", 10).id, 1);
    assert!(service.check());
}

#[test]
fn a_fresh_ledger_can_hand_out_identifiers() {
    let mut service = fresh();
    assert!(service.can_mint());
    assert_eq!(service.next_id(), 1);
    assert!(service.can_mint());
}

#[test]
fn identifiers_keep_coming_one_after_the_other_in_a_long_run() {
    let mut service = fresh();
    for expected in 1..=5_000u64 {
        assert_eq!(service.next_id(), expected);
    }
    let item = list(&mut service, &who(&[1]), 1, "late", 1);
    assert_eq!(item.id, 5_001);
    assert!(service.check());
}
