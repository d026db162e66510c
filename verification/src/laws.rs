//! What holds of the ledger over every sequence of calls.

use crate::ledger::{
    lemma_create_item_valid,
    lemma_place_bid_valid,
    lemma_stop_listing_valid,
    lemma_update_listing_valid,
    Action,
    Ledger,
};
use vstd::prelude::*;

verus! {

/// One call keeps a ledger in order, accepted or refused.
pub proof fn law_step_keeps_order(ledger: Ledger, action: Action)
    requires
        ledger.valid(),
        action.sized(),
    ensures
        ledger.step(action).valid(),
{
    match action {
        Action::Create { owner, now, title, description, starting_bid } => {
            if ledger.can_mint() {
                lemma_create_item_valid(ledger, owner, now, title, description, starting_bid);
            }
        },
        Action::Bid { bidder, now, id, amount } => {
            if ledger.lists(id) && ledger.outbids(id, amount) {
                lemma_place_bid_valid(ledger, bidder, now, id, amount);
            }
        },
        Action::Update { caller, now, id, title, description, starting_bid } => {
            if ledger.lists(id) && ledger.owns(id, caller) {
                assert(ledger.item_in_order(id));
                lemma_update_listing_valid(ledger, now, id, title, description, starting_bid);
            }
        },
        Action::Stop { caller, now, id } => {
            if ledger.lists(id) && ledger.owns(id, caller) {
                lemma_stop_listing_valid(ledger, now, id);
            }
        },
    }
}

/// Every sequence of calls keeps a ledger in order.
pub proof fn law_run_keeps_order(ledger: Ledger, actions: Seq<Action>)
    requires
        ledger.valid(),
        forall|k: int| 0 <= k < actions.len() ==> (#[trigger] actions[k]).sized(),
    ensures
        ledger.run(actions).valid(),
    decreases actions.len(),
{
    if actions.len() > 0 {
        law_run_keeps_order(ledger, actions.drop_last());
        law_step_keeps_order(ledger.run(actions.drop_last()), actions.last());
    }
}

/// The counter never goes back: after more calls the last identifier
/// handed out is the same or a later one.
pub proof fn law_counter_never_goes_back(
    ledger: Ledger,
    actions: Seq<Action>,
    earlier: int,
    later: int,
)
    requires
        0 <= earlier <= later <= actions.len(),
    ensures
        ledger.run(actions.take(earlier)).last_id <= ledger.run(actions.take(later)).last_id,
    decreases later - earlier,
{
    if earlier < later {
        law_counter_never_goes_back(ledger, actions, earlier, later - 1);
        assert(actions.take(later).drop_last() =~= actions.take(later - 1));
    }
}

/// The identifiers that creations return are strictly increasing, and
/// each is new when it is returned: of two creations in one sequence of
/// calls, whatever calls stand between them, the later one that succeeds
/// returns a greater identifier than the earlier one, and no listing had
/// that identifier before.
pub proof fn law_created_ids_increase(
    ledger: Ledger,
    actions: Seq<Action>,
    earlier: int,
    later: int,
)
    requires
        ledger.valid(),
        forall|k: int| 0 <= k < actions.len() ==> (#[trigger] actions[k]).sized(),
        0 <= earlier < later < actions.len(),
        actions[earlier] is Create,
        actions[later] is Create,
        ledger.run(actions.take(later)).can_mint(),
    ensures
        ledger.run(actions.take(earlier)).can_mint(),
        ledger.run(actions.take(earlier)).next_id() < ledger.run(actions.take(later)).next_id(),
        !ledger.run(actions.take(later)).lists(ledger.run(actions.take(later)).next_id()),
        ledger.run(actions.take(later + 1)).lists(ledger.run(actions.take(later)).next_id()),
{
    let before = ledger.run(actions.take(earlier));
    let between = ledger.run(actions.take(earlier + 1));
    let at = ledger.run(actions.take(later));
    law_counter_never_goes_back(ledger, actions, earlier, later);
    law_counter_never_goes_back(ledger, actions, earlier + 1, later);
    assert(actions.take(earlier + 1).drop_last() =~= actions.take(earlier));
    assert(actions.take(earlier + 1).last() == actions[earlier]);
    assert(between == before.step(actions[earlier]));
    assert(actions.take(later + 1).drop_last() =~= actions.take(later));
    assert(actions.take(later + 1).last() == actions[later]);
    assert forall|k: int| 0 <= k < actions.take(later).len() implies (#[trigger] actions.take(
        later,
    )[k]).sized() by {
        assert(actions[k].sized());
    }
    law_run_keeps_order(ledger, actions.take(later));
    if at.items.contains_key(at.next_id()) {
        assert(at.item_in_order(at.next_id()));
    }
}

/// A second accepted bid by the same bidder on the same item replaces the
/// first: the bid table names the same bidders as before, and the
/// bidder's standing bid is the second one.
pub proof fn law_second_bid_replaces(
    ledger: Ledger,
    bidder: Seq<u8>,
    id: u64,
    first_time: u64,
    first_amount: u64,
    second_time: u64,
    second_amount: u64,
)
    ensures
        ({
            let once = ledger.place_bid(bidder, first_time, id, first_amount);
            let twice = once.place_bid(bidder, second_time, id, second_amount);
            &&& twice.bids.dom() == once.bids.dom()
            &&& twice.bids[(id, bidder)].amount == second_amount
            &&& twice.bids[(id, bidder)].timestamp == second_time
            &&& twice.items[id].highest_bid == Some(second_amount)
            &&& twice.items[id].highest_bidder == Some(bidder)
        }),
{
    let once = ledger.place_bid(bidder, first_time, id, first_amount);
    let twice = once.place_bid(bidder, second_time, id, second_amount);
    assert(twice.bids.dom() =~= once.bids.dom());
}

/// After an accepted bid the item shows the bid and the bidder, and the
/// bid table holds that bid for the bidder; every other bid stands as it did.
pub proof fn law_bid_is_recorded(ledger: Ledger, bidder: Seq<u8>, now: u64, id: u64, amount: u64)
    ensures
        ({
            let after = ledger.place_bid(bidder, now, id, amount);
            &&& after.items[id].highest_bid == Some(amount)
            &&& after.items[id].highest_bidder == Some(bidder)
            &&& after.bids.contains_key((id, bidder))
            &&& after.bids[(id, bidder)].amount == amount
            &&& forall|other: u64, who: Seq<u8>|
                (other, who) != (id, bidder) ==> after.bids.contains_key((other, who))
                    == ledger.bids.contains_key((other, who)) && after.bids[(other, who)]
                    == ledger.bids[(other, who)]
        }),
{
}

/// Stopping a listing makes its highest bidder the new owner; a listing
/// that never had a bid is left without one.
pub proof fn law_stop_names_highest_bidder(ledger: Ledger, now: u64, id: u64)
    requires
        ledger.valid(),
        ledger.lists(id),
    ensures
        ledger.stop_listing(now, id).items[id].new_owner == ledger.items[id].highest_bidder,
        ledger.items[id].highest_bid is None ==> ledger.stop_listing(now, id).items[id].new_owner
            is None,
{
    assert(ledger.item_in_order(id));
}

/// At most one listing is the one with the highest bid.
pub proof fn law_best_is_unique(ledger: Ledger, closed_only: bool, first: u64, second: u64)
    requires
        ledger.is_best(first, closed_only),
        ledger.is_best(second, closed_only),
    ensures
        first == second,
{
    assert(ledger.counts(first, closed_only));
    assert(ledger.counts(second, closed_only));
}

/// Some listing has the highest bid whenever any listing takes part and
/// the listings are finitely many.
pub proof fn law_best_exists(ledger: Ledger, closed_only: bool)
    requires
        ledger.items.dom().finite(),
        ledger.any_counts(closed_only),
    ensures
        exists|id: u64| ledger.is_best(id, closed_only),
{
    let candidates = ledger.items.dom().filter(|id: u64| ledger.counts(id, closed_only));
    ledger.items.dom().lemma_len_filter(|id: u64| ledger.counts(id, closed_only));
    let some = choose|id: u64| ledger.counts(id, closed_only);
    assert(candidates.contains(some));
    if candidates.len() == 0 {
        candidates.lemma_len0_is_empty();
    }
    lemma_best_among(ledger, closed_only, candidates);
    let best = choose|best: u64| #[trigger]
        candidates.contains(best) && forall|other: u64| #[trigger]
            candidates.contains(other) ==> ledger.items[other].bid_or_zero()
                < ledger.items[best].bid_or_zero() || (ledger.items[other].bid_or_zero()
                == ledger.items[best].bid_or_zero() && best <= other);
    assert forall|other: u64| #[trigger]
        ledger.counts(other, closed_only) implies ledger.items[other].bid_or_zero()
        < ledger.items[best].bid_or_zero() || (ledger.items[other].bid_or_zero()
        == ledger.items[best].bid_or_zero() && best <= other) by {
        assert(candidates.contains(other));
    }
    assert(ledger.is_best(best, closed_only));
}

/// A finite, non-empty set of listings has one with the highest bid and,
/// among those, the smallest id.
proof fn lemma_best_among(ledger: Ledger, closed_only: bool, candidates: Set<u64>)
    requires
        candidates.finite(),
        candidates.len() > 0,
    ensures
        exists|best: u64| #[trigger]
            candidates.contains(best) && forall|other: u64| #[trigger]
                candidates.contains(other) ==> ledger.items[other].bid_or_zero()
                    < ledger.items[best].bid_or_zero() || (ledger.items[other].bid_or_zero()
                    == ledger.items[best].bid_or_zero() && best <= other),
    decreases candidates.len(),
{
    let one = candidates.choose();
    let rest = candidates.remove(one);
    if rest.len() == 0 {
        assert forall|other: u64| #[trigger] candidates.contains(other) implies other == one by {
            if other != one {
                assert(rest.contains(other));
            }
        }
        assert(candidates.contains(one));
    } else {
        lemma_best_among(ledger, closed_only, rest);
        let held = choose|best: u64| #[trigger]
            rest.contains(best) && forall|other: u64| #[trigger]
                rest.contains(other) ==> ledger.items[other].bid_or_zero()
                    < ledger.items[best].bid_or_zero() || (ledger.items[other].bid_or_zero()
                    == ledger.items[best].bid_or_zero() && best <= other);
        let wins = ledger.items[one].bid_or_zero() > ledger.items[held].bid_or_zero() || (
        ledger.items[one].bid_or_zero() == ledger.items[held].bid_or_zero() && one < held);
        let best = if wins {
            one
        } else {
            held
        };
        assert(candidates.contains(best));
        assert forall|other: u64| #[trigger]
            candidates.contains(other) implies ledger.items[other].bid_or_zero()
            < ledger.items[best].bid_or_zero() || (ledger.items[other].bid_or_zero()
            == ledger.items[best].bid_or_zero() && best <= other) by {
            if other != one {
                assert(rest.contains(other));
            }
        }
    }
}

} // verus!
