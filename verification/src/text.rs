//! The wording of refusals, with the numbers in them written in decimal.

use vstd::prelude::*;
use vstd::string::StringExecFns;

verus! {

/// The character for one decimal digit.
pub open spec fn digit(value: nat) -> char {
    if value == 0 {
        '0'
    } else if value == 1 {
        '1'
    } else if value == 2 {
        '2'
    } else if value == 3 {
        '3'
    } else if value == 4 {
        '4'
    } else if value == 5 {
        '5'
    } else if value == 6 {
        '6'
    } else if value == 7 {
        '7'
    } else if value == 8 {
        '8'
    } else {
        '9'
    }
}

/// A number written in decimal, without leading zeros.
pub open spec fn decimal(value: nat) -> Seq<char>
    decreases value,
{
    if value < 10 {
        seq![digit(value)]
    } else {
        decimal(value / 10).push(digit(value % 10))
    }
}

/// What is said when no listing has the id.
pub open spec fn not_found_text(id: u64) -> Seq<char> {
    "Item with id="@ + decimal(id as nat) + " not found"@
}

/// What is said when a bid does not exceed the floor: the highest bid
/// when there is one, and the starting bid that stands in for it when not.
pub open spec fn bid_too_low_text(highest_bid: Option<u64>, starting_bid: u64) -> Seq<char> {
    match highest_bid {
        Some(amount) => "Bid amount is too low. Current highest bid: Some("@ + decimal(
            amount as nat,
        ) + ")"@,
        None => "Bid amount is too low. Current highest bid: None, starting bid: "@ + decimal(
            starting_bid as nat,
        ),
    }
}

/// What is said when someone other than the owner rewrites a listing.
pub open spec fn update_refused_text() -> Seq<char> {
    "Only the owner can update the item"@
}

/// What is said when someone other than the owner stops a listing.
pub open spec fn stop_refused_text() -> Seq<char> {
    "Only the owner can stop the item listing"@
}

/// The text of one decimal digit.
fn digit_text(value: u64) -> (text: &'static str)
    requires
        value < 10,
    ensures
        text@ == seq![digit(value as nat)],
{
    proof {
        reveal_strlit("0");
        reveal_strlit("1");
        reveal_strlit("2");
        reveal_strlit("3");
        reveal_strlit("4");
        reveal_strlit("5");
        reveal_strlit("6");
        reveal_strlit("7");
        reveal_strlit("8");
        reveal_strlit("9");
    }
    let text = if value == 0 {
        "0"
    } else if value == 1 {
        "1"
    } else if value == 2 {
        "2"
    } else if value == 3 {
        "3"
    } else if value == 4 {
        "4"
    } else if value == 5 {
        "5"
    } else if value == 6 {
        "6"
    } else if value == 7 {
        "7"
    } else if value == 8 {
        "8"
    } else {
        "9"
    };
    assert(text@ =~= seq![digit(value as nat)]);
    text
}

/// Appends `value`, written in decimal, to `out`.
pub fn push_decimal(out: &mut String, value: u64)
    ensures
        final(out)@ == old(out)@ + decimal(value as nat),
    decreases value,
{
    if value >= 10 {
        push_decimal(out, value / 10);
    }
    out.append(digit_text(value % 10));
    assert(out@ =~= old(out)@ + decimal(value as nat));
}

/// The refusal for an id that names no listing.
pub fn not_found_message(id: u64) -> (text: String)
    ensures
        text@ == not_found_text(id),
{
    let mut text = String::from_str("Item with id=");
    push_decimal(&mut text, id);
    text.append(" not found");
    text
}

/// The refusal for a bid that does not exceed the floor.
pub fn bid_too_low_message(highest_bid: Option<u64>, starting_bid: u64) -> (text: String)
    ensures
        text@ == bid_too_low_text(highest_bid, starting_bid),
{
    match highest_bid {
        Some(amount) => {
            let mut text = String::from_str("Bid amount is too low. Current highest bid: Some(");
            push_decimal(&mut text, amount);
            text.append(")");
            text
        },
        None => {
            let mut text = String::from_str(
                "Bid amount is too low. Current highest bid: None, starting bid: ",
            );
            push_decimal(&mut text, starting_bid);
            text
        },
    }
}

/// The refusal for rewriting someone else's listing.
pub fn update_refused_message() -> (text: String)
    ensures
        text@ == update_refused_text(),
{
    String::from_str("Only the owner can update the item")
}

/// The refusal for stopping someone else's listing.
pub fn stop_refused_message() -> (text: String)
    ensures
        text@ == stop_refused_text(),
{
    String::from_str("Only the owner can stop the item listing")
}

} // verus!
