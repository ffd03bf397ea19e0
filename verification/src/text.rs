//! Text that the server writes into messages: decimal numbers and the
//! sentences built around them.

use vstd::prelude::*;

verus! {

/// The character of one decimal digit.
pub open spec fn digit(d: nat) -> char {
    if d == 0 {
        '0'
    } else if d == 1 {
        '1'
    } else if d == 2 {
        '2'
    } else if d == 3 {
        '3'
    } else if d == 4 {
        '4'
    } else if d == 5 {
        '5'
    } else if d == 6 {
        '6'
    } else if d == 7 {
        '7'
    } else if d == 8 {
        '8'
    } else {
        '9'
    }
}

/// The decimal numeral of `n`: no sign, no leading zero but for `0` itself.
pub open spec fn decimal(n: nat) -> Seq<char>
    decreases n,
{
    if n < 10 {
        seq![digit(n)]
    } else {
        decimal(n / 10).push(digit(n % 10))
    }
}

fn digit_str(d: u64) -> (s: &'static str)
    requires
        d < 10,
    ensures
        s@ == seq![digit(d as nat)],
{
    proof {
        reveal_strlit("0");
        reveal_strlit("1");
        reveal_strlit("2");
        reveal_strlit("3");
        reveal_strlit("4");
        reveal_strlit("5");
        reveal_strlit("6");
        reveal_strlit("7");
        reveal_strlit("8");
        reveal_strlit("9");
    }
    let s = if d == 0 {
        "0"
    } else if d == 1 {
        "1"
    } else if d == 2 {
        "2"
    } else if d == 3 {
        "3"
    } else if d == 4 {
        "4"
    } else if d == 5 {
        "5"
    } else if d == 6 {
        "6"
    } else if d == 7 {
        "7"
    } else if d == 8 {
        "8"
    } else {
        "9"
    };
    assert(s@ =~= seq![digit(d as nat)]);
    s
}

/// Writes `n` in decimal.
pub fn decimal_string(n: u64) -> (s: String)
    ensures
        s@ == decimal(n as nat),
    decreases n,
{
    if n < 10 {
        String::from_str(digit_str(n))
    } else {
        let mut s = decimal_string(n / 10);
        s.append(digit_str(n % 10));
        assert(s@ =~= decimal(n as nat));
        s
    }
}

/// Every numeral has at least one digit.
pub proof fn lemma_decimal_nonempty(n: nat)
    ensures
        decimal(n).len() >= 1,
    decreases n,
{
    if n >= 10 {
        lemma_decimal_nonempty(n / 10);
    }
}

/// `who` + `" has bid "` + the amount.
pub open spec fn bid_message(who: Seq<char>, amount: nat) -> Seq<char> {
    who + " has bid "@ + decimal(amount)
}

/// `who` + `" has been forced to bid "` + the amount.
pub open spec fn forced_bid_message(who: Seq<char>, amount: nat) -> Seq<char> {
    who + " has been forced to bid "@ + decimal(amount)
}

/// `requestor` + `" tried to force "` + `target` + `" to bid, but it failed!"`.
pub open spec fn failed_force_message(requestor: Seq<char>, target: Seq<char>) -> Seq<char> {
    requestor + " tried to force "@ + target + " to bid, but it failed!"@
}

pub fn make_bid_message(who: &String, amount: u32) -> (s: String)
    ensures
        s@ == bid_message(who@, amount as nat),
{
    let mut s = who.clone();
    s.append(" has bid ");
    let n = decimal_string(amount as u64);
    s.append(n.as_str());
    s
}

pub fn make_forced_bid_message(who: &String, amount: u32) -> (s: String)
    ensures
        s@ == forced_bid_message(who@, amount as nat),
{
    let mut s = who.clone();
    s.append(" has been forced to bid ");
    let n = decimal_string(amount as u64);
    s.append(n.as_str());
    s
}

pub fn make_failed_force_message(requestor: &String, target: &String) -> (s: String)
    ensures
        s@ == failed_force_message(requestor@, target@),
{
    let mut s = requestor.clone();
    s.append(" tried to force ");
    s.append(target.as_str());
    s.append(" to bid, but it failed!");
    s
}

} // verus!
