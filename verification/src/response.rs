//! Rendering an outcome for a driver: the feedback line and the JSON body
//! the service sends.

use crate::game::{Comparison, PlayOutcome};
use vstd::prelude::*;
use vstd::string::StringExecFns;

verus! {

/// The feedback line a driver shows for one outcome.
pub open spec fn spec_message(outcome: PlayOutcome) -> Seq<char> {
    match outcome {
        PlayOutcome::OutOfRange => "The value should be between 1 and 100!"@,
        PlayOutcome::AlreadyTried => "This value was already used!"@,
        PlayOutcome::Compared(Comparison::Less) => "Too small!"@,
        PlayOutcome::Compared(Comparison::Greater) => "Too big!"@,
        PlayOutcome::Compared(Comparison::Equal) => "You win!"@,
    }
}

/// The one line of feedback for `outcome`.
pub fn response_message(outcome: &PlayOutcome) -> (message: &'static str)
    ensures
        message@ == spec_message(*outcome),
{
    match outcome {
        PlayOutcome::OutOfRange => "The value should be between 1 and 100!",
        PlayOutcome::AlreadyTried => "This value was already used!",
        PlayOutcome::Compared(Comparison::Less) => "Too small!",
        PlayOutcome::Compared(Comparison::Greater) => "Too big!",
        PlayOutcome::Compared(Comparison::Equal) => "You win!",
    }
}

/// The character for one decimal digit.
pub open spec fn digit_char(d: nat) -> char {
    if d == 0 {
        '0'
    } else if d == 1 {
        '1'
    } else if d == 2 {
        '2'
    } else if d == 3 {
        '3'
    } else if d == 4 {
        '4'
    } else if d == 5 {
        '5'
    } else if d == 6 {
        '6'
    } else if d == 7 {
        '7'
    } else if d == 8 {
        '8'
    } else {
        '9'
    }
}

/// The decimal digits of `n`, most significant first, no leading zeros
/// (a single '0' for zero).
pub open spec fn spec_decimal(n: nat) -> Seq<char>
    decreases n,
{
    if n < 10 {
        seq![digit_char(n)]
    } else {
        spec_decimal(n / 10).push(digit_char(n % 10))
    }
}

/// The one-character string for the digit `d`.
fn digit_str(d: u32) -> (s: &'static str)
    requires
        d < 10,
    ensures
        s@ == seq![digit_char(d as nat)],
{
    if d == 0 {
        proof {
            reveal_strlit("0");
            assert("0"@ =~= seq![digit_char(0)]);
        }
        "0"
    } else if d == 1 {
        proof {
            reveal_strlit("1");
            assert("1"@ =~= seq![digit_char(1)]);
        }
        "1"
    } else if d == 2 {
        proof {
            reveal_strlit("2");
            assert("2"@ =~= seq![digit_char(2)]);
        }
        "2"
    } else if d == 3 {
        proof {
            reveal_strlit("3");
            assert("3"@ =~= seq![digit_char(3)]);
        }
        "3"
    } else if d == 4 {
        proof {
            reveal_strlit("4");
            assert("4"@ =~= seq![digit_char(4)]);
        }
        "4"
    } else if d == 5 {
        proof {
            reveal_strlit("5");
            assert("5"@ =~= seq![digit_char(5)]);
        }
        "5"
    } else if d == 6 {
        proof {
            reveal_strlit("6");
            assert("6"@ =~= seq![digit_char(6)]);
        }
        "6"
    } else if d == 7 {
        proof {
            reveal_strlit("7");
            assert("7"@ =~= seq![digit_char(7)]);
        }
        "7"
    } else if d == 8 {
        proof {
            reveal_strlit("8");
            assert("8"@ =~= seq![digit_char(8)]);
        }
        "8"
    } else {
        proof {
            reveal_strlit("9");
            assert("9"@ =~= seq![digit_char(9)]);
        }
        "9"
    }
}

/// `n` written in decimal.
pub fn u32_to_decimal(n: u32) -> (s: String)
    ensures
        s@ == spec_decimal(n as nat),
    decreases n,
{
    let d = digit_str(n % 10);
    if n < 10 {
        let s = d.to_owned();
        proof {
            assert(s@ =~= spec_decimal(n as nat));
        }
        s
    } else {
        let mut s = u32_to_decimal(n / 10);
        s.append(d);
        proof {
            assert(s@ =~= spec_decimal(n as nat));
        }
        s
    }
}

/// The JSON body for one response, exactly as the service sends it.
pub open spec fn spec_body(tries: u32, outcome: PlayOutcome) -> Seq<char> {
    "{\"number_of_tries\": "@ + spec_decimal(tries as nat) + ", \"result\": \""@ + spec_message(
        outcome,
    ) + "\" }\n"@
}

/// The JSON body reporting `tries` attempts and the feedback for `outcome`.
pub fn response_body(tries: u32, outcome: &PlayOutcome) -> (body: String)
    ensures
        body@ == spec_body(tries, *outcome),
{
    let mut body = "{\"number_of_tries\": ".to_owned();
    let digits = u32_to_decimal(tries);
    body.append(digits.as_str());
    body.append(", \"result\": \"");
    body.append(response_message(outcome));
    body.append("\" }\n");
    proof {
        assert(body@ =~= spec_body(tries, *outcome));
    }
    body
}

} // verus!
