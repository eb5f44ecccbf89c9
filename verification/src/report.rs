//! The text of a node's measurement report.
//!
//! The report starts with a line that names the node, the number of nodes
//! and the payload size. One line for each round follows: the round's
//! number, the latency of the node's own delivery in milliseconds or `INF`
//! where there was none, and the bytes sent and received in the round.

use vstd::prelude::*;
use vstd::string::StringExecFns;

verus! {

/// The ten decimal digits.
pub open spec fn decimal_digits() -> Seq<char> {
    seq!['0', '1', '2', '3', '4', '5', '6', '7', '8', '9']
}

/// The decimal spelling of `n`, without leading zeros.
pub open spec fn decimal_chars(n: nat) -> Seq<char>
    decreases n,
{
    if n < 10 {
        seq![decimal_digits()[n as int]]
    } else {
        decimal_chars(n / 10).push(decimal_digits()[(n % 10) as int])
    }
}

/// The decimal spelling of `n`, filled up with zeros in front to three
/// digits.
pub open spec fn padded_chars(n: nat) -> Seq<char> {
    if n < 10 {
        seq!['0', '0'] + decimal_chars(n)
    } else if n < 100 {
        seq!['0'] + decimal_chars(n)
    } else {
        decimal_chars(n)
    }
}

/// The first line of a report.
pub open spec fn header_chars(node_ind: u32, node_num: u32, payload_size: usize) -> Seq<char> {
    "index: "@ + decimal_chars(node_ind as nat) + ", node_num: "@ + decimal_chars(node_num as nat)
        + ", payload_size: "@ + decimal_chars(payload_size as nat)
}

/// The line of round `round`.
pub open spec fn round_chars(round: nat, latency: Option<u128>, sent: usize, recv: usize) -> Seq<
    char,
> {
    "r"@ + padded_chars(round) + ": "@ + (match latency {
        Some(ms) => decimal_chars(ms as nat),
        None => "INF"@,
    }) + " "@ + decimal_chars(sent as nat) + " "@ + decimal_chars(recv as nat)
}

/// Appends one decimal digit.
fn push_digit(s: &mut String, d: u8)
    requires
        d < 10,
    ensures
        final(s)@ == old(s)@.push(decimal_digits()[d as int]),
{
    proof {
        reveal_strlit("0");
        reveal_strlit("1");
        reveal_strlit("2");
        reveal_strlit("3");
        reveal_strlit("4");
        reveal_strlit("5");
        reveal_strlit("6");
        reveal_strlit("7");
        reveal_strlit("8");
        reveal_strlit("9");
    }
    let lit = if d == 0 {
        "0"
    } else if d == 1 {
        "1"
    } else if d == 2 {
        "2"
    } else if d == 3 {
        "3"
    } else if d == 4 {
        "4"
    } else if d == 5 {
        "5"
    } else if d == 6 {
        "6"
    } else if d == 7 {
        "7"
    } else if d == 8 {
        "8"
    } else {
        "9"
    };
    assert(lit@ =~= seq![decimal_digits()[d as int]]);
    s.append(lit);
    assert(s@ =~= old(s)@.push(decimal_digits()[d as int]));
}

/// Appends the decimal spelling of `n`.
pub fn push_decimal(s: &mut String, n: u128)
    ensures
        final(s)@ == old(s)@ + decimal_chars(n as nat),
    decreases n,
{
    if n >= 10 {
        push_decimal(s, n / 10);
    }
    push_digit(s, (n % 10) as u8);
    assert(s@ =~= old(s)@ + decimal_chars(n as nat));
}

/// Appends the decimal spelling of `n`, filled up to three digits.
pub fn push_padded(s: &mut String, n: u128)
    ensures
        final(s)@ == old(s)@ + padded_chars(n as nat),
{
    proof {
        reveal_strlit("00");
        reveal_strlit("0");
    }
    if n < 10 {
        s.append("00");
        assert("00"@ =~= seq!['0', '0']);
    } else if n < 100 {
        s.append("0");
        assert("0"@ =~= seq!['0']);
    }
    push_decimal(s, n);
    assert(s@ =~= old(s)@ + padded_chars(n as nat));
}

/// The first line of a report.
pub fn header_line(node_ind: u32, node_num: u32, payload_size: usize) -> (line: String)
    ensures
        line@ == header_chars(node_ind, node_num, payload_size),
{
    let mut line = String::new();
    line.append("index: ");
    push_decimal(&mut line, node_ind as u128);
    line.append(", node_num: ");
    push_decimal(&mut line, node_num as u128);
    line.append(", payload_size: ");
    push_decimal(&mut line, payload_size as u128);
    assert(line@ =~= header_chars(node_ind, node_num, payload_size));
    line
}

/// The line of round `round`.
pub fn round_line(round: usize, latency: Option<u128>, sent: usize, recv: usize) -> (line: String)
    ensures
        line@ == round_chars(round as nat, latency, sent, recv),
{
    let mut line = String::new();
    line.append("r");
    push_padded(&mut line, round as u128);
    line.append(": ");
    match latency {
        Some(ms) => {
            push_decimal(&mut line, ms);
        },
        None => {
            line.append("INF");
        },
    }
    line.append(" ");
    push_decimal(&mut line, sent as u128);
    line.append(" ");
    push_decimal(&mut line, recv as u128);
    assert(line@ =~= round_chars(round as nat, latency, sent, recv));
    line
}

} // verus!
