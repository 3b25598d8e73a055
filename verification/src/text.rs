//! The indented text form of a tree, and the decimal numerals it is made of.

use vstd::prelude::*;
use vstd::string::StringExecFns;
use crate::node::Node;

verus! {

/// The character for a single decimal digit.
pub open spec fn digit_char(d: nat) -> char {
    if d == 0 {
        '0'
    } else if d == 1 {
        '1'
    } else if d == 2 {
        '2'
    } else if d == 3 {
        '3'
    } else if d == 4 {
        '4'
    } else if d == 5 {
        '5'
    } else if d == 6 {
        '6'
    } else if d == 7 {
        '7'
    } else if d == 8 {
        '8'
    } else {
        '9'
    }
}

/// The decimal numeral of `n`, most significant digit first, without leading
/// zeros; zero is the single digit `0`.
pub open spec fn digits(n: nat) -> Seq<char>
    decreases n,
{
    if n < 10 {
        seq![digit_char(n)]
    } else {
        digits(n / 10).push(digit_char(n % 10))
    }
}

/// The decimal numeral of `v`, with a minus sign in front where it is negative.
pub open spec fn decimal(v: int) -> Seq<char> {
    if v < 0 {
        seq!['-'] + digits((-v) as nat)
    } else {
        digits(v as nat)
    }
}

/// The text form of `link`, one line per node: the margin, the key, a line
/// feed. A node comes before its subtrees, the right subtree before the left,
/// and each level down widens the margin by two spaces.
pub open spec fn rendered(link: Option<Box<Node>>, margin: Seq<char>) -> Seq<char>
    decreases link,
{
    match link {
        None => Seq::empty(),
        Some(node) => margin + decimal(node.value as int) + seq!['\n'] + rendered(
            node.right_child,
            margin + seq![' ', ' '],
        ) + rendered(node.left_child, margin + seq![' ', ' ']),
    }
}

/// The one-character text of the digit `d`.
fn digit_text(d: u64) -> (text: &'static str)
    requires
        d < 10,
    ensures
        text@ == seq![digit_char(d as nat)],
{
    proof {
        reveal_strlit("0");
        reveal_strlit("1");
        reveal_strlit("2");
        reveal_strlit("3");
        reveal_strlit("4");
        reveal_strlit("5");
        reveal_strlit("6");
        reveal_strlit("7");
        reveal_strlit("8");
        reveal_strlit("9");
    }
    let text: &'static str = if d == 0 {
        "0"
    } else if d == 1 {
        "1"
    } else if d == 2 {
        "2"
    } else if d == 3 {
        "3"
    } else if d == 4 {
        "4"
    } else if d == 5 {
        "5"
    } else if d == 6 {
        "6"
    } else if d == 7 {
        "7"
    } else if d == 8 {
        "8"
    } else {
        "9"
    };
    assert(text@ =~= seq![digit_char(d as nat)]);
    text
}

/// Appends the decimal numeral of `n` to `out`.
fn push_digits(out: &mut String, n: u64)
    ensures
        final(out)@ == old(out)@ + digits(n as nat),
    decreases n,
{
    if n >= 10 {
        push_digits(out, n / 10);
    }
    out.append(digit_text(n % 10));
    assert(out@ =~= old(out)@ + digits(n as nat));
}

/// Appends the decimal numeral of `value` to `out`.
pub fn push_decimal(out: &mut String, value: i32)
    ensures
        final(out)@ == old(out)@ + decimal(value as int),
{
    let wide: i64 = value as i64;
    if wide < 0 {
        proof {
            reveal_strlit("-");
        }
        out.append("-");
        push_digits(out, (-wide) as u64);
    } else {
        push_digits(out, wide as u64);
    }
    assert(out@ =~= old(out)@ + decimal(value as int));
}

} // verus!
