//! Numbers as text: decimal notation for the numbers of clients, and
//! hexadecimal notation of fixed width for the names of inputs.

use vstd::prelude::*;
use vstd::string::*;

verus! {

/// The character that stands for a digit from 0 to 15.
pub open spec fn symbol(d: nat) -> char {
    if d == 0 {
        '0'
    } else if d == 1 {
        '1'
    } else if d == 2 {
        '2'
    } else if d == 3 {
        '3'
    } else if d == 4 {
        '4'
    } else if d == 5 {
        '5'
    } else if d == 6 {
        '6'
    } else if d == 7 {
        '7'
    } else if d == 8 {
        '8'
    } else if d == 9 {
        '9'
    } else if d == 10 {
        'a'
    } else if d == 11 {
        'b'
    } else if d == 12 {
        'c'
    } else if d == 13 {
        'd'
    } else if d == 14 {
        'e'
    } else {
        'f'
    }
}

/// A number in decimal notation, without leading zeros.
pub open spec fn digits(n: nat) -> Seq<char>
    decreases n,
{
    if n < 10 {
        seq![symbol(n)]
    } else {
        digits(n / 10).push(symbol(n % 10))
    }
}

/// The `count` lowest hexadecimal digits of a number, the highest of them
/// first, in lower case.
pub open spec fn hex(n: nat, count: nat) -> Seq<char>
    decreases count,
{
    if count == 0 {
        Seq::empty()
    } else {
        hex(n / 16, (count - 1) as nat).push(symbol(n % 16))
    }
}

/// Decimal notation has at least one digit.
pub proof fn lemma_digits_nonempty(n: nat)
    ensures
        digits(n).len() >= 1,
        n >= 10 ==> digits(n).len() >= 2,
    decreases n,
{
    if n >= 10 {
        lemma_digits_nonempty(n / 10);
    }
}

/// Different numbers have different decimal notations.
pub proof fn lemma_digits_injective(a: nat, b: nat)
    requires
        digits(a) == digits(b),
    ensures
        a == b,
    decreases a,
{
    lemma_digits_nonempty(a);
    lemma_digits_nonempty(b);
    if a >= 10 && b >= 10 {
        let front_a = digits(a / 10);
        let front_b = digits(b / 10);
        assert(digits(a).last() == symbol(a % 10));
        assert(digits(b).last() == symbol(b % 10));
        assert(digits(a).drop_last() =~= front_a);
        assert(digits(b).drop_last() =~= front_b);
        lemma_digits_injective(a / 10, b / 10);
    } else if a < 10 && b < 10 {
        assert(digits(a)[0] == symbol(a));
        assert(digits(b)[0] == symbol(b));
    }
}

/// Hexadecimal notation of a fixed width has that width.
pub proof fn lemma_hex_len(n: nat, count: nat)
    ensures
        hex(n, count).len() == count,
    decreases count,
{
    if count > 0 {
        lemma_hex_len(n / 16, (count - 1) as nat);
    }
}

/// The text of one digit.
fn symbol_text(d: u64) -> (text: &'static str)
    requires
        d < 16,
    ensures
        text@ == seq![symbol(d as nat)],
{
    proof {
        reveal_strlit("0");
        reveal_strlit("1");
        reveal_strlit("2");
        reveal_strlit("3");
        reveal_strlit("4");
        reveal_strlit("5");
        reveal_strlit("6");
        reveal_strlit("7");
        reveal_strlit("8");
        reveal_strlit("9");
        reveal_strlit("a");
        reveal_strlit("b");
        reveal_strlit("c");
        reveal_strlit("d");
        reveal_strlit("e");
        reveal_strlit("f");
    }
    let text = if d == 0 {
        "0"
    } else if d == 1 {
        "1"
    } else if d == 2 {
        "2"
    } else if d == 3 {
        "3"
    } else if d == 4 {
        "4"
    } else if d == 5 {
        "5"
    } else if d == 6 {
        "6"
    } else if d == 7 {
        "7"
    } else if d == 8 {
        "8"
    } else if d == 9 {
        "9"
    } else if d == 10 {
        "a"
    } else if d == 11 {
        "b"
    } else if d == 12 {
        "c"
    } else if d == 13 {
        "d"
    } else if d == 14 {
        "e"
    } else {
        "f"
    };
    assert(text@ =~= seq![symbol(d as nat)]);
    text
}

/// The first text followed by the second.
pub fn joined(first: &str, second: &str) -> (text: String)
    ensures
        text@ == first@ + second@,
{
    String::from_str(first).concat(second)
}

/// Writes a number in decimal notation.
pub fn decimal(n: u64) -> (text: String)
    ensures
        text@ == digits(n as nat),
    decreases n,
{
    if n < 10 {
        String::from_str(symbol_text(n))
    } else {
        let front = decimal(n / 10);
        let text = front.concat(symbol_text(n % 10));
        assert(text@ =~= digits((n / 10) as nat).push(symbol((n % 10) as nat)));
        text
    }
}

/// Writes the `count` lowest hexadecimal digits of a number.
pub fn hexadecimal(n: u64, count: usize) -> (text: String)
    ensures
        text@ == hex(n as nat, count as nat),
    decreases count,
{
    if count == 0 {
        String::new()
    } else {
        let front = hexadecimal(n / 16, count - 1);
        let text = front.concat(symbol_text(n % 16));
        assert(text@ =~= hex((n / 16) as nat, (count - 1) as nat).push(symbol((n % 16) as nat)));
        text
    }
}

} // verus!
