//! Decimal rendering of unsigned integers and joining of tokens, used by the
//! display forms of items, stacks and inventories.

use vstd::prelude::*;
use vstd::string::StringExecFns;

verus! {

/// The character for one decimal digit.
pub open spec fn digit_char(d: int) -> char {
    if d == 0 {
        '0'
    } else if d == 1 {
        '1'
    } else if d == 2 {
        '2'
    } else if d == 3 {
        '3'
    } else if d == 4 {
        '4'
    } else if d == 5 {
        '5'
    } else if d == 6 {
        '6'
    } else if d == 7 {
        '7'
    } else if d == 8 {
        '8'
    } else {
        '9'
    }
}

/// The decimal rendering of a natural number, most significant digit first,
/// with no leading zeros (a lone zero renders as "0").
pub open spec fn dec_digits(n: nat) -> Seq<char>
    decreases n,
{
    if n < 10 {
        seq![digit_char(n as int)]
    } else {
        dec_digits(n / 10).push(digit_char((n % 10) as int))
    }
}

/// A sequence right-justified in a field of width two: a single character
/// gets one leading space; anything longer is unchanged.
pub open spec fn pad2(s: Seq<char>) -> Seq<char> {
    if s.len() >= 2 {
        s
    } else {
        seq![' '] + s
    }
}

/// Tokens joined with a single space between consecutive tokens.
pub open spec fn join_spec(ts: Seq<Seq<char>>) -> Seq<char>
    decreases ts.len(),
{
    if ts.len() == 0 {
        Seq::empty()
    } else if ts.len() == 1 {
        ts[0]
    } else {
        join_spec(ts.drop_last()) + seq![' '] + ts.last()
    }
}

fn digit_str(d: u64) -> (r: &'static str)
    requires
        d < 10,
    ensures
        r@ == seq![digit_char(d as int)],
{
    let r: &'static str = match d {
        0 => "0",
        1 => "1",
        2 => "2",
        3 => "3",
        4 => "4",
        5 => "5",
        6 => "6",
        7 => "7",
        8 => "8",
        _ => "9",
    };
    proof {
        reveal_strlit("0");
        reveal_strlit("1");
        reveal_strlit("2");
        reveal_strlit("3");
        reveal_strlit("4");
        reveal_strlit("5");
        reveal_strlit("6");
        reveal_strlit("7");
        reveal_strlit("8");
        reveal_strlit("9");
        assert(r@ =~= seq![digit_char(d as int)]);
    }
    r
}

/// Renders a number in decimal.
pub fn u64_string(n: u64) -> (r: String)
    ensures
        r@ == dec_digits(n as nat),
    decreases n,
{
    if n < 10 {
        String::from_str(digit_str(n))
    } else {
        let mut s = u64_string(n / 10);
        s.append(digit_str(n % 10));
        proof {
            assert(s@ =~= dec_digits(n as nat));
        }
        s
    }
}

/// Renders a number in decimal, right-justified in a field of width two.
pub fn u64_string_width2(n: u64) -> (r: String)
    ensures
        r@ == pad2(dec_digits(n as nat)),
{
    let s = u64_string(n);
    if s.as_str().unicode_len() < 2 {
        let mut r = String::from_str(" ");
        r.append(s.as_str());
        proof {
            reveal_strlit(" ");
            assert(r@ =~= pad2(dec_digits(n as nat)));
        }
        r
    } else {
        s
    }
}

/// Joins the tokens from the given position on, with a single space between
/// consecutive tokens.
pub fn join_tokens_from(ts: &Vec<String>, start: usize) -> (r: String)
    requires
        start <= ts@.len(),
    ensures
        r@ == join_spec(ts.deep_view().skip(start as int)),
{
    let ghost sub = ts.deep_view().skip(start as int);
    let mut r = String::new();
    let mut i: usize = start;
    while i < ts.len()
        invariant
            start <= i <= ts@.len(),
            sub == ts.deep_view().skip(start as int),
            r@ == join_spec(sub.take(i - start)),
        decreases ts@.len() - i,
    {
        if i > start {
            r.append(" ");
        }
        r.append(ts[i].as_str());
        proof {
            reveal_strlit(" ");
            assert(sub.take(i - start + 1).drop_last() =~= sub.take(i - start));
            assert(sub.take(i - start + 1).last() == ts.deep_view()[i as int]);
            assert(r@ =~= join_spec(sub.take(i - start + 1)));
        }
        i = i + 1;
    }
    proof {
        assert(sub.take(ts@.len() - start) =~= sub);
    }
    r
}

/// Joins tokens with a single space between consecutive tokens.
pub fn join_tokens(ts: &Vec<String>) -> (r: String)
    ensures
        r@ == join_spec(ts.deep_view()),
{
    let r = join_tokens_from(ts, 0);
    proof {
        assert(ts.deep_view().skip(0) =~= ts.deep_view());
    }
    r
}

} // verus!
