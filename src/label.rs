use vstd::prelude::*;

use crate::operation::{magnitude, Operation};

verus! {

/// The character of the decimal digit `d`.
pub open spec fn digit_char(d: nat) -> char {
    ((d + 48) as u8) as char
}

/// The decimal digits of `n`, most significant first.
pub open spec fn decimal(n: nat) -> Seq<char>
    decreases n,
{
    if n < 10 {
        seq![digit_char(n)]
    } else {
        decimal(n / 10).push(digit_char(n % 10))
    }
}

/// How an integer is written: a minus sign where it is negative, then its digits.
pub open spec fn signed_decimal(v: int) -> Seq<char> {
    if v < 0 {
        seq!['-'] + decimal((-v) as nat)
    } else {
        decimal(v as nat)
    }
}

/// The label that names an operation, such as `Add(5)` or `Remove`.
pub open spec fn label(op: Operation) -> Seq<char> {
    match op {
        Operation::Add(a) => seq!['A', 'd', 'd', '('] + signed_decimal(a as int) + seq![')'],
        Operation::Mul(a) => seq!['M', 'u', 'l', 't', 'i', 'p', 'l', 'y', '('] + signed_decimal(
            a as int,
        ) + seq![')'],
        Operation::Div(a) => seq!['D', 'i', 'v', 'i', 'd', 'e', '('] + signed_decimal(a as int)
            + seq![')'],
        Operation::Insert(a) => seq!['I', 'n', 's', 'e', 'r', 't', '('] + signed_decimal(
            a as int,
        ) + seq![')'],
        Operation::Rem => seq!['R', 'e', 'm', 'o', 'v', 'e'],
    }
}

fn push_decimal(out: &mut Vec<char>, n: u64)
    ensures
        final(out)@ == old(out)@ + decimal(n as nat),
    decreases n,
{
    if n >= 10 {
        push_decimal(out, n / 10);
    }
    let d: u64 = n % 10;
    let c = ((d as u8) + 48u8) as char;
    proof {
        assert(old(out)@ + decimal(n as nat) =~= if n >= 10 {
            old(out)@ + decimal((n / 10) as nat) + seq![digit_char(d as nat)]
        } else {
            old(out)@ + seq![digit_char(d as nat)]
        });
    }
    out.push(c);
}

fn push_all(out: &mut Vec<char>, s: &[char])
    ensures
        final(out)@ == old(out)@ + s@,
{
    let mut i: usize = 0;
    while i < s.len()
        invariant
            i <= s@.len(),
            out@ == old(out)@ + s@.take(i as int),
        decreases s@.len() - i,
    {
        out.push(s[i]);
        proof {
            assert(s@.take(i + 1) =~= s@.take(i as int).push(s@[i as int]));
        }
        i = i + 1;
    }
    proof {
        assert(s@.take(i as int) =~= s@);
    }
}

fn push_signed(out: &mut Vec<char>, v: i64)
    ensures
        final(out)@ == old(out)@ + signed_decimal(v as int),
{
    if v < 0 {
        out.push('-');
    }
    push_decimal(out, magnitude(v));
    proof {
        if v < 0 {
            assert(old(out)@ + signed_decimal(v as int) =~= old(out)@.push('-') + decimal(
                (-v) as nat,
            ));
        }
    }
}

/// Relies on `String`'s `FromIterator<char>`: the string of those characters, in order.
#[verifier::external_body]
fn string_of(chars: Vec<char>) -> (r: String)
    ensures
        r@ == chars@,
{
    chars.into_iter().collect()
}

/// The label of an operation, for display.
pub fn node_to_string(node: &Operation) -> (r: String)
    ensures
        r@ == label(*node),
{
    let mut out: Vec<char> = Vec::new();
    match node {
        Operation::Add(a) => {
            push_all(&mut out, &['A', 'd', 'd', '(']);
            push_signed(&mut out, *a);
            out.push(')');
        },
        Operation::Mul(a) => {
            push_all(&mut out, &['M', 'u', 'l', 't', 'i', 'p', 'l', 'y', '(']);
            push_signed(&mut out, *a);
            out.push(')');
        },
        Operation::Div(a) => {
            push_all(&mut out, &['D', 'i', 'v', 'i', 'd', 'e', '(']);
            push_signed(&mut out, *a);
            out.push(')');
        },
        Operation::Insert(a) => {
            push_all(&mut out, &['I', 'n', 's', 'e', 'r', 't', '(']);
            push_decimal(&mut out, *a);
            out.push(')');
        },
        Operation::Rem => {
            push_all(&mut out, &['R', 'e', 'm', 'o', 'v', 'e']);
        },
    }
    proof {
        assert(out@ =~= label(*node));
    }
    string_of(out)
}

} // verus!
