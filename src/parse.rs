use vstd::prelude::*;

use crate::operation::Operation;
use vstd::std_specs::iter::IteratorSpec;

verus! {

pub open spec fn is_digit(c: char) -> bool {
    '0' <= c <= '9'
}

pub open spec fn all_digits(s: Seq<char>) -> bool {
    forall|k: int| 0 <= k < s.len() ==> is_digit(#[trigger] s[k])
}

/// The number that the decimal digits `s` write.
pub open spec fn digits_value(s: Seq<char>) -> int
    decreases s.len(),
{
    if s.len() == 0 {
        0
    } else {
        10 * digits_value(s.drop_last()) + (s.last() as int - '0' as int)
    }
}

/// One or more decimal digits and nothing else.
pub open spec fn unsigned_text(s: Seq<char>) -> Option<int> {
    if s.len() > 0 && all_digits(s) {
        Some(digits_value(s))
    } else {
        None
    }
}

/// An optional sign followed by one or more decimal digits; a minus sign only
/// where `signed` holds.
pub open spec fn integer_text(s: Seq<char>, signed: bool) -> Option<int> {
    if s.len() > 0 && s[0] == '+' {
        unsigned_text(s.drop_first())
    } else if signed && s.len() > 0 && s[0] == '-' {
        match unsigned_text(s.drop_first()) {
            Some(v) => Some(-v),
            None => None,
        }
    } else {
        unsigned_text(s)
    }
}

/// The `i64` that `s` writes, if it writes one in range.
pub open spec fn i64_text(s: Seq<char>) -> Option<i64> {
    match integer_text(s, true) {
        Some(v) => if i64::MIN <= v <= i64::MAX {
            Some(v as i64)
        } else {
            None
        },
        None => None,
    }
}

/// The `usize` that `s` writes, if it writes one in range.
pub open spec fn usize_text(s: Seq<char>) -> Option<usize> {
    match integer_text(s, false) {
        Some(v) => if 0 <= v <= usize::MAX {
            Some(v as usize)
        } else {
            None
        },
        None => None,
    }
}

proof fn lemma_digits_grow(s: Seq<char>, i: int)
    requires
        0 <= i <= s.len(),
        all_digits(s),
    ensures
        0 <= digits_value(s.take(i)) <= digits_value(s),
    decreases s.len(),
{
    if i == s.len() {
        assert(s.take(i) =~= s);
        lemma_digits_nonneg(s);
    } else {
        let d = s.drop_last();
        assert(all_digits(d)) by {
            assert forall|k: int| 0 <= k < d.len() implies is_digit(#[trigger] d[k]) by {
                assert(d[k] == s[k]);
            }
        }
        lemma_digits_grow(d, i);
        assert(d.take(i) =~= s.take(i));
        lemma_digits_nonneg(d);
        assert(is_digit(s[s.len() - 1]));
    }
}

proof fn lemma_digits_nonneg(s: Seq<char>)
    requires
        all_digits(s),
    ensures
        digits_value(s) >= 0,
    decreases s.len(),
{
    if s.len() > 0 {
        let d = s.drop_last();
        assert forall|k: int| 0 <= k < d.len() implies is_digit(#[trigger] d[k]) by {
            assert(d[k] == s[k]);
        }
        lemma_digits_nonneg(d);
        assert(is_digit(s[s.len() - 1]));
    }
}

/// Reads the digits of `s` from position `from` to the end. `None` where they
/// are not one or more digits, or write a number above `u64::MAX`.
fn parse_magnitude(s: &Vec<char>, from: usize) -> (r: Option<u64>)
    requires
        from <= s@.len(),
    ensures
        match r {
            Some(v) => unsigned_text(s@.skip(from as int)) == Some(v as int),
            None => unsigned_text(s@.skip(from as int)) matches Some(v) ==> v > u64::MAX,
        },
{
    let ghost t = s@.skip(from as int);
    if from == s.len() {
        return None;
    }
    let mut acc: u64 = 0;
    let mut i: usize = from;
    while i < s.len()
        invariant
            from <= i <= s@.len(),
            t == s@.skip(from as int),
            all_digits(t.take(i - from)),
            acc == digits_value(t.take(i - from)),
        decreases s@.len() - i,
    {
        let c = s[i];
        let ghost j = i - from;
        if !('0' <= c && c <= '9') {
            proof {
                assert(!is_digit(t[j]));
            }
            return None;
        }
        proof {
            assert(t.take(j + 1).drop_last() =~= t.take(j));
            assert forall|k: int| 0 <= k < j + 1 implies is_digit(#[trigger] t.take(j + 1)[k]) by {
                if k < j {
                    assert(t.take(j + 1)[k] == t.take(j)[k]);
                }
            }
        }
        let d: u64 = (c as u32 - '0' as u32) as u64;
        if acc > (u64::MAX - d) / 10 {
            proof {
                if all_digits(t) {
                    lemma_digits_grow(t, j + 1);
                }
            }
            return None;
        }
        acc = acc * 10 + d;
        i = i + 1;
    }
    proof {
        assert(t.take(i - from) =~= t);
    }
    Some(acc)
}

/// Reads a signed 64-bit integer as `str::parse` does: an optional sign, then
/// one or more decimal digits, with the value in range.
pub fn parse_i64(s: &Vec<char>) -> (r: Option<i64>)
    ensures
        r == i64_text(s@),
{
    let negative = s.len() > 0 && s[0] == '-';
    let from: usize = if s.len() > 0 && (s[0] == '+' || s[0] == '-') {
        1
    } else {
        0
    };
    proof {
        assert(s@.skip(1) =~= s@.drop_first());
        assert(s@.skip(0) =~= s@);
    }
    match parse_magnitude(s, from) {
        None => None,
        Some(m) => {
            if negative {
                if m <= 0x8000_0000_0000_0000 {
                    Some((0 - (m as i128)) as i64)
                } else {
                    None
                }
            } else if m <= i64::MAX as u64 {
                Some(m as i64)
            } else {
                None
            }
        },
    }
}

/// Reads an unsigned machine-word integer as `str::parse` does: an optional
/// plus sign, then one or more decimal digits, with the value in range.
pub fn parse_usize(s: &Vec<char>) -> (r: Option<usize>)
    ensures
        r == usize_text(s@),
{
    let from: usize = if s.len() > 0 && s[0] == '+' {
        1
    } else {
        0
    };
    proof {
        assert(s@.skip(1) =~= s@.drop_first());
        assert(s@.skip(0) =~= s@);
    }
    match parse_magnitude(s, from) {
        None => None,
        Some(m) => {
            if m as u128 <= usize::MAX as u128 {
                Some(m as usize)
            } else {
                None
            }
        },
    }
}

/// The operation that the tag `tag` with parameter text `text` stands for: `a`,
/// `m`, `d` and `i` take an integer (`d` a non-zero one, `i` a non-negative one),
/// `r` takes none and ignores its text.
pub open spec fn operation_of(tag: char, text: Seq<char>) -> Option<Operation> {
    if tag == 'r' {
        Some(Operation::Rem)
    } else {
        match i64_text(text) {
            None => None,
            Some(v) => if tag == 'a' {
                Some(Operation::Add(v))
            } else if tag == 'm' {
                Some(Operation::Mul(v))
            } else if tag == 'd' {
                if v == 0 {
                    None
                } else {
                    Some(Operation::Div(v))
                }
            } else if tag == 'i' {
                if v < 0 {
                    None
                } else {
                    Some(Operation::Insert(v as u64))
                }
            } else {
                None
            },
        }
    }
}

/// Turns one tag and the text that follows it into an operation.
pub fn char_to_operation(c: char, n: &Vec<char>) -> (r: Option<Operation>)
    ensures
        r == operation_of(c, n@),
{
    if c == 'r' {
        return Some(Operation::Rem);
    }
    let num = match parse_i64(n) {
        Some(v) => v,
        None => {
            return None;
        },
    };
    if c == 'a' {
        Some(Operation::Add(num))
    } else if c == 'm' {
        Some(Operation::Mul(num))
    } else if c == 'd' {
        if num == 0 {
            None
        } else {
            Some(Operation::Div(num))
        }
    } else if c == 'i' {
        if num < 0 {
            None
        } else {
            Some(Operation::Insert(num as u64))
        }
    } else {
        None
    }
}

pub open spec fn append_op(done: Option<Seq<Operation>>, op: Option<Operation>) -> Option<
    Seq<Operation>,
> {
    match (done, op) {
        (Some(d), Some(o)) => Some(d.push(o)),
        _ => None,
    }
}

/// The state after reading the first `n` characters: the operations completed so
/// far (`None` once one was malformed), the tag being read, and the text since.
/// `letters[k]` tells whether `chars[k]` is a letter. A letter closes the pending
/// tag and opens a new one; any other character joins the text. Characters before
/// the first letter join the text of the first tag.
pub open spec fn scan(chars: Seq<char>, letters: Seq<bool>, n: nat) -> (
    Option<Seq<Operation>>,
    Option<char>,
    Seq<char>,
)
    decreases n,
{
    if n == 0 {
        (Some(Seq::empty()), None, Seq::empty())
    } else {
        let (done, tag, text) = scan(chars, letters, (n - 1) as nat);
        let c = chars[n - 1];
        if letters[n - 1] {
            match tag {
                None => (done, Some(c), text),
                Some(t) => (append_op(done, operation_of(t, text)), Some(c), Seq::empty()),
            }
        } else {
            (done, tag, text.push(c))
        }
    }
}

/// The operations that `chars` spell, given which of them are letters.
pub open spec fn parsed(chars: Seq<char>, letters: Seq<bool>) -> Option<Seq<Operation>> {
    let (done, tag, text) = scan(chars, letters, chars.len());
    match tag {
        None => done,
        Some(t) => append_op(done, operation_of(t, text)),
    }
}

proof fn lemma_failure_stays(chars: Seq<char>, letters: Seq<bool>, n: nat, m: nat)
    requires
        n <= m <= chars.len(),
        scan(chars, letters, n).0 is None,
    ensures
        scan(chars, letters, m).0 is None,
    decreases m - n,
{
    if n < m {
        lemma_failure_stays(chars, letters, (n + 1) as nat, m);
    }
}

/// Reads an operation list, where `letters[k]` tells whether `chars[k]` is a
/// letter.
pub fn parse_classified(chars: &Vec<char>, letters: &Vec<bool>) -> (r: Option<Vec<Operation>>)
    requires
        letters@.len() == chars@.len(),
    ensures
        r is Some <==> parsed(chars@, letters@) is Some,
        r is Some ==> parsed(chars@, letters@) == Some(r->0@),
{
    let mut result: Vec<Operation> = Vec::new();
    let mut operation: Option<char> = None;
    let mut num: Vec<char> = Vec::new();
    let mut i: usize = 0;
    while i < chars.len()
        invariant
            i <= chars@.len(),
            letters@.len() == chars@.len(),
            scan(chars@, letters@, i as nat) == (Some(result@), operation, num@),
        decreases chars@.len() - i,
    {
        let c = chars[i];
        if letters[i] {
            if let Some(t) = operation {
                match char_to_operation(t, &num) {
                    Some(op) => {
                        result.push(op);
                    },
                    None => {
                        proof {
                            lemma_failure_stays(chars@, letters@, (i + 1) as nat, chars@.len());
                        }
                        return None;
                    },
                }
                num = Vec::new();
            }
            operation = Some(c);
        } else {
            num.push(c);
        }
        i = i + 1;
    }
    if let Some(t) = operation {
        match char_to_operation(t, &num) {
            Some(op) => {
                result.push(op);
            },
            None => {
                return None;
            },
        }
    }
    Some(result)
}

/// Whether a character is a letter, in the sense of Unicode's Alphabetic property.
pub uninterp spec fn alphabetic(c: char) -> bool;

/// Relies on `char::is_alphabetic`: whether `c` has the Alphabetic property.
#[verifier::external_body]
fn is_letter(c: char) -> (r: bool)
    ensures
        r == alphabetic(c),
{
    c.is_alphabetic()
}

/// The characters of `s`, in order.
pub fn chars_of(s: &str) -> (r: Vec<char>)
    ensures
        r@ == s@,
{
    let mut out: Vec<char> = Vec::new();
    let mut it = s.chars();
    let ghost whole = it.remaining();
    loop
        invariant
            whole == s@,
            out@ + it.remaining() == s@,
            it.obeys_prophetic_iter_laws(),
        decreases s@.len() - out@.len(),
    {
        match it.next() {
            Some(c) => {
                proof {
                    assert(out@.push(c) + it.remaining() =~= s@);
                }
                out.push(c);
            },
            None => {
                proof {
                    assert(out@ =~= s@);
                }
                return out;
            },
        }
    }
}

/// Which characters of `s` are letters.
pub open spec fn letters_of(s: Seq<char>) -> Seq<bool> {
    s.map_values(|c: char| alphabetic(c))
}

/// Reads an operation list such as `a5m2r`: each letter is a tag, and the text up
/// to the next letter is its parameter.
pub fn parse_operations(input: &str) -> (r: Option<Vec<Operation>>)
    ensures
        r is Some <==> parsed(input@, letters_of(input@)) is Some,
        r is Some ==> parsed(input@, letters_of(input@)) == Some(r->0@),
{
    let chars = chars_of(input);
    let mut letters: Vec<bool> = Vec::new();
    let mut i: usize = 0;
    while i < chars.len()
        invariant
            i <= chars@.len(),
            chars@ == input@,
            letters@ == letters_of(input@).take(i as int),
        decreases chars@.len() - i,
    {
        let l = is_letter(chars[i]);
        letters.push(l);
        proof {
            assert(letters@ =~= letters_of(input@).take(i + 1));
        }
        i = i + 1;
    }
    proof {
        assert(letters@ =~= letters_of(input@));
    }
    parse_classified(&chars, &letters)
}

/// What the command line holds: an operation list, a start value, an end value
/// and a step ceiling, as arguments one to four (argument zero is the program).
pub open spec fn arguments_text(args: Seq<Seq<char>>) -> Option<(Seq<Operation>, i64, i64, usize)> {
    match (parsed(args[1], letters_of(args[1])), i64_text(args[2]), i64_text(args[3]), usize_text(args[4])) {
        (Some(ops), Some(start), Some(end), Some(max_steps)) => Some((ops, start, end, max_steps)),
        _ => None,
    }
}

/// Reads the operation list, start, end and step ceiling from the arguments.
pub fn parse_arguments(args: Vec<String>) -> (r: Option<(Vec<Operation>, i64, i64, usize)>)
    requires
        args@.len() >= 5,
    ensures
        r is Some <==> arguments_text(args@.map_values(|a: String| a@)) is Some,
        r matches Some((ops, start, end, max_steps)) ==> arguments_text(
            args@.map_values(|a: String| a@),
        ) == Some((ops@, start, end, max_steps)),
{
    let ghost texts = args@.map_values(|a: String| a@);
    assert(texts[1] == args@[1]@ && texts[2] == args@[2]@);
    assert(texts[3] == args@[3]@ && texts[4] == args@[4]@);
    let ops = match parse_operations(args[1].as_str()) {
        Some(o) => o,
        None => {
            return None;
        },
    };
    let start = match parse_i64(&chars_of(args[2].as_str())) {
        Some(v) => v,
        None => {
            return None;
        },
    };
    let end = match parse_i64(&chars_of(args[3].as_str())) {
        Some(v) => v,
        None => {
            return None;
        },
    };
    let max_steps = match parse_usize(&chars_of(args[4].as_str())) {
        Some(v) => v,
        None => {
            return None;
        },
    };
    Some((ops, start, end, max_steps))
}

} // verus!
