//! Helpers: reading one expression from text, joining expression lists,
//! decimal numerals and a generator of fresh names.
use vstd::prelude::*;
use crate::context::{SExpr, SExprModel, lemma_models, models};
use crate::parser::{parse, spec_parse};
use crate::text::push_char;
pub use crate::context::{nil, sym};

verus! {

/// Reads the first expression of the text `input`.
pub fn internal_parse_simple_expr(input: &str) -> (r: SExpr)
    requires
        spec_parse(input@) matches Some(es) && es.len() > 0,
    ensures
        r@ == spec_parse(input@)->0[0],
{
    match parse(input) {
        Some(es) => {
            proof {
                lemma_models(es@);
            }
            if es.len() > 0 {
                es[0].copy()
            } else {
                crate::context::nil()
            }
        },
        None => crate::context::nil(),
    }
}

/// Reads the first expression of the text `input`.
pub fn ipse(input: &str) -> (r: SExpr)
    requires
        spec_parse(input@) matches Some(es) && es.len() > 0,
    ensures
        r@ == spec_parse(input@)->0[0],
{
    internal_parse_simple_expr(input)
}

/// The expressions of `a` followed by those of `b`.
pub fn concat_vec(a: Vec<SExpr>, b: Vec<SExpr>) -> (r: Vec<SExpr>)
    ensures
        r@ == a@ + b@,
        models(r@) == models(a@) + models(b@),
{
    let mut a = a;
    let mut b = b;
    let ghost a0 = a@;
    let ghost b0 = b@;
    a.append(&mut b);
    proof {
        lemma_models(a@);
        lemma_models(a0);
        lemma_models(b0);
        assert(models(a@) =~= models(a0) + models(b0));
    }
    a
}

/// The character of a decimal digit.
pub open spec fn digit_char(d: nat) -> char {
    if d == 0 {
        '0'
    } else if d == 1 {
        '1'
    } else if d == 2 {
        '2'
    } else if d == 3 {
        '3'
    } else if d == 4 {
        '4'
    } else if d == 5 {
        '5'
    } else if d == 6 {
        '6'
    } else if d == 7 {
        '7'
    } else if d == 8 {
        '8'
    } else {
        '9'
    }
}

/// The decimal numeral of `n`, without leading zeros.
pub open spec fn decimal(n: nat) -> Seq<char>
    decreases n,
{
    if n < 10 {
        seq![digit_char(n)]
    } else {
        decimal(n / 10).push(digit_char(n % 10))
    }
}

/// The character of the digit `d`.
fn digit_to_char(d: u64) -> (c: char)
    requires
        d < 10,
    ensures
        c == digit_char(d as nat),
{
    if d == 0 {
        '0'
    } else if d == 1 {
        '1'
    } else if d == 2 {
        '2'
    } else if d == 3 {
        '3'
    } else if d == 4 {
        '4'
    } else if d == 5 {
        '5'
    } else if d == 6 {
        '6'
    } else if d == 7 {
        '7'
    } else if d == 8 {
        '8'
    } else {
        '9'
    }
}

/// Appends the decimal numeral of `n` to `out`.
pub fn push_decimal(out: &mut String, n: u64)
    ensures
        final(out)@ == old(out)@ + decimal(n as nat),
    decreases n,
{
    if n >= 10 {
        push_decimal(out, n / 10);
    }
    let ghost before = out@;
    push_char(out, digit_to_char(n % 10));
    proof {
        if n >= 10 {
            assert(before + seq![digit_char((n % 10) as nat)] =~= old(out)@ + decimal(n as nat));
        } else {
            assert(before =~= old(out)@);
            assert(out@ =~= old(out)@ + decimal(n as nat));
        }
    }
}

/// A generator of fresh names `unnamed-0`, `unnamed-1`, ...
#[derive(Debug)]
pub struct UniqueID {
    current: u32,
}

/// The name that a generator gives when its counter is `n`.
pub open spec fn unique_name(n: u32) -> Seq<char> {
    seq!['u', 'n', 'n', 'a', 'm', 'e', 'd', '-'] + decimal(n as nat)
}

/// The counter after `n`: one more, wrapping from the largest `u32` to 0.
pub open spec fn next_count(n: u32) -> u32 {
    if n == u32::MAX {
        0
    } else {
        (n + 1) as u32
    }
}

impl View for UniqueID {
    type V = u32;

    closed spec fn view(&self) -> u32 {
        self.current
    }
}

impl UniqueID {
    /// A generator whose first name is `unnamed-0`.
    pub fn new() -> (r: UniqueID)
        ensures
            r@ == 0,
    {
        UniqueID { current: 0 }
    }

    /// The next fresh name.
    pub fn next(&mut self) -> (r: String)
        ensures
            r@ == unique_name(old(self)@),
            final(self)@ == next_count(old(self)@),
    {
        let n = self.current;
        let mut s = String::new();
        push_char(&mut s, 'u');
        push_char(&mut s, 'n');
        push_char(&mut s, 'n');
        push_char(&mut s, 'a');
        push_char(&mut s, 'm');
        push_char(&mut s, 'e');
        push_char(&mut s, 'd');
        push_char(&mut s, '-');
        let ghost prefix = s@;
        assert(prefix =~= seq!['u', 'n', 'n', 'a', 'm', 'e', 'd', '-']);
        push_decimal(&mut s, n as u64);
        self.current = if n == u32::MAX {
            0
        } else {
            n + 1
        };
        s
    }
}

impl Default for UniqueID {
    /// A generator whose first name is `unnamed-0`.
    fn default() -> (r: UniqueID)
        ensures
            r@ == 0,
    {
        UniqueID::new()
    }
}

/// The next fresh label name from `labels`.
pub fn next_name(labels: &mut UniqueID) -> (r: String)
    ensures
        r@ == unique_name(old(labels)@),
        final(labels)@ == next_count(old(labels)@),
{
    labels.next()
}

} // verus!
