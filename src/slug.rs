use crate::layout::{lemma_kinds_match, Layout, Rect};
use vstd::prelude::*;

verus! {

/// The decimal digit for `d`, which is below ten.
pub open spec fn digit_char(d: int) -> char {
    if d == 0 {
        '0'
    } else if d == 1 {
        '1'
    } else if d == 2 {
        '2'
    } else if d == 3 {
        '3'
    } else if d == 4 {
        '4'
    } else if d == 5 {
        '5'
    } else if d == 6 {
        '6'
    } else if d == 7 {
        '7'
    } else if d == 8 {
        '8'
    } else {
        '9'
    }
}

/// `n` in decimal, without leading zeros.
pub open spec fn nat_text(n: nat) -> Seq<char>
    decreases n,
{
    if n < 10 {
        seq![digit_char(n as int)]
    } else {
        nat_text(n / 10).push(digit_char((n % 10) as int))
    }
}

/// `v` in decimal, with a leading `-` where it is negative.
pub open spec fn int_text(v: int) -> Seq<char> {
    if v < 0 {
        seq!['-'] + nat_text((-v) as nat)
    } else {
        nat_text(v as nat)
    }
}

/// The token of one placed unit: its template identity, `@`, and its corner as `x,z`.
pub open spec fn unit_token(kind: usize, r: Rect) -> Seq<char> {
    nat_text(kind as nat) + seq!['@'] + int_text(r.x as int) + seq![','] + int_text(r.z as int)
}

/// The tokens of the first `n` units, in placement order, separated by `;`.
pub open spec fn slug_of(kinds: Seq<usize>, units: Seq<Rect>, n: nat) -> Seq<char>
    decreases n,
{
    if n == 0 {
        seq![]
    } else if n == 1 {
        unit_token(kinds[0], units[0])
    } else {
        slug_of(kinds, units, (n - 1) as nat) + seq![';'] + unit_token(kinds[n - 1], units[n - 1])
    }
}

fn digit(d: u128) -> (c: char)
    requires
        d < 10,
    ensures
        c == digit_char(d as int),
{
    if d == 0 {
        '0'
    } else if d == 1 {
        '1'
    } else if d == 2 {
        '2'
    } else if d == 3 {
        '3'
    } else if d == 4 {
        '4'
    } else if d == 5 {
        '5'
    } else if d == 6 {
        '6'
    } else if d == 7 {
        '7'
    } else if d == 8 {
        '8'
    } else {
        '9'
    }
}

/// Appends `n` in decimal.
fn push_nat(out: &mut Vec<char>, n: u128)
    ensures
        final(out)@ == old(out)@ + nat_text(n as nat),
    decreases n,
{
    if n >= 10 {
        push_nat(out, n / 10);
    }
    out.push(digit(n % 10));
    proof {
        if n < 10 {
            assert(n % 10 == n);
        }
        assert(final(out)@ =~= old(out)@ + nat_text(n as nat));
    }
}

/// Appends `v` in decimal, with a leading `-` where it is negative.
fn push_int(out: &mut Vec<char>, v: isize)
    ensures
        final(out)@ == old(out)@ + int_text(v as int),
{
    if v < 0 {
        out.push('-');
        push_nat(out, (-(v as i128)) as u128);
        assert(final(out)@ =~= old(out)@ + int_text(v as int));
    } else {
        push_nat(out, v as u128);
    }
}

/// Relies on `String::from_iter` over `char`s: the string holds those characters in order.
#[verifier::external_body]
fn string_of(chars: &Vec<char>) -> (s: String)
    ensures
        s@ == chars@,
{
    chars.iter().collect()
}

impl Layout {
    /// The layout's fingerprint: for each unit in placement order, its template identity,
    /// `@` and its corner as `x,z`, the units separated by `;`. Two layouts are taken to be
    /// the same exactly when their slugs are.
    pub fn slug(&self) -> (s: String)
        requires
            self.wf(),
        ensures
            s@ == slug_of(self@.kinds, self@.units, self@.units.len()),
    {
        proof {
            lemma_kinds_match(self);
        }
        let mut out: Vec<char> = Vec::new();
        let n = self.num_units();
        let mut i: usize = 0;
        while i < n
            invariant
                i <= n == self@.units.len() == self@.kinds.len(),
                self.wf(),
                out@ == slug_of(self@.kinds, self@.units, i as nat),
            decreases n - i,
        {
            let ghost before = out@;
            if i > 0 {
                out.push(';');
            }
            let r = self.unit(i);
            push_nat(&mut out, self.kind(i) as u128);
            out.push('@');
            push_int(&mut out, r.x);
            out.push(',');
            push_int(&mut out, r.z);
            assert(out@ =~= slug_of(self@.kinds, self@.units, (i + 1) as nat));
            i += 1;
        }
        string_of(&out)
    }
}

} // verus!
