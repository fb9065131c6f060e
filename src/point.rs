use crate::slug::int_text;
use itertools::Itertools;
use vstd::prelude::*;

verus! {

/// A fixed-arity tuple of coordinates.
#[derive(Clone, Copy, Debug)]
pub struct Point<const N: usize, T>(pub [T; N]);

impl<const N: usize, T> Point<N, T> {
    /// The coordinates as a sequence.
    pub open spec fn coords(&self) -> Seq<T> {
        self.0@
    }

    /// Exchanges the coordinates on axes `d1` and `d2`.
    pub fn swap(&mut self, d1: usize, d2: usize)
        where T: Copy,
        requires
            d1 < N,
            d2 < N,
        ensures
            final(self).coords() == old(self).coords().update(d1 as int, old(self).coords()[d2 as int]).update(
                d2 as int,
                old(self).coords()[d1 as int],
            ),
    {
        let a = self.0[d1];
        let b = self.0[d2];
        self.0[d1] = b;
        self.0[d2] = a;
    }
}


/// Whether `v` is representable as an `i64`.
pub open spec fn in_i64(v: int) -> bool {
    i64::MIN <= v <= i64::MAX
}

/// The absolute value of `a`.
pub open spec fn abs(a: int) -> int {
    if a >= 0 {
        a
    } else {
        -a
    }
}

/// Division rounding toward zero, as integer division does at run time.
pub open spec fn trunc_div(a: int, b: int) -> int {
    let q = abs(a) / abs(b);
    if (a >= 0) == (b > 0) {
        q
    } else {
        -q
    }
}

/// Whether `a / b` is defined on `i64`: a nonzero divisor and no overflow.
pub open spec fn div_ok(a: i64, b: i64) -> bool {
    b != 0 && !(a == i64::MIN && b == -1)
}

/// `a / b`, rounded toward zero.
fn quotient(a: i64, b: i64) -> (r: i64)
    requires
        div_ok(a, b),
    ensures
        r == trunc_div(a as int, b as int),
{
    let x: u64 = if a >= 0 { a as u64 } else { (-(a as i128)) as u64 };
    let y: u64 = if b >= 0 { b as u64 } else { (-(b as i128)) as u64 };
    let q: u64 = x / y;
    assert(q <= x && (y >= 2 ==> 2 * q <= x)) by (nonlinear_arith)
        requires
            q == x / y,
            y >= 1,
    ;
    if (a >= 0) == (b > 0) {
        q as i64
    } else {
        -(q as i128) as i64
    }
}

/// The sum of the squared coordinate differences of `a` and `b` over the first `n` axes.
pub open spec fn sq_sum(a: Seq<i64>, b: Seq<i64>, n: nat) -> int
    decreases n,
{
    if n == 0 {
        0
    } else {
        let d = a[n - 1] - b[n - 1];
        sq_sum(a, b, (n - 1) as nat) + d * d
    }
}

/// The coordinates `c` in decimal, separated by a comma and a space.
pub open spec fn comma_list(c: Seq<i64>) -> Seq<char>
    decreases c.len(),
{
    if c.len() == 0 {
        seq![]
    } else if c.len() == 1 {
        int_text(c[0] as int)
    } else {
        comma_list(c.drop_last()) + seq![',', ' '] + int_text(c.last() as int)
    }
}

/// Relies on itertools' `Itertools::join`: each item written with `Display` (plain decimal
/// for `i64`), with the separator between items.
#[verifier::external_body]
fn join_coords(c: &[i64]) -> (r: String)
    ensures
        r@ == comma_list(c@),
{
    c.iter().join(", ")
}

/// Partial sums of squares never decrease as axes are added.
pub proof fn lemma_sq_sum_monotone(a: Seq<i64>, b: Seq<i64>, m: nat, n: nat)
    requires
        m <= n,
    ensures
        sq_sum(a, b, m) <= sq_sum(a, b, n),
    decreases n,
{
    if m < n {
        lemma_sq_sum_monotone(a, b, m, (n - 1) as nat);
        let d = a[n - 1] - b[n - 1];
        assert(d * d >= 0) by (nonlinear_arith);
    }
}

impl<const N: usize, T> Point<N, T> {
    /// The coordinate on axis `i`.
    pub fn get(&self, i: usize) -> (r: &T)
        requires
            i < N,
        ensures
            *r == self.coords()[i as int],
    {
        &self.0[i]
    }

    /// Replaces the coordinate on axis `i` with `v`.
    pub fn set(&mut self, i: usize, v: T)
        requires
            i < N,
        ensures
            final(self).coords() == old(self).coords().update(i as int, v),
    {
        self.0[i] = v;
    }
}

impl Point<2, i64> {
    /// The vector turned a quarter turn: `(x, y)` becomes `(-y, x)`.
    pub fn perpendicular(&self) -> (r: Self)
        requires
            self.coords()[1] != i64::MIN,
        ensures
            r.coords()[0] == -self.coords()[1],
            r.coords()[1] == self.coords()[0],
    {
        Point([-self.0[1], self.0[0]])
    }
}

/// Projects a three-dimensional point onto the horizontal plane by dropping its height
/// (the second coordinate).
impl<T: Copy> From<Point<3, T>> for Point<2, T> {
    fn from(value: Point<3, T>) -> (r: Self) {
        Point([value.0[0], value.0[2]])
    }
}

impl<T: Copy> vstd::std_specs::convert::FromSpecImpl<Point<3, T>> for Point<2, T> {
    open spec fn obeys_from_spec() -> bool {
        true
    }

    open spec fn from_spec(v: Point<3, T>) -> Point<2, T> {
        Point([v.0@[0], v.0@[2]])
    }
}

/// The origin.
impl<const N: usize> Default for Point<N, i64> {
    fn default() -> (r: Self)
        ensures
            forall|i: int| 0 <= i < N ==> r.coords()[i] == 0,
    {
        Point([0i64; N])
    }
}

impl<const N: usize> Point<N, i64> {
    /// The squared Euclidean distance to `other`.
    pub fn dist_sq(&self, other: &Self) -> (r: u128)
        requires
            sq_sum(self.coords(), other.coords(), N as nat) <= u128::MAX,
        ensures
            r == sq_sum(self.coords(), other.coords(), N as nat),
    {
        let mut sum: u128 = 0;
        let mut i: usize = 0;
        while i < N
            invariant
                i <= N,
                sq_sum(self.coords(), other.coords(), N as nat) <= u128::MAX,
                sum == sq_sum(self.coords(), other.coords(), i as nat),
            decreases N - i,
        {
            let d: i128 = self.0[i] as i128 - other.0[i] as i128;
            let m: u128 = if d >= 0 { d as u128 } else { (-d) as u128 };
            assert(m * m == d * d && m * m <= u128::MAX) by (nonlinear_arith)
                requires
                    m == d || m == -d,
                    0 <= m < 0x1_0000_0000_0000_0000,
            ;
            proof {
                lemma_sq_sum_monotone(self.coords(), other.coords(), (i + 1) as nat, N as nat);
            }
            sum = sum + m * m;
            i += 1;
        }
        sum
    }

    /// The point as text, such as `(3, -4)`.
    pub fn to_text(&self) -> (r: String)
        ensures
            r@ == seq!['('] + comma_list(self.coords()) + seq![')'],
    {
        let joined = join_coords(self.0.as_slice());
        let mut r = String::from_str("(");
        r.append(joined.as_str());
        r.append(")");
        proof {
            reveal_strlit("(");
            reveal_strlit(")");
            assert(r@ =~= seq!['('] + comma_list(self.coords()) + seq![')']);
        }
        r
    }

    /// Adds `rhs` to this point, coordinate by coordinate.
    pub fn add_assign(&mut self, rhs: &Self)
        requires
            forall|i: int| 0 <= i < N ==> in_i64(old(self).coords()[i] + rhs.coords()[i]),
        ensures
            forall|i: int|
                0 <= i < N ==> final(self).coords()[i] == old(self).coords()[i] + rhs.coords()[i],
    {
        *self = self.add(rhs);
    }

    /// Coordinate-wise sum.
    pub fn add(&self, rhs: &Self) -> (r: Self)
        requires
            forall|i: int| 0 <= i < N ==> in_i64(self.coords()[i] + rhs.coords()[i]),
        ensures
            forall|i: int| 0 <= i < N ==> r.coords()[i] == self.coords()[i] + rhs.coords()[i],
    {
        let mut out = Point(self.0);
        let mut i: usize = 0;
        while i < N
            invariant
                i <= N,
                forall|j: int| 0 <= j < N ==> #[trigger] in_i64(self.coords()[j] + rhs.coords()[j]),
                forall|j: int| 0 <= j < i ==> out.coords()[j] == self.coords()[j] + rhs.coords()[j],
            decreases N - i,
        {
            assert(in_i64(self.coords()[i as int] + rhs.coords()[i as int]));
            let v = self.0[i] + rhs.0[i];
            let ghost before = out.coords();
            out.0[i] = v;
            assert(out.coords() == before.update(i as int, v));
            i += 1;
        }
        out
    }

    /// Coordinate-wise difference.
    pub fn sub(&self, rhs: &Self) -> (r: Self)
        requires
            forall|i: int| 0 <= i < N ==> in_i64(self.coords()[i] - rhs.coords()[i]),
        ensures
            forall|i: int| 0 <= i < N ==> r.coords()[i] == self.coords()[i] - rhs.coords()[i],
    {
        let mut out = Point(self.0);
        let mut i: usize = 0;
        while i < N
            invariant
                i <= N,
                forall|j: int| 0 <= j < N ==> #[trigger] in_i64(self.coords()[j] - rhs.coords()[j]),
                forall|j: int| 0 <= j < i ==> out.coords()[j] == self.coords()[j] - rhs.coords()[j],
            decreases N - i,
        {
            assert(in_i64(self.coords()[i as int] - rhs.coords()[i as int]));
            let v = self.0[i] - rhs.0[i];
            let ghost before = out.coords();
            out.0[i] = v;
            assert(out.coords() == before.update(i as int, v));
            i += 1;
        }
        out
    }

    /// Subtracts `rhs` from every coordinate.
    pub fn sub_scalar(&self, rhs: i64) -> (r: Self)
        requires
            forall|i: int| 0 <= i < N ==> in_i64(self.coords()[i] - rhs),
        ensures
            forall|i: int| 0 <= i < N ==> r.coords()[i] == self.coords()[i] - rhs,
    {
        let mut out = Point(self.0);
        let mut i: usize = 0;
        while i < N
            invariant
                i <= N,
                forall|j: int| 0 <= j < N ==> #[trigger] in_i64(self.coords()[j] - rhs),
                forall|j: int| 0 <= j < i ==> out.coords()[j] == self.coords()[j] - rhs,
            decreases N - i,
        {
            assert(in_i64(self.coords()[i as int] - rhs));
            let v = self.0[i] - rhs;
            let ghost before = out.coords();
            out.0[i] = v;
            assert(out.coords() == before.update(i as int, v));
            i += 1;
        }
        out
    }

    /// Coordinate-wise product.
    pub fn mul(&self, rhs: &Self) -> (r: Self)
        requires
            forall|i: int| 0 <= i < N ==> in_i64(self.coords()[i] * rhs.coords()[i]),
        ensures
            forall|i: int| 0 <= i < N ==> r.coords()[i] == self.coords()[i] * rhs.coords()[i],
    {
        let mut out = Point(self.0);
        let mut i: usize = 0;
        while i < N
            invariant
                i <= N,
                forall|j: int| 0 <= j < N ==> #[trigger] in_i64(self.coords()[j] * rhs.coords()[j]),
                forall|j: int| 0 <= j < i ==> out.coords()[j] == self.coords()[j] * rhs.coords()[j],
            decreases N - i,
        {
            assert(in_i64(self.coords()[i as int] * rhs.coords()[i as int]));
            let v = self.0[i] * rhs.0[i];
            let ghost before = out.coords();
            out.0[i] = v;
            assert(out.coords() == before.update(i as int, v));
            i += 1;
        }
        out
    }

    /// Multiplies every coordinate by `rhs`.
    pub fn mul_scalar(&self, rhs: i64) -> (r: Self)
        requires
            forall|i: int| 0 <= i < N ==> in_i64(self.coords()[i] * rhs),
        ensures
            forall|i: int| 0 <= i < N ==> r.coords()[i] == self.coords()[i] * rhs,
    {
        let mut out = Point(self.0);
        let mut i: usize = 0;
        while i < N
            invariant
                i <= N,
                forall|j: int| 0 <= j < N ==> #[trigger] in_i64(self.coords()[j] * rhs),
                forall|j: int| 0 <= j < i ==> out.coords()[j] == self.coords()[j] * rhs,
            decreases N - i,
        {
            assert(in_i64(self.coords()[i as int] * rhs));
            let v = self.0[i] * rhs;
            let ghost before = out.coords();
            out.0[i] = v;
            assert(out.coords() == before.update(i as int, v));
            i += 1;
        }
        out
    }

    /// Coordinate-wise quotient, rounded toward zero.
    pub fn div(&self, rhs: &Self) -> (r: Self)
        requires
            forall|i: int| 0 <= i < N ==> div_ok(self.coords()[i], rhs.coords()[i]),
        ensures
            forall|i: int| 0 <= i < N ==> r.coords()[i] == trunc_div(self.coords()[i] as int, rhs.coords()[i] as int),
    {
        let mut out = Point(self.0);
        let mut i: usize = 0;
        while i < N
            invariant
                i <= N,
                forall|j: int| 0 <= j < N ==> #[trigger] div_ok(self.coords()[j], rhs.coords()[j]),
                forall|j: int| 0 <= j < i ==> out.coords()[j] == trunc_div(self.coords()[j] as int, rhs.coords()[j] as int),
            decreases N - i,
        {
            assert(div_ok(self.coords()[i as int], rhs.coords()[i as int]));
            let v = quotient(self.0[i], rhs.0[i]);
            let ghost before = out.coords();
            out.0[i] = v;
            assert(out.coords() == before.update(i as int, v));
            i += 1;
        }
        out
    }

    /// Divides every coordinate by `rhs`, rounding toward zero.
    pub fn div_scalar(&self, rhs: i64) -> (r: Self)
        requires
            forall|i: int| 0 <= i < N ==> div_ok(self.coords()[i], rhs),
        ensures
            forall|i: int| 0 <= i < N ==> r.coords()[i] == trunc_div(self.coords()[i] as int, rhs as int),
    {
        let mut out = Point(self.0);
        let mut i: usize = 0;
        while i < N
            invariant
                i <= N,
                forall|j: int| 0 <= j < N ==> #[trigger] div_ok(self.coords()[j], rhs),
                forall|j: int| 0 <= j < i ==> out.coords()[j] == trunc_div(self.coords()[j] as int, rhs as int),
            decreases N - i,
        {
            assert(div_ok(self.coords()[i as int], rhs));
            let v = quotient(self.0[i], rhs);
            let ghost before = out.coords();
            out.0[i] = v;
            assert(out.coords() == before.update(i as int, v));
            i += 1;
        }
        out
    }
}

} // verus!
