//! Parameter spaces: descriptors of the values an action or observation may
//! take, each able to draw a member at random and to test membership.

use crate::rng::RngStream;
use rand::distributions::{Distribution, Uniform};
use vstd::prelude::*;
use vstd::std_specs::cmp::PartialOrdIs;

verus! {

/// Relies on `rand::distributions::Uniform::<u32>::from(0..n)` and its
/// `sample`: a value drawn from `[0, n)`; `Uniform::new` panics when `n == 0`.
#[verifier::external_body]
fn draw_below(rng: &mut RngStream, n: u32) -> (r: u32)
    requires
        n > 0,
    ensures
        r < n,
{
    Uniform::from(0..n).sample(rng)
}

/// Relies on `rand::distributions::Uniform::<u8>::from(0..=1)` and its
/// `sample`: a value drawn from `{0, 1}`.
#[verifier::external_body]
fn draw_bit(rng: &mut RngStream) -> (r: u8)
    ensures
        r <= 1,
{
    Uniform::from(0u8..=1u8).sample(rng)
}

/// Relies on `rand::distributions::Uniform::<i32>::new_inclusive` and its
/// `sample`: a value drawn from `[low, high]`; it panics when `low > high`.
#[verifier::external_body]
fn draw_between(rng: &mut RngStream, low: i32, high: i32) -> (r: i32)
    requires
        low <= high,
    ensures
        low <= r <= high,
{
    Uniform::new_inclusive(low, high).sample(rng)
}

/// A space of values that can be sampled and tested for membership.
pub trait Space {
    type Element;

    /// Whether `elem` lies in the space.
    spec fn member(&self, elem: Self::Element) -> bool;

    /// Draws a member of the space from `rng`.
    fn sample(&self, rng: &mut RngStream) -> (r: Self::Element)
        ensures
            self.member(r),
    ;

    /// Whether `elem` lies in the space.
    fn contains(&self, elem: &Self::Element) -> (r: bool)
        ensures
            r == self.member(*elem),
    ;
}

/// The integers `0, 1, ..., n - 1`, for some `n > 0`.
#[derive(Debug, PartialEq, Eq)]
pub struct Discrete {
    n: u32,
}

impl View for Discrete {
    type V = u32;

    /// The number of values in the space.
    closed spec fn view(&self) -> u32 {
        self.n
    }
}

impl Discrete {
    #[verifier::type_invariant]
    spec fn inv(&self) -> bool {
        self.n > 0
    }

    /// The space of the `n` values `0..n`.
    pub fn new(n: u32) -> (r: Discrete)
        requires
            n > 0,
        ensures
            r@ == n,
    {
        Discrete { n }
    }

    /// The number of values in the space.
    pub fn n(&self) -> (r: u32)
        ensures
            r == self@,
            r > 0,
    {
        proof {
            use_type_invariant(self);
        }
        self.n
    }
}

impl Clone for Discrete {
    fn clone(&self) -> (r: Discrete)
        ensures
            r == *self,
    {
        proof {
            use_type_invariant(self);
        }
        Discrete { n: self.n }
    }
}

impl Space for Discrete {
    type Element = u32;

    open spec fn member(&self, elem: u32) -> bool {
        elem < self@
    }

    fn sample(&self, rng: &mut RngStream) -> (r: u32) {
        proof {
            use_type_invariant(self);
        }
        if self.n == 1 {
            0
        } else {
            draw_below(rng, self.n)
        }
    }

    fn contains(&self, elem: &u32) -> (r: bool) {
        *elem < self.n
    }
}

/// Whether every entry of `bits` is 0 or 1.
pub open spec fn all_bits(bits: Seq<u8>) -> bool {
    forall|i: int| 0 <= i < bits.len() ==> #[trigger] bits[i] == 0 || bits[i] == 1
}

/// Vectors of `n > 0` entries, each 0 or 1.
#[derive(Debug, PartialEq, Eq)]
pub struct MultiBinary {
    n: usize,
}

impl View for MultiBinary {
    type V = usize;

    /// The length of every member.
    closed spec fn view(&self) -> usize {
        self.n
    }
}

impl MultiBinary {
    #[verifier::type_invariant]
    spec fn inv(&self) -> bool {
        self.n > 0
    }

    /// The space of 0/1 vectors of length `n`.
    pub fn new(n: usize) -> (r: MultiBinary)
        requires
            n > 0,
        ensures
            r@ == n,
    {
        MultiBinary { n }
    }

    /// The length of every member.
    pub fn n(&self) -> (r: usize)
        ensures
            r == self@,
            r > 0,
    {
        proof {
            use_type_invariant(self);
        }
        self.n
    }
}

impl Clone for MultiBinary {
    fn clone(&self) -> (r: MultiBinary)
        ensures
            r == *self,
    {
        proof {
            use_type_invariant(self);
        }
        MultiBinary { n: self.n }
    }
}

impl Space for MultiBinary {
    type Element = Vec<u8>;

    open spec fn member(&self, elem: Vec<u8>) -> bool {
        elem@.len() == self@ && all_bits(elem@)
    }

    fn sample(&self, rng: &mut RngStream) -> (r: Vec<u8>) {
        let mut out: Vec<u8> = Vec::with_capacity(self.n);
        let mut i: usize = 0;
        while i < self.n
            invariant
                i <= self.n,
                out@.len() == i,
                all_bits(out@),
            decreases self.n - i,
        {
            let b = draw_bit(rng);
            out.push(b);
            i = i + 1;
        }
        out
    }

    fn contains(&self, elem: &Vec<u8>) -> (r: bool) {
        if elem.len() != self.n {
            return false;
        }
        let mut i: usize = 0;
        while i < elem.len()
            invariant
                i <= elem@.len(),
                all_bits(elem@.take(i as int)),
            decreases elem@.len() - i,
        {
            if elem[i] != 0 && elem[i] != 1 {
                return false;
            }
            assert(elem@.take(i + 1) == elem@.take(i as int).push(elem@[i as int]));
            i = i + 1;
        }
        assert(elem@.take(elem@.len() as int) == elem@);
        true
    }
}

/// Whether `values` has one entry per dimension of `nvec`, each below its bound.
pub open spec fn within_bounds(values: Seq<u32>, nvec: Seq<u32>) -> bool {
    &&& values.len() == nvec.len()
    &&& forall|i: int| 0 <= i < values.len() ==> #[trigger] values[i] < nvec[i]
}

/// Vectors with one integer per dimension, the `i`-th in `[0, nvec[i])`.
#[derive(Debug, PartialEq, Eq)]
pub struct MultiDiscrete {
    nvec: Vec<u32>,
}

impl View for MultiDiscrete {
    type V = Seq<u32>;

    /// The bound of each dimension.
    closed spec fn view(&self) -> Seq<u32> {
        self.nvec@
    }
}

/// Whether `nvec` describes a space: at least one dimension, each bound positive.
pub open spec fn valid_nvec(nvec: Seq<u32>) -> bool {
    &&& nvec.len() > 0
    &&& forall|i: int| 0 <= i < nvec.len() ==> #[trigger] nvec[i] > 0
}

impl MultiDiscrete {
    #[verifier::type_invariant]
    spec fn inv(&self) -> bool {
        valid_nvec(self.nvec@)
    }

    /// The space with bounds `nvec`.
    pub fn new(nvec: Vec<u32>) -> (r: MultiDiscrete)
        requires
            valid_nvec(nvec@),
        ensures
            r@ == nvec@,
    {
        MultiDiscrete { nvec }
    }

    /// The bound of each dimension.
    pub fn nvec(&self) -> (r: &[u32])
        ensures
            r@ == self@,
            valid_nvec(r@),
    {
        proof {
            use_type_invariant(self);
        }
        self.nvec.as_slice()
    }

    /// The number of dimensions.
    pub fn ndim(&self) -> (r: usize)
        ensures
            r == self@.len(),
            r > 0,
    {
        proof {
            use_type_invariant(self);
        }
        self.nvec.len()
    }
}

impl Clone for MultiDiscrete {
    fn clone(&self) -> (r: MultiDiscrete)
        ensures
            r@ == self@,
    {
        proof {
            use_type_invariant(self);
        }
        let mut nvec: Vec<u32> = Vec::with_capacity(self.nvec.len());
        let mut i: usize = 0;
        while i < self.nvec.len()
            invariant
                i <= self.nvec@.len(),
                nvec@ == self.nvec@.take(i as int),
            decreases self.nvec@.len() - i,
        {
            nvec.push(self.nvec[i]);
            assert(self.nvec@.take(i + 1) == self.nvec@.take(i as int).push(self.nvec@[i as int]));
            i = i + 1;
        }
        assert(self.nvec@.take(self.nvec@.len() as int) == self.nvec@);
        MultiDiscrete { nvec }
    }
}

impl Space for MultiDiscrete {
    type Element = Vec<u32>;

    open spec fn member(&self, elem: Vec<u32>) -> bool {
        within_bounds(elem@, self@)
    }

    fn sample(&self, rng: &mut RngStream) -> (r: Vec<u32>) {
        proof {
            use_type_invariant(self);
        }
        let mut out: Vec<u32> = Vec::with_capacity(self.nvec.len());
        let mut i: usize = 0;
        while i < self.nvec.len()
            invariant
                i <= self.nvec@.len(),
                valid_nvec(self.nvec@),
                within_bounds(out@, self.nvec@.take(i as int)),
            decreases self.nvec@.len() - i,
        {
            let n = self.nvec[i];
            let v: u32 = if n == 1 {
                0
            } else {
                draw_below(rng, n)
            };
            out.push(v);
            assert(self.nvec@.take(i + 1) == self.nvec@.take(i as int).push(n));
            i = i + 1;
        }
        assert(self.nvec@.take(self.nvec@.len() as int) == self.nvec@);
        out
    }

    fn contains(&self, elem: &Vec<u32>) -> (r: bool) {
        if elem.len() != self.nvec.len() {
            return false;
        }
        let mut i: usize = 0;
        while i < elem.len()
            invariant
                i <= elem@.len(),
                elem@.len() == self.nvec@.len(),
                within_bounds(elem@.take(i as int), self.nvec@.take(i as int)),
            decreases elem@.len() - i,
        {
            if elem[i] >= self.nvec[i] {
                return false;
            }
            assert(elem@.take(i + 1) == elem@.take(i as int).push(elem@[i as int]));
            assert(self.nvec@.take(i + 1) == self.nvec@.take(i as int).push(self.nvec@[i as int]));
            i = i + 1;
        }
        assert(elem@.take(elem@.len() as int) == elem@);
        assert(self.nvec@.take(self.nvec@.len() as int) == self.nvec@);
        true
    }
}

/// Whether `low[i] <= high[i]` holds in every dimension.
pub open spec fn ordered_bounds<T: PartialOrd>(low: Seq<T>, high: Seq<T>) -> bool {
    forall|i: int| 0 <= i < low.len() ==> (#[trigger] low[i]).is_le(&high[i])
}

/// Vectors of `N` coordinates, the `i`-th within the closed interval
/// `[low[i], high[i]]`.
#[derive(Debug, PartialEq)]
pub struct BoxSpace<T: Copy + PartialOrd, const N: usize> {
    low: [T; N],
    high: [T; N],
}

impl<T: Copy + PartialOrd, const N: usize> View for BoxSpace<T, N> {
    type V = (Seq<T>, Seq<T>);

    /// The lower and the upper bounds.
    closed spec fn view(&self) -> (Seq<T>, Seq<T>) {
        (self.low@, self.high@)
    }
}

impl<T: Copy + PartialOrd, const N: usize> BoxSpace<T, N> {
    #[verifier::type_invariant]
    spec fn inv(&self) -> bool {
        ordered_bounds(self.low@, self.high@)
    }

    /// The box with bounds `low` and `high`.
    pub fn new(low: [T; N], high: [T; N]) -> (r: BoxSpace<T, N>)
        requires
            ordered_bounds(low@, high@),
        ensures
            r@ == (low@, high@),
    {
        BoxSpace { low, high }
    }

    /// The lower bound of each coordinate.
    pub fn low(&self) -> (r: &[T; N])
        ensures
            r@ == self@.0,
    {
        &self.low
    }

    /// The upper bound of each coordinate.
    pub fn high(&self) -> (r: &[T; N])
        ensures
            r@ == self@.1,
    {
        &self.high
    }
}

impl<T: Copy + PartialOrd, const N: usize> Clone for BoxSpace<T, N> {
    fn clone(&self) -> (r: BoxSpace<T, N>)
        ensures
            r == *self,
    {
        proof {
            use_type_invariant(self);
        }
        BoxSpace { low: self.low, high: self.high }
    }
}

/// Whether every coordinate of `elem` lies between its bounds.
pub open spec fn within_box(elem: Seq<i32>, low: Seq<i32>, high: Seq<i32>) -> bool {
    &&& elem.len() == low.len()
    &&& forall|i: int| 0 <= i < elem.len() ==> low[i] <= #[trigger] elem[i] <= high[i]
}

impl<const N: usize> Space for BoxSpace<i32, N> {
    type Element = [i32; N];

    open spec fn member(&self, elem: [i32; N]) -> bool {
        within_box(elem@, self@.0, self@.1)
    }

    fn sample(&self, rng: &mut RngStream) -> (r: [i32; N]) {
        proof {
            use_type_invariant(self);
        }
        let mut out: [i32; N] = self.low;
        let mut i: usize = 0;
        while i < N
            invariant
                i <= N,
                out@.len() == N,
                self.low@.len() == N,
                self.high@.len() == N,
                ordered_bounds(self.low@, self.high@),
                forall|j: int| 0 <= j < i ==> self.low@[j] <= #[trigger] out@[j] <= self.high@[j],
            decreases N - i,
        {
            assert(self.low@[i as int].is_le(&self.high@[i as int]));
            let v = draw_between(rng, self.low[i], self.high[i]);
            out[i] = v;
            i = i + 1;
        }
        out
    }

    fn contains(&self, elem: &[i32; N]) -> (r: bool) {
        let mut i: usize = 0;
        while i < N
            invariant
                i <= N,
                elem@.len() == N,
                self.low@.len() == N,
                self.high@.len() == N,
                forall|j: int| 0 <= j < i ==> self.low@[j] <= #[trigger] elem@[j] <= self.high@[j],
            decreases N - i,
        {
            if elem[i] < self.low[i] || elem[i] > self.high[i] {
                return false;
            }
            i = i + 1;
        }
        true
    }
}

/// The error of converting an array of the wrong length into a box point.
#[derive(Debug, Clone, Copy, PartialEq, Eq)]
pub struct NdarrayShapeError;

/// An index at or above `n` is not in `Discrete(n)`.
pub proof fn lemma_discrete_rejects(space: Discrete, v: u32)
    requires
        v >= space@,
    ensures
        !space.member(v),
{
}

/// A vector of the wrong length, or with an entry other than 0 and 1, is
/// not in a `MultiBinary` space.
pub proof fn lemma_multi_binary_rejects(space: MultiBinary, v: Vec<u8>)
    requires
        v@.len() != space@ || exists|i: int| 0 <= i < v@.len() && #[trigger] v@[i] > 1,
    ensures
        !space.member(v),
{
}

/// A vector of the wrong length, or with an entry at or above its
/// dimension's bound, is not in a `MultiDiscrete` space.
pub proof fn lemma_multi_discrete_rejects(space: MultiDiscrete, v: Vec<u32>)
    requires
        v@.len() != space@.len() || exists|i: int| 0 <= i < v@.len() && #[trigger] v@[i] >= space@[i],
    ensures
        !space.member(v),
{
}

/// A point with a coordinate outside its bounds is not in the box.
pub proof fn lemma_box_rejects<const N: usize>(space: BoxSpace<i32, N>, v: [i32; N])
    requires
        exists|i: int| 0 <= i < N && (#[trigger] v@[i] < space@.0[i] || v@[i] > space@.1[i]),
    ensures
        !space.member(v),
{
}

} // verus!
