//! Equality and ordering: the `Eq` and `Ord` traits, their implementations for
//! the primitive types, and `max` / `min`.
use vstd::prelude::*;

verus! {

/// The outcome of comparing two values.
#[derive(Clone, Copy, Debug, PartialEq, Eq, Structural)]
pub enum Comparison {
    Less,
    Equal,
    Greater,
}

/// Equality test. `eq` decides whether the two values are the same value;
/// `ne` is its negation.
pub trait Eq: Sized {
    fn eq(&self, other: &Self) -> (r: bool)
        ensures
            r <==> *self == *other,
    ;

    fn ne(&self, other: &Self) -> (r: bool)
        ensures
            r <==> *self != *other,
    {
        !self.eq(other)
    }
}

/// Strict total order. `before` is the mathematical relation that `lt`
/// decides; an implementation proves that it is irreflexive, transitive and
/// total.
pub trait Ord: Eq {
    /// The strict order: `self` comes before `other`.
    spec fn before(&self, other: &Self) -> bool;

    /// No value comes before itself.
    proof fn lemma_irreflexive(a: Self)
        ensures
            !a.before(&a),
    ;

    /// The order is transitive.
    proof fn lemma_transitive(a: Self, b: Self, c: Self)
        ensures
            a.before(&b) && b.before(&c) ==> a.before(&c),
    ;

    /// Two different values are ordered one way or the other.
    proof fn lemma_total(a: Self, b: Self)
        ensures
            a.before(&b) || b.before(&a) || a == b,
    ;

    fn lt(&self, other: &Self) -> (r: bool)
        ensures
            r == self.before(other),
    ;

    fn le(&self, other: &Self) -> (r: bool)
        ensures
            r == !other.before(self),
    {
        !other.lt(self)
    }

    fn gt(&self, other: &Self) -> (r: bool)
        ensures
            r == other.before(self),
    {
        other.lt(self)
    }

    fn ge(&self, other: &Self) -> (r: bool)
        ensures
            r == !self.before(other),
    {
        !self.lt(other)
    }

    /// Three-way comparison.
    fn cmp(&self, other: &Self) -> (r: Comparison)
        ensures
            r == (if self.before(other) {
                Comparison::Less
            } else if other.before(self) {
                Comparison::Greater
            } else {
                Comparison::Equal
            }),
    {
        if self.lt(other) {
            Comparison::Less
        } else if other.lt(self) {
            Comparison::Greater
        } else {
            Comparison::Equal
        }
    }
}

/// The three-way comparison of `a` with `b` under the order of `T`.
pub open spec fn three_way<T: Ord>(a: T, b: T) -> Comparison {
    if a.before(&b) {
        Comparison::Less
    } else if b.before(&a) {
        Comparison::Greater
    } else {
        Comparison::Equal
    }
}

/// Compares `a` with `b`.
pub fn compare<T: Ord>(a: &T, b: &T) -> (r: Comparison)
    ensures
        r == three_way(*a, *b),
{
    a.cmp(b)
}

/// `a` is not before `b`: `a` is at least `b`.
pub open spec fn at_least<T: Ord>(a: T, b: T) -> bool {
    !a.before(&b)
}

/// Where neither of two values is before the other, they are the same value.
pub proof fn lemma_three_way_equal<T: Ord>(a: T, b: T)
    ensures
        three_way(a, b) == Comparison::Equal <==> a == b,
{
    T::lemma_total(a, b);
    T::lemma_irreflexive(a);
}

/// `at_least` is transitive.
pub proof fn lemma_at_least_transitive<T: Ord>(a: T, b: T, c: T)
    requires
        at_least(a, b),
        at_least(b, c),
    ensures
        at_least(a, c),
{
    T::lemma_total(a, b);
    T::lemma_total(b, c);
    T::lemma_transitive(b, a, c);
    T::lemma_transitive(a, c, b);
}

/// The larger of two values; `x` where neither is before the other.
pub open spec fn max_of<T: Ord>(x: T, y: T) -> T {
    if x.before(&y) { y } else { x }
}

/// The smaller of two values; `y` where neither is before the other.
pub open spec fn min_of<T: Ord>(x: T, y: T) -> T {
    if x.before(&y) { x } else { y }
}

/// Returns the larger of `x` and `y`.
pub fn max<T: Ord>(x: T, y: T) -> (r: T)
    ensures
        r == max_of(x, y),
{
    if x.lt(&y) { y } else { x }
}

/// Returns the smaller of `x` and `y`.
pub fn min<T: Ord>(x: T, y: T) -> (r: T)
    ensures
        r == min_of(x, y),
{
    if x.lt(&y) { x } else { y }
}

/// `max_of` is an upper bound of both arguments and is one of them.
pub proof fn lemma_max_is_upper_bound<T: Ord>(x: T, y: T)
    ensures
        at_least(max_of(x, y), x),
        at_least(max_of(x, y), y),
        max_of(x, y) == x || max_of(x, y) == y,
{
    T::lemma_irreflexive(x);
    T::lemma_irreflexive(y);
    T::lemma_total(x, y);
    T::lemma_transitive(x, y, x);
}

/// `min_of` is a lower bound of both arguments and is one of them.
pub proof fn lemma_min_is_lower_bound<T: Ord>(x: T, y: T)
    ensures
        at_least(x, min_of(x, y)),
        at_least(y, min_of(x, y)),
        min_of(x, y) == x || min_of(x, y) == y,
{
    T::lemma_irreflexive(x);
    T::lemma_irreflexive(y);
    T::lemma_total(x, y);
    T::lemma_transitive(x, y, x);
}

impl Eq for isize {
    fn eq(&self, other: &isize) -> (r: bool) {
        *self == *other
    }

    fn ne(&self, other: &isize) -> (r: bool) {
        *self != *other
    }
}

impl Ord for isize {
    open spec fn before(&self, other: &isize) -> bool {
        *self < *other
    }

    proof fn lemma_irreflexive(a: isize) {
    }

    proof fn lemma_transitive(a: isize, b: isize, c: isize) {
    }

    proof fn lemma_total(a: isize, b: isize) {
    }

    fn lt(&self, other: &isize) -> (r: bool) {
        *self < *other
    }

    fn le(&self, other: &isize) -> (r: bool) {
        *self <= *other
    }

    fn gt(&self, other: &isize) -> (r: bool) {
        *self > *other
    }

    fn ge(&self, other: &isize) -> (r: bool) {
        *self >= *other
    }
}

impl Eq for i8 {
    fn eq(&self, other: &i8) -> (r: bool) {
        *self == *other
    }

    fn ne(&self, other: &i8) -> (r: bool) {
        *self != *other
    }
}

impl Ord for i8 {
    open spec fn before(&self, other: &i8) -> bool {
        *self < *other
    }

    proof fn lemma_irreflexive(a: i8) {
    }

    proof fn lemma_transitive(a: i8, b: i8, c: i8) {
    }

    proof fn lemma_total(a: i8, b: i8) {
    }

    fn lt(&self, other: &i8) -> (r: bool) {
        *self < *other
    }

    fn le(&self, other: &i8) -> (r: bool) {
        *self <= *other
    }

    fn gt(&self, other: &i8) -> (r: bool) {
        *self > *other
    }

    fn ge(&self, other: &i8) -> (r: bool) {
        *self >= *other
    }
}

impl Eq for i16 {
    fn eq(&self, other: &i16) -> (r: bool) {
        *self == *other
    }

    fn ne(&self, other: &i16) -> (r: bool) {
        *self != *other
    }
}

impl Ord for i16 {
    open spec fn before(&self, other: &i16) -> bool {
        *self < *other
    }

    proof fn lemma_irreflexive(a: i16) {
    }

    proof fn lemma_transitive(a: i16, b: i16, c: i16) {
    }

    proof fn lemma_total(a: i16, b: i16) {
    }

    fn lt(&self, other: &i16) -> (r: bool) {
        *self < *other
    }

    fn le(&self, other: &i16) -> (r: bool) {
        *self <= *other
    }

    fn gt(&self, other: &i16) -> (r: bool) {
        *self > *other
    }

    fn ge(&self, other: &i16) -> (r: bool) {
        *self >= *other
    }
}

impl Eq for i32 {
    fn eq(&self, other: &i32) -> (r: bool) {
        *self == *other
    }

    fn ne(&self, other: &i32) -> (r: bool) {
        *self != *other
    }
}

impl Ord for i32 {
    open spec fn before(&self, other: &i32) -> bool {
        *self < *other
    }

    proof fn lemma_irreflexive(a: i32) {
    }

    proof fn lemma_transitive(a: i32, b: i32, c: i32) {
    }

    proof fn lemma_total(a: i32, b: i32) {
    }

    fn lt(&self, other: &i32) -> (r: bool) {
        *self < *other
    }

    fn le(&self, other: &i32) -> (r: bool) {
        *self <= *other
    }

    fn gt(&self, other: &i32) -> (r: bool) {
        *self > *other
    }

    fn ge(&self, other: &i32) -> (r: bool) {
        *self >= *other
    }
}

impl Eq for i64 {
    fn eq(&self, other: &i64) -> (r: bool) {
        *self == *other
    }

    fn ne(&self, other: &i64) -> (r: bool) {
        *self != *other
    }
}

impl Ord for i64 {
    open spec fn before(&self, other: &i64) -> bool {
        *self < *other
    }

    proof fn lemma_irreflexive(a: i64) {
    }

    proof fn lemma_transitive(a: i64, b: i64, c: i64) {
    }

    proof fn lemma_total(a: i64, b: i64) {
    }

    fn lt(&self, other: &i64) -> (r: bool) {
        *self < *other
    }

    fn le(&self, other: &i64) -> (r: bool) {
        *self <= *other
    }

    fn gt(&self, other: &i64) -> (r: bool) {
        *self > *other
    }

    fn ge(&self, other: &i64) -> (r: bool) {
        *self >= *other
    }
}

impl Eq for usize {
    fn eq(&self, other: &usize) -> (r: bool) {
        *self == *other
    }

    fn ne(&self, other: &usize) -> (r: bool) {
        *self != *other
    }
}

impl Ord for usize {
    open spec fn before(&self, other: &usize) -> bool {
        *self < *other
    }

    proof fn lemma_irreflexive(a: usize) {
    }

    proof fn lemma_transitive(a: usize, b: usize, c: usize) {
    }

    proof fn lemma_total(a: usize, b: usize) {
    }

    fn lt(&self, other: &usize) -> (r: bool) {
        *self < *other
    }

    fn le(&self, other: &usize) -> (r: bool) {
        *self <= *other
    }

    fn gt(&self, other: &usize) -> (r: bool) {
        *self > *other
    }

    fn ge(&self, other: &usize) -> (r: bool) {
        *self >= *other
    }
}

impl Eq for u8 {
    fn eq(&self, other: &u8) -> (r: bool) {
        *self == *other
    }

    fn ne(&self, other: &u8) -> (r: bool) {
        *self != *other
    }
}

impl Ord for u8 {
    open spec fn before(&self, other: &u8) -> bool {
        *self < *other
    }

    proof fn lemma_irreflexive(a: u8) {
    }

    proof fn lemma_transitive(a: u8, b: u8, c: u8) {
    }

    proof fn lemma_total(a: u8, b: u8) {
    }

    fn lt(&self, other: &u8) -> (r: bool) {
        *self < *other
    }

    fn le(&self, other: &u8) -> (r: bool) {
        *self <= *other
    }

    fn gt(&self, other: &u8) -> (r: bool) {
        *self > *other
    }

    fn ge(&self, other: &u8) -> (r: bool) {
        *self >= *other
    }
}

impl Eq for u16 {
    fn eq(&self, other: &u16) -> (r: bool) {
        *self == *other
    }

    fn ne(&self, other: &u16) -> (r: bool) {
        *self != *other
    }
}

impl Ord for u16 {
    open spec fn before(&self, other: &u16) -> bool {
        *self < *other
    }

    proof fn lemma_irreflexive(a: u16) {
    }

    proof fn lemma_transitive(a: u16, b: u16, c: u16) {
    }

    proof fn lemma_total(a: u16, b: u16) {
    }

    fn lt(&self, other: &u16) -> (r: bool) {
        *self < *other
    }

    fn le(&self, other: &u16) -> (r: bool) {
        *self <= *other
    }

    fn gt(&self, other: &u16) -> (r: bool) {
        *self > *other
    }

    fn ge(&self, other: &u16) -> (r: bool) {
        *self >= *other
    }
}

impl Eq for u32 {
    fn eq(&self, other: &u32) -> (r: bool) {
        *self == *other
    }

    fn ne(&self, other: &u32) -> (r: bool) {
        *self != *other
    }
}

impl Ord for u32 {
    open spec fn before(&self, other: &u32) -> bool {
        *self < *other
    }

    proof fn lemma_irreflexive(a: u32) {
    }

    proof fn lemma_transitive(a: u32, b: u32, c: u32) {
    }

    proof fn lemma_total(a: u32, b: u32) {
    }

    fn lt(&self, other: &u32) -> (r: bool) {
        *self < *other
    }

    fn le(&self, other: &u32) -> (r: bool) {
        *self <= *other
    }

    fn gt(&self, other: &u32) -> (r: bool) {
        *self > *other
    }

    fn ge(&self, other: &u32) -> (r: bool) {
        *self >= *other
    }
}

impl Eq for u64 {
    fn eq(&self, other: &u64) -> (r: bool) {
        *self == *other
    }

    fn ne(&self, other: &u64) -> (r: bool) {
        *self != *other
    }
}

impl Ord for u64 {
    open spec fn before(&self, other: &u64) -> bool {
        *self < *other
    }

    proof fn lemma_irreflexive(a: u64) {
    }

    proof fn lemma_transitive(a: u64, b: u64, c: u64) {
    }

    proof fn lemma_total(a: u64, b: u64) {
    }

    fn lt(&self, other: &u64) -> (r: bool) {
        *self < *other
    }

    fn le(&self, other: &u64) -> (r: bool) {
        *self <= *other
    }

    fn gt(&self, other: &u64) -> (r: bool) {
        *self > *other
    }

    fn ge(&self, other: &u64) -> (r: bool) {
        *self >= *other
    }
}

impl Eq for () {
    fn eq(&self, other: &()) -> (r: bool) {
        true
    }

    fn ne(&self, other: &()) -> (r: bool) {
        false
    }
}

impl Ord for () {
    open spec fn before(&self, other: &()) -> bool {
        false
    }

    proof fn lemma_irreflexive(a: ()) {
    }

    proof fn lemma_transitive(a: (), b: (), c: ()) {
    }

    proof fn lemma_total(a: (), b: ()) {
    }

    fn lt(&self, other: &()) -> (r: bool) {
        false
    }
}

impl Eq for bool {
    fn eq(&self, other: &bool) -> (r: bool) {
        *self == *other
    }

    fn ne(&self, other: &bool) -> (r: bool) {
        *self != *other
    }
}

impl Ord for bool {
    open spec fn before(&self, other: &bool) -> bool {
        !*self && *other
    }

    proof fn lemma_irreflexive(a: bool) {
    }

    proof fn lemma_transitive(a: bool, b: bool, c: bool) {
    }

    proof fn lemma_total(a: bool, b: bool) {
    }

    fn lt(&self, other: &bool) -> (r: bool) {
        !*self && *other
    }
}

impl Eq for char {
    fn eq(&self, other: &char) -> (r: bool) {
        *self == *other
    }

    fn ne(&self, other: &char) -> (r: bool) {
        *self != *other
    }
}

/// The order of the characters: by code point.
pub open spec fn char_before(a: char, b: char) -> bool {
    (a as int) < (b as int)
}

/// Two different characters have different code points.
proof fn lemma_char_total(a: char, b: char)
    ensures
        char_before(a, b) || char_before(b, a) || a == b,
{
    assert((a as int) as char == a);
    assert((b as int) as char == b);
}

/// Compares two characters by code point.
fn char_lt(a: char, b: char) -> (r: bool)
    ensures
        r == char_before(a, b),
{
    (a as u32) < (b as u32)
}

impl Ord for char {
    open spec fn before(&self, other: &char) -> bool {
        char_before(*self, *other)
    }

    proof fn lemma_irreflexive(a: char) {
    }

    proof fn lemma_transitive(a: char, b: char, c: char) {
    }

    proof fn lemma_total(a: char, b: char) {
        lemma_char_total(a, b);
    }

    fn lt(&self, other: &char) -> (r: bool) {
        char_lt(*self, *other)
    }
}

} // verus!
