//! Functions whose results are references tied to the lifetimes of their
//! arguments.
use vstd::prelude::*;

verus! {

/// Returns the argument whose UTF-8 encoding is longer; on a tie, the second.
pub fn longest<'a>(x: &'a str, y: &'a str) -> (r: &'a str)
    ensures
        r@ == (if x.len() > y.len() { x@ } else { y@ }),
{
    if x.len() > y.len() {
        x
    } else {
        y
    }
}

/// The value behind the reference that `coerce_static` returns.
pub const NUM: i32 = 18;

/// A reference to `NUM`, which lives as long as the program, handed out for
/// the lifetime of the argument.
pub fn coerce_static<'a>(_x: &'a i32) -> (r: &'a i32)
    ensures
        *r == NUM,
{
    &NUM
}

/// A string that lives as long as the program, handed out for a shorter
/// lifetime.
pub fn lifetime_shortener<'a>(s: &'static str) -> (r: &'a str)
    ensures
        r@ == s@,
{
    s
}

/// Borrows of a literal and of a local string, each with a lifetime of its
/// own; the named lifetime `'a` is fixed at each call site.
pub fn example<'a>(_a: &'a str, _b: &str) {
    let _s = "literal";
    let local = String::new();
    let _borrow = local.as_str();
    let _borrow: &str = local.as_str();
    let _borrow: &'_ str = local.as_str();
}

/// The owner at the root of a chain of borrowers.
pub struct First {}

/// A borrower of a `First`.
pub struct Second<'a> {
    pub owner: &'a First,
}

/// A borrower of the same `First` as the `Second` that made it.
pub struct Third<'a> {
    pub owner: &'a First,
}

impl First {
    pub fn new() -> First {
        First {}
    }

    /// A borrower of `self`.
    pub fn second(&self) -> (r: Second<'_>)
        ensures
            *r.owner == *self,
    {
        Second::new(self)
    }
}

impl<'a> Second<'a> {
    pub fn new(owner: &'a First) -> (r: Second<'a>)
        ensures
            *r.owner == *owner,
    {
        Second { owner }
    }

    /// A borrower of the owner of `self`, which may live only as long as
    /// `self` is borrowed.
    pub fn third(&self) -> (r: Third<'_>)
        ensures
            *r.owner == *self.owner,
    {
        Third::new(self.owner)
    }
}

impl<'a> Third<'a> {
    pub fn new(owner: &'a First) -> (r: Third<'a>)
        ensures
            *r.owner == *owner,
    {
        Third { owner }
    }
}

} // verus!
