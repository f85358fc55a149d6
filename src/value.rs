//! The element types that a tree can hold.
use vstd::prelude::*;

use crate::text::push_char;

verus! {

/// A value that a tree can hold: it is totally preordered, can be copied
/// out of the tree, and has a text form for the diagram.
pub trait TreeValue: Sized {
    /// `self` is ordered at or before `other`.
    spec fn spec_le(&self, other: &Self) -> bool;

    /// The text drawn for the value in a diagram.
    spec fn spec_text(&self) -> Seq<char>;

    proof fn lemma_le_total(a: &Self, b: &Self)
        ensures
            a.spec_le(b) || b.spec_le(a),
    ;

    proof fn lemma_le_transitive(a: &Self, b: &Self, c: &Self)
        requires
            a.spec_le(b),
            b.spec_le(c),
        ensures
            a.spec_le(c),
    ;

    fn is_le(&self, other: &Self) -> (r: bool)
        ensures
            r == self.spec_le(other),
    ;

    fn duplicate(&self) -> (r: Self)
        ensures
            r == *self,
    ;

    fn text(&self) -> (r: String)
        ensures
            r@ == self.spec_text(),
    ;
}

/// The digits, in order of value.
pub open spec fn digit_chars() -> Seq<char> {
    seq!['0', '1', '2', '3', '4', '5', '6', '7', '8', '9']
}

/// The decimal form of `n`, without leading zeros.
pub open spec fn decimal(n: nat) -> Seq<char>
    decreases n,
{
    if n < 10 {
        seq![digit_chars()[n as int]]
    } else {
        decimal(n / 10).push(digit_chars()[(n % 10) as int])
    }
}

/// The decimal form of `n`, with a minus sign where it is negative.
pub open spec fn signed_decimal(n: int) -> Seq<char> {
    if n < 0 {
        seq!['-'] + decimal((-n) as nat)
    } else {
        decimal(n as nat)
    }
}

/// Appends the decimal form of `n` to `out`.
pub fn push_decimal(out: &mut String, n: u64)
    ensures
        final(out)@ == old(out)@ + decimal(n as nat),
    decreases n,
{
    let digits: [char; 10] = ['0', '1', '2', '3', '4', '5', '6', '7', '8', '9'];
    assert(digits@ =~= digit_chars());
    if n >= 10 {
        push_decimal(out, n / 10);
    }
    push_char(out, digits[(n % 10) as usize]);
    assert(final(out)@ =~= old(out)@ + decimal(n as nat));
}

/// Appends the decimal form of `n`, with its sign, to `out`.
pub fn push_signed_decimal(out: &mut String, n: i64)
    ensures
        final(out)@ == old(out)@ + signed_decimal(n as int),
{
    if n < 0 {
        push_char(out, '-');
        let magnitude: u64 = (0 - (n as i128)) as u64;
        push_decimal(out, magnitude);
    } else {
        push_decimal(out, n as u64);
    }
    assert(final(out)@ =~= old(out)@ + signed_decimal(n as int));
}

impl TreeValue for u64 {
    open spec fn spec_le(&self, other: &u64) -> bool {
        *self <= *other
    }

    open spec fn spec_text(&self) -> Seq<char> {
        decimal(*self as nat)
    }

    proof fn lemma_le_total(a: &u64, b: &u64) {
    }

    proof fn lemma_le_transitive(a: &u64, b: &u64, c: &u64) {
    }

    fn is_le(&self, other: &u64) -> (r: bool) {
        *self <= *other
    }

    fn duplicate(&self) -> (r: u64) {
        *self
    }

    fn text(&self) -> (r: String) {
        let mut out = String::new();
        push_decimal(&mut out, *self);
        out
    }
}

impl TreeValue for u32 {
    open spec fn spec_le(&self, other: &u32) -> bool {
        *self <= *other
    }

    open spec fn spec_text(&self) -> Seq<char> {
        decimal(*self as nat)
    }

    proof fn lemma_le_total(a: &u32, b: &u32) {
    }

    proof fn lemma_le_transitive(a: &u32, b: &u32, c: &u32) {
    }

    fn is_le(&self, other: &u32) -> (r: bool) {
        *self <= *other
    }

    fn duplicate(&self) -> (r: u32) {
        *self
    }

    fn text(&self) -> (r: String) {
        let mut out = String::new();
        push_decimal(&mut out, *self as u64);
        out
    }
}

impl TreeValue for i64 {
    open spec fn spec_le(&self, other: &i64) -> bool {
        *self <= *other
    }

    open spec fn spec_text(&self) -> Seq<char> {
        signed_decimal(*self as int)
    }

    proof fn lemma_le_total(a: &i64, b: &i64) {
    }

    proof fn lemma_le_transitive(a: &i64, b: &i64, c: &i64) {
    }

    fn is_le(&self, other: &i64) -> (r: bool) {
        *self <= *other
    }

    fn duplicate(&self) -> (r: i64) {
        *self
    }

    fn text(&self) -> (r: String) {
        let mut out = String::new();
        push_signed_decimal(&mut out, *self);
        out
    }
}

impl TreeValue for i32 {
    open spec fn spec_le(&self, other: &i32) -> bool {
        *self <= *other
    }

    open spec fn spec_text(&self) -> Seq<char> {
        signed_decimal(*self as int)
    }

    proof fn lemma_le_total(a: &i32, b: &i32) {
    }

    proof fn lemma_le_transitive(a: &i32, b: &i32, c: &i32) {
    }

    fn is_le(&self, other: &i32) -> (r: bool) {
        *self <= *other
    }

    fn duplicate(&self) -> (r: i32) {
        *self
    }

    fn text(&self) -> (r: String) {
        let mut out = String::new();
        push_signed_decimal(&mut out, *self as i64);
        out
    }
}

} // verus!
