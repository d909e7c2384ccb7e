//! The integer sequences by which mirrors are ordered.
use vstd::prelude::*;

use crate::float::{total_key, FloatBits};
use crate::mirror::Protocol;

verus! {

/// An unsigned count as a one-element key.
pub open spec fn u32_key(x: u32) -> Seq<int> {
    seq![x as int]
}

/// A flag as a one-element key: `false` before `true`.
pub open spec fn flag_key(b: bool) -> Seq<int> {
    seq![if b { 1int } else { 0int }]
}

/// A binary64 value as a one-element key in totalOrder.
pub open spec fn float_key(x: FloatBits) -> Seq<int> {
    seq![total_key(x.bits)]
}

/// A protocol as a one-element key in declaration order.
pub open spec fn protocol_key(p: Protocol) -> Seq<int> {
    seq![p.rank()]
}

/// A `usize` as a mathematical integer.
pub open spec fn int_of(n: usize) -> int {
    n as int
}

/// The length of a sequence as a mathematical integer.
pub open spec fn length<T>(s: Seq<T>) -> int {
    s.len() as int
}

} // verus!
