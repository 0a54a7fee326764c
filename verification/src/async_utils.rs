//! How the results of concurrently awaited boolean futures combine.
//!
//! Awaiting and polling stay with the caller; these functions decide what the
//! combined future resolves to from what the single futures resolved to.

use vstd::prelude::*;

verus! {

/// Resolves as true unless any of the futures resolves as false; `results` are
/// their results, in any order.
pub fn all(results: &Vec<bool>) -> (r: bool)
    ensures
        r == (forall|i: int| 0 <= i < results@.len() ==> results@[i]),
{
    for i in 0..results.len()
        invariant
            forall|j: int| 0 <= j < i ==> results@[j],
    {
        if !results[i] {
            return false;
        }
    }
    true
}

/// Resolves as true when both futures resolve as true. The future that resolves
/// first decides alone when it resolves as false.
pub fn both(first: bool, second: bool) -> (r: bool)
    ensures
        r == (first && second),
{
    first && second
}

/// The state of a polled future: resolved to a boolean, or still pending.
#[derive(Debug, Clone, Copy, PartialEq, Eq, Structural)]
pub enum PollState {
    Ready(bool),
    Pending,
}

/// A future that remembers its result once it resolved.
#[derive(Debug)]
pub enum MaybeDone<F> {
    Future(F),
    Done(bool),
}

impl<F> MaybeDone<F> {
    /// What polling gives: the remembered result once done; else `inner`, what
    /// polling the future gave, which is remembered when it is a result.
    pub fn poll_with(&mut self, inner: PollState) -> (r: PollState)
        ensures
            match *old(self) {
                MaybeDone::Done(res) => r == PollState::Ready(res) && *final(self) == *old(self),
                MaybeDone::Future(_) => r == inner && match inner {
                    PollState::Ready(res) => *final(self) == MaybeDone::<F>::Done(res),
                    PollState::Pending => *final(self) == *old(self),
                },
            },
    {
        match self {
            MaybeDone::Done(res) => PollState::Ready(*res),
            MaybeDone::Future(_) => {
                match inner {
                    PollState::Ready(res) => {
                        *self = MaybeDone::Done(res);
                        PollState::Ready(res)
                    },
                    PollState::Pending => PollState::Pending,
                }
            },
        }
    }

    /// Whether the future must still be polled.
    pub fn is_pending(&self) -> (b: bool)
        ensures
            b == (self is Future),
    {
        match self {
            MaybeDone::Future(_) => true,
            MaybeDone::Done(_) => false,
        }
    }
}

/// What the conjunction of two futures gives, from what polling each gave:
/// true once both resolved as true, false as soon as one resolved as false.
pub fn all_of_two(left: PollState, right: PollState) -> (r: PollState)
    ensures
        r == if left == PollState::Ready(false) || right == PollState::Ready(false) {
            PollState::Ready(false)
        } else if left == PollState::Ready(true) && right == PollState::Ready(true) {
            PollState::Ready(true)
        } else {
            PollState::Pending
        },
{
    match (left, right) {
        (PollState::Ready(true), PollState::Ready(true)) => PollState::Ready(true),
        (PollState::Ready(false), _) | (_, PollState::Ready(false)) => PollState::Ready(false),
        _ => PollState::Pending,
    }
}

} // verus!
