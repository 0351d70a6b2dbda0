//! What a payload must offer to live on the collected heap.

use vstd::prelude::*;
use crate::gc::Gc;

verus! {

/// A hook that runs on a payload just before the collector reclaims it.
///
/// The hook sees the payload alone: it has no access to the heap, so it can
/// neither follow a handle nor bring an object back to life.
pub trait Finalize {
    fn finalize(&self) {
    }
}

/// A payload whose outgoing handles the collector can enumerate. What it
/// holds and what it is charged depend on its view alone.
pub trait Trace: Finalize + View {
    /// The handles held directly by a payload with this view.
    spec fn edges(v: Self::V) -> Seq<Gc>;

    /// The number of bytes a payload with this view is charged against the
    /// heap's budget.
    spec fn bytes(v: Self::V) -> usize;

    /// Lists the handles held directly by the payload.
    fn trace(&self) -> (out: Vec<Gc>)
        ensures
            out@ == Self::edges(self@),
    ;

    /// The number of bytes the payload is charged against the heap's budget.
    fn footprint(&self) -> (bytes: usize)
        ensures
            bytes == Self::bytes(self@),
    ;
}

impl Finalize for u64 {
}

impl Trace for u64 {
    open spec fn edges(v: u64) -> Seq<Gc> {
        Seq::empty()
    }

    open spec fn bytes(v: u64) -> usize {
        8
    }

    fn trace(&self) -> (out: Vec<Gc>) {
        Vec::new()
    }

    fn footprint(&self) -> (bytes: usize) {
        8
    }
}

/// A payload that is nothing but a list of handles.
impl Finalize for Vec<Gc> {
}

impl Trace for Vec<Gc> {
    open spec fn edges(v: Seq<Gc>) -> Seq<Gc> {
        v
    }

    open spec fn bytes(v: Seq<Gc>) -> usize {
        24
    }

    fn trace(&self) -> (out: Vec<Gc>) {
        self.clone()
    }

    fn footprint(&self) -> (bytes: usize) {
        24
    }
}

} // verus!
