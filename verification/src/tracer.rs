//! The sink for what a compilation reports besides its result.

use vstd::prelude::*;

verus! {

/// Holds the batches of errors that were put off while the document was
/// still in flux.
///
/// Whoever drives the compilation takes the batches out between passes and
/// decides whether they still matter.
pub struct Tracer<E> {
    delayed: Vec<E>,
}

impl<E> View for Tracer<E> {
    type V = Seq<E>;

    /// The delayed batches, the oldest first.
    closed spec fn view(&self) -> Seq<E> {
        self.delayed@
    }
}

impl<E> Tracer<E> {
    /// Create a tracer that holds nothing.
    pub fn new() -> (tracer: Self)
        ensures
            tracer@ == Seq::<E>::empty(),
    {
        Tracer { delayed: Vec::new() }
    }

    /// Put one batch of errors off.
    pub fn delay(&mut self, errors: E)
        ensures
            final(self)@ == old(self)@.push(errors),
    {
        self.delayed.push(errors);
    }

    /// Take all delayed batches out, the oldest first.
    pub fn delayed(&mut self) -> (batches: Vec<E>)
        ensures
            batches@ == old(self)@,
            final(self)@ == Seq::<E>::empty(),
    {
        let mut batches = Vec::new();
        std::mem::swap(&mut batches, &mut self.delayed);
        batches
    }
}

impl<E> Default for Tracer<E> {
    /// The default tracer holds nothing.
    fn default() -> (tracer: Self)
        ensures
            tracer@ == Seq::<E>::empty(),
    {
        Tracer::new()
    }
}

} // verus!
