//! The engine: everything that a nested step of the compilation is handed.

use vstd::prelude::*;
use crate::route::Route;
use crate::tracer::Tracer;

verus! {

/// Holds all data needed during compilation.
///
/// An engine is made anew for each nested step and never stored. `W` is a
/// handle to the compilation environment and `I` one to the document as the
/// last pass left it; the engine keeps both and looks into neither. `L`
/// generates stable identities, and `E` is a batch of errors.
pub struct Engine<'a, W, I, L, E> {
    /// The compilation environment.
    pub world: W,
    /// Provides access to information about the document.
    pub introspector: I,
    /// The route the engine took during compilation. This is used to detect
    /// cyclic imports and too much nesting.
    pub route: Route<'a>,
    /// Provides stable identities to elements.
    pub locator: &'a mut L,
    /// The tracer that delayed errors go to.
    pub tracer: &'a mut Tracer<E>,
}

impl<'a, W, I, L, E> Engine<'a, W, I, L, E> {
    /// Whether `after` and `value` are what is left of the engine `before`
    /// once the outcome of a step has been settled: a value is passed on and
    /// the tracer keeps what it holds; a batch of errors goes to the end of
    /// the tracer and a default value takes the place of the missing one.
    /// Nothing else changes.
    pub open spec fn settled<T: Default>(
        before: Self,
        outcome: Result<T, E>,
        after: Self,
        value: T,
    ) -> bool {
        &&& after.world == before.world
        &&& after.introspector == before.introspector
        &&& after.route == before.route
        &&& *after.locator == *before.locator
        &&& match outcome {
            Ok(v) => value == v && after.tracer@ == before.tracer@,
            Err(errors) => {
                &&& call_ensures(T::default, (), value)
                &&& after.tracer@ == before.tracer@.push(errors)
            },
        }
    }

    /// Settle the outcome of a fallible step that must not end the
    /// compilation: pass a value on, or delay the errors and stand in a
    /// default value.
    pub fn settle<T: Default>(&mut self, outcome: Result<T, E>) -> (value: T)
        ensures
            Self::settled(*old(self), outcome, *final(self), value),
    {
        match outcome {
            Ok(value) => value,
            Err(errors) => {
                self.tracer.delay(errors);
                T::default()
            },
        }
    }

    /// Perform a fallible operation that does not immediately terminate further
    /// execution. Instead it produces a delayed error that is only promoted to
    /// a fatal one if it remains at the end of the introspection loop.
    ///
    /// The operation works on this engine. What it returned and how it left
    /// the engine is then settled as [`Engine::settle`] says.
    pub fn delayed<F, T>(&mut self, f: F) -> (value: T) where
        F: FnOnce(&mut Self) -> Result<T, E>,
        T: Default,

        requires
            forall|engine: &mut Self| *engine == *old(self) ==> f.requires((engine,)),
        ensures
            exists|engine: &mut Self, outcome: Result<T, E>|
                {
                    &&& *engine == *old(self)
                    &&& #[trigger] f.ensures((engine,), outcome)
                    &&& Self::settled(*final(engine), outcome, *final(self), value)
                },
    {
        let outcome = f(self);
        self.settle(outcome)
    }
}

} // verus!
