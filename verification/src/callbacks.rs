//! Typed event-subscription lists: an ordered collection of handlers,
//! invoked synchronously in registration order.

use vstd::prelude::*;

verus! {

/// A handler that a callback list can hold: it is shown the event payload
/// by mutable reference and may return a result.
pub trait Callback {
    type Arg;

    type Out;

    fn call(&self, t: &mut Self::Arg) -> Self::Out;
}

/// An ordered list of handlers whose results are collected on invocation.
pub struct Callbacks<C> {
    callbacks: Vec<C>,
}

impl<C> View for Callbacks<C> {
    type V = Seq<C>;

    closed spec fn view(&self) -> Seq<C> {
        self.callbacks@
    }
}

impl<C: Callback> Callbacks<C> {
    /// An empty callback list.
    pub fn new() -> (r: Callbacks<C>)
        ensures
            r@ == Seq::<C>::empty(),
    {
        Callbacks { callbacks: Vec::new() }
    }

    /// Registers one more handler, behind those already registered.
    pub fn add(&mut self, callback: C)
        ensures
            final(self)@ == old(self)@.push(callback),
    {
        self.callbacks.push(callback);
    }

    /// Invokes every handler on `t`, in registration order, and collects
    /// one result per handler.
    pub fn invoke(&mut self, t: &mut C::Arg) -> (results: Vec<C::Out>)
        ensures
            final(self)@ == old(self)@,
            results@.len() == old(self)@.len(),
    {
        let mut results: Vec<C::Out> = Vec::new();
        let n = self.callbacks.len();
        let mut i: usize = 0;
        while i < n
            invariant
                i <= n,
                n == self.callbacks@.len(),
                results@.len() == i as int,
            decreases n - i,
        {
            let handler = &self.callbacks[i];
            let result = handler.call(t);
            results.push(result);
            i += 1;
        }
        results
    }
}

/// An ordered list of handlers invoked purely for their effect.
pub struct NotifyCallback<C> {
    callbacks: Vec<C>,
}

impl<C> View for NotifyCallback<C> {
    type V = Seq<C>;

    closed spec fn view(&self) -> Seq<C> {
        self.callbacks@
    }
}

impl<C: Callback<Out = ()>> NotifyCallback<C> {
    /// An empty notification list.
    pub fn new() -> (r: NotifyCallback<C>)
        ensures
            r@ == Seq::<C>::empty(),
    {
        NotifyCallback { callbacks: Vec::new() }
    }

    /// Registers one more handler, behind those already registered.
    pub fn add(&mut self, callback: C)
        ensures
            final(self)@ == old(self)@.push(callback),
    {
        self.callbacks.push(callback);
    }

    /// Invokes every handler on `t`, in registration order.
    pub fn invoke(&mut self, t: &mut C::Arg)
        ensures
            final(self)@ == old(self)@,
    {
        let n = self.callbacks.len();
        let mut i: usize = 0;
        while i < n
            invariant
                i <= n,
                n == self.callbacks@.len(),
            decreases n - i,
        {
            let handler = &self.callbacks[i];
            handler.call(t);
            i += 1;
        }
    }
}

} // verus!
