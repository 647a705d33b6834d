//! A minimal observer pattern: subjects hold an ordered list of observers
//! and notify them in registration order.

use vstd::prelude::*;

verus! {

/// An observer that a subject can notify.
pub trait IObserver {
    fn update(&self);
}

/// A subject: an ordered collection of observers that can be attached,
/// detached by position, and notified in order.
pub trait ISubject<O: IObserver> {
    spec fn observers_view(&self) -> Seq<O>;

    /// The registered observers, in registration order.
    fn observers(&self) -> (r: &Vec<O>)
        ensures
            r@ == self.observers_view(),
    ;

    /// Registers one more observer, behind those already registered.
    fn attach(&mut self, observer: O)
        ensures
            final(self).observers_view() == old(self).observers_view().push(observer),
    ;

    /// Removes the observer at `index`; out-of-range indices change
    /// nothing.
    fn detach(&mut self, index: usize)
        ensures
            index < old(self).observers_view().len() ==> final(self).observers_view() == old(
                self,
            ).observers_view().remove(index as int),
            index >= old(self).observers_view().len() ==> final(self).observers_view() == old(
                self,
            ).observers_view(),
    ;

    /// Notifies every observer, in registration order.
    fn notify_observers(&self);
}

/// The plain subject: it owns its observer list directly.
pub struct Subject<O: IObserver> {
    observers_impl: Vec<O>,
}

impl<O: IObserver> Subject<O> {
    /// A subject with no observers.
    pub fn new() -> (r: Self)
        ensures
            r.observers_view() == Seq::<O>::empty(),
    {
        Subject { observers_impl: Vec::new() }
    }
}

impl<O: IObserver> ISubject<O> for Subject<O> {
    closed spec fn observers_view(&self) -> Seq<O> {
        self.observers_impl@
    }

    fn observers(&self) -> (r: &Vec<O>) {
        &self.observers_impl
    }

    fn attach(&mut self, observer: O) {
        self.observers_impl.push(observer);
    }

    fn detach(&mut self, index: usize) {
        if index < self.observers_impl.len() {
            self.observers_impl.remove(index);
        }
    }

    fn notify_observers(&self) {
        let n = self.observers_impl.len();
        let mut i: usize = 0;
        while i < n
            invariant
                i <= n,
                n == self.observers_impl@.len(),
            decreases n - i,
        {
            let observer = &self.observers_impl[i];
            observer.update();
            i += 1;
        }
    }
}

} // verus!
