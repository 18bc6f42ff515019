//! A pull-style generator: a single-slot hand-off between a producer
//! that parks one value at a time and a stream that takes it.
//!
//! The producer is an inner future that runs outside the library; here
//! its hand-off is the state machine the stream's poll follows.  Each
//! poll takes the event observed from the producer — whether it finished
//! when polled, and the value, if any, it parked during that poll — and
//! decides what the stream yields.

use vstd::prelude::*;

verus! {

/// The single hand-off slot a producer parks values in.
pub struct Yielder<T> {
    /// The parked value waiting to be taken.
    pub value: Option<T>,
}

/// The future a producer awaits after parking a value: it resolves once
/// the stream has taken the value out of the slot.
pub struct YielderFuture {}

impl<T> Yielder<T> {
    /// An empty slot.
    pub fn new() -> (r: Self)
        ensures
            r.value is None,
    {
        Yielder { value: None }
    }

    /// Parks a value in the slot.  A producer may not park twice without
    /// awaiting the hand-off of the first value.
    pub fn put(&mut self, x: T) -> (r: YielderFuture)
        requires
            old(self).value is None,
        ensures
            final(self).value == Some(x),
    {
        self.value = Some(x);
        YielderFuture {  }
    }
}

impl YielderFuture {
    /// Whether the hand-off is complete: the parked value has been taken.
    pub fn poll<T>(&self, state: &Yielder<T>) -> (r: bool)
        ensures
            r == (state.value is None),
    {
        state.value.is_none()
    }
}

/// What one poll of the stream yields: a value, the end of the stream,
/// or nothing yet.
pub enum StreamPoll<T> {
    Ready(Option<T>),
    Pending,
}

/// The stream side of the generator: the hand-off slot and whether the
/// producer has finished.
pub struct YielderStream<T> {
    /// The hand-off slot shared with the producer.
    pub state: Yielder<T>,
    /// The producer has run to completion.
    pub future_done: bool,
}

impl<T> YielderStream<T> {
    /// One poll of the stream.  A value already parked — even one parked
    /// from outside the producer — is yielded at once; a finished
    /// producer ends the stream; otherwise the producer is polled, and
    /// `inner_completed` and `parked` describe what it did: whether it
    /// ran to completion, and the value it parked while running.
    pub fn poll_next(&mut self, inner_completed: bool, parked: Option<T>) -> (r: StreamPoll<T>)
        ensures
            ({
                let pre = *old(self);
                if pre.state.value is Some {
                    &&& r == StreamPoll::Ready(pre.state.value)
                    &&& final(self).state.value is None
                    &&& final(self).future_done == pre.future_done
                } else if pre.future_done {
                    &&& r == StreamPoll::Ready(Option::<T>::None)
                    &&& *final(self) == pre
                } else {
                    &&& final(self).future_done == inner_completed
                    &&& final(self).state.value is None
                    &&& match parked {
                        Some(x) => r == StreamPoll::Ready(Some(x)),
                        None => if inner_completed {
                            r == StreamPoll::Ready(Option::<T>::None)
                        } else {
                            r == StreamPoll::<T>::Pending
                        },
                    }
                }
            }),
    {
        if self.state.value.is_some() {
            let v = self.state.value.take();
            return StreamPoll::Ready(v);
        }
        if self.future_done {
            return StreamPoll::Ready(None);
        }
        if inner_completed {
            self.future_done = true;
        }
        match parked {
            Some(x) => StreamPoll::Ready(Some(x)),
            None => {
                if self.future_done {
                    StreamPoll::Ready(None)
                } else {
                    StreamPoll::Pending
                }
            },
        }
    }
}

/// A fresh generator stream: an empty slot and a producer still to run.
pub fn make_stream<T>() -> (r: YielderStream<T>)
    ensures
        r.state.value is None,
        !r.future_done,
{
    YielderStream { state: Yielder::new(), future_done: false }
}

} // verus!
