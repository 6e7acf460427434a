//! A response body that reports how much data it yields to a tracker.
use vstd::prelude::*;

verus! {

/// Something told about the data read from a body.
pub trait Tracker: Sized + Send + Sync + 'static {
    type Error;

    /// Called when data is read from the body; `size` is the size of the
    /// data read. The default accepts everything.
    fn on_data(&self, size: usize) -> (r: Result<(), Self::Error>)
        default_ensures
            r is Ok,
    {
        Ok(())
    }
}

/// A body whose data is reported to a tracker as it is read.
pub struct TrackedBody<B, T> {
    body: B,
    tracker: T,
}

/// An error of a tracked body: of the body itself, or the tracker's refusal.
#[derive(Debug)]
pub enum TrackedBodyError<BE, TE> {
    Body(BE),
    Tracker(TE),
}

impl<B, T> TrackedBody<B, T> {
    pub closed spec fn inner(&self) -> B {
        self.body
    }

    pub closed spec fn tracker(&self) -> T {
        self.tracker
    }

    pub fn new(body: B, tracker: T) -> (r: Self)
        ensures
            r.inner() == body,
            r.tracker() == tracker,
    {
        Self { body, tracker }
    }

    /// The body being tracked.
    pub fn body_ref(&self) -> (r: &B)
        ensures
            *r == self.inner(),
    {
        &self.body
    }

    /// The body being tracked, to poll.
    pub fn body_mut(&mut self) -> (r: &mut B)
        ensures
            *r == old(self).inner(),
            final(self).inner() == *final(r),
            final(self).tracker() == old(self).tracker(),
    {
        &mut self.body
    }
}

/// What a tracked body makes of the tracker's verdict on a data frame: an
/// acceptance lets the frame through, a refusal becomes the body's error.
pub fn tracker_outcome<BE, TE>(verdict: Result<(), TE>) -> (r: Result<(), TrackedBodyError<BE, TE>>)
    ensures
        match verdict {
            Ok(()) => r is Ok,
            Err(e) => r matches Err(TrackedBodyError::Tracker(x)) && x == e,
        },
{
    match verdict {
        Ok(()) => Ok(()),
        Err(e) => Err(TrackedBodyError::Tracker(e)),
    }
}

impl<B, T: Tracker> TrackedBody<B, T> {
    /// Reports a data frame of `size` bytes to the tracker; its refusal
    /// becomes the error of the body.
    pub fn track<BE>(&self, size: usize) -> (r: Result<(), TrackedBodyError<BE, T::Error>>)
        ensures
            exists|verdict: Result<(), T::Error>|
                #![trigger call_ensures(T::on_data, (&self.tracker(), size), verdict)]
                call_ensures(T::on_data, (&self.tracker(), size), verdict) && match verdict {
                    Ok(()) => r is Ok,
                    Err(e) => r matches Err(TrackedBodyError::Tracker(x)) && x == e,
                },
    {
        let on_data = T::on_data;
        let verdict = on_data(&self.tracker, size);
        tracker_outcome(verdict)
    }
}

} // verus!
