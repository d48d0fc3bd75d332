//! A reporter's registration as a single-shot value: opening it yields the
//! message that registers the reporter, closing it consumes it and yields
//! the one message that unregisters the same name.
use crate::registry::ProfilerMsg;
use vstd::prelude::*;

verus! {

/// The registration of one reporter name, not yet closed.
pub struct Registration {
    reporter_name: String,
}

impl Registration {
    /// The name this registration was opened under.
    pub closed spec fn name(&self) -> Seq<char> {
        self.reporter_name@
    }

    /// Opens a registration of `handle` under `reporter_name`; the message
    /// returned is the one to send to the profiler.
    pub fn open<H, C>(reporter_name: String, handle: H) -> (r: (Registration, ProfilerMsg<H, C>))
        ensures
            r.0.name() == reporter_name@,
            r.1 matches ProfilerMsg::RegisterReporter(n, h) && n@ == reporter_name@ && h == handle,
    {
        let name = reporter_name.clone();
        (Registration { reporter_name }, ProfilerMsg::RegisterReporter(name, handle))
    }

    /// The name this registration was opened under.
    pub fn reporter_name(&self) -> (r: &String)
        ensures
            r@ == self.name(),
    {
        &self.reporter_name
    }

    /// Closes the registration: the message returned unregisters the name
    /// it was opened under. The registration is used up.
    pub fn close<H, C>(self) -> (r: ProfilerMsg<H, C>)
        ensures
            r matches ProfilerMsg::UnregisterReporter(n) && n@ == self.name(),
    {
        ProfilerMsg::UnregisterReporter(self.reporter_name)
    }
}

} // verus!
