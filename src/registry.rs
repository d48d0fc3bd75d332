//! The registry of reporters and the decisions of its message loop.
use vstd::prelude::*;

verus! {

/// A broken invariant of the registration protocol. The host decides
/// whether to abort or to restart.
#[derive(Clone, Copy, Debug, PartialEq, Eq, Structural)]
pub enum ProtocolViolation {
    /// A reporter was registered under a name that is already registered.
    DuplicateReporter,
    /// A name was unregistered that is not registered.
    UnknownReporter,
    /// A registered reporter could not be reached, or its reply was lost.
    ReporterLost,
}

/// Messages that can be sent to the memory profiler, over reporter handles
/// `H` and result channels `C`.
pub enum ProfilerMsg<H, C> {
    /// Register a reporter under a name that no registered reporter uses.
    RegisterReporter(String, H),
    /// Unregister the reporter registered under this name.
    UnregisterReporter(String),
    /// Shut the profiler down.
    Exit,
    /// Run a reporting pass and send the result on the channel.
    Report(C),
}

/// What the message loop does after handling one message.
pub enum NextAction<C> {
    /// Wait for the next message.
    Continue,
    /// Ask every registered reporter for its reports, aggregate them and send
    /// the result on this channel, then wait for the next message.
    Collect(C),
    /// Leave the loop; the registry is discarded.
    Stop,
}

/// The registered reporters, as (name, handle) pairs in order of registration.
pub type Entries<H> = Seq<(Seq<char>, H)>;

/// Whether some entry is registered under `name`.
pub open spec fn has_name<H>(m: Entries<H>, name: Seq<char>) -> bool {
    exists|i: int| 0 <= i < m.len() && m[i].0 == name
}

/// No two entries share a name.
pub open spec fn names_unique<H>(m: Entries<H>) -> bool {
    forall|i: int, j: int| 0 <= i < j < m.len() ==> m[i].0 != m[j].0
}

/// The position of `name` among the entries (meaningful when it is there).
pub open spec fn name_index<H>(m: Entries<H>, name: Seq<char>) -> int {
    choose|i: int| 0 <= i < m.len() && m[i].0 == name
}

/// The entries after a successful registration.
pub open spec fn registered<H>(m: Entries<H>, name: Seq<char>, handle: H) -> Entries<H> {
    m.push((name, handle))
}

/// The entries after a successful unregistration.
pub open spec fn unregistered<H>(m: Entries<H>, name: Seq<char>) -> Entries<H> {
    m.remove(name_index(m, name))
}

/// The name -> handle table. At most one handle is registered per name.
pub struct Registry<H> {
    reporters: Vec<(String, H)>,
}

impl<H> View for Registry<H> {
    type V = Entries<H>;

    closed spec fn view(&self) -> Entries<H> {
        self.reporters@.map_values(|e: (String, H)| (e.0@, e.1))
    }
}

impl<H> Registry<H> {
    /// The registry's invariant: at most one handle per name.
    pub open spec fn wf(&self) -> bool {
        names_unique(self@)
    }

    /// An empty registry.
    pub fn new() -> (r: Registry<H>)
        ensures
            r.wf(),
            r@ == Seq::<(Seq<char>, H)>::empty(),
    {
        let r = Registry { reporters: Vec::new() };
        proof {
            assert(r@ =~= Seq::<(Seq<char>, H)>::empty());
        }
        r
    }

    /// The number of registered reporters.
    pub fn len(&self) -> (r: usize)
        ensures
            r == self@.len(),
    {
        self.reporters.len()
    }

    /// The name of the `i`-th registered reporter.
    pub fn name_at(&self, i: usize) -> (r: &String)
        requires
            i < self@.len(),
        ensures
            r@ == self@[i as int].0,
    {
        &self.reporters[i].0
    }

    /// The handle of the `i`-th registered reporter.
    pub fn handle_at(&self, i: usize) -> (r: &H)
        requires
            i < self@.len(),
        ensures
            *r == self@[i as int].1,
    {
        &self.reporters[i].1
    }

    /// Where `name` is registered, if it is.
    pub fn position(&self, name: &String) -> (r: Option<usize>)
        ensures
            r.is_none() <==> !has_name(self@, name@),
            r matches Some(i) ==> i < self@.len() && self@[i as int].0 == name@,
    {
        let mut i: usize = 0;
        while i < self.reporters.len()
            invariant
                i <= self@.len(),
                self@.len() == self.reporters@.len(),
                forall|j: int| 0 <= j < i ==> self@[j].0 != name@,
            decreases self.reporters.len() - i,
        {
            if self.reporters[i].0 == *name {
                assert(self@[i as int].0 == name@);
                return Some(i);
            }
            i = i + 1;
        }
        None
    }

    /// Whether a reporter is registered under `name`.
    pub fn contains(&self, name: &String) -> (r: bool)
        ensures
            r == has_name(self@, name@),
    {
        self.position(name).is_some()
    }

    /// Registers `handle` under `name`. A name that is already registered is
    /// a protocol violation; the registered handle is then kept.
    pub fn register(&mut self, name: String, handle: H) -> (r: Result<(), ProtocolViolation>)
        requires
            old(self).wf(),
        ensures
            final(self).wf(),
            r is Err <==> has_name(old(self)@, name@),
            r is Err ==> r == Err::<(), ProtocolViolation>(ProtocolViolation::DuplicateReporter)
                && final(self)@ == old(self)@,
            r is Ok ==> final(self)@ == registered(old(self)@, name@, handle),
    {
        if self.contains(&name) {
            return Err(ProtocolViolation::DuplicateReporter);
        }
        let ghost n = name@;
        self.reporters.push((name, handle));
        proof {
            assert(self@ =~= registered(old(self)@, n, handle));
        }
        Ok(())
    }

    /// Unregisters the reporter registered under `name` and hands its handle
    /// back. A name that is not registered is a protocol violation.
    pub fn unregister(&mut self, name: &String) -> (r: Result<H, ProtocolViolation>)
        requires
            old(self).wf(),
        ensures
            final(self).wf(),
            r is Err <==> !has_name(old(self)@, name@),
            r is Err ==> r == Err::<H, ProtocolViolation>(ProtocolViolation::UnknownReporter)
                && final(self)@ == old(self)@,
            r is Ok ==> r == Ok::<H, ProtocolViolation>(old(self)@[name_index(old(self)@, name@)].1)
                && final(self)@ == unregistered(old(self)@, name@),
    {
        match self.position(name) {
            None => Err(ProtocolViolation::UnknownReporter),
            Some(i) => {
                proof {
                    lemma_unique_index(self@, name@, i as int);
                }
                let (_, handle) = self.reporters.remove(i);
                proof {
                    assert(self@ =~= old(self)@.remove(i as int));
                    lemma_remove_keeps_unique(old(self)@, i as int);
                }
                Ok(handle)
            },
        }
    }

    /// Handles one message: registrations change the table, the other
    /// messages tell the loop what to do next.
    pub fn handle_msg<C>(&mut self, msg: ProfilerMsg<H, C>) -> (r: Result<NextAction<C>, ProtocolViolation>)
        requires
            old(self).wf(),
        ensures
            final(self).wf(),
            match msg {
                ProfilerMsg::RegisterReporter(name, handle) => if has_name(old(self)@, name@) {
                    r == Err::<NextAction<C>, ProtocolViolation>(ProtocolViolation::DuplicateReporter)
                        && final(self)@ == old(self)@
                } else {
                    r == Ok::<NextAction<C>, ProtocolViolation>(NextAction::Continue)
                        && final(self)@ == registered(old(self)@, name@, handle)
                },
                ProfilerMsg::UnregisterReporter(name) => if has_name(old(self)@, name@) {
                    r == Ok::<NextAction<C>, ProtocolViolation>(NextAction::Continue)
                        && final(self)@ == unregistered(old(self)@, name@)
                } else {
                    r == Err::<NextAction<C>, ProtocolViolation>(ProtocolViolation::UnknownReporter)
                        && final(self)@ == old(self)@
                },
                ProfilerMsg::Exit => r == Ok::<NextAction<C>, ProtocolViolation>(NextAction::Stop)
                    && final(self)@ == old(self)@,
                ProfilerMsg::Report(chan) => r == Ok::<NextAction<C>, ProtocolViolation>(NextAction::Collect(chan))
                    && final(self)@ == old(self)@,
            },
    {
        match msg {
            ProfilerMsg::RegisterReporter(name, handle) => match self.register(name, handle) {
                Ok(()) => Ok(NextAction::Continue),
                Err(e) => Err(e),
            },
            ProfilerMsg::UnregisterReporter(name) => match self.unregister(&name) {
                Ok(_) => Ok(NextAction::Continue),
                Err(e) => Err(e),
            },
            ProfilerMsg::Exit => Ok(NextAction::Stop),
            ProfilerMsg::Report(chan) => Ok(NextAction::Collect(chan)),
        }
    }
}

/// A name can be used again once it has been unregistered: after register,
/// unregister, a second registration under the same name is accepted, and
/// the table is back where it started.
pub proof fn lemma_name_reuse<H>(m: Entries<H>, name: Seq<char>, first: H, second: H)
    requires
        names_unique(m),
        !has_name(m, name),
    ensures
        names_unique(registered(m, name, first)),
        has_name(registered(m, name, first), name),
        unregistered(registered(m, name, first), name) == m,
        !has_name(unregistered(registered(m, name, first), name), name),
        names_unique(registered(unregistered(registered(m, name, first), name), name, second)),
{
    let m1 = registered(m, name, first);
    let last = m.len() as int;
    assert(m1[last].0 == name);
    lemma_push_keeps_unique(m, name, first);
    lemma_unique_index(m1, name, last);
    assert(m1.remove(last) =~= m);
    lemma_push_keeps_unique(m, name, second);
}

/// A second registration under a name that is registered is refused: the
/// name is present after the first registration, and it still maps to the
/// first handle.
pub proof fn lemma_duplicate_rejected<H>(m: Entries<H>, name: Seq<char>, first: H)
    requires
        names_unique(m),
        !has_name(m, name),
    ensures
        has_name(registered(m, name, first), name),
        registered(m, name, first)[name_index(registered(m, name, first), name)].1 == first,
{
    let m1 = registered(m, name, first);
    let last = m.len() as int;
    assert(m1[last].0 == name);
    lemma_push_keeps_unique(m, name, first);
    lemma_unique_index(m1, name, last);
}

proof fn lemma_push_keeps_unique<H>(m: Entries<H>, name: Seq<char>, handle: H)
    requires
        names_unique(m),
        !has_name(m, name),
    ensures
        names_unique(registered(m, name, handle)),
{
    let m1 = registered(m, name, handle);
    assert forall|a: int, b: int| 0 <= a < b < m1.len() implies m1[a].0 != m1[b].0 by {
        if b == m.len() {
            assert(m1[a] == m[a]);
        } else {
            assert(m1[a] == m[a] && m1[b] == m[b]);
        }
    }
}

proof fn lemma_unique_index<H>(m: Entries<H>, name: Seq<char>, i: int)
    requires
        names_unique(m),
        0 <= i < m.len(),
        m[i].0 == name,
    ensures
        has_name(m, name),
        name_index(m, name) == i,
{
    let k = name_index(m, name);
    assert(0 <= k < m.len() && m[k].0 == name);
}

proof fn lemma_remove_keeps_unique<H>(m: Entries<H>, i: int)
    requires
        names_unique(m),
        0 <= i < m.len(),
    ensures
        names_unique(m.remove(i)),
        !has_name(m.remove(i), m[i].0),
{
    let r = m.remove(i);
    assert forall|a: int, b: int| 0 <= a < b < r.len() implies r[a].0 != r[b].0 by {
        let a2 = if a < i { a } else { a + 1 };
        let b2 = if b < i { b } else { b + 1 };
        assert(r[a] == m[a2] && r[b] == m[b2]);
    }
    if has_name(r, m[i].0) {
        let k = choose|k: int| 0 <= k < r.len() && r[k].0 == m[i].0;
        let k2 = if k < i { k } else { k + 1 };
        assert(r[k] == m[k2]);
    }
}

} // verus!
