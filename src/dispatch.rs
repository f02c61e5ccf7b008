use vstd::prelude::*;
use crate::events::{Change, WatchEvent};
use crate::lines::texts;
use crate::registry::CursorRegistry;
use crate::tail::{tail_lines, tail_offset};

verus! {

/// The new complete lines of one file, delivered together.
#[derive(Debug)]
pub struct RawLogData {
    pub path: String,
    pub lines: Vec<String>,
}

/// Where the dispatcher is in its life.
#[derive(Clone, Copy, Debug, PartialEq, Eq, Structural)]
pub enum Phase {
    Initializing,
    Running,
    Stopped,
}

/// What the dispatcher asks its driver to do after an event.
#[derive(Debug)]
pub enum Action {
    /// Open the file at this path and hand the handle back.
    Open(String),
    /// Read the tracked file at this path and hand its new bytes back.
    Read(String),
    /// Nothing to do.
    Ignore,
}

/// An action, with paths as character sequences.
pub enum ActionView {
    Open(Seq<char>),
    Read(Seq<char>),
    Ignore,
}

impl View for Action {
    type V = ActionView;

    open spec fn view(&self) -> ActionView {
        match self {
            Action::Open(p) => ActionView::Open(p@),
            Action::Read(p) => ActionView::Read(p@),
            Action::Ignore => ActionView::Ignore,
        }
    }
}

/// Tracked paths with their handles and offsets.
pub type Cursors<H> = Map<Seq<char>, (H, u64)>;

/// The cursors after an event: a removal drops the path's cursor; the other
/// changes leave the cursors as they are until a file is opened or read.
pub open spec fn after_event<H>(m: Cursors<H>, change: Change, path: Seq<char>) -> Cursors<H> {
    match change {
        Change::Removed => m.remove(path),
        _ => m,
    }
}

/// What an event asks for: a created file is opened, a modified tracked file is
/// read, and anything else is ignored.
pub open spec fn action_for<H>(m: Cursors<H>, change: Change, path: Seq<char>) -> ActionView {
    match change {
        Change::Created => ActionView::Open(path),
        Change::Modified => if m.dom().contains(path) {
            ActionView::Read(path)
        } else {
            ActionView::Ignore
        },
        Change::Removed => ActionView::Ignore,
    }
}

/// The cursors after a read of `path`.
pub open spec fn after_read<H>(m: Cursors<H>, path: Seq<char>, len: nat, chunk: Seq<u8>) -> Cursors<
    H,
> {
    if m.dom().contains(path) {
        m.insert(path, (m[path].0, tail_offset(m[path].1 as nat, len, chunk) as u64))
    } else {
        m
    }
}

/// The lines that a read of `path` delivers: none for an untracked path.
pub open spec fn read_lines<H>(m: Cursors<H>, path: Seq<char>, len: nat, chunk: Seq<u8>) -> Seq<
    Seq<char>,
> {
    if m.dom().contains(path) {
        tail_lines(m[path].1 as nat, len, chunk)
    } else {
        seq![]
    }
}

/// The event loop's state: the cursor registry and the phase.
pub struct Dispatcher<H> {
    registry: CursorRegistry<H>,
    phase: Phase,
}

impl<H> Dispatcher<H> {
    pub closed spec fn wf(&self) -> bool {
        self.registry.wf()
    }

    pub closed spec fn cursors(&self) -> Cursors<H> {
        self.registry@
    }

    pub closed spec fn spec_phase(&self) -> Phase {
        self.phase
    }

    /// The tracked paths in the order in which the initial pass reads them.
    pub closed spec fn order(&self) -> Seq<Seq<char>> {
        self.registry.order()
    }

    /// A dispatcher that has tracked nothing yet.
    pub fn new() -> (r: Self)
        ensures
            r.wf(),
            r.spec_phase() == Phase::Initializing,
            r.cursors() == Map::<Seq<char>, (H, u64)>::empty(),
    {
        Dispatcher { registry: CursorRegistry::new(), phase: Phase::Initializing }
    }

    pub fn phase(&self) -> (r: Phase)
        ensures
            r == self.spec_phase(),
    {
        self.phase
    }

    /// The registry, for the driver to find a tracked file's handle and offset.
    pub fn registry(&self) -> (r: &CursorRegistry<H>)
        ensures
            r.wf() == self.wf(),
            r@ == self.cursors(),
    {
        &self.registry
    }

    /// Adds a file found by the startup scan, from offset zero.
    pub fn seed(&mut self, path: String, handle: H)
        requires
            old(self).wf(),
            old(self).spec_phase() == Phase::Initializing,
        ensures
            final(self).wf(),
            final(self).spec_phase() == Phase::Initializing,
            final(self).cursors() == old(self).cursors().insert(path@, (handle, 0u64)),
    {
        let _ = self.registry.insert(path, handle);
    }

    /// Ends the startup phase. Returns every tracked path, each to be read once
    /// so that its current content is delivered.
    pub fn start(&mut self) -> (r: Vec<String>)
        requires
            old(self).wf(),
            old(self).spec_phase() == Phase::Initializing,
        ensures
            final(self).wf(),
            final(self).spec_phase() == Phase::Running,
            final(self).cursors() == old(self).cursors(),
            r@.map_values(|s: String| s@) == old(self).order(),
            forall|p: Seq<char>| old(self).cursors().dom().contains(p) <==> old(self).order().contains(p),
    {
        self.phase = Phase::Running;
        self.registry.paths()
    }

    /// Takes one watch event and says what is to be done about it. A removed
    /// path loses its cursor here, which closes its handle.
    pub fn on_event(&mut self, event: &WatchEvent) -> (r: Action)
        requires
            old(self).wf(),
            old(self).spec_phase() == Phase::Running,
        ensures
            final(self).wf(),
            final(self).spec_phase() == Phase::Running,
            final(self).cursors() == after_event(old(self).cursors(), event.change, event.path@),
            r@ == action_for(old(self).cursors(), event.change, event.path@),
    {
        match event.change {
            Change::Created => Action::Open(event.path.clone()),
            Change::Modified => if self.registry.contains(&event.path) {
                Action::Read(event.path.clone())
            } else {
                Action::Ignore
            },
            Change::Removed => {
                let _ = self.registry.remove(&event.path);
                Action::Ignore
            },
        }
    }

    /// Tracks a file that a `Created` event named and the driver opened, from
    /// offset zero. A cursor that the path had is replaced.
    pub fn on_opened(&mut self, path: String, handle: H)
        requires
            old(self).wf(),
            old(self).spec_phase() == Phase::Running,
        ensures
            final(self).wf(),
            final(self).spec_phase() == Phase::Running,
            final(self).cursors() == old(self).cursors().insert(path@, (handle, 0u64)),
    {
        let _ = self.registry.insert(path, handle);
    }

    /// Takes what the driver read of `path`: `len` is the file's length now and
    /// `chunk` its bytes from the cursor's offset on. Returns a batch when the
    /// read completed at least one line. A read that failed is not reported,
    /// which leaves the cursor where it was.
    pub fn on_read(&mut self, path: &String, len: u64, chunk: &[u8]) -> (r: Option<RawLogData>)
        requires
            old(self).wf(),
            old(self).spec_phase() != Phase::Stopped,
        ensures
            final(self).wf(),
            final(self).spec_phase() == old(self).spec_phase(),
            final(self).cursors() == after_read(old(self).cursors(), path@, len as nat, chunk@),
            r is Some <==> read_lines(old(self).cursors(), path@, len as nat, chunk@).len() > 0,
            r matches Some(b) ==> b.path@ == path@ && texts(b.lines@) == read_lines(
                old(self).cursors(),
                path@,
                len as nat,
                chunk@,
            ),
    {
        let lines = self.registry.advance(path, len, chunk);
        if lines.len() == 0 {
            None
        } else {
            Some(RawLogData { path: path.clone(), lines })
        }
    }

    /// The event source has closed: every handle is dropped and the loop ends.
    pub fn stop(&mut self)
        requires
            old(self).wf(),
        ensures
            final(self).wf(),
            final(self).spec_phase() == Phase::Stopped,
            final(self).cursors() == Map::<Seq<char>, (H, u64)>::empty(),
    {
        self.registry = CursorRegistry::new();
        self.phase = Phase::Stopped;
    }
}

/// A removed path is gone for good until a file is created there: a later,
/// even spurious, modify or remove event for it asks for nothing, and a read
/// of it delivers nothing and changes nothing.
pub proof fn lemma_removed_path_stays_quiet<H>(
    m: Cursors<H>,
    path: Seq<char>,
    len: nat,
    chunk: Seq<u8>,
)
    ensures
        ({
            let gone = after_event(m, Change::Removed, path);
            &&& !gone.dom().contains(path)
            &&& forall|q: Seq<char>| q != path ==> (#[trigger] gone.dom().contains(q) <==> m.dom().contains(q))
            &&& action_for(gone, Change::Modified, path) == ActionView::Ignore
            &&& after_event(gone, Change::Modified, path) == gone
            &&& after_event(gone, Change::Removed, path) == gone
            &&& read_lines(gone, path, len, chunk).len() == 0
            &&& after_read(gone, path, len, chunk) == gone
        }),
{
    let gone = after_event(m, Change::Removed, path);
    assert(gone.remove(path) =~= gone);
}

/// Reads of two different files do not touch each other: each read delivers
/// the same lines whichever goes first, and the cursors end the same.
pub proof fn lemma_reads_are_independent<H>(
    m: Cursors<H>,
    a: Seq<char>,
    len_a: nat,
    chunk_a: Seq<u8>,
    b: Seq<char>,
    len_b: nat,
    chunk_b: Seq<u8>,
)
    requires
        a != b,
    ensures
        read_lines(after_read(m, a, len_a, chunk_a), b, len_b, chunk_b) == read_lines(
            m,
            b,
            len_b,
            chunk_b,
        ),
        read_lines(after_read(m, b, len_b, chunk_b), a, len_a, chunk_a) == read_lines(
            m,
            a,
            len_a,
            chunk_a,
        ),
        after_read(after_read(m, a, len_a, chunk_a), b, len_b, chunk_b) == after_read(
            after_read(m, b, len_b, chunk_b),
            a,
            len_a,
            chunk_a,
        ),
{
    let ab = after_read(after_read(m, a, len_a, chunk_a), b, len_b, chunk_b);
    let ba = after_read(after_read(m, b, len_b, chunk_b), a, len_a, chunk_a);
    assert(ab =~= ba);
}

} // verus!
