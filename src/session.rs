use vstd::prelude::*;
use vstd::slice::slice_subrange;

verus! {

/// One end of a relayed connection.
#[derive(Clone, Copy, Debug, PartialEq, Eq, Structural)]
pub enum Side {
    Client,
    Server,
}

impl Side {
    pub open spec fn opposite(self) -> Side {
        match self {
            Side::Client => Side::Server,
            Side::Server => Side::Client,
        }
    }

    /// The end that bytes read from this end are written to.
    pub fn other(self) -> (r: Side)
        ensures
            r == self.opposite(),
    {
        match self {
            Side::Client => Side::Server,
            Side::Server => Side::Client,
        }
    }
}

/// Why a relay ended.
#[derive(Clone, Copy, Debug, PartialEq, Eq, Structural)]
pub enum EndReason {
    /// The peer on that side closed its stream in order: a read returned no bytes.
    PeerClosed(Side),
    /// A read on that side failed.
    ReadError(Side),
    /// Writing to that side failed.
    WriteError(Side),
    /// Waiting on the two sockets could not make progress.
    Internal,
}

impl EndReason {
    pub open spec fn spec_is_error(self) -> bool {
        !(self is PeerClosed)
    }

    /// Whether the relay ended abnormally; an orderly close is no error.
    #[verifier::when_used_as_spec(spec_is_error)]
    pub fn is_error(self) -> (r: bool)
        ensures
            r == self.spec_is_error(),
    {
        match self {
            EndReason::PeerClosed(_) => false,
            _ => true,
        }
    }
}

/// Where a session stands in its copy loop.
#[derive(Clone, Copy, Debug, PartialEq, Eq, Structural)]
pub enum Phase {
    /// Waiting for either socket to have bytes to read.
    Waiting,
    /// The first `len` bytes of the buffer of the opposite side are being written to `to`.
    Writing { to: Side, len: usize },
    /// Both sockets are to be closed; the session is over.
    Closed(EndReason),
}

/// What the driver of a session observed.
#[derive(Clone, Copy, Debug, PartialEq, Eq, Structural)]
pub enum Event {
    /// A read on that side returned this many bytes, placed at the start of its buffer.
    Received(Side, usize),
    /// A read on that side failed.
    ReadFailed(Side),
    /// The outgoing bytes were written in full.
    Delivered,
    /// Writing the outgoing bytes failed.
    WriteFailed,
    /// Waiting on the two sockets failed.
    WaitFailed,
}

/// What the driver of a session must do next.
#[derive(Clone, Copy, Debug, PartialEq, Eq, Structural)]
pub enum Action {
    /// Wait for either socket to have bytes to read.
    Wait,
    /// Write the outgoing bytes (this many) in full to that side.
    Forward(Side, usize),
    /// Close both sockets.
    Close(EndReason),
}

/// The next phase and the action for an event taken in a phase.
pub open spec fn transition(p: Phase, e: Event) -> (Phase, Action) {
    match (p, e) {
        (Phase::Waiting, Event::Received(from, n)) => {
            if n == 0 {
                (Phase::Closed(EndReason::PeerClosed(from)), Action::Close(EndReason::PeerClosed(from)))
            } else {
                (Phase::Writing { to: from.opposite(), len: n }, Action::Forward(from.opposite(), n))
            }
        },
        (Phase::Waiting, Event::ReadFailed(from)) => {
            (Phase::Closed(EndReason::ReadError(from)), Action::Close(EndReason::ReadError(from)))
        },
        (Phase::Waiting, Event::WaitFailed) => {
            (Phase::Closed(EndReason::Internal), Action::Close(EndReason::Internal))
        },
        (Phase::Writing { to, len }, Event::Delivered) => (Phase::Waiting, Action::Wait),
        (Phase::Writing { to, len }, Event::WriteFailed) => {
            (Phase::Closed(EndReason::WriteError(to)), Action::Close(EndReason::WriteError(to)))
        },
        _ => (p, Action::Wait),
    }
}

proof fn lemma_prefix_of_self(a: Seq<u8>)
    ensures
        a.is_prefix_of(a),
{
    assert(a.take(a.len() as int) =~= a);
}

/// The settings shared by the sessions of one rule.
#[derive(Clone, Copy, Debug)]
pub struct Options<A> {
    /// Size in bytes of each of the two buffers of a session.
    pub buf_size: usize,
    /// Where each accepted client is relayed to.
    pub srv_addr: A,
}

/// One accepted client paired with its upstream connection: the two buffers
/// and the state of the copy loop between them. The sockets themselves stay
/// with the driver, which performs the action each step returns.
pub struct Session<A> {
    cli_addr: A,
    srv_addr: A,
    req_buf: Vec<u8>,
    res_buf: Vec<u8>,
    phase: Phase,
    from_client: Ghost<Seq<u8>>,
    from_server: Ghost<Seq<u8>>,
    to_client: Ghost<Seq<u8>>,
    to_server: Ghost<Seq<u8>>,
}

impl<A> Session<A> {
    pub closed spec fn spec_phase(&self) -> Phase {
        self.phase
    }

    #[verifier::when_used_as_spec(spec_phase)]
    pub fn phase(&self) -> (r: Phase)
        ensures
            r == self.spec_phase(),
    {
        self.phase
    }

    pub closed spec fn client_addr(&self) -> A {
        self.cli_addr
    }

    pub closed spec fn server_addr(&self) -> A {
        self.srv_addr
    }

    /// The buffer that reads on this side fill.
    pub closed spec fn buffer(&self, s: Side) -> Seq<u8> {
        match s {
            Side::Client => self.req_buf@,
            Side::Server => self.res_buf@,
        }
    }

    /// Every byte read from this side so far, in order.
    pub closed spec fn received(&self, s: Side) -> Seq<u8> {
        match s {
            Side::Client => self.from_client@,
            Side::Server => self.from_server@,
        }
    }

    /// Every byte written in full to this side so far, in order.
    pub closed spec fn delivered(&self, s: Side) -> Seq<u8> {
        match s {
            Side::Client => self.to_client@,
            Side::Server => self.to_server@,
        }
    }

    /// The bytes of the write in progress, if any.
    pub open spec fn pending(&self) -> Seq<u8> {
        match self.spec_phase() {
            Phase::Writing { to, len } => self.buffer(to.opposite()).take(len as int),
            _ => Seq::empty(),
        }
    }

    /// What the copy loop keeps true: each side has been sent exactly what the
    /// other side sent, less the write in progress, and after the end less
    /// what could not be written.
    pub open spec fn wf(&self) -> bool {
        match self.spec_phase() {
            Phase::Waiting => {
                &&& self.delivered(Side::Server) == self.received(Side::Client)
                &&& self.delivered(Side::Client) == self.received(Side::Server)
            },
            Phase::Writing { to, len } => {
                &&& 0 < len <= self.buffer(to.opposite()).len()
                &&& self.delivered(to) + self.pending() == self.received(to.opposite())
                &&& self.delivered(to.opposite()) == self.received(to)
            },
            Phase::Closed(_) => {
                &&& self.delivered(Side::Server).is_prefix_of(self.received(Side::Client))
                &&& self.delivered(Side::Client).is_prefix_of(self.received(Side::Server))
            },
        }
    }

    /// Whether the event can be observed in the current phase: reads and
    /// wait failures while waiting (a read never returns more than its
    /// buffer holds), write outcomes while writing, nothing once closed.
    pub open spec fn accepts(&self, e: Event) -> bool {
        match (self.spec_phase(), e) {
            (Phase::Waiting, Event::Received(s, n)) => n <= self.buffer(s).len(),
            (Phase::Waiting, Event::ReadFailed(_)) => true,
            (Phase::Waiting, Event::WaitFailed) => true,
            (Phase::Writing { .. }, Event::Delivered) => true,
            (Phase::Writing { .. }, Event::WriteFailed) => true,
            _ => false,
        }
    }
}

impl<A: Copy> Session<A> {
    /// Starts the relay for a client whose upstream connection is established:
    /// two zeroed buffers of `options.buf_size` bytes, nothing relayed yet.
    pub fn begin(cli_addr: A, options: Options<A>) -> (r: Session<A>)
        ensures
            r.wf(),
            r.phase() == Phase::Waiting,
            r.client_addr() == cli_addr,
            r.server_addr() == options.srv_addr,
            forall|s: Side| #[trigger] r.buffer(s) == Seq::new(options.buf_size as nat, |i: int| 0u8),
            forall|s: Side| #[trigger] r.received(s) == Seq::<u8>::empty(),
            forall|s: Side| #[trigger] r.delivered(s) == Seq::<u8>::empty(),
    {
        let mut req_buf: Vec<u8> = Vec::new();
        let mut res_buf: Vec<u8> = Vec::new();
        let mut i: usize = 0;
        while i < options.buf_size
            invariant
                i <= options.buf_size,
                req_buf@ == Seq::new(i as nat, |k: int| 0u8),
                res_buf@ == Seq::new(i as nat, |k: int| 0u8),
            decreases options.buf_size - i,
        {
            req_buf.push(0u8);
            res_buf.push(0u8);
            i = i + 1;
            assert(req_buf@ =~= Seq::new(i as nat, |k: int| 0u8));
            assert(res_buf@ =~= Seq::new(i as nat, |k: int| 0u8));
        }
        Session {
            cli_addr,
            srv_addr: options.srv_addr,
            req_buf,
            res_buf,
            phase: Phase::Waiting,
            from_client: Ghost(Seq::empty()),
            from_server: Ghost(Seq::empty()),
            to_client: Ghost(Seq::empty()),
            to_server: Ghost(Seq::empty()),
        }
    }

    /// The address of the client, kept for diagnostics.
    pub fn client_address(&self) -> (r: A)
        ensures
            r == self.client_addr(),
    {
        self.cli_addr
    }

    /// The address of the upstream server, kept for diagnostics.
    pub fn server_address(&self) -> (r: A)
        ensures
            r == self.server_addr(),
    {
        self.srv_addr
    }
}

impl<A> Session<A> {
    /// The length of the buffer that reads on this side fill.
    pub fn buffer_len(&self, s: Side) -> (r: usize)
        ensures
            r == self.buffer(s).len(),
    {
        match s {
            Side::Client => self.req_buf.len(),
            Side::Server => self.res_buf.len(),
        }
    }

    /// Lends out both buffers, client side first, so that one read on either
    /// side can fill its own. Only while waiting: no write is then in progress.
    pub fn buffers_mut(&mut self) -> (r: (&mut [u8], &mut [u8]))
        requires
            old(self).wf(),
            old(self).phase() == Phase::Waiting,
        ensures
            r.0@ == old(self).buffer(Side::Client),
            r.1@ == old(self).buffer(Side::Server),
            final(self).buffer(Side::Client) == final(r.0)@,
            final(self).buffer(Side::Server) == final(r.1)@,
            final(self).wf(),
            final(self).phase() == Phase::Waiting,
            final(self).client_addr() == old(self).client_addr(),
            final(self).server_addr() == old(self).server_addr(),
            forall|s: Side| #[trigger] final(self).received(s) == old(self).received(s),
            forall|s: Side| #[trigger] final(self).delivered(s) == old(self).delivered(s),
    {
        (self.req_buf.as_mut_slice(), self.res_buf.as_mut_slice())
    }

    /// The bytes to write in full to the side named by the last `Forward`.
    pub fn outgoing(&self) -> (r: &[u8])
        requires
            self.wf(),
            self.phase() is Writing,
        ensures
            r@ == self.pending(),
    {
        match self.phase {
            Phase::Writing { to: Side::Server, len } => slice_subrange(self.req_buf.as_slice(), 0, len),
            Phase::Writing { to: Side::Client, len } => slice_subrange(self.res_buf.as_slice(), 0, len),
            _ => slice_subrange(self.req_buf.as_slice(), 0, 0),
        }
    }

    /// Takes one event of the copy loop and returns what to do next.
    /// A read of no bytes is an orderly close; a read of some bytes has them
    /// forwarded, unchanged, to the other side; any failure ends the session.
    pub fn step(&mut self, e: Event) -> (r: Action)
        requires
            old(self).wf(),
            old(self).accepts(e),
        ensures
            final(self).wf(),
            (final(self).phase(), r) == transition(old(self).phase(), e),
            final(self).client_addr() == old(self).client_addr(),
            final(self).server_addr() == old(self).server_addr(),
            forall|s: Side| #[trigger] final(self).buffer(s) == old(self).buffer(s),
            forall|s: Side| #[trigger] final(self).received(s) == (match e {
                Event::Received(from, n) if from == s => old(self).received(s) + old(self).buffer(s).take(n as int),
                _ => old(self).received(s),
            }),
            forall|s: Side| #[trigger] final(self).delivered(s) == (match (old(self).phase(), e) {
                (Phase::Writing { to, len }, Event::Delivered) if to == s => old(self).delivered(s) + old(self).pending(),
                _ => old(self).delivered(s),
            }),
    {
        match e {
            Event::Received(from, n) => {
                if n == 0 {
                    proof {
                        assert(self.buffer(from).take(0) =~= Seq::<u8>::empty());
                        assert(self.received(from) + Seq::<u8>::empty() =~= self.received(from));
                    }
                    self.phase = Phase::Closed(EndReason::PeerClosed(from));
                    Action::Close(EndReason::PeerClosed(from))
                } else {
                    match from {
                        Side::Client => {
                            self.from_client = Ghost(self.from_client@ + self.req_buf@.take(n as int));
                        },
                        Side::Server => {
                            self.from_server = Ghost(self.from_server@ + self.res_buf@.take(n as int));
                        },
                    }
                    let to = from.other();
                    self.phase = Phase::Writing { to, len: n };
                    proof {
                        assert(self.delivered(to) + self.pending() =~= self.received(from));
                    }
                    Action::Forward(to, n)
                }
            },
            Event::ReadFailed(from) => {
                self.phase = Phase::Closed(EndReason::ReadError(from));
                proof {
                    lemma_prefix_of_self(self.received(Side::Client));
                    lemma_prefix_of_self(self.received(Side::Server));
                }
                Action::Close(EndReason::ReadError(from))
            },
            Event::WaitFailed => {
                self.phase = Phase::Closed(EndReason::Internal);
                proof {
                    lemma_prefix_of_self(self.received(Side::Client));
                    lemma_prefix_of_self(self.received(Side::Server));
                }
                Action::Close(EndReason::Internal)
            },
            Event::Delivered => {
                let ghost pending = self.pending();
                match self.phase {
                    Phase::Writing { to, len } => {
                        match to {
                            Side::Client => {
                                self.to_client = Ghost(self.to_client@ + pending);
                            },
                            Side::Server => {
                                self.to_server = Ghost(self.to_server@ + pending);
                            },
                        }
                    },
                    _ => {},
                }
                self.phase = Phase::Waiting;
                Action::Wait
            },
            Event::WriteFailed => {
                let to = match self.phase {
                    Phase::Writing { to, len } => to,
                    _ => Side::Client,
                };
                let ghost pending = self.pending();
                self.phase = Phase::Closed(EndReason::WriteError(to));
                proof {
                    assert(self.delivered(to).is_prefix_of(self.received(to.opposite()))) by {
                        assert(self.received(to.opposite()).take(self.delivered(to).len() as int) =~= self.delivered(to));
                    }
                    lemma_prefix_of_self(self.received(to));
                }
                Action::Close(EndReason::WriteError(to))
            },
        }
    }
}

/// Byte fidelity: in every state of a session, what has been written in full
/// to one side is a prefix of what was read from the other side, in order;
/// while waiting it is all of it, and while writing it is all of it but the
/// write in progress.
pub proof fn lemma_byte_fidelity<A>(s: &Session<A>)
    requires
        s.wf(),
    ensures
        s.delivered(Side::Server).is_prefix_of(s.received(Side::Client)),
        s.delivered(Side::Client).is_prefix_of(s.received(Side::Server)),
        s.phase() == Phase::Waiting ==> s.delivered(Side::Server) == s.received(Side::Client)
            && s.delivered(Side::Client) == s.received(Side::Server),
        s.phase() is Writing ==> s.delivered(s.phase()->to) + s.pending() == s.received(
            s.phase()->to.opposite(),
        ),
{
    match s.phase() {
        Phase::Waiting => {
            lemma_prefix_of_self(s.received(Side::Client));
            lemma_prefix_of_self(s.received(Side::Server));
        },
        Phase::Writing { to, len } => {
            let whole = s.received(to.opposite());
            assert(whole.take(s.delivered(to).len() as int) =~= s.delivered(to));
            lemma_prefix_of_self(s.received(to));
        },
        Phase::Closed(_) => {},
    }
}

/// A read of no bytes, from either side, is an orderly close: the session
/// ends, both sockets are closed, and the end is no error.
pub proof fn lemma_empty_read_closes(s: Side)
    ensures
        transition(Phase::Waiting, Event::Received(s, 0)) == (
            Phase::Closed(EndReason::PeerClosed(s)),
            Action::Close(EndReason::PeerClosed(s)),
        ),
        !EndReason::PeerClosed(s).is_error(),
{
}

/// Every read of some bytes, up to a whole buffer, is relayed in one
/// iteration: the session forwards all of them, and only them, to the other
/// side, and is waiting again once they are written.
pub proof fn lemma_read_forwarded_whole<A>(before: &Session<A>, s: Side, n: usize)
    requires
        before.wf(),
        before.phase() == Phase::Waiting,
        0 < n <= before.buffer(s).len(),
    ensures
        ({
            let (p, a) = transition(Phase::Waiting, Event::Received(s, n));
            &&& a == Action::Forward(s.opposite(), n)
            &&& p == Phase::Writing { to: s.opposite(), len: n }
            &&& transition(p, Event::Delivered) == (Phase::Waiting, Action::Wait)
        }),
{
}

} // verus!
