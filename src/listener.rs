use vstd::prelude::*;

use crate::session::Options;

verus! {

/// One forwarding rule: where to listen, where to relay each accepted client,
/// and the size of each session's buffers.
#[derive(Clone, Copy, Debug)]
pub struct ForwardRule<A> {
    pub bind_address: A,
    pub server_address: A,
    pub buffer_size: usize,
}

impl<A: Copy> ForwardRule<A> {
    /// The settings that each session of this rule is begun with.
    pub fn options(&self) -> (r: Options<A>)
        ensures
            r.buf_size == self.buffer_size,
            r.srv_addr == self.server_address,
    {
        Options { buf_size: self.buffer_size, srv_addr: self.server_address }
    }
}

/// What one wait for a new client came to.
#[derive(Clone, Copy, Debug, PartialEq, Eq, Structural)]
pub enum AcceptOutcome {
    /// A client connected.
    Accepted,
    /// The listening socket itself failed.
    Failed,
}

/// What the driver of a listener must do next.
#[derive(Clone, Copy, Debug)]
pub enum ListenerAction<A> {
    /// Begin, on its own task, a session for the new client with these
    /// settings, and go back to accepting at once.
    Spawn(Options<A>),
    /// Stop this rule's accept loop; other rules are unaffected.
    Stop,
}

/// Whether a listener that is accepting still is after these outcomes.
pub open spec fn accepting_after(outcomes: Seq<AcceptOutcome>) -> bool
    decreases outcomes.len(),
{
    if outcomes.len() == 0 {
        true
    } else {
        outcomes[0] == AcceptOutcome::Accepted && accepting_after(outcomes.drop_first())
    }
}

/// The accept loop of one rule. It knows nothing of the sessions it spawns:
/// how a session fares, from its dial to its end, cannot stop it.
pub struct Listener<A> {
    rule: ForwardRule<A>,
    accepting: bool,
}

impl<A> Listener<A> {
    pub closed spec fn spec_rule(&self) -> ForwardRule<A> {
        self.rule
    }

    pub closed spec fn spec_is_accepting(&self) -> bool {
        self.accepting
    }

    /// Whether the accept loop is still running.
    #[verifier::when_used_as_spec(spec_is_accepting)]
    pub fn is_accepting(&self) -> (r: bool)
        ensures
            r == self.spec_is_accepting(),
    {
        self.accepting
    }
}

impl<A: Copy> Listener<A> {
    /// A listener for a rule whose address is bound, ready to accept.
    pub fn new(rule: ForwardRule<A>) -> (r: Listener<A>)
        ensures
            r.spec_rule() == rule,
            r.is_accepting(),
    {
        Listener { rule, accepting: true }
    }

    /// The rule this listener serves.
    pub fn rule(&self) -> (r: ForwardRule<A>)
        ensures
            r == self.spec_rule(),
    {
        self.rule
    }

    /// Takes the outcome of one accept: a new client gets a session of its
    /// own with the rule's settings; a failed accept stops this loop.
    pub fn on_accept(&mut self, o: AcceptOutcome) -> (r: ListenerAction<A>)
        requires
            old(self).is_accepting(),
        ensures
            final(self).spec_rule() == old(self).spec_rule(),
            final(self).is_accepting() == (o == AcceptOutcome::Accepted),
            o == AcceptOutcome::Accepted ==> (r matches ListenerAction::Spawn(opts) && opts.buf_size
                == old(self).spec_rule().buffer_size && opts.srv_addr == old(self).spec_rule().server_address),
            o == AcceptOutcome::Failed ==> r is Stop,
    {
        match o {
            AcceptOutcome::Accepted => ListenerAction::Spawn(self.rule.options()),
            AcceptOutcome::Failed => {
                self.accepting = false;
                ListenerAction::Stop
            },
        }
    }
}

/// A listener keeps accepting through any run of connections, whatever became
/// of each (a refused dial included), and stops only on a failed accept: the
/// outcomes of its accepts are all that decide it.
pub proof fn lemma_listener_survives(outcomes: Seq<AcceptOutcome>)
    ensures
        accepting_after(outcomes) <==> forall|i: int|
            0 <= i < outcomes.len() ==> #[trigger] outcomes[i] == AcceptOutcome::Accepted,
    decreases outcomes.len(),
{
    if outcomes.len() > 0 {
        let rest = outcomes.drop_first();
        lemma_listener_survives(rest);
        assert forall|i: int| 0 <= i < rest.len() implies #[trigger] rest[i] == outcomes[i + 1] by {}
        if forall|i: int| 0 <= i < outcomes.len() ==> #[trigger] outcomes[i] == AcceptOutcome::Accepted {
            assert(outcomes[0] == AcceptOutcome::Accepted);
            assert forall|i: int| 0 <= i < rest.len() implies #[trigger] rest[i] == AcceptOutcome::Accepted by {
                assert(outcomes[i + 1] == AcceptOutcome::Accepted);
            }
        }
        if accepting_after(outcomes) {
            assert forall|i: int| 0 <= i < outcomes.len() implies #[trigger] outcomes[i] == AcceptOutcome::Accepted by {
                if i > 0 {
                    assert(rest[i - 1] == AcceptOutcome::Accepted);
                }
            }
        }
    }
}

} // verus!
