//! The generator stage as a state machine: it proposes the next value to
//! send, and learns from each send whether anyone still listens.
use vstd::prelude::*;

verus! {

/// The first value the generator produces.
pub const SEED: u8 = 2;

/// The first `k` values counted up from `SEED`.
pub open spec fn from_seed(k: nat) -> Seq<u8> {
    Seq::new(k, |i: int| (SEED + i) as u8)
}

/// What the generator does next.
#[derive(Clone, Copy, Debug, PartialEq, Eq, Structural)]
pub enum GenAction {
    /// Send `Generated(v)` downstream.
    Send(u8),
    /// Release the send-end and end the stage.
    Finish,
}

/// State of the generator stage, owned by its execution context alone.
/// Values go out in strictly increasing order from `SEED`; the stage ends at
/// its first refused send, or once every `u8` value from `SEED` has gone out.
pub struct Generator {
    next: u16,
    stopped: bool,
}

impl Generator {
    /// The value the generator would send next (256 once the range is spent).
    pub closed spec fn next_value(&self) -> nat {
        self.next as nat
    }

    /// Whether the generator has seen a refused send.
    pub closed spec fn is_stopped(&self) -> bool {
        self.stopped
    }

    pub closed spec fn wf(&self) -> bool {
        SEED <= self.next <= 256
    }

    /// The values delivered so far, in order of sending.
    pub open spec fn delivered(&self) -> Seq<u8> {
        from_seed((self.next_value() - SEED) as nat)
    }

    /// The action this state calls for.
    pub open spec fn action_of(&self) -> GenAction {
        if !self.is_stopped() && self.next_value() <= u8::MAX {
            GenAction::Send(self.next_value() as u8)
        } else {
            GenAction::Finish
        }
    }

    pub fn new() -> (g: Generator)
        ensures
            g.wf(),
            g.next_value() == SEED,
            !g.is_stopped(),
            g.delivered() == Seq::<u8>::empty(),
    {
        let g = Generator { next: SEED as u16, stopped: false };
        assert(g.delivered() =~= Seq::<u8>::empty());
        g
    }

    /// The next action: send the next value while no send was refused and
    /// the range is not spent, else finish.
    pub fn next_action(&self) -> (a: GenAction)
        requires
            self.wf(),
        ensures
            a == self.action_of(),
    {
        if !self.stopped && self.next <= 255 {
            GenAction::Send(self.next as u8)
        } else {
            GenAction::Finish
        }
    }

    /// Records the outcome of the send that `next_action` asked for: a
    /// delivered value moves the generator on by one, a refused send (no
    /// receiver left) stops it for good.
    pub fn record_send(&mut self, delivered: bool)
        requires
            old(self).wf(),
            old(self).action_of() is Send,
        ensures
            final(self).wf(),
            final(self).next_value() <= 256,
            delivered ==> final(self).next_value() == old(self).next_value() + 1
                && !final(self).is_stopped()
                && final(self).delivered() == old(self).delivered().push(
                    old(self).next_value() as u8,
                ),
            !delivered ==> final(self).next_value() == old(self).next_value()
                && final(self).is_stopped() && final(self).action_of() == GenAction::Finish,
    {
        if delivered {
            self.next = self.next + 1;
            assert(self.delivered() =~= old(self).delivered().push(old(self).next_value() as u8));
        } else {
            self.stopped = true;
        }
    }
}

} // verus!
