//! The decisions of the interrupt handler. While a child process runs,
//! interrupts are blocked: an interrupt is remembered, and acted upon when
//! the last block is lifted.
use vstd::prelude::*;

verus! {

/// The exit code for a process ended by an interrupt.
pub const INTERRUPT_EXIT_CODE: i32 = 130i32;

/// The exit code for a failure.
pub const EXIT_FAILURE: i32 = 1i32;

/// The state of the interrupt handler.
#[derive(Clone, Copy, Debug, PartialEq, Eq, Structural)]
pub struct InterruptHandler {
    pub blocks: u32,
    pub interrupted: bool,
    pub loud: bool,
}

/// What the process must do after a decision of the handler.
#[derive(Clone, Copy, Debug, PartialEq, Eq, Structural)]
pub enum HandlerAction {
    /// Carry on.
    Continue,
    /// Exit with this code.
    Exit(i32),
    /// Report that the handler was unblocked without being blocked, then
    /// exit with `EXIT_FAILURE`.
    ReportUnblockError,
}

/// The state after an interrupt, and what to do.
pub open spec fn spec_interrupt(h: InterruptHandler) -> (InterruptHandler, HandlerAction) {
    let next = InterruptHandler { interrupted: true, ..h };
    if h.blocks > 0 {
        (next, HandlerAction::Continue)
    } else {
        (next, HandlerAction::Exit(INTERRUPT_EXIT_CODE))
    }
}

/// The state after one more block.
pub open spec fn spec_block(h: InterruptHandler) -> InterruptHandler {
    InterruptHandler { blocks: (h.blocks + 1) as u32, ..h }
}

/// The state after a block is lifted, and what to do.
pub open spec fn spec_unblock(h: InterruptHandler) -> (InterruptHandler, HandlerAction) {
    if h.blocks == 0 {
        (
            h,
            if h.loud {
                HandlerAction::ReportUnblockError
            } else {
                HandlerAction::Exit(EXIT_FAILURE)
            },
        )
    } else {
        let next = InterruptHandler { blocks: (h.blocks - 1) as u32, ..h };
        if h.interrupted {
            (next, HandlerAction::Exit(INTERRUPT_EXIT_CODE))
        } else {
            (next, HandlerAction::Continue)
        }
    }
}

/// Lifting a block just placed gives back the state before it, and ends the
/// process exactly when an interrupt arrived meanwhile.
pub proof fn lemma_block_then_unblock(h: InterruptHandler)
    requires
        h.blocks < u32::MAX,
    ensures
        spec_unblock(spec_block(h)).0 == h,
        spec_unblock(spec_block(h)).1 == if h.interrupted {
            HandlerAction::Exit(INTERRUPT_EXIT_CODE)
        } else {
            HandlerAction::Continue
        },
{
}

/// An interrupt while blocked is acted upon when the last block is lifted.
pub proof fn lemma_interrupt_deferred(h: InterruptHandler)
    requires
        h.blocks == 1,
    ensures
        spec_interrupt(h).1 == HandlerAction::Continue,
        spec_unblock(spec_interrupt(h).0).1 == HandlerAction::Exit(INTERRUPT_EXIT_CODE),
{
}

impl InterruptHandler {
    /// A handler with no blocks and no interrupt; `loud` tells whether
    /// errors are reported.
    pub fn new(loud: bool) -> (r: Self)
        ensures
            r == (InterruptHandler { blocks: 0, interrupted: false, loud }),
    {
        InterruptHandler { blocks: 0, interrupted: false, loud }
    }

    /// Record an interrupt; the process exits unless interrupts are blocked.
    pub fn interrupt(&mut self) -> (r: HandlerAction)
        ensures
            (*final(self), r) == spec_interrupt(*old(self)),
    {
        self.interrupted = true;
        if self.blocks > 0 {
            return HandlerAction::Continue;
        }
        HandlerAction::Exit(INTERRUPT_EXIT_CODE)
    }

    /// Block interrupts.
    pub fn block(&mut self)
        requires
            old(self).blocks < u32::MAX,
        ensures
            *final(self) == spec_block(*old(self)),
    {
        self.blocks = self.blocks + 1;
    }

    /// Lift a block; an interrupt that arrived meanwhile now ends the
    /// process, and lifting a block that was never placed is an error.
    pub fn unblock(&mut self) -> (r: HandlerAction)
        ensures
            (*final(self), r) == spec_unblock(*old(self)),
    {
        if self.blocks == 0 {
            if self.loud {
                return HandlerAction::ReportUnblockError;
            }
            return HandlerAction::Exit(EXIT_FAILURE);
        }
        self.blocks = self.blocks - 1;
        if self.interrupted {
            return HandlerAction::Exit(INTERRUPT_EXIT_CODE);
        }
        HandlerAction::Continue
    }
}

} // verus!
