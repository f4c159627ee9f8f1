use vstd::prelude::*;

use std::sync::{Arc, Mutex};

verus! {

/// std's `Mutex`, carried as an opaque value: nothing here looks inside it.
#[verifier::external_type_specification]
#[verifier::external_body]
#[verifier::reject_recursive_types(T)]
pub struct ExMutex<T: ?Sized>(Mutex<T>);

/// Syscall number of `close`.
pub const CLOSE: u64 = 2608;

/// Cycles charged for a syscall that yields to the scheduler.
pub const SPAWN_YIELD_CYCLES_BASE: u64 = 800;

/// Identifier of a VM instance.
pub type VmId = u64;

/// A file descriptor of a pipe between VMs.
#[derive(Clone, Copy, Debug, PartialEq, Eq, Structural)]
pub struct Fd(pub u64);

/// A request from a VM to the scheduler.
#[derive(Clone, Copy, Debug, PartialEq, Eq, Structural)]
pub enum Message {
    Close(VmId, Fd),
}

/// The `close` syscall of one VM: posts a close request for the scheduler.
#[derive(Debug)]
pub struct Close {
    pub id: VmId,
    pub message_box: Arc<Mutex<Vec<Message>>>,
}

/// What the machine does for an `ecall` that `close` looks at.
#[derive(Clone, Copy, Debug, PartialEq, Eq, Structural)]
pub enum CloseAction {
    /// Another syscall: not handled here.
    NotHandled,
    /// Charge `cycles`, post `message`, then yield.
    Yield { cycles: u64, message: Message },
}

impl Close {
    pub fn new(id: VmId, message_box: Arc<Mutex<Vec<Message>>>) -> (r: Close)
        ensures
            r.id == id,
            r.message_box == message_box,
    {
        Close { id, message_box }
    }

    /// The decision for an `ecall` with syscall number `a7` and first
    /// argument `a0`.
    pub fn ecall_action(&self, a7: u64, a0: u64) -> (r: CloseAction)
        ensures
            a7 != CLOSE ==> r == CloseAction::NotHandled,
            a7 == CLOSE ==> r == (CloseAction::Yield {
                cycles: SPAWN_YIELD_CYCLES_BASE,
                message: Message::Close(self.id, Fd(a0)),
            }),
    {
        if a7 != CLOSE {
            return CloseAction::NotHandled;
        }
        CloseAction::Yield { cycles: SPAWN_YIELD_CYCLES_BASE, message: Message::Close(self.id, Fd(a0)) }
    }
}

} // verus!
