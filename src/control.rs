//! The consumer's control surface: commands, the keys that send them, and
//! their effect on the discrete simulation parameters.
use vstd::prelude::*;
use crate::method::IntegrationMethod;

verus! {

/// A command sent by the consumer.
#[derive(Clone, Copy, PartialEq, Eq, Structural, Debug)]
pub enum Command {
    /// Start when stopped, stop when running.
    ToggleRun,
    /// Multiply the target speed (or the time step) by a factor above one.
    Faster,
    /// Divide the target speed (or the time step) by that factor.
    Slower,
    /// Use the given positive number of threads.
    SetThreads(usize),
    /// One thread more.
    MoreThreads,
    /// One thread fewer, never below one.
    FewerThreads,
    /// Next integration method in the cycle.
    CycleMethod,
    /// Append a randomly generated body (only while stopped).
    AddBody,
    /// Switch between a commanded speed and a commanded time step.
    ToggleTargetSpeed,
}

impl Command {
    pub open spec fn valid(self) -> bool {
        match self {
            Command::SetThreads(k) => k >= 1,
            _ => true,
        }
    }
}

/// The command bound to a key code, if any: numpad plus and minus, space,
/// the digits 1 to 9, and the letters Q, W, M, R and T.
pub open spec fn spec_command_for_key(key: u32) -> Option<Command> {
    if key == 107 {
        Some(Command::Faster)
    } else if key == 109 {
        Some(Command::Slower)
    } else if key == 32 {
        Some(Command::ToggleRun)
    } else if 49 <= key <= 57 {
        Some(Command::SetThreads((key - 48) as usize))
    } else if key == 81 {
        Some(Command::FewerThreads)
    } else if key == 87 {
        Some(Command::MoreThreads)
    } else if key == 77 {
        Some(Command::CycleMethod)
    } else if key == 82 {
        Some(Command::AddBody)
    } else if key == 84 {
        Some(Command::ToggleTargetSpeed)
    } else {
        None
    }
}

pub fn command_for_key(key: u32) -> (r: Option<Command>)
    ensures
        r == spec_command_for_key(key),
        r matches Some(c) ==> c.valid(),
{
    if key == 107 {
        Some(Command::Faster)
    } else if key == 109 {
        Some(Command::Slower)
    } else if key == 32 {
        Some(Command::ToggleRun)
    } else if 49 <= key && key <= 57 {
        Some(Command::SetThreads((key - 48) as usize))
    } else if key == 81 {
        Some(Command::FewerThreads)
    } else if key == 87 {
        Some(Command::MoreThreads)
    } else if key == 77 {
        Some(Command::CycleMethod)
    } else if key == 82 {
        Some(Command::AddBody)
    } else if key == 84 {
        Some(Command::ToggleTargetSpeed)
    } else {
        None
    }
}

/// The discrete simulation parameters the consumer commands.
#[derive(Clone, Copy, PartialEq, Eq, Structural, Debug)]
pub struct Controls {
    pub method: IntegrationMethod,
    pub num_threads: usize,
    pub use_target_speed: bool,
}

impl Controls {
    pub open spec fn wf(self) -> bool {
        self.method.valid() && self.num_threads >= 1
    }

    /// Parameters after `cmd`. Commands on running state, speed and bodies
    /// leave them as they are.
    pub open spec fn spec_apply(self, cmd: Command) -> Controls {
        match cmd {
            Command::SetThreads(k) => Controls { num_threads: k, ..self },
            Command::MoreThreads => Controls {
                num_threads: if self.num_threads < usize::MAX {
                    (self.num_threads + 1) as usize
                } else {
                    self.num_threads
                },
                ..self
            },
            Command::FewerThreads => Controls {
                num_threads: if self.num_threads > 1 {
                    (self.num_threads - 1) as usize
                } else {
                    1
                },
                ..self
            },
            Command::CycleMethod => Controls { method: self.method.spec_next(), ..self },
            Command::ToggleTargetSpeed => Controls { use_target_speed: !self.use_target_speed, ..self },
            _ => self,
        }
    }

    /// Symplectic of fourth order on one thread, with a fixed time step.
    pub fn new() -> (r: Controls)
        ensures
            r.wf(),
            r == (Controls {
                method: IntegrationMethod::Symplectic(4),
                num_threads: 1,
                use_target_speed: false,
            }),
    {
        Controls { method: IntegrationMethod::Symplectic(4), num_threads: 1, use_target_speed: false }
    }

    pub fn apply(&mut self, cmd: Command)
        requires
            old(self).wf(),
            cmd.valid(),
        ensures
            *final(self) == old(self).spec_apply(cmd),
            final(self).wf(),
    {
        match cmd {
            Command::SetThreads(k) => {
                self.num_threads = k;
            },
            Command::MoreThreads => {
                if self.num_threads < usize::MAX {
                    self.num_threads = self.num_threads + 1;
                }
            },
            Command::FewerThreads => {
                if self.num_threads > 1 {
                    self.num_threads = self.num_threads - 1;
                }
            },
            Command::CycleMethod => {
                self.method = self.method.next();
            },
            Command::ToggleTargetSpeed => {
                self.use_target_speed = !self.use_target_speed;
            },
            _ => {},
        }
    }
}

} // verus!
