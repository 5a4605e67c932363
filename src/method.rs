use vstd::prelude::*;

verus! {

/// How the driver advances the bodies by one step.
#[derive(Clone, Copy, PartialEq, Eq, Structural, Debug)]
pub enum IntegrationMethod {
    /// Drift-kick symplectic integrator of the given order (1 to 4).
    Symplectic(u8),
    /// Classical fourth-order Runge-Kutta.
    RK4,
}

impl IntegrationMethod {
    /// A method the driver can run: symplectic of order 1..=4, or RK4.
    pub open spec fn valid(self) -> bool {
        match self {
            IntegrationMethod::Symplectic(k) => 1 <= k <= 4,
            IntegrationMethod::RK4 => true,
        }
    }

    /// The method that follows `self` in the cycle
    /// Symplectic(1) .. Symplectic(4), RK4, Symplectic(1).
    pub open spec fn spec_next(self) -> IntegrationMethod {
        match self {
            IntegrationMethod::Symplectic(k) => if k >= 4 {
                IntegrationMethod::RK4
            } else {
                IntegrationMethod::Symplectic((k + 1) as u8)
            },
            IntegrationMethod::RK4 => IntegrationMethod::Symplectic(1),
        }
    }

    pub open spec fn spec_is_symplectic(self) -> bool {
        self is Symplectic
    }

    pub fn is_symplectic(&self) -> (r: bool)
        ensures
            r == self.spec_is_symplectic(),
    {
        match self {
            IntegrationMethod::Symplectic(_) => true,
            IntegrationMethod::RK4 => false,
        }
    }

    /// The next method in the user-facing cycle.
    pub fn next(&self) -> (r: IntegrationMethod)
        requires
            self.valid(),
        ensures
            r == self.spec_next(),
            r.valid(),
    {
        match self {
            IntegrationMethod::Symplectic(k) => if *k >= 4 {
                IntegrationMethod::RK4
            } else {
                IntegrationMethod::Symplectic(*k + 1)
            },
            IntegrationMethod::RK4 => IntegrationMethod::Symplectic(1),
        }
    }

    /// Whether the pairwise force phase is sharded over worker threads:
    /// only symplectic methods are, and only with more than one thread.
    pub fn uses_workers(&self, num_threads: usize) -> (r: bool)
        ensures
            r == (self.spec_is_symplectic() && num_threads > 1),
    {
        self.is_symplectic() && num_threads > 1
    }
}

} // verus!
