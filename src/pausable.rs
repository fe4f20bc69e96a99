//! The emergency stop shared by the components.

use vstd::prelude::*;

verus! {

/// Why a pause-gated request was refused.
#[derive(Clone, Copy, Debug, PartialEq, Eq, Structural)]
pub enum PauseError {
    /// A mutating operation was attempted while paused.
    Paused,
    /// `pause` was called while already paused.
    AlreadyPaused,
    /// `unpause` or `require_paused` was called while running.
    NotPaused,
}

/// Emergency-stop flag: while set, every mutating operation of the component
/// that owns it is refused.
#[derive(Clone, Copy, Debug, PartialEq, Eq, Structural)]
pub struct Pausable {
    pub paused: bool,
}

impl Pausable {
    /// A running (not paused) flag.
    pub fn new() -> (r: Pausable)
        ensures
            !r.paused,
    {
        Pausable { paused: false }
    }

    /// Whether mutating operations are currently refused.
    pub fn is_paused(&self) -> (r: bool)
        ensures
            r == self.paused,
    {
        self.paused
    }

    /// Sets the flag; fails if it is already set.
    pub fn pause(&mut self) -> (r: Result<(), PauseError>)
        ensures
            old(self).paused ==> r == Err::<(), PauseError>(PauseError::AlreadyPaused)
                && *final(self) == *old(self),
            !old(self).paused ==> r.is_ok() && final(self).paused,
    {
        if self.paused {
            return Err(PauseError::AlreadyPaused);
        }
        self.paused = true;
        Ok(())
    }

    /// Clears the flag; fails if it is not set.
    pub fn unpause(&mut self) -> (r: Result<(), PauseError>)
        ensures
            !old(self).paused ==> r == Err::<(), PauseError>(PauseError::NotPaused)
                && *final(self) == *old(self),
            old(self).paused ==> r.is_ok() && !final(self).paused,
    {
        if !self.paused {
            return Err(PauseError::NotPaused);
        }
        self.paused = false;
        Ok(())
    }

    /// Succeeds exactly when the flag is clear.
    pub fn require_not_paused(&self) -> (r: Result<(), PauseError>)
        ensures
            r == if self.paused {
                Err::<(), PauseError>(PauseError::Paused)
            } else {
                Ok(())
            },
    {
        if self.paused {
            Err(PauseError::Paused)
        } else {
            Ok(())
        }
    }

    /// Succeeds exactly when the flag is set.
    pub fn require_paused(&self) -> (r: Result<(), PauseError>)
        ensures
            r == if self.paused {
                Ok::<(), PauseError>(())
            } else {
                Err(PauseError::NotPaused)
            },
    {
        if self.paused {
            Ok(())
        } else {
            Err(PauseError::NotPaused)
        }
    }
}

} // verus!
