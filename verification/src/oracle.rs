//! The accelerator availability oracle and the size-gated choice between
//! the host and the accelerator.

use vstd::prelude::*;

verus! {

/// Batch size from which the accelerator is worth its dispatch overhead:
/// two to the sixteenth.
pub const CROSSOVER: usize = 0x1_0000;

/// What is known of the accelerator while one call is being routed.
#[derive(Clone, Copy, Debug, PartialEq, Eq, Structural)]
pub enum Availability {
    /// Not forced off, and no device has been seen.
    Unknown,
    /// Not forced off, and a device answered the probe.
    Available,
    /// The process-wide override forces host execution.
    ForcedOff,
}

/// The substrate a call runs on.
#[derive(Clone, Copy, Debug, PartialEq, Eq, Structural)]
pub enum Route {
    /// The multi-threaded host kernel.
    Host,
    /// The accelerator kernel.
    Accelerator,
}

/// Whether a batch of `batch` items goes to the accelerator.
pub open spec fn accelerated(batch: int, availability: Availability) -> bool {
    batch >= CROSSOVER && availability == Availability::Available
}

impl Availability {
    /// The state that the override alone gives.
    pub open spec fn initial(forced_off: bool) -> Availability {
        if forced_off {
            Availability::ForcedOff
        } else {
            Availability::Unknown
        }
    }

    /// The state that follows a device probe.
    pub open spec fn after_probe(self, device_present: bool) -> Availability {
        if self == Availability::ForcedOff {
            Availability::ForcedOff
        } else if device_present {
            Availability::Available
        } else {
            Availability::Unknown
        }
    }

    /// The state before any probe: the override is read first.
    pub fn new(forced_off: bool) -> (a: Availability)
        ensures
            a == Self::initial(forced_off),
    {
        if forced_off {
            Availability::ForcedOff
        } else {
            Availability::Unknown
        }
    }

    /// Whether routing a batch of this size depends on a device probe that
    /// has not been made: never below the crossover, and never once the
    /// override is set.
    pub fn needs_probe(&self, batch: usize) -> (b: bool)
        ensures
            b == (batch >= CROSSOVER && *self == Availability::Unknown),
    {
        batch >= CROSSOVER && *self == Availability::Unknown
    }

    /// The state after a device probe. The override outlives any probe.
    pub fn probed(self, device_present: bool) -> (a: Availability)
        ensures
            a == self.after_probe(device_present),
    {
        match self {
            Availability::ForcedOff => Availability::ForcedOff,
            _ => if device_present {
                Availability::Available
            } else {
                Availability::Unknown
            },
        }
    }

    /// Whether the accelerator may be used at all.
    pub fn available(&self) -> (b: bool)
        ensures
            b == (*self == Availability::Available),
    {
        *self == Availability::Available
    }
}

/// Chooses the substrate for a batch: the accelerator from the crossover
/// on, where it is available, and the host otherwise.
pub fn route(batch: usize, availability: Availability) -> (r: Route)
    ensures
        r == (if accelerated(batch as int, availability) {
            Route::Accelerator
        } else {
            Route::Host
        }),
{
    if batch >= CROSSOVER && availability.available() {
        Route::Accelerator
    } else {
        Route::Host
    }
}

/// With the override set, every batch runs on the host, whatever its size
/// and whatever a probe reports.
pub proof fn lemma_forced_off_routes_to_host(batch: int, device_present: bool)
    ensures
        !accelerated(batch, Availability::initial(true)),
        !accelerated(batch, Availability::initial(true).after_probe(device_present)),
{
}

/// Below the crossover every batch runs on the host, whatever is known of
/// the accelerator.
pub proof fn lemma_small_batches_route_to_host(batch: int, availability: Availability)
    requires
        batch < CROSSOVER,
    ensures
        !accelerated(batch, availability),
{
}

} // verus!
