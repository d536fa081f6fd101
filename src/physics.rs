//! Decisions of the physics driver loop. The force computation runs on a
//! compute device or, as a fallback, on the host; this module decides, tick
//! by tick, what the loop does around it.
use vstd::prelude::*;

verus! {

/// Where a step is computed.
#[derive(Clone, Copy, Debug, PartialEq, Eq, Structural)]
pub enum Backend {
    Device,
    Host,
}

/// A failure reported by the compute backend.
#[derive(Clone, Copy, Debug, PartialEq, Eq, Structural)]
pub enum DeviceFault {
    /// The device could not be initialised.
    Init,
    /// One step failed on the device.
    Step,
    /// The graph could not be uploaded.
    TopologyUpload,
}

/// What the loop does after a fault.
#[derive(Clone, Copy, Debug, PartialEq, Eq, Structural)]
pub enum FaultAction {
    /// Go on with the host fallback.
    FallBackToHost,
    /// Skip this tick; the next one runs normally.
    SkipTick,
    /// Abort this tick and report the error to whoever asked for the rebuild.
    AbortTick,
}

/// What one tick does.
#[derive(Clone, Copy, Debug, PartialEq, Eq, Structural)]
pub struct TickPlan {
    /// Upload nodes and edges before stepping.
    pub upload_topology: bool,
    /// Run a step at all.
    pub step: bool,
}

/// The graph as last uploaded: its rebuild stamp and node count.
#[derive(Clone, Copy, Debug, PartialEq, Eq, Structural)]
pub struct Topology {
    pub stamp: u64,
    pub node_count: usize,
}

/// The driver's memory between ticks.
#[derive(Clone, Copy, Debug, PartialEq, Eq, Structural)]
pub struct PhysicsDriver {
    pub backend: Backend,
    /// The topology last uploaded, if any.
    pub uploaded: Option<Topology>,
    /// Ticks that ran a step to completion.
    pub completed_steps: u64,
}

/// Topology goes up when nothing was uploaded yet, or the graph was rebuilt
/// (its stamp changed) or its node count changed since.
pub open spec fn needs_upload(uploaded: Option<Topology>, stamp: u64, node_count: usize) -> bool {
    match uploaded {
        None => true,
        Some(t) => t.stamp != stamp || t.node_count != node_count,
    }
}

pub open spec fn plan_for(d: PhysicsDriver, enabled: bool, stamp: u64, node_count: usize) -> TickPlan {
    if enabled {
        TickPlan { upload_topology: needs_upload(d.uploaded, stamp, node_count), step: true }
    } else {
        TickPlan { upload_topology: false, step: false }
    }
}

pub open spec fn action_for(fault: DeviceFault) -> FaultAction {
    match fault {
        DeviceFault::Init => FaultAction::FallBackToHost,
        DeviceFault::Step => FaultAction::SkipTick,
        DeviceFault::TopologyUpload => FaultAction::AbortTick,
    }
}

impl PhysicsDriver {
    /// A driver on the device when it came up, on the host otherwise.
    pub fn new(device_ready: bool) -> (r: PhysicsDriver)
        ensures
            r.backend == (if device_ready {
                Backend::Device
            } else {
                Backend::Host
            }),
            r.uploaded is None,
            r.completed_steps == 0,
    {
        PhysicsDriver {
            backend: if device_ready { Backend::Device } else { Backend::Host },
            uploaded: None,
            completed_steps: 0,
        }
    }

    /// The plan for a tick: nothing when the parameter block disables the
    /// simulation; otherwise a step, after a topology upload when the graph
    /// changed since the last upload.
    pub fn plan_tick(&self, enabled: bool, stamp: u64, node_count: usize) -> (r: TickPlan)
        ensures
            r == plan_for(*self, enabled, stamp, node_count),
    {
        if !enabled {
            return TickPlan { upload_topology: false, step: false };
        }
        let upload_topology = match self.uploaded {
            None => true,
            Some(t) => t.stamp != stamp || t.node_count != node_count,
        };
        TickPlan { upload_topology, step: true }
    }

    /// A tick ran its step to completion, with the graph of `stamp` and
    /// `node_count` nodes on the backend.
    pub fn step_completed(&mut self, stamp: u64, node_count: usize)
        ensures
            final(self).uploaded == Some(Topology { stamp, node_count }),
            final(self).backend == old(self).backend,
            final(self).completed_steps == if old(self).completed_steps == u64::MAX {
                u64::MAX
            } else {
                (old(self).completed_steps + 1) as u64
            },
    {
        self.uploaded = Some(Topology { stamp, node_count });
        if self.completed_steps < u64::MAX {
            self.completed_steps = self.completed_steps + 1;
        }
    }

    /// Reacts to a backend fault. A device that fails to initialise is
    /// replaced by the host fallback, which then needs the topology again; a
    /// failed step skips the tick; a failed upload aborts it.
    pub fn on_fault(&mut self, fault: DeviceFault) -> (r: FaultAction)
        ensures
            r == action_for(fault),
            final(self).backend == (if fault == DeviceFault::Init {
                Backend::Host
            } else {
                old(self).backend
            }),
            final(self).uploaded == (if fault == DeviceFault::Step {
                old(self).uploaded
            } else {
                None
            }),
            final(self).completed_steps == old(self).completed_steps,
    {
        match fault {
            DeviceFault::Init => {
                self.backend = Backend::Host;
                self.uploaded = None;
                FaultAction::FallBackToHost
            },
            DeviceFault::Step => FaultAction::SkipTick,
            DeviceFault::TopologyUpload => {
                self.uploaded = None;
                FaultAction::AbortTick
            },
        }
    }
}

} // verus!
