use webxr::physics::{Backend, DeviceFault, FaultAction, PhysicsDriver, TickPlan};

#[test]
fn first_tick_uploads_then_only_on_change() {
    let mut d = PhysicsDriver::new(true);
    assert_eq!(d.backend, Backend::Device);
    assert_eq!(d.plan_tick(true, 1, 10), TickPlan { upload_topology: true, step: true });
    d.step_completed(1, 10);
    assert_eq!(d.plan_tick(true, 1, 10), TickPlan { upload_topology: false, step: true });
    assert_eq!(d.plan_tick(true, 2, 10), TickPlan { upload_topology: true, step: true });
    assert_eq!(d.plan_tick(true, 1, 11), TickPlan { upload_topology: true, step: true });
    assert_eq!(d.completed_steps, 1);
}

#[test]
fn disabled_simulation_makes_ticks_no_ops() {
    let d = PhysicsDriver::new(false);
    assert_eq!(d.backend, Backend::Host);
    assert_eq!(d.plan_tick(false, 1, 10), TickPlan { upload_topology: false, step: false });
}

#[test]
fn faults_fall_back_skip_or_abort() {
    let mut d = PhysicsDriver::new(true);
    d.step_completed(3, 4);
    assert_eq!(d.on_fault(DeviceFault::Step), FaultAction::SkipTick);
    assert_eq!(d.plan_tick(true, 3, 4).upload_topology, false);
    assert_eq!(d.on_fault(DeviceFault::TopologyUpload), FaultAction::AbortTick);
    assert_eq!(d.plan_tick(true, 3, 4).upload_topology, true);
    d.step_completed(3, 4);
    assert_eq!(d.on_fault(DeviceFault::Init), FaultAction::FallBackToHost);
    assert_eq!(d.backend, Backend::Host);
    assert_eq!(d.plan_tick(true, 3, 4).upload_topology, true);
    assert_eq!(d.completed_steps, 2);
}
