use voxel_compare::state::{frame_plan, handle_key, FramePlan, Key, KeyAction, RenderMode, SurfaceStatus};

#[test]
fn labels() {
    assert_eq!(RenderMode::Rasterisation.label(), "Rasterisation");
    assert_eq!(RenderMode::RayMarch.label(), "SVO Ray March");
}

#[test]
fn toggling() {
    assert_eq!(RenderMode::Rasterisation.toggled(), RenderMode::RayMarch);
    assert_eq!(RenderMode::RayMarch.toggled(), RenderMode::Rasterisation);
}

#[test]
fn key_events() {
    let r = RenderMode::Rasterisation;
    assert_eq!(handle_key(r, Key::Escape, true), (r, KeyAction::Exit));
    assert_eq!(handle_key(r, Key::Escape, false), (r, KeyAction::Forward));
    assert_eq!(handle_key(r, Key::Tab, true), (RenderMode::RayMarch, KeyAction::Retitle));
    assert_eq!(handle_key(r, Key::Tab, false), (r, KeyAction::Forward));
    assert_eq!(handle_key(r, Key::Other, true), (r, KeyAction::Forward));
}

#[test]
fn tab_twice_round_trip() {
    for m in [RenderMode::Rasterisation, RenderMode::RayMarch] {
        let (once, _) = handle_key(m, Key::Tab, true);
        let (twice, _) = handle_key(once, Key::Tab, true);
        assert_ne!(once, m);
        assert_eq!(twice, m);
    }
}

#[test]
fn frame_plans() {
    assert_eq!(frame_plan(SurfaceStatus::Success), FramePlan::Draw { reconfigure: false });
    assert_eq!(frame_plan(SurfaceStatus::Suboptimal), FramePlan::Draw { reconfigure: true });
    assert_eq!(frame_plan(SurfaceStatus::Timeout), FramePlan::Skip { reconfigure: false });
    assert_eq!(frame_plan(SurfaceStatus::Occluded), FramePlan::Skip { reconfigure: false });
    assert_eq!(frame_plan(SurfaceStatus::Validation), FramePlan::Skip { reconfigure: false });
    assert_eq!(frame_plan(SurfaceStatus::Outdated), FramePlan::Skip { reconfigure: true });
    assert_eq!(frame_plan(SurfaceStatus::Lost), FramePlan::DeviceLost);
}
