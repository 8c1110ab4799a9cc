//! The renderer's decisions: which of the two renderers is active, what a key
//! press does, and what to do with the surface texture a frame gets.

use vstd::prelude::*;

verus! {

/// The two ways of drawing the terrain.
#[derive(PartialEq, Eq, Structural, Clone, Copy, Debug)]
pub enum RenderMode {
    /// Face-culled chunk meshes, rasterised.
    Rasterisation,
    /// One ray per pixel through the sparse voxel octree.
    RayMarch,
}

/// The other renderer.
pub open spec fn other_mode(m: RenderMode) -> RenderMode {
    match m {
        RenderMode::Rasterisation => RenderMode::RayMarch,
        RenderMode::RayMarch => RenderMode::Rasterisation,
    }
}

impl RenderMode {
    /// The other renderer.
    pub fn toggled(self) -> (m: RenderMode)
        ensures
            m == other_mode(self),
    {
        match self {
            RenderMode::Rasterisation => RenderMode::RayMarch,
            RenderMode::RayMarch => RenderMode::Rasterisation,
        }
    }

    /// The renderer's name, as the window title shows it.
    pub fn label(self) -> (s: &'static str)
        ensures
            self == RenderMode::Rasterisation ==> s@ == "Rasterisation"@,
            self == RenderMode::RayMarch ==> s@ == "SVO Ray March"@,
    {
        match self {
            RenderMode::Rasterisation => "Rasterisation",
            RenderMode::RayMarch => "SVO Ray March",
        }
    }
}

/// The keys the renderer itself acts on; every other key goes to the camera.
#[derive(PartialEq, Eq, Structural, Clone, Copy, Debug)]
pub enum Key {
    Escape,
    Tab,
    Other,
}

/// What follows a key event.
#[derive(PartialEq, Eq, Structural, Clone, Copy, Debug)]
pub enum KeyAction {
    /// Close the window and stop.
    Exit,
    /// The renderer changed: update the window title.
    Retitle,
    /// Hand the event to the camera controller.
    Forward,
}

/// The renderer and action that follow a key event: a press of Escape exits,
/// a press of Tab switches renderer, and everything else (releases included)
/// goes to the camera controller.
pub open spec fn key_step(mode: RenderMode, key: Key, is_pressed: bool) -> (RenderMode, KeyAction) {
    if key == Key::Escape && is_pressed {
        (mode, KeyAction::Exit)
    } else if key == Key::Tab && is_pressed {
        (other_mode(mode), KeyAction::Retitle)
    } else {
        (mode, KeyAction::Forward)
    }
}

/// Handles a key event in renderer `mode`: returns the renderer after it and
/// what to do.
pub fn handle_key(mode: RenderMode, key: Key, is_pressed: bool) -> (res: (RenderMode, KeyAction))
    ensures
        res == key_step(mode, key, is_pressed),
        key == Key::Escape && is_pressed ==> res == (mode, KeyAction::Exit),
        key == Key::Tab && is_pressed ==> res.1 == KeyAction::Retitle && res.0 != mode,
        !is_pressed || key == Key::Other ==> res == (mode, KeyAction::Forward),
{
    match key {
        Key::Escape if is_pressed => (mode, KeyAction::Exit),
        Key::Tab if is_pressed => (mode.toggled(), KeyAction::Retitle),
        _ => (mode, KeyAction::Forward),
    }
}

/// Pressing Tab twice comes back to the renderer one started with, and no
/// other key event changes the renderer.
pub proof fn lemma_tab_round_trip(mode: RenderMode, key: Key, is_pressed: bool)
    ensures
        key_step(key_step(mode, Key::Tab, true).0, Key::Tab, true).0 == mode,
        key_step(mode, Key::Tab, true).0 != mode,
        !(key == Key::Tab && is_pressed) ==> key_step(mode, key, is_pressed).0 == mode,
{
}

/// Whatever renderer is active, a pressed Escape quits without touching the
/// renderer, a pressed Tab always switches to the other renderer and retitles,
/// and a release or any other key always goes to the camera.
pub proof fn lemma_key_actions(mode: RenderMode, key: Key, is_pressed: bool)
    ensures
        key_step(mode, Key::Escape, true) == (mode, KeyAction::Exit),
        key_step(mode, Key::Tab, true).1 == KeyAction::Retitle,
        key_step(mode, Key::Tab, true).0 != mode,
        !is_pressed || key == Key::Other ==> key_step(mode, key, is_pressed) == (mode, KeyAction::Forward),
        key_step(mode, key, is_pressed).1 == KeyAction::Exit <==> key == Key::Escape && is_pressed,
{
}

/// How acquiring the surface's next texture went.
#[derive(PartialEq, Eq, Structural, Clone, Copy, Debug)]
pub enum SurfaceStatus {
    Success,
    Suboptimal,
    Timeout,
    Occluded,
    Outdated,
    Lost,
    Validation,
}

/// What a frame does with the texture it got.
#[derive(PartialEq, Eq, Structural, Clone, Copy, Debug)]
pub enum FramePlan {
    /// Draw into the texture, reconfiguring the surface first if asked.
    Draw { reconfigure: bool },
    /// Draw nothing this frame, reconfiguring the surface if asked.
    Skip { reconfigure: bool },
    /// The device is gone: stop with an error.
    DeviceLost,
}

/// The plan for each status: a suboptimal texture is still drawn after
/// reconfiguring, an outdated surface is reconfigured and the frame skipped,
/// timeouts, occlusion and validation errors skip the frame, and a lost
/// device is an error.
pub open spec fn plan_of(status: SurfaceStatus) -> FramePlan {
    match status {
        SurfaceStatus::Success => FramePlan::Draw { reconfigure: false },
        SurfaceStatus::Suboptimal => FramePlan::Draw { reconfigure: true },
        SurfaceStatus::Timeout | SurfaceStatus::Occluded | SurfaceStatus::Validation => FramePlan::Skip {
            reconfigure: false,
        },
        SurfaceStatus::Outdated => FramePlan::Skip { reconfigure: true },
        SurfaceStatus::Lost => FramePlan::DeviceLost,
    }
}

/// Decides what a frame does with the surface texture it got.
pub fn frame_plan(status: SurfaceStatus) -> (plan: FramePlan)
    ensures
        plan == plan_of(status),
{
    match status {
        SurfaceStatus::Success => FramePlan::Draw { reconfigure: false },
        SurfaceStatus::Suboptimal => FramePlan::Draw { reconfigure: true },
        SurfaceStatus::Timeout | SurfaceStatus::Occluded | SurfaceStatus::Validation => FramePlan::Skip {
            reconfigure: false,
        },
        SurfaceStatus::Outdated => FramePlan::Skip { reconfigure: true },
        SurfaceStatus::Lost => FramePlan::DeviceLost,
    }
}

} // verus!
