//! Display drivers.

use vstd::prelude::*;

verus! {

/// Switches of the display drivers.
#[derive(Debug, Clone, Copy, PartialEq, Eq, Structural)]
pub struct DisplayState {
    pub nouveau_uapi_enabled: bool,
}

impl DisplayState {
    /// Everything is off.
    pub fn new() -> (state: Self)
        ensures
            !state.nouveau_uapi_enabled,
    {
        DisplayState { nouveau_uapi_enabled: false }
    }
}

/// Whether the nouveau-compatible interface is enabled.
pub fn nouveau_uapi_enabled(state: &DisplayState) -> (enabled: bool)
    ensures
        enabled == state.nouveau_uapi_enabled,
{
    state.nouveau_uapi_enabled
}

/// Enables or disables the nouveau-compatible interface.
pub fn set_nouveau_uapi_enabled(state: &mut DisplayState, v: bool)
    ensures
        *final(state) == (DisplayState { nouveau_uapi_enabled: v }),
{
    state.nouveau_uapi_enabled = v;
}

/// Takes a thread identity, for which there is no use.
pub fn set_rm_thread_id_provider(state: &mut DisplayState, _thread_id: u64)
    ensures
        *final(state) == *old(state),
{
}

/// Takes the boot framebuffer, for which there is no use.
pub fn set_boot_fb_info(state: &mut DisplayState, _addr: u64, _w: u32, _h: u32, _pitch: u32)
    ensures
        *final(state) == *old(state),
{
}

/// Takes the boot display's identification, for which there is no use.
pub fn set_boot_edid(state: &mut DisplayState, _edid: &[u8], _size: usize)
    ensures
        *final(state) == *old(state),
{
}

/// The boot display's identification. None is kept.
pub fn boot_edid(_state: &DisplayState) -> (edid: Option<([u8; 128], u32)>)
    ensures
        edid is None,
{
    None
}

} // verus!
