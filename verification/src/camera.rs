//! Typestate markers for the camera builder.
//!
//! A camera is assembled in a fixed order — viewport, then position,
//! then orientation, then optional lens settings — and the builder
//! carries one of these marker types so that each step is only offered
//! at the right stage.

use vstd::prelude::*;

verus! {

/// Implemented by every stage marker of the camera builder.
pub trait CameraBuilderState {

}

/// No camera data has been supplied yet; a viewport comes first.
pub struct Initial;

/// The viewport is fixed; the camera position comes next.
pub struct WaitForPosition;

/// Viewport and position are fixed; the orientation comes next.
pub struct WaitForOrientation;

/// All required data is present; lens settings may still be adjusted.
pub struct Completed;

impl CameraBuilderState for Initial {

}

impl CameraBuilderState for WaitForPosition {

}

impl CameraBuilderState for WaitForOrientation {

}

impl CameraBuilderState for Completed {

}

} // verus!
