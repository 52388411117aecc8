//! Desktop and window capture: source enumeration, the capture-session state
//! machine, and conversion of raw interleaved frames into the planar
//! luma/chroma layout that a video encoding pipeline consumes.
//!
//! The platform backend that grabs pixels is an opaque collaborator: frames
//! and result codes arrive as plain values, and every decision the session
//! takes on them is made here.

pub mod capture_result;
pub mod convert;
pub mod frame;
pub mod session;
pub mod source;
