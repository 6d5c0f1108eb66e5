//! When the server writes its periodic diagnostics.
use vstd::prelude::*;

verus! {

/// Frames between two frame-rate log lines.
pub const FPS_LOG_PERIOD: u64 = 60;

/// Frames between two log lines with the number of connected clients.
pub const CLIENT_COUNT_LOG_PERIOD: u64 = 600;

/// Whether the frame rate is logged at frame `frame_number`.
pub fn fps_log_due(frame_number: u64) -> (r: bool)
    ensures
        r == (frame_number % FPS_LOG_PERIOD == 0),
{
    frame_number % FPS_LOG_PERIOD == 0
}

/// Whether the number of connected clients is logged at frame `frame_number`.
pub fn client_count_log_due(frame_number: u64) -> (r: bool)
    ensures
        r == (frame_number % CLIENT_COUNT_LOG_PERIOD == 0),
{
    frame_number % CLIENT_COUNT_LOG_PERIOD == 0
}

} // verus!
