//! Plain records exchanged with the surrounding application and its
//! plugins.
use vstd::prelude::*;

verus! {

/// Size and times (milliseconds since the Unix epoch) of a file.
pub struct FileStats {
    pub size: u64,
    pub modified: u64,
    pub created: u64,
}

/// A device found on the local network.
pub struct MdnsDevice {
    pub name: String,
    pub ip: String,
    pub port: u16,
    pub service_type: String,
    pub txt_records: Vec<String>,
}

/// A liveness request to a plugin.
pub struct PingRequest {
    pub value: Option<String>,
}

/// A plugin's answer to a liveness request.
pub struct PingResponse {
    pub value: Option<String>,
}

/// A request to start the background forwarding service.
pub struct StartServiceRequest {}

/// The answer to a request to start the forwarding service.
pub struct StartServiceResponse {}

/// A request to stop the background forwarding service.
pub struct StopServiceRequest {}

/// The answer to a request to stop the forwarding service.
pub struct StopServiceResponse {}

/// A request to start recording video to a file.
pub struct StartRecordRequest {
    pub file_path: String,
}

/// Whether video recording started.
pub struct StartRecordResponse {
    pub success: bool,
}

/// The analysis of one pushed video frame.
pub struct FrameAnalysisResponse {
    pub success: bool,
    pub is_covered: bool,
    pub edge_count: i32,
}

impl PingResponse {
    /// The answer that echoes a request's value.
    pub fn echo(request: PingRequest) -> (r: PingResponse)
        ensures
            r.value == request.value,
    {
        PingResponse { value: request.value }
    }
}

} // verus!
