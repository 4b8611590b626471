//! Options of microphone capture.

use vstd::prelude::*;

verus! {

/// Which input device to capture from: `None` selects the default device.
#[derive(Debug, Clone)]
pub struct InputCaptureOptions {
    pub device_name: Option<String>,
}

impl InputCaptureOptions {
    /// Capture from the device with this name.
    pub fn with_device_name(device_name: String) -> (o: Self)
        ensures
            o.device_name matches Some(n) && n@ == device_name@,
    {
        InputCaptureOptions { device_name: Some(device_name) }
    }
}

impl Default for InputCaptureOptions {
    fn default() -> (o: Self)
        ensures
            o.device_name is None,
    {
        InputCaptureOptions { device_name: None }
    }
}

} // verus!
