//! Audio frames and device descriptions shared by capture, playback and the UI.

use vstd::prelude::*;

verus! {

/// A block of PCM samples; multi-channel audio is interleaved.
#[derive(Debug, Clone)]
pub struct AudioFrame<S> {
    pub samples: Vec<S>,
    /// Sample rate in Hz.
    pub sample_rate: u32,
    /// Channel count.
    pub channels: u16,
}

impl<S> AudioFrame<S> {
    pub fn new(samples: Vec<S>, sample_rate: u32, channels: u16) -> (f: Self)
        ensures
            f.samples@ == samples@,
            f.sample_rate == sample_rate,
            f.channels == channels,
    {
        AudioFrame { samples, sample_rate, channels }
    }

    /// Number of complete frames (one sample per channel); zero when there are no channels.
    pub fn frame_count(&self) -> (n: usize)
        ensures
            n == if self.channels == 0 {
                0
            } else {
                self.samples@.len() / (self.channels as nat)
            },
    {
        if self.channels == 0 {
            return 0;
        }
        self.samples.len() / self.channels as usize
    }

    pub fn is_empty(&self) -> (b: bool)
        ensures
            b == (self.samples@.len() == 0),
    {
        self.samples.len() == 0
    }
}

/// Description of an audio device; the device name serves as its id.
#[derive(Debug, Clone)]
pub struct AudioDeviceInfo {
    pub id: String,
    pub name: String,
    pub is_default: bool,
    pub is_input: bool,
    pub is_output: bool,
    pub channels: Option<u16>,
    pub sample_rate: Option<u32>,
}

impl AudioDeviceInfo {
    pub fn new(
        id: String,
        name: String,
        is_default: bool,
        is_input: bool,
        is_output: bool,
        channels: Option<u16>,
        sample_rate: Option<u32>,
    ) -> (d: Self)
        ensures
            d.id@ == id@,
            d.name@ == name@,
            d.is_default == is_default,
            d.is_input == is_input,
            d.is_output == is_output,
            d.channels == channels,
            d.sample_rate == sample_rate,
    {
        AudioDeviceInfo { id, name, is_default, is_input, is_output, channels, sample_rate }
    }
}

/// The input and the output devices of the system.
#[derive(Debug, Clone)]
pub struct AudioDeviceList {
    pub inputs: Vec<AudioDeviceInfo>,
    pub outputs: Vec<AudioDeviceInfo>,
}

impl AudioDeviceList {
    pub fn new(inputs: Vec<AudioDeviceInfo>, outputs: Vec<AudioDeviceInfo>) -> (l: Self)
        ensures
            l.inputs@ == inputs@,
            l.outputs@ == outputs@,
    {
        AudioDeviceList { inputs, outputs }
    }
}

} // verus!
