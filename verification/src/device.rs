//! Audio device enumeration and selection by name. The host is queried by the
//! caller; what it reports about each device is handed in as a `DeviceProbe`.

use vstd::prelude::*;
use crate::text::{trim, trim_chars};
use crate::types::{AudioDeviceInfo, AudioDeviceList};

verus! {

/// What the audio host reports about one device.
pub struct DeviceProbe {
    /// The device's name, or `None` when the host could not tell it.
    pub name: Option<String>,
    /// Channels and sample rate of the default configuration, if the host gave one.
    pub default_config: Option<(u16, u32)>,
}

/// Which device to open.
#[derive(Debug, Clone, Copy, PartialEq, Eq)]
pub enum DeviceChoice {
    /// The device at this index of the enumeration.
    Listed(usize),
    /// The host's default device.
    Default,
}

/// Device names are compared without surrounding whitespace.
pub fn normalize_name(name: &str) -> (out: String)
    ensures
        out@ == trim_chars(name@),
{
    String::from_str(trim(name))
}

pub open spec fn probe_name(p: DeviceProbe) -> Option<Seq<char>> {
    match p.name {
        Some(n) => Some(trim_chars(n@)),
        None => None,
    }
}

/// Whether a device is the default one: both names are known and equal after
/// normalization.
pub open spec fn is_default_device(default_name: Option<Seq<char>>, p: DeviceProbe) -> bool {
    match (default_name, p.name) {
        (Some(d), Some(n)) => trim_chars(d) == trim_chars(n@),
        _ => false,
    }
}

pub open spec fn fallback_name(is_input: bool) -> Seq<char> {
    if is_input {
        "Unknown Input Device"@
    } else {
        "Unknown Output Device"@
    }
}

/// The description of a probed device: its normalized name (or a fallback) as
/// id and name, and the default configuration's channels and rate.
pub open spec fn device_info_matches(
    d: AudioDeviceInfo,
    p: DeviceProbe,
    is_default: bool,
    is_input: bool,
    is_output: bool,
) -> bool {
    let name = match p.name {
        Some(n) => trim_chars(n@),
        None => trim_chars(fallback_name(is_input)),
    };
    &&& d.id@ == name
    &&& d.name@ == name
    &&& d.is_default == is_default
    &&& d.is_input == is_input
    &&& d.is_output == is_output
    &&& d.channels == match p.default_config {
        Some((c, _)) => Some(c),
        None => None,
    }
    &&& d.sample_rate == match p.default_config {
        Some((_, r)) => Some(r),
        None => None,
    }
}

pub open spec fn opt_view(s: Option<&str>) -> Option<Seq<char>> {
    match s {
        Some(x) => Some(x@),
        None => None,
    }
}

/// `out` describes `devices` one for one, in order.
pub open spec fn describes_devices(
    out: Seq<AudioDeviceInfo>,
    default_name: Option<Seq<char>>,
    devices: Seq<DeviceProbe>,
    is_input: bool,
) -> bool {
    &&& out.len() == devices.len()
    &&& forall|i: int|
        0 <= i < devices.len() ==> device_info_matches(
            #[trigger] out[i],
            devices[i],
            is_default_device(default_name, devices[i]),
            is_input,
            !is_input,
        )
}

fn names_equal(a: &String, b: &String) -> (r: bool)
    ensures
        r == (a@ == b@),
{
    *a == *b
}

fn is_default_exec(default_name: Option<&str>, p: &DeviceProbe) -> (r: bool)
    ensures
        r == is_default_device(
            match default_name {
                Some(d) => Some(d@),
                None => None,
            },
            *p,
        ),
{
    match (default_name, &p.name) {
        (Some(d), Some(n)) => {
            let a = normalize_name(d);
            let b = normalize_name(n.as_str());
            names_equal(&a, &b)
        },
        _ => false,
    }
}

pub fn build_device_info(p: &DeviceProbe, is_default: bool, is_input: bool, is_output: bool) -> (d: AudioDeviceInfo)
    ensures
        device_info_matches(d, *p, is_default, is_input, is_output),
{
    let name = match &p.name {
        Some(n) => normalize_name(n.as_str()),
        None => {
            if is_input {
                normalize_name("Unknown Input Device")
            } else {
                normalize_name("Unknown Output Device")
            }
        },
    };
    let (channels, sample_rate) = match p.default_config {
        Some((c, r)) => (Some(c), Some(r)),
        None => (None, None),
    };
    AudioDeviceInfo::new(name.clone(), name, is_default, is_input, is_output, channels, sample_rate)
}

fn list_devices(default_name: Option<&str>, devices: &[DeviceProbe], is_input: bool) -> (out: Vec<AudioDeviceInfo>)
    ensures
        describes_devices(out@, opt_view(default_name), devices@, is_input),
{
    let mut out: Vec<AudioDeviceInfo> = Vec::new();
    let mut i: usize = 0;
    while i < devices.len()
        invariant
            i <= devices@.len(),
            out@.len() == i,
            opt_view(default_name) == match default_name {
                Some(d) => Some(d@),
                None => None,
            },
            forall|j: int|
                0 <= j < i ==> device_info_matches(
                    #[trigger] out@[j],
                    devices@[j],
                    is_default_device(
                        match default_name {
                            Some(d) => Some(d@),
                            None => None,
                        },
                        devices@[j],
                    ),
                    is_input,
                    !is_input,
                ),
        decreases devices@.len() - i,
    {
        let p = &devices[i];
        let is_default = is_default_exec(default_name, p);
        out.push(build_device_info(p, is_default, is_input, !is_input));
        i += 1;
    }
    out
}

/// Describes the input devices in the order the host enumerated them;
/// `default_name` is the name of the host's default input device, if known.
pub fn list_input_devices(default_name: Option<&str>, devices: &[DeviceProbe]) -> (out: Vec<AudioDeviceInfo>)
    ensures
        describes_devices(out@, opt_view(default_name), devices@, true),
{
    list_devices(default_name, devices, true)
}

/// Describes the output devices in the order the host enumerated them.
pub fn list_output_devices(default_name: Option<&str>, devices: &[DeviceProbe]) -> (out: Vec<AudioDeviceInfo>)
    ensures
        describes_devices(out@, opt_view(default_name), devices@, false),
{
    list_devices(default_name, devices, false)
}

/// Describes the input and the output devices.
pub fn list_audio_devices(
    default_input: Option<&str>,
    inputs: &[DeviceProbe],
    default_output: Option<&str>,
    outputs: &[DeviceProbe],
) -> (l: AudioDeviceList)
    ensures
        describes_devices(l.inputs@, opt_view(default_input), inputs@, true),
        describes_devices(l.outputs@, opt_view(default_output), outputs@, false),
{
    AudioDeviceList::new(list_input_devices(default_input, inputs), list_output_devices(default_output, outputs))
}

/// Describes an input device that was selected.
pub fn describe_input_device(default_name: Option<&str>, device: &DeviceProbe) -> (d: AudioDeviceInfo)
    ensures
        device_info_matches(
            d,
            *device,
            is_default_device(
                match default_name {
                    Some(n) => Some(n@),
                    None => None,
                },
                *device,
            ),
            true,
            false,
        ),
{
    let is_default = is_default_exec(default_name, device);
    build_device_info(device, is_default, true, false)
}

/// Every described device, input or output, reports the channels and sample
/// rate of its probed default configuration, or none when the host gave none;
/// it is an input exactly when listed as one and an output otherwise, named by
/// its trimmed name when the host told it.
pub proof fn law_described_devices_keep_their_configuration(
    out: Seq<AudioDeviceInfo>,
    default_name: Option<Seq<char>>,
    devices: Seq<DeviceProbe>,
    is_input: bool,
)
    requires
        describes_devices(out, default_name, devices, is_input),
    ensures
        out.len() == devices.len(),
        forall|i: int|
            0 <= i < devices.len() ==> {
                &&& (#[trigger] devices[i]).default_config matches Some((c, r)) ==> out[i].channels == Some(c)
                    && out[i].sample_rate == Some(r)
                &&& devices[i].default_config is None ==> out[i].channels is None && out[i].sample_rate is None
                &&& out[i].is_input == is_input
                &&& out[i].is_output == !is_input
                &&& devices[i].name matches Some(n) ==> out[i].name@ == trim_chars(n@) && out[i].id@
                    == trim_chars(n@)
            },
{
    assert forall|i: int| 0 <= i < devices.len() implies {
        &&& (#[trigger] devices[i]).default_config matches Some((c, r)) ==> out[i].channels == Some(c)
            && out[i].sample_rate == Some(r)
        &&& devices[i].default_config is None ==> out[i].channels is None && out[i].sample_rate is None
        &&& out[i].is_input == is_input
        &&& out[i].is_output == !is_input
        &&& devices[i].name matches Some(n) ==> out[i].name@ == trim_chars(n@) && out[i].id@ == trim_chars(
            n@,
        )
    } by {
        assert(device_info_matches(
            out[i],
            devices[i],
            is_default_device(default_name, devices[i]),
            is_input,
            !is_input,
        ));
    }
}

/// A device is marked default exactly when the host named a default device and
/// this device's name equals it once both are trimmed.
pub proof fn law_default_device_is_marked_by_name(
    out: Seq<AudioDeviceInfo>,
    default_name: Option<Seq<char>>,
    devices: Seq<DeviceProbe>,
    is_input: bool,
)
    requires
        describes_devices(out, default_name, devices, is_input),
    ensures
        forall|i: int|
            0 <= i < devices.len() ==> (#[trigger] out[i]).is_default == (default_name matches Some(d)
                && devices[i].name matches Some(n) && trim_chars(d) == trim_chars(n@)),
{
    assert forall|i: int| 0 <= i < devices.len() implies (#[trigger] out[i]).is_default == (
    default_name matches Some(d) && devices[i].name matches Some(n) && trim_chars(d) == trim_chars(n@)) by {
        assert(device_info_matches(
            out[i],
            devices[i],
            is_default_device(default_name, devices[i]),
            is_input,
            !is_input,
        ));
    }
}

/// The outcome of looking a device up by name among `names` (the names the host
/// reports, in enumeration order, or the error it gave instead).
pub open spec fn find_device_result(
    requested: Option<Seq<char>>,
    names: Seq<Result<String, String>>,
    has_default: bool,
    is_input: bool,
) -> Result<DeviceChoice, Seq<char>> {
    match requested {
        Some(r) => find_in(trim_chars(r), names, 0, is_input),
        None => if has_default {
            Ok(DeviceChoice::Default)
        } else if is_input {
            Err("No default input audio device found"@)
        } else {
            Err("No default output audio device found"@)
        },
    }
}

/// Scans `names` from index `i`: the first error stops the scan, the first name
/// equal to `target` after normalization is chosen.
pub open spec fn find_in(target: Seq<char>, names: Seq<Result<String, String>>, i: nat, is_input: bool) -> Result<DeviceChoice, Seq<char>>
    decreases names.len() - i,
{
    if i >= names.len() {
        if is_input {
            Err("Input device not found: "@ + target)
        } else {
            Err("Output device not found: "@ + target)
        }
    } else {
        match names[i as int] {
            Err(e) => Err(e@),
            Ok(n) => if trim_chars(n@) == target {
                Ok(DeviceChoice::Listed(i as usize))
            } else {
                find_in(target, names, i + 1, is_input)
            },
        }
    }
}

fn find_device(requested: Option<&str>, names: &[Result<String, String>], has_default: bool, is_input: bool) -> (res: Result<DeviceChoice, String>)
    ensures
        match find_device_result(
            match requested {
                Some(r) => Some(r@),
                None => None,
            },
            names@,
            has_default,
            is_input,
        ) {
            Ok(c) => res == Ok::<DeviceChoice, String>(c),
            Err(m) => res matches Err(e) && e@ == m,
        },
{
    match requested {
        Some(r) => {
            let target = normalize_name(r);
            let mut i: usize = 0;
            while i < names.len()
                invariant
                    i <= names@.len(),
                    requested == Some(r),
                    target@ == trim_chars(r@),
                    find_in(target@, names@, 0, is_input) == find_in(target@, names@, i as nat, is_input),
                decreases names@.len() - i,
            {
                let entry = &names[i];
                assert(*entry == names@[i as int]);
                match entry {
                    Err(e) => {
                        return Err(e.clone());
                    },
                    Ok(n) => {
                        let current = normalize_name(n.as_str());
                        if names_equal(&current, &target) {
                            return Ok(DeviceChoice::Listed(i));
                        }
                    },
                }
                i += 1;
            }
            let mut msg = if is_input {
                String::from_str("Input device not found: ")
            } else {
                String::from_str("Output device not found: ")
            };
            msg.append(target.as_str());
            Err(msg)
        },
        None => {
            if has_default {
                Ok(DeviceChoice::Default)
            } else if is_input {
                Err(String::from_str("No default input audio device found"))
            } else {
                Err(String::from_str("No default output audio device found"))
            }
        },
    }
}

/// Chooses the input device: by normalized name when one is requested (the
/// first match in enumeration order), the default device otherwise.
pub fn find_input_device(requested: Option<&str>, names: &[Result<String, String>], has_default: bool) -> (res: Result<DeviceChoice, String>)
    ensures
        match find_device_result(
            match requested {
                Some(r) => Some(r@),
                None => None,
            },
            names@,
            has_default,
            true,
        ) {
            Ok(c) => res == Ok::<DeviceChoice, String>(c),
            Err(m) => res matches Err(e) && e@ == m,
        },
{
    find_device(requested, names, has_default, true)
}

/// Chooses the output device, as `find_input_device` does for inputs.
pub fn find_output_device(requested: Option<&str>, names: &[Result<String, String>], has_default: bool) -> (res: Result<DeviceChoice, String>)
    ensures
        match find_device_result(
            match requested {
                Some(r) => Some(r@),
                None => None,
            },
            names@,
            has_default,
            false,
        ) {
            Ok(c) => res == Ok::<DeviceChoice, String>(c),
            Err(m) => res matches Err(e) && e@ == m,
        },
{
    find_device(requested, names, has_default, false)
}

} // verus!
