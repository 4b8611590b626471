use transecho::capture::InputCaptureOptions;
use transecho::device::{
    describe_input_device, find_input_device, find_output_device, list_audio_devices,
    list_input_devices, list_output_devices, normalize_name, DeviceChoice, DeviceProbe,
};
use transecho::types::{AudioDeviceInfo, AudioDeviceList, AudioFrame};

fn probe(name: Option<&str>, cfg: Option<(u16, u32)>) -> DeviceProbe {
    DeviceProbe { name: name.map(|s| s.to_string()), default_config: cfg }
}

#[test]
fn names_are_trimmed() {
    assert_eq!(normalize_name("  MacBook Mic \n"), "MacBook Mic");
    assert_eq!(normalize_name("\u{3000}BlackHole 2ch\u{a0}"), "BlackHole 2ch");
    assert_eq!(normalize_name("   "), "");
}

#[test]
fn input_devices_are_described_in_order() {
    let devices = vec![
        probe(Some(" Mic A "), Some((1, 48000))),
        probe(Some("Mic B"), None),
        probe(None, Some((2, 44100))),
    ];
    let out = list_input_devices(Some("Mic A"), &devices);
    assert_eq!(out.len(), 3);
    assert_eq!(out[0].name, "Mic A");
    assert_eq!(out[0].id, "Mic A");
    assert!(out[0].is_default);
    assert!(out[0].is_input && !out[0].is_output);
    assert_eq!(out[0].channels, Some(1));
    assert_eq!(out[0].sample_rate, Some(48000));
    assert!(!out[1].is_default);
    assert_eq!(out[1].channels, None);
    assert_eq!(out[1].sample_rate, None);
    assert_eq!(out[2].name, "Unknown Input Device");
    assert!(!out[2].is_default);
    assert_eq!(out[2].channels, Some(2));
}

#[test]
fn output_devices_and_full_list() {
    let outputs = vec![probe(None, None), probe(Some("Speakers"), Some((2, 48000)))];
    let out = list_output_devices(Some(" Speakers"), &outputs);
    assert_eq!(out[0].name, "Unknown Output Device");
    assert!(out[1].is_default && out[1].is_output && !out[1].is_input);
    let all = list_audio_devices(None, &[probe(Some("In"), None)], None, &outputs);
    assert_eq!(all.inputs.len(), 1);
    assert!(!all.inputs[0].is_default);
    assert_eq!(all.outputs.len(), 2);
    assert!(!all.outputs[1].is_default);
    let described = describe_input_device(Some("In"), &probe(Some("In "), Some((1, 16000))));
    assert!(described.is_default);
    assert_eq!(described.sample_rate, Some(16000));
}

#[test]
fn devices_are_found_by_name() {
    let names = vec![Ok("Mic A".to_string()), Ok(" Mic B ".to_string())];
    assert_eq!(find_input_device(Some("Mic B"), &names, true), Ok(DeviceChoice::Listed(1)));
    assert_eq!(find_input_device(None, &names, true), Ok(DeviceChoice::Default));
    assert_eq!(
        find_input_device(Some(" Mic C "), &names, true),
        Err("Input device not found: Mic C".to_string())
    );
    assert_eq!(
        find_output_device(Some("X"), &names, true),
        Err("Output device not found: X".to_string())
    );
    assert_eq!(
        find_input_device(None, &names, false),
        Err("No default input audio device found".to_string())
    );
    assert_eq!(
        find_output_device(None, &names, false),
        Err("No default output audio device found".to_string())
    );
    let broken = vec![Ok("Other".to_string()), Err("name unavailable".to_string()), Ok("Mic".to_string())];
    assert_eq!(find_input_device(Some("Mic"), &broken, true), Err("name unavailable".to_string()));
    assert_eq!(find_input_device(Some("Other"), &broken, true), Ok(DeviceChoice::Listed(0)));
}

#[test]
fn device_types() {
    let d = AudioDeviceInfo::new("a".to_string(), "b".to_string(), true, false, true, Some(2), None);
    assert_eq!(d.id, "a");
    assert_eq!(d.name, "b");
    assert!(d.is_default && d.is_output && !d.is_input);
    let l = AudioDeviceList::new(vec![], vec![d]);
    assert!(l.inputs.is_empty());
    assert_eq!(l.outputs.len(), 1);
    let opts = InputCaptureOptions::with_device_name("Mic".to_string());
    assert_eq!(opts.device_name.as_deref(), Some("Mic"));
    assert!(InputCaptureOptions::default().device_name.is_none());
}

#[test]
fn audio_frame_counts() {
    let f = AudioFrame::new(vec![0i16; 7], 48000, 2);
    assert_eq!(f.frame_count(), 3);
    assert!(!f.is_empty());
    let g: AudioFrame<i16> = AudioFrame::new(vec![], 16000, 0);
    assert_eq!(g.frame_count(), 0);
    assert!(g.is_empty());
}
