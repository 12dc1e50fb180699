use sinkctl::device::Device;
use sinkctl::resolver::{resolve, resolve_listing, ResolutionError};

fn sample_lines() -> Vec<String> {
    vec![
        String::from("0 alsa_output.pci-0000_00_1f.3.analog-stereo"),
        String::from("1 alsa_output.HyperX.analog-stereo"),
    ]
}

#[test]
fn speakers_resolve_to_pci_sink() {
    let (result, warnings) = resolve(&sample_lines(), Device::Speakers);
    assert_eq!(result, Ok(0));
    assert_eq!(warnings.len(), 0);
}

#[test]
fn headphones_resolve_to_hyperx_sink() {
    let (result, warnings) = resolve(&sample_lines(), Device::Headphones);
    assert_eq!(result, Ok(1));
    assert_eq!(warnings.len(), 0);
}

#[test]
fn no_matching_line_is_not_found() {
    let lines = vec![
        String::from("0 alsa_output.usb-dock.iec958-stereo"),
        String::from("1 alsa_output.hdmi.surround51"),
    ];
    let (result, _) = resolve(&lines, Device::Headphones);
    assert_eq!(
        result,
        Err(ResolutionError::NotFound { target: Device::Headphones })
    );
    let (result, _) = resolve(&lines, Device::Speakers);
    assert_eq!(
        result,
        Err(ResolutionError::NotFound { target: Device::Speakers })
    );
}

#[test]
fn both_markers_are_required() {
    // analog-stereo alone, without the hardware marker, must not match.
    let lines = vec![String::from("3 alsa_output.usb-dock.analog-stereo")];
    let (result, _) = resolve(&lines, Device::Speakers);
    assert_eq!(
        result,
        Err(ResolutionError::NotFound { target: Device::Speakers })
    );
    // the hardware marker alone, without analog-stereo, must not match either.
    let lines = vec![String::from("4 alsa_output.pci-0000_00_1f.3.iec958-stereo")];
    let (result, _) = resolve(&lines, Device::Speakers);
    assert_eq!(
        result,
        Err(ResolutionError::NotFound { target: Device::Speakers })
    );
}

#[test]
fn malformed_line_is_skipped_with_one_warning() {
    let lines = vec![
        String::from("garbage"),
        String::from("0 alsa_output.pci-0000_00_1f.3.analog-stereo"),
    ];
    let (result, warnings) = resolve(&lines, Device::Speakers);
    assert_eq!(result, Ok(0));
    assert_eq!(warnings.len(), 1);
    assert_eq!(warnings[0].line, "garbage");
}

#[test]
fn first_qualifying_line_wins() {
    let lines = vec![
        String::from("2 alsa_output.pci-0000_00_1f.3.analog-stereo"),
        String::from("9 alsa_output.pci-0000_01_00.1.analog-stereo"),
    ];
    let (result, _) = resolve(&lines, Device::Speakers);
    assert_eq!(result, Ok(2));
}

#[test]
fn resolution_is_deterministic() {
    let lines = sample_lines();
    let first = resolve(&lines, Device::Headphones);
    let second = resolve(&lines, Device::Headphones);
    assert_eq!(first.0, second.0);
    assert_eq!(first.1.len(), second.1.len());
}

#[test]
fn listing_text_resolves_through_line_split() {
    let text = "0 alsa_output.pci-0000_00_1f.3.analog-stereo\n1 alsa_output.HyperX.analog-stereo";
    let (result, warnings) = resolve_listing(text, Device::Headphones);
    assert_eq!(result, Ok(1));
    assert_eq!(warnings.len(), 0);
    let (result, _) = resolve_listing(text, Device::Speakers);
    assert_eq!(result, Ok(0));
}

#[test]
fn trailing_newline_yields_one_warning_for_empty_line() {
    let text = "0 alsa_output.pci-0000_00_1f.3.analog-stereo\n";
    let (result, warnings) = resolve_listing(text, Device::Speakers);
    assert_eq!(result, Ok(0));
    assert_eq!(warnings.len(), 1);
    assert_eq!(warnings[0].line, "");
}

#[test]
fn device_names() {
    assert_eq!(Device::Headphones.name(), "headphones");
    assert_eq!(Device::Speakers.name(), "speakers");
}
