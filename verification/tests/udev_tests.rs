use yawc::udev::{
    choose_mode, first_scanned_with_crtc, next_device_to_try, normalize_gpu_path, pick_primary_connector,
    pick_secondary_connector, refresh_millihertz, ConnectorProbe, CrtcSource,
};

fn probe(connected: bool, current: bool, encoders: &[bool]) -> ConnectorProbe {
    ConnectorProbe { connected, current_has_crtc: current, encoders_with_crtc: encoders.to_vec() }
}

#[test]
fn gpu_paths() {
    assert_eq!(normalize_gpu_path("/dev/dri/card1"), "/dev/dri/card1");
    assert_eq!(normalize_gpu_path("card1"), "/dev/dri/card1");
    assert_eq!(normalize_gpu_path("renderD128"), "renderD128");
    assert_eq!(normalize_gpu_path("car"), "car");
}

#[test]
fn scanned_connector() {
    assert_eq!(first_scanned_with_crtc(&vec![false, true, true]), Some(1));
    assert_eq!(first_scanned_with_crtc(&vec![false]), None);
}

#[test]
fn primary_connector_choice() {
    let probes = vec![
        probe(false, true, &[true]),
        probe(true, false, &[false, false]),
        probe(true, false, &[false, true, true]),
        probe(true, true, &[]),
    ];
    assert_eq!(pick_primary_connector(&probes), Some((2, CrtcSource::Encoder(1))));
    let probes = vec![probe(true, true, &[true])];
    assert_eq!(pick_primary_connector(&probes), Some((0, CrtcSource::Current)));
    assert_eq!(pick_primary_connector(&vec![probe(true, false, &[])]), None);
}

#[test]
fn secondary_connector_choice() {
    let probes = vec![
        probe(true, false, &[true]),
        probe(true, false, &[false, true]),
        probe(false, false, &[true]),
    ];
    assert_eq!(pick_secondary_connector(&probes), Some((1, CrtcSource::Encoder(1))));
    let probes = vec![
        probe(true, false, &[true]),
        probe(true, true, &[]),
        probe(true, false, &[true]),
    ];
    assert_eq!(pick_secondary_connector(&probes), Some((1, CrtcSource::Current)));
    assert_eq!(pick_secondary_connector(&vec![]), None);
}

#[test]
fn modes_and_refresh() {
    assert_eq!(choose_mode(&vec![false, true, true]), Some(1));
    assert_eq!(choose_mode(&vec![false, false]), Some(0));
    assert_eq!(choose_mode(&vec![]), None);
    assert_eq!(refresh_millihertz(60), 60000);
    assert_eq!(refresh_millihertz(144), 144000);
}

#[test]
fn further_devices_in_directory_order() {
    let names: Vec<String> = ["renderD128", "card0", "by-path", "card1", "card2"].iter().map(|s| s.to_string()).collect();
    let primary = vec![false, true, false, false, false];
    assert_eq!(next_device_to_try(&names, &primary, 0, false), Some(3));
    assert_eq!(next_device_to_try(&names, &primary, 4, false), Some(4));
    assert_eq!(next_device_to_try(&names, &primary, 5, false), None);
    assert_eq!(next_device_to_try(&names, &primary, 9, false), None);
    assert_eq!(next_device_to_try(&names, &primary, 0, true), None);
    let only_primary = vec![false, true, false, true, true];
    assert_eq!(next_device_to_try(&names, &only_primary, 0, false), None);
}
