use gta_launcher_core::host::{
    best_adapter, decimal_string, describe_resolution, greet, settings_location, HostError,
};

#[test]
fn greeting_names_the_guest() {
    assert_eq!(greet("Niko"), "Hello, Niko! You've been greeted from Rust!");
    assert_eq!(greet(""), "Hello, ! You've been greeted from Rust!");
}

#[test]
fn numbers_in_decimal() {
    assert_eq!(decimal_string(0), "0");
    assert_eq!(decimal_string(7), "7");
    assert_eq!(decimal_string(10), "10");
    assert_eq!(decimal_string(1080), "1080");
    assert_eq!(decimal_string(4294967295), "4294967295");
    for n in [9u32, 11, 99, 100, 101, 65535, 1000000, 123456789] {
        assert_eq!(decimal_string(n), n.to_string());
    }
}

#[test]
fn resolution_is_width_x_height() {
    assert_eq!(describe_resolution(Some((1920, 1080))), Ok("1920x1080".to_string()));
    assert_eq!(describe_resolution(Some((0, 0))), Ok("0x0".to_string()));
    assert_eq!(
        describe_resolution(Some((4294967295, 1))),
        Ok("4294967295x1".to_string())
    );
}

#[test]
fn window_on_no_monitor_has_no_resolution() {
    assert_eq!(describe_resolution(None), Err(HostError::MonitorNotFound));
}

#[test]
fn adapter_with_the_most_memory_is_best() {
    assert_eq!(best_adapter(&vec![Some(1 << 30), Some(8 << 30)]), Some(1));
    assert_eq!(best_adapter(&vec![Some(8 << 30), Some(1 << 30)]), Some(0));
    assert_eq!(best_adapter(&vec![Some(5)]), Some(0));
    assert_eq!(best_adapter(&vec![Some(1), Some(u64::MAX), Some(2)]), Some(1));
}

#[test]
fn adapter_without_memory_counts_as_zero() {
    assert_eq!(best_adapter(&vec![None, Some(1)]), Some(1));
    assert_eq!(best_adapter(&vec![Some(1), None]), Some(0));
    assert_eq!(best_adapter(&vec![None]), Some(0));
    assert_eq!(best_adapter(&vec![Some(0), None]), Some(1));
}

#[test]
fn last_of_equally_good_adapters_is_best() {
    assert_eq!(best_adapter(&vec![Some(4), Some(4), Some(1)]), Some(1));
    assert_eq!(best_adapter(&vec![None, None, None]), Some(2));
    let rams = vec![Some(3u64), Some(9), None, Some(9), Some(2)];
    let by_std = rams
        .iter()
        .enumerate()
        .max_by_key(|(_, ram)| ram.unwrap_or(0))
        .map(|(index, _)| index);
    assert_eq!(best_adapter(&rams), by_std);
    assert_eq!(best_adapter(&rams), Some(3));
}

#[test]
fn no_adapter_no_best() {
    assert_eq!(best_adapter(&Vec::new()), None);
}

#[test]
fn settings_lie_below_the_profile() {
    let location = settings_location(Some("C:\\Users\\Admin".to_string())).unwrap();
    assert_eq!(location.profile, "C:\\Users\\Admin");
    assert_eq!(location.segments, vec!["Documents", "Rockstar Games", "GTA V", "settings.xml"]);
}

#[test]
fn settings_need_a_profile() {
    assert_eq!(settings_location(None).err(), Some(HostError::ProfileNotSet));
}

#[test]
fn host_errors_in_words() {
    assert_eq!(HostError::MonitorNotFound.message(), "Monitor not found");
    assert_eq!(HostError::ProfileNotSet.message(), "USERPROFILE not set");
}
