use alive_boi::profile::ConnectionProfile;
use alive_boi::report::Status;
use alive_boi::timestamp::Timestamp;

fn sensor_seven() -> ConnectionProfile {
    ConnectionProfile::new(
        "broker.farm".to_string(),
        1883,
        "sensor-7".to_string(),
        "farm/sensor-7/status".to_string(),
        Timestamp::new(2024, 1, 1, 0, 0, 0, 0, 0).unwrap(),
    )
}

#[test]
fn profile_keeps_its_entries() {
    let profile = sensor_seven();
    assert_eq!(profile.broker_host, "broker.farm");
    assert_eq!(profile.broker_port, 1883);
    assert_eq!(profile.device_name, "sensor-7");
    assert_eq!(profile.topic, "farm/sensor-7/status");
    assert_eq!(profile.start_time, Timestamp::new(2024, 1, 1, 0, 0, 0, 0, 0).unwrap());
}

#[test]
fn client_identifier_is_the_prefix_and_the_device_name() {
    assert_eq!(sensor_seven().client_identifier(), "alive_boi_sensor-7");
}

#[test]
fn client_identifier_is_the_same_each_time() {
    assert_eq!(sensor_seven().client_identifier(), sensor_seven().client_identifier());
}

#[test]
fn client_identifier_of_a_nameless_device_is_the_prefix() {
    let mut profile = sensor_seven();
    profile.device_name = String::new();
    assert_eq!(profile.client_identifier(), "alive_boi_");
}

#[test]
fn profile_reports_bear_its_name_and_start_time() {
    let profile = sensor_seven();
    for status in [Status::Alive, Status::Reconnected, Status::Dead] {
        let report = profile.report(status);
        assert_eq!(report.unit_name, "sensor-7");
        assert_eq!(report.status, status);
        assert_eq!(report.start_time, profile.start_time);
    }
}
