use t2macd::config::Config;
use t2macd::controller::Controller;
use t2macd::curve::FanCurve;
use t2macd::discovery::bound_max_path;
use t2macd::discovery::bound_min_path;
use t2macd::discovery::init_fans;
use t2macd::discovery::strip_input_suffix;
use t2macd::discovery::FanEntry;
use t2macd::fan::DiscoveryError;
use t2macd::fan::Fan;

fn test_config() -> Config {
    Config { fan_curve: FanCurve::Linear, min_temp: 80, max_temp: 100 }
}

fn entry(path: &[u8], max_raw: &[u8], min_raw: &[u8]) -> FanEntry {
    FanEntry { path: path.to_vec(), max_raw: max_raw.to_vec(), min_raw: min_raw.to_vec() }
}

#[test]
fn strip_removes_the_input_suffix() {
    let matched = b"/sys/devices/a/b/APP0001:00/fan1_input".to_vec();
    assert_eq!(strip_input_suffix(&matched), Some(b"/sys/devices/a/b/APP0001:00/fan1".to_vec()));
}

#[test]
fn strip_refuses_other_paths() {
    assert_eq!(strip_input_suffix(&b"/sys/devices/a/fan1_output".to_vec()), None);
    assert_eq!(strip_input_suffix(&b"put".to_vec()), None);
}

#[test]
fn bound_paths_are_built_from_the_base() {
    let base = b"/sys/devices/a/fan1".to_vec();
    assert_eq!(bound_max_path(&base), b"/sys/devices/a/fan1/_max".to_vec());
    assert_eq!(bound_min_path(&base), b"/sys/devices/a/fan1/_min".to_vec());
}

#[test]
fn fan_paths_are_built_from_the_base() {
    let fan = Fan {
        path: b"/sys/devices/a/fan1".to_vec(),
        max_speed: 6000,
        min_speed: 2000,
        speed_curve: FanCurve::Linear,
    };
    assert_eq!(fan.output_path(), b"/sys/devices/a/fan1/_output".to_vec());
    assert_eq!(fan.manual_path(), b"/sys/devices/a/fan1/_manual".to_vec());
}

#[test]
fn fan_is_built_from_its_bound_files() {
    let config = test_config();
    let fan = Fan::new(b"/sys/devices/a/fan1".to_vec(), &b"6000".to_vec(), &b"2000".to_vec(), &config)
        .unwrap();
    assert_eq!(fan.max_speed, 6000);
    assert_eq!(fan.min_speed, 2000);
    assert_eq!(fan.path, b"/sys/devices/a/fan1".to_vec());
}

#[test]
fn fan_with_unparsable_bounds_is_refused() {
    let config = test_config();
    let r = Fan::new(b"/sys/a/fan1".to_vec(), &b"6000\n".to_vec(), &b"2000".to_vec(), &config);
    assert!(matches!(r, Err(DiscoveryError::InvalidBounds)));
    let r = Fan::new(b"/sys/a/fan1".to_vec(), &b"6000".to_vec(), &b"fast".to_vec(), &config);
    assert!(matches!(r, Err(DiscoveryError::InvalidBounds)));
}

#[test]
fn fan_with_inverted_envelope_is_refused() {
    let config = test_config();
    let r = Fan::new(b"/sys/a/fan1".to_vec(), &b"2000".to_vec(), &b"6000".to_vec(), &config);
    assert!(matches!(r, Err(DiscoveryError::InvalidBounds)));
}

#[test]
fn discovery_with_zero_fans_is_fatal() {
    let config = test_config();
    let r = init_fans(&vec![], &config);
    assert!(matches!(r, Err(DiscoveryError::NoFans)));
}

#[test]
fn zero_fans_never_enter_the_running_state() {
    let config = test_config();
    let r = Controller::new(config, vec![]);
    assert!(matches!(r, Err(DiscoveryError::NoFans)));
}

#[test]
fn discovery_keeps_all_fans_in_order() {
    let config = test_config();
    let entries = vec![
        entry(b"/sys/a/fan1", b"6000", b"2000"),
        entry(b"/sys/a/fan2", b"7000", b"1000"),
    ];
    let fans = init_fans(&entries, &config).unwrap();
    assert_eq!(fans.len(), 2);
    assert_eq!(fans[0].path, b"/sys/a/fan1".to_vec());
    assert_eq!(fans[0].max_speed, 6000);
    assert_eq!(fans[0].min_speed, 2000);
    assert_eq!(fans[1].path, b"/sys/a/fan2".to_vec());
    assert_eq!(fans[1].max_speed, 7000);
    assert_eq!(fans[1].min_speed, 1000);
}

#[test]
fn discovery_fails_on_any_bad_bound_file() {
    let config = test_config();
    let entries = vec![
        entry(b"/sys/a/fan1", b"6000", b"2000"),
        entry(b"/sys/a/fan2", b"junk", b"1000"),
    ];
    let r = init_fans(&entries, &config);
    assert!(matches!(r, Err(DiscoveryError::InvalidBounds)));
}

#[test]
fn a_write_failure_does_not_stall_the_iteration() {
    let config = test_config();
    let entries = vec![
        entry(b"/sys/a/fan1", b"6000", b"2000"),
        entry(b"/sys/a/fan2", b"7000", b"1000"),
    ];
    let fans = init_fans(&entries, &config).unwrap();
    let mut ctrl = Controller::new(config, fans).unwrap();
    assert_eq!(ctrl.next_fan, 0);
    let s0 = ctrl.plan_speed(90);
    assert_eq!(s0, 4000);
    // the write for fan1 fails; fan2 is still serviced next
    ctrl.advance(false);
    assert_eq!(ctrl.next_fan, 1);
    let s1 = ctrl.plan_speed(90);
    assert_eq!(s1, 4000);
    // and the next iteration begins whatever happened before
    ctrl.advance(false);
    assert_eq!(ctrl.next_fan, 0);
    ctrl.advance(true);
    assert_eq!(ctrl.next_fan, 1);
}

#[test]
fn the_planned_speed_follows_the_current_fan() {
    let config = test_config();
    let entries = vec![
        entry(b"/sys/a/fan1", b"6000", b"2000"),
        entry(b"/sys/a/fan2", b"500", b"100"),
    ];
    let fans = init_fans(&entries, &config).unwrap();
    let mut ctrl = Controller::new(config, fans).unwrap();
    assert_eq!(ctrl.current_fan().path, b"/sys/a/fan1".to_vec());
    assert_eq!(ctrl.plan_speed(100), 6000);
    ctrl.advance(true);
    assert_eq!(ctrl.current_fan().path, b"/sys/a/fan2".to_vec());
    assert_eq!(ctrl.plan_speed(100), 500);
}
