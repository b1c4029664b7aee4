use phonix::listen::{first_containing, select_device, MeterClock};

#[test]
fn selects_first_device_containing_name_ignoring_case() {
    let names = vec![
        Some("Built-in Output".to_string()),
        None,
        Some("MacBook Pro Microphone".to_string()),
        Some("macbook external".to_string()),
    ];
    assert_eq!(select_device(&names, "MacBook"), Some(2));
    assert_eq!(select_device(&names, "EXTERNAL"), Some(3));
    assert_eq!(select_device(&names, "usb"), None);
    assert_eq!(select_device(&[], "x"), None);
}

#[test]
fn meter_reports_every_half_second() {
    let mut c = MeterClock::new(48_000);
    assert_eq!(c.interval, 24_000);
    assert!(!c.tick(10_000));
    assert!(!c.tick(10_000));
    assert!(c.tick(4_000));
    assert_eq!(c.acc, 0);
    assert!(!c.tick(1));
    let mut tiny = MeterClock::new(1);
    assert_eq!(tiny.interval, 1);
    assert!(tiny.tick(1));
}

#[test]
fn first_containing_matches_exactly() {
    let names = vec![Some("abc".to_string()), None, Some("xbcx".to_string())];
    assert_eq!(first_containing(&names, "bc"), Some(0));
    assert_eq!(first_containing(&names, "cx"), Some(2));
    assert_eq!(first_containing(&names, "BC"), None);
}
