use localdrop::commands::{find_device, DeviceInfo as ShownDevice, MyDeviceInfo};
use localdrop::device::discovery::{DeviceDiscovery, DeviceInfo};
use localdrop::utils::config::{device_name_from_uuid, get_config_path, get_device_type, AppConfig};

fn is_uuid_v4(s: &str) -> bool {
    let b = s.as_bytes();
    b.len() == 36
        && b.iter().enumerate().all(|(i, c)| {
            if [8, 13, 18, 23].contains(&i) {
                *c == b'-'
            } else {
                c.is_ascii_digit() || (b'a'..=b'f').contains(c)
            }
        })
        && b[14] == b'4'
        && [b'8', b'9', b'a', b'b'].contains(&b[19])
}

#[test]
fn device_types() {
    assert_eq!(get_device_type("windows"), "windows");
    assert_eq!(get_device_type("macos"), "macos");
    assert_eq!(get_device_type("android"), "android");
    assert_eq!(get_device_type("ios"), "ios");
    assert_eq!(get_device_type("linux"), "unknown");
    assert_eq!(get_device_type(""), "unknown");
}

#[test]
fn default_names() {
    assert_eq!(device_name_from_uuid("67e55044-10b1-426f-9247-bb680e5fe0c8"), "LocalDrop-67e55044");
    assert_eq!(device_name_from_uuid("nodash"), "LocalDrop-nodash");
    assert_eq!(device_name_from_uuid("-x"), "LocalDrop-");
}

#[test]
fn default_settings() {
    let c = AppConfig::default_for_device("unknown".to_string());
    assert!(is_uuid_v4(&c.device_id));
    assert!(c.device_name.starts_with("LocalDrop-"));
    assert_eq!(c.device_name.len(), 18);
    assert_eq!(c.device_type, "unknown");
    assert_eq!(c.chunk_size, 65536);
    assert_eq!(c.max_connections, 4);
    assert_eq!(c.broadcast_port, 50000);
    assert_eq!(c.tcp_port, 50001);
    assert_eq!(c.save_path, "");
    assert!(!c.auto_accept);
}

#[test]
fn config_paths() {
    assert_eq!(get_config_path("/home/u/.local/share/localdrop"), "/home/u/.local/share/localdrop/config.json");
    assert_eq!(get_config_path("/data/"), "/data/config.json");
    assert_eq!(get_config_path(""), "config.json");
}

fn discovery() -> DeviceDiscovery {
    DeviceDiscovery::new(50000, 50001, "me".to_string(), "Mine".to_string(), "unknown".to_string())
}

#[test]
fn announcements_are_recorded_once_per_device() {
    let mut d = discovery();
    d.start();
    assert!(d.is_running());
    d.record_announcement("a".into(), "A".into(), "macos".into(), "10.0.0.2".into(), 50001, 100);
    d.record_announcement("b".into(), "B".into(), "ios".into(), "10.0.0.3".into(), 70000, 101);
    d.record_announcement("a".into(), "A2".into(), "macos".into(), "10.0.0.9".into(), 50002, 105);
    let list = d.get_devices(105);
    assert_eq!(list.len(), 2);
    assert_eq!(list[0].device_name, "A2");
    assert_eq!(list[0].ip_address, "10.0.0.9");
    assert_eq!(list[0].last_seen, 105);
    assert!(list[0].online);
    assert_eq!(list[1].tcp_port, (70000u64 % 65536) as u16);
}

#[test]
fn stale_devices_are_dropped() {
    let mut d = discovery();
    d.record_announcement("a".into(), "A".into(), "t".into(), "ip".into(), 1, 100);
    d.record_announcement("b".into(), "B".into(), "t".into(), "ip".into(), 1, 105);
    let list = d.get_devices(110);
    assert_eq!(list.iter().map(|x| x.device_id.as_str()).collect::<Vec<_>>(), vec!["b"]);
    assert_eq!(d.devices().len(), 1);
    assert_eq!(d.get_devices(115).len(), 0);
}

#[test]
fn stop_forgets_devices() {
    let mut d = discovery();
    d.start();
    d.record_announcement("a".into(), "A".into(), "t".into(), "ip".into(), 1, 100);
    d.stop();
    assert!(!d.is_running());
    assert!(d.devices().is_empty());
    d.update_device_name("Renamed".into());
    assert_eq!(d.device_name(), "Renamed");
    assert_eq!(d.device_id(), "me");
    assert_eq!(d.tcp_port(), 50001);
    assert_eq!(d.broadcast_port(), 50000);
}

#[test]
fn device_lookup_and_views() {
    let dev = |id: &str, name: &str| DeviceInfo {
        device_id: id.into(),
        device_name: name.into(),
        device_type: "t".into(),
        ip_address: "1.2.3.4".into(),
        tcp_port: 9,
        online: true,
        last_seen: 3,
    };
    let devices = vec![dev("x", "first"), dev("y", "Y"), dev("x", "second")];
    assert_eq!(find_device(&devices, &"x".to_string()).unwrap().device_name, "first");
    assert_eq!(find_device(&devices, &"y".to_string()).unwrap().device_name, "Y");
    assert!(find_device(&devices, &"z".to_string()).is_none());
    let shown = ShownDevice::from_discovered(dev("q", "Q"));
    assert_eq!(shown, ShownDevice { device_id: "q".into(), device_name: "Q".into(), device_type: "t".into(), ip_address: "1.2.3.4".into(), tcp_port: 9, online: true });
    let c = AppConfig::default_for_device("ios".into());
    let me = MyDeviceInfo::from_config(&c);
    assert_eq!(me.device_id, c.device_id);
    assert_eq!(me.device_name, c.device_name);
    assert_eq!(me.device_type, "ios");
}
