use ddr_mount::config::{get_next_devices, list_devices, Config};
use ddr_mount::mount::{check_block_size, device_name};
use ddr_mount::unmount::{unmount, unmount_all};
use ddr_mount::wsl::is_wsl_kernel;

fn sample() -> Config {
    let mut c = Config::new();
    c.write_device("a.img".to_string(), 1, "/dev/loop0".to_string(), "ddrm1".to_string());
    c.write_device("b.img".to_string(), 3, "/dev/loop1".to_string(), "ddrm3".to_string());
    c
}

#[test]
fn allocate_returns_lowest_free_slot() {
    let c = Config::new();
    assert_eq!(get_next_devices(&c), 1);
    let c = sample();
    assert_eq!(get_next_devices(&c), 2);
    let mut c = sample();
    c.write_device("c.img".to_string(), 2, "/dev/loop2".to_string(), "ddrm2".to_string());
    assert_eq!(get_next_devices(&c), 4);
}

#[test]
fn allocate_never_returns_a_live_slot() {
    let mut c = Config::new();
    for _ in 0..20 {
        let slot = get_next_devices(&c);
        assert!(slot != 0);
        assert!(!c.contains_entry(slot));
        c.write_device("x.img".to_string(), slot, "/dev/loopX".to_string(), format!("ddrm{slot}"));
    }
    for k in 1..=20u32 {
        assert!(c.contains_entry(k));
    }
}

#[test]
fn write_device_is_an_upsert() {
    let mut c = sample();
    c.write_device("new.img".to_string(), 1, "/dev/loop9".to_string(), "ddrm1".to_string());
    let devs = c.devices();
    assert_eq!(devs.len(), 2);
    assert_eq!(devs[0].image_file_path, "new.img");
    assert_eq!(devs[0].get_entry(), 1);
    assert_eq!(devs[0].get_image_location(), "/dev/loop9");
    assert_eq!(devs[1].image_file_path, "b.img");
}

#[test]
fn remove_absent_slot_is_an_error() {
    let mut c = sample();
    assert!(c.remove_device(2).is_err());
    assert!(c.remove_device(1).is_ok());
    assert!(c.remove_device(1).is_err());
    let devs = c.devices();
    assert_eq!(devs.len(), 1);
    assert_eq!(devs[0].get_entry(), 3);
}

#[test]
fn clear_devices_empties_the_registry() {
    let mut c = sample();
    c.clear_devices();
    assert_eq!(c.devices().len(), 0);
    assert_eq!(get_next_devices(&c), 1);
}

#[test]
fn listing_aligns_on_display_width() {
    let mut c = Config::new();
    c.write_device("a.img".to_string(), 1, "/dev/loop0".to_string(), "ddrm1".to_string());
    c.write_device("longer.img".to_string(), 2, "/dev/loop1".to_string(), "ddrm2".to_string());
    let lines = list_devices(&c);
    assert_eq!(lines.len(), 2);
    assert_eq!(lines[0], format!("a.img{} => /dev/mapper/ddrm1", " ".repeat(6)));
    assert_eq!(lines[1], "longer.img  => /dev/mapper/ddrm2");
}

#[test]
fn unmount_by_name_removes_the_record() {
    let mut c = sample();
    let plan = unmount(&mut c, "ddrm3").unwrap();
    assert_eq!(plan.dm_name, "ddrm3");
    assert_eq!(plan.image_location, "/dev/loop1");
    assert_eq!(plan.image_file, "b.img");
    assert_eq!(plan.entry, 3);
    assert_eq!(c.devices().len(), 1);
    assert!(!c.contains_entry(3));
}

#[test]
fn unmount_unknown_name_is_a_lookup_error() {
    let mut c = sample();
    let before = c.to_json();
    let err = unmount(&mut c, "ddrm9").unwrap_err();
    assert_eq!(err, "Unmount error: Unable to find device ddrm9");
    assert_eq!(c.to_json(), before);
}

#[test]
fn unmount_all_plans_every_device_and_clears() {
    let mut c = sample();
    let plans = unmount_all(&mut c);
    assert_eq!(plans.len(), 2);
    assert_eq!(plans[0].dm_name, "ddrm1");
    assert_eq!(plans[0].image_location, "/dev/loop0");
    assert_eq!(plans[0].image_file, "a.img");
    assert_eq!(plans[1].dm_name, "ddrm3");
    assert_eq!(c.devices().len(), 0);
}

#[test]
fn block_size_gate_and_device_names() {
    assert!(check_block_size(512));
    assert!(check_block_size(1024));
    assert!(check_block_size(0));
    assert!(!check_block_size(513));
    assert!(!check_block_size(100));
    assert_eq!(device_name(0), "ddrm0");
    assert_eq!(device_name(7), "ddrm7");
    assert_eq!(device_name(4294967295), "ddrm4294967295");
}

#[test]
fn wsl_kernels_are_recognized() {
    assert!(is_wsl_kernel("5.15.90.1-microsoft-standard-WSL2"));
    assert!(is_wsl_kernel("4.4.0-19041-Microsoft"));
    assert!(is_wsl_kernel("something WSL something"));
    assert!(!is_wsl_kernel("6.5.0-44-generic"));
    assert!(!is_wsl_kernel(""));
    assert!(!is_wsl_kernel("micro soft"));
}
