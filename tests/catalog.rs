use linux_creation_tool::device::{label, list_devices, Bus, DiskRecord};

fn record(id: &str, vendor: &str, model: &str, size: u64, bus: &str) -> DiskRecord {
    DiskRecord {
        id: id.to_string(),
        vendor: vendor.to_string(),
        model: model.to_string(),
        node: format!("/dev/{}", id),
        path: format!("/org/freedesktop/UDisks2/block_devices/{}", id),
        size,
        bus: bus.to_string(),
    }
}

#[test]
fn bus_names() {
    assert_eq!(Bus::from_name("usb"), Bus::Usb);
    assert_eq!(Bus::from_name("sdio"), Bus::Sdio);
    assert_eq!(Bus::from_name("ata"), Bus::Other);
    assert_eq!(Bus::from_name(""), Bus::Other);
    assert_eq!(Bus::from_name("USB"), Bus::Other);
    assert!(Bus::Usb.is_removable());
    assert!(Bus::Sdio.is_removable());
    assert!(!Bus::Other.is_removable());
}

#[test]
fn labels_fall_back() {
    let n = "/dev/sdb".to_string();
    assert_eq!(label(&"SanDisk".to_string(), &"Cruzer".to_string(), &n), "SanDisk Cruzer");
    assert_eq!(label(&String::new(), &"Cruzer".to_string(), &n), "Cruzer");
    assert_eq!(label(&String::new(), &String::new(), &n), "/dev/sdb");
    assert_eq!(label(&"Kingston".to_string(), &String::new(), &n), "Kingston ");
}

#[test]
fn catalog_keeps_only_writable_devices() {
    let records = vec![
        record("sda", "ATA", "Samsung SSD", 500_000_000_000, "ata"),
        record("sdb", "SanDisk", "Cruzer", 16_000_000_000, "usb"),
        record("sdc", "Generic", "Card Reader", 0, "usb"),
        record("mmcblk0", "", "SD32G", 32_000_000_000, "sdio"),
        record("sdd", "", "", 8_000_000, "usb"),
    ];
    let devices = list_devices(&records);
    assert_eq!(devices.len(), 3);
    assert_eq!(devices[0].id, "sdb");
    assert_eq!(devices[0].label, "SanDisk Cruzer");
    assert_eq!(devices[0].bus, Bus::Usb);
    assert_eq!(devices[0].size, 16_000_000_000);
    assert_eq!(devices[0].node, "/dev/sdb");
    assert_eq!(devices[0].path, "/org/freedesktop/UDisks2/block_devices/sdb");
    assert_eq!(devices[1].label, "SD32G");
    assert_eq!(devices[1].bus, Bus::Sdio);
    assert_eq!(devices[2].label, "/dev/sdd");
    for d in &devices {
        assert!(d.size > 0);
        assert!(d.bus == Bus::Usb || d.bus == Bus::Sdio);
    }
}

#[test]
fn catalog_keeps_last_of_one_identifier() {
    let records = vec![
        record("sdb", "Old", "Stick", 1000, "usb"),
        record("sdc", "Other", "Stick", 2000, "usb"),
        record("sdb", "New", "Stick", 3000, "usb"),
    ];
    let devices = list_devices(&records);
    assert_eq!(devices.len(), 2);
    assert_eq!(devices[0].id, "sdc");
    assert_eq!(devices[1].id, "sdb");
    assert_eq!(devices[1].label, "New Stick");
    assert_eq!(devices[1].size, 3000);
}

#[test]
fn same_labels_stay_apart() {
    let records = vec![
        record("sdb", "SanDisk", "Cruzer", 1000, "usb"),
        record("sdc", "SanDisk", "Cruzer", 1000, "usb"),
    ];
    let devices = list_devices(&records);
    assert_eq!(devices.len(), 2);
    assert_eq!(devices[0].label, devices[1].label);
}

#[test]
fn empty_inventory_gives_empty_catalog() {
    assert!(list_devices(&Vec::new()).is_empty());
}

#[test]
fn duplicate_keeps_every_field() {
    let devices = list_devices(&vec![record("sdb", "A", "B", 5, "usb")]);
    let d = devices[0].duplicate();
    assert_eq!(d.id, "sdb");
    assert_eq!(d.label, "A B");
    assert_eq!(d.size, 5);
}
