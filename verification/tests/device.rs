use vts::device::{BelId, Device, GroupItem, Name, PipId};

#[test]
fn test_device_items() {
    let device = Device { name: Name::new("xc7") };
    let _ = device.name.clone();
    assert_eq!(GroupItem::Bel(BelId(1)), GroupItem::Bel(BelId(1)));
    assert_ne!(GroupItem::Bel(BelId(1)), GroupItem::Pip(PipId(1)));
}
