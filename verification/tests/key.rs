use vts::arch::{ComponentId, StringId};
use vts::key::OpaqueKey;

#[test]
fn test_index_round_trip() {
    assert_eq!(<u32 as OpaqueKey>::from_index(7u32.as_index()), 7);
    assert_eq!(<u8 as OpaqueKey>::from_index(255u8.as_index()), 255);
    assert_eq!(<u16 as OpaqueKey>::max_index(), u16::MAX as usize);
    let k = StringId(42);
    assert_eq!(StringId::from_index(k.as_index()), k);
    let mut c = ComponentId(3);
    assert_eq!(c.increment(), ComponentId(4));
    assert_eq!(c, ComponentId(4));
}
