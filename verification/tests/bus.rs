use chip8::bus::Bus;
use chip8::bus::Chip8Error;
use chip8::bus::Range;

#[test]
fn range_contains_inside() {
    let r = Range(0x000, 0xFFF);
    assert_eq!(r.contains(0x000), Some(0x000));
}

#[test]
fn range_contains_last_address() {
    let r = Range(0x000, 0xFFF);
    assert_eq!(r.contains(0xFFF), Some(0xFFF));
}

#[test]
fn range_contains_outside() {
    let r = Range(0x000, 0xFFF);
    assert_eq!(r.contains(0x1000), None);
}

#[test]
fn range_contains_offset_from_start() {
    assert_eq!(Range(0x100, 0x1FF).contains(0x180), Some(0x80));
    assert_eq!(Range(0x100, 0x1FF).contains(0x0FF), None);
    assert_eq!(Range(0x100, 0x1FF).contains(0x200), None);
}

#[test]
fn bus_places_program_at_load_address() {
    let program = vec![0xAB, 0xCD, 0xEF];
    let bus = Bus::new(&program);
    assert_eq!(bus.load(0x1FF), Ok(0x00));
    assert_eq!(bus.load(0x200), Ok(0xAB));
    assert_eq!(bus.load(0x201), Ok(0xCD));
    assert_eq!(bus.load(0x202), Ok(0xEF));
    assert_eq!(bus.load(0x203), Ok(0x00));
}

#[test]
fn bus_store_then_load_round_trip() {
    let mut bus = Bus::new(&vec![]);
    assert_eq!(bus.store(0x300, 0x42), Ok(()));
    assert_eq!(bus.load(0x300), Ok(0x42));
}

#[test]
fn bus_load_unmapped_address_fails() {
    let bus = Bus::new(&vec![]);
    assert_eq!(bus.load(0x1000), Err(Chip8Error::UnmappedAddress));
}

#[test]
fn bus_store_unmapped_address_fails() {
    let mut bus = Bus::new(&vec![]);
    assert_eq!(bus.store(0xFFFF, 0x01), Err(Chip8Error::UnmappedAddress));
    assert_eq!(bus.load(0xFFF), Ok(0x00));
}
