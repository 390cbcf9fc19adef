use hdl_parser::bus::{mask, Bus, BusError};

#[test]
fn mask_0() {
    assert_eq!(0b1100, mask((2, 4)));
    assert_eq!(0b0011, mask((0, 2)));
    assert_eq!(0b0001, mask((0, 1)));
    // A bus can only contain 128 pins
    assert_eq!(u128::MAX, mask((0, 128)));
}

#[test]
fn load_0() {
    let mut a = Bus { data: 0b00000000, size: 8 };
    let b = Bus { data: 0b11011100, size: 8 };
    let res = a.load(&b, (2, 7), (0, 5));
    assert_eq!(a.data, 0b10111);
    assert_eq!(res, Ok(()));
}

#[test]
fn load_1() {
    let mut a = Bus { data: 0b00000011, size: 8 };
    let b = Bus { data: 0b11011100, size: 8 };
    let res = a.load(&b, (0, 5), (2, 7));
    assert_eq!(a.data, 0b01110011);
    assert_eq!(res, Ok(()));
}

#[test]
fn load_2() {
    let mut a = Bus { data: 0b00000011, size: 8 };
    let b = Bus { data: 0b11011101, size: 8 };
    let res = a.load(&b, (0, 5), (0, 5));
    assert_eq!(a.data, 0b00011101);
    assert_eq!(res, Ok(()));
}

#[test]
fn load_3() {
    let mut a = Bus { data: 0b10110111, size: 8 };
    let b = Bus { data: 0b11011101, size: 8 };
    let res = a.load(&b, (3, 7), (1, 5));
    assert_eq!(a.data, 0b10110111);
    assert_eq!(res, Ok(()));
}

#[test]
fn load_4() {
    let mut a = Bus { data: 0b10101011, size: 8 };
    let b = Bus { data: 0b11011100, size: 8 };
    let res = a.load(&b, (1, 2), (0, 1));
    assert_eq!(a.data, 0b10101010);
    assert_eq!(res, Ok(()));
}

#[test]
fn load_5() {
    let mut a = Bus { data: 0b10101011, size: 8 };
    let b = Bus { data: 0b11011100, size: 8 };
    let res = a.load(&b, (1, 130), (0, 129));
    assert_eq!(res, Err(BusError::SourceBusMaxExceeded));
}

#[test]
fn load_6() {
    let mut a = Bus { data: 0b10101011, size: 8 };
    let b = Bus { data: 0b11011100, size: 8 };
    let res = a.load(&b, (0, 129), (1, 130));
    assert_eq!(res, Err(BusError::DestinationBusMaxExceeded));
}

#[test]
fn pin_0() {
    let a = Bus { data: 0b00100000, size: 8 };
    let b = a.pin(5);
    assert_eq!(b, Bus { data: 1, size: 1 });
}

#[test]
fn pin_1() {
    let a = Bus { data: u128::MAX - u128::pow(2, 127), size: 128 };
    let b = a.pin(127);
    assert_eq!(b, Bus { data: 0, size: 1 });
}

#[test]
fn refused_load_changes_nothing() {
    let mut a = Bus { data: 0b10101011, size: 8 };
    let b = Bus { data: 0b11011100, size: 8 };
    assert_eq!(a.load(&b, (129, 1), (0, 1)), Err(BusError::SourceBusMaxExceeded));
    assert_eq!(a.load(&b, (0, 1), (129, 1)), Err(BusError::DestinationBusMaxExceeded));
    assert_eq!(a, Bus { data: 0b10101011, size: 8 });
}

#[test]
fn load_keeps_size_and_pins_outside_the_range() {
    let mut a = Bus { data: u128::MAX, size: 16 };
    let b = Bus { data: 0, size: 4 };
    assert_eq!(a.load(&b, (0, 4), (8, 12)), Ok(()));
    assert_eq!(a.size, 16);
    assert_eq!(a.data, u128::MAX ^ 0b1111_0000_0000);
}

#[test]
fn load_takes_low_pins_for_what_lies_past_the_source() {
    let mut a = Bus { data: u128::MAX, size: 128 };
    let b = Bus { data: u128::MAX, size: 128 };
    // pins 127 and 128 of the source would be needed for pins 1 and 2
    assert_eq!(a.load(&b, (126, 129), (0, 3)), Ok(()));
    assert_eq!(a.data, u128::MAX ^ 0b100);
}

#[test]
fn mask_of_the_top_pin() {
    assert_eq!(mask((127, 128)), 1u128 << 127);
    assert_eq!(mask((100, 129)), u128::MAX << 100);
}

#[test]
fn pin_of_every_position() {
    let a = Bus { data: 0b101, size: 3 };
    assert_eq!(a.pin(0), Bus { data: 1, size: 1 });
    assert_eq!(a.pin(1), Bus { data: 0, size: 1 });
    assert_eq!(a.pin(2), Bus { data: 1, size: 1 });
    assert_eq!(a.pin(127), Bus { data: 0, size: 1 });
}
