use homepod_cast::device::{discover, first_ipv4, Address, Device};
use homepod_cast::session::{Session, StartError};
use homepod_cast::volume::from_slider;

fn device(model: &str, supports_airplay2: bool, addresses: Vec<Address>) -> Device {
    Device { name: model.to_string(), model: model.to_string(), supports_airplay2, addresses }
}

fn scan() -> Vec<Device> {
    let v4 = Address::V4(0x0a00_0001);
    let v6 = Address::V6(1);
    vec![
        device("AppleTV6,2", true, vec![v4]),
        device("AudioAccessory5,1", true, vec![v6, v4]),
        device("AudioAccessory1,1", true, vec![v6]),
        device("AudioAccessory1,2", false, vec![v4]),
        device("Other", true, vec![]),
        device("audioaccessory", true, vec![v4]),
        device("AudioAccessory", true, vec![v4, v6]),
        device("AudioAccessor", true, vec![v4]),
    ]
}

#[test]
fn homepods_come_first_and_the_rest_keeps_its_order() {
    assert_eq!(discover(&scan()), vec![1, 6, 0, 5, 7]);
    assert_eq!(discover(&Vec::new()), Vec::<usize>::new());
}

#[test]
fn first_ipv4_address_is_taken() {
    let a = Address::V4(7);
    let b = Address::V4(8);
    assert_eq!(first_ipv4(&vec![Address::V6(1), a, b]), Some(a));
    assert_eq!(first_ipv4(&vec![Address::V6(1)]), None);
    assert_eq!(first_ipv4(&vec![]), None);
}

#[test]
fn a_device_without_ipv4_cannot_start() {
    let d = device("AudioAccessory1,1", true, vec![Address::V6(9)]);
    match Session::start(&d, true, from_slider(25)) {
        Ok(_) => panic!("started"),
        Err(e) => assert_eq!(e, StartError::NoIpv4Address),
    }
}

#[test]
fn offered_devices_can_start() {
    let found = scan();
    for place in discover(&found) {
        assert!(Session::start(&found[place], true, from_slider(25)).is_ok());
    }
}
