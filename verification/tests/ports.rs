use serial_visualizer::ports::usb_port_names;
use serial_visualizer::ports::PortEntry;

fn port(name: &str, usb: bool) -> PortEntry {
    PortEntry { name: name.to_string(), usb }
}

#[test]
fn only_usb_ports_are_named() {
    let ports = vec![
        port("/dev/ttyS0", false),
        port("/dev/ttyUSB0", true),
        port("/dev/ttyAMA0", false),
        port("/dev/ttyACM1", true),
    ];
    assert_eq!(
        usb_port_names(&ports),
        vec!["/dev/ttyUSB0".to_string(), "/dev/ttyACM1".to_string()]
    );
}

#[test]
fn no_ports_no_names() {
    assert_eq!(usb_port_names(&Vec::new()), Vec::<String>::new());
    assert_eq!(usb_port_names(&vec![port("COM1", false)]), Vec::<String>::new());
}

#[test]
fn equal_names_are_all_kept() {
    let ports = vec![port("COM3", true), port("COM3", true)];
    assert_eq!(usb_port_names(&ports), vec!["COM3".to_string(), "COM3".to_string()]);
}
