//! The fixed power-up sequence, byte for byte, and error injection at every
//! step of it.
use ili9342c::init_sequence;
use ili9342c::DisplayError;
use ili9342c::FaultyTransport;
use ili9342c::Ili9342C;
use ili9342c::Orientation;
use ili9342c::Record;
use ili9342c::RecordingDelay;
use ili9342c::RecordingTransport;

fn cmd(bytes: &[u8]) -> Record {
    Record::Command(bytes.to_vec())
}

fn dat(bytes: &[u8]) -> Record {
    Record::Data(bytes.to_vec())
}

fn expected_init(mode_byte: u8) -> Vec<Record> {
    vec![
        cmd(&[0x01]),
        dat(&[]),
        cmd(&[0xc8]),
        dat(&[0xff, 0x93, 0x42]),
        cmd(&[0xc0]),
        dat(&[0x12, 0x12]),
        cmd(&[0xc1]),
        dat(&[0x03]),
        cmd(&[0xb0]),
        dat(&[0xe0]),
        cmd(&[0xf6]),
        dat(&[0x00, 0x01, 0x01]),
        cmd(&[0x36]),
        dat(&[mode_byte]),
        cmd(&[0x3a]),
        dat(&[0x55]),
        cmd(&[0xb6]),
        dat(&[0x08, 0x82, 0x27]),
        cmd(&[0xe0]),
        dat(&[
            0x00, 0x0c, 0x11, 0x04, 0x11, 0x08, 0x37, 0x89, 0x4c, 0x06, 0x0c, 0x0a, 0x2e, 0x34,
            0x0f,
        ]),
        cmd(&[0xe1]),
        dat(&[
            0x00, 0x0b, 0x11, 0x05, 0x13, 0x09, 0x33, 0x67, 0x48, 0x07, 0x0e, 0x0b, 0x2e, 0x33,
            0x0f,
        ]),
        cmd(&[0x11]),
        dat(&[]),
        cmd(&[0x29]),
        dat(&[]),
        cmd(&[0x21]),
        dat(&[]),
    ]
}

#[test]
fn it_works() {
    let result = 2 + 2;
    assert_eq!(result, 4);
}

#[test]
fn init_sequence_matches_byte_for_byte() {
    let transport = RecordingTransport::new();
    let mut delay = RecordingDelay::new();
    let display = Ili9342C::new(transport, &mut delay, Orientation::Portrait, 320, 240).unwrap();
    assert_eq!(display.interface.records, expected_init(0x28));
    assert_eq!(delay.delays, vec![10u16, 120, 5]);
    assert_eq!(display.width(), 320);
    assert_eq!(display.height(), 240);
}

#[test]
fn init_sequence_uses_chosen_orientation_byte() {
    let transport = RecordingTransport::new();
    let mut delay = RecordingDelay::new();
    let display =
        Ili9342C::new(transport, &mut delay, Orientation::LandscapeFlipped, 320, 240).unwrap();
    assert_eq!(display.interface.records, expected_init(0x88));
}

#[test]
fn init_error_at_each_step_stops_the_sequence() {
    let expected = expected_init(0x08);
    for k in 0..expected.len() {
        let mut transport = FaultyTransport::new(k);
        let mut delay = RecordingDelay::new();
        let r = init_sequence(&mut transport, &mut delay, 0x08);
        assert_eq!(r, Err(DisplayError::BusWriteError));
        assert_eq!(transport.records, expected[..k].to_vec());
        // The delays sit at their documented positions: 10 ms once the
        // reset is out, 120 ms once sleep-off is out, 5 ms only after the
        // whole sequence.
        let expected_delays: Vec<u16> = if k < 2 {
            vec![]
        } else if k < 24 {
            vec![10]
        } else {
            vec![10, 120]
        };
        assert_eq!(delay.delays, expected_delays);
    }
}

#[test]
fn init_with_enough_transfers_succeeds() {
    let mut transport = FaultyTransport::new(28);
    let mut delay = RecordingDelay::new();
    let r = init_sequence(&mut transport, &mut delay, 0x08);
    assert_eq!(r, Ok(()));
    assert_eq!(transport.records, expected_init(0x08));
    assert_eq!(delay.delays, vec![10u16, 120, 5]);
}

#[test]
fn failed_construction_returns_no_instance() {
    let transport = FaultyTransport::new(3);
    let mut delay = RecordingDelay::new();
    let r = Ili9342C::new(transport, &mut delay, Orientation::Portrait, 320, 240);
    assert!(r.is_err());
    assert_eq!(delay.delays, vec![10u16]);
}
