//! Orientation control, the tracked panel size, and the sleep/display
//! toggles.
use ili9342c::DisplaySize;
use ili9342c::DisplaySize320x240;
use ili9342c::Ili9342C;
use ili9342c::Mode;
use ili9342c::ModeState;
use ili9342c::Orientation;
use ili9342c::Record;
use ili9342c::RecordingDelay;
use ili9342c::RecordingTransport;

fn fresh(width: usize, height: usize) -> Ili9342C<RecordingTransport> {
    let transport = RecordingTransport::new();
    let mut delay = RecordingDelay::new();
    let mut display =
        Ili9342C::new(transport, &mut delay, Orientation::Portrait, width, height).unwrap();
    display.interface.records.clear();
    display
}

fn toggle(bytes: &[u8]) -> Vec<Record> {
    vec![Record::Command(bytes.to_vec()), Record::Data(Vec::new())]
}

#[test]
fn orientation_swap_happens_exactly_when_landscapeness_differs() {
    let mut display = fresh(320, 240);
    assert_eq!((display.width(), display.height()), (320, 240));

    display.set_orientation(Orientation::Landscape).unwrap();
    assert_eq!((display.width(), display.height()), (240, 320));

    display.set_orientation(Orientation::Portrait).unwrap();
    assert_eq!((display.width(), display.height()), (320, 240));

    // The same orientation twice leaves the size unchanged.
    display.set_orientation(Orientation::Portrait).unwrap();
    assert_eq!((display.width(), display.height()), (320, 240));

    // Flipped variants share their landscape-ness: no swap between them.
    display.set_orientation(Orientation::PortraitFlipped).unwrap();
    assert_eq!((display.width(), display.height()), (320, 240));

    display.set_orientation(Orientation::LandscapeFlipped).unwrap();
    assert_eq!((display.width(), display.height()), (240, 320));
}

#[test]
fn orientation_sends_the_register_byte() {
    let mut display = fresh(320, 240);
    display.set_orientation(Orientation::Landscape).unwrap();
    display.set_orientation(Orientation::PortraitFlipped).unwrap();
    let mut expected = vec![Record::Command(vec![0x36]), Record::Data(vec![0x08])];
    expected.extend(vec![Record::Command(vec![0x36]), Record::Data(vec![0xe8])]);
    assert_eq!(display.interface.records, expected);
}

#[test]
fn orientation_mode_bytes_and_flags() {
    assert_eq!(Orientation::Landscape.mode(), 0x08);
    assert_eq!(Orientation::Portrait.mode(), 0x28);
    assert_eq!(Orientation::LandscapeFlipped.mode(), 0x88);
    assert_eq!(Orientation::PortraitFlipped.mode(), 0xe8);
    assert!(Orientation::Landscape.is_landscape());
    assert!(Orientation::LandscapeFlipped.is_landscape());
    assert!(!Orientation::Portrait.is_landscape());
    assert!(!Orientation::PortraitFlipped.is_landscape());
}

#[test]
fn sleep_mode_sends_the_right_opcode() {
    let mut display = fresh(320, 240);
    display.sleep_mode(ModeState::On).unwrap();
    display.sleep_mode(ModeState::Off).unwrap();
    let mut expected = toggle(&[0x10]);
    expected.extend(toggle(&[0x11]));
    assert_eq!(display.interface.records, expected);
}

#[test]
fn display_mode_sends_the_right_opcode() {
    let mut display = fresh(320, 240);
    display.display_mode(ModeState::On).unwrap();
    display.display_mode(ModeState::Off).unwrap();
    let mut expected = toggle(&[0x29]);
    expected.extend(toggle(&[0x28]));
    assert_eq!(display.interface.records, expected);
}

#[test]
fn display_size_constants() {
    let size = DisplaySize320x240;
    assert_eq!(size.width(), 320);
    assert_eq!(size.height(), 240);
}
