//! The drawable-surface operations: per-pixel draw with clipping, area fill
//! over the three overlap shapes, raw window streaming and full clears.
use ili9342c::DisplayError;
use ili9342c::FaultyTransport;
use ili9342c::Ili9342C;
use ili9342c::Orientation;
use ili9342c::Pixel;
use ili9342c::Point;
use ili9342c::Record;
use ili9342c::Rectangle;
use ili9342c::RecordingDelay;
use ili9342c::RecordingTransport;

fn cmd(bytes: &[u8]) -> Record {
    Record::Command(bytes.to_vec())
}

fn dat(bytes: &[u8]) -> Record {
    Record::Data(bytes.to_vec())
}

fn fresh(width: usize, height: usize) -> Ili9342C<RecordingTransport> {
    let transport = RecordingTransport::new();
    let mut delay = RecordingDelay::new();
    let mut display =
        Ili9342C::new(transport, &mut delay, Orientation::Portrait, width, height).unwrap();
    display.interface.records.clear();
    display
}

fn window(x0: u16, y0: u16, x1: u16, y1: u16) -> Vec<Record> {
    vec![
        cmd(&[0x2a]),
        dat(&[(x0 >> 8) as u8, (x0 & 0xff) as u8, (x1 >> 8) as u8, (x1 & 0xff) as u8]),
        cmd(&[0x2b]),
        dat(&[(y0 >> 8) as u8, (y0 & 0xff) as u8, (y1 >> 8) as u8, (y1 & 0xff) as u8]),
    ]
}

fn stream(colors: &[u16]) -> Vec<Record> {
    let mut bytes: Vec<u8> = Vec::new();
    for c in colors {
        bytes.push((c >> 8) as u8);
        bytes.push((c & 0xff) as u8);
    }
    vec![cmd(&[0x2c]), dat(&[]), Record::Data(bytes)]
}

fn pix(x: i32, y: i32, color: u16) -> Pixel {
    Pixel { point: Point { x, y }, color }
}

#[test]
fn in_bounds_pixel_draws_one_window_and_one_stream() {
    let mut display = fresh(320, 240);
    let r = display.draw_iter(&vec![pix(5, 7, 0xabcd)]);
    assert_eq!(r, Ok(()));
    let mut expected = window(5, 7, 5, 7);
    expected.extend(stream(&[0xabcd]));
    assert_eq!(display.interface.records, expected);
}

#[test]
fn out_of_bounds_pixels_draw_nothing() {
    let mut display = fresh(320, 240);
    let r = display.draw_iter(&vec![
        pix(-1, 0, 0x1111),
        pix(0, -3, 0x2222),
        pix(320, 10, 0x3333),
        pix(10, 240, 0x4444),
    ]);
    assert_eq!(r, Ok(()));
    assert_eq!(display.interface.records, Vec::<Record>::new());
}

#[test]
fn mixed_pixels_keep_only_the_in_bounds_ones_in_order() {
    let mut display = fresh(320, 240);
    let r = display.draw_iter(&vec![pix(-5, 0, 0x0001), pix(1, 2, 0x0002), pix(319, 239, 0x0003)]);
    assert_eq!(r, Ok(()));
    let mut expected = window(1, 2, 1, 2);
    expected.extend(stream(&[0x0002]));
    expected.extend(window(319, 239, 319, 239));
    expected.extend(stream(&[0x0003]));
    assert_eq!(display.interface.records, expected);
}

#[test]
fn fill_fully_inside_streams_all_colors_unfiltered() {
    let mut display = fresh(320, 240);
    let area = Rectangle { x: 10, y: 20, width: 3, height: 2 };
    let colors: Vec<u16> = vec![1, 2, 3, 4, 5, 6];
    let r = display.fill_contiguous(&area, &colors);
    assert_eq!(r, Ok(()));
    let mut expected = window(10, 20, 12, 21);
    expected.extend(stream(&[1, 2, 3, 4, 5, 6]));
    assert_eq!(display.interface.records, expected);
}

#[test]
fn fill_with_empty_intersection_issues_nothing() {
    let mut display = fresh(320, 240);
    let area = Rectangle { x: 400, y: 10, width: 5, height: 5 };
    let colors: Vec<u16> = vec![7; 25];
    let r = display.fill_contiguous(&area, &colors);
    assert_eq!(r, Ok(()));
    assert_eq!(display.interface.records, Vec::<Record>::new());

    let below = Rectangle { x: 0, y: -9, width: 3, height: 3 };
    let r = display.fill_contiguous(&below, &vec![1; 9]);
    assert_eq!(r, Ok(()));
    assert_eq!(display.interface.records, Vec::<Record>::new());
}

#[test]
fn fill_straddling_streams_only_surviving_colors() {
    let mut display = fresh(320, 240);
    // Row-major points: (-1,0) (0,0) (1,0) / (-1,1) (0,1) (1,1); the first
    // column lies off-panel, so colors 1 and 4 are discarded.
    let area = Rectangle { x: -1, y: 0, width: 3, height: 2 };
    let colors: Vec<u16> = vec![1, 2, 3, 4, 5, 6];
    let r = display.fill_contiguous(&area, &colors);
    assert_eq!(r, Ok(()));
    let mut expected = window(0, 0, 1, 1);
    expected.extend(stream(&[2, 3, 5, 6]));
    assert_eq!(display.interface.records, expected);
}

#[test]
fn fill_straddling_bottom_right_corner() {
    let mut display = fresh(320, 240);
    // A 4x4 block at (318, 238): only the 2x2 corner survives.
    let area = Rectangle { x: 318, y: 238, width: 4, height: 4 };
    let colors: Vec<u16> = (1..=16).collect();
    let r = display.fill_contiguous(&area, &colors);
    assert_eq!(r, Ok(()));
    let mut expected = window(318, 238, 319, 239);
    expected.extend(stream(&[1, 2, 5, 6]));
    assert_eq!(display.interface.records, expected);
}

#[test]
fn clear_screen_streams_red_over_the_whole_panel() {
    let mut display = fresh(4, 3);
    let r = display.clear_screen(0xf800);
    assert_eq!(r, Ok(()));
    // The window program names the panel size itself as the lower-right
    // corner, then one big-endian word per panel point follows.
    let mut expected = window(0, 0, 4, 3);
    expected.extend(stream(&[0xf800; 12]));
    assert_eq!(display.interface.records, expected);
}

#[test]
fn clear_screen_full_panel_pixel_count() {
    let mut display = fresh(320, 240);
    let r = display.clear_screen(0xf800);
    assert_eq!(r, Ok(()));
    assert_eq!(display.interface.records.len(), 7);
    match &display.interface.records[6] {
        Record::Data(bytes) => {
            assert_eq!(bytes.len(), 2 * 320 * 240);
            assert!(bytes.chunks(2).all(|p| p == [0xf8, 0x00]));
        },
        other => panic!("expected a data record, got {:?}", other),
    }
}

#[test]
fn draw_raw_iter_programs_the_given_window() {
    let mut display = fresh(320, 240);
    let colors: Vec<u16> = vec![0x1234, 0x5678];
    let r = display.draw_raw_iter(0x0102, 0x0304, 0x0506, 0x0708, &colors);
    assert_eq!(r, Ok(()));
    let mut expected = vec![
        cmd(&[0x2a]),
        dat(&[0x01, 0x02, 0x05, 0x06]),
        cmd(&[0x2b]),
        dat(&[0x03, 0x04, 0x07, 0x08]),
    ];
    expected.extend(stream(&[0x1234, 0x5678]));
    assert_eq!(display.interface.records, expected);
}

#[test]
fn transport_error_during_pixel_draw_stops_midway() {
    // Enough transfers for the power-up sequence plus one whole pixel (7
    // records); the second pixel's window program fails at once.
    let transport = FaultyTransport::new(28 + 7);
    let mut delay = RecordingDelay::new();
    let mut display =
        Ili9342C::new(transport, &mut delay, Orientation::Portrait, 320, 240).unwrap();
    display.interface.records.clear();
    let r = display.draw_iter(&vec![pix(1, 1, 0x0a0b), pix(2, 2, 0x0c0d)]);
    assert_eq!(r, Err(DisplayError::BusWriteError));
    let mut expected = window(1, 1, 1, 1);
    expected.extend(stream(&[0x0a0b]));
    assert_eq!(display.interface.records, expected);
}

#[test]
fn transport_error_during_orientation_change_keeps_the_size() {
    let transport = FaultyTransport::new(28);
    let mut delay = RecordingDelay::new();
    let mut display =
        Ili9342C::new(transport, &mut delay, Orientation::Portrait, 320, 240).unwrap();
    let r = display.set_orientation(Orientation::Landscape);
    assert_eq!(r, Err(DisplayError::BusWriteError));
    assert_eq!((display.width(), display.height()), (320, 240));
}

#[test]
fn transport_error_during_fill_is_surfaced() {
    // Enough transfers for the whole power-up sequence plus one window
    // half: the column bounds go out, the row bounds fail.
    let transport = FaultyTransport::new(28 + 2);
    let mut delay = RecordingDelay::new();
    let mut display =
        Ili9342C::new(transport, &mut delay, Orientation::Portrait, 320, 240).unwrap();
    display.interface.records.clear();
    let area = Rectangle { x: 0, y: 0, width: 2, height: 1 };
    let r = display.fill_contiguous(&area, &vec![1, 2]);
    assert_eq!(r, Err(DisplayError::BusWriteError));
    // The column bounds went out whole before the row bounds failed.
    assert_eq!(display.interface.records, vec![cmd(&[0x2a]), dat(&[0x00, 0x00, 0x00, 0x01])]);
}
