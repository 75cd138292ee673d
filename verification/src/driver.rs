//! The driver proper: construction over the fixed power-up sequence,
//! window-addressed pixel streaming, orientation control and the
//! drawable-surface operations, each with a contract over the transport's
//! ghost log.
use crate::command::Command;
use crate::geometry::contained_in;
use crate::geometry::lemma_intersection_contained;
use crate::geometry::Pixel;
use crate::geometry::Rectangle;
use crate::protocol::advanced_by_prefix;
use crate::protocol::be_bytes;
use crate::protocol::be_words;
use crate::protocol::clipped_colors;
use crate::protocol::command_records;
use crate::protocol::draw_pixels_records;
use crate::protocol::draw_raw_records;
use crate::protocol::fill_records;
use crate::protocol::gamma_neg_args;
use crate::protocol::gamma_pos_args;
use crate::protocol::in_bounds;
use crate::protocol::init_delays;
use crate::protocol::init_records;
use crate::protocol::lemma_draw_records_prefix;
use crate::protocol::lemma_prefix_through;
use crate::protocol::lemma_prefix_widen;
use crate::protocol::lemma_row_in_range;
use crate::protocol::pixel_records;
use crate::protocol::repeated;
use crate::protocol::window_records;
use crate::protocol::write_records;
use crate::transport::Delay;
use crate::transport::DisplayError;
use crate::transport::Transport;
use crate::transport::TxRec;
use vstd::prelude::*;

verus! {

/// Maps an orientation choice to the memory-access-control register byte
/// and a landscape/portrait flag.
pub trait Mode: Sized {
    /// The register byte the implementor stands for.
    spec fn spec_mode(&self) -> u8;

    /// Whether the implementor is a landscape orientation.
    spec fn spec_is_landscape(&self) -> bool;

    fn mode(&self) -> (r: u8)
        ensures
            r == self.spec_mode(),
    ;

    fn is_landscape(&self) -> (r: bool)
        ensures
            r == self.spec_is_landscape(),
    ;
}

/// The four scan directions the panel supports. The register values are the
/// mapping validated for this panel variant; other board revisions are known
/// to want a different one, so check against real hardware before trusting
/// it elsewhere.
#[derive(Clone, Copy, Debug)]
pub enum Orientation {
    Portrait,
    PortraitFlipped,
    Landscape,
    LandscapeFlipped,
}

impl Mode for Orientation {
    open spec fn spec_mode(&self) -> u8 {
        match self {
            Orientation::Landscape => 0x08,
            Orientation::Portrait => 0x28,
            Orientation::LandscapeFlipped => 0x88,
            Orientation::PortraitFlipped => 0xe8,
        }
    }

    open spec fn spec_is_landscape(&self) -> bool {
        match self {
            Orientation::Landscape | Orientation::LandscapeFlipped => true,
            Orientation::Portrait | Orientation::PortraitFlipped => false,
        }
    }

    fn mode(&self) -> (r: u8) {
        match self {
            Orientation::Landscape => 0x08,
            Orientation::Portrait => 0x28,
            Orientation::LandscapeFlipped => 0x88,
            Orientation::PortraitFlipped => 0xe8,
        }
    }

    fn is_landscape(&self) -> (r: bool) {
        match self {
            Orientation::Landscape | Orientation::LandscapeFlipped => true,
            Orientation::Portrait | Orientation::PortraitFlipped => false,
        }
    }
}

/// Whether a toggled mode of operation is switched on or off.
#[derive(Clone, Copy, Debug)]
pub enum ModeState {
    On,
    Off,
}

/// A fixed panel resolution a caller can hand to construction.
pub trait DisplaySize {
    /// Width in pixels.
    spec fn spec_width(&self) -> usize;

    /// Height in pixels.
    spec fn spec_height(&self) -> usize;

    fn width(&self) -> (r: usize)
        ensures
            r == self.spec_width(),
    ;

    fn height(&self) -> (r: usize)
        ensures
            r == self.spec_height(),
    ;
}

/// Generic display size of 320x240 pixels.
pub struct DisplaySize320x240;

impl DisplaySize for DisplaySize320x240 {
    open spec fn spec_width(&self) -> usize {
        320
    }

    open spec fn spec_height(&self) -> usize {
        240
    }

    fn width(&self) -> (r: usize) {
        320
    }

    fn height(&self) -> (r: usize) {
        240
    }
}

/// The tracked width after an orientation change: the sides swap exactly
/// when landscape-ness differs.
pub open spec fn width_after(w: usize, h: usize, land: bool, new_land: bool) -> usize {
    if land != new_land {
        h
    } else {
        w
    }
}

/// The tracked height after an orientation change: the sides swap exactly
/// when landscape-ness differs.
pub open spec fn height_after(w: usize, h: usize, land: bool, new_land: bool) -> usize {
    if land != new_land {
        w
    } else {
        h
    }
}

/// Orientation changes compose: a second change lands on the same tracked
/// size as applying it alone to the starting state. In particular,
/// re-applying the current orientation leaves the size unchanged, and going
/// from one orientation to another swaps the sides exactly when their
/// landscape-ness differs.
pub proof fn lemma_orientation_compose(w: usize, h: usize, land: bool, l1: bool, l2: bool)
    ensures
        width_after(width_after(w, h, land, l1), height_after(w, h, land, l1), l1, l2)
            == width_after(w, h, land, l2),
        height_after(width_after(w, h, land, l1), height_after(w, h, land, l1), l1, l2)
            == height_after(w, h, land, l2),
        width_after(w, h, land, land) == w,
        height_after(w, h, land, land) == h,
{
}

/// The opcode sleep-mode control sends for each state.
pub open spec fn sleep_opcode(mode: ModeState) -> u8 {
    match mode {
        ModeState::On => 0x10,
        ModeState::Off => 0x11,
    }
}

/// The opcode display-mode control sends for each state.
pub open spec fn display_opcode(mode: ModeState) -> u8 {
    match mode {
        ModeState::On => 0x29,
        ModeState::Off => 0x28,
    }
}

/// What clearing the whole screen issues: a window program whose lower-right
/// corner is the panel size itself — as the hardware protocol has it — then
/// one copy of the color for every panel point.
pub open spec fn clear_records(color: u16, w: u16, h: u16) -> Seq<TxRec> {
    draw_raw_records(0, 0, w, h, repeated(color, (w * h) as nat))
}

/// The driver: exclusive owner of its transport, tracking the panel size as
/// the current orientation reads it.
pub struct Ili9342C<IFACE> {
    pub interface: IFACE,
    pub width: usize,
    pub height: usize,
    pub landscape: bool,
}

impl<IFACE> Ili9342C<IFACE> {
    /// Well-formedness: positive panel sides that fit the chip's 16-bit
    /// window registers, with a pixel count a `usize` can hold.
    pub open spec fn wf(self) -> bool {
        &&& 0 < self.width <= 0xffff
        &&& 0 < self.height <= 0xffff
        &&& self.width * self.height <= usize::MAX
    }

    /// The panel's bounding rectangle, `[0, width) x [0, height)`.
    pub open spec fn bounds(self) -> Rectangle {
        Rectangle { x: 0, y: 0, width: self.width as u32, height: self.height as u32 }
    }

    /// The current screen width; it follows the orientation.
    pub fn width(&self) -> (r: usize)
        ensures
            r == self.width,
    {
        self.width
    }

    /// The current screen height; it follows the orientation.
    pub fn height(&self) -> (r: usize)
        ensures
            r == self.height,
    {
        self.height
    }
}

/// Sends one command over a borrowed transport: the opcode byte on the
/// command channel, then the argument bytes on the data channel.
fn send_command<IFACE: Transport>(interface: &mut IFACE, cmd: Command, args: &Vec<u8>) -> (r:
    Result<(), DisplayError>)
    ensures
        r is Ok ==> final(interface).log() == old(interface).log() + command_records(
            cmd.spec_code(),
            args@,
        ),
        r is Err ==> advanced_by_prefix(
            old(interface).log(),
            final(interface).log(),
            command_records(cmd.spec_code(), args@),
        ),
{
    let ghost full = command_records(cmd.spec_code(), args@);
    let mut op: Vec<u8> = Vec::new();
    op.push(cmd.code());
    proof {
        assert(op@ =~= seq![cmd.spec_code()]);
    }
    match interface.send_commands(&op) {
        Ok(()) => {}
        Err(e) => {
            proof {
                assert(interface.log() =~~= old(interface).log() + full.take(0));
                assert(advanced_by_prefix(old(interface).log(), interface.log(), full));
            }
            return Err(e);
        }
    }
    match interface.send_data(args) {
        Ok(()) => {
            proof {
                assert(interface.log() =~~= old(interface).log() + full);
            }
            Ok(())
        }
        Err(e) => {
            proof {
                assert(interface.log() =~~= old(interface).log() + full.take(1));
                assert(advanced_by_prefix(old(interface).log(), interface.log(), full));
            }
            Err(e)
        }
    }
}

/// The big-endian byte stream of a sequence of 16-bit words.
fn encode_be(words: &Vec<u16>) -> (r: Vec<u8>)
    ensures
        r@ == be_words(words@),
{
    let mut out: Vec<u8> = Vec::new();
    let mut i: usize = 0;
    while i < words.len()
        invariant
            i <= words.len(),
            out@ == be_words(words@.take(i as int)),
        decreases words.len() - i,
    {
        let w: u16 = words[i];
        out.push((w >> 8) as u8);
        out.push((w & 0xff) as u8);
        i += 1;
        proof {
            assert(words@.take(i as int).drop_last() =~= words@.take(i - 1));
            assert(words@.take(i as int).last() == words@[i - 1]);
            assert(out@ =~= be_words(words@.take(i as int)));
        }
    }
    proof {
        assert(words@.take(words@.len() as int) =~= words@);
    }
    out
}

/// One step of the power-up sequence: sends the command and accounts for it
/// against the whole sequence `full`, of which `done` already went out.
fn init_step<IFACE: Transport>(
    interface: &mut IFACE,
    cmd: Command,
    args: &Vec<u8>,
    Ghost(base): Ghost<Seq<TxRec>>,
    Ghost(done): Ghost<Seq<TxRec>>,
    Ghost(full): Ghost<Seq<TxRec>>,
) -> (r: Result<(), DisplayError>)
    requires
        old(interface).log() == base + done,
        done.len() + 2 <= full.len(),
        full.take((done.len() + 2) as int) == done + command_records(cmd.spec_code(), args@),
    ensures
        r is Ok ==> final(interface).log() == base + full.take((done.len() + 2) as int),
        r is Err ==> advanced_by_prefix(base, final(interface).log(), full),
        r is Err ==> base.len() + done.len() <= final(interface).log().len() < base.len()
            + done.len() + 2,
{
    match send_command(interface, cmd, args) {
        Ok(()) => {
            proof {
                assert(interface.log() =~~= base + (done + command_records(
                    cmd.spec_code(),
                    args@,
                )));
            }
            Ok(())
        }
        Err(e) => {
            proof {
                let cr = command_records(cmd.spec_code(), args@);
                let i = choose|i: int| 0 <= i < cr.len() && interface.log() == (base + done)
                    + cr.take(i);
                assert(interface.log().len() == base.len() + done.len() + i);
                lemma_prefix_through(base, interface.log(), done, cr, full);
            }
            Err(e)
        }
    }
}

/// Runs the fixed power-up sequence over a borrowed transport and delay
/// provider, bringing the chip from reset to ready. On success the
/// transport saw exactly `init_records(mode_byte)` and the delay provider
/// exactly the three settling delays, in their documented places; on a
/// transport error the sequence stops at the failing transfer, so the log
/// extension is a strict prefix of the sequence and nothing goes out for
/// any later step. The error contract also pins each delay to its place:
/// the 10 ms delay has run exactly when the reset's two records are out,
/// the 120 ms delay exactly when sleep-off's records — the twenty-fourth —
/// are out, and the 5 ms delay only once the whole sequence succeeded.
pub fn init_sequence<IFACE: Transport, DELAY: Delay>(
    interface: &mut IFACE,
    delay: &mut DELAY,
    mode_byte: u8,
) -> (r: Result<(), DisplayError>)
    ensures
        r is Ok ==> final(interface).log() == old(interface).log() + init_records(mode_byte),
        r is Ok ==> final(delay).log() == old(delay).log() + init_delays(),
        r is Err ==> advanced_by_prefix(
            old(interface).log(),
            final(interface).log(),
            init_records(mode_byte),
        ),
        r is Err ==> ({
            let sent = final(interface).log().len() - old(interface).log().len();
            final(delay).log() == old(delay).log() + init_delays().take(
                if sent < 2 {
                    0
                } else if sent < 24 {
                    1
                } else {
                    2
                },
            )
        }),
{
    let ghost full = init_records(mode_byte);
    let ghost base = old(interface).log();
    let ghost mut done: Seq<TxRec> = Seq::empty();
    proof {
        assert(interface.log() =~~= base + done);
        assert(full.len() == 28);
    }

    let no_args: Vec<u8> = Vec::new();
    proof {
        assert(no_args@ =~= Seq::<u8>::empty());
        assert(full.take((done.len() + 2) as int) =~~= done + command_records(0x01, no_args@));
    }
    match init_step(interface, Command::SoftwareReset, &no_args, Ghost(base), Ghost(done), Ghost(full)) {
        Ok(()) => {
            proof {
                done = full.take((done.len() + 2) as int);
            }
        }
        Err(e) => {
            proof {
                assert(delay.log() =~= old(delay).log() + init_delays().take(0));
            }
            return Err(e);
        }
    }
    delay.delay_ms(10);
    proof {
        assert(delay.log() =~= old(delay).log() + init_delays().take(1));
    }

    let mut a_extc: Vec<u8> = Vec::new();
    a_extc.push(0xff);
    a_extc.push(0x93);
    a_extc.push(0x42);
    proof {
        assert(a_extc@ =~= seq![0xffu8, 0x93, 0x42]);
        assert(full.take((done.len() + 2) as int) =~~= done + command_records(0xc8, a_extc@));
    }
    match init_step(interface, Command::ExtendedCommandSet, &a_extc, Ghost(base), Ghost(done), Ghost(full)) {
        Ok(()) => {
            proof {
                done = full.take((done.len() + 2) as int);
            }
        }
        Err(e) => {
            proof {
                assert(delay.log() =~= old(delay).log() + init_delays().take(1));
            }
            return Err(e);
        }
    }

    let mut a_pc1: Vec<u8> = Vec::new();
    a_pc1.push(0x12);
    a_pc1.push(0x12);
    proof {
        assert(a_pc1@ =~= seq![0x12u8, 0x12]);
        assert(full.take((done.len() + 2) as int) =~~= done + command_records(0xc0, a_pc1@));
    }
    match init_step(interface, Command::PowerControl1, &a_pc1, Ghost(base), Ghost(done), Ghost(full)) {
        Ok(()) => {
            proof {
                done = full.take((done.len() + 2) as int);
            }
        }
        Err(e) => {
            proof {
                assert(delay.log() =~= old(delay).log() + init_delays().take(1));
            }
            return Err(e);
        }
    }

    let mut a_pc2: Vec<u8> = Vec::new();
    a_pc2.push(0x03);
    proof {
        assert(a_pc2@ =~= seq![0x03u8]);
        assert(full.take((done.len() + 2) as int) =~~= done + command_records(0xc1, a_pc2@));
    }
    match init_step(interface, Command::PowerControl2, &a_pc2, Ghost(base), Ghost(done), Ghost(full)) {
        Ok(()) => {
            proof {
                done = full.take((done.len() + 2) as int);
            }
        }
        Err(e) => {
            proof {
                assert(delay.log() =~= old(delay).log() + init_delays().take(1));
            }
            return Err(e);
        }
    }

    let mut a_rgb: Vec<u8> = Vec::new();
    a_rgb.push(0xe0);
    proof {
        assert(a_rgb@ =~= seq![0xe0u8]);
        assert(full.take((done.len() + 2) as int) =~~= done + command_records(0xb0, a_rgb@));
    }
    match init_step(interface, Command::RgbInterface, &a_rgb, Ghost(base), Ghost(done), Ghost(full)) {
        Ok(()) => {
            proof {
                done = full.take((done.len() + 2) as int);
            }
        }
        Err(e) => {
            proof {
                assert(delay.log() =~= old(delay).log() + init_delays().take(1));
            }
            return Err(e);
        }
    }

    let mut a_ifc: Vec<u8> = Vec::new();
    a_ifc.push(0x00);
    a_ifc.push(0x01);
    a_ifc.push(0x01);
    proof {
        assert(a_ifc@ =~= seq![0x00u8, 0x01, 0x01]);
        assert(full.take((done.len() + 2) as int) =~~= done + command_records(0xf6, a_ifc@));
    }
    match init_step(interface, Command::InterfaceControl, &a_ifc, Ghost(base), Ghost(done), Ghost(full)) {
        Ok(()) => {
            proof {
                done = full.take((done.len() + 2) as int);
            }
        }
        Err(e) => {
            proof {
                assert(delay.log() =~= old(delay).log() + init_delays().take(1));
            }
            return Err(e);
        }
    }

    let mut a_mac: Vec<u8> = Vec::new();
    a_mac.push(mode_byte);
    proof {
        assert(a_mac@ =~= seq![mode_byte]);
        assert(full.take((done.len() + 2) as int) =~~= done + command_records(0x36, a_mac@));
    }
    match init_step(interface, Command::MemoryAccessControl, &a_mac, Ghost(base), Ghost(done), Ghost(full)) {
        Ok(()) => {
            proof {
                done = full.take((done.len() + 2) as int);
            }
        }
        Err(e) => {
            proof {
                assert(delay.log() =~= old(delay).log() + init_delays().take(1));
            }
            return Err(e);
        }
    }

    let mut a_pix: Vec<u8> = Vec::new();
    a_pix.push(0x55);
    proof {
        assert(a_pix@ =~= seq![0x55u8]);
        assert(full.take((done.len() + 2) as int) =~~= done + command_records(0x3a, a_pix@));
    }
    match init_step(interface, Command::PixelFormatSet, &a_pix, Ghost(base), Ghost(done), Ghost(full)) {
        Ok(()) => {
            proof {
                done = full.take((done.len() + 2) as int);
            }
        }
        Err(e) => {
            proof {
                assert(delay.log() =~= old(delay).log() + init_delays().take(1));
            }
            return Err(e);
        }
    }

    let mut a_dfc: Vec<u8> = Vec::new();
    a_dfc.push(0x08);
    a_dfc.push(0x82);
    a_dfc.push(0x27);
    proof {
        assert(a_dfc@ =~= seq![0x08u8, 0x82, 0x27]);
        assert(full.take((done.len() + 2) as int) =~~= done + command_records(0xb6, a_dfc@));
    }
    match init_step(interface, Command::DisplayFunctionControl, &a_dfc, Ghost(base), Ghost(done), Ghost(full)) {
        Ok(()) => {
            proof {
                done = full.take((done.len() + 2) as int);
            }
        }
        Err(e) => {
            proof {
                assert(delay.log() =~= old(delay).log() + init_delays().take(1));
            }
            return Err(e);
        }
    }

    let mut a_gp: Vec<u8> = Vec::new();
    a_gp.push(0x00);
    a_gp.push(0x0c);
    a_gp.push(0x11);
    a_gp.push(0x04);
    a_gp.push(0x11);
    a_gp.push(0x08);
    a_gp.push(0x37);
    a_gp.push(0x89);
    a_gp.push(0x4c);
    a_gp.push(0x06);
    a_gp.push(0x0c);
    a_gp.push(0x0a);
    a_gp.push(0x2e);
    a_gp.push(0x34);
    a_gp.push(0x0f);
    proof {
        assert(a_gp@ =~= gamma_pos_args());
        assert(full.take((done.len() + 2) as int) =~~= done + command_records(0xe0, a_gp@));
    }
    match init_step(interface, Command::GammaControlPos1, &a_gp, Ghost(base), Ghost(done), Ghost(full)) {
        Ok(()) => {
            proof {
                done = full.take((done.len() + 2) as int);
            }
        }
        Err(e) => {
            proof {
                assert(delay.log() =~= old(delay).log() + init_delays().take(1));
            }
            return Err(e);
        }
    }

    let mut a_gn: Vec<u8> = Vec::new();
    a_gn.push(0x00);
    a_gn.push(0x0b);
    a_gn.push(0x11);
    a_gn.push(0x05);
    a_gn.push(0x13);
    a_gn.push(0x09);
    a_gn.push(0x33);
    a_gn.push(0x67);
    a_gn.push(0x48);
    a_gn.push(0x07);
    a_gn.push(0x0e);
    a_gn.push(0x0b);
    a_gn.push(0x2e);
    a_gn.push(0x33);
    a_gn.push(0x0f);
    proof {
        assert(a_gn@ =~= gamma_neg_args());
        assert(full.take((done.len() + 2) as int) =~~= done + command_records(0xe1, a_gn@));
    }
    match init_step(interface, Command::GammaControlNeg1, &a_gn, Ghost(base), Ghost(done), Ghost(full)) {
        Ok(()) => {
            proof {
                done = full.take((done.len() + 2) as int);
            }
        }
        Err(e) => {
            proof {
                assert(delay.log() =~= old(delay).log() + init_delays().take(1));
            }
            return Err(e);
        }
    }

    proof {
        assert(full.take((done.len() + 2) as int) =~~= done + command_records(0x11, no_args@));
    }
    match init_step(interface, Command::SleepModeOff, &no_args, Ghost(base), Ghost(done), Ghost(full)) {
        Ok(()) => {
            proof {
                done = full.take((done.len() + 2) as int);
            }
        }
        Err(e) => {
            proof {
                assert(delay.log() =~= old(delay).log() + init_delays().take(1));
            }
            return Err(e);
        }
    }
    delay.delay_ms(120);
    proof {
        assert(delay.log() =~= old(delay).log() + init_delays().take(2));
    }

    proof {
        assert(full.take((done.len() + 2) as int) =~~= done + command_records(0x29, no_args@));
    }
    match init_step(interface, Command::DisplayOn, &no_args, Ghost(base), Ghost(done), Ghost(full)) {
        Ok(()) => {
            proof {
                done = full.take((done.len() + 2) as int);
            }
        }
        Err(e) => {
            proof {
                assert(delay.log() =~= old(delay).log() + init_delays().take(2));
            }
            return Err(e);
        }
    }

    proof {
        assert(full.take((done.len() + 2) as int) =~~= done + command_records(0x21, no_args@));
    }
    match init_step(interface, Command::InvertOn, &no_args, Ghost(base), Ghost(done), Ghost(full)) {
        Ok(()) => {
            proof {
                done = full.take((done.len() + 2) as int);
            }
        }
        Err(e) => {
            proof {
                assert(delay.log() =~= old(delay).log() + init_delays().take(2));
            }
            return Err(e);
        }
    }
    delay.delay_ms(5);
    proof {
        assert(delay.log() =~= old(delay).log() + init_delays());
        assert(full.len() == 28);
        assert(done =~= full);
        assert(interface.log() == base + full);
    }

    Ok(())
}

impl<IFACE> Ili9342C<IFACE> where IFACE: Transport {
    /// Brings the panel from reset to ready over the given transport, which
    /// the driver takes over for good. Construction is all-or-nothing: a
    /// transport error at any step aborts it and no instance is returned.
    /// The screen keeps whatever its memory held; there is no implicit
    /// clear. The panel size is taken as given — the tracked landscape flag
    /// starts out false regardless of the chosen orientation.
    pub fn new<DELAY: Delay, MODE: Mode>(
        interface: IFACE,
        delay: &mut DELAY,
        mode: MODE,
        width: usize,
        height: usize,
    ) -> (r: Result<Ili9342C<IFACE>, DisplayError>)
        requires
            0 < width <= 0xffff,
            0 < height <= 0xffff,
            width * height <= usize::MAX,
        ensures
            r matches Ok(d) ==> d.interface.log() == interface.log() + init_records(
                mode.spec_mode(),
            ) && d.width == width && d.height == height && !d.landscape && d.wf(),
            r is Ok ==> final(delay).log() == old(delay).log() + init_delays(),
            r is Err ==> exists|i: int|
                0 <= i < 3 && final(delay).log() == old(delay).log() + init_delays().take(i),
    {
        let mut iface = interface;
        let mode_byte: u8 = mode.mode();
        match init_sequence(&mut iface, delay, mode_byte) {
            Ok(()) => Ok(Ili9342C { interface: iface, width, height, landscape: false }),
            Err(e) => Err(e),
        }
    }

    /// One transmission: the opcode on the command channel, then the
    /// argument bytes on the data channel.
    fn command(&mut self, cmd: Command, args: &Vec<u8>) -> (r: Result<(), DisplayError>)
        ensures
            final(self).width == old(self).width,
            final(self).height == old(self).height,
            final(self).landscape == old(self).landscape,
            r is Ok ==> final(self).interface.log() == old(self).interface.log()
                + command_records(cmd.spec_code(), args@),
            r is Err ==> advanced_by_prefix(
                old(self).interface.log(),
                final(self).interface.log(),
                command_records(cmd.spec_code(), args@),
            ),
    {
        send_command(&mut self.interface, cmd, args)
    }

    /// Streams the colors into the current window: the memory-write opcode,
    /// then every color as a big-endian 16-bit word in one data transfer.
    fn write_iter(&mut self, data: &Vec<u16>) -> (r: Result<(), DisplayError>)
        ensures
            final(self).width == old(self).width,
            final(self).height == old(self).height,
            final(self).landscape == old(self).landscape,
            r is Ok ==> final(self).interface.log() == old(self).interface.log() + write_records(
                data@,
            ),
            r is Err ==> advanced_by_prefix(
                old(self).interface.log(),
                final(self).interface.log(),
                write_records(data@),
            ),
    {
        let ghost base = self.interface.log();
        let ghost full = write_records(data@);
        let none: Vec<u8> = Vec::new();
        proof {
            assert(none@ =~= Seq::<u8>::empty());
        }
        match self.command(Command::MemoryWrite, &none) {
            Ok(()) => {}
            Err(e) => {
                proof {
                    assert(full.take(2) =~~= command_records(0x2c, none@));
                    lemma_prefix_widen(
                        base,
                        self.interface.log(),
                        command_records(0x2c, none@),
                        full,
                    );
                }
                return Err(e);
            }
        }
        let bytes = encode_be(data);
        match self.interface.send_data(&bytes) {
            Ok(()) => {
                proof {
                    assert(self.interface.log() =~~= base + full);
                }
                Ok(())
            }
            Err(e) => {
                proof {
                    assert(self.interface.log() =~~= base + full.take(2));
                    assert(advanced_by_prefix(base, self.interface.log(), full));
                }
                Err(e)
            }
        }
    }

    /// Programs the inclusive address window: column bounds then row bounds,
    /// each as four big-endian bytes. The hardware cursor then sits at the
    /// window's top-left and auto-advances row-major as pixels arrive.
    fn set_window(&mut self, x0: u16, y0: u16, x1: u16, y1: u16) -> (r: Result<(), DisplayError>)
        ensures
            final(self).width == old(self).width,
            final(self).height == old(self).height,
            final(self).landscape == old(self).landscape,
            r is Ok ==> final(self).interface.log() == old(self).interface.log() + window_records(
                x0,
                y0,
                x1,
                y1,
            ),
            r is Err ==> advanced_by_prefix(
                old(self).interface.log(),
                final(self).interface.log(),
                window_records(x0, y0, x1, y1),
            ),
    {
        let ghost base = self.interface.log();
        let ghost full = window_records(x0, y0, x1, y1);
        let mut cols: Vec<u8> = Vec::new();
        cols.push((x0 >> 8) as u8);
        cols.push((x0 & 0xff) as u8);
        cols.push((x1 >> 8) as u8);
        cols.push((x1 & 0xff) as u8);
        proof {
            assert(cols@ =~= be_bytes(x0) + be_bytes(x1));
        }
        match self.command(Command::ColumnAddressSet, &cols) {
            Ok(()) => {}
            Err(e) => {
                proof {
                    assert(full.take(2) =~~= command_records(0x2a, cols@));
                    lemma_prefix_widen(
                        base,
                        self.interface.log(),
                        command_records(0x2a, cols@),
                        full,
                    );
                }
                return Err(e);
            }
        }
        let mut rows: Vec<u8> = Vec::new();
        rows.push((y0 >> 8) as u8);
        rows.push((y0 & 0xff) as u8);
        rows.push((y1 >> 8) as u8);
        rows.push((y1 & 0xff) as u8);
        proof {
            assert(rows@ =~= be_bytes(y0) + be_bytes(y1));
        }
        match self.command(Command::PageAddressSet, &rows) {
            Ok(()) => {
                proof {
                    assert(self.interface.log() =~~= base + full);
                }
                Ok(())
            }
            Err(e) => {
                proof {
                    assert(full.take((2 + 2) as int) =~~= command_records(0x2a, cols@)
                        + command_records(0x2b, rows@));
                    lemma_prefix_through(
                        base,
                        self.interface.log(),
                        command_records(0x2a, cols@),
                        command_records(0x2b, rows@),
                        full,
                    );
                }
                Err(e)
            }
        }
    }

    /// The fundamental primitive: programs the inclusive window
    /// (x0,y0)..(x1,y1), then streams the colors into it, row-major from the
    /// top-left. The caller owes exactly `(x1-x0+1)*(y1-y0+1)` colors:
    /// fewer leave the hardware cursor mid-window, more run into the chip's
    /// wrap behavior; neither is an error the chip can report.
    pub fn draw_raw_iter(&mut self, x0: u16, y0: u16, x1: u16, y1: u16, data: &Vec<u16>) -> (r:
        Result<(), DisplayError>)
        ensures
            final(self).width == old(self).width,
            final(self).height == old(self).height,
            final(self).landscape == old(self).landscape,
            r is Ok ==> final(self).interface.log() == old(self).interface.log()
                + draw_raw_records(x0, y0, x1, y1, data@),
            r is Err ==> advanced_by_prefix(
                old(self).interface.log(),
                final(self).interface.log(),
                draw_raw_records(x0, y0, x1, y1, data@),
            ),
    {
        let ghost base = self.interface.log();
        let ghost full = draw_raw_records(x0, y0, x1, y1, data@);
        match self.set_window(x0, y0, x1, y1) {
            Ok(()) => {}
            Err(e) => {
                proof {
                    assert(full.take(window_records(x0, y0, x1, y1).len() as int) =~~=
                        window_records(x0, y0, x1, y1));
                    lemma_prefix_widen(
                        base,
                        self.interface.log(),
                        window_records(x0, y0, x1, y1),
                        full,
                    );
                }
                return Err(e);
            }
        }
        match self.write_iter(data) {
            Ok(()) => {
                proof {
                    assert(self.interface.log() =~~= base + full);
                }
                Ok(())
            }
            Err(e) => {
                proof {
                    assert(full.take(
                        (window_records(x0, y0, x1, y1).len() + write_records(data@).len()) as int,
                    ) =~~= window_records(x0, y0, x1, y1) + write_records(data@));
                    lemma_prefix_through(
                        base,
                        self.interface.log(),
                        window_records(x0, y0, x1, y1),
                        write_records(data@),
                        full,
                    );
                }
                Err(e)
            }
        }
    }

    /// Re-programs the scan-direction register. When the new orientation's
    /// landscape flag differs from the current one, the tracked width and
    /// height swap — a pure relabeling; no pixel data moves — so the pixel
    /// count never changes.
    pub fn set_orientation<MODE: Mode>(&mut self, mode: MODE) -> (r: Result<(), DisplayError>)
        ensures
            r is Ok ==> final(self).width == width_after(
                old(self).width,
                old(self).height,
                old(self).landscape,
                mode.spec_is_landscape(),
            ) && final(self).height == height_after(
                old(self).width,
                old(self).height,
                old(self).landscape,
                mode.spec_is_landscape(),
            ) && final(self).landscape == mode.spec_is_landscape(),
            r is Err ==> final(self).width == old(self).width && final(self).height == old(
                self,
            ).height && final(self).landscape == old(self).landscape,
            final(self).width * final(self).height == old(self).width * old(self).height,
            old(self).wf() ==> final(self).wf(),
            r is Ok ==> final(self).interface.log() == old(self).interface.log()
                + command_records(0x36, seq![mode.spec_mode()]),
            r is Err ==> advanced_by_prefix(
                old(self).interface.log(),
                final(self).interface.log(),
                command_records(0x36, seq![mode.spec_mode()]),
            ),
    {
        let mb: u8 = mode.mode();
        let mut args: Vec<u8> = Vec::new();
        args.push(mb);
        proof {
            assert(args@ =~= seq![mode.spec_mode()]);
        }
        match self.command(Command::MemoryAccessControl, &args) {
            Ok(()) => {}
            Err(e) => {
                return Err(e);
            }
        }
        if self.landscape != mode.is_landscape() {
            let t: usize = self.width;
            self.width = self.height;
            self.height = t;
        }
        self.landscape = mode.is_landscape();
        proof {
            let w0 = old(self).width;
            let h0 = old(self).height;
            let w1 = self.width;
            let h1 = self.height;
            assert(w1 * h1 == w0 * h0) by (nonlinear_arith)
                requires
                    w1 == w0 && h1 == h0 || w1 == h0 && h1 == w0,
            ;
        }
        Ok(())
    }

    /// Sleep-mode control: a single write-only toggle with no tracked state
    /// and no guard against redundant calls.
    pub fn sleep_mode(&mut self, mode: ModeState) -> (r: Result<(), DisplayError>)
        ensures
            final(self).width == old(self).width,
            final(self).height == old(self).height,
            final(self).landscape == old(self).landscape,
            r is Ok ==> final(self).interface.log() == old(self).interface.log()
                + command_records(sleep_opcode(mode), Seq::empty()),
            r is Err ==> advanced_by_prefix(
                old(self).interface.log(),
                final(self).interface.log(),
                command_records(sleep_opcode(mode), Seq::empty()),
            ),
    {
        let none: Vec<u8> = Vec::new();
        proof {
            assert(none@ =~= Seq::<u8>::empty());
        }
        match mode {
            ModeState::On => self.command(Command::SleepModeOn, &none),
            ModeState::Off => self.command(Command::SleepModeOff, &none),
        }
    }

    /// Display on/off control: a single write-only toggle with no tracked
    /// state and no guard against redundant calls.
    pub fn display_mode(&mut self, mode: ModeState) -> (r: Result<(), DisplayError>)
        ensures
            final(self).width == old(self).width,
            final(self).height == old(self).height,
            final(self).landscape == old(self).landscape,
            r is Ok ==> final(self).interface.log() == old(self).interface.log()
                + command_records(display_opcode(mode), Seq::empty()),
            r is Err ==> advanced_by_prefix(
                old(self).interface.log(),
                final(self).interface.log(),
                command_records(display_opcode(mode), Seq::empty()),
            ),
    {
        let none: Vec<u8> = Vec::new();
        proof {
            assert(none@ =~= Seq::<u8>::empty());
        }
        match mode {
            ModeState::On => self.command(Command::DisplayOn, &none),
            ModeState::Off => self.command(Command::DisplayOff, &none),
        }
    }

    /// Fills the entire screen with one color: one window program over the
    /// whole panel, then `width * height` copies of the color.
    pub fn clear_screen(&mut self, color: u16) -> (r: Result<(), DisplayError>)
        requires
            old(self).wf(),
        ensures
            final(self).width == old(self).width,
            final(self).height == old(self).height,
            final(self).landscape == old(self).landscape,
            r is Ok ==> final(self).interface.log() == old(self).interface.log() + clear_records(
                color,
                old(self).width as u16,
                old(self).height as u16,
            ),
            r is Err ==> advanced_by_prefix(
                old(self).interface.log(),
                final(self).interface.log(),
                clear_records(color, old(self).width as u16, old(self).height as u16),
            ),
    {
        let n: usize = self.width * self.height;
        let mut buf: Vec<u16> = Vec::new();
        let mut i: usize = 0;
        while i < n
            invariant
                i <= n,
                buf@ == repeated(color, i as nat),
            decreases n - i,
        {
            buf.push(color);
            i += 1;
            proof {
                assert(buf@ =~= repeated(color, i as nat));
            }
        }
        proof {
            assert(buf@ =~= repeated(
                color,
                ((old(self).width as u16) * (old(self).height as u16)) as nat,
            ));
        }
        self.draw_raw_iter(0, 0, self.width as u16, self.height as u16, &buf)
    }

    /// Per-pixel draw: each pixel whose point lies on the panel gets its own
    /// 1x1 window and single-color stream, in order; pixels off the panel
    /// are silently clipped, never an error. Correctness-first — bulk
    /// drawing should go through the fill path.
    pub fn draw_iter(&mut self, pixels: &Vec<Pixel>) -> (r: Result<(), DisplayError>)
        requires
            old(self).wf(),
        ensures
            final(self).width == old(self).width,
            final(self).height == old(self).height,
            final(self).landscape == old(self).landscape,
            r is Ok ==> final(self).interface.log() == old(self).interface.log()
                + draw_pixels_records(
                pixels@,
                old(self).width as int,
                old(self).height as int,
            ),
            draw_pixels_records(pixels@, old(self).width as int, old(self).height as int).len()
                == 0 ==> r is Ok && final(self).interface.log() == old(self).interface.log(),
            r is Err ==> advanced_by_prefix(
                old(self).interface.log(),
                final(self).interface.log(),
                draw_pixels_records(pixels@, old(self).width as int, old(self).height as int),
            ),
    {
        let ghost base = old(self).interface.log();
        let ghost w = old(self).width as int;
        let ghost h = old(self).height as int;
        let ghost full = draw_pixels_records(pixels@, w, h);
        let mut i: usize = 0;
        while i < pixels.len()
            invariant
                i <= pixels.len(),
                self.wf(),
                self.width == old(self).width,
                self.height == old(self).height,
                self.landscape == old(self).landscape,
                w == self.width as int,
                h == self.height as int,
                base == old(self).interface.log(),
                full == draw_pixels_records(pixels@, w, h),
                self.interface.log() == base + draw_pixels_records(pixels@.take(i as int), w, h),
            decreases pixels.len() - i,
        {
            let p = pixels[i];
            let ghost done = draw_pixels_records(pixels@.take(i as int), w, h);
            let inb: bool = p.point.x >= 0 && p.point.y >= 0 && (p.point.x as i64) < (
            self.width as i64) && (p.point.y as i64) < (self.height as i64);
            proof {
                assert(inb == in_bounds(p.point, w, h));
                assert(pixels@.take(i + 1).drop_last() =~= pixels@.take(i as int));
                assert(pixels@.take(i + 1).last() == pixels@[i as int]);
            }
            if inb {
                let x: u16 = p.point.x as u16;
                let y: u16 = p.point.y as u16;
                let mut one: Vec<u16> = Vec::new();
                one.push(p.color);
                proof {
                    assert(one@ =~= seq![p.color]);
                    assert(draw_pixels_records(pixels@.take(i + 1), w, h) =~~= done
                        + pixel_records(x, y, p.color));
                }
                match self.draw_raw_iter(x, y, x, y, &one) {
                    Ok(()) => {
                        proof {
                            assert(self.interface.log() =~~= base + draw_pixels_records(
                                pixels@.take(i + 1),
                                w,
                                h,
                            ));
                        }
                    },
                    Err(e) => {
                        proof {
                            lemma_draw_records_prefix(pixels@, i + 1, w, h);
                            lemma_prefix_through(
                                base,
                                self.interface.log(),
                                done,
                                pixel_records(x, y, p.color),
                                full,
                            );
                        }
                        return Err(e);
                    },
                }
            } else {
                proof {
                    assert(draw_pixels_records(pixels@.take(i + 1), w, h) =~~= done);
                }
            }
            i += 1;
        }
        proof {
            assert(pixels@.take(pixels@.len() as int) =~= pixels@);
        }
        Ok(())
    }

    /// Area fill: pairs the colors with the rectangle's points in row-major
    /// order — the caller owes exactly one color per point, in that order;
    /// a mismatch scrambles colors silently, which nothing can detect — and
    /// clips to the panel. A miss issues nothing and succeeds; a rectangle
    /// fully inside streams every color unfiltered against its own window; a
    /// straddling one streams only the colors of in-bounds points against
    /// the intersection's window.
    pub fn fill_contiguous(&mut self, area: &Rectangle, colors: &Vec<u16>) -> (r: Result<
        (),
        DisplayError,
    >)
        requires
            old(self).wf(),
            colors@.len() == area.point_count(),
        ensures
            final(self).width == old(self).width,
            final(self).height == old(self).height,
            final(self).landscape == old(self).landscape,
            r is Ok ==> final(self).interface.log() == old(self).interface.log() + fill_records(
                *area,
                colors@,
                old(self).bounds(),
            ),
            area.spec_intersection(old(self).bounds()).is_empty() ==> r is Ok
                && final(self).interface.log() == old(self).interface.log(),
            r is Err ==> advanced_by_prefix(
                old(self).interface.log(),
                final(self).interface.log(),
                fill_records(*area, colors@, old(self).bounds()),
            ),
    {
        let bb = Rectangle { x: 0, y: 0, width: self.width as u32, height: self.height as u32 };
        proof {
            assert(bb == old(self).bounds());
        }
        let inter = area.intersection(&bb);
        if inter.width == 0 || inter.height == 0 {
            proof {
                assert(fill_records(*area, colors@, bb) =~~= Seq::<TxRec>::empty());
                assert(self.interface.log() =~= old(self).interface.log());
            }
            return Ok(());
        }
        proof {
            lemma_intersection_contained(*area, bb);
        }
        if *area == inter {
            let x0: u16 = area.x as u16;
            let y0: u16 = area.y as u16;
            let x1: u16 = ((area.x as i64) + (area.width as i64) - 1) as u16;
            let y1: u16 = ((area.y as i64) + (area.height as i64) - 1) as u16;
            proof {
                assert(x1 == (area.right() - 1) as u16);
                assert(y1 == (area.bottom() - 1) as u16);
                assert(fill_records(*area, colors@, bb) == draw_raw_records(
                    x0,
                    y0,
                    x1,
                    y1,
                    colors@,
                ));
            }
            self.draw_raw_iter(x0, y0, x1, y1, colors)
        } else {
            let selected = select_clipped(colors, area, &inter);
            let x0: u16 = inter.x as u16;
            let y0: u16 = inter.y as u16;
            let x1: u16 = ((inter.x as i64) + (inter.width as i64) - 1) as u16;
            let y1: u16 = ((inter.y as i64) + (inter.height as i64) - 1) as u16;
            proof {
                assert(x1 == (inter.right() - 1) as u16);
                assert(y1 == (inter.bottom() - 1) as u16);
                assert(fill_records(*area, colors@, bb) == draw_raw_records(
                    x0,
                    y0,
                    x1,
                    y1,
                    clipped_colors(colors@, *area, inter),
                ));
            }
            self.draw_raw_iter(x0, y0, x1, y1, &selected)
        }
    }
}

/// The colors whose points survive clipping `area` to `inter`, in row-major
/// order: for each of `inter`'s rows, the run of colors paired with that
/// row's surviving points.
fn select_clipped(colors: &Vec<u16>, area: &Rectangle, inter: &Rectangle) -> (r: Vec<u16>)
    requires
        colors@.len() == area.point_count(),
        contained_in(*inter, *area),
        !inter.is_empty(),
    ensures
        r@ == clipped_colors(colors@, *area, *inter),
{
    let n: usize = colors.len();
    let mut out: Vec<u16> = Vec::new();
    let ih: usize = inter.height as usize;
    let iw: usize = inter.width as usize;
    let aw: usize = area.width as usize;
    let dx: usize = ((inter.x as i64) - (area.x as i64)) as usize;
    let mut j: usize = 0;
    while j < ih
        invariant
            j <= ih,
            ih == inter.height,
            iw == inter.width,
            aw == area.width,
            dx == inter.x - area.x,
            n == colors@.len(),
            colors@.len() == area.point_count(),
            contained_in(*inter, *area),
            !inter.is_empty(),
            out@ == clipped_colors(
                colors@,
                *area,
                (Rectangle { x: inter.x, y: inter.y, width: inter.width, height: j as u32 }),
            ),
        decreases ih - j,
    {
        let ghost sub_prev = Rectangle {
            x: inter.x,
            y: inter.y,
            width: inter.width,
            height: j as u32,
        };
        let ghost yrow = inter.y + j as int;
        proof {
            lemma_row_in_range(colors@, *area, *inter, yrow);
        }
        let dy: usize = ((inter.y as i64) + (j as i64) - (area.y as i64)) as usize;
        let row_base: usize = dy * aw + dx;
        proof {
            assert(row_base == (yrow - area.y) * area.width + (inter.x - area.x));
        }
        let mut k: usize = 0;
        while k < iw
            invariant
                k <= iw,
                iw == inter.width,
                n == colors@.len(),
                row_base == (yrow - area.y) * area.width + (inter.x - area.x),
                row_base + iw <= n,
                out@ == clipped_colors(colors@, *area, sub_prev) + colors@.subrange(
                    row_base as int,
                    row_base as int + k,
                ),
            decreases iw - k,
        {
            out.push(colors[row_base + k]);
            k += 1;
            proof {
                assert(colors@.subrange(row_base as int, row_base as int + k) =~= colors@.subrange(
                    row_base as int,
                    row_base as int + k - 1,
                ).push(colors@[row_base as int + k - 1]));
            }
        }
        j += 1;
        proof {
            let sub = Rectangle { x: inter.x, y: inter.y, width: inter.width, height: j as u32 };
            assert(Rectangle {
                x: sub.x,
                y: sub.y,
                width: sub.width,
                height: (sub.height - 1) as u32,
            } == sub_prev);
            assert(out@ =~= clipped_colors(colors@, *area, sub));
        }
    }
    proof {
        assert(Rectangle { x: inter.x, y: inter.y, width: inter.width, height: ih as u32 }
            == *inter);
    }
    out
}

} // verus!
