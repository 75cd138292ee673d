//! Register-level driver for an ILI9342C TFT LCD controller reached through a
//! byte-oriented command/data transport.
//!
//! The driver initializes the panel, programs rectangular address windows and
//! streams 16-bit RGB565 pixel words into them, and projects per-pixel and
//! rectangular-fill draw requests onto that single streaming primitive,
//! clipping them to the panel bounds.
mod command;
mod driver;
mod geometry;
mod protocol;
mod transport;

pub use driver::clear_records;
pub use driver::display_opcode;
pub use driver::height_after;
pub use driver::init_sequence;
pub use driver::lemma_orientation_compose;
pub use driver::sleep_opcode;
pub use driver::width_after;
pub use driver::DisplaySize;
pub use driver::DisplaySize320x240;
pub use driver::Ili9342C;
pub use driver::Mode;
pub use driver::ModeState;
pub use driver::Orientation;
pub use geometry::contained_in;
pub use geometry::Pixel;
pub use geometry::Point;
pub use geometry::Rectangle;
pub use protocol::advanced_by_prefix;
pub use protocol::be_bytes;
pub use protocol::be_words;
pub use protocol::clipped_colors;
pub use protocol::command_records;
pub use protocol::draw_pixels_records;
pub use protocol::draw_raw_records;
pub use protocol::fill_records;
pub use protocol::gamma_neg_args;
pub use protocol::gamma_pos_args;
pub use protocol::in_bounds;
pub use protocol::init_delays;
pub use protocol::init_records;
pub use protocol::lemma_be_words_len;
pub use protocol::lemma_clipped_colors_len;
pub use protocol::lemma_draw_single_in_bounds;
pub use protocol::lemma_draw_single_out_of_bounds;
pub use protocol::lemma_fill_inside;
pub use protocol::lemma_fill_outside;
pub use protocol::lemma_fill_straddling;
pub use protocol::pixel_records;
pub use protocol::repeated;
pub use protocol::window_records;
pub use protocol::write_records;

pub use transport::Delay;
pub use transport::DisplayError;
pub use transport::FaultyTransport;
pub use transport::Record;
pub use transport::RecordingDelay;
pub use transport::RecordingTransport;
pub use transport::Transport;
pub use transport::TxRec;
