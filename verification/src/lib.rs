//! Driver logic for a 7.3 inch seven-colour e-paper panel (800 x 480 pixels).
//!
//! The crate holds the part of a panel driver that decides: the pixel
//! encoding, the command sequences of the panel's protocol and the state
//! machine that walks them. It performs no input or output itself. The
//! caller owns the serial bus and the four control lines, carries out each
//! [`Action`] the driver hands out and reports what happened as an
//! [`Event`].
//!
//! ```
//! use epaper7in3f::{Action, EPaper7In3F, Error, Event, Level, Step};
//!
//! fn bring_up(driver: &mut EPaper7In3F) -> Result<(), Error> {
//!     let mut step = driver.init();
//!     loop {
//!         match step {
//!             Step::Finished(result) => return result,
//!             Step::Perform(action) => {
//!                 // Here the action is carried out on the hardware.
//!                 let event = match action {
//!                     Action::ReadBusy => Event::Sampled(Level::High),
//!                     _ => Event::Done,
//!                 };
//!                 step = driver.advance(event);
//!             }
//!         }
//!     }
//! }
//!
//! assert_eq!(bring_up(&mut EPaper7In3F::new()), Ok(()));
//! ```

pub mod color;
pub mod epaper;
pub mod error;
pub mod geometry;
pub mod program;
pub mod protocol;
pub mod trace;

pub use crate::color::Color;
pub use crate::epaper::EPaper7In3F;
pub use crate::error::Error;
pub use crate::geometry::{EPD_7IN3F_HEIGHT, EPD_7IN3F_WIDTH};
pub use crate::program::Program;
pub use crate::protocol::{Action, Event, Level, Line, Step};
