//! Byte streams for ESC/POS thermal receipt printers.
//!
//! The crate turns print requests into the exact bytes that a printer model
//! understands. A request is either plain text, an [`Instruction`] (a reusable
//! template whose placeholder tokens are filled in from a [`PrintData`] for
//! each job), or a monochrome [`Bitmap`]. A [`PrinterProfile`] describes what
//! one model can print: the columns that each font offers and the printable
//! width in dots.
//!
//! Nothing here talks to a device. Every operation is a function from values
//! to bytes (or to an [`Error`]), so the same input always gives the same
//! stream, and a caller hands the finished stream to whatever transport it
//! owns.
pub mod assoc;
pub mod command;
pub mod encoder;
pub mod error;
pub mod image;
pub mod instruction;
pub mod printer;
pub mod text;
pub mod wrap;

pub use command::{Command, Font};
pub use encoder::encode;
pub use error::Error;
pub use image::{encode_image, Bitmap, BitmapView};
pub use instruction::justification::Justification;
pub use instruction::print_data::{PrintData, PrintDataBuilder};
pub use instruction::template::{Piece, Segment};
pub use instruction::{resolve, Instruction, InstructionView};
pub use printer::printer_details::{PrinterDetails, PrinterDetailsBuilder, PrinterDetailsView};
pub use printer::printer_model::PrinterModel;
pub use printer::Printer;
pub use printer::printer_profile::{PrinterConnectionData, PrinterProfile, PrinterProfileView};
