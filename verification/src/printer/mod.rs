//! Printer models, what each of them can print, and the printer itself.
pub mod printer_details;
pub mod printer_model;
pub mod printer_profile;

use crate::command::Font;
use crate::encoder::{encode, is_encoding};
use crate::error::Error;
use crate::image::{encode_image, is_image_encoding, Bitmap};
use crate::instruction::print_data::PrintData;
use crate::instruction::justification::Justification;
use crate::instruction::{resolution, resolve, Instruction, InstructionView};
use crate::printer::printer_details::{PrinterDetails, PrinterDetailsView};
use crate::printer::printer_profile::PrinterProfile;
use vstd::prelude::*;
use vstd::string::*;

verus! {

/// A printer as far as bytes go: it knows its details and says, for each
/// request, which bytes the device must receive.
///
/// A request gives either the whole stream or an error, never part of a
/// stream: whoever owns the connection writes the stream in one piece or
/// writes nothing.
#[derive(Debug)]
pub struct Printer {
    details: PrinterDetails,
}

impl View for Printer {
    type V = PrinterDetailsView;

    closed spec fn view(&self) -> PrinterDetailsView {
        self.details@
    }
}

/// `result` is what [`Printer::instruction`] returns: the error of
/// resolution where that fails, else what encoding the resolved text gives.
pub open spec fn is_instruction_stream(
    result: Result<Vec<u8>, Error>,
    printer: PrinterDetailsView,
    instruction: InstructionView,
    data: Map<Seq<char>, Seq<char>>,
) -> bool {
    match resolution(instruction.pieces, data) {
        Err(token) => result matches Err(Error::MissingSubstitution(missing)) && missing@ == token,
        Ok(text) => is_encoding(
            result,
            text,
            instruction.font,
            instruction.justification,
            printer.profile,
        ),
    }
}

impl Printer {
    /// A printer with these details.
    pub fn new(details: PrinterDetails) -> (printer: Printer)
        ensures
            printer@ == details@,
    {
        Printer { details }
    }

    /// A printer with this profile, with plain text in font A, justified
    /// left.
    pub fn with_profile(profile: PrinterProfile) -> (printer: Printer)
        ensures
            printer@.profile == profile@,
            printer@.font == Font::FontA,
            printer@.justification == Justification::Left,
    {
        Printer { details: PrinterDetails::from_profile(profile) }
    }

    /// The details of the printer.
    pub fn details(&self) -> (details: &PrinterDetails)
        ensures
            details@ == self@,
    {
        &self.details
    }

    /// The stream that prints `text` in the printer's font and
    /// justification for plain text.
    pub fn print(&self, text: &str) -> (result: Result<Vec<u8>, Error>)
        ensures
            is_encoding(result, text@, self@.font, self@.justification, self@.profile),
    {
        encode(text, self.details.font(), self.details.justification(), self.details.profile())
    }

    /// The stream that prints `instruction` with its placeholders filled in
    /// from `data`. The template is resolved first, so a missing value is
    /// reported before a font that the printer does not have.
    pub fn instruction(&self, instruction: &Instruction, data: &PrintData) -> (result: Result<
        Vec<u8>,
        Error,
    >)
        ensures
            is_instruction_stream(result, self@, instruction@, data@),
    {
        match resolve(instruction, data) {
            Err(error) => Err(error),
            Ok(text) => encode(
                text.as_str(),
                instruction.font(),
                instruction.justification(),
                self.details.profile(),
            ),
        }
    }

    /// The stream that prints `bitmap`.
    pub fn image(&self, bitmap: &Bitmap) -> (result: Result<Vec<u8>, Error>)
        ensures
            is_image_encoding(result, bitmap@, self@.profile),
    {
        encode_image(bitmap, self.details.profile())
    }

    /// What the caller is told once the connection has answered the one
    /// write of a stream: success as it is, a failure as the transport
    /// reported it. A failed write is not tried again.
    pub fn settle(written: Result<(), String>) -> (outcome: Result<(), Error>)
        ensures
            match written {
                Ok(_) => outcome is Ok,
                Err(message) => outcome matches Err(Error::Transport(reported)) && reported@
                    == message@,
            },
    {
        match written {
            Ok(_) => Ok(()),
            Err(message) => Err(Error::Transport(message)),
        }
    }
}

} // verus!
