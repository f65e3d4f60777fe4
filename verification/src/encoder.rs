//! From text and formatting to the bytes that print it.
use crate::command::{Command, Font};
use crate::error::Error;
use crate::instruction::justification::Justification;
use crate::printer::printer_profile::{PrinterProfile, PrinterProfileView};
use crate::text::{push_utf8_text, to_chars};
use crate::wrap::{wrap, wrap_text};
use vstd::prelude::*;
use vstd::utf8::*;

verus! {

/// The stream that prints `text` in a font of `columns` columns: the font
/// selection, the justification, the text in UTF-8 with its lines broken to
/// fit, and the line feed that prints the last line.
pub open spec fn encoded_text(
    text: Seq<char>,
    font: Font,
    justification: Justification,
    columns: u8,
) -> Seq<u8> {
    (Command::SelectFont { font }).bytes() + (Command::Justify { justification }).bytes()
        + encode_utf8(wrap(text, columns as int)) + Command::LineFeed.bytes()
}

/// What encoding gives on a printer with this profile: the stream, or the
/// refusal of a font that the printer does not have.
pub open spec fn encoding(
    text: Seq<char>,
    font: Font,
    justification: Justification,
    profile: PrinterProfileView,
) -> Result<Seq<u8>, Error> {
    if profile.columns.contains_key(font) {
        Ok(encoded_text(text, font, justification, profile.columns[font]))
    } else {
        Err(Error::UnsupportedFont(font))
    }
}

/// `result` is what [`encode`] returns on these arguments.
pub open spec fn is_encoding(
    result: Result<Vec<u8>, Error>,
    text: Seq<char>,
    font: Font,
    justification: Justification,
    profile: PrinterProfileView,
) -> bool {
    match encoding(text, font, justification, profile) {
        Ok(bytes) => result matches Ok(stream) && stream@ == bytes,
        Err(error) => result matches Err(e) && e == error,
    }
}

/// The stream that prints `text` in a font of `columns` columns.
pub fn encode_lines(text: &Vec<char>, font: Font, justification: Justification, columns: u8) -> (stream:
    Vec<u8>)
    requires
        columns > 0,
    ensures
        stream@ == encoded_text(text@, font, justification, columns),
{
    let mut stream: Vec<u8> = Vec::new();
    (Command::SelectFont { font }).write_to(&mut stream);
    (Command::Justify { justification }).write_to(&mut stream);
    let lines = wrap_text(text, columns);
    push_utf8_text(&mut stream, &lines);
    Command::LineFeed.write_to(&mut stream);
    assert(stream@ =~= encoded_text(text@, font, justification, columns));
    stream
}

/// Encodes `text` for a printer with this profile.
///
/// Fails with [`Error::UnsupportedFont`] exactly when the profile has no
/// column count for `font`. Otherwise the stream selects the font, selects the
/// justification, carries the text with no line longer than the font's
/// columns, and ends with a line feed.
pub fn encode(text: &str, font: Font, justification: Justification, profile: &PrinterProfile) -> (result:
    Result<Vec<u8>, Error>)
    ensures
        is_encoding(result, text@, font, justification, profile@),
{
    match profile.columns_for(font) {
        None => Err(Error::UnsupportedFont(font)),
        Some(columns) => {
            let chars = to_chars(text);
            Ok(encode_lines(&chars, font, justification, columns))
        },
    }
}

/// Encoding is a function of its arguments: two results for the same text,
/// font, justification and profile are the same bytes, or the same error.
pub proof fn lemma_encode_deterministic(
    first: Result<Vec<u8>, Error>,
    second: Result<Vec<u8>, Error>,
    text: Seq<char>,
    font: Font,
    justification: Justification,
    profile: PrinterProfileView,
)
    requires
        is_encoding(first, text, font, justification, profile),
        is_encoding(second, text, font, justification, profile),
    ensures
        match (first, second) {
            (Ok(a), Ok(b)) => a@ == b@,
            (Err(a), Err(b)) => a == b,
            _ => false,
        },
{
}

} // verus!
