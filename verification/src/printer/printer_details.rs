use crate::command::Font;
use crate::instruction::justification::Justification;
use crate::printer::printer_profile::{
    PrinterConnectionData, PrinterProfile, PrinterProfileView, DEFAULT_COLUMNS,
    DEFAULT_TIMEOUT_MILLIS, DEFAULT_WIDTH,
};
use vstd::prelude::*;

verus! {

/// What a [`PrinterDetails`] or a [`PrinterDetailsBuilder`] stands for.
pub ghost struct PrinterDetailsView {
    pub profile: PrinterProfileView,
    /// The font that plain text is printed in.
    pub font: Font,
    /// The justification that plain text is printed with.
    pub justification: Justification,
}

/// All that printing needs to know of a printer: its profile, and the font
/// and justification of plain text.
#[derive(Debug)]
pub struct PrinterDetails {
    profile: PrinterProfile,
    font: Font,
    justification: Justification,
}

/// Details in the making. Each method overrides one default.
#[derive(Debug)]
pub struct PrinterDetailsBuilder {
    profile: PrinterProfile,
    font: Font,
    justification: Justification,
}

impl View for PrinterDetails {
    type V = PrinterDetailsView;

    closed spec fn view(&self) -> PrinterDetailsView {
        PrinterDetailsView {
            profile: self.profile@,
            font: self.font,
            justification: self.justification,
        }
    }
}

impl View for PrinterDetailsBuilder {
    type V = PrinterDetailsView;

    closed spec fn view(&self) -> PrinterDetailsView {
        PrinterDetailsView {
            profile: self.profile@,
            font: self.font,
            justification: self.justification,
        }
    }
}

impl PrinterDetails {
    /// Starts from the protocol defaults of a USB printer: no fixed
    /// endpoint, a write timeout of two seconds, 32 columns in font A, 384
    /// printable dots, and plain text in font A, justified left.
    pub fn builder(vendor_id: u16, product_id: u16) -> (builder: PrinterDetailsBuilder)
        ensures
            builder@.profile.connection == (PrinterConnectionData::Usb {
                vendor_id,
                product_id,
                endpoint: None,
                timeout_millis: DEFAULT_TIMEOUT_MILLIS,
            }),
            builder@.profile.columns == Map::<Font, u8>::empty().insert(
                Font::FontA,
                DEFAULT_COLUMNS,
            ),
            builder@.profile.width == DEFAULT_WIDTH,
            builder@.font == Font::FontA,
            builder@.justification == Justification::Left,
    {
        PrinterDetailsBuilder {
            profile: PrinterProfile::usb(vendor_id, product_id),
            font: Font::FontA,
            justification: Justification::Left,
        }
    }

    /// The details of a printer with this profile, with plain text in font
    /// A, justified left.
    pub fn from_profile(profile: PrinterProfile) -> (details: PrinterDetails)
        ensures
            details@.profile == profile@,
            details@.font == Font::FontA,
            details@.justification == Justification::Left,
    {
        PrinterDetails { profile, font: Font::FontA, justification: Justification::Left }
    }

    /// The profile of the printer.
    pub fn profile(&self) -> (profile: &PrinterProfile)
        ensures
            profile@ == self@.profile,
    {
        &self.profile
    }

    /// The font that plain text is printed in.
    pub fn font(&self) -> (font: Font)
        ensures
            font == self@.font,
    {
        self.font
    }

    /// The justification that plain text is printed with.
    pub fn justification(&self) -> (justification: Justification)
        ensures
            justification == self@.justification,
    {
        self.justification
    }
}

impl PrinterDetailsBuilder {
    /// Sets the columns that `font` prints per line. A count of zero is no
    /// count and changes nothing.
    pub fn with_font_width(self, font: Font, columns: u8) -> (builder: PrinterDetailsBuilder)
        ensures
            builder@.profile.connection == self@.profile.connection,
            builder@.profile.width == self@.profile.width,
            builder@.profile.columns == if columns > 0 {
                self@.profile.columns.insert(font, columns)
            } else {
                self@.profile.columns
            },
            builder@.font == self@.font,
            builder@.justification == self@.justification,
    {
        let PrinterDetailsBuilder { profile, font: text_font, justification } = self;
        PrinterDetailsBuilder {
            profile: profile.with_font_width(font, columns),
            font: text_font,
            justification,
        }
    }

    /// Sets the printable width in dots. A width of zero is no width and
    /// changes nothing.
    pub fn with_width(self, width: u16) -> (builder: PrinterDetailsBuilder)
        ensures
            builder@.profile.connection == self@.profile.connection,
            builder@.profile.columns == self@.profile.columns,
            builder@.profile.width == if width > 0 {
                width
            } else {
                self@.profile.width
            },
            builder@.font == self@.font,
            builder@.justification == self@.justification,
    {
        let PrinterDetailsBuilder { profile, font, justification } = self;
        PrinterDetailsBuilder { profile: profile.with_width(width), font, justification }
    }

    /// Fixes the endpoint that writes go to.
    pub fn with_endpoint(self, endpoint: u8) -> (builder: PrinterDetailsBuilder)
        ensures
            builder@.profile.connection == (match self@.profile.connection {
                PrinterConnectionData::Usb { vendor_id, product_id, endpoint: _, timeout_millis } =>
                    PrinterConnectionData::Usb {
                        vendor_id,
                        product_id,
                        endpoint: Some(endpoint),
                        timeout_millis,
                    },
            }),
            builder@.profile.columns == self@.profile.columns,
            builder@.profile.width == self@.profile.width,
            builder@.font == self@.font,
            builder@.justification == self@.justification,
    {
        let PrinterDetailsBuilder { profile, font, justification } = self;
        PrinterDetailsBuilder { profile: profile.with_endpoint(endpoint), font, justification }
    }

    /// Sets how long one write may block, in milliseconds.
    pub fn with_timeout_millis(self, timeout_millis: u64) -> (builder: PrinterDetailsBuilder)
        ensures
            builder@.profile.connection == (match self@.profile.connection {
                PrinterConnectionData::Usb { vendor_id, product_id, endpoint, timeout_millis: _ } =>
                    PrinterConnectionData::Usb { vendor_id, product_id, endpoint, timeout_millis },
            }),
            builder@.profile.columns == self@.profile.columns,
            builder@.profile.width == self@.profile.width,
            builder@.font == self@.font,
            builder@.justification == self@.justification,
    {
        let PrinterDetailsBuilder { profile, font, justification } = self;
        PrinterDetailsBuilder {
            profile: profile.with_timeout_millis(timeout_millis),
            font,
            justification,
        }
    }

    /// Sets the font that plain text is printed in.
    pub fn with_font(self, font: Font) -> (builder: PrinterDetailsBuilder)
        ensures
            builder@.profile == self@.profile,
            builder@.font == font,
            builder@.justification == self@.justification,
    {
        let PrinterDetailsBuilder { profile, font: _, justification } = self;
        PrinterDetailsBuilder { profile, font, justification }
    }

    /// Sets the justification that plain text is printed with.
    pub fn with_justification(self, justification: Justification) -> (builder:
        PrinterDetailsBuilder)
        ensures
            builder@.profile == self@.profile,
            builder@.font == self@.font,
            builder@.justification == justification,
    {
        let PrinterDetailsBuilder { profile, font, justification: _ } = self;
        PrinterDetailsBuilder { profile, font, justification }
    }

    /// The details as they stand. Nothing is refused here: whether the
    /// numbers fit the device is for the caller to know.
    pub fn build(self) -> (details: PrinterDetails)
        ensures
            details@ == self@,
    {
        let PrinterDetailsBuilder { profile, font, justification } = self;
        PrinterDetails { profile, font, justification }
    }
}

} // verus!
