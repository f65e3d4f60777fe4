use crate::assoc::{distinct_keys, lemma_absent, lemma_present, lemma_push, lemma_replace, to_map};
use crate::command::Font;
use vstd::prelude::*;

verus! {

/// How long a USB write may take unless a profile says otherwise.
pub const DEFAULT_TIMEOUT_MILLIS: u64 = 2000;

/// Columns of [`Font::FontA`] unless a profile says otherwise.
pub const DEFAULT_COLUMNS: u8 = 32;

/// Printable width in dots unless a profile says otherwise.
pub const DEFAULT_WIDTH: u16 = 384;

/// Where the printer is found. The encoding layer never looks inside: it
/// carries the value to whoever opens the connection.
#[derive(Clone, Copy, Debug, PartialEq, Eq, Structural)]
pub enum PrinterConnectionData {
    Usb {
        vendor_id: u16,
        product_id: u16,
        /// The bulk-out endpoint, if it is known in advance.
        endpoint: Option<u8>,
        /// The longest that one write may block, in milliseconds.
        timeout_millis: u64,
    },
}

/// What a [`PrinterProfile`] stands for.
pub ghost struct PrinterProfileView {
    pub connection: PrinterConnectionData,
    /// The fonts that the printer supports, each with the characters that
    /// fit on one line.
    pub columns: Map<Font, u8>,
    /// The printable width in dots.
    pub width: u16,
}

/// Every column count is positive.
pub open spec fn positive_columns(entries: Seq<(Font, u8)>) -> bool {
    forall|i: int| 0 <= i < entries.len() ==> (#[trigger] entries[i]).1 > 0
}

proof fn lemma_values_positive(entries: Seq<(Font, u8)>)
    requires
        positive_columns(entries),
    ensures
        forall|font: Font|
            to_map(entries).contains_key(font) ==> #[trigger] to_map(entries)[font] > 0,
    decreases entries.len(),
{
    if entries.len() > 0 {
        lemma_values_positive(entries.drop_last());
        assert(entries[entries.len() - 1].1 > 0);
        assert forall|font: Font| to_map(entries).contains_key(font) implies #[trigger]
            to_map(entries)[font] > 0 by {
            if font != entries.last().0 {
                assert(to_map(entries.drop_last()).contains_key(font));
                assert(to_map(entries.drop_last())[font] > 0);
            }
        }
    }
}

/// The capabilities of one printer model, and where to find the device.
#[derive(Debug)]
pub struct PrinterProfile {
    connection: PrinterConnectionData,
    columns_per_font: Vec<(Font, u8)>,
    width: u16,
}

impl View for PrinterProfile {
    type V = PrinterProfileView;

    closed spec fn view(&self) -> PrinterProfileView {
        PrinterProfileView {
            connection: self.connection,
            columns: to_map(self.columns_per_font@),
            width: self.width,
        }
    }
}

impl PrinterProfileView {
    /// What every profile satisfies: a supported font has at least one
    /// column, and the printable width is at least one dot.
    pub open spec fn wf(self) -> bool {
        &&& self.width > 0
        &&& forall|font: Font| self.columns.contains_key(font) ==> #[trigger] self.columns[font] > 0
    }
}

impl PrinterProfile {
    #[verifier::type_invariant]
    spec fn inv(&self) -> bool {
        &&& distinct_keys(self.columns_per_font@)
        &&& positive_columns(self.columns_per_font@)
        &&& self.width > 0
    }

    /// A printer at this connection that supports no font yet and prints
    /// 384 dots per line.
    pub fn new(connection: PrinterConnectionData) -> (profile: PrinterProfile)
        ensures
            profile@.connection == connection,
            profile@.columns == Map::<Font, u8>::empty(),
            profile@.width == DEFAULT_WIDTH,
            profile@.wf(),
    {
        PrinterProfile { connection, columns_per_font: Vec::new(), width: DEFAULT_WIDTH }
    }

    /// A USB printer with the protocol defaults: no fixed endpoint, a write
    /// timeout of two seconds, 32 columns in font A and 384 printable dots.
    pub fn usb(vendor_id: u16, product_id: u16) -> (profile: PrinterProfile)
        ensures
            profile@.connection == (PrinterConnectionData::Usb {
                vendor_id,
                product_id,
                endpoint: None,
                timeout_millis: DEFAULT_TIMEOUT_MILLIS,
            }),
            profile@.columns == Map::<Font, u8>::empty().insert(Font::FontA, DEFAULT_COLUMNS),
            profile@.width == DEFAULT_WIDTH,
            profile@.wf(),
    {
        PrinterProfile::new(
            PrinterConnectionData::Usb {
                vendor_id,
                product_id,
                endpoint: None,
                timeout_millis: DEFAULT_TIMEOUT_MILLIS,
            },
        ).with_font_width(Font::FontA, DEFAULT_COLUMNS)
    }

    /// Sets the columns that `font` prints per line. A count of zero is no
    /// count: the profile is returned as it was.
    pub fn with_font_width(self, font: Font, columns: u8) -> (profile: PrinterProfile)
        ensures
            profile@.connection == self@.connection,
            profile@.width == self@.width,
            profile@.columns == if columns > 0 {
                self@.columns.insert(font, columns)
            } else {
                self@.columns
            },
            profile@.wf(),
    {
        proof {
            use_type_invariant(&self);
            lemma_values_positive(self.columns_per_font@);
        }
        if columns == 0 {
            return self;
        }
        let PrinterProfile { connection, columns_per_font, width } = self;
        let mut columns_per_font = columns_per_font;
        let ghost before = columns_per_font@;
        let mut i: usize = 0;
        while i < columns_per_font.len() && columns_per_font[i].0 != font
            invariant
                i <= columns_per_font.len(),
                columns_per_font@ == before,
                forall|k: int| 0 <= k < i ==> (#[trigger] before[k]).0 != font,
            decreases columns_per_font.len() - i,
        {
            i += 1;
        }
        if i < columns_per_font.len() {
            columns_per_font.set(i, (font, columns));
            proof {
                lemma_replace(before, i as int, font, columns);
            }
        } else {
            columns_per_font.push((font, columns));
            proof {
                lemma_push(before, font, columns);
            }
        }
        proof {
            lemma_values_positive(columns_per_font@);
        }
        PrinterProfile { connection, columns_per_font, width }
    }

    /// Sets the printable width in dots. A width of zero is no width: the
    /// profile is returned as it was.
    pub fn with_width(self, width: u16) -> (profile: PrinterProfile)
        ensures
            profile@.connection == self@.connection,
            profile@.columns == self@.columns,
            profile@.width == if width > 0 {
                width
            } else {
                self@.width
            },
            profile@.wf(),
    {
        proof {
            use_type_invariant(&self);
            lemma_values_positive(self.columns_per_font@);
        }
        if width == 0 {
            return self;
        }
        let PrinterProfile { connection, columns_per_font, width: _ } = self;
        PrinterProfile { connection, columns_per_font, width }
    }

    /// Fixes the endpoint that writes go to.
    pub fn with_endpoint(self, endpoint: u8) -> (profile: PrinterProfile)
        ensures
            profile@.connection == (match self@.connection {
                PrinterConnectionData::Usb { vendor_id, product_id, endpoint: _, timeout_millis } =>
                    PrinterConnectionData::Usb {
                        vendor_id,
                        product_id,
                        endpoint: Some(endpoint),
                        timeout_millis,
                    },
            }),
            profile@.columns == self@.columns,
            profile@.width == self@.width,
            profile@.wf(),
    {
        proof {
            use_type_invariant(&self);
            lemma_values_positive(self.columns_per_font@);
        }
        let PrinterProfile { connection, columns_per_font, width } = self;
        let connection = match connection {
            PrinterConnectionData::Usb { vendor_id, product_id, endpoint: _, timeout_millis } =>
                PrinterConnectionData::Usb {
                    vendor_id,
                    product_id,
                    endpoint: Some(endpoint),
                    timeout_millis,
                },
        };
        PrinterProfile { connection, columns_per_font, width }
    }

    /// Sets how long one write may block, in milliseconds.
    pub fn with_timeout_millis(self, timeout_millis: u64) -> (profile: PrinterProfile)
        ensures
            profile@.connection == (match self@.connection {
                PrinterConnectionData::Usb { vendor_id, product_id, endpoint, timeout_millis: _ } =>
                    PrinterConnectionData::Usb { vendor_id, product_id, endpoint, timeout_millis },
            }),
            profile@.columns == self@.columns,
            profile@.width == self@.width,
            profile@.wf(),
    {
        proof {
            use_type_invariant(&self);
            lemma_values_positive(self.columns_per_font@);
        }
        let PrinterProfile { connection, columns_per_font, width } = self;
        let connection = match connection {
            PrinterConnectionData::Usb { vendor_id, product_id, endpoint, timeout_millis: _ } =>
                PrinterConnectionData::Usb { vendor_id, product_id, endpoint, timeout_millis },
        };
        PrinterProfile { connection, columns_per_font, width }
    }

    /// The columns that `font` prints per line, if the printer supports it.
    pub fn columns_for(&self, font: Font) -> (columns: Option<u8>)
        ensures
            self@.wf(),
            columns == if self@.columns.contains_key(font) {
                Some(self@.columns[font])
            } else {
                None
            },
            columns matches Some(n) ==> n > 0,
    {
        proof {
            use_type_invariant(self);
            lemma_values_positive(self.columns_per_font@);
        }
        let mut i: usize = 0;
        while i < self.columns_per_font.len()
            invariant
                i <= self.columns_per_font.len(),
                distinct_keys(self.columns_per_font@),
                positive_columns(self.columns_per_font@),
                self@.wf(),
                forall|k: int| 0 <= k < i ==> (#[trigger] self.columns_per_font@[k]).0 != font,
            decreases self.columns_per_font.len() - i,
        {
            if self.columns_per_font[i].0 == font {
                proof {
                    lemma_present(self.columns_per_font@, i as int);
                }
                return Some(self.columns_per_font[i].1);
            }
            i += 1;
        }
        proof {
            lemma_absent(self.columns_per_font@, font);
        }
        None
    }

    /// The printable width in dots.
    pub fn width(&self) -> (width: u16)
        ensures
            self@.wf(),
            width == self@.width,
            width > 0,
    {
        proof {
            use_type_invariant(self);
            lemma_values_positive(self.columns_per_font@);
        }
        self.width
    }

    /// Where the printer is found.
    pub fn connection(&self) -> (connection: PrinterConnectionData)
        ensures
            connection == self@.connection,
    {
        self.connection
    }
}

} // verus!
