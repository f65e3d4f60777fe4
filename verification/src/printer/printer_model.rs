use crate::command::Font;
use crate::printer::printer_profile::{PrinterConnectionData, PrinterProfile, DEFAULT_TIMEOUT_MILLIS};
use vstd::prelude::*;

verus! {

/// Printers known to this library
#[derive(Clone, Copy, Debug, PartialEq, Eq, Structural)]
pub enum PrinterModel {
    /// ZKTeco mini printer
    ZKTeco,
    /// Epson most used printer
    TMT20,
}

impl PrinterModel {
    /// The vendor id, product id and endpoint of the model.
    pub open spec fn ids(self) -> (u16, u16, Option<u8>) {
        match self {
            PrinterModel::ZKTeco => (0x6868u16, 0x0200u16, Some(0x02u8)),
            PrinterModel::TMT20 => (0x04b8u16, 0x0e15u16, Some(0x01u8)),
        }
    }

    /// The fonts of the model, each with its columns per line.
    pub open spec fn columns(self) -> Map<Font, u8> {
        match self {
            PrinterModel::ZKTeco => Map::<Font, u8>::empty().insert(Font::FontA, 32u8).insert(
                Font::FontB,
                42u8,
            ),
            PrinterModel::TMT20 => Map::<Font, u8>::empty().insert(Font::FontA, 48u8),
        }
    }

    /// The printable width of the model in dots.
    pub open spec fn dots(self) -> u16 {
        match self {
            PrinterModel::ZKTeco => 384,
            PrinterModel::TMT20 => 576,
        }
    }

    /// Get the vendor, product id and endpoint of the current model
    pub fn vp_id(&self) -> (ids: (u16, u16, Option<u8>))
        ensures
            ids == self.ids(),
    {
        match self {
            PrinterModel::ZKTeco => (0x6868, 0x0200, Some(0x02)),
            PrinterModel::TMT20 => (0x04b8, 0x0e15, Some(0x01)),
        }
    }

    /// Obtain the details to connect to a printer model through usb
    pub fn usb_profile(&self) -> (profile: PrinterProfile)
        ensures
            profile@.connection == (PrinterConnectionData::Usb {
                vendor_id: self.ids().0,
                product_id: self.ids().1,
                endpoint: self.ids().2,
                timeout_millis: DEFAULT_TIMEOUT_MILLIS,
            }),
            profile@.columns == self.columns(),
            profile@.width == self.dots(),
            profile@.wf(),
    {
        let (vendor_id, product_id, endpoint) = self.vp_id();
        let base = match endpoint {
            Some(endpoint) => PrinterProfile::usb(vendor_id, product_id).with_endpoint(endpoint),
            None => PrinterProfile::usb(vendor_id, product_id),
        };
        let profile = match self {
            PrinterModel::ZKTeco => base.with_font_width(Font::FontA, 32).with_font_width(
                Font::FontB,
                42,
            ).with_width(384),
            PrinterModel::TMT20 => base.with_font_width(Font::FontA, 48).with_width(576),
        };
        assert(profile@.columns =~= self.columns());
        profile
    }
}

} // verus!
