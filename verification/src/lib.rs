//! A verified core for a ZPL-family label-printer protocol: a typed command
//! model with an exact wire serialization, a monochrome raster codec, decoders
//! for the printer's loosely structured telemetry replies, and the decision
//! logic of a sentinel-terminated, deadline-bounded query transport.

pub mod printer;
pub mod printer_status;
pub mod raster;
pub mod text;
pub mod zpl;

pub use printer::{
    query_envelope, valid_ipv4_addr, QueryAccumulator, QueryStep, ReadEvent, TransportError,
    ZplPrinter, END_OF_TRANSMISSION,
};
pub use printer_status::{
    AlertInfo, BatteryInfo, ErrorFlags, HostStatus, LabelDimensions, MemoryStatus, OdometerInfo,
    PrinterInfo, PrinterStatus, PrintheadInfo, SensorMediaStatus, SuppliesStatus, WarningFlags,
};
pub use raster::{
    create_graphic_field_from_image, image_to_zpl_hex, parse_graphic_field_from_zpl,
    rgb_to_grayscale, RasterImage, Rgb,
};
pub use zpl::{
    commands_to_zpl, FieldOrientation, FieldRotation, FontOrientation, ZplCommand, ZplLabel,
    ZplPrefix,
};
