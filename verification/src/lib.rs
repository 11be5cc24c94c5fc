//! Decoder for JMA radar-per-site polar-coordinate GRIB2 messages, with the
//! bookkeeping of a GRLevel2-style polling bridge around it.
//!
//! Physical quantities are kept as the integers that the message carries
//! (micro-degrees, millimetres, angles in hundredths of a degree, and values
//! in units of `10^-decimal_scale`), so that every decoded number is exact.

pub mod bridge;
pub mod error;
pub mod live;
pub mod model;
pub mod nict;
pub mod parser;
pub mod render;
pub mod rle;
pub mod text;
pub mod wire;

pub use bridge::{
    decode_input_bytes, publish_bytes, publish_volumes, BridgeError, BridgeOptions, PublishPlan, PublishReport,
    RenderJob,
};
pub use error::DecodeError;
pub use model::{DateTimeParts, GridDefinition, Identification, Product, RadarSite, Sweep, Volume};
pub use nict::{NictDownload, NictError, NictProduct};
pub use parser::{decode_grib2, decode_tar};
pub use render::{ColorPalette, RenderOptions};
