//! Capture-to-text pipeline of a desktop overlay: the latest captured frame is
//! normalised to RGBA, matched against the configured screen layouts, cropped
//! to the matching layout's text region, read by an OCR engine and clustered
//! into named items with bounding boxes. Beside the pipeline stand the text
//! forms of the configured values and the store of market data.

pub mod geometry;
pub mod error;
pub mod frame;
pub mod channel;
pub mod layout;
pub mod text;
pub mod imaging;
pub mod engine;
pub mod cluster;
pub mod ocr;
pub mod projection;
pub mod scheduler;
pub mod market;
