//! Stream processing for realtime public-transport vehicle positions:
//! joining static trip metadata, detecting reached stops, tokenizing trips
//! into model features, tracking delays, and the small text and time
//! utilities these rely on.

pub mod text;
pub mod vehicle;
pub mod tokens;
pub mod time;
pub mod features;
pub mod stop_detector;
pub mod metadata;
pub mod stream;
pub mod delay;
pub mod training_data;
pub mod exporter;
pub mod feed;
pub mod stats;
pub mod feature_pipeline2;
