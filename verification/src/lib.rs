pub mod codec;
pub mod dataset;
pub mod errors;
pub mod pipeline;
