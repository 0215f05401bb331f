pub mod batch;
pub mod binary;
pub mod codec;
pub mod embed;
pub mod errors;
pub mod metadata;
pub mod pixels;
