//! Integer core of an image compressor: a row-major grid, trimming of an
//! image to even dimensions, the traversal of 2x2 blocks and the signed
//! range used to quantize cosine coefficients.

pub mod array2;
pub mod codec;
pub mod quant_ops;
