//! Codecs for compression methods other than "stored".
pub mod gzip_codec;
pub mod zstd_codec;
