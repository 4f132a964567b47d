//! Verified cores of four classic text utilities: a head-style line/byte
//! window reader, a uniq-style consecutive-match grouper, a wc-style
//! counting accumulator, and a find-style entry filter, together with the
//! per-input error taxonomy and order-preserving result aggregation they
//! share.
pub mod chars;
pub mod errors;
pub mod findr;
pub mod headr;
pub mod lines;
pub mod numfmt;
pub mod uniqr;
pub mod wcr;
pub mod window;
