//! Verified core of the Majiro Engine extension tools: archive entry
//! checks, translation catalogs and their placement in script bodies,
//! pixel post-processing of decoded images, and batch conversion
//! bookkeeping.

pub mod archive;
pub mod batch;
pub mod catalog;
pub mod encode;
pub mod image;
pub mod localize;
pub mod names;
pub mod text;
