//! Avatar thumbnails for a menu-bar status plugin: a keyed store of
//! ready-made icons, the fallback policy that decides which image source is
//! tried next, and the decoding and scaling of what was fetched.
//!
//! Nothing here touches the network or the disk. The caller performs each
//! request that the resolver asks for and hands the outcome back.

pub mod cache;
pub mod decimal;
pub mod error;
pub mod picture;
pub mod resolver;
pub mod uid;
