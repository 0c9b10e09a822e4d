//! Builds small, well-formed VCF fixtures from compact variant descriptions.
//!
//! A variant is written as `CHR-POS-REF-ALT|GENOTYPE|GENOTYPE...`. The crate
//! reads such descriptions ([`variant`]), declares the header that the
//! records need ([`header`], [`keys`]) and composes one data line for each
//! variant, which the VCF codec then decodes against that header
//! ([`record`]). [`fixture`] puts these steps together. What the crate takes
//! from the codec without proof stands in [`codec`].

pub mod codec;
pub mod decimal;
pub mod fixture;
pub mod header;
pub mod keys;
pub mod record;
pub mod text;
pub mod variant;
