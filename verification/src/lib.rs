//! Ingesting malware samples: fingerprinting, family-specific stage
//! decoding (base64, repeating-key XOR, gzip, obfuscated PowerShell),
//! a byte-exact ZIP/APK archive model with an encryption-bit-stripping
//! transform, and a content-addressed store that records each
//! artifact's lineage as nodes and edges.

pub mod apk;
pub mod archive;
pub mod archive_props;
pub mod bytesutil;
pub mod carnavalheist;
pub mod codec;
pub mod coper;
pub mod mintsloader;
pub mod nodes;
pub mod store;
pub mod textenc;
