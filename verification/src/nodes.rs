//! The artifact node and edge schema: one struct per collection, each
//! node carrying its SHA-256 fingerprint (as 64 lowercase hex bytes)
//! and its family-specific attributes.

use vstd::prelude::*;

verus! {

/// The corpus root node for family-focused analysis.
#[derive(Debug, Clone, Default)]
pub struct FocusedCorpus {
    pub name: String,
    pub display_name: String,
}

/// Edge from the corpus to a malware family node.
#[derive(Debug, Clone, Default)]
pub struct HasMalwareFamily {
    pub _key: String,
    pub _from: String,
    pub _to: String,
}

/// The Carnavalheist family node.
#[derive(Debug, Clone, Default)]
pub struct Carnavalheist {
    pub name: String,
    pub display_name: String,
}

/// A Carnavalheist batch-script stage.
#[derive(Debug, Clone, Default)]
pub struct CarnavalheistBatch {
    pub sha256sum: Vec<u8>,
}

/// Edge from the family node to a batch stage.
#[derive(Debug, Clone, Default)]
pub struct CarnavalheistHasBatch {
    pub _key: String,
    pub _from: String,
    pub _to: String,
}

/// Which extraction path produced a PowerShell stage.
#[derive(Debug, Clone, Copy, PartialEq, Eq, Structural)]
pub enum PsType {
    Normal,
    Concat,
}

/// A Carnavalheist PowerShell stage.
#[derive(Debug, Clone)]
pub struct CarnavalheistPs {
    pub sha256sum: Vec<u8>,
    pub ps_type: PsType,
}

/// Edge from a batch stage to its PowerShell stage.
#[derive(Debug, Clone, Default)]
pub struct CarnavalheistHasPs {
    pub _key: String,
    pub _from: String,
    pub _to: String,
}

/// A Carnavalheist Python stage.
#[derive(Debug, Clone, Default)]
pub struct CarnavalheistPython {
    pub sha256sum: Vec<u8>,
}

/// Edge from a PowerShell stage to its Python stage.
#[derive(Debug, Clone, Default)]
pub struct CarnavalheistHasPython {
    pub _key: String,
    pub _from: String,
    pub _to: String,
}

/// The Coper family node.
#[derive(Debug, Clone, Default)]
pub struct Coper {
    pub name: String,
    pub display_name: String,
}

/// A Coper APK sample; `is_cut` records a missing or unreadable
/// end-of-central-directory, the mark of a truncated sample.
#[derive(Debug, Clone, Default)]
pub struct CoperAPK {
    pub sha256sum: Vec<u8>,
    pub is_cut: bool,
}

/// Edge from the family node to an APK sample.
#[derive(Debug, Clone, Default)]
pub struct CoperHasAPK {
    pub _key: String,
    pub _from: String,
    pub _to: String,
}

/// The named architectures an APK ships native libraries for.
#[derive(Debug, Clone, Copy, PartialEq, Eq, Structural)]
pub enum CoperELFArchitecture {
    X86_64,
    X86,
    Arm64V8a,
    ArmEabiV7a,
}

/// A Coper ELF payload with its detected architecture, when one was
/// recognized.
#[derive(Debug, Clone)]
pub struct CoperELF {
    pub sha256sum: Vec<u8>,
    pub architecture: Option<CoperELFArchitecture>,
}

/// Edge from an APK to an ELF payload.
#[derive(Debug, Clone, Default)]
pub struct CoperHasELF {
    pub _key: String,
    pub _from: String,
    pub _to: String,
}

/// A Coper DEX payload.
#[derive(Debug, Clone, Default)]
pub struct CoperDEX {
    pub sha256sum: Vec<u8>,
}

/// Edge from an APK to a DEX payload.
#[derive(Debug, Clone, Default)]
pub struct CoperHasDEX {
    pub _key: String,
    pub _from: String,
    pub _to: String,
}

/// The Mintsloader family node.
#[derive(Debug, Clone, Default)]
pub struct Mintsloader {
    pub name: String,
    pub display_name: String,
}

/// The stage kinds a Mintsloader PowerShell sample can take.
#[derive(Debug, Clone, Copy, PartialEq, Eq, Structural)]
pub enum MintsloaderPsKind {
    XorBase64,
    DgaIex,
    StartProcess,
    TwoLiner,
}

/// A Mintsloader PowerShell stage with its detected kind.
#[derive(Debug, Clone)]
pub struct MintsloaderPs {
    pub sha256sum: Vec<u8>,
    pub kind: MintsloaderPsKind,
}

/// Edge between Mintsloader PowerShell stages, or from the family node
/// to one.
#[derive(Debug, Clone, Default)]
pub struct MintsloaderHasPs {
    pub _key: String,
    pub _from: String,
    pub _to: String,
}

/// An embedded code snippet recovered from an obfuscated stage.
#[derive(Debug, Clone, Default)]
pub struct MintsloaderJava {
    pub sha256sum: Vec<u8>,
}

/// Edge from a PowerShell stage to an embedded code snippet.
#[derive(Debug, Clone, Default)]
pub struct MintsloaderHasJava {
    pub _key: String,
    pub _from: String,
    pub _to: String,
}

/// An embedded certificate recovered from an obfuscated stage.
#[derive(Debug, Clone, Default)]
pub struct MintsloaderX509Cert {
    pub sha256sum: Vec<u8>,
}

/// Edge from a PowerShell stage to an embedded certificate.
#[derive(Debug, Clone, Default)]
pub struct MintsloaderHasX509Cert {
    pub _key: String,
    pub _from: String,
    pub _to: String,
}

} // verus!
