//! The Coper family: magic-byte classification, ELF architecture
//! detection, APK member extraction, and the content-addressed pipeline
//! that records samples and their payloads as nodes and edges.

use vstd::prelude::*;

verus! {

use crate::apk::{zip_member_data_of, zip_member_data, zip_member_names_of, zip_member_names};
use crate::bytesutil::{spec_ends_with, spec_starts_with, ends_with_bytes, starts_with_bytes};
use crate::codec::{sha256_hex, sha256_hex_of};
use crate::nodes::{Coper, CoperAPK, CoperDEX, CoperELF, CoperELFArchitecture};
use crate::store::{EdgeCollection, NodeCollection, NodeData, Store, StoreEdge, StoreNode};
use crate::store::{spec_node_index, spec_upsert_edge};

/// The sample kinds this family distinguishes.
#[derive(Debug, Clone, Copy, PartialEq, Eq, Structural)]
pub enum CoperSampleType {
    APK,
    ELF,
    DEX,
}

/// The ZIP magic `PK`.
pub open spec fn pk_magic() -> Seq<u8> {
    seq![0x50u8, 0x4bu8]
}

/// The DEX magic `dex\n`.
pub open spec fn dex_magic() -> Seq<u8> {
    seq![0x64u8, 0x65u8, 0x78u8, 0x0au8]
}

/// The ELF magic `\x7fELF`.
pub open spec fn elf_magic() -> Seq<u8> {
    seq![0x7fu8, 0x45u8, 0x4cu8, 0x46u8]
}

/// What classification yields: the first magic that matches, in the
/// fixed priority order ZIP, then DEX (magic plus null trailer byte),
/// then ELF.
pub open spec fn spec_coper_detect(s: Seq<u8>) -> Option<CoperSampleType> {
    if spec_starts_with(s, pk_magic()) {
        Some(CoperSampleType::APK)
    } else if spec_starts_with(s, dex_magic()) && s.len() >= 8 && s[7] == 0 {
        Some(CoperSampleType::DEX)
    } else if spec_starts_with(s, elf_magic()) {
        Some(CoperSampleType::ELF)
    } else {
        None
    }
}

/// Classifies a sample by its magic bytes; `None` when nothing matches.
pub fn detect_sample_type(sample_data: &[u8]) -> (r: Option<CoperSampleType>)
    ensures
        r == spec_coper_detect(sample_data@),
{
    let pk: Vec<u8> = vec![0x50u8, 0x4bu8];
    let dex: Vec<u8> = vec![0x64u8, 0x65u8, 0x78u8, 0x0au8];
    let elf: Vec<u8> = vec![0x7fu8, 0x45u8, 0x4cu8, 0x46u8];
    assert(pk@ =~= pk_magic());
    assert(dex@ =~= dex_magic());
    assert(elf@ =~= elf_magic());

    if starts_with_bytes(sample_data, pk.as_slice()) {
        Some(CoperSampleType::APK)
    } else if starts_with_bytes(sample_data, dex.as_slice()) && sample_data.len() >= 8
        && sample_data[7] == 0 {
        Some(CoperSampleType::DEX)
    } else if starts_with_bytes(sample_data, elf.as_slice()) {
        Some(CoperSampleType::ELF)
    } else {
        None
    }
}

/// The architecture a known ELF machine-type byte names; unknown values
/// yield `None`, never an error.
pub open spec fn spec_arch_of_machine(b: u8) -> Option<CoperELFArchitecture> {
    if b == 0x03 {
        Some(CoperELFArchitecture::X86)
    } else if b == 0x28 {
        Some(CoperELFArchitecture::ArmEabiV7a)
    } else if b == 0x3e {
        Some(CoperELFArchitecture::X86_64)
    } else if b == 0xb7 {
        Some(CoperELFArchitecture::Arm64V8a)
    } else {
        None
    }
}

/// What architecture detection yields: the endianness byte at offset 5
/// selects the machine-type byte at offset 18 (little-endian) or 19
/// (big-endian); unknown machine types and short buffers yield `None`.
pub open spec fn spec_detect_elf_architecture(s: Seq<u8>) -> Option<CoperELFArchitecture> {
    if s.len() <= 5 {
        None
    } else if s[5] == 1 {
        if s.len() <= 18 {
            None
        } else {
            spec_arch_of_machine(s[18])
        }
    } else if s[5] == 2 {
        if s.len() <= 19 {
            None
        } else {
            spec_arch_of_machine(s[19])
        }
    } else {
        None
    }
}

/// Detects the architecture of an ELF image from its endianness and
/// machine-type bytes; unrecognized values yield `None`, never an
/// error.
pub fn detect_elf_architecture(sample_data: &[u8]) -> (r: Option<CoperELFArchitecture>)
    ensures
        r == spec_detect_elf_architecture(sample_data@),
{
    if sample_data.len() <= 5 {
        return None;
    }
    let endianness = sample_data[5];
    let machine: u8 = if endianness == 1 {
        if sample_data.len() <= 18 {
            return None;
        }
        sample_data[18]
    } else if endianness == 2 {
        if sample_data.len() <= 19 {
            return None;
        }
        sample_data[19]
    } else {
        return None;
    };

    if machine == 0x03 {
        Some(CoperELFArchitecture::X86)
    } else if machine == 0x28 {
        Some(CoperELFArchitecture::ArmEabiV7a)
    } else if machine == 0x3e {
        Some(CoperELFArchitecture::X86_64)
    } else if machine == 0xb7 {
        Some(CoperELFArchitecture::Arm64V8a)
    } else {
        None
    }
}

/// An ELF payload pulled out of an APK, with the architecture its
/// library path names.
#[derive(Debug)]
pub struct ElfEntry {
    pub data: Vec<u8>,
    pub architecture: CoperELFArchitecture,
}

/// The mathematical content of an [`ElfEntry`].
pub struct ElfEntryView {
    pub data: Seq<u8>,
    pub architecture: CoperELFArchitecture,
}

impl View for ElfEntry {
    type V = ElfEntryView;

    open spec fn view(&self) -> ElfEntryView {
        ElfEntryView { data: self.data@, architecture: self.architecture }
    }
}

impl DeepView for ElfEntry {
    type V = ElfEntryView;

    open spec fn deep_view(&self) -> ElfEntryView {
        self.view()
    }
}

/// An inner APK pulled out of an APK, with its member name.
#[derive(Debug)]
pub struct ApkEntry {
    pub data: Vec<u8>,
    pub name: Vec<u8>,
}

/// The mathematical content of an [`ApkEntry`].
pub struct ApkEntryView {
    pub data: Seq<u8>,
    pub name: Seq<u8>,
}

impl View for ApkEntry {
    type V = ApkEntryView;

    open spec fn view(&self) -> ApkEntryView {
        ApkEntryView { data: self.data@, name: self.name@ }
    }
}

impl DeepView for ApkEntry {
    type V = ApkEntryView;

    open spec fn deep_view(&self) -> ApkEntryView {
        self.view()
    }
}

/// What analysing an APK yields: whether the archive failed to open
/// (a cut sample), and the ELF, DEX and inner-APK members recovered.
#[derive(Debug)]
pub struct APKAnalysisResult {
    pub is_cut: bool,
    pub elfs: Vec<ElfEntry>,
    pub dexs: Vec<Vec<u8>>,
    pub apks: Vec<ApkEntry>,
}

/// The `.apk` member-name suffix.
pub open spec fn apk_suffix() -> Seq<u8> {
    seq![0x2eu8, 0x61u8, 0x70u8, 0x6bu8]
}

/// The `.dex` member-name suffix.
pub open spec fn dex_suffix() -> Seq<u8> {
    seq![0x2eu8, 0x64u8, 0x65u8, 0x78u8]
}

/// The `lib/` member-name prefix.
pub open spec fn lib_prefix() -> Seq<u8> {
    seq![0x6cu8, 0x69u8, 0x62u8, 0x2fu8]
}

/// The `lib/armeabi-v7a/` path prefix.
pub open spec fn lib_armeabi_v7a() -> Seq<u8> {
    lib_prefix() + seq![
        0x61u8, 0x72u8, 0x6du8, 0x65u8, 0x61u8, 0x62u8, 0x69u8, 0x2du8, 0x76u8, 0x37u8, 0x61u8,
        0x2fu8,
    ]
}

/// The `lib/arm64-v8a/` path prefix.
pub open spec fn lib_arm64_v8a() -> Seq<u8> {
    lib_prefix() + seq![0x61u8, 0x72u8, 0x6du8, 0x36u8, 0x34u8, 0x2du8, 0x76u8, 0x38u8, 0x61u8, 0x2fu8]
}

/// The `lib/x86_64/` path prefix.
pub open spec fn lib_x86_64() -> Seq<u8> {
    lib_prefix() + seq![0x78u8, 0x38u8, 0x36u8, 0x5fu8, 0x36u8, 0x34u8, 0x2fu8]
}

/// The `lib/x86/` path prefix.
pub open spec fn lib_x86() -> Seq<u8> {
    lib_prefix() + seq![0x78u8, 0x38u8, 0x36u8, 0x2fu8]
}

/// The architecture a library path names, by its directory prefix.
pub open spec fn spec_path_architecture(name: Seq<u8>) -> Option<CoperELFArchitecture> {
    if spec_starts_with(name, lib_armeabi_v7a()) {
        Some(CoperELFArchitecture::ArmEabiV7a)
    } else if spec_starts_with(name, lib_arm64_v8a()) {
        Some(CoperELFArchitecture::Arm64V8a)
    } else if spec_starts_with(name, lib_x86_64()) {
        Some(CoperELFArchitecture::X86_64)
    } else if spec_starts_with(name, lib_x86()) {
        Some(CoperELFArchitecture::X86)
    } else {
        None
    }
}

/// The architecture a library path names, by its directory prefix.
fn path_architecture(name: &[u8]) -> (r: Option<CoperELFArchitecture>)
    ensures
        r == spec_path_architecture(name@),
{
    let armeabi: Vec<u8> = vec![
        0x6cu8, 0x69u8, 0x62u8, 0x2fu8, 0x61u8, 0x72u8, 0x6du8, 0x65u8, 0x61u8, 0x62u8, 0x69u8,
        0x2du8, 0x76u8, 0x37u8, 0x61u8, 0x2fu8,
    ];
    let arm64: Vec<u8> = vec![
        0x6cu8, 0x69u8, 0x62u8, 0x2fu8, 0x61u8, 0x72u8, 0x6du8, 0x36u8, 0x34u8, 0x2du8, 0x76u8,
        0x38u8, 0x61u8, 0x2fu8,
    ];
    let x86_64: Vec<u8> = vec![
        0x6cu8, 0x69u8, 0x62u8, 0x2fu8, 0x78u8, 0x38u8, 0x36u8, 0x5fu8, 0x36u8, 0x34u8, 0x2fu8,
    ];
    let x86: Vec<u8> = vec![0x6cu8, 0x69u8, 0x62u8, 0x2fu8, 0x78u8, 0x38u8, 0x36u8, 0x2fu8];
    assert(armeabi@ =~= lib_armeabi_v7a());
    assert(arm64@ =~= lib_arm64_v8a());
    assert(x86_64@ =~= lib_x86_64());
    assert(x86@ =~= lib_x86());

    if starts_with_bytes(name, armeabi.as_slice()) {
        Some(CoperELFArchitecture::ArmEabiV7a)
    } else if starts_with_bytes(name, arm64.as_slice()) {
        Some(CoperELFArchitecture::Arm64V8a)
    } else if starts_with_bytes(name, x86_64.as_slice()) {
        Some(CoperELFArchitecture::X86_64)
    } else if starts_with_bytes(name, x86.as_slice()) {
        Some(CoperELFArchitecture::X86)
    } else {
        None
    }
}

/// The inner APKs recovered from the first `n` candidate member names:
/// each member that reads back and carries the ZIP magic.
pub open spec fn spec_extract_inner_apks(data: Seq<u8>, names: Seq<Seq<u8>>, n: int) -> Seq<
    ApkEntryView,
>
    decreases n,
{
    if n <= 0 {
        Seq::<ApkEntryView>::empty()
    } else {
        let prev = spec_extract_inner_apks(data, names, n - 1);
        match zip_member_data_of(data, names[n - 1]) {
            None => prev,
            Some(buf) => {
                if spec_starts_with(buf, pk_magic()) {
                    prev.push(ApkEntryView { data: buf, name: names[n - 1] })
                } else {
                    prev
                }
            },
        }
    }
}

/// Reads each candidate member and keeps those that are themselves
/// ZIP archives (inner APKs, as wrapped samples carry them).
#[verifier::loop_isolation(false)]
pub fn extract_inner_apks_from_apk(data: &[u8], apk_files: &Vec<Vec<u8>>) -> (r: Vec<ApkEntry>)
    ensures
        r.deep_view() == spec_extract_inner_apks(data@, apk_files.deep_view(), apk_files@.len() as int),
{
    let pk: Vec<u8> = vec![0x50u8, 0x4bu8];
    assert(pk@ =~= pk_magic());
    let mut apks: Vec<ApkEntry> = Vec::new();
    let mut i: usize = 0;
    while i < apk_files.len()
        invariant
            0 <= i <= apk_files@.len(),
            pk@ == pk_magic(),
            apks.deep_view() == spec_extract_inner_apks(data@, apk_files.deep_view(), i as int),
        decreases apk_files@.len() - i,
    {
        let ghost prev = apks.deep_view();
        let name = &apk_files[i];
        assert(name@ == apk_files.deep_view()[i as int]);
        match zip_member_data(data, name.as_slice()) {
            None => {},
            Some(buff) => {
                if starts_with_bytes(buff.as_slice(), pk.as_slice()) {
                    let ghost entry = ApkEntryView { data: buff@, name: name@ };
                    let name_copy = crate::bytesutil::copy_range(name.as_slice(), 0, name.len());
                    assert(name_copy@ =~= name@);
                    apks.push(ApkEntry { data: buff, name: name_copy });
                    assert(apks.deep_view() =~~= prev.push(entry));
                }
            },
        }
        i = i + 1;
    }
    apks
}

/// The ELF payloads recovered from the first `n` candidate member
/// names: each member that reads back, carries the ELF magic, and lies
/// under a recognized architecture directory.
pub open spec fn spec_extract_elfs(data: Seq<u8>, names: Seq<Seq<u8>>, n: int) -> Seq<ElfEntryView>
    decreases n,
{
    if n <= 0 {
        Seq::<ElfEntryView>::empty()
    } else {
        let prev = spec_extract_elfs(data, names, n - 1);
        match zip_member_data_of(data, names[n - 1]) {
            None => prev,
            Some(buf) => {
                if spec_starts_with(buf, elf_magic()) {
                    match spec_path_architecture(names[n - 1]) {
                        Some(arch) => prev.push(ElfEntryView { data: buf, architecture: arch }),
                        None => prev,
                    }
                } else {
                    prev
                }
            },
        }
    }
}

/// Reads each candidate member and keeps those that are ELF images
/// under a recognized architecture directory.
#[verifier::loop_isolation(false)]
pub fn extract_elfs_from_apk(data: &[u8], elf_files: &Vec<Vec<u8>>) -> (r: Vec<ElfEntry>)
    ensures
        r.deep_view() == spec_extract_elfs(data@, elf_files.deep_view(), elf_files@.len() as int),
{
    let elfmagic: Vec<u8> = vec![0x7fu8, 0x45u8, 0x4cu8, 0x46u8];
    assert(elfmagic@ =~= elf_magic());
    let mut elfs: Vec<ElfEntry> = Vec::new();
    let mut i: usize = 0;
    while i < elf_files.len()
        invariant
            0 <= i <= elf_files@.len(),
            elfmagic@ == elf_magic(),
            elfs.deep_view() == spec_extract_elfs(data@, elf_files.deep_view(), i as int),
        decreases elf_files@.len() - i,
    {
        let ghost prev = elfs.deep_view();
        let name = &elf_files[i];
        assert(name@ == elf_files.deep_view()[i as int]);
        match zip_member_data(data, name.as_slice()) {
            None => {},
            Some(buff) => {
                if starts_with_bytes(buff.as_slice(), elfmagic.as_slice()) {
                    match path_architecture(name.as_slice()) {
                        Some(arch) => {
                            let ghost entry = ElfEntryView { data: buff@, architecture: arch };
                            elfs.push(ElfEntry { data: buff, architecture: arch });
                            assert(elfs.deep_view() =~= prev.push(entry));
                        },
                        None => {},
                    }
                }
            },
        }
        i = i + 1;
    }
    elfs
}

/// The DEX payloads recovered from the first `n` candidate member
/// names: each member that reads back and is a DEX image (magic plus
/// null trailer byte).
pub open spec fn spec_extract_dexs(data: Seq<u8>, names: Seq<Seq<u8>>, n: int) -> Seq<Seq<u8>>
    decreases n,
{
    if n <= 0 {
        Seq::<Seq<u8>>::empty()
    } else {
        let prev = spec_extract_dexs(data, names, n - 1);
        match zip_member_data_of(data, names[n - 1]) {
            None => prev,
            Some(buf) => {
                if spec_starts_with(buf, dex_magic()) && buf.len() >= 8 && buf[7] == 0 {
                    prev.push(buf)
                } else {
                    prev
                }
            },
        }
    }
}

/// Reads each candidate member and keeps those that really are DEX
/// images.
#[verifier::loop_isolation(false)]
pub fn extract_dexs_from_apk(data: &[u8], dex_files: &Vec<Vec<u8>>) -> (r: Vec<Vec<u8>>)
    ensures
        r.deep_view() == spec_extract_dexs(data@, dex_files.deep_view(), dex_files@.len() as int),
{
    let dexmagic: Vec<u8> = vec![0x64u8, 0x65u8, 0x78u8, 0x0au8];
    assert(dexmagic@ =~= dex_magic());
    let mut dexs: Vec<Vec<u8>> = Vec::new();
    let mut i: usize = 0;
    while i < dex_files.len()
        invariant
            0 <= i <= dex_files@.len(),
            dexmagic@ == dex_magic(),
            dexs.deep_view() == spec_extract_dexs(data@, dex_files.deep_view(), i as int),
        decreases dex_files@.len() - i,
    {
        let ghost prev = dexs.deep_view();
        let name = &dex_files[i];
        assert(name@ == dex_files.deep_view()[i as int]);
        match zip_member_data(data, name.as_slice()) {
            None => {},
            Some(buff) => {
                if starts_with_bytes(buff.as_slice(), dexmagic.as_slice()) && buff.len() >= 8
                    && buff[7] == 0 {
                    let ghost b = buff@;
                    dexs.push(buff);
                    assert(dexs.deep_view() =~~= prev.push(b));
                }
            },
        }
        i = i + 1;
    }
    dexs
}

/// The member names that end with the given suffix, in order.
pub open spec fn spec_filter_suffix(names: Seq<Seq<u8>>, suffix: Seq<u8>) -> Seq<Seq<u8>> {
    names.filter(|n: Seq<u8>| spec_ends_with(n, suffix))
}

/// The member names that begin with the given prefix, in order.
pub open spec fn spec_filter_prefix(names: Seq<Seq<u8>>, prefix: Seq<u8>) -> Seq<Seq<u8>> {
    names.filter(|n: Seq<u8>| spec_starts_with(n, prefix))
}

/// Keeps the names ending with `suffix`.
#[verifier::loop_isolation(false)]
fn filter_by_suffix(names: &Vec<Vec<u8>>, suffix: &[u8]) -> (r: Vec<Vec<u8>>)
    ensures
        r.deep_view() == spec_filter_suffix(names.deep_view(), suffix@),
{
    let mut out: Vec<Vec<u8>> = Vec::new();
    let mut i: usize = 0;
    proof {
        reveal(Seq::filter);
        assert(names.deep_view().take(0) =~= Seq::<Seq<u8>>::empty());
    }
    while i < names.len()
        invariant
            0 <= i <= names@.len(),
            out.deep_view() == spec_filter_suffix(names.deep_view().take(i as int), suffix@),
        decreases names@.len() - i,
    {
        let ghost prev = out.deep_view();
        let ghost taken = names.deep_view().take(i as int);
        let name = &names[i];
        let keep = ends_with_bytes(name.as_slice(), suffix);
        if keep {
            let name_copy = crate::bytesutil::copy_range(name.as_slice(), 0, name.len());
            assert(name_copy@ =~= name@);
            out.push(name_copy);
        }
        proof {
            reveal(Seq::filter);
            let taken2 = names.deep_view().take(i + 1);
            assert(taken2.drop_last() =~= taken);
            assert(taken2.last() == name@);
            if keep {
                assert(out.deep_view() =~~= prev.push(name@));
            }
        }
        i = i + 1;
    }
    assert(names.deep_view().take(names@.len() as int) =~= names.deep_view());
    out
}

/// Keeps the names beginning with `prefix`.
#[verifier::loop_isolation(false)]
fn filter_by_prefix(names: &Vec<Vec<u8>>, prefix: &[u8]) -> (r: Vec<Vec<u8>>)
    ensures
        r.deep_view() == spec_filter_prefix(names.deep_view(), prefix@),
{
    let mut out: Vec<Vec<u8>> = Vec::new();
    let mut i: usize = 0;
    proof {
        reveal(Seq::filter);
        assert(names.deep_view().take(0) =~= Seq::<Seq<u8>>::empty());
    }
    while i < names.len()
        invariant
            0 <= i <= names@.len(),
            out.deep_view() == spec_filter_prefix(names.deep_view().take(i as int), prefix@),
        decreases names@.len() - i,
    {
        let ghost prev = out.deep_view();
        let ghost taken = names.deep_view().take(i as int);
        let name = &names[i];
        let keep = starts_with_bytes(name.as_slice(), prefix);
        if keep {
            let name_copy = crate::bytesutil::copy_range(name.as_slice(), 0, name.len());
            assert(name_copy@ =~= name@);
            out.push(name_copy);
        }
        proof {
            reveal(Seq::filter);
            let taken2 = names.deep_view().take(i + 1);
            assert(taken2.drop_last() =~= taken);
            assert(taken2.last() == name@);
            if keep {
                assert(out.deep_view() =~~= prev.push(name@));
            }
        }
        i = i + 1;
    }
    assert(names.deep_view().take(names@.len() as int) =~= names.deep_view());
    out
}

/// The mathematical content of an [`APKAnalysisResult`].
pub struct ApkAnalysisView {
    pub is_cut: bool,
    pub elfs: Seq<ElfEntryView>,
    pub dexs: Seq<Seq<u8>>,
    pub apks: Seq<ApkEntryView>,
}

impl View for APKAnalysisResult {
    type V = ApkAnalysisView;

    open spec fn view(&self) -> ApkAnalysisView {
        ApkAnalysisView {
            is_cut: self.is_cut,
            elfs: self.elfs.deep_view(),
            dexs: self.dexs.deep_view(),
            apks: self.apks.deep_view(),
        }
    }
}

/// What analysing an APK yields: a cut marker when the archive cannot
/// be opened; otherwise the inner APKs among `.apk` members, the ELF
/// images under `lib/`, and the DEX images among `.dex` members.
pub open spec fn spec_analyse_apk(data: Seq<u8>) -> ApkAnalysisView {
    match zip_member_names_of(data) {
        None => ApkAnalysisView {
            is_cut: true,
            elfs: Seq::<ElfEntryView>::empty(),
            dexs: Seq::<Seq<u8>>::empty(),
            apks: Seq::<ApkEntryView>::empty(),
        },
        Some(names) => {
            let apk_names = spec_filter_suffix(names, apk_suffix());
            let lib_names = spec_filter_prefix(names, lib_prefix());
            let dex_names = spec_filter_suffix(names, dex_suffix());
            ApkAnalysisView {
                is_cut: false,
                elfs: spec_extract_elfs(data, lib_names, lib_names.len() as int),
                dexs: spec_extract_dexs(data, dex_names, dex_names.len() as int),
                apks: spec_extract_inner_apks(data, apk_names, apk_names.len() as int),
            }
        },
    }
}

/// Opens a sample as a ZIP archive and pulls out its inner APKs, ELF
/// images and DEX images; an unopenable archive marks the sample as
/// cut, with no members.
pub fn analyse_apk(sample_data: &[u8]) -> (r: APKAnalysisResult)
    ensures
        r@ == spec_analyse_apk(sample_data@),
{
    let names = match zip_member_names(sample_data) {
        Some(ns) => ns,
        None => {
            let r = APKAnalysisResult {
                is_cut: true,
                elfs: Vec::new(),
                dexs: Vec::new(),
                apks: Vec::new(),
            };
            assert(r@.elfs =~= spec_analyse_apk(sample_data@).elfs);
            assert(r@.dexs =~= spec_analyse_apk(sample_data@).dexs);
            assert(r@.apks =~= spec_analyse_apk(sample_data@).apks);
            return r;
        },
    };

    let apk_sfx: Vec<u8> = vec![0x2eu8, 0x61u8, 0x70u8, 0x6bu8];
    let dex_sfx: Vec<u8> = vec![0x2eu8, 0x64u8, 0x65u8, 0x78u8];
    let lib_pfx: Vec<u8> = vec![0x6cu8, 0x69u8, 0x62u8, 0x2fu8];
    assert(apk_sfx@ =~= apk_suffix());
    assert(dex_sfx@ =~= dex_suffix());
    assert(lib_pfx@ =~= lib_prefix());

    let apk_files = filter_by_suffix(&names, apk_sfx.as_slice());
    let apks = extract_inner_apks_from_apk(sample_data, &apk_files);

    let elf_files = filter_by_prefix(&names, lib_pfx.as_slice());
    let elfs = extract_elfs_from_apk(sample_data, &elf_files);

    let dex_files = filter_by_suffix(&names, dex_sfx.as_slice());
    let dexs = extract_dexs_from_apk(sample_data, &dex_files);

    APKAnalysisResult { is_cut: false, elfs, dexs, apks }
}

/// No sample type matched a sample's bytes: a per-sample, non-fatal
/// failure.
#[derive(Debug, Clone, Copy, PartialEq, Eq, Structural)]
pub struct ClassificationError;

/// A store whose node list only ever grew: the old nodes stand
/// unchanged as a prefix of the new ones.
pub open spec fn nodes_prefix_preserved(
    old_nodes: Seq<StoreNode>,
    new_nodes: Seq<StoreNode>,
) -> bool {
    &&& old_nodes.len() <= new_nodes.len()
    &&& new_nodes.subrange(0, old_nodes.len() as int) == old_nodes
}

/// A store whose edge list only ever grew: every stored edge is still
/// stored.
pub open spec fn edges_preserved(old_edges: Seq<StoreEdge>, new_edges: Seq<StoreEdge>) -> bool {
    forall|e: StoreEdge| #[trigger] old_edges.contains(e) ==> new_edges.contains(e)
}

/// Prefix preservation composes across successive store operations.
pub proof fn lemma_prefix_preserved_trans(a: Seq<StoreNode>, b: Seq<StoreNode>, c: Seq<StoreNode>)
    requires
        nodes_prefix_preserved(a, b),
        nodes_prefix_preserved(b, c),
    ensures
        nodes_prefix_preserved(a, c),
{
    assert(c.subrange(0, a.len() as int) =~= a) by {
        assert forall|i: int| 0 <= i < a.len() implies c.subrange(0, a.len() as int)[i]
            == a[i] by {
            assert(c.subrange(0, b.len() as int)[i] == b[i]);
            assert(b.subrange(0, a.len() as int)[i] == a[i]);
        }
    }
}

/// A found node index survives any growth of the store: scanning the
/// extended list finds the same first match.
pub proof fn lemma_node_index_prefix_stable(
    old_nodes: Seq<StoreNode>,
    new_nodes: Seq<StoreNode>,
    collection: NodeCollection,
    key: Seq<u8>,
    at: int,
)
    requires
        nodes_prefix_preserved(old_nodes, new_nodes),
        0 <= at <= old_nodes.len(),
        spec_node_index(old_nodes, collection, key, at) is Some,
    ensures
        spec_node_index(new_nodes, collection, key, at) == spec_node_index(
            old_nodes,
            collection,
            key,
            at,
        ),
    decreases old_nodes.len() - at,
{
    if at < old_nodes.len() {
        assert(new_nodes[at] == new_nodes.subrange(0, old_nodes.len() as int)[at]);
        if !(old_nodes[at].collection == collection && old_nodes[at].key@ == key) {
            lemma_node_index_prefix_stable(old_nodes, new_nodes, collection, key, at + 1);
        }
    }
}

/// The alternate key of the family node.
pub open spec fn coper_name_key() -> Seq<u8> {
    seq![0x43u8, 0x6fu8, 0x70u8, 0x65u8, 0x72u8]
}

/// Creates (or reuses) the family node and links it under the corpus
/// node.
pub fn coper_create_main_node(store: &mut Store, corpus_id: usize) -> (id: usize)
    ensures
        nodes_prefix_preserved(old(store).nodes@, final(store).nodes@),
        id < final(store).nodes@.len(),
        final(store).nodes@[id as int].collection == NodeCollection::Coper,
        final(store).nodes@[id as int].key@ == coper_name_key(),
        final(store).edges@ == spec_upsert_edge(
            old(store).edges@,
            StoreEdge { collection: EdgeCollection::HasMalwareFamily, from: corpus_id, to: id },
        ),
{
    let key: Vec<u8> = vec![0x43u8, 0x6fu8, 0x70u8, 0x65u8, 0x72u8];
    assert(key@ =~= coper_name_key());
    let data = NodeData::Coper(
        Coper { name: "Coper".to_owned(), display_name: "Coper".to_owned() },
    );
    let node = StoreNode { collection: NodeCollection::Coper, key, data };
    let ghost gnode = node;
    let r = store.upsert_node(node);
    proof {
        if !r.created {
            crate::store::lemma_node_index_found(
                old(store).nodes@,
                NodeCollection::Coper,
                coper_name_key(),
                0,
            );
        } else {
            assert(store.nodes@[r.id as int] == gnode);
        }
        if r.created {
            assert(store.nodes@.subrange(0, old(store).nodes@.len() as int) =~= old(
                store,
            ).nodes@);
        } else {
            assert(store.nodes@.subrange(0, old(store).nodes@.len() as int) =~= old(
                store,
            ).nodes@);
        }
    }
    store.upsert_edge(
        StoreEdge { collection: EdgeCollection::HasMalwareFamily, from: corpus_id, to: r.id },
    );
    r.id
}

/// Creates (or reuses) the node for an ELF payload, detecting its
/// architecture from the bytes when none was recovered from the APK
/// path.
pub fn coper_create_elf_node(
    store: &mut Store,
    sample_data: &[u8],
    architecture: Option<CoperELFArchitecture>,
) -> (id: usize)
    ensures
        ({
            let arch = if architecture is Some {
                architecture
            } else {
                spec_detect_elf_architecture(sample_data@)
            };
            let key = sha256_hex_of(sample_data@);
            &&& final(store).edges@ == old(store).edges@
            &&& nodes_prefix_preserved(old(store).nodes@, final(store).nodes@)
            &&& id < final(store).nodes@.len()
            &&& spec_node_index(final(store).nodes@, NodeCollection::CoperELF, key, 0) == Some(
                id as int,
            )
            &&& match spec_node_index(old(store).nodes@, NodeCollection::CoperELF, key, 0) {
                Some(i) => final(store).nodes@ == old(store).nodes@ && id == i,
                None => {
                    &&& final(store).nodes@.len() == old(store).nodes@.len() + 1
                    &&& id == old(store).nodes@.len()
                    &&& final(store).nodes@[id as int].collection == NodeCollection::CoperELF
                    &&& final(store).nodes@[id as int].key@ == key
                    &&& final(store).nodes@[id as int].data matches NodeData::CoperELF(e)
                        && e.sha256sum@ == key && e.architecture == arch
                },
            }
        }),
{
    let mut architecture = architecture;
    if architecture.is_none() {
        architecture = detect_elf_architecture(sample_data);
    }

    let sha256sum = sha256_hex(sample_data);
    let sha_copy = crate::bytesutil::copy_range(sha256sum.as_slice(), 0, sha256sum.len());
    assert(sha_copy@ =~= sha256sum@);
    let data = NodeData::CoperELF(CoperELF { sha256sum: sha_copy, architecture });
    let node = StoreNode { collection: NodeCollection::CoperELF, key: sha256sum, data };
    let ghost gnode = node;
    let r = store.upsert_node(node);
    proof {
        if r.created {
            crate::store::lemma_node_index_after_push(old(store).nodes@, gnode, 0);
        }
        if r.created {
            assert(store.nodes@.subrange(0, old(store).nodes@.len() as int) =~= old(
                store,
            ).nodes@);
        } else {
            assert(store.nodes@.subrange(0, old(store).nodes@.len() as int) =~= old(
                store,
            ).nodes@);
        }
    }
    r.id
}

/// Creates (or reuses) the node for a DEX payload.
pub fn coper_create_dex_node(store: &mut Store, sample_data: &[u8]) -> (id: usize)
    ensures
        ({
            let key = sha256_hex_of(sample_data@);
            &&& final(store).edges@ == old(store).edges@
            &&& nodes_prefix_preserved(old(store).nodes@, final(store).nodes@)
            &&& id < final(store).nodes@.len()
            &&& spec_node_index(final(store).nodes@, NodeCollection::CoperDEX, key, 0) == Some(
                id as int,
            )
            &&& match spec_node_index(old(store).nodes@, NodeCollection::CoperDEX, key, 0) {
                Some(i) => final(store).nodes@ == old(store).nodes@ && id == i,
                None => {
                    &&& final(store).nodes@.len() == old(store).nodes@.len() + 1
                    &&& id == old(store).nodes@.len()
                    &&& final(store).nodes@[id as int].collection == NodeCollection::CoperDEX
                    &&& final(store).nodes@[id as int].key@ == key
                    &&& final(store).nodes@[id as int].data matches NodeData::CoperDEX(d)
                        && d.sha256sum@ == key
                },
            }
        }),
{
    let sha256sum = sha256_hex(sample_data);
    let sha_copy = crate::bytesutil::copy_range(sha256sum.as_slice(), 0, sha256sum.len());
    assert(sha_copy@ =~= sha256sum@);
    let data = NodeData::CoperDEX(CoperDEX { sha256sum: sha_copy });
    let node = StoreNode { collection: NodeCollection::CoperDEX, key: sha256sum, data };
    let ghost gnode = node;
    let r = store.upsert_node(node);
    proof {
        if r.created {
            crate::store::lemma_node_index_after_push(old(store).nodes@, gnode, 0);
        }
        if r.created {
            assert(store.nodes@.subrange(0, old(store).nodes@.len() as int) =~= old(
                store,
            ).nodes@);
        } else {
            assert(store.nodes@.subrange(0, old(store).nodes@.len() as int) =~= old(
                store,
            ).nodes@);
        }
    }
    r.id
}

/// Creates the node for an APK sample and, when the sample is new,
/// descends into it: every recovered ELF and DEX member becomes a child
/// node with an edge from the APK. A sample whose fingerprint is
/// already stored short-circuits: the store is left untouched.
#[verifier::loop_isolation(false)]
pub fn coper_create_apk_node(store: &mut Store, sample_data: &[u8]) -> (id: usize)
    ensures
        ({
            let key = sha256_hex_of(sample_data@);
            &&& nodes_prefix_preserved(old(store).nodes@, final(store).nodes@)
            &&& edges_preserved(old(store).edges@, final(store).edges@)
            &&& id < final(store).nodes@.len()
            &&& spec_node_index(final(store).nodes@, NodeCollection::CoperAPK, key, 0) == Some(
                id as int,
            )
            &&& match spec_node_index(old(store).nodes@, NodeCollection::CoperAPK, key, 0) {
                Some(i) => final(store).nodes@ == old(store).nodes@ && final(store).edges@ == old(
                    store,
                ).edges@ && id == i,
                None => {
                    &&& id == old(store).nodes@.len()
                    &&& final(store).nodes@[id as int].collection == NodeCollection::CoperAPK
                    &&& final(store).nodes@[id as int].key@ == key
                    &&& final(store).nodes@[id as int].data matches NodeData::CoperAPK(a)
                        && a.sha256sum@ == key && a.is_cut == spec_analyse_apk(sample_data@).is_cut
                    &&& forall|k: int|
                        0 <= k < spec_analyse_apk(sample_data@).elfs.len() ==> (spec_node_index(
                            final(store).nodes@,
                            NodeCollection::CoperELF,
                            sha256_hex_of(
                                (#[trigger] spec_analyse_apk(sample_data@).elfs[k]).data,
                            ),
                            0,
                        ) matches Some(j) && final(store).edges@.contains(
                            StoreEdge {
                                collection: EdgeCollection::CoperHasELF,
                                from: id,
                                to: j as usize,
                            },
                        ))
                    &&& forall|k: int|
                        0 <= k < spec_analyse_apk(sample_data@).dexs.len() ==> (spec_node_index(
                            final(store).nodes@,
                            NodeCollection::CoperDEX,
                            sha256_hex_of(#[trigger] spec_analyse_apk(sample_data@).dexs[k]),
                            0,
                        ) matches Some(j) && final(store).edges@.contains(
                            StoreEdge {
                                collection: EdgeCollection::CoperHasDEX,
                                from: id,
                                to: j as usize,
                            },
                        ))
                },
            }
        }),
{
    let apk_analysis_result = analyse_apk(sample_data);

    let sha256sum = sha256_hex(sample_data);
    let sha_copy = crate::bytesutil::copy_range(sha256sum.as_slice(), 0, sha256sum.len());
    assert(sha_copy@ =~= sha256sum@);
    let data = NodeData::CoperAPK(
        CoperAPK { sha256sum: sha_copy, is_cut: apk_analysis_result.is_cut },
    );
    let node = StoreNode { collection: NodeCollection::CoperAPK, key: sha256sum, data };
    let r = store.upsert_node(node);

    if !r.created {
        proof {
            assert(store.nodes@.subrange(0, old(store).nodes@.len() as int) =~= store.nodes@);
        }
        return r.id;
    }
    let id = r.id;
    let ghost key = sha256_hex_of(sample_data@);
    let ghost analysis = spec_analyse_apk(sample_data@);
    let ghost snap = store.nodes@;
    proof {
        assert(snap.subrange(0, old(store).nodes@.len() as int) =~= old(store).nodes@);
        crate::store::lemma_node_index_after_push(old(store).nodes@, node, 0);
        assert(snap.subrange(0, snap.len() as int) =~= snap);
    }

    let mut i: usize = 0;
    while i < apk_analysis_result.elfs.len()
        invariant
            0 <= i <= apk_analysis_result.elfs@.len(),
            nodes_prefix_preserved(snap, store.nodes@),
            edges_preserved(old(store).edges@, store.edges@),
            forall|k: int|
                0 <= k < i ==> (spec_node_index(
                    store.nodes@,
                    NodeCollection::CoperELF,
                    sha256_hex_of((#[trigger] analysis.elfs[k]).data),
                    0,
                ) matches Some(j) && store.edges@.contains(
                    StoreEdge { collection: EdgeCollection::CoperHasELF, from: id, to: j as usize },
                )),
        decreases apk_analysis_result.elfs@.len() - i,
    {
        let ghost mid = store.nodes@;
        let ghost mid_i = i as int;
        let entry = &apk_analysis_result.elfs[i];
        assert(entry@ == analysis.elfs[i as int]);
        let elf_id = coper_create_elf_node(store, entry.data.as_slice(), Some(entry.architecture));
        let ghost mid_edges = store.edges@;
        let edge = StoreEdge { collection: EdgeCollection::CoperHasELF, from: id, to: elf_id };
        store.upsert_edge(edge);
        proof {
            lemma_prefix_preserved_trans(snap, mid, store.nodes@);
            crate::store::lemma_upsert_edge_grows(mid_edges, edge);
            assert forall|k: int| 0 <= k < mid_i + 1 implies (spec_node_index(
                store.nodes@,
                NodeCollection::CoperELF,
                sha256_hex_of((#[trigger] analysis.elfs[k]).data),
                0,
            ) matches Some(j) && store.edges@.contains(
                StoreEdge { collection: EdgeCollection::CoperHasELF, from: id, to: j as usize },
            )) by {
                let ekey = sha256_hex_of(analysis.elfs[k].data);
                if k < mid_i {
                    assert(store.nodes@.subrange(0, mid.len() as int) =~= mid);
                    lemma_node_index_prefix_stable(
                        mid,
                        store.nodes@,
                        NodeCollection::CoperELF,
                        ekey,
                        0,
                    );
                } else {
                    assert(spec_node_index(store.nodes@, NodeCollection::CoperELF, ekey, 0)
                        == Some(elf_id as int));
                }
            }
        }
        i = i + 1;
    }

    let mut j: usize = 0;
    while j < apk_analysis_result.dexs.len()
        invariant
            0 <= j <= apk_analysis_result.dexs@.len(),
            nodes_prefix_preserved(snap, store.nodes@),
            edges_preserved(old(store).edges@, store.edges@),
            forall|k: int|
                0 <= k < analysis.elfs.len() ==> (spec_node_index(
                    store.nodes@,
                    NodeCollection::CoperELF,
                    sha256_hex_of((#[trigger] analysis.elfs[k]).data),
                    0,
                ) matches Some(j2) && store.edges@.contains(
                    StoreEdge {
                        collection: EdgeCollection::CoperHasELF,
                        from: id,
                        to: j2 as usize,
                    },
                )),
            forall|k: int|
                0 <= k < j ==> (spec_node_index(
                    store.nodes@,
                    NodeCollection::CoperDEX,
                    sha256_hex_of(#[trigger] analysis.dexs[k]),
                    0,
                ) matches Some(j2) && store.edges@.contains(
                    StoreEdge {
                        collection: EdgeCollection::CoperHasDEX,
                        from: id,
                        to: j2 as usize,
                    },
                )),
        decreases apk_analysis_result.dexs@.len() - j,
    {
        let ghost mid = store.nodes@;
        let ghost mid_j = j as int;
        assert(apk_analysis_result.dexs@[j as int]@ == analysis.dexs[j as int]);
        let dex_id = coper_create_dex_node(store, apk_analysis_result.dexs[j].as_slice());
        let ghost mid_edges = store.edges@;
        let edge = StoreEdge { collection: EdgeCollection::CoperHasDEX, from: id, to: dex_id };
        store.upsert_edge(edge);
        proof {
            lemma_prefix_preserved_trans(snap, mid, store.nodes@);
            crate::store::lemma_upsert_edge_grows(mid_edges, edge);
            assert(store.nodes@.subrange(0, mid.len() as int) =~= mid);
            assert forall|k: int| 0 <= k < analysis.elfs.len() implies (spec_node_index(
                store.nodes@,
                NodeCollection::CoperELF,
                sha256_hex_of((#[trigger] analysis.elfs[k]).data),
                0,
            ) matches Some(j2) && store.edges@.contains(
                StoreEdge { collection: EdgeCollection::CoperHasELF, from: id, to: j2 as usize },
            )) by {
                let ekey = sha256_hex_of(analysis.elfs[k].data);
                lemma_node_index_prefix_stable(
                    mid,
                    store.nodes@,
                    NodeCollection::CoperELF,
                    ekey,
                    0,
                );
            }
            assert forall|k: int| 0 <= k < mid_j + 1 implies (spec_node_index(
                store.nodes@,
                NodeCollection::CoperDEX,
                sha256_hex_of(#[trigger] analysis.dexs[k]),
                0,
            ) matches Some(j2) && store.edges@.contains(
                StoreEdge { collection: EdgeCollection::CoperHasDEX, from: id, to: j2 as usize },
            )) by {
                let dkey = sha256_hex_of(analysis.dexs[k]);
                if k < mid_j {
                    lemma_node_index_prefix_stable(
                        mid,
                        store.nodes@,
                        NodeCollection::CoperDEX,
                        dkey,
                        0,
                    );
                } else {
                    assert(spec_node_index(store.nodes@, NodeCollection::CoperDEX, dkey, 0)
                        == Some(dex_id as int));
                }
            }
        }
        j = j + 1;
    }

    proof {
        lemma_prefix_preserved_trans(old(store).nodes@, snap, store.nodes@);
        lemma_node_index_prefix_stable(snap, store.nodes@, NodeCollection::CoperAPK, key, 0);
        assert(store.nodes@[id as int] == store.nodes@.subrange(0, snap.len() as int)[id as int]);
        assert(store.nodes@[id as int] == snap[id as int]);
    }
    id
}

/// Classifies one sample and records it: an APK is analysed and linked
/// under the family node, an ELF or DEX sample becomes a bare node,
/// and an unclassifiable sample is reported without touching the store.
pub fn coper_handle_sample(store: &mut Store, main_id: usize, sample_data: &[u8]) -> (r: Result<
    (),
    ClassificationError,
>)
    ensures
        r is Ok <==> spec_coper_detect(sample_data@) is Some,
        spec_coper_detect(sample_data@) is None ==> *final(store) == *old(store),
        nodes_prefix_preserved(old(store).nodes@, final(store).nodes@),
        spec_coper_detect(sample_data@) matches Some(CoperSampleType::APK) ==> (
        spec_node_index(
            final(store).nodes@,
            NodeCollection::CoperAPK,
            sha256_hex_of(sample_data@),
            0,
        ) matches Some(i) && final(store).edges@.contains(
            StoreEdge { collection: EdgeCollection::CoperHasAPK, from: main_id, to: i as usize },
        )),
        spec_coper_detect(sample_data@) matches Some(CoperSampleType::ELF) ==> spec_node_index(
            final(store).nodes@,
            NodeCollection::CoperELF,
            sha256_hex_of(sample_data@),
            0,
        ) is Some,
        spec_coper_detect(sample_data@) matches Some(CoperSampleType::DEX) ==> spec_node_index(
            final(store).nodes@,
            NodeCollection::CoperDEX,
            sha256_hex_of(sample_data@),
            0,
        ) is Some,
{
    match detect_sample_type(sample_data) {
        Some(CoperSampleType::APK) => {
            let ghost before = store.nodes@;
            let apk_id = coper_create_apk_node(store, sample_data);
            let ghost mid = store.nodes@;
            store.upsert_edge(
                StoreEdge { collection: EdgeCollection::CoperHasAPK, from: main_id, to: apk_id },
            );
            proof {
                assert(store.nodes@.subrange(0, mid.len() as int) =~= mid);
                lemma_node_index_prefix_stable(
                    mid,
                    store.nodes@,
                    NodeCollection::CoperAPK,
                    sha256_hex_of(sample_data@),
                    0,
                );
                lemma_prefix_preserved_trans(before, mid, store.nodes@);
            }
            Ok(())
        },
        Some(CoperSampleType::ELF) => {
            let ghost before = store.nodes@;
            let elf_id = coper_create_elf_node(store, sample_data, None);
            proof {
                if spec_node_index(
                    before,
                    NodeCollection::CoperELF,
                    sha256_hex_of(sample_data@),
                    0,
                ) is None {
                    let node = store.nodes@[elf_id as int];
                    crate::store::lemma_node_index_after_push(before, node, 0);
                    assert(store.nodes@ =~= before.push(node));
                }
            }
            Ok(())
        },
        Some(CoperSampleType::DEX) => {
            let ghost before = store.nodes@;
            let dex_id = coper_create_dex_node(store, sample_data);
            proof {
                if spec_node_index(
                    before,
                    NodeCollection::CoperDEX,
                    sha256_hex_of(sample_data@),
                    0,
                ) is None {
                    let node = store.nodes@[dex_id as int];
                    crate::store::lemma_node_index_after_push(before, node, 0);
                    assert(store.nodes@ =~= before.push(node));
                }
            }
            Ok(())
        },
        None => {
            proof {
                assert(store.nodes@.subrange(0, store.nodes@.len() as int) =~= store.nodes@);
            }
            Err(ClassificationError)
        },
    }
}

} // verus!
