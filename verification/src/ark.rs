//! Fixed-layout game-archive headers: the plain data the archive reader
//! fills from disk, and the version dispatch that picks the archive kind.
use vstd::prelude::*;

verus! {

/// One file entry of the older archive format.
#[derive(Clone, Copy, Debug, PartialEq, Eq, Structural)]
pub struct AmpFileEntry {
    pub offset: u32,
    pub file_name_idx: u32,
    pub folder_name_idx: u32,
    pub size: u32,
    pub inflated_size: u32,
}

impl AmpFileEntry {
    /// A zeroed entry, to be filled from the archive bytes.
    pub fn new() -> (r: Self)
        ensures
            r == (AmpFileEntry {
                offset: 0,
                file_name_idx: 0,
                folder_name_idx: 0,
                size: 0,
                inflated_size: 0,
            }),
    {
        Self { offset: 0, file_name_idx: 0, folder_name_idx: 0, size: 0, inflated_size: 0 }
    }
}

/// The older archive: entry table, string table and string index table.
#[derive(Clone, Debug)]
pub struct AmpArchive {
    pub version: u32,
    pub entry_ct: u32,
    pub entries: Vec<AmpFileEntry>,
    pub str_table_size: u32,
    pub string_table: Vec<Vec<u8>>,
    pub string_idx_count: u32,
    pub string_idx_entries: Vec<u32>,
}

impl AmpArchive {
    /// An empty archive, to be filled from the archive bytes.
    pub fn new() -> (r: Self)
        ensures
            r.version == 0,
            r.entry_ct == 0,
            r.entries@ == Seq::<AmpFileEntry>::empty(),
            r.str_table_size == 0,
            r.string_table@ == Seq::<Vec<u8>>::empty(),
            r.string_idx_count == 0,
            r.string_idx_entries@ == Seq::<u32>::empty(),
    {
        let r = Self {
            version: 0,
            entry_ct: 0,
            entries: Vec::new(),
            str_table_size: 0,
            string_table: Vec::new(),
            string_idx_count: 0,
            string_idx_entries: Vec::new(),
        };
        proof {
            assert(r.entries@ =~= Seq::<AmpFileEntry>::empty());
            assert(r.string_table@ =~= Seq::<Vec<u8>>::empty());
            assert(r.string_idx_entries@ =~= Seq::<u32>::empty());
        }
        r
    }
}

/// The newer archive header: fixed-size counts and offsets.
#[derive(Clone, Copy, Debug, PartialEq, Eq, Structural)]
pub struct FreqArchive {
    pub magic: u32,
    pub version: u32,
    pub file_entry_offset: u32,
    pub file_entry_count: u32,
    pub folder_entry_offset: u32,
    pub folder_entry_count: u32,
    pub string_table_offset: u32,
    pub string_count: u32,
    pub total_hdr_size: u32,
    pub block_size: u32,
}

impl FreqArchive {
    /// A header with the expected constants, to be filled from the bytes.
    pub fn new() -> (r: Self)
        ensures
            r == (FreqArchive {
                magic: 0x204B5241,
                version: 0,
                file_entry_offset: 256,
                file_entry_count: 0,
                folder_entry_offset: 0,
                folder_entry_count: 0,
                string_table_offset: 0,
                string_count: 0,
                total_hdr_size: 40,
                block_size: 2048,
            }),
    {
        Self {
            magic: 0x204B5241,
            version: 0,
            file_entry_offset: 256,
            file_entry_count: 0,
            folder_entry_offset: 0,
            folder_entry_count: 0,
            string_table_offset: 0,
            string_count: 0,
            total_hdr_size: 40,
            block_size: 2048,
        }
    }
}

/// An archive of either format.
pub enum ArkTypes {
    FreqArk(FreqArchive),
    AmpArk(AmpArchive),
}

/// The archive kind a leading version word announces.
#[derive(Clone, Copy, Debug, PartialEq, Eq, Structural)]
pub enum ArkKind {
    Freq,
    Amp,
    Unknown,
}

/// Which archive format the leading version word announces: the magic
/// word means the newer format, 0 through 2 the older one, and anything
/// else is unrecognized.
pub fn classify_ark_version(vercheck: u32) -> (r: ArkKind)
    ensures
        r == ArkKind::Freq <==> vercheck == 0x004B5241,
        r == ArkKind::Amp <==> (vercheck <= 2),
        r == ArkKind::Unknown <==> (vercheck > 2 && vercheck != 0x004B5241),
{
    if vercheck == 0x004B5241 {
        ArkKind::Freq
    } else if vercheck <= 2 {
        ArkKind::Amp
    } else {
        ArkKind::Unknown
    }
}

} // verus!
