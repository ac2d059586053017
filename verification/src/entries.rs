//! The data model: source-tree entries, extracted entries, and errors.

use vstd::prelude::*;
use vstd::utf8::encode_utf8;
use crate::names::{name_is_dir, normalize, with_slash};

verus! {

/// One entry of a source tree: a path relative to the tree's root, written
/// with the host's separators, its kind, and—for a file—its contents.
#[derive(Debug, PartialEq, Eq)]
pub struct TreeEntry {
    pub path: String,
    pub is_dir: bool,
    pub data: Vec<u8>,
}

/// The mathematical value of a [`TreeEntry`].
pub struct TreeEntryV {
    pub path: Seq<char>,
    pub is_dir: bool,
    pub data: Seq<u8>,
}

impl View for TreeEntry {
    type V = TreeEntryV;

    open spec fn view(&self) -> TreeEntryV {
        TreeEntryV { path: self.path@, is_dir: self.is_dir, data: self.data@ }
    }
}

/// One entry read back from an archive: its stored name normalized to `/`
/// separators, its kind, and its decompressed contents.
#[derive(Debug, PartialEq, Eq)]
pub struct PakEntry {
    pub name: String,
    pub is_dir: bool,
    pub data: Vec<u8>,
}

/// The mathematical value of a [`PakEntry`].
pub struct PakEntryV {
    pub name: Seq<char>,
    pub is_dir: bool,
    pub data: Seq<u8>,
}

impl View for PakEntry {
    type V = PakEntryV;

    open spec fn view(&self) -> PakEntryV {
        PakEntryV { name: self.name@, is_dir: self.is_dir, data: self.data@ }
    }
}

/// The values of a list of tree entries.
pub open spec fn tree_views(s: Seq<TreeEntry>) -> Seq<TreeEntryV> {
    s.map_values(|e: TreeEntry| e@)
}

/// The values of a list of extracted entries.
pub open spec fn pak_views(s: Seq<PakEntry>) -> Seq<PakEntryV> {
    s.map_values(|e: PakEntry| e@)
}

/// The archive entry name a tree entry is stored under: its path with `/`
/// separators, and a trailing `/` for a directory marker.
pub open spec fn archive_name_of(e: TreeEntryV) -> Seq<char> {
    if e.is_dir {
        with_slash(normalize(e.path))
    } else {
        normalize(e.path)
    }
}

/// The archive slot of one tree entry: its stored name and payload; a
/// directory marker carries no payload.
pub open spec fn pack_entry_of(e: TreeEntryV) -> (Seq<char>, Seq<u8>) {
    (archive_name_of(e), if e.is_dir {
        Seq::<u8>::empty()
    } else {
        e.data
    })
}

/// The archive an entire tree packs to, entry by entry, in order.
pub open spec fn pack_view(t: Seq<TreeEntryV>) -> Seq<(Seq<char>, Seq<u8>)> {
    t.map_values(|e: TreeEntryV| pack_entry_of(e))
}

/// The entry one archive slot extracts to.
pub open spec fn extract_entry_of(a: (Seq<char>, Seq<u8>)) -> PakEntryV {
    PakEntryV { name: normalize(a.0), is_dir: name_is_dir(a.0), data: a.1 }
}

/// The entries an entire archive extracts to, in index order.
pub open spec fn extract_view(a: Seq<(Seq<char>, Seq<u8>)>) -> Seq<PakEntryV> {
    a.map_values(|p: (Seq<char>, Seq<u8>)| extract_entry_of(p))
}

/// A tree entry the packer accepts: a nonempty relative path, and no file
/// stored under a name that would read back as a directory marker.
pub open spec fn wf_entry(e: TreeEntryV) -> bool {
    &&& e.path.len() > 0
    &&& !e.is_dir ==> !name_is_dir(normalize(e.path))
}

/// A source tree the packer accepts: well-formed entries whose archive names
/// are pairwise distinct, so that packing is a bijection onto the archive.
pub open spec fn wf_tree(t: Seq<TreeEntryV>) -> bool {
    &&& forall|i: int| 0 <= i < t.len() ==> wf_entry(#[trigger] t[i])
    &&& forall|i: int, j: int|
        #![trigger archive_name_of(t[i]), archive_name_of(t[j])]
        0 <= i < t.len() && 0 <= j < t.len() && i != j ==> archive_name_of(t[i])
            != archive_name_of(t[j])
}

/// A tree entry within the archive format's limits: its stored name fits the
/// format's 16-bit name-length field, and a file's payload stays far enough
/// under the format's 32-bit size fields that even an incompressible
/// payload's compressed form still fits (the margin of roughly 2 MiB covers
/// the compressor's worst-case expansion of about five bytes per 16 KiB
/// block).
pub open spec fn within_format_limits(e: TreeEntryV) -> bool {
    &&& encode_utf8(archive_name_of(e)).len() <= 65535
    &&& !e.is_dir ==> e.data.len() <= 0xFFE0_0000
}

/// A source tree every entry of which is within the archive format's limits:
/// on such a tree packing is owed success.
pub open spec fn tree_within_limits(t: Seq<TreeEntryV>) -> bool {
    forall|i: int| 0 <= i < t.len() ==> within_format_limits(#[trigger] t[i])
}

/// Why packing failed.  The traversal conditions are reported by the caller
/// that walks the source tree; the packer itself reports archive-write
/// failures.  Each variant carries the offending path or a description.
#[derive(Debug, PartialEq, Eq)]
pub enum PackError {
    SourceNotFound(String),
    SourceUnreadable(String),
    TraversalError(String),
    InvalidPathEncoding(String),
    IoError(String),
}

/// Why extraction failed: the container does not parse, an entry's stored
/// name would resolve outside the extraction root, an entry's payload does
/// not decompress or fails its integrity check, or the filesystem refused a
/// write.
#[derive(Debug, PartialEq, Eq)]
pub enum ExtractError {
    InvalidArchive,
    UnsafeEntryName(String),
    CorruptEntry(usize),
    IoError(String),
}

} // verus!
