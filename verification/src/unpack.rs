//! Extraction: reading every entry of an archive back out, safely.

use vstd::prelude::*;
use crate::entries::{extract_entry_of, extract_view, pak_views, ExtractError, PakEntry};
use crate::names::{check_safe_name, is_safe_name, lemma_normalize_safe, normalize, normalize_name};
use crate::zipio::{
    archive_entries, archive_entry_at, archive_len, archive_open, archive_payloads_ok, parses,
    payloads_ok, stored_archive,
};

verus! {

/// Turns one archive slot, as read back, into an extracted entry: the stored
/// name is checked for safety and normalized; an unsafe name is rejected and
/// reported.
pub fn classify_entry(name: String, is_dir: bool, data: Vec<u8>) -> (r: Result<
    PakEntry,
    ExtractError,
>)
    ensures
        r is Ok <==> is_safe_name(name@),
        r matches Ok(p) ==> {
            &&& p@.name == normalize(name@)
            &&& p@.is_dir == is_dir
            &&& p@.data == data@
        },
        r matches Err(e) ==> e matches ExtractError::UnsafeEntryName(n) && n@ == name@,
{
    if check_safe_name(name.as_str()) {
        let normalized = normalize_name(name.as_str());
        Ok(PakEntry { name: normalized, is_dir, data })
    } else {
        Err(ExtractError::UnsafeEntryName(name))
    }
}

/// Extracts an archive, given as its bytes, into the list of entries it
/// stores, in index order.
///
/// On success every stored name was safe, and the entries carry the
/// normalized names, kinds and decompressed payloads the archive stores.  A
/// container that does not parse is rejected whole; the first entry whose
/// stored name is unsafe, or whose payload does not read back, aborts the
/// extraction and is reported.  On a parsing archive whose payloads all read
/// back and whose stored names are all safe, success is owed.
pub fn unpack_entries(bytes: Vec<u8>) -> (r: Result<Vec<PakEntry>, ExtractError>)
    ensures
        r matches Ok(v) ==> {
            let stored = stored_archive(bytes@);
            &&& pak_views(v@) == extract_view(stored)
            &&& forall|k: int| 0 <= k < stored.len() ==> is_safe_name(#[trigger] stored[k].0)
            &&& forall|k: int| 0 <= k < v@.len() ==> is_safe_name(#[trigger] pak_views(v@)[k].name)
        },
        parses(bytes@) && payloads_ok(bytes@) && (forall|k: int|
            0 <= k < stored_archive(bytes@).len() ==> is_safe_name(
                #[trigger] stored_archive(bytes@)[k].0,
            )) ==> r is Ok,
        r matches Err(e) ==> match e {
            ExtractError::InvalidArchive => !parses(bytes@),
            ExtractError::UnsafeEntryName(n) => {
                let stored = stored_archive(bytes@);
                exists|k: int|
                    0 <= k < stored.len() && #[trigger] stored[k].0 == n@ && !is_safe_name(
                        stored[k].0,
                    ) && (forall|j: int| 0 <= j < k ==> is_safe_name(#[trigger] stored[j].0))
            },
            ExtractError::CorruptEntry(idx) => idx < stored_archive(bytes@).len()
                && !payloads_ok(bytes@),
            ExtractError::IoError(_) => false,
        },
{
    let ghost stored = stored_archive(bytes@);
    let mut a = match archive_open(bytes) {
        Ok(a) => a,
        Err(_) => {
            return Err(ExtractError::InvalidArchive);
        },
    };
    let n = archive_len(&a);
    let mut out: Vec<PakEntry> = Vec::new();
    let mut i: usize = 0;
    proof {
        assert(pak_views(out@) =~= extract_view(stored.take(0)));
    }
    while i < n
        invariant
            i <= n,
            stored == stored_archive(bytes@),
            n == stored.len(),
            archive_entries(a) == stored,
            parses(bytes@),
            archive_payloads_ok(a) == payloads_ok(bytes@),
            pak_views(out@) == extract_view(stored.take(i as int)),
            forall|k: int| 0 <= k < i ==> is_safe_name(#[trigger] stored[k].0),
        decreases n - i,
    {
        let (name, is_dir, data) = match archive_entry_at(&mut a, i) {
            Ok(e) => e,
            Err(_) => {
                return Err(ExtractError::CorruptEntry(i));
            },
        };
        match classify_entry(name, is_dir, data) {
            Ok(p) => {
                proof {
                    assert(p@ == extract_entry_of(stored[i as int]));
                    assert(extract_view(stored.take(i + 1)) =~= extract_view(
                        stored.take(i as int),
                    ).push(extract_entry_of(stored[i as int])));
                    assert(pak_views(out@.push(p)) =~= pak_views(out@).push(p@));
                }
                out.push(p);
            },
            Err(er) => {
                proof {
                    assert(0 <= i < stored.len() && !is_safe_name(stored[i as int].0));
                }
                return Err(er);
            },
        }
        i = i + 1;
    }
    proof {
        assert(stored.take(n as int) =~= stored);
        assert forall|k: int| 0 <= k < out@.len() implies is_safe_name(
            #[trigger] pak_views(out@)[k].name,
        ) by {
            lemma_normalize_safe(stored[k].0);
        }
    }
    Ok(out)
}

} // verus!
