//! Packing: writing a source tree into a new in-memory archive.

use vstd::prelude::*;
use crate::entries::{
    archive_name_of, pack_entry_of, pack_view, tree_views, tree_within_limits, wf_tree,
    within_format_limits, PackError, TreeEntry,
};
use crate::names::normalize_name;
use crate::zipio::{
    parses, payloads_ok, stored_archive, writer_add_directory, writer_add_file, writer_entries,
    writer_finish, writer_new, writer_ok,
};

verus! {

/// Packs a source tree, given as entries relative to its root, into the bytes
/// of a finished archive.
///
/// On success the archive stores exactly one slot per entry, in order: the
/// entry's path normalized to `/` separators (a directory marker gaining a
/// trailing `/`), with the file's bytes as payload and none for a directory;
/// the finished bytes parse back as an archive whose every payload reads back
/// whole.  On a tree within the archive format's limits success is owed.  An
/// error reports a failure of the archive writer, and no archive bytes are
/// produced, so a failed pack never leaves a finished-looking container.
pub fn pack_entries(tree: &Vec<TreeEntry>) -> (r: Result<Vec<u8>, PackError>)
    requires
        wf_tree(tree_views(tree@)),
    ensures
        r matches Ok(bytes) ==> stored_archive(bytes@) == pack_view(tree_views(tree@)) && parses(
            bytes@,
        ) && payloads_ok(bytes@),
        r matches Err(e) ==> e is IoError,
        tree_within_limits(tree_views(tree@)) ==> r is Ok,
{
    let ghost t = tree_views(tree@);
    let mut w = writer_new();
    let mut i: usize = 0;
    proof {
        assert(pack_view(t.take(0)) =~= Seq::<(Seq<char>, Seq<u8>)>::empty());
    }
    while i < tree.len()
        invariant
            i <= tree@.len(),
            t == tree_views(tree@),
            wf_tree(t),
            writer_entries(w) == pack_view(t.take(i as int)),
            tree_within_limits(t) ==> writer_ok(w),
        decreases tree@.len() - i,
    {
        let e = &tree[i];
        proof {
            assert(t[i as int] == tree@[i as int]@);
        }
        let ghost pre_entries = writer_entries(w);
        let name = normalize_name(e.path.as_str());
        let res = if e.is_dir {
            writer_add_directory(&mut w, name.as_str())
        } else {
            writer_add_file(&mut w, name.as_str(), &e.data)
        };
        proof {
            if tree_within_limits(t) {
                assert(within_format_limits(t[i as int]));
                let nm = archive_name_of(t[i as int]);
                assert forall|k: int| 0 <= k < pre_entries.len() implies (
                #[trigger] pre_entries[k]).0 != nm by {
                    assert(pre_entries[k] == pack_entry_of(t.take(i as int)[k]));
                    assert(t.take(i as int)[k] == t[k]);
                    assert(archive_name_of(t[k]) != archive_name_of(t[i as int]));
                }
                assert(res is Ok && writer_ok(w));
            }
        }
        match res {
            Ok(_) => {},
            Err(_) => {
                return Err(PackError::IoError(e.path.clone()));
            },
        }
        proof {
            assert(pack_view(t.take(i + 1)) =~= pack_view(t.take(i as int)).push(
                pack_entry_of(t[i as int]),
            ));
        }
        i = i + 1;
    }
    proof {
        assert(t.take(tree@.len() as int) =~= t);
    }
    match writer_finish(w) {
        Ok(bytes) => Ok(bytes),
        Err(_) => Err(PackError::IoError(String::from_str("finalizing the archive"))),
    }
}

} // verus!
