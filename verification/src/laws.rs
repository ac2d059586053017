//! The library's laws: packing and extracting invert each other.

use vstd::prelude::*;
use crate::entries::{extract_view, pack_view, TreeEntryV};
use crate::names::{is_safe_name, is_sep, lemma_normalize_id, lemma_safe_push_slash, name_is_dir};

verus! {

/// A tree entry in the ordinary shape a directory walk yields: a nonempty
/// relative path already written with `/` separators, no trailing separator,
/// safe to extract (relative, no `..` above the root, no NUL or `:`), and no
/// payload on a directory.
pub open spec fn round_trip_entry_ok(e: TreeEntryV) -> bool {
    &&& e.path.len() > 0
    &&& (forall|i: int| 0 <= i < e.path.len() ==> e.path[i] != '\\')
    &&& is_safe_name(e.path)
    &&& e.path.last() != '/'
    &&& e.is_dir ==> e.data.len() == 0
}

/// Round trip: extracting what a tree packs to yields the tree back, entry by
/// entry—same kind, same bytes, and the same relative path, a directory
/// regaining it under its stored spelling with one trailing `/`.  Every
/// stored name is safe, so the extractor accepts the whole archive.
pub proof fn lemma_pack_extract_round_trip(t: Seq<TreeEntryV>)
    requires
        forall|i: int| 0 <= i < t.len() ==> round_trip_entry_ok(#[trigger] t[i]),
    ensures
        extract_view(pack_view(t)).len() == t.len(),
        forall|i: int|
            0 <= i < t.len() ==> {
                let b = extract_view(pack_view(t))[i];
                &&& b.is_dir == t[i].is_dir
                &&& b.data == t[i].data
                &&& b.name == if t[i].is_dir {
                    t[i].path.push('/')
                } else {
                    t[i].path
                }
                &&& is_safe_name(#[trigger] pack_view(t)[i].0)
            },
{
    assert forall|i: int| 0 <= i < t.len() implies {
        let b = extract_view(pack_view(t))[i];
        &&& b.is_dir == t[i].is_dir
        &&& b.data == t[i].data
        &&& b.name == if t[i].is_dir {
            t[i].path.push('/')
        } else {
            t[i].path
        }
        &&& is_safe_name(#[trigger] pack_view(t)[i].0)
    } by {
        let e = t[i];
        lemma_normalize_id(e.path);
        assert(!is_sep(e.path.last()));
        if e.is_dir {
            let s = e.path.push('/');
            assert(pack_view(t)[i].0 == s);
            lemma_safe_push_slash(e.path);
            assert(s.last() == '/');
            assert(name_is_dir(s));
            assert(forall|k: int| 0 <= k < s.len() ==> s[k] != '\\');
            lemma_normalize_id(s);
            assert(e.data =~= Seq::<u8>::empty());
        } else {
            assert(!name_is_dir(e.path));
        }
    }
}

} // verus!
