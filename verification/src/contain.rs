//! Containment: resolving a safe entry name never leaves the extraction root.

use vstd::prelude::*;
use crate::names::{
    dot, dotdot, depth_ok_from, is_safe_name, is_sep, next_depth, norm_char, normalize,
    split_components,
};

verus! {

/// One step of path resolution: `..` removes the innermost directory (when
/// any is left), `.` and an empty component change nothing, and any other
/// component enters it.
pub open spec fn apply_component(stack: Seq<Seq<char>>, comp: Seq<char>) -> Seq<Seq<char>> {
    if comp == dotdot() {
        if stack.len() > 0 {
            stack.drop_last()
        } else {
            stack
        }
    } else if comp == dot() || comp.len() == 0 {
        stack
    } else {
        stack.push(comp)
    }
}

/// The directory stack after resolving all components, left to right, from a
/// starting stack.
pub open spec fn resolve_under(stack: Seq<Seq<char>>, parts: Seq<Seq<char>>) -> Seq<Seq<char>>
    decreases parts.len(),
{
    if parts.len() == 0 {
        stack
    } else {
        resolve_under(apply_component(stack, parts[0]), parts.drop_first())
    }
}

proof fn lemma_resolve_prefix_from(
    root: Seq<Seq<char>>,
    stack: Seq<Seq<char>>,
    parts: Seq<Seq<char>>,
    d: int,
)
    requires
        root.is_prefix_of(stack),
        stack.len() == root.len() + d,
        d >= 0,
        depth_ok_from(parts, d),
    ensures
        root.is_prefix_of(resolve_under(stack, parts)),
    decreases parts.len(),
{
    if parts.len() > 0 {
        let comp = parts[0];
        let d2 = next_depth(d, comp);
        let st2 = apply_component(stack, comp);
        if comp == dotdot() {
            assert(stack.len() > root.len());
            assert(st2 =~= stack.drop_last());
            assert(root.is_prefix_of(st2)) by {
                assert(st2.subrange(0, root.len() as int) =~= stack.subrange(
                    0,
                    root.len() as int,
                ));
            }
        } else if comp == dot() || comp.len() == 0 {
        } else {
            assert(root.is_prefix_of(st2)) by {
                assert(st2.subrange(0, root.len() as int) =~= stack.subrange(
                    0,
                    root.len() as int,
                ));
            }
        }
        lemma_resolve_prefix_from(root, st2, parts.drop_first(), d2);
    }
}

/// Containment: however deep a safe name's components walk—including interior
/// `..` steps—the resolved output path keeps the whole root directory as a
/// prefix, so nothing is written outside the extraction root.
pub proof fn lemma_safe_name_contained(root: Seq<Seq<char>>, name: Seq<char>)
    requires
        is_safe_name(name),
    ensures
        root.is_prefix_of(resolve_under(root, split_components(name))),
{
    lemma_resolve_prefix_from(root, root, split_components(name), 0);
}

} // verus!
