//! Archive entry names: separator normalization.

use vstd::prelude::*;

verus! {

/// A path separator: archives use `/`, some hosts write `\`.
pub open spec fn is_sep(c: char) -> bool {
    c == '/' || c == '\\'
}

/// One character of a normalized name: `\` becomes `/`, all else is kept.
pub open spec fn norm_char(c: char) -> char {
    if c == '\\' {
        '/'
    } else {
        c
    }
}

/// A relative path with every separator written as `/`.
pub open spec fn normalize(s: Seq<char>) -> Seq<char> {
    s.map_values(|c: char| norm_char(c))
}

/// Whether `c` equals `/` or `\`.
pub fn is_sep_char(c: char) -> (r: bool)
    ensures
        r == is_sep(c),
{
    c == '/' || c == '\\'
}

/// Rewrites a relative path as an archive entry name: every `\` becomes `/`.
pub fn normalize_name(s: &str) -> (r: String)
    ensures
        r@ == normalize(s@),
{
    let n = s.unicode_len();
    let mut out = String::new();
    proof {
        assert(out@ =~= normalize(s@.take(0)));
    }
    let mut i: usize = 0;
    while i < n
        invariant
            i <= n,
            n == s@.len(),
            out@ == normalize(s@.take(i as int)),
        decreases n - i,
    {
        if s.get_char(i) == '\\' {
            out.append("/");
            proof {
                reveal_strlit("/");
                assert(out@ =~= normalize(s@.take(i + 1)));
            }
        } else {
            out.append(s.substring_char(i, i + 1));
            proof {
                assert(out@ =~= normalize(s@.take(i + 1)));
            }
        }
        i = i + 1;
    }
    proof {
        assert(s@.take(n as int) =~= s@);
    }
    out
}


/// The components of a name, split on `/` and `\`.  The empty name has one
/// empty component; a separator at either end contributes an empty component.
pub open spec fn split_components(s: Seq<char>) -> Seq<Seq<char>>
    decreases s.len(),
{
    if s.len() == 0 {
        seq![Seq::<char>::empty()]
    } else if is_sep(s[0]) {
        seq![Seq::<char>::empty()] + split_components(s.drop_first())
    } else {
        let rest = split_components(s.drop_first());
        seq![seq![s[0]] + rest[0]] + rest.drop_first()
    }
}

pub proof fn lemma_split_len(s: Seq<char>)
    ensures
        split_components(s).len() >= 1,
    decreases s.len(),
{
    if s.len() == 0 {
    } else {
        lemma_split_len(s.drop_first());
    }
}

/// Appending one character extends the last component, or—for a separator—
/// opens a new empty one.
pub proof fn lemma_split_push(s: Seq<char>, c: char)
    ensures
        is_sep(c) ==> split_components(s.push(c)) == split_components(s).push(Seq::<char>::empty()),
        !is_sep(c) ==> split_components(s.push(c)) == split_components(s).update(
            split_components(s).len() - 1,
            split_components(s).last().push(c),
        ),
    decreases s.len(),
{
    lemma_split_len(s);
    if s.len() == 0 {
        assert(s.push(c) =~= seq![c]);
        assert(seq![c].drop_first() =~= Seq::<char>::empty());
        assert(split_components(Seq::<char>::empty()) == seq![Seq::<char>::empty()]);
        assert(s =~= Seq::<char>::empty());
        if is_sep(c) {
            assert(split_components(s.push(c)) == seq![Seq::<char>::empty()]
                + split_components(s.push(c).drop_first()));
            assert(split_components(s.push(c)) =~= split_components(s).push(Seq::<char>::empty()));
        } else {
            assert(seq![c] + split_components(Seq::<char>::empty())[0] =~= Seq::<char>::empty().push(c));
            assert(split_components(s.push(c)) =~= split_components(s).update(
                split_components(s).len() - 1,
                split_components(s).last().push(c),
            ));
        }
    } else {
        let t = s.drop_first();
        lemma_split_len(t);
        lemma_split_push(t, c);
        assert(s.push(c).drop_first() =~= t.push(c));
        assert(s.push(c)[0] == s[0]);
        let rest = split_components(t);
        let restp = split_components(t.push(c));
        if is_sep(s[0]) {
            assert(split_components(s.push(c)) == seq![Seq::<char>::empty()] + restp);
            assert(split_components(s) == seq![Seq::<char>::empty()] + rest);
            if is_sep(c) {
                assert(split_components(s.push(c)) =~= split_components(s).push(Seq::<char>::empty()));
            } else {
                assert(split_components(s.push(c)) =~= split_components(s).update(
                    split_components(s).len() - 1,
                    split_components(s).last().push(c),
                ));
            }
        } else {
            if is_sep(c) {
                assert(restp[0] == rest[0]);
                assert(restp.drop_first() =~= rest.drop_first().push(Seq::<char>::empty()));
                assert(split_components(s.push(c)) =~= split_components(s).push(Seq::<char>::empty()));
            } else {
                if rest.len() == 1 {
                    assert(restp[0] == rest[0].push(c));
                    assert(restp.drop_first() =~= rest.drop_first());
                    assert(seq![s[0]] + rest[0].push(c) =~= (seq![s[0]] + rest[0]).push(c));
                    assert(split_components(s.push(c)) =~= split_components(s).update(
                        split_components(s).len() - 1,
                        split_components(s).last().push(c),
                    ));
                } else {
                    assert(restp[0] == rest[0]);
                    assert(restp.drop_first() =~= rest.drop_first().update(
                        rest.drop_first().len() - 1,
                        rest.drop_first().last().push(c),
                    ));
                    assert(split_components(s.push(c)) =~= split_components(s).update(
                        split_components(s).len() - 1,
                        split_components(s).last().push(c),
                    ));
                }
            }
        }
    }
}


/// The two-character component `..`, which steps up one directory.
pub open spec fn dotdot() -> Seq<char> {
    seq!['.', '.']
}

/// The one-character component `.`, which resolves to nothing.
pub open spec fn dot() -> Seq<char> {
    seq!['.']
}

/// How one component changes the depth below the extraction root: `..` steps
/// up, `.` and an empty component stay, anything else steps down into a
/// directory or names a file.
pub open spec fn next_depth(d: int, comp: Seq<char>) -> int {
    if comp == dotdot() {
        d - 1
    } else if comp == dot() || comp.len() == 0 {
        d
    } else {
        d + 1
    }
}

/// Whether, starting at depth `d`, the running depth never drops below zero
/// while the components are applied left to right.
pub open spec fn depth_ok_from(parts: Seq<Seq<char>>, d: int) -> bool
    decreases parts.len(),
{
    parts.len() == 0 || {
        let d2 = next_depth(d, parts[0]);
        d2 >= 0 && depth_ok_from(parts.drop_first(), d2)
    }
}

/// A safe archive entry name: it is nonempty, relative (no leading separator),
/// free of NUL and of `:` (which guards against drive-prefixed absolute paths),
/// and it never steps above the extraction root.
pub open spec fn is_safe_name(s: Seq<char>) -> bool {
    &&& s.len() > 0
    &&& !is_sep(s[0])
    &&& (forall|i: int| 0 <= i < s.len() ==> s[i] != '\u{0}' && s[i] != ':')
    &&& depth_ok_from(split_components(s), 0)
}

/// Splits a name into its components, on `/` and `\`.
pub fn split_name(s: &str) -> (parts: Vec<String>)
    ensures
        parts@.map_values(|p: String| p@) == split_components(s@),
{
    let n = s.unicode_len();
    let mut done: Vec<String> = Vec::new();
    let mut cur = String::new();
    let mut i: usize = 0;
    proof {
        assert(s@.take(0) =~= Seq::<char>::empty());
        assert(done@.map_values(|p: String| p@).push(cur@) =~= split_components(s@.take(0)));
    }
    while i < n
        invariant
            i <= n,
            n == s@.len(),
            done@.map_values(|p: String| p@).push(cur@) == split_components(s@.take(i as int)),
        decreases n - i,
    {
        let c = s.get_char(i);
        proof {
            assert(s@.take(i + 1) =~= s@.take(i as int).push(s@[i as int]));
            lemma_split_push(s@.take(i as int), s@[i as int]);
            lemma_split_len(s@.take(i as int));
        }
        if is_sep_char(c) {
            done.push(cur);
            cur = String::new();
            proof {
                assert(done@.map_values(|p: String| p@).push(cur@) =~= split_components(
                    s@.take(i + 1),
                ));
            }
        } else {
            cur.append(s.substring_char(i, i + 1));
            proof {
                let old_parts = split_components(s@.take(i as int));
                assert(s@.subrange(i as int, i + 1) =~= seq![s@[i as int]]);
                assert(old_parts.last() == cur@.drop_last());
                assert(cur@ =~= cur@.drop_last().push(s@[i as int]));
                assert(done@.map_values(|p: String| p@).push(cur@) =~= split_components(
                    s@.take(i + 1),
                ));
            }
        }
        i = i + 1;
    }
    done.push(cur);
    proof {
        assert(s@.take(n as int) =~= s@);
    }
    done
}


/// Decides whether a stored entry name is safe to extract, as
/// [`is_safe_name`] states.
pub fn check_safe_name(s: &str) -> (r: bool)
    ensures
        r == is_safe_name(s@),
{
    let n = s.unicode_len();
    if n == 0 {
        return false;
    }
    if is_sep_char(s.get_char(0)) {
        return false;
    }
    let mut i: usize = 0;
    while i < n
        invariant
            i <= n,
            n == s@.len(),
            forall|k: int| 0 <= k < i ==> s@[k] != '\u{0}' && s@[k] != ':',
        decreases n - i,
    {
        let c = s.get_char(i);
        if c == '\u{0}' || c == ':' {
            return false;
        }
        i = i + 1;
    }
    let parts = split_name(s);
    let ghost comps = split_components(s@);
    let mut d: usize = 0;
    let mut j: usize = 0;
    proof {
        assert(comps.skip(0) =~= comps);
    }
    while j < parts.len()
        invariant
            j <= parts@.len(),
            parts@.map_values(|p: String| p@) == comps,
            comps == split_components(s@),
            d <= j,
            depth_ok_from(comps, 0) == depth_ok_from(comps.skip(j as int), d as int),
        decreases parts@.len() - j,
    {
        let comp = &parts[j];
        let ghost cv = comps[j as int];
        proof {
            assert(parts@.map_values(|p: String| p@)[j as int] == parts@[j as int]@);
        }
        let m = comp.as_str().unicode_len();
        let is_dotdot = m == 2 && comp.as_str().get_char(0) == '.' && comp.as_str().get_char(1)
            == '.';
        let is_dot = m == 1 && comp.as_str().get_char(0) == '.';
        let is_dot_or_empty = m == 0 || is_dot;
        proof {
            if is_dotdot {
                assert(cv =~= dotdot());
            } else {
                assert(cv == dotdot() ==> cv.len() == 2 && cv[0] == '.' && cv[1] == '.');
            }
            if is_dot {
                assert(cv =~= dot());
            } else {
                assert(cv == dot() ==> cv.len() == 1 && cv[0] == '.');
            }
            assert(comps.skip(j as int)[0] == cv);
            assert(comps.skip(j as int).drop_first() =~= comps.skip(j + 1));
        }
        if is_dotdot {
            if d == 0 {
                proof {
                    assert(next_depth(d as int, cv) < 0);
                    assert(!depth_ok_from(comps.skip(j as int), d as int));
                }
                return false;
            }
            d = d - 1;
        } else if !is_dot_or_empty {
            d = d + 1;
        }
        j = j + 1;
    }
    proof {
        assert(comps.skip(parts@.len() as int) =~= Seq::<Seq<char>>::empty());
    }
    true
}


/// Whether a stored entry name marks a directory: it ends in a separator.
pub open spec fn name_is_dir(s: Seq<char>) -> bool {
    s.len() > 0 && is_sep(s.last())
}

/// A name with a trailing separator supplied when it has none, as the archive
/// writer stores directory entries.
pub open spec fn with_slash(s: Seq<char>) -> Seq<char> {
    if s.len() > 0 && is_sep(s.last()) {
        s
    } else {
        s.push('/')
    }
}

/// A path without separators to rewrite is its own normalization.
pub proof fn lemma_normalize_id(s: Seq<char>)
    requires
        forall|i: int| 0 <= i < s.len() ==> s[i] != '\\',
    ensures
        normalize(s) == s,
{
    assert(normalize(s) =~= s);
}

/// Normalization never moves a component boundary, so both spellings of a
/// name split into the same components.
pub proof fn lemma_split_normalize(s: Seq<char>)
    ensures
        split_components(normalize(s)) == split_components(s),
    decreases s.len(),
{
    if s.len() == 0 {
        assert(normalize(s) =~= Seq::<char>::empty());
    } else {
        lemma_split_normalize(s.drop_first());
        assert(normalize(s).drop_first() =~= normalize(s.drop_first()));
        assert(normalize(s)[0] == norm_char(s[0]));
        if is_sep(s[0]) {
        } else {
            assert(norm_char(s[0]) == s[0]);
            assert(split_components(normalize(s)) =~= split_components(s));
        }
    }
}

/// A name and its normalization are safe together: rewriting `\` to `/`
/// changes neither the leading character's kind, the forbidden characters,
/// nor the component walk.
pub proof fn lemma_normalize_safe(s: Seq<char>)
    ensures
        is_safe_name(normalize(s)) == is_safe_name(s),
{
    lemma_split_normalize(s);
    if s.len() > 0 {
        assert(normalize(s)[0] == norm_char(s[0]));
        assert(forall|i: int|
            0 <= i < s.len() ==> normalize(s)[i] == norm_char(s[i]) && (norm_char(s[i]) != '\u{0}'
                && norm_char(s[i]) != ':') == (s[i] != '\u{0}' && s[i] != ':'));
    }
}

proof fn lemma_depth_ok_push_empty(parts: Seq<Seq<char>>, d: int)
    requires
        d >= 0,
        depth_ok_from(parts, d),
    ensures
        depth_ok_from(parts.push(Seq::<char>::empty()), d),
    decreases parts.len(),
{
    let e = Seq::<char>::empty();
    assert(parts.push(e)[0 as int] == if parts.len() == 0 {
        e
    } else {
        parts[0]
    });
    if parts.len() == 0 {
        assert(parts.push(e).drop_first() =~= Seq::<Seq<char>>::empty());
        assert(dotdot().len() == 2);
        assert(next_depth(d, e) == d);
        assert(depth_ok_from(parts.push(e), d)) by {
            reveal_with_fuel(depth_ok_from, 3);
        };
    } else {
        lemma_depth_ok_push_empty(parts.drop_first(), next_depth(d, parts[0]));
        assert(parts.push(Seq::<char>::empty()).drop_first() =~= parts.drop_first().push(
            Seq::<char>::empty(),
        ));
        assert(parts.push(Seq::<char>::empty())[0] == parts[0]);
    }
}

/// A safe file name stays safe when the archive writer appends the trailing
/// separator of a directory marker.
pub proof fn lemma_safe_push_slash(s: Seq<char>)
    requires
        is_safe_name(s),
    ensures
        is_safe_name(s.push('/')),
{
    lemma_split_push(s, '/');
    lemma_depth_ok_push_empty(split_components(s), 0);
    assert(s.push('/')[0] == s[0]);
    assert(forall|i: int|
        0 <= i < s.len() ==> s.push('/')[i] == s[i]);
    assert(s.push('/')[s.len() as int] == '/');
}


/// Normalization character by character: the length is kept, every separator
/// reads back as `/`, every other character is unchanged, and no `\` remains.
pub proof fn lemma_normalize_chars(s: Seq<char>)
    ensures
        normalize(s).len() == s.len(),
        forall|i: int|
            0 <= i < s.len() ==> normalize(s)[i] == (if is_sep(s[i]) {
                '/'
            } else {
                s[i]
            }) && normalize(s)[i] != '\\',
{
}

} // verus!
