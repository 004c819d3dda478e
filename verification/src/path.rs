//! The display form of a store path: its last segment without extension, its
//! other segments kept unless the store root's path holds them.

use vstd::prelude::*;
use vstd::string::*;
use crate::text::{
    contains, contains_sub, first_index_of, index_of, lemma_first_index, lemma_first_index_is_first,
    matches_at, no_hidden_segment, occurs_at,
};

verus! {

/// What a segment that is not the last one gives to the display form: nothing where
/// the root's path holds the segment's text, else the segment and a separator.
pub open spec fn kept_segment(segment: Seq<char>, root: Seq<char>) -> Seq<char> {
    if contains_sub(root, segment) {
        Seq::empty()
    } else {
        segment.push('/')
    }
}

/// The last segment up to its first dot.
pub open spec fn stem(segment: Seq<char>) -> Seq<char> {
    segment.subrange(0, first_index_of(segment, '.'))
}

/// The display form of `path` in a store at `root`.
pub open spec fn display_path(path: Seq<char>, root: Seq<char>) -> Seq<char>
    decreases path.len(),
{
    let k = first_index_of(path, '/');
    if 0 <= k < path.len() {
        kept_segment(path.subrange(0, k), root) + display_path(
            path.subrange(k + 1, path.len() as int),
            root,
        )
    } else {
        stem(path)
    }
}

/// The display forms of `items`, one for one.
pub open spec fn display_paths(items: Seq<Seq<char>>, root: Seq<char>) -> Seq<Seq<char>> {
    Seq::new(items.len(), |i: int| display_path(items[i], root))
}

/// The path of a file of the store: the root's path, a separator and the path
/// relative to the root.
pub open spec fn absolute(root: Seq<char>, relative: Seq<char>) -> Seq<char> {
    if root.len() == 0 {
        relative
    } else {
        root.push('/') + relative
    }
}

/// The paths of `relative` below `root`, one for one.
pub open spec fn absolutes(root: Seq<char>, relative: Seq<Seq<char>>) -> Seq<Seq<char>> {
    Seq::new(relative.len(), |i: int| absolute(root, relative[i]))
}

/// Computes the display form of `path` in a store at `root`.
pub fn display_path_of(path: &str, root: &str) -> (out: String)
    ensures
        out@ == display_path(path@, root@),
{
    let mut out = String::new();
    let mut rest: &str = path;
    loop
        invariant
            out@ + display_path(rest@, root@) == display_path(path@, root@),
        decreases rest@.len(),
    {
        let n: usize = rest.unicode_len();
        let k: usize = index_of(rest, '/');
        if k < n {
            let segment = rest.substring_char(0, k);
            let tail = rest.substring_char(k + 1, n);
            let ghost before = out@;
            if !contains(root, segment) {
                out.append(segment);
                out.append("/");
                proof {
                    reveal_strlit("/");
                    assert("/"@ =~= seq!['/']);
                    assert(out@ =~= before + segment@.push('/'));
                }
            }
            assert(out@ == before + kept_segment(segment@, root@));
            assert(out@ + display_path(tail@, root@) =~= before + (kept_segment(segment@, root@)
                + display_path(tail@, root@)));
            rest = tail;
        } else {
            let d: usize = index_of(rest, '.');
            out.append(rest.substring_char(0, d));
            return out;
        }
    }
}

/// `s` ends with `suffix`.
pub open spec fn is_suffix(suffix: Seq<char>, s: Seq<char>) -> bool {
    occurs_at(s, suffix, s.len() - suffix.len())
}

/// Takes `suffix` from the end of `s`; gives nothing where `s` does not end with it.
pub fn without_suffix(s: &str, suffix: &str) -> (r: Option<String>)
    ensures
        match r {
            Some(head) => is_suffix(suffix@, s@) && head@ == s@.subrange(
                0,
                s@.len() - suffix@.len(),
            ),
            None => !is_suffix(suffix@, s@),
        },
{
    let n: usize = s.unicode_len();
    let m: usize = suffix.unicode_len();
    if m <= n && matches_at(s, suffix, n - m) {
        Some(String::from_str(s.substring_char(0, n - m)))
    } else {
        None
    }
}

/// The display form has no extension: it ends with a part that holds neither a dot
/// nor a separator, and what stands before that part is empty or ends with a separator.
pub proof fn lemma_display_path_has_no_extension(path: Seq<char>, root: Seq<char>)
    ensures
        exists|head: Seq<char>, last: Seq<char>|
            {
                &&& display_path(path, root) == head + last
                &&& !last.contains('.')
                &&& !last.contains('/')
                &&& (head.len() == 0 || head.last() == '/')
            },
    decreases path.len(),
{
    let k = first_index_of(path, '/');
    lemma_first_index_is_first(path, '/');
    if 0 <= k < path.len() {
        let kept = kept_segment(path.subrange(0, k), root);
        let tail = path.subrange(k + 1, path.len() as int);
        lemma_display_path_has_no_extension(tail, root);
        let (head, last) = choose|head: Seq<char>, last: Seq<char>|
            {
                &&& display_path(tail, root) == head + last
                &&& !last.contains('.')
                &&& !last.contains('/')
                &&& (head.len() == 0 || head.last() == '/')
            };
        assert(display_path(path, root) =~= (kept + head) + last);
        assert((kept + head).len() == 0 || (kept + head).last() == '/');
    } else {
        let last = stem(path);
        lemma_first_index_is_first(path, '.');
        assert(display_path(path, root) =~= Seq::<char>::empty() + last);
        assert(k == path.len());
    }
}

/// A path that begins with an end part of the root's path and a separator has the
/// display form of what follows the separator.
proof fn lemma_root_tail_is_elided(root: Seq<char>, from: int, relative: Seq<char>)
    requires
        0 <= from <= root.len(),
    ensures
        display_path(root.subrange(from, root.len() as int).push('/') + relative, root)
            == display_path(relative, root),
    decreases root.len() - from,
{
    let tail = root.subrange(from, root.len() as int);
    let path = tail.push('/') + relative;
    let k = first_index_of(tail, '/');
    lemma_first_index_is_first(tail, '/');
    assert forall|j: int| 0 <= j < k implies path[j] != '/' by {
        assert(path[j] == tail[j]);
    }
    assert(path[k] == '/') by {
        if k < tail.len() {
            assert(path[k] == tail[k]);
        }
    }
    lemma_first_index(path, '/', k);
    let segment = path.subrange(0, k);
    let rest = path.subrange(k + 1, path.len() as int);
    assert(segment =~= root.subrange(from, from + k));
    assert(occurs_at(root, segment, from));
    assert(kept_segment(segment, root) =~= Seq::<char>::empty());
    assert(display_path(path, root) =~= display_path(rest, root));
    if k < tail.len() {
        assert(rest =~= root.subrange(from + k + 1, root.len() as int).push('/') + relative);
        lemma_root_tail_is_elided(root, from + k + 1, relative);
    } else {
        assert(rest =~= relative);
    }
}

/// The display form of a path below the root does not begin with the root's path: it
/// is the display form of the path relative to the root.
pub proof fn lemma_root_is_elided(root: Seq<char>, relative: Seq<char>)
    ensures
        display_path(absolute(root, relative), root) == display_path(relative, root),
{
    if root.len() > 0 {
        assert(root.subrange(0, root.len() as int) =~= root);
        lemma_root_tail_is_elided(root, 0, relative);
    }
}

/// The display form of a display form is that display form: to normalise twice is to
/// normalise once.
pub proof fn lemma_display_path_is_stable(path: Seq<char>, root: Seq<char>)
    ensures
        display_path(display_path(path, root), root) == display_path(path, root),
    decreases path.len(),
{
    let k = first_index_of(path, '/');
    lemma_first_index_is_first(path, '/');
    if 0 <= k < path.len() {
        let segment = path.subrange(0, k);
        let rest = path.subrange(k + 1, path.len() as int);
        let shown = display_path(rest, root);
        lemma_display_path_is_stable(rest, root);
        if !contains_sub(root, segment) {
            let once = segment.push('/') + shown;
            assert(display_path(path, root) == once);
            assert forall|j: int| 0 <= j < k implies once[j] != '/' by {
                assert(once[j] == path[j]);
            }
            lemma_first_index(once, '/', k);
            assert(once.subrange(0, k) =~= segment);
            assert(once.subrange(k + 1, once.len() as int) =~= shown);
        } else {
            assert(display_path(path, root) =~= shown);
        }
    } else {
        let once = stem(path);
        lemma_first_index_is_first(path, '.');
        assert forall|j: int| 0 <= j < once.len() implies once[j] != '/' && once[j] != '.' by {
            assert(once[j] == path[j]);
        }
        lemma_first_index(once, '/', once.len() as int);
        lemma_first_index(once, '.', once.len() as int);
        assert(stem(once) =~= once);
    }
}

/// Where no segment of a path begins with a dot, none of its display form does.
pub proof fn lemma_display_path_keeps_segments_plain(path: Seq<char>, root: Seq<char>)
    requires
        no_hidden_segment(path),
    ensures
        no_hidden_segment(display_path(path, root)),
    decreases path.len(),
{
    let k = first_index_of(path, '/');
    lemma_first_index_is_first(path, '/');
    if 0 <= k < path.len() {
        let segment = path.subrange(0, k);
        let rest = path.subrange(k + 1, path.len() as int);
        let shown = display_path(rest, root);
        assert(no_hidden_segment(rest)) by {
            if rest.len() > 0 {
                assert(rest[0] == path[k + 1]);
            }
            assert forall|j: int| 0 < j < rest.len() && rest[j - 1] == '/' implies #[trigger] rest[j]
                != '.' by {
                assert(rest[j] == path[k + 1 + j] && rest[j - 1] == path[k + j]);
            }
        }
        lemma_display_path_keeps_segments_plain(rest, root);
        if !contains_sub(root, segment) {
            let once = segment.push('/') + shown;
            assert(display_path(path, root) == once);
            assert(once[0] != '.') by {
                if k > 0 {
                    assert(once[0] == path[0]);
                }
            }
            assert forall|j: int| 0 < j < once.len() && once[j - 1] == '/' implies #[trigger] once[j]
                != '.' by {
                if j <= k {
                    assert(once[j - 1] == path[j - 1]);
                } else if j == k + 1 {
                    assert(once[j] == shown[0]);
                } else {
                    assert(once[j] == shown[j - k - 1] && once[j - 1] == shown[j - k - 2]);
                }
            }
        } else {
            assert(display_path(path, root) =~= shown);
        }
    } else {
        let once = stem(path);
        lemma_first_index_is_first(path, '.');
        assert forall|j: int| 0 < j < once.len() && once[j - 1] == '/' implies #[trigger] once[j]
            != '.' by {
            assert(once[j] == path[j] && once[j - 1] == path[j - 1]);
        }
        if once.len() > 0 {
            assert(once[0] == path[0]);
        }
    }
}

} // verus!
