//! File-system paths held as text, with the Unix semantics of `Path::join`,
//! `Path::file_name` and `Path::extension`.

use vstd::prelude::*;
use crate::text::{chars_of, string_of};

verus! {

/// `base` joined with `part` as `PathBuf::push` does it on Unix: an absolute
/// `part` replaces `base`; otherwise a separator is put between them unless
/// `base` is empty or already ends with one.
pub open spec fn join(base: Seq<char>, part: Seq<char>) -> Seq<char> {
    if part.len() > 0 && part[0] == '/' {
        part
    } else if base.len() == 0 || base.last() == '/' {
        base + part
    } else {
        base + seq!['/'] + part
    }
}

/// The position just after the last `/` of `s`, or 0 when `s` holds none.
pub open spec fn segment_start(s: Seq<char>) -> int
    decreases s.len(),
{
    if s.len() == 0 {
        0
    } else if s.last() == '/' {
        s.len() as int
    } else {
        segment_start(s.drop_last())
    }
}

/// `segment_start` lies within `s`, and nothing after it is a separator.
pub proof fn lemma_segment_start(s: Seq<char>)
    ensures
        0 <= segment_start(s) <= s.len(),
        segment_start(s) > 0 ==> s[segment_start(s) - 1] == '/',
        forall|i: int| segment_start(s) <= i < s.len() ==> s[i] != '/',
    decreases s.len(),
{
    if s.len() > 0 && s.last() != '/' {
        let t = s.drop_last();
        lemma_segment_start(t);
        assert forall|i: int| segment_start(s) <= i < s.len() implies s[i] != '/' by {
            if i < t.len() {
                assert(s[i] == t[i]);
            }
        }
        if segment_start(t) > 0 {
            assert(s[segment_start(t) - 1] == t[segment_start(t) - 1]);
        }
    }
}

/// The last component of path `p` that is neither empty nor `.`, as the
/// components of a Unix path come: trailing separators and `.` components
/// are passed over. Empty when there is none.
pub open spec fn last_component(p: Seq<char>) -> Seq<char>
    decreases p.len(),
{
    if p.len() == 0 {
        Seq::empty()
    } else if p.last() == '/' {
        last_component(p.drop_last())
    } else {
        let k = segment_start(p);
        proof {
            lemma_segment_start(p);
        }
        if p.subrange(k, p.len() as int) == seq!['.'] {
            last_component(p.subrange(0, k))
        } else {
            p.subrange(k, p.len() as int)
        }
    }
}

/// `Path::file_name`: the last component, unless there is none or it is `..`.
pub open spec fn file_name(p: Seq<char>) -> Option<Seq<char>> {
    let c = last_component(p);
    if c.len() == 0 || c == seq!['.', '.'] {
        None
    } else {
        Some(c)
    }
}

/// The index of the last `.` in `f`, or -1 when `f` holds none.
pub open spec fn last_dot(f: Seq<char>) -> int
    decreases f.len(),
{
    if f.len() == 0 {
        -1
    } else if f.last() == '.' {
        f.len() - 1
    } else {
        last_dot(f.drop_last())
    }
}

/// `Path::extension`: what follows the last `.` of the file name, when that
/// `.` is not its first character.
pub open spec fn extension(p: Seq<char>) -> Option<Seq<char>> {
    match file_name(p) {
        None => None,
        Some(f) => {
            let d = last_dot(f);
            if d <= 0 {
                None
            } else {
                Some(f.subrange(d + 1, f.len() as int))
            }
        },
    }
}

/// `last_dot` is -1 or the index of a `.`, with no `.` after it.
pub proof fn lemma_last_dot(f: Seq<char>)
    ensures
        -1 <= last_dot(f) < f.len(),
        last_dot(f) >= 0 ==> f[last_dot(f)] == '.',
        forall|i: int| last_dot(f) < i < f.len() ==> f[i] != '.',
    decreases f.len(),
{
    if f.len() > 0 && f.last() != '.' {
        let t = f.drop_last();
        lemma_last_dot(t);
        assert forall|i: int| last_dot(f) < i < f.len() implies f[i] != '.' by {
            if i < t.len() {
                assert(f[i] == t[i]);
            }
        }
        if last_dot(t) >= 0 {
            assert(f[last_dot(t)] == t[last_dot(t)]);
        }
    }
}

/// `base` joined with `part` (`Path::join` on Unix).
pub fn join_path(base: &str, part: &str) -> (res: String)
    ensures
        res@ == join(base@, part@),
{
    let part_chars = chars_of(part);
    if part_chars.len() > 0 && part_chars[0] == '/' {
        return part.to_owned();
    }
    let base_chars = chars_of(base);
    let mut res = base.to_owned();
    if base_chars.len() > 0 && base_chars[base_chars.len() - 1] != '/' {
        res.append("/");
        proof {
            reveal_strlit("/");
        }
    }
    res.append(part);
    res
}

/// `segment_start(p[..end])`.
fn segment_start_of(p: &Vec<char>, end: usize) -> (res: usize)
    requires
        end <= p@.len(),
    ensures
        res == segment_start(p@.subrange(0, end as int)),
{
    let mut j = end;
    while j > 0 && p[j - 1] != '/'
        invariant
            j <= end <= p@.len(),
            segment_start(p@.subrange(0, end as int)) == segment_start(p@.subrange(0, j as int)),
        decreases j,
    {
        assert(p@.subrange(0, j as int).drop_last() =~= p@.subrange(0, j - 1));
        j = j - 1;
    }
    j
}

/// The bounds of `last_component(p)` within `p`.
fn last_component_bounds(p: &Vec<char>) -> (res: (usize, usize))
    ensures
        res.0 <= res.1 <= p@.len(),
        p@.subrange(res.0 as int, res.1 as int) == last_component(p@),
{
    let mut end = p.len();
    assert(p@.subrange(0, end as int) =~= p@);
    loop
        invariant
            end <= p@.len(),
            last_component(p@) == last_component(p@.subrange(0, end as int)),
        decreases end,
    {
        let ghost q = p@.subrange(0, end as int);
        if end == 0 {
            return (0, 0);
        }
        if p[end - 1] == '/' {
            assert(q.drop_last() =~= p@.subrange(0, end - 1));
            end = end - 1;
        } else {
            let k = segment_start_of(p, end);
            proof {
                lemma_segment_start(q);
                assert(q.subrange(k as int, end as int) =~= p@.subrange(k as int, end as int));
                assert(q.subrange(0, k as int) =~= p@.subrange(0, k as int));
            }
            if end - k == 1 && p[k] == '.' {
                assert(q.subrange(k as int, end as int) =~= seq!['.']);
                end = k;
            } else {
                assert(q.subrange(k as int, end as int) != seq!['.']) by {
                    if end - k == 1 {
                        assert(q.subrange(k as int, end as int)[0] == p[k as int]);
                    }
                }
                return (k, end);
            }
        }
    }
}

/// `Path::file_name` of `path`.
pub fn path_file_name(path: &str) -> (res: Option<String>)
    ensures
        match res {
            Some(f) => file_name(path@) == Some(f@),
            None => file_name(path@) is None,
        },
{
    let chars = chars_of(path);
    let (from, to) = last_component_bounds(&chars);
    let ghost c = chars@.subrange(from as int, to as int);
    if to == from {
        return None;
    }
    if to - from == 2 && chars[from] == '.' && chars[from + 1] == '.' {
        assert(c =~= seq!['.', '.']);
        return None;
    }
    assert(c != seq!['.', '.']) by {
        if c.len() == 2 {
            assert(c[0] == chars@[from as int] && c[1] == chars@[from + 1]);
        }
    }
    Some(string_of(&chars, from, to))
}

/// The index of the last `.` in `f[..end]`, if any.
pub(crate) fn last_dot_of(f: &Vec<char>) -> (res: Option<usize>)
    ensures
        match res {
            Some(d) => last_dot(f@) == d,
            None => last_dot(f@) == -1,
        },
{
    let mut j = f.len();
    assert(f@.subrange(0, j as int) =~= f@);
    while j > 0 && f[j - 1] != '.'
        invariant
            j <= f@.len(),
            last_dot(f@) == last_dot(f@.subrange(0, j as int)),
        decreases j,
    {
        assert(f@.subrange(0, j as int).drop_last() =~= f@.subrange(0, j - 1));
        j = j - 1;
    }
    if j == 0 {
        None
    } else {
        Some(j - 1)
    }
}

/// `Path::extension` of `path`.
pub fn path_extension(path: &str) -> (res: Option<String>)
    ensures
        match res {
            Some(e) => extension(path@) == Some(e@),
            None => extension(path@) is None,
        },
{
    match path_file_name(path) {
        None => None,
        Some(name) => {
            let f = chars_of(name.as_str());
            proof {
                lemma_last_dot(f@);
            }
            match last_dot_of(&f) {
                None => None,
                Some(d) => {
                    if d == 0 {
                        None
                    } else {
                        Some(string_of(&f, d + 1, f.len()))
                    }
                },
            }
        },
    }
}

/// Appending a name without separators to a directory prefix that is empty
/// or ends in a separator: the last segment starts where the name starts.
pub proof fn lemma_segment_start_after_dir(prefix: Seq<char>, f: Seq<char>)
    requires
        prefix.len() == 0 || prefix.last() == '/',
        forall|i: int| 0 <= i < f.len() ==> f[i] != '/',
    ensures
        segment_start(prefix + f) == prefix.len(),
    decreases f.len(),
{
    if f.len() == 0 {
        assert(prefix + f =~= prefix);
        if prefix.len() > 0 {
            assert(prefix =~= prefix.drop_last().push(prefix.last()));
        }
    } else {
        let g = f.drop_last();
        lemma_segment_start_after_dir(prefix, g);
        assert((prefix + f).drop_last() =~= prefix + g);
        assert((prefix + f).last() == f.last());
    }
}

/// The file name of a path made by joining a directory and a plain name
/// (no separator, not `.` or `..`, not empty) is that name.
pub proof fn lemma_file_name_of_join(dir: Seq<char>, f: Seq<char>)
    requires
        f.len() > 0,
        forall|i: int| 0 <= i < f.len() ==> f[i] != '/',
        f != seq!['.'],
        f != seq!['.', '.'],
    ensures
        file_name(join(dir, f)) == Some(f),
{
    let prefix = if dir.len() == 0 || dir.last() == '/' {
        dir
    } else {
        dir + seq!['/']
    };
    assert(join(dir, f) =~= prefix + f);
    let p = prefix + f;
    lemma_segment_start_after_dir(prefix, f);
    assert(p.last() == f.last());
    assert(p.subrange(prefix.len() as int, p.len() as int) =~= f);
}

} // verus!