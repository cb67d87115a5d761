//! Paths as the engine sees them: strings whose components are separated by
//! `/`. The watcher, the state directory and the indexes all speak of paths in
//! this form.
//!
//! The functions on components (`file_name_of`, `parent_of`, `is_under`,
//! `relative_to`) read a path letter by letter, so they take paths in normal
//! form: no separator doubled, none at the end, and no component `.` but at
//! the start. `normal_form` says what that form of a path is, and `normalize`
//! computes it; the watcher brings every path that it is handed into this
//! form before it looks at its components.

use vstd::prelude::*;
use crate::text::{chars_of, has_at, push_all, starts_with, string_of};

verus! {

/// The index of the last `c` in `s`, or -1 where there is none.
pub open spec fn last_index_of(s: Seq<char>, c: char) -> int
    decreases s.len(),
{
    if s.len() == 0 {
        -1
    } else if s.last() == c {
        s.len() - 1
    } else {
        last_index_of(s.drop_last(), c)
    }
}

/// What `last_index_of` finds is a `c`, and no `c` comes after it.
pub proof fn lemma_last_index_of(s: Seq<char>, c: char)
    ensures
        -1 <= last_index_of(s, c) < s.len(),
        last_index_of(s, c) >= 0 ==> s[last_index_of(s, c)] == c,
        forall|k: int| last_index_of(s, c) < k < s.len() ==> s[k] != c,
    decreases s.len(),
{
    if s.len() > 0 && s.last() != c {
        let shorter = s.drop_last();
        lemma_last_index_of(shorter, c);
        assert forall|k: int| last_index_of(s, c) < k < s.len() implies s[k] != c by {
            if k < shorter.len() {
                assert(s[k] == shorter[k]);
            }
        }
    }
}

/// The index of the last `c` in `s`.
pub fn rfind_char(s: &[char], c: char) -> (found: Option<usize>)
    ensures
        match found {
            Some(at) => at == last_index_of(s@, c) && at < s@.len(),
            None => last_index_of(s@, c) == -1,
        },
{
    let mut i: usize = s.len();
    assert(s@.subrange(0, s@.len() as int) == s@);
    while i > 0
        invariant
            i <= s@.len(),
            last_index_of(s@, c) == last_index_of(s@.subrange(0, i as int), c),
        decreases i,
    {
        if s[i - 1] == c {
            return Some(i - 1);
        }
        assert(s@.subrange(0, i as int).drop_last() == s@.subrange(0, i - 1));
        i -= 1;
    }
    None
}

/// The last component of a path: what follows its last `/`. A path that ends
/// in `/` or in `..` names no file.
pub open spec fn file_name_of(p: Seq<char>) -> Option<Seq<char>> {
    let name = p.subrange(last_index_of(p, '/') + 1, p.len() as int);
    if name.len() == 0 || name == seq!['.', '.'] {
        None
    } else {
        Some(name)
    }
}

/// The path without its last component. The root and the empty path have no
/// parent; the parent of a bare name is the empty path.
pub open spec fn parent_of(p: Seq<char>) -> Option<Seq<char>> {
    let cut = last_index_of(p, '/');
    if p.len() == 0 {
        None
    } else if cut < 0 {
        Some(Seq::empty())
    } else if cut == 0 {
        if p.len() == 1 {
            None
        } else {
            Some(seq!['/'])
        }
    } else {
        Some(p.subrange(0, cut))
    }
}

/// Whether `base` is `path` or one of the directories above it: a prefix
/// that ends where a component ends.
pub open spec fn is_under(path: Seq<char>, base: Seq<char>) -> bool {
    &&& base.is_prefix_of(path)
    &&& (base.len() == 0 || base.len() == path.len() || base.last() == '/' || path[base.len() as int]
        == '/')
}

/// `child` below `base`. An absolute child replaces the base.
pub open spec fn join_of(base: Seq<char>, child: Seq<char>) -> Seq<char> {
    if child.len() > 0 && child[0] == '/' {
        child
    } else if base.len() == 0 {
        child
    } else if base.last() == '/' {
        base + child
    } else {
        base + seq!['/'] + child
    }
}

/// What is left of `path` below `root`, where it lies under it.
pub open spec fn relative_to(path: Seq<char>, root: Seq<char>) -> Option<Seq<char>> {
    if !is_under(path, root) {
        None
    } else if root.len() < path.len() && path[root.len() as int] == '/' {
        Some(path.subrange(root.len() as int + 1, path.len() as int))
    } else {
        Some(path.subrange(root.len() as int, path.len() as int))
    }
}

/// Whether a path starts at the root.
pub open spec fn is_absolute(p: Seq<char>) -> bool {
    p.len() > 0 && p[0] == '/'
}

/// The last component of a path.
pub fn file_name_chars(p: &[char]) -> (name: Option<Vec<char>>)
    ensures
        match name {
            Some(n) => file_name_of(p@) == Some(n@),
            None => file_name_of(p@).is_none(),
        },
{
    let len = p.len();
    let start = match rfind_char(p, '/') {
        Some(at) => {
            assert(at < len);
            at + 1
        },
        None => 0,
    };
    proof {
        lemma_last_index_of(p@, '/');
    }
    let mut name: Vec<char> = Vec::new();
    let mut i: usize = start;
    while i < p.len()
        invariant
            start <= i <= p@.len(),
            name@ == p@.subrange(start as int, i as int),
        decreases p@.len() - i,
    {
        name.push(p[i]);
        i += 1;
    }
    if name.len() == 0 || (name.len() == 2 && name[0] == '.' && name[1] == '.') {
        assert(name@.len() == 2 && name@[0] == '.' && name@[1] == '.' ==> name@ == seq!['.', '.']);
        None
    } else {
        assert(name@ != seq!['.', '.']) by {
            if name@ == seq!['.', '.'] {
                assert(seq!['.', '.'].len() == 2);
                assert(seq!['.', '.'][0] == '.');
                assert(seq!['.', '.'][1] == '.');
            }
        }
        Some(name)
    }
}

/// The path without its last component.
pub fn parent_chars(p: &[char]) -> (parent: Option<Vec<char>>)
    ensures
        match parent {
            Some(d) => parent_of(p@) == Some(d@),
            None => parent_of(p@).is_none(),
        },
{
    if p.len() == 0 {
        return None;
    }
    proof {
        lemma_last_index_of(p@, '/');
    }
    match rfind_char(p, '/') {
        None => Some(Vec::new()),
        Some(cut) => {
            if cut == 0 {
                if p.len() == 1 {
                    None
                } else {
                    let mut d: Vec<char> = Vec::new();
                    d.push('/');
                    assert(d@ == seq!['/']);
                    Some(d)
                }
            } else {
                let mut d: Vec<char> = Vec::new();
                let mut i: usize = 0;
                while i < cut
                    invariant
                        i <= cut < p@.len(),
                        d@ == p@.subrange(0, i as int),
                    decreases cut - i,
                {
                    d.push(p[i]);
                    i += 1;
                }
                Some(d)
            }
        },
    }
}

/// Whether `base` is `path` or one of the directories above it.
pub fn under(path: &[char], base: &[char]) -> (yes: bool)
    ensures
        yes == is_under(path@, base@),
{
    if !starts_with(path, base) {
        return false;
    }
    base.len() == 0 || base.len() == path.len() || base[base.len() - 1] == '/' || path[base.len()]
        == '/'
}

/// `child` below `base`.
pub fn join_chars(base: &[char], child: &[char]) -> (joined: Vec<char>)
    ensures
        joined@ == join_of(base@, child@),
{
    let mut out: Vec<char> = Vec::new();
    if child.len() > 0 && child[0] == '/' {
        push_all(&mut out, child);
    } else if base.len() == 0 {
        push_all(&mut out, child);
    } else if base[base.len() - 1] == '/' {
        push_all(&mut out, base);
        push_all(&mut out, child);
    } else {
        push_all(&mut out, base);
        out.push('/');
        push_all(&mut out, child);
    }
    out
}

/// What is left of `path` below `root`.
pub fn relative_chars(path: &[char], root: &[char]) -> (rest: Option<Vec<char>>)
    ensures
        match rest {
            Some(r) => relative_to(path@, root@) == Some(r@),
            None => relative_to(path@, root@).is_none(),
        },
{
    if !under(path, root) {
        return None;
    }
    let start = if root.len() < path.len() && path[root.len()] == '/' {
        root.len() + 1
    } else {
        root.len()
    };
    let mut out: Vec<char> = Vec::new();
    let mut i: usize = start;
    while i < path.len()
        invariant
            start <= i <= path@.len(),
            out@ == path@.subrange(start as int, i as int),
        decreases path@.len() - i,
    {
        out.push(path[i]);
        i += 1;
    }
    Some(out)
}

/// `child` below `base`.
pub fn join(base: &str, child: &str) -> (joined: String)
    ensures
        joined@ == join_of(base@, child@),
{
    let b = chars_of(base);
    let c = chars_of(child);
    let j = join_chars(b.as_slice(), c.as_slice());
    string_of(j.as_slice())
}

/// Whether the letter at `at` is a whole component `.` that is not the first
/// component of `p`.
pub open spec fn is_dot_component(p: Seq<char>, at: int) -> bool {
    &&& 0 < at < p.len()
    &&& p[at] == '.'
    &&& p[at - 1] == '/'
    &&& (at + 1 == p.len() || p[at + 1] == '/')
}

/// The first `upto` letters of `p` without the separators that follow a
/// separator and without the components `.` behind the first.
pub open spec fn squeezed(p: Seq<char>, upto: int) -> Seq<char>
    decreases upto,
{
    if upto <= 0 || upto > p.len() {
        Seq::empty()
    } else {
        let before = squeezed(p, upto - 1);
        if p[upto - 1] == '/' && before.len() > 0 && before.last() == '/' {
            before
        } else if is_dot_component(p, upto - 1) {
            before
        } else {
            before.push(p[upto - 1])
        }
    }
}

/// The normal form of `p`: each run of separators is one separator, a
/// component `.` behind the first is left out, and no separator stands at
/// the end, unless the path is the root itself.
pub open spec fn normal_form(p: Seq<char>) -> Seq<char> {
    let q = squeezed(p, p.len() as int);
    if q.len() > 1 && q.last() == '/' {
        q.drop_last()
    } else {
        q
    }
}

/// The normal forms of `paths`.
pub open spec fn normal_forms(paths: Seq<Seq<char>>) -> Seq<Seq<char>> {
    paths.map_values(|p: Seq<char>| normal_form(p))
}

/// The normal form of `path`, as letters.
pub fn normal_chars(path: &str) -> (normal: Vec<char>)
    ensures
        normal@ == normal_form(path@),
{
    let p = chars_of(path);
    let len = p.len();
    let mut out: Vec<char> = Vec::new();
    let mut i: usize = 0;
    while i < len
        invariant
            i <= len,
            len == p@.len(),
            out@ == squeezed(p@, i as int),
        decreases len - i,
    {
        let c = p[i];
        let doubled = c == '/' && out.len() > 0 && out[out.len() - 1] == '/';
        let dot = c == '.' && i > 0 && p[i - 1] == '/' && (i + 1 == len || p[i + 1] == '/');
        if !doubled && !dot {
            out.push(c);
        }
        i += 1;
    }
    if out.len() > 1 && out[out.len() - 1] == '/' {
        out.pop();
    }
    out
}

/// The normal form of `path`.
pub fn normalize(path: &str) -> (normal: String)
    ensures
        normal@ == normal_form(path@),
{
    let n = normal_chars(path);
    string_of(n.as_slice())
}

} // verus!
