//! The watcher's rules: which directories to watch for a configuration, which
//! changed paths matter, and when a change asks for reconfiguration.

use vstd::prelude::*;
use crate::config::{include_globs_of, strs, Config};
use crate::paths::{
    file_name_chars, file_name_of, is_under, join_chars, join_of, last_index_of,
    lemma_last_index_of, normal_chars, normal_form, parent_chars, parent_of, relative_chars,
    relative_to, rfind_char, under,
};
use crate::text::{
    chars_of, contains, ends_with, matches_at, occurs_in, same_chars, starts_with, string_of,
};

verus! {

/// Whether `c` opens a glob construct.
pub open spec fn is_glob_meta(c: char) -> bool {
    c == '*' || c == '?' || c == '[' || c == '{'
}

/// The index of the first glob construct at or after `from`, or the length of
/// `p` where there is none.
pub open spec fn first_meta_from(p: Seq<char>, from: int) -> int
    decreases p.len() - from,
{
    if from >= p.len() {
        p.len() as int
    } else if is_glob_meta(p[from]) {
        from
    } else {
        first_meta_from(p, from + 1)
    }
}

/// The longest literal directory prefix of a glob: the components before the
/// first one that holds a glob construct. A pattern without one is kept whole;
/// one that starts with one stands for the current directory.
pub open spec fn watch_dir_of(p: Seq<char>) -> Seq<char> {
    let meta = first_meta_from(p, 0);
    if meta == p.len() {
        if p.len() == 0 {
            seq!['.']
        } else {
            p
        }
    } else {
        let cut = last_index_of(p.subrange(0, meta), '/');
        if cut < 0 {
            seq!['.']
        } else if cut == 0 {
            seq!['/']
        } else {
            p.subrange(0, cut)
        }
    }
}

fn is_meta(c: char) -> (yes: bool)
    ensures
        yes == is_glob_meta(c),
{
    c == '*' || c == '?' || c == '[' || c == '{'
}

fn copy_prefix(p: &[char], len: usize) -> (v: Vec<char>)
    requires
        len <= p@.len(),
    ensures
        v@ == p@.subrange(0, len as int),
{
    let mut v: Vec<char> = Vec::new();
    let mut i: usize = 0;
    while i < len
        invariant
            i <= len <= p@.len(),
            v@ == p@.subrange(0, i as int),
        decreases len - i,
    {
        v.push(p[i]);
        i += 1;
    }
    v
}

fn watch_dir_chars(p: &[char]) -> (dir: Vec<char>)
    ensures
        dir@ == watch_dir_of(p@),
{
    let mut meta: usize = 0;
    while meta < p.len() && !is_meta(p[meta])
        invariant
            meta <= p@.len(),
            first_meta_from(p@, 0) == first_meta_from(p@, meta as int),
        decreases p@.len() - meta,
    {
        meta += 1;
    }
    let mut dot: Vec<char> = Vec::new();
    dot.push('.');
    assert(dot@ == seq!['.']);
    if meta == p.len() {
        if p.len() == 0 {
            dot
        } else {
            let whole = copy_prefix(p, p.len());
            assert(p@.subrange(0, p@.len() as int) == p@);
            whole
        }
    } else {
        let head = copy_prefix(p, meta);
        proof {
            lemma_last_index_of(head@, '/');
        }
        match rfind_char(head.as_slice(), '/') {
            None => dot,
            Some(cut) => {
                if cut == 0 {
                    let mut root: Vec<char> = Vec::new();
                    root.push('/');
                    assert(root@ == seq!['/']);
                    root
                } else {
                    copy_prefix(p, cut)
                }
            },
        }
    }
}

/// The directory to watch for one glob.
pub fn glob_to_watch_dir(pattern: &str) -> (dir: String)
    ensures
        dir@ == watch_dir_of(pattern@),
{
    let p = chars_of(pattern);
    let d = watch_dir_chars(p.as_slice());
    string_of(d.as_slice())
}

/// Whether `dir` is one of the directories that a configuration asks to watch:
/// the literal prefix of one of its include globs, below the project root; the
/// directory of the config file; or the repository's `.git`.
pub open spec fn is_watch_target(
    dir: Seq<char>,
    globs: Seq<Seq<char>>,
    root: Seq<char>,
    config_path: Seq<char>,
) -> bool {
    ||| exists|i: int|
        0 <= i < globs.len() && dir == join_of(normal_form(root), watch_dir_of(#[trigger] globs[i]))
    ||| parent_of(normal_form(config_path)) == Some(dir)
    ||| dir == join_of(normal_form(root), ".git"@)
}

fn push_unique(list: &mut Vec<String>, item: String)
    requires
        strs(old(list)@).no_duplicates(),
    ensures
        strs(final(list)@).no_duplicates(),
        forall|d: Seq<char>|
            strs(final(list)@).contains(d) <==> (strs(old(list)@).contains(d) || d == item@),
        strs(old(list)@).is_prefix_of(strs(final(list)@)),
        strs(final(list)@) == if strs(old(list)@).contains(item@) {
            strs(old(list)@)
        } else {
            strs(old(list)@).push(item@)
        },
{
    let mut i: usize = 0;
    while i < list.len()
        invariant
            i <= list@.len(),
            list@ == old(list)@,
            strs(list@).no_duplicates(),
            forall|k: int| 0 <= k < i ==> strs(list@)[k] != item@,
        decreases list@.len() - i,
    {
        if list[i] == item {
            assert(strs(list@)[i as int] == item@);
            return ;
        }
        i += 1;
    }
    let ghost before = strs(list@);
    list.push(item);
    assert(strs(list@) == before.push(item@));
    assert forall|d: Seq<char>| strs(list@).contains(d) <==> (before.contains(d) || d == item@) by {
        if before.contains(d) {
            let k = choose|k: int| 0 <= k < before.len() && before[k] == d;
            assert(strs(list@)[k] == d);
        }
        if d == item@ {
            assert(strs(list@)[before.len() as int] == d);
        }
    }
}

/// The directory to watch for each of `globs`, below the project root.
pub open spec fn glob_dirs(globs: Seq<Seq<char>>, root: Seq<char>) -> Seq<Seq<char>> {
    Seq::new(globs.len(), |i: int| join_of(root, watch_dir_of(globs[i])))
}

/// The directories that a configuration asks to watch, in the order in which
/// they are asked for: one for each include glob, then the directory of the
/// config file, then the repository's `.git`.
pub open spec fn watch_candidates(
    globs: Seq<Seq<char>>,
    root: Seq<char>,
    config_path: Seq<char>,
) -> Seq<Seq<char>> {
    let config_dir = match parent_of(normal_form(config_path)) {
        Some(dir) => seq![dir],
        None => Seq::empty(),
    };
    glob_dirs(globs, normal_form(root)) + config_dir + seq![join_of(normal_form(root), ".git"@)]
}

/// The different items of `items`, each at the place of its first
/// occurrence.
pub open spec fn once_each(items: Seq<Seq<char>>) -> Seq<Seq<char>>
    decreases items.len(),
{
    if items.len() == 0 {
        Seq::empty()
    } else {
        let before = once_each(items.drop_last());
        if before.contains(items.last()) {
            before
        } else {
            before.push(items.last())
        }
    }
}

/// The files to watch beside the directories: the config file and the
/// project's `.gitignore`.
pub fn watched_files(project_root: &str, config_path: &str) -> (files: Vec<String>)
    ensures
        strs(files@) == seq![config_path@, join_of(project_root@, ".gitignore"@)],
{
    let mut files: Vec<String> = Vec::new();
    files.push(config_path.to_owned());
    files.push(crate::paths::join(project_root, ".gitignore"));
    assert(strs(files@) =~= seq![config_path@, join_of(project_root@, ".gitignore"@)]);
    files
}

/// The directories to watch for `config`: no more than its include globs, the
/// config file and the repository's metadata call for, each of them once, in
/// the order in which the configuration names them.
pub fn watched_dirs(config: &Config, project_root: &str, config_path: &str) -> (dirs: Vec<String>)
    ensures
        strs(dirs@) == once_each(
            watch_candidates(include_globs_of(config.specs@), project_root@, config_path@),
        ),
        strs(dirs@).no_duplicates(),
        forall|d: Seq<char>|
            strs(dirs@).contains(d) <==> is_watch_target(
                d,
                include_globs_of(config.specs@),
                project_root@,
                config_path@,
            ),
{
    let globs = config.include_globs();
    let root = normal_chars(project_root);
    let mut dirs: Vec<String> = Vec::new();
    let mut i: usize = 0;
    while i < globs.len()
        invariant
            i <= globs@.len(),
            root@ == normal_form(project_root@),
            strs(dirs@).no_duplicates(),
            strs(globs@) == include_globs_of(config.specs@),
            strs(dirs@) == once_each(glob_dirs(strs(globs@), root@).subrange(0, i as int)),
            forall|d: Seq<char>|
                strs(dirs@).contains(d) <==> exists|k: int|
                    0 <= k < i && d == join_of(root@, watch_dir_of(#[trigger] strs(globs@)[k])),
        decreases globs@.len() - i,
    {
        proof {
            let all = glob_dirs(strs(globs@), root@);
            assert(all.subrange(0, i + 1).drop_last() == all.subrange(0, i as int));
            assert(all.subrange(0, i + 1).last() == join_of(
                root@,
                watch_dir_of(strs(globs@)[i as int]),
            ));
        }
        let g = chars_of(globs[i].as_str());
        let d = watch_dir_chars(g.as_slice());
        let joined = join_chars(root.as_slice(), d.as_slice());
        let item = string_of(joined.as_slice());
        let ghost before = strs(dirs@);
        assert(strs(globs@)[i as int] == g@);
        push_unique(&mut dirs, item);
        assert forall|d: Seq<char>| strs(dirs@).contains(d) <==> exists|k: int|
            0 <= k < i + 1 && d == join_of(root@, watch_dir_of(#[trigger] strs(globs@)[k])) by {
            if strs(dirs@).contains(d) {
                if before.contains(d) {
                    let k = choose|k: int|
                        0 <= k < i && d == join_of(root@, watch_dir_of(#[trigger] strs(globs@)[k]));
                    assert(0 <= k < i + 1);
                } else {
                    assert(d == join_of(root@, watch_dir_of(strs(globs@)[i as int])));
                }
            }
        }
        i += 1;
    }
    let ghost from_globs = glob_dirs(strs(globs@), root@);
    assert(from_globs.subrange(0, i as int) == from_globs);
    let cfg = normal_chars(config_path);
    let ghost with_config = from_globs;
    match parent_chars(cfg.as_slice()) {
        Some(parent) => {
            proof {
                with_config = from_globs + seq![parent@];
                assert(with_config.drop_last() == from_globs);
            }
            push_unique(&mut dirs, string_of(parent.as_slice()));
        },
        None => {
            assert(from_globs + Seq::<Seq<char>>::empty() == from_globs);
        },
    }
    assert(strs(dirs@) == once_each(with_config));
    let git = chars_of(".git");
    let git_dir = join_chars(root.as_slice(), git.as_slice());
    proof {
        let all = with_config + seq![git_dir@];
        assert(all.drop_last() == with_config);
        assert(all == watch_candidates(include_globs_of(config.specs@), project_root@, config_path@));
    }
    push_unique(&mut dirs, string_of(git_dir.as_slice()));
    dirs
}

/// Whether a file name is one that editors leave behind while saving.
pub open spec fn is_temporary_name(name: Seq<char>) -> bool {
    ||| occurs_in(".tmp."@, name)
    ||| ".tmp"@.is_suffix_of(name)
    ||| "~"@.is_suffix_of(name)
    ||| ".swp"@.is_suffix_of(name)
    ||| ".swo"@.is_suffix_of(name)
    ||| ".swx"@.is_suffix_of(name)
    ||| ".#"@.is_prefix_of(name)
}

/// Whether a path in normal form names an editor's temporary artifact.
pub open spec fn is_temporary_path(path: Seq<char>) -> bool {
    occurs_in(".tmp."@, path) || match file_name_of(path) {
        Some(name) => is_temporary_name(name),
        None => false,
    }
}

/// Whether a path names an editor's temporary artifact.
pub open spec fn is_temporary_artifact(path: Seq<char>) -> bool {
    is_temporary_path(normal_form(path))
}

fn temporary_chars(path: &[char]) -> (yes: bool)
    ensures
        yes == is_temporary_path(path@),
{
    let marker = chars_of(".tmp.");
    if contains(path, marker.as_slice()) {
        return true;
    }
    match file_name_chars(path) {
        None => false,
        Some(name) => {
            let n = name.as_slice();
            contains(n, marker.as_slice()) || ends_with(n, chars_of(".tmp").as_slice()) || ends_with(
                n,
                chars_of("~").as_slice(),
            ) || ends_with(n, chars_of(".swp").as_slice()) || ends_with(
                n,
                chars_of(".swo").as_slice(),
            ) || ends_with(n, chars_of(".swx").as_slice()) || starts_with(
                n,
                chars_of(".#").as_slice(),
            )
        },
    }
}

/// Whether `path` names an editor's temporary artifact.
pub fn is_temporary_edit_artifact(path: &str) -> (yes: bool)
    ensures
        yes == is_temporary_artifact(path@),
{
    let p = normal_chars(path);
    temporary_chars(p.as_slice())
}

/// Whether a change at `path` touches the configuration: the config file or
/// the ignore file themselves, a directory above either, or anything in the
/// config file's directory. The three paths are read in their normal form.
pub open spec fn touches_configuration(
    path: Seq<char>,
    config_path: Seq<char>,
    gitignore_path: Seq<char>,
) -> bool {
    touches_exactly(normal_form(path), normal_form(config_path), normal_form(gitignore_path))
}

/// `touches_configuration` for three paths in normal form.
pub open spec fn touches_exactly(
    path: Seq<char>,
    config_path: Seq<char>,
    gitignore_path: Seq<char>,
) -> bool {
    ||| path == config_path
    ||| path == gitignore_path
    ||| is_under(config_path, path)
    ||| is_under(gitignore_path, path)
    ||| (parent_of(config_path) matches Some(dir) && is_under(path, dir))
}

fn triggers_chars(path: &[char], config_path: &[char], gitignore_path: &[char]) -> (yes: bool)
    ensures
        yes == touches_exactly(path@, config_path@, gitignore_path@),
{
    if same_chars(path, config_path) || same_chars(path, gitignore_path) {
        return true;
    }
    if under(config_path, path) || under(gitignore_path, path) {
        return true;
    }
    match parent_chars(config_path) {
        Some(dir) => under(path, dir.as_slice()),
        None => false,
    }
}

/// Whether a change at `path` asks the watcher to reconfigure.
pub fn path_triggers_reconfigure(path: &str, config_path: &str, gitignore_path: &str) -> (yes: bool)
    ensures
        yes == touches_configuration(path@, config_path@, gitignore_path@),
{
    let p = normal_chars(path);
    let c = normal_chars(config_path);
    let g = normal_chars(gitignore_path);
    triggers_chars(p.as_slice(), c.as_slice(), g.as_slice())
}

/// What the watcher tells the engine about one batch of changes.
#[derive(Debug, Clone)]
pub enum WatcherEvent {
    /// The configuration or the ignore file changed: rebuild everything.
    Reconfigure,
    /// These paths changed.
    FilesChanged(Vec<String>),
}

/// Whether one of `paths` touches the configuration.
pub open spec fn any_touches_configuration(
    paths: Seq<Seq<char>>,
    config_path: Seq<char>,
    gitignore_path: Seq<char>,
) -> bool {
    exists|i: int|
        0 <= i < paths.len() && touches_configuration(#[trigger] paths[i], config_path, gitignore_path)
}

/// Sorts one debounced batch: nothing for an empty batch, `Reconfigure` where
/// a path touches the configuration, else the changed paths as they came.
pub fn classify_batch(paths: Vec<String>, config_path: &str, gitignore_path: &str) -> (event: Option<
    WatcherEvent,
>)
    ensures
        paths@.len() == 0 ==> event.is_none(),
        paths@.len() > 0 && any_touches_configuration(strs(paths@), config_path@, gitignore_path@)
            ==> event == Some(WatcherEvent::Reconfigure),
        paths@.len() > 0 && !any_touches_configuration(strs(paths@), config_path@, gitignore_path@)
            ==> event == Some(WatcherEvent::FilesChanged(paths)),
{
    if paths.len() == 0 {
        return None;
    }
    let c = normal_chars(config_path);
    let g = normal_chars(gitignore_path);
    let mut i: usize = 0;
    while i < paths.len()
        invariant
            i <= paths@.len(),
            c@ == normal_form(config_path@),
            g@ == normal_form(gitignore_path@),
            forall|k: int|
                0 <= k < i ==> !touches_configuration(
                    #[trigger] strs(paths@)[k],
                    config_path@,
                    gitignore_path@,
                ),
        decreases paths@.len() - i,
    {
        let p = normal_chars(paths[i].as_str());
        if triggers_chars(p.as_slice(), c.as_slice(), g.as_slice()) {
            assert(touches_configuration(strs(paths@)[i as int], config_path@, gitignore_path@));
            return Some(WatcherEvent::Reconfigure);
        }
        i += 1;
    }
    Some(WatcherEvent::FilesChanged(paths))
}

/// What the `globset` crate says of `path` under the glob `pattern`: whether
/// it matches, or `None` where the pattern does not parse or no matcher can
/// be built for it.
pub uninterp spec fn glob_verdict(pattern: Seq<char>, path: Seq<char>) -> Option<bool>;

/// `globset::Glob::new`, then `GlobSetBuilder::add` and
/// `GlobSetBuilder::build`, then `GlobSet::is_match`: parses `pattern` with
/// the default options, builds the matcher of that one glob and matches
/// `path` against it. Both steps hand their error back, and either gives
/// `None` here. The verdict depends on the two strings alone.
#[verifier::external_body]
pub(crate) fn glob_match_path(pattern: &str, path: &str) -> (verdict: Option<bool>)
    ensures
        verdict == glob_verdict(pattern@, path@),
{
    let glob = match globset::Glob::new(pattern) {
        Ok(glob) => glob,
        Err(_) => return None,
    };
    match globset::GlobSetBuilder::new().add(glob).build() {
        Ok(set) => Some(set.is_match(path)),
        Err(_) => None,
    }
}

/// The verdicts of each of `patterns` on `path`, in order.
pub open spec fn verdicts_for(patterns: Seq<Seq<char>>, path: Seq<char>) -> Seq<Option<bool>> {
    Seq::new(patterns.len(), |i: int| glob_verdict(patterns[i], path))
}

/// Whether one of the verdicts is a match.
pub open spec fn any_hit(verdicts: Seq<Option<bool>>) -> bool {
    exists|i: int| 0 <= i < verdicts.len() && #[trigger] verdicts[i] == Some(true)
}

/// Whether a change at the project-relative path `rel` calls for a rebuild:
/// it is no temporary artifact, git does not ignore it, no exclude glob
/// matches it, and one of the include globs does, if there are any.
pub open spec fn change_matters(
    rel: Seq<char>,
    git_ignored: bool,
    exclude_verdicts: Seq<Option<bool>>,
    include_verdicts: Seq<Option<bool>>,
) -> bool {
    &&& !is_temporary_artifact(rel)
    &&& !git_ignored
    &&& !any_hit(exclude_verdicts)
    &&& (include_verdicts.len() == 0 || any_hit(include_verdicts))
}

/// Matches `path` against each of `patterns`.
pub fn glob_verdicts(patterns: &Vec<String>, path: &str) -> (verdicts: Vec<Option<bool>>)
    ensures
        verdicts@ == verdicts_for(strs(patterns@), path@),
{
    let mut out: Vec<Option<bool>> = Vec::new();
    let mut i: usize = 0;
    while i < patterns.len()
        invariant
            i <= patterns@.len(),
            out@.len() == i,
            forall|k: int| 0 <= k < i ==> out@[k] == glob_verdict(strs(patterns@)[k], path@),
        decreases patterns@.len() - i,
    {
        out.push(glob_match_path(patterns[i].as_str(), path));
        i += 1;
    }
    assert(out@ == verdicts_for(strs(patterns@), path@));
    out
}

fn has_hit(verdicts: &[Option<bool>]) -> (yes: bool)
    ensures
        yes == any_hit(verdicts@),
{
    let mut i: usize = 0;
    while i < verdicts.len()
        invariant
            i <= verdicts@.len(),
            forall|k: int| 0 <= k < i ==> #[trigger] verdicts@[k] != Some(true),
        decreases verdicts@.len() - i,
    {
        match verdicts[i] {
            Some(true) => {
                return true;
            },
            _ => {},
        }
        i += 1;
    }
    false
}

/// Decides on one changed path from what the matchers said of it.
pub fn change_is_relevant(
    rel: &str,
    git_ignored: bool,
    exclude_verdicts: &[Option<bool>],
    include_verdicts: &[Option<bool>],
) -> (yes: bool)
    ensures
        yes == change_matters(rel@, git_ignored, exclude_verdicts@, include_verdicts@),
{
    if is_temporary_edit_artifact(rel) {
        return false;
    }
    if git_ignored {
        return false;
    }
    if has_hit(exclude_verdicts) {
        return false;
    }
    include_verdicts.len() == 0 || has_hit(include_verdicts)
}


/// Whether one of `patterns` matches `path`.
pub fn matches_any(patterns: &Vec<String>, path: &str) -> (yes: bool)
    ensures
        yes == any_hit(verdicts_for(strs(patterns@), path@)),
{
    let verdicts = glob_verdicts(patterns, path);
    has_hit(verdicts.as_slice())
}

/// Whether the walk takes the file at the project-relative `path`: one of
/// the include globs matches it, and none of the exclude globs does.
pub fn is_selected(path: &str, includes: &Vec<String>, excludes: &Vec<String>) -> (yes: bool)
    ensures
        yes == (any_hit(verdicts_for(strs(includes@), path@)) && !any_hit(
            verdicts_for(strs(excludes@), path@),
        )),
{
    matches_any(includes, path) && !matches_any(excludes, path)
}

/// A path that the watcher saw change, and whether git ignores it.
#[derive(Debug, Clone)]
pub struct ChangedPath {
    pub path: String,
    pub git_ignored: bool,
}

/// The path to rebuild for one change, if it calls for a rebuild: the change
/// lies under the project root and matters there.
pub open spec fn kept_change(
    change: ChangedPath,
    root: Seq<char>,
    includes: Seq<Seq<char>>,
    excludes: Seq<Seq<char>>,
) -> Option<Seq<char>> {
    let root = normal_form(root);
    match relative_to(normal_form(change.path@), root) {
        None => None,
        Some(rel) => if change_matters(
            rel,
            change.git_ignored,
            verdicts_for(excludes, rel),
            verdicts_for(includes, rel),
        ) {
            Some(join_of(root, rel))
        } else {
            None
        },
    }
}

/// The paths to rebuild for a batch of changes, in the order they came.
pub open spec fn relevant_of(
    changes: Seq<ChangedPath>,
    root: Seq<char>,
    includes: Seq<Seq<char>>,
    excludes: Seq<Seq<char>>,
) -> Seq<Seq<char>>
    decreases changes.len(),
{
    if changes.len() == 0 {
        Seq::empty()
    } else {
        let head = relevant_of(changes.drop_last(), root, includes, excludes);
        match kept_change(changes.last(), root, includes, excludes) {
            Some(path) => head.push(path),
            None => head,
        }
    }
}

/// Filters a batch of changed paths down to those that call for a rebuild.
/// An empty result means that the batch can be dropped.
pub fn relevant_changes(
    changes: &Vec<ChangedPath>,
    project_root: &str,
    includes: &Vec<String>,
    excludes: &Vec<String>,
) -> (paths: Vec<String>)
    ensures
        strs(paths@) == relevant_of(changes@, project_root@, strs(includes@), strs(excludes@)),
{
    let root = normal_chars(project_root);
    let mut out: Vec<String> = Vec::new();
    let mut i: usize = 0;
    assert(strs(out@) == Seq::<Seq<char>>::empty());
    while i < changes.len()
        invariant
            i <= changes@.len(),
            root@ == normal_form(project_root@),
            strs(out@) == relevant_of(
                changes@.subrange(0, i as int),
                project_root@,
                strs(includes@),
                strs(excludes@),
            ),
        decreases changes@.len() - i,
    {
        let ghost upto = changes@.subrange(0, i + 1);
        assert(upto.drop_last() == changes@.subrange(0, i as int));
        assert(upto.last() == changes@[i as int]);
        let change = &changes[i];
        let path = normal_chars(change.path.as_str());
        match relative_chars(path.as_slice(), root.as_slice()) {
            None => {},
            Some(rel) => {
                let rel_str = string_of(rel.as_slice());
                let exc = glob_verdicts(excludes, rel_str.as_str());
                let inc = glob_verdicts(includes, rel_str.as_str());
                if change_is_relevant(
                    rel_str.as_str(),
                    change.git_ignored,
                    exc.as_slice(),
                    inc.as_slice(),
                ) {
                    let joined = join_chars(root.as_slice(), rel.as_slice());
                    let ghost before = strs(out@);
                    let item = string_of(joined.as_slice());
                    out.push(item);
                    assert(strs(out@) == before.push(item@));
                }
            },
        }
        i += 1;
    }
    assert(changes@.subrange(0, changes@.len() as int) == changes@);
    out
}

/// The paths of a batch of changes.
pub open spec fn changed_paths(changes: Seq<ChangedPath>) -> Seq<Seq<char>> {
    changes.map_values(|c: ChangedPath| c.path@)
}

/// What a batch of changes comes to.
pub enum BatchOutcome {
    /// Nothing to do.
    Nothing,
    /// Reconfigure and rebuild everything.
    Reconfigure,
    /// Rebuild after the changes at these paths.
    Rebuild(Seq<Seq<char>>),
}

/// What a batch comes to: nothing where it is empty; a reconfiguration
/// where one of its paths touches the configuration; else a rebuild after
/// the changes that matter, or nothing where none does.
pub open spec fn batch_outcome(
    changes: Seq<ChangedPath>,
    root: Seq<char>,
    config_path: Seq<char>,
    gitignore_path: Seq<char>,
    includes: Seq<Seq<char>>,
    excludes: Seq<Seq<char>>,
) -> BatchOutcome {
    if changes.len() == 0 {
        BatchOutcome::Nothing
    } else if any_touches_configuration(changed_paths(changes), config_path, gitignore_path) {
        BatchOutcome::Reconfigure
    } else {
        let relevant = relevant_of(changes, root, includes, excludes);
        if relevant.len() == 0 {
            BatchOutcome::Nothing
        } else {
            BatchOutcome::Rebuild(relevant)
        }
    }
}

/// The outcome that an event stands for.
pub open spec fn outcome_of(event: Option<WatcherEvent>) -> BatchOutcome {
    match event {
        None => BatchOutcome::Nothing,
        Some(WatcherEvent::Reconfigure) => BatchOutcome::Reconfigure,
        Some(WatcherEvent::FilesChanged(paths)) => BatchOutcome::Rebuild(strs(paths@)),
    }
}

/// Takes one debounced batch of changes through the whole pipeline and says
/// what the engine is to do.
pub fn process_batch(
    changes: &Vec<ChangedPath>,
    project_root: &str,
    config_path: &str,
    gitignore_path: &str,
    includes: &Vec<String>,
    excludes: &Vec<String>,
) -> (event: Option<WatcherEvent>)
    ensures
        outcome_of(event) == batch_outcome(
            changes@,
            project_root@,
            config_path@,
            gitignore_path@,
            strs(includes@),
            strs(excludes@),
        ),
{
    if changes.len() == 0 {
        return None;
    }
    let c = normal_chars(config_path);
    let g = normal_chars(gitignore_path);
    let mut i: usize = 0;
    while i < changes.len()
        invariant
            i <= changes@.len(),
            c@ == normal_form(config_path@),
            g@ == normal_form(gitignore_path@),
            forall|k: int|
                0 <= k < i ==> !touches_configuration(
                    #[trigger] changed_paths(changes@)[k],
                    config_path@,
                    gitignore_path@,
                ),
        decreases changes@.len() - i,
    {
        let p = normal_chars(changes[i].path.as_str());
        if triggers_chars(p.as_slice(), c.as_slice(), g.as_slice()) {
            assert(touches_configuration(changed_paths(changes@)[i as int], config_path@, gitignore_path@));
            return Some(WatcherEvent::Reconfigure);
        }
        i += 1;
    }
    let relevant = relevant_changes(changes, project_root, includes, excludes);
    if relevant.len() == 0 {
        None
    } else {
        Some(WatcherEvent::FilesChanged(relevant))
    }
}

/// What the health endpoint reports about the watcher.
#[derive(Debug)]
pub struct WatcherState {
    pub active: bool,
    pub error: Option<String>,
    pub event_count: u64,
    pub last_event_ms: Option<u64>,
    pub watched_dirs: Vec<String>,
}

impl WatcherState {
    /// A watcher that has not started: inactive, without error or events.
    pub fn new() -> (state: Self)
        ensures
            !state.active,
            state.error.is_none(),
            state.event_count == 0,
            state.last_event_ms.is_none(),
            state.watched_dirs@.len() == 0,
    {
        WatcherState {
            active: false,
            error: None,
            event_count: 0,
            last_event_ms: None,
            watched_dirs: Vec::new(),
        }
    }

    /// The backend runs: any earlier failure is forgotten.
    pub fn mark_active(&mut self)
        ensures
            final(self).active,
            final(self).error.is_none(),
            final(self).event_count == old(self).event_count,
            final(self).last_event_ms == old(self).last_event_ms,
            final(self).watched_dirs == old(self).watched_dirs,
    {
        self.active = true;
        self.error = None;
    }

    /// The backend failed with `message`.
    pub fn mark_failed(&mut self, message: String)
        ensures
            !final(self).active,
            final(self).error == Some(message),
            final(self).event_count == old(self).event_count,
            final(self).last_event_ms == old(self).last_event_ms,
            final(self).watched_dirs == old(self).watched_dirs,
    {
        self.active = false;
        self.error = Some(message);
    }

    /// Counts one batch of events, seen at `now_ms`. The count stops at the
    /// largest value it can hold.
    pub fn record_event(&mut self, now_ms: u64)
        ensures
            final(self).event_count == if old(self).event_count < u64::MAX {
                old(self).event_count + 1
            } else {
                u64::MAX as int
            },
            final(self).last_event_ms == Some(now_ms),
            final(self).active == old(self).active,
            final(self).error == old(self).error,
            final(self).watched_dirs == old(self).watched_dirs,
    {
        if self.event_count < u64::MAX {
            self.event_count = self.event_count + 1;
        }
        self.last_event_ms = Some(now_ms);
    }

    /// Takes note of the directories that are watched.
    pub fn set_watched_dirs(&mut self, dirs: Vec<String>)
        ensures
            final(self).watched_dirs == dirs,
            final(self).active == old(self).active,
            final(self).error == old(self).error,
            final(self).event_count == old(self).event_count,
            final(self).last_event_ms == old(self).last_event_ms,
    {
        self.watched_dirs = dirs;
    }

    /// Whether the backend runs.
    pub fn is_active(&self) -> (yes: bool)
        ensures
            yes == self.active,
    {
        self.active
    }

    /// The failure of the backend, if it failed.
    pub fn error(&self) -> (error: Option<String>)
        ensures
            error == self.error,
    {
        match &self.error {
            Some(e) => Some(e.clone()),
            None => None,
        }
    }

    /// The number of batches of events seen.
    pub fn event_count(&self) -> (n: u64)
        ensures
            n == self.event_count,
    {
        self.event_count
    }

    /// When the last batch of events was seen.
    pub fn last_event_ms(&self) -> (at: Option<u64>)
        ensures
            at == self.last_event_ms,
    {
        self.last_event_ms
    }

    /// The directories that are watched.
    pub fn watched_dirs(&self) -> (dirs: &Vec<String>)
        ensures
            dirs == self.watched_dirs,
    {
        &self.watched_dirs
    }
}

} // verus!
