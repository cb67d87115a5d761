//! The engine's bookkeeping: which version a build is published under, when
//! a requested rebuild runs, and which files an editor's buffers replace.

use vstd::prelude::*;
use crate::config::strs;
use crate::text::str_same;

verus! {

/// What the engine has published: the version and the hash of its content.
#[derive(Debug, Clone, Copy, PartialEq, Eq, Structural)]
pub struct Publication {
    pub version: u64,
    pub content_hash: u64,
}

impl Publication {
    /// What is published after a build with the given content hash: the same
    /// where the content is the same, else the next version.
    pub open spec fn after(self, content_hash: u64) -> Publication {
        if content_hash == self.content_hash {
            self
        } else {
            Publication { version: (self.version + 1) as u64, content_hash }
        }
    }

    /// The first publication: version 1.
    pub fn first(content_hash: u64) -> (publication: Self)
        ensures
            publication == (Publication { version: 1, content_hash }),
    {
        Publication { version: 1, content_hash }
    }

    /// Takes note of a finished build. The version advances, by one, exactly
    /// when the content hash differs from the published one; subscribers are
    /// to be notified exactly then.
    pub fn publish(&mut self, content_hash: u64) -> (changed: bool)
        requires
            old(self).version < u64::MAX,
        ensures
            *final(self) == old(self).after(content_hash),
            changed == (content_hash != old(self).content_hash),
            changed ==> final(self).version == old(self).version + 1,
            !changed ==> final(self).version == old(self).version,
    {
        if content_hash == self.content_hash {
            false
        } else {
            self.version = self.version + 1;
            self.content_hash = content_hash;
            true
        }
    }
}

/// What is published after each of a run of builds, starting from `start`.
pub open spec fn history(start: Publication, hashes: Seq<u64>) -> Seq<Publication>
    decreases hashes.len(),
{
    if hashes.len() == 0 {
        Seq::empty()
    } else {
        let before = history(start, hashes.drop_last());
        let last = if before.len() == 0 {
            start
        } else {
            before.last()
        };
        before.push(last.after(hashes.last()))
    }
}

/// The state before the build at `i`.
pub open spec fn state_before(start: Publication, hashes: Seq<u64>, i: int) -> Publication {
    if i <= 0 {
        start
    } else {
        history(start, hashes)[i - 1]
    }
}

/// The history of a run of builds has one entry for each build, and each
/// entry follows from the one before it.
pub proof fn lemma_history(start: Publication, hashes: Seq<u64>)
    ensures
        history(start, hashes).len() == hashes.len(),
        forall|i: int|
            0 <= i < hashes.len() ==> #[trigger] history(start, hashes)[i] == state_before(
                start,
                hashes,
                i,
            ).after(hashes[i]),
    decreases hashes.len(),
{
    if hashes.len() > 0 {
        let shorter = hashes.drop_last();
        lemma_history(start, shorter);
        let before = history(start, shorter);
        let all = history(start, hashes);
        assert forall|i: int| 0 <= i < hashes.len() implies #[trigger] all[i] == state_before(
            start,
            hashes,
            i,
        ).after(hashes[i]) by {
            if i < shorter.len() {
                assert(all[i] == before[i]);
                assert(shorter[i] == hashes[i]);
                if i > 0 {
                    assert(all[i - 1] == before[i - 1]);
                }
                assert(state_before(start, hashes, i) == state_before(start, shorter, i));
            } else {
                if i > 0 {
                    assert(all[i - 1] == before[i - 1]);
                }
            }
        }
    }
}

/// Across a run of builds the published version never falls; between two
/// builds it rises exactly when the content hash changes, and then by one.
/// Two consecutive publications with the same content hash share their
/// version.
pub proof fn law_versions_are_monotonic(start: Publication, hashes: Seq<u64>, i: int, j: int)
    requires
        0 <= i <= j < hashes.len(),
        start.version + hashes.len() <= u64::MAX,
    ensures
        history(start, hashes)[i].version <= history(start, hashes)[j].version,
        history(start, hashes)[j].version <= start.version + j + 1,
        i + 1 == j && history(start, hashes)[i].content_hash == history(start, hashes)[j].content_hash
            ==> history(start, hashes)[i].version == history(start, hashes)[j].version,
        i + 1 == j && history(start, hashes)[i].content_hash != history(start, hashes)[j].content_hash
            ==> history(start, hashes)[j].version == history(start, hashes)[i].version + 1,
    decreases j,
{
    lemma_history(start, hashes);
    let all = history(start, hashes);
    if j > 0 {
        if i < j {
            law_versions_are_monotonic(start, hashes, i, j - 1);
        }
        law_versions_are_monotonic(start, hashes, j - 1, j - 1);
        assert(all[j] == all[j - 1].after(hashes[j]));
    } else {
        assert(all[0] == start.after(hashes[0]));
    }
}

/// One rebuild: of everything, or of the given paths.
#[derive(Debug)]
pub struct RebuildJob {
    /// Rebuild everything. A request without paths asks for this.
    pub everything: bool,
    /// The paths that changed.
    pub paths: Vec<String>,
}

/// The engine's rebuild schedule: whether a rebuild runs, and what was asked
/// for while it ran.
#[derive(Debug)]
pub struct Scheduler {
    /// A rebuild is running.
    pub running: bool,
    /// A request came while the rebuild ran.
    pub dirty: bool,
    /// A request that came while the rebuild ran asked for everything.
    pub pending_everything: bool,
    /// The paths of the requests that came while the rebuild ran.
    pub pending_paths: Vec<String>,
}

impl Scheduler {
    /// A schedule with nothing running and nothing asked for.
    pub fn new() -> (scheduler: Self)
        ensures
            !scheduler.running,
            !scheduler.dirty,
            !scheduler.pending_everything,
            scheduler.pending_paths@.len() == 0,
    {
        Scheduler { running: false, dirty: false, pending_everything: false, pending_paths: Vec::new() }
    }

    /// Asks for a rebuild after `changes`. Where no rebuild runs, one starts
    /// at once with these changes: the job is returned. Where one runs, the
    /// request is kept for the rebuild that follows it, and nothing starts.
    pub fn request(&mut self, changes: Vec<String>) -> (job: Option<RebuildJob>)
        ensures
            final(self).running,
            !old(self).running ==> {
                &&& job.is_some()
                &&& job.unwrap().paths == changes
                &&& job.unwrap().everything == (changes@.len() == 0)
                &&& final(self).dirty == old(self).dirty
                &&& final(self).pending_everything == old(self).pending_everything
                &&& final(self).pending_paths == old(self).pending_paths
            },
            old(self).running ==> {
                &&& job.is_none()
                &&& final(self).dirty
                &&& final(self).pending_everything == (old(self).pending_everything || changes@.len()
                    == 0)
                &&& strs(final(self).pending_paths@) == strs(old(self).pending_paths@) + strs(changes@)
            },
    {
        if !self.running {
            self.running = true;
            let everything = changes.len() == 0;
            Some(RebuildJob { everything, paths: changes })
        } else {
            self.dirty = true;
            if changes.len() == 0 {
                self.pending_everything = true;
            }
            let mut i: usize = 0;
            while i < changes.len()
                invariant
                    i <= changes@.len(),
                    self.running == old(self).running,
                    self.dirty,
                    self.pending_everything == (old(self).pending_everything || changes@.len() == 0),
                    strs(self.pending_paths@) == strs(old(self).pending_paths@) + strs(
                        changes@.subrange(0, i as int),
                    ),
                decreases changes@.len() - i,
            {
                let ghost before = strs(self.pending_paths@);
                self.pending_paths.push(changes[i].clone());
                assert(strs(self.pending_paths@) == before.push(changes@[i as int]@));
                assert(strs(changes@.subrange(0, i + 1)) == strs(changes@.subrange(0, i as int)).push(
                    changes@[i as int]@,
                ));
                i += 1;
            }
            assert(changes@.subrange(0, changes@.len() as int) == changes@);
            None
        }
    }

    /// Takes note that the running rebuild finished. Where a request came
    /// meanwhile, the next rebuild starts at once with all that was asked
    /// for: the job is returned, and the schedule stays running. Else the
    /// schedule is idle again.
    pub fn finished(&mut self) -> (job: Option<RebuildJob>)
        ensures
            !final(self).dirty,
            !final(self).pending_everything,
            final(self).pending_paths@.len() == 0,
            old(self).dirty ==> {
                &&& job.is_some()
                &&& job.unwrap().paths == old(self).pending_paths
                &&& job.unwrap().everything == (old(self).pending_everything || old(self).pending_paths@.len()
                    == 0)
                &&& final(self).running
            },
            !old(self).dirty ==> job.is_none() && !final(self).running,
    {
        let mut paths: Vec<String> = Vec::new();
        std::mem::swap(&mut paths, &mut self.pending_paths);
        let everything = self.pending_everything || paths.len() == 0;
        self.pending_everything = false;
        if self.dirty {
            self.dirty = false;
            self.running = true;
            Some(RebuildJob { everything, paths })
        } else {
            self.running = false;
            None
        }
    }
}

/// The content of an editor's buffer for one file.
#[derive(Debug)]
pub struct Overlay {
    /// The canonical absolute path of the file.
    pub path: String,
    /// What the buffer holds.
    pub content: String,
}

/// The content that the overlays hold for `path`: that of the last overlay
/// for it, if there is one.
pub open spec fn overlay_for(entries: Seq<Overlay>, path: Seq<char>) -> Option<Seq<char>>
    decreases entries.len(),
{
    if entries.len() == 0 {
        None
    } else if entries.last().path@ == path {
        Some(entries.last().content@)
    } else {
        overlay_for(entries.drop_last(), path)
    }
}

/// The overlays without those for `path`.
pub open spec fn without_path(entries: Seq<Overlay>, path: Seq<char>) -> Seq<Overlay>
    decreases entries.len(),
{
    if entries.len() == 0 {
        Seq::empty()
    } else if entries.last().path@ == path {
        without_path(entries.drop_last(), path)
    } else {
        without_path(entries.drop_last(), path).push(entries.last())
    }
}

/// Taking out the overlays for one path leaves none for it, and leaves the
/// others as they were.
pub proof fn lemma_without_path(entries: Seq<Overlay>, path: Seq<char>, other: Seq<char>)
    ensures
        overlay_for(without_path(entries, path), path).is_none(),
        other != path ==> overlay_for(without_path(entries, path), other) == overlay_for(
            entries,
            other,
        ),
        without_path(entries, path).len() <= entries.len(),
    decreases entries.len(),
{
    if entries.len() > 0 {
        lemma_without_path(entries.drop_last(), path, other);
        if entries.last().path@ != path {
            let kept = without_path(entries.drop_last(), path).push(entries.last());
            assert(kept.drop_last() == without_path(entries.drop_last(), path));
            assert(kept.last() == entries.last());
        }
    }
}

/// The editor buffers that stand in for files on disk.
#[derive(Debug)]
pub struct Overlays {
    pub entries: Vec<Overlay>,
}

impl Overlays {
    /// What the overlays hold for `path`.
    pub open spec fn content_of(&self, path: Seq<char>) -> Option<Seq<char>> {
        overlay_for(self.entries@, path)
    }

    /// No overlays.
    pub fn new() -> (overlays: Self)
        ensures
            forall|path: Seq<char>| overlays.content_of(path).is_none(),
    {
        Overlays { entries: Vec::new() }
    }

    fn drop_path(&mut self, path: &str)
        ensures
            final(self).entries@ == without_path(old(self).entries@, path@),
    {
        let mut kept: Vec<Overlay> = Vec::new();
        let mut i: usize = 0;
        while i < self.entries.len()
            invariant
                i <= self.entries@.len(),
                self.entries@ == old(self).entries@,
                kept@ == without_path(self.entries@.subrange(0, i as int), path@),
            decreases self.entries@.len() - i,
        {
            let ghost upto = self.entries@.subrange(0, i + 1);
            assert(upto.drop_last() == self.entries@.subrange(0, i as int));
            assert(upto.last() == self.entries@[i as int]);
            if !str_same(self.entries[i].path.as_str(), path) {
                kept.push(
                    Overlay {
                        path: self.entries[i].path.clone(),
                        content: self.entries[i].content.clone(),
                    },
                );
            }
            i += 1;
        }
        assert(self.entries@.subrange(0, self.entries@.len() as int) == self.entries@);
        self.entries = kept;
    }

    /// An editor opened `path` with `content`: from now on the file reads as
    /// the buffer. Other files read as before.
    pub fn vfs_open(&mut self, path: &str, content: &str)
        ensures
            final(self).content_of(path@) == Some(content@),
            forall|other: Seq<char>|
                other != path@ ==> final(self).content_of(other) == old(self).content_of(other),
    {
        self.drop_path(path);
        let ghost without = self.entries@;
        self.entries.push(Overlay { path: path.to_owned(), content: content.to_owned() });
        proof {
            assert(self.entries@.drop_last() == without);
            assert forall|other: Seq<char>| other != path@ implies final(self).content_of(other) == old(
                self,
            ).content_of(other) by {
                lemma_without_path(old(self).entries@, path@, other);
            }
        }
    }

    /// The buffer for `path` changed to `content`.
    pub fn vfs_change(&mut self, path: &str, content: &str)
        ensures
            final(self).content_of(path@) == Some(content@),
            forall|other: Seq<char>|
                other != path@ ==> final(self).content_of(other) == old(self).content_of(other),
    {
        self.vfs_open(path, content);
    }

    /// The editor closed `path`: the file reads from disk again. Other files
    /// read as before.
    pub fn vfs_close(&mut self, path: &str)
        ensures
            final(self).content_of(path@).is_none(),
            forall|other: Seq<char>|
                other != path@ ==> final(self).content_of(other) == old(self).content_of(other),
    {
        self.drop_path(path);
        proof {
            assert forall|other: Seq<char>| other != path@ implies final(self).content_of(other) == old(
                self,
            ).content_of(other) by {
                lemma_without_path(old(self).entries@, path@, other);
            }
            lemma_without_path(old(self).entries@, path@, path@);
        }
    }

    /// The buffer that stands in for `path`, if one does.
    pub fn get(&self, path: &str) -> (content: Option<&str>)
        ensures
            match content {
                Some(text) => self.content_of(path@) == Some(text@),
                None => self.content_of(path@).is_none(),
            },
    {
        let mut i: usize = self.entries.len();
        assert(self.entries@.subrange(0, self.entries@.len() as int) == self.entries@);
        while i > 0
            invariant
                i <= self.entries@.len(),
                overlay_for(self.entries@, path@) == overlay_for(
                    self.entries@.subrange(0, i as int),
                    path@,
                ),
            decreases i,
        {
            let ghost part = self.entries@.subrange(0, i as int);
            assert(part.last() == self.entries@[i - 1]);
            assert(part.drop_last() == self.entries@.subrange(0, i - 1));
            if str_same(self.entries[i - 1].path.as_str(), path) {
                return Some(self.entries[i - 1].content.as_str());
            }
            i -= 1;
        }
        None
    }

    /// What a rebuild reads for `path`: the buffer where one stands in for
    /// the file, else what is on disk.
    pub fn read<'a>(&'a self, path: &str, on_disk: Option<&'a str>) -> (content: Option<&'a str>)
        ensures
            match self.content_of(path@) {
                Some(text) => content.is_some() && content.unwrap()@ == text,
                None => content == on_disk,
            },
    {
        match self.get(path) {
            Some(text) => Some(text),
            None => on_disk,
        }
    }
}

/// What a subscriber has seen of the engine's publications.
#[derive(Debug, Clone, Copy, PartialEq, Eq, Structural)]
pub struct Subscriber {
    /// The version of the last update that the subscriber acted on.
    pub last_version: Option<u64>,
}

impl Subscriber {
    /// A subscriber that has seen nothing.
    pub fn new() -> (subscriber: Self)
        ensures
            subscriber.last_version.is_none(),
    {
        Subscriber { last_version: None }
    }

    /// Takes an update with the given version: the subscriber acts on it
    /// exactly when it differs from the version it acted on last.
    pub fn accept(&mut self, version: u64) -> (fresh: bool)
        ensures
            fresh == (old(self).last_version != Some(version)),
            final(self).last_version == Some(version),
    {
        match self.last_version {
            Some(last) => {
                if last == version {
                    return false;
                }
            },
            None => {},
        }
        self.last_version = Some(version);
        true
    }
}

/// A channel that keeps only the latest version sent on it.
#[derive(Debug, Clone, Copy, PartialEq, Eq, Structural)]
pub struct LatestVersion {
    pub slot: Option<u64>,
}

impl LatestVersion {
    /// An empty channel.
    pub fn new() -> (channel: Self)
        ensures
            channel.slot.is_none(),
    {
        LatestVersion { slot: None }
    }

    /// Sends a version: it takes the place of one that was not received.
    pub fn send(&mut self, version: u64)
        ensures
            final(self).slot == Some(version),
    {
        self.slot = Some(version);
    }

    /// Receives the latest version, if one was sent since the last receipt.
    pub fn receive(&mut self) -> (version: Option<u64>)
        ensures
            version == old(self).slot,
            final(self).slot.is_none(),
    {
        let version = self.slot;
        self.slot = None;
        version
    }
}

} // verus!
