//! The list of recently opened scripts, newest first, and the settings that
//! the editor keeps between runs.

use crate::text::str_equals;
use vstd::prelude::*;
use vstd::string::StringExecFns;

verus! {

/// How many recently opened scripts are remembered.
pub const MAX_RECENT_FILES: usize = 20;

/// A shell script that was opened: its file name, its path and its text.
#[derive(Clone, Debug, PartialEq, Eq)]
pub struct BashFile {
    pub name: String,
    pub path: String,
    pub content: String,
}

/// An entry of the stored list: a script, or something else that was found
/// in the store and is kept as it is.
#[derive(Clone, Debug, PartialEq, Eq)]
pub enum RecentEntry {
    /// A script that was opened.
    File(BashFile),
    /// An entry that does not describe a script, as the text it was stored
    /// as.
    Other(String),
}

/// Whether an entry describes a script with the given path.
pub open spec fn entry_has_path(entry: RecentEntry, path: Seq<char>) -> bool {
    match entry {
        RecentEntry::File(file) => file.path@ == path,
        RecentEntry::Other(_) => false,
    }
}

/// The entries that do not describe a script with the given path, in their
/// order.
pub open spec fn without_path(entries: Seq<RecentEntry>, path: Seq<char>) -> Seq<RecentEntry> {
    entries.filter(|e: RecentEntry| !entry_has_path(e, path))
}

/// The first `limit` items of `items`, or all of them if there are fewer.
pub open spec fn capped<T>(items: Seq<T>, limit: int) -> Seq<T> {
    if items.len() > limit {
        items.take(limit)
    } else {
        items
    }
}

/// The list after `file` was opened: `file` in front, then the entries that
/// do not describe a script with its path, in their order, cut to the number
/// of entries that are remembered.
pub open spec fn with_recent(entries: Seq<RecentEntry>, file: BashFile) -> Seq<RecentEntry> {
    capped(
        seq![RecentEntry::File(file)] + without_path(entries, file.path@),
        MAX_RECENT_FILES as int,
    )
}

/// The script that an entry describes, if it describes one.
pub open spec fn file_of(entry: RecentEntry) -> Option<BashFile> {
    match entry {
        RecentEntry::File(file) => Some(file),
        RecentEntry::Other(_) => None,
    }
}

/// The scripts among the entries, in their order.
pub open spec fn files_of(entries: Seq<RecentEntry>) -> Seq<BashFile> {
    entries.filter_map(|e: RecentEntry| file_of(e))
}

/// The scripts of the stored list, newest first. Entries that describe no
/// script are passed over.
pub fn get_recent_files(entries: Vec<RecentEntry>) -> (files: Vec<BashFile>)
    ensures
        files@ == files_of(entries@),
{
    let ghost pick = |e: RecentEntry| file_of(e);
    let mut files: Vec<BashFile> = Vec::new();
    proof {
        assert(entries@.take(0) =~= Seq::<RecentEntry>::empty());
    }
    for entry in it: entries
        invariant
            it.seq() == entries@,
            pick == (|e: RecentEntry| file_of(e)),
            files@ == entries@.take(it.index()).filter_map(pick),
    {
        proof {
            assert(entries@.take(it.index() + 1).drop_last() =~= entries@.take(it.index()));
        }
        match entry {
            RecentEntry::File(file) => {
                files.push(file);
                proof {
                    assert(files@ =~= entries@.take(it.index() + 1).filter_map(pick));
                }
            },
            RecentEntry::Other(_) => {},
        }
    }
    proof {
        assert(entries@.take(entries@.len() as int) =~= entries@);
    }
    files
}

/// Takes every script with the given path out of the list. Entries that
/// describe no script stay.
pub fn remove_recent_file(entries: Vec<RecentEntry>, path: &str) -> (kept: Vec<RecentEntry>)
    ensures
        kept@ == without_path(entries@, path@),
{
    let ghost pred = |e: RecentEntry| !entry_has_path(e, path@);
    let mut kept: Vec<RecentEntry> = Vec::new();
    proof {
        reveal(Seq::filter);
        assert(entries@.take(0) =~= Seq::<RecentEntry>::empty());
    }
    for entry in it: entries
        invariant
            it.seq() == entries@,
            pred == (|e: RecentEntry| !entry_has_path(e, path@)),
            kept@ == entries@.take(it.index()).filter(pred),
    {
        proof {
            reveal(Seq::filter);
            assert(entries@.take(it.index() + 1).drop_last() =~= entries@.take(it.index()));
        }
        let leaves = match &entry {
            RecentEntry::File(file) => str_equals(file.path.as_str(), path),
            RecentEntry::Other(_) => false,
        };
        if !leaves {
            kept.push(entry);
        }
    }
    proof {
        assert(entries@.take(entries@.len() as int) =~= entries@);
    }
    kept
}

/// Puts `file` in front of the list, takes every other script with its path
/// out, and keeps no more than `MAX_RECENT_FILES` entries.
pub fn add_recent_file(entries: Vec<RecentEntry>, file: BashFile) -> (recent: Vec<RecentEntry>)
    ensures
        recent@ == with_recent(entries@, file),
        recent@.len() >= 1,
        recent@[0] == RecentEntry::File(file),
        recent@.len() <= MAX_RECENT_FILES,
{
    let mut recent = remove_recent_file(entries, file.path.as_str());
    recent.insert(0, RecentEntry::File(file));
    proof {
        assert(recent@ =~= seq![RecentEntry::File(file)] + without_path(entries@, file.path@));
    }
    if recent.len() > MAX_RECENT_FILES {
        recent.truncate(MAX_RECENT_FILES);
    }
    recent
}

/// What the editor keeps between runs: the chosen theme, the paths of the
/// scripts in the sidebar, and the path of the script that is open.
#[derive(Clone, Debug, PartialEq, Eq)]
pub struct AppSettings {
    pub theme: String,
    pub recent_files: Vec<String>,
    pub active_file: Option<String>,
}

/// Whether one of `paths` is `path`.
pub open spec fn has_path(paths: Seq<String>, path: Seq<char>) -> bool {
    exists|i: int| 0 <= i < paths.len() && (#[trigger] paths[i])@ == path
}

/// The paths of `paths` that are not `path`, in their order.
pub open spec fn other_paths(paths: Seq<String>, path: Seq<char>) -> Seq<String> {
    paths.filter(|p: String| p@ != path)
}

/// Whether the open script, if there is one, has the given path.
pub open spec fn is_active(active: Option<String>, path: Seq<char>) -> bool {
    match active {
        Some(p) => p@ == path,
        None => false,
    }
}

impl Default for AppSettings {
    /// The light theme, no scripts, nothing open.
    fn default() -> (settings: AppSettings)
        ensures
            settings.theme@ == "light"@,
            settings.recent_files@.len() == 0,
            settings.active_file is None,
    {
        AppSettings { theme: String::from_str("light"), recent_files: Vec::new(), active_file: None }
    }
}

/// Whether one of `paths` is `path`.
pub fn contains_path(paths: &Vec<String>, path: &str) -> (found: bool)
    ensures
        found == has_path(paths@, path@),
{
    let mut i: usize = 0;
    while i < paths.len()
        invariant
            i <= paths.len(),
            forall|k: int| 0 <= k < i ==> (#[trigger] paths@[k])@ != path@,
        decreases paths.len() - i,
    {
        if str_equals(paths[i].as_str(), path) {
            return true;
        }
        i += 1;
    }
    false
}

impl AppSettings {
    /// Adds a script to the sidebar, unless it is there already, and opens
    /// it. Returns whether the sidebar got a new entry.
    pub fn import_file(&mut self, path: String) -> (added: bool)
        ensures
            added == !has_path(old(self).recent_files@, path@),
            added ==> final(self).recent_files@ == old(self).recent_files@.push(path),
            !added ==> final(self).recent_files@ == old(self).recent_files@,
            is_active(final(self).active_file, path@),
            final(self).theme == old(self).theme,
    {
        let added = !contains_path(&self.recent_files, path.as_str());
        if added {
            self.recent_files.push(path.clone());
        }
        self.active_file = Some(path);
        added
    }

    /// Takes a script out of the sidebar, and closes it if it is the open
    /// one.
    pub fn remove_file(&mut self, path: &str)
        ensures
            final(self).recent_files@ == other_paths(old(self).recent_files@, path@),
            is_active(old(self).active_file, path@) ==> final(self).active_file is None,
            !is_active(old(self).active_file, path@) ==> final(self).active_file == old(
                self,
            ).active_file,
            final(self).theme == old(self).theme,
    {
        let ghost pred = |p: String| p@ != path@;
        let ghost before = self.recent_files@;
        let mut kept: Vec<String> = Vec::new();
        let mut i: usize = 0;
        proof {
            reveal(Seq::filter);
            assert(before.take(0) =~= Seq::<String>::empty());
        }
        while i < self.recent_files.len()
            invariant
                i <= self.recent_files.len(),
                self.recent_files@ == before,
                self.active_file == old(self).active_file,
                self.theme == old(self).theme,
                pred == (|p: String| p@ != path@),
                kept@ == before.take(i as int).filter(pred),
            decreases self.recent_files.len() - i,
        {
            proof {
                reveal(Seq::filter);
                assert(before.take(i + 1).drop_last() =~= before.take(i as int));
            }
            if !str_equals(self.recent_files[i].as_str(), path) {
                kept.push(self.recent_files[i].clone());
            }
            i += 1;
        }
        proof {
            assert(before.take(before.len() as int) =~= before);
        }
        self.recent_files = kept;
        let closes = match &self.active_file {
            Some(active) => str_equals(active.as_str(), path),
            None => false,
        };
        if closes {
            self.active_file = None;
        }
    }

    /// Opens a script.
    pub fn select_file(&mut self, path: String)
        ensures
            final(self).active_file == Some(path),
            final(self).recent_files == old(self).recent_files,
            final(self).theme == old(self).theme,
    {
        self.active_file = Some(path);
    }
}

} // verus!
