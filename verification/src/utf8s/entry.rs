//! What a directory listing holds.

use vstd::prelude::*;

verus! {

/// What kind of thing a directory entry is.
#[derive(Clone, Copy, Debug, PartialEq, Eq, Structural)]
pub enum EntryKind {
    /// A regular file.
    File,
    /// A directory.
    Dir,
    /// Anything else, such as a symbolic link or a device.
    Other,
}

/// One child of a directory: its path, its name and its kind.
#[derive(Clone, Debug, PartialEq, Eq)]
pub struct DirEntry {
    /// The path of the child, the directory's path included.
    pub path: String,
    /// The last component of the path; empty where it is not valid text.
    pub name: String,
    /// The kind of the child.
    pub kind: EntryKind,
}

/// A directory entry as a mathematical value.
pub struct Entry {
    /// The path of the child, the directory's path included.
    pub path: Seq<char>,
    /// The last component of the path.
    pub name: Seq<char>,
    /// The kind of the child.
    pub kind: EntryKind,
}

impl View for DirEntry {
    type V = Entry;

    open spec fn view(&self) -> Entry {
        Entry { path: self.path@, name: self.name@, kind: self.kind }
    }
}

/// What reading one directory entry gave.
#[derive(Clone, Debug, PartialEq, Eq)]
pub enum Probe {
    /// The entry could not be read.
    Unreadable,
    /// The entry was read, but its kind could not be determined.
    Unclassified { path: String },
    /// The entry was read and its kind is known.
    Classified { entry: DirEntry },
}

/// The result of reading one directory entry, as a mathematical value.
pub enum Probed {
    /// The entry could not be read.
    Unreadable,
    /// The entry was read, but its kind could not be determined.
    Unclassified { path: Seq<char> },
    /// The entry was read and its kind is known.
    Classified { entry: Entry },
}

impl View for Probe {
    type V = Probed;

    open spec fn view(&self) -> Probed {
        match self {
            Probe::Unreadable => Probed::Unreadable,
            Probe::Unclassified { path } => Probed::Unclassified { path: path@ },
            Probe::Classified { entry } => Probed::Classified { entry: entry@ },
        }
    }
}

/// The entries of a listing: those whose kind is known, in the order in
/// which they were read. The others are left out.
pub open spec fn classified(probes: Seq<Probed>) -> Seq<Entry>
    decreases probes.len(),
{
    if probes.len() == 0 {
        Seq::empty()
    } else {
        let rest = classified(probes.drop_last());
        match probes.last() {
            Probed::Classified { entry } => rest.push(entry),
            _ => rest,
        }
    }
}

/// The views of a list of entries, one by one.
pub open spec fn entries_view(entries: Seq<DirEntry>) -> Seq<Entry> {
    entries.map_values(|e: DirEntry| e@)
}

/// The views of a list of probes, one by one.
pub open spec fn probes_view(probes: Seq<Probe>) -> Seq<Probed> {
    probes.map_values(|p: Probe| p@)
}

impl DirEntry {
    /// A copy of the entry.
    pub fn duplicate(&self) -> (copy: DirEntry)
        ensures
            copy@ == self@,
    {
        DirEntry { path: self.path.clone(), name: self.name.clone(), kind: self.kind }
    }
}

/// Turns what reading a directory gave into its listing. An entry that could
/// not be read, or whose kind could not be determined, is skipped without a
/// word; the rest keep their order.
pub fn read_dir(probes: &Vec<Probe>) -> (entries: Vec<DirEntry>)
    ensures
        entries_view(entries@) == classified(probes_view(probes@)),
{
    let mut entries: Vec<DirEntry> = Vec::new();
    let mut i: usize = 0;
    while i < probes.len()
        invariant
            i <= probes.len(),
            entries_view(entries@) == classified(probes_view(probes@).take(i as int)),
        decreases probes.len() - i,
    {
        assert(probes_view(probes@).take(i + 1).drop_last() =~= probes_view(probes@).take(
            i as int,
        ));
        match &probes[i] {
            Probe::Classified { entry } => {
                entries.push(entry.duplicate());
            },
            _ => {},
        }
        i = i + 1;
    }
    assert(probes_view(probes@).take(i as int) =~= probes_view(probes@));
    entries
}

} // verus!
