//! What a walk of a directory tree yields, and how a directory is measured.

use vstd::prelude::*;
use vstd::string::*;

verus! {

/// What kind of node an entry is, links followed. What is neither a file nor
/// a directory (a dangling link, a socket) is `Other`.
#[derive(Clone, Copy, Debug, PartialEq, Eq, Structural)]
pub enum EntryKind {
    File,
    Directory,
    Other,
}

/// One node met during a walk.
#[derive(Clone, Debug, PartialEq, Eq)]
pub struct Entry {
    /// How far below the start of the walk the node lies; the start itself
    /// has depth 0.
    pub depth: usize,
    pub kind: EntryKind,
    /// The last component of the node's path.
    pub name: String,
    /// The length in bytes; it counts for files only.
    pub len: u64,
}

/// The name of the directories that are looked for.
pub open spec fn target_name() -> Seq<char> {
    "node_modules"@
}

impl Entry {
    /// A match is a directory whose name is exactly the target name.
    pub open spec fn is_match(self) -> bool {
        self.kind == EntryKind::Directory && self.name@ == target_name()
    }

    /// The bytes that the entry adds to the size of a directory above it: its
    /// length if it is a file, nothing otherwise.
    pub open spec fn file_len(self) -> nat {
        if self.kind == EntryKind::File {
            self.len as nat
        } else {
            0
        }
    }

    /// Tells whether the entry is a match.
    pub fn matches(&self) -> (found: bool)
        ensures
            found == self.is_match(),
    {
        match self.kind {
            EntryKind::Directory => {
                let target = String::from_str("node_modules");
                self.name == target
            },
            _ => false,
        }
    }
}

/// The sum of the lengths of the files among `entries`.
pub open spec fn file_bytes(entries: Seq<Entry>) -> nat
    decreases entries.len(),
{
    if entries.len() == 0 {
        0
    } else {
        file_bytes(entries.drop_last()) + entries.last().file_len()
    }
}

/// The size of a directory, from the entries that a walk of it gave: the
/// lengths of the files among them, added up. Directories and other nodes
/// count nothing. The result is `None` where the sum does not fit in 64 bits.
pub fn get_directory_size(entries: &Vec<Entry>) -> (size: Option<u64>)
    ensures
        size == if file_bytes(entries@) <= u64::MAX {
            Some(file_bytes(entries@) as u64)
        } else {
            None
        },
{
    let mut sum: u128 = 0;
    let mut i: usize = 0;
    while i < entries.len()
        invariant
            i <= entries.len(),
            sum == file_bytes(entries@.take(i as int)),
            sum <= i * u64::MAX,
        decreases entries.len() - i,
    {
        assert(entries@.take(i + 1).drop_last() =~= entries@.take(i as int));
        match entries[i].kind {
            EntryKind::File => {
                sum = sum + entries[i].len as u128;
            },
            _ => {},
        }
        i = i + 1;
    }
    assert(entries@.take(i as int) =~= entries@);
    if sum <= u64::MAX as u128 {
        Some(sum as u64)
    } else {
        None
    }
}

} // verus!
