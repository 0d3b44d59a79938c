//! The run over a tree: which entries are taken, what is reported of each,
//! whether it is removed, and the totals at the end.

use crate::entry::Entry;
use crate::units::{append_decimal, decimal, format_bytes, format_bytes_text};
use vstd::prelude::*;
use vstd::string::*;

verus! {

/// How many matches a run has handled, and the sum of their sizes.
#[derive(Clone, Copy, Debug, PartialEq, Eq, Structural)]
pub struct RunTotals {
    pub count: u64,
    pub total_size: u64,
}

impl RunTotals {
    /// Whether one more match of `size` bytes can be counted without leaving
    /// 64 bits.
    pub open spec fn has_room(self, size: u64) -> bool {
        self.count < u64::MAX && self.total_size + size <= u64::MAX
    }

    /// The totals after one more match of `size` bytes.
    pub open spec fn with_match(self, size: u64) -> RunTotals {
        RunTotals {
            count: (self.count + 1) as u64,
            total_size: (self.total_size + size) as u64,
        }
    }

    /// The totals at the start of a run.
    pub fn new() -> (totals: RunTotals)
        ensures
            totals.count == 0,
            totals.total_size == 0,
    {
        RunTotals { count: 0, total_size: 0 }
    }

    /// Tells whether one more match of `size` bytes can be counted.
    pub fn fits(&self, size: u64) -> (room: bool)
        ensures
            room == self.has_room(size),
    {
        self.count < u64::MAX && size <= u64::MAX - self.total_size
    }

    /// Counts one more match of `size` bytes.
    pub fn add_match(&mut self, size: u64)
        requires
            old(self).has_room(size),
        ensures
            *final(self) == old(self).with_match(size),
            final(self).count == old(self).count + 1,
            final(self).total_size == old(self).total_size + size,
    {
        self.count = self.count + 1;
        self.total_size = self.total_size + size;
    }
}

/// What is to be done about a match.
#[derive(Clone, Debug, PartialEq, Eq)]
pub struct Step {
    /// The words that go in front of the match's path.
    pub heading: String,
    /// Whether the match's directory is now to be removed with all below it.
    pub remove: bool,
}

/// The two lines that close a run, each as a label and the value after it.
#[derive(Clone, Debug, PartialEq, Eq)]
pub struct Summary {
    pub count_label: String,
    pub count: String,
    pub size_label: String,
    pub size: String,
}

/// A run: its mode, fixed from the start, and its totals so far.
#[derive(Clone, Copy, Debug, PartialEq, Eq, Structural)]
pub struct Reclaimer {
    /// In a dry run matches are measured and reported, and nothing is removed.
    pub dry_run: bool,
    pub totals: RunTotals,
}

/// The words in front of a match's path: what happens to the directory, and
/// its size.
pub open spec fn heading_text(dry_run: bool, size: u64) -> Seq<char> {
    (if dry_run {
        "Will delete directory (size: "@
    } else {
        "Deleted directory (size: "@
    }) + format_bytes_text(size as nat) + "): "@
}

/// The label in front of the number of matches.
pub open spec fn count_label_text(dry_run: bool) -> Seq<char> {
    if dry_run {
        "\nTotal `node_modules` directories to be deleted: "@
    } else {
        "\nTotal `node_modules` directories deleted: "@
    }
}

/// The label in front of the sum of the sizes.
pub open spec fn size_label_text(dry_run: bool) -> Seq<char> {
    if dry_run {
        "\nTotal space to be reclaimed: "@
    } else {
        "\nTotal space reclaimed: "@
    }
}

impl Reclaimer {
    /// Whether a run takes an entry: a match below the start of the walk.
    /// The start itself is never taken, whatever its name.
    pub open spec fn selects(entry: Entry) -> bool {
        entry.depth >= 1 && entry.is_match()
    }

    /// Whether this run removes an entry's directory.
    pub open spec fn removes(self, entry: Entry) -> bool {
        !self.dry_run && Self::selects(entry)
    }

    /// The run after it has met `entry`, which measured `size` bytes. Only
    /// an entry that is taken changes the totals; the mode never changes.
    pub open spec fn visited(self, entry: Entry, size: u64) -> Reclaimer {
        if Self::selects(entry) {
            Reclaimer { dry_run: self.dry_run, totals: self.totals.with_match(size) }
        } else {
            self
        }
    }

    /// The run after it has met, in this order, each entry of `walk` with the
    /// size that was measured for it.
    pub open spec fn after(self, walk: Seq<(Entry, u64)>) -> Reclaimer
        decreases walk.len(),
    {
        if walk.len() == 0 {
            self
        } else {
            self.after(walk.drop_last()).visited(walk.last().0, walk.last().1)
        }
    }

    /// A run at its start.
    pub fn new(dry_run: bool) -> (run: Reclaimer)
        ensures
            run.dry_run == dry_run,
            run.totals.count == 0,
            run.totals.total_size == 0,
    {
        Reclaimer { dry_run, totals: RunTotals::new() }
    }

    /// Tells whether a run takes `entry`. Only then does its size have to be
    /// measured.
    pub fn wants(entry: &Entry) -> (taken: bool)
        ensures
            taken == Self::selects(*entry),
    {
        entry.depth >= 1 && entry.matches()
    }

    /// Meets one entry of the walk. `size` is what measuring the entry's
    /// directory gave; it is read only where the entry is taken. For an
    /// entry that is taken the totals advance, in a dry run too, and the
    /// result says what to report and whether to remove the directory. For
    /// any other entry nothing changes and the result is `None`.
    pub fn visit(&mut self, entry: &Entry, size: u64) -> (step: Option<Step>)
        requires
            Self::selects(*entry) ==> old(self).totals.has_room(size),
        ensures
            *final(self) == old(self).visited(*entry, size),
            step.is_some() == Self::selects(*entry),
            step.is_some() ==> step.unwrap().remove == old(self).removes(*entry)
                && step.unwrap().heading@ == heading_text(old(self).dry_run, size),
    {
        if !Self::wants(entry) {
            return None;
        }
        let mut heading = if self.dry_run {
            String::from_str("Will delete directory (size: ")
        } else {
            String::from_str("Deleted directory (size: ")
        };
        let rendered = format_bytes(size);
        heading.append(rendered.as_str());
        heading.append("): ");
        self.totals.add_match(size);
        Some(Step { heading, remove: !self.dry_run })
    }

    /// The closing lines of the run: the number of matches and the sum of
    /// their sizes, worded for the mode.
    pub fn summary(&self) -> (lines: Summary)
        ensures
            lines.count_label@ == count_label_text(self.dry_run),
            lines.count@ == decimal(self.totals.count as nat),
            lines.size_label@ == size_label_text(self.dry_run),
            lines.size@ == format_bytes_text(self.totals.total_size as nat),
    {
        let mut count = String::new();
        append_decimal(&mut count, self.totals.count as u128);
        assert(count@ =~= decimal(self.totals.count as nat));
        let count_label = if self.dry_run {
            String::from_str("\nTotal `node_modules` directories to be deleted: ")
        } else {
            String::from_str("\nTotal `node_modules` directories deleted: ")
        };
        let size_label = if self.dry_run {
            String::from_str("\nTotal space to be reclaimed: ")
        } else {
            String::from_str("\nTotal space reclaimed: ")
        };
        Summary { count_label, count, size_label, size: format_bytes(self.totals.total_size) }
    }
}

/// How many entries of `walk` a run takes.
pub open spec fn taken_count(walk: Seq<(Entry, u64)>) -> nat
    decreases walk.len(),
{
    if walk.len() == 0 {
        0
    } else if Reclaimer::selects(walk.last().0) {
        taken_count(walk.drop_last()) + 1
    } else {
        taken_count(walk.drop_last())
    }
}

/// The sizes of the entries of `walk` that a run takes, added up. An entry
/// that lies below another one that is taken counts in both.
pub open spec fn taken_bytes(walk: Seq<(Entry, u64)>) -> nat
    decreases walk.len(),
{
    if walk.len() == 0 {
        0
    } else if Reclaimer::selects(walk.last().0) {
        taken_bytes(walk.drop_last()) + walk.last().1 as nat
    } else {
        taken_bytes(walk.drop_last())
    }
}

/// In either mode the totals of a run advance by every entry that is taken:
/// the count by their number, the size by the sum of what was measured for
/// each, as long as both stay within 64 bits.
pub proof fn lemma_totals_are_sums(run: Reclaimer, walk: Seq<(Entry, u64)>)
    requires
        run.totals.count + taken_count(walk) <= u64::MAX,
        run.totals.total_size + taken_bytes(walk) <= u64::MAX,
    ensures
        run.after(walk).totals.count == run.totals.count + taken_count(walk),
        run.after(walk).totals.total_size == run.totals.total_size + taken_bytes(walk),
        run.after(walk).dry_run == run.dry_run,
    decreases walk.len(),
{
    if walk.len() > 0 {
        lemma_totals_are_sums(run, walk.drop_last());
    }
}

/// A run can be cut at any point: what it met before neither stops nor
/// changes the handling of what comes after.
pub proof fn lemma_run_in_two_parts(
    run: Reclaimer,
    first: Seq<(Entry, u64)>,
    rest: Seq<(Entry, u64)>,
)
    ensures
        run.after(first + rest) == run.after(first).after(rest),
    decreases rest.len(),
{
    if rest.len() == 0 {
        assert(first + rest =~= first);
    } else {
        lemma_run_in_two_parts(run, first, rest.drop_last());
        assert((first + rest).drop_last() =~= first + rest.drop_last());
        assert((first + rest).last() == rest.last());
    }
}

/// An entry that is not taken can be left out of a walk, as it is when it
/// cannot be read: the run ends as it does without it.
pub proof fn lemma_untaken_entry_is_passed_over(
    run: Reclaimer,
    first: Seq<(Entry, u64)>,
    entry: Entry,
    size: u64,
    rest: Seq<(Entry, u64)>,
)
    requires
        !Reclaimer::selects(entry),
    ensures
        run.after(first.push((entry, size)) + rest) == run.after(first + rest),
{
    lemma_run_in_two_parts(run, first.push((entry, size)), rest);
    lemma_run_in_two_parts(run, first, rest);
    assert(first.push((entry, size)).drop_last() =~= first);
}

/// A walk in which nothing is taken leaves the totals of a fresh run at zero,
/// and no entry of it is removed, in either mode.
pub proof fn lemma_no_match_no_change(dry_run: bool, walk: Seq<(Entry, u64)>)
    requires
        forall|i: int| 0 <= i < walk.len() ==> !Reclaimer::selects(#[trigger] walk[i].0),
    ensures
        (Reclaimer { dry_run, totals: RunTotals { count: 0, total_size: 0 } }).after(walk)
            == (Reclaimer { dry_run, totals: RunTotals { count: 0, total_size: 0 } }),
        forall|i: int|
            0 <= i < walk.len() ==> !(Reclaimer {
                dry_run,
                totals: RunTotals { count: 0, total_size: 0 },
            }).removes(#[trigger] walk[i].0),
    decreases walk.len(),
{
    if walk.len() > 0 {
        lemma_no_match_no_change(dry_run, walk.drop_last());
    }
}

/// A dry run stays a dry run: at whatever point of whatever walk, it removes
/// no entry.
pub proof fn lemma_dry_run_removes_nothing(run: Reclaimer, walk: Seq<(Entry, u64)>)
    requires
        run.dry_run,
    ensures
        run.after(walk).dry_run,
        forall|entry: Entry| !(#[trigger] run.after(walk).removes(entry)),
{
    lemma_mode_is_kept(run, walk);
}

/// The mode of a run is the same after any walk.
pub proof fn lemma_mode_is_kept(run: Reclaimer, walk: Seq<(Entry, u64)>)
    ensures
        run.after(walk).dry_run == run.dry_run,
    decreases walk.len(),
{
    if walk.len() > 0 {
        lemma_mode_is_kept(run, walk.drop_last());
    }
}

/// A walk that holds exactly one entry that is taken, at `at`, brings a fresh
/// run to a count of 1 and to the size measured for that entry. Unless it is
/// a dry run, that entry is removed, and no other.
pub proof fn lemma_single_match(dry_run: bool, walk: Seq<(Entry, u64)>, at: int)
    requires
        0 <= at < walk.len(),
        forall|i: int|
            0 <= i < walk.len() ==> (Reclaimer::selects(#[trigger] walk[i].0) <==> i == at),
    ensures
        (Reclaimer { dry_run, totals: RunTotals { count: 0, total_size: 0 } }).after(
            walk,
        ).totals == (RunTotals { count: 1, total_size: walk[at].1 }),
        forall|i: int|
            0 <= i < walk.len() ==> ((Reclaimer {
                dry_run,
                totals: RunTotals { count: 0, total_size: 0 },
            }).removes(#[trigger] walk[i].0) <==> !dry_run && i == at),
    decreases walk.len(),
{
    let start = Reclaimer { dry_run, totals: RunTotals { count: 0, total_size: 0 } };
    let front = walk.drop_last();
    if at == walk.len() - 1 {
        lemma_no_match_no_change(dry_run, front);
    } else {
        lemma_single_match(dry_run, front, at);
    }
}

} // verus!
