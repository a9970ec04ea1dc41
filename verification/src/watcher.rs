//! When a watched directory is indexed again.
//!
//! Changes come in bursts. The directory is indexed again once no change that matters
//! has come for two seconds.
use vstd::prelude::*;

use crate::crawl;
use crate::crawl::{CrawlStats, FoundFile};
use crate::outside;
use crate::paths;
use crate::text;

verus! {

/// What happened to a file.
#[derive(Clone, Copy, Debug, PartialEq, Eq, Structural)]
pub enum ChangeKind {
    Created,
    Modified,
    Removed,
    /// It was read, or something that is not known.
    Other,
}

/// Whether changes wait to be indexed, and since when it has been quiet. Times are in
/// nanoseconds of a clock that does not go back.
#[derive(Clone, Copy, Debug, PartialEq, Eq, Structural)]
pub struct Debounce {
    pub has_pending: bool,
    pub quiet_since: u128,
}

/// Whether an event of this kind can change the index.
pub fn is_change(kind: ChangeKind) -> (r: bool)
    ensures
        r == (kind != ChangeKind::Other),
{
    match kind {
        ChangeKind::Created => true,
        ChangeKind::Modified => true,
        ChangeKind::Removed => true,
        ChangeKind::Other => false,
    }
}

/// Whether one of some files is indexed.
pub open spec fn any_wanted(files: Seq<FoundFile>) -> bool {
    exists|i: int| 0 <= i < files.len() && crawl::wanted(#[trigger] files[i])
}

/// Whether one of some files is indexed.
pub fn has_wanted(files: &Vec<FoundFile>) -> (r: bool)
    ensures
        r == any_wanted(files@),
{
    let mut i: usize = 0;
    while i < files.len()
        invariant
            i <= files@.len(),
            forall|k: int| 0 <= k < i ==> !crawl::wanted(#[trigger] files@[k]),
        decreases files@.len() - i,
    {
        if crawl::is_wanted(&files[i]) {
            return true;
        }
        i += 1;
    }
    false
}

impl Debounce {
    /// What an event of some files at `now` leads to: it starts the wait anew where one
    /// of the files is indexed.
    pub open spec fn noted(self, files: Seq<FoundFile>, now: u128) -> Debounce {
        if any_wanted(files) {
            Debounce { has_pending: true, quiet_since: now }
        } else {
            self
        }
    }

    /// Whether the directory is indexed again at `now`: something waits, and it has been
    /// quiet for two seconds.
    pub open spec fn due(self, now: u128) -> bool {
        self.has_pending && now >= self.quiet_since + 2_000_000_000
    }

    /// Nothing waits.
    pub fn new(now: u128) -> (r: Debounce)
        ensures
            r == (Debounce { has_pending: false, quiet_since: now }),
    {
        Debounce { has_pending: false, quiet_since: now }
    }

    /// Takes note of an event.
    pub fn note(&mut self, files: &Vec<FoundFile>, now: u128)
        ensures
            *final(self) == old(self).noted(files@, now),
    {
        if has_wanted(files) {
            self.has_pending = true;
            self.quiet_since = now;
        }
    }

    /// Whether the directory is indexed again.
    pub fn is_due(&self, now: u128) -> (r: bool)
        ensures
            r == self.due(now),
    {
        self.has_pending && now >= self.quiet_since && now - self.quiet_since >= 2_000_000_000
    }

    /// Takes note that the directory was indexed again.
    pub fn settle(&mut self)
        ensures
            *final(self) == (Debounce { has_pending: false, ..*old(self) }),
    {
        self.has_pending = false;
    }
}

/// How many files an indexing changed in the index.
pub open spec fn touched(stats: CrawlStats) -> int {
    stats.new_files + stats.changed_files + stats.deleted_files
}

/// What is said when a directory was indexed again.
pub open spec fn reindex_text(time: Seq<char>, catalog: Seq<char>, stats: CrawlStats) -> Seq<char> {
    if touched(stats) > 0 {
        "["@ + time + "] Re-indexed '"@ + catalog + "': "@ + text::decimal(stats.new_files as nat)
            + " new, "@ + text::decimal(stats.changed_files as nat) + " changed, "@ + text::decimal(
            stats.deleted_files as nat,
        ) + " deleted ("@ + text::decimal(stats.chunks_ingested as nat) + " chunks)"@
    } else {
        "["@ + time + "] No indexable changes in '"@ + catalog + "'"@
    }
}

/// What is said when a directory was indexed again.
pub fn reindex_report(time: &str, catalog: &str, stats: &CrawlStats) -> (r: String)
    ensures
        r@ == reindex_text(time@, catalog@, *stats),
{
    let mut r = "[".to_owned();
    r.append(time);
    if stats.new_files > 0 || stats.changed_files > 0 || stats.deleted_files > 0 {
        r.append("] Re-indexed '");
        r.append(catalog);
        r.append("': ");
        r.append(text::number(stats.new_files as u64).as_str());
        r.append(" new, ");
        r.append(text::number(stats.changed_files as u64).as_str());
        r.append(" changed, ");
        r.append(text::number(stats.deleted_files as u64).as_str());
        r.append(" deleted (");
        r.append(text::number(stats.chunks_ingested as u64).as_str());
        r.append(" chunks)");
    } else {
        r.append("] No indexable changes in '");
        r.append(catalog);
        r.append("'");
    }
    r
}

// ---------------------------------------------------------------------------
// Laws
// ---------------------------------------------------------------------------

/// What happens to a watched directory.
pub enum WatchEvent {
    /// Some files changed.
    Changed(Seq<FoundFile>, u128),
    /// It was indexed again.
    Settled,
}

/// Where some events lead.
pub open spec fn watched(d: Debounce, events: Seq<WatchEvent>) -> Debounce
    decreases events.len(),
{
    if events.len() == 0 {
        d
    } else {
        let before = watched(d, events.drop_last());
        match events.last() {
            WatchEvent::Changed(files, now) => before.noted(files, now),
            WatchEvent::Settled => Debounce { has_pending: false, ..before },
        }
    }
}

/// Whether a change of a file that is indexed stands at `i`, and the directory was not
/// indexed again afterwards.
pub open spec fn still_open(events: Seq<WatchEvent>, i: int) -> bool {
    &&& 0 <= i < events.len()
    &&& events[i] matches WatchEvent::Changed(files, now) && any_wanted(files)
    &&& forall|k: int| i < k < events.len() ==> !(#[trigger] events[k] is Settled)
}

/// The directory is indexed again only where a file that is indexed changed since it was
/// last indexed, and only when two seconds have passed since every such change.
pub proof fn law_indexed_again_after_a_quiet_change(
    start: u128,
    events: Seq<WatchEvent>,
    now: u128,
)
    requires
        watched(Debounce { has_pending: false, quiet_since: start }, events).due(now),
        forall|i: int, k: int|
            0 <= i <= k < events.len() ==> ((#[trigger] events[i]) matches WatchEvent::Changed(_, a)
                ==> ((#[trigger] events[k]) matches WatchEvent::Changed(_, b) ==> a <= b)),
    ensures
        exists|i: int| still_open(events, i),
        forall|i: int|
            #![trigger events[i]]
            0 <= i < events.len() ==> (events[i] matches WatchEvent::Changed(files, at) ==> (
            any_wanted(files) ==> now >= at + 2_000_000_000)),
{
    let d = Debounce { has_pending: false, quiet_since: start };
    lemma_pending_is_open(d, events);
    lemma_quiet_since_last(d, events);
}

proof fn lemma_pending_is_open(d: Debounce, events: Seq<WatchEvent>)
    requires
        !d.has_pending,
        watched(d, events).has_pending,
    ensures
        exists|i: int| still_open(events, i),
    decreases events.len(),
{
    if events.len() > 0 {
        let rest = events.drop_last();
        let last = events.len() - 1;
        match events.last() {
            WatchEvent::Changed(files, now) => {
                if any_wanted(files) {
                    assert(still_open(events, last));
                } else {
                    lemma_pending_is_open(d, rest);
                    let i = choose|i: int| still_open(rest, i);
                    assert forall|k: int| i < k < events.len() implies !(
                    #[trigger] events[k] is Settled) by {
                        if k < last {
                            assert(rest[k] == events[k]);
                        }
                    }
                    assert(still_open(events, i));
                }
            },
            WatchEvent::Settled => {},
        }
    }
}

proof fn lemma_quiet_since_last(d: Debounce, events: Seq<WatchEvent>)
    requires
        forall|i: int, k: int|
            0 <= i <= k < events.len() ==> ((#[trigger] events[i]) matches WatchEvent::Changed(_, a)
                ==> ((#[trigger] events[k]) matches WatchEvent::Changed(_, b) ==> a <= b)),
    ensures
        forall|i: int|
            #![trigger events[i]]
            0 <= i < events.len() ==> (events[i] matches WatchEvent::Changed(files, at) ==> (
            any_wanted(files) ==> at <= watched(d, events).quiet_since)),
    decreases events.len(),
{
    if events.len() > 0 {
        let rest = events.drop_last();
        let last = events.len() - 1;
        assert forall|i: int, k: int|
            0 <= i <= k < rest.len() implies ((#[trigger] rest[i]) matches WatchEvent::Changed(_, a)
            ==> ((#[trigger] rest[k]) matches WatchEvent::Changed(_, b) ==> a <= b)) by {
            assert(rest[i] == events[i]);
            assert(rest[k] == events[k]);
        }
        lemma_quiet_since_last(d, rest);
        assert forall|i: int|
            #![trigger events[i]]
            0 <= i < events.len() implies (events[i] matches WatchEvent::Changed(files, at) ==> (
        any_wanted(files) ==> at <= watched(d, events).quiet_since)) by {
            if i < last {
                assert(rest[i] == events[i]);
                assert(events[last] == events.last());
            }
        }
    }
}

/// A change of a file that is indexed does not get lost: whatever happens next, once two
/// seconds have passed since it and since every later such change, the directory is
/// indexed again.
pub proof fn law_change_is_indexed(d: Debounce, events: Seq<WatchEvent>, i: int, now: u128)
    requires
        still_open(events, i),
        forall|k: int|
            #![trigger events[k]]
            i <= k < events.len() ==> (events[k] matches WatchEvent::Changed(files, at) ==> (
            any_wanted(files) ==> now >= at + 2_000_000_000)),
    ensures
        watched(d, events).due(now),
{
    lemma_open_is_pending(d, events, i);
}

proof fn lemma_open_is_pending(d: Debounce, events: Seq<WatchEvent>, i: int)
    requires
        still_open(events, i),
    ensures
        watched(d, events).has_pending,
        exists|k: int|
            #![trigger events[k]]
            i <= k < events.len() && (events[k] matches WatchEvent::Changed(files, at)
                && any_wanted(files) && at == watched(d, events).quiet_since),
    decreases events.len(),
{
    let rest = events.drop_last();
    let last = events.len() - 1;
    assert(events[last] == events.last());
    match events.last() {
        WatchEvent::Changed(files, now) => {
            if !any_wanted(files) {
                assert forall|k: int| i < k < rest.len() implies !(#[trigger] rest[k] is Settled) by {
                    assert(rest[k] == events[k]);
                }
                assert(rest[i] == events[i]);
                lemma_open_is_pending(d, rest, i);
                let k = choose|k: int|
                    #![trigger rest[k]]
                    i <= k < rest.len() && (rest[k] matches WatchEvent::Changed(f, at)
                        && any_wanted(f) && at == watched(d, rest).quiet_since);
                assert(rest[k] == events[k]);
            }
        },
        WatchEvent::Settled => {},
    }
}

/// What is said of an indexing names what became of files in the index, each count by its
/// name; it says that there was nothing to index just where none were new, changed or
/// deleted.
pub proof fn law_reindexing_is_said(time: Seq<char>, catalog: Seq<char>, stats: CrawlStats)
    ensures
        stats.new_files == 0 && stats.changed_files == 0 && stats.deleted_files == 0
            ==> reindex_text(time, catalog, stats) == "["@ + time + "] No indexable changes in '"@
            + catalog + "'"@,
        stats.new_files > 0 || stats.changed_files > 0 || stats.deleted_files > 0 ==> reindex_text(
            time,
            catalog,
            stats,
        ) == "["@ + time + "] Re-indexed '"@ + catalog + "': "@ + text::decimal(
            stats.new_files as nat,
        ) + " new, "@ + text::decimal(stats.changed_files as nat) + " changed, "@ + text::decimal(
            stats.deleted_files as nat,
        ) + " deleted ("@ + text::decimal(stats.chunks_ingested as nat) + " chunks)"@,
{
}

/// A change of files starts the wait anew where one of them is indexed, whichever it is,
/// and changes nothing where none is. What is due stays due as time passes.
pub proof fn law_waiting_is_not_disturbed(
    d: Debounce,
    files: Seq<FoundFile>,
    now: u128,
    later: u128,
)
    requires
        now <= later,
    ensures
        forall|i: int|
            0 <= i < files.len() && !(#[trigger] files[i]).skip && paths::has_text_extension(
                outside::lowercase(files[i].path@),
            ) ==> d.noted(files, now) == (Debounce { has_pending: true, quiet_since: now }),
        (forall|i: int|
            0 <= i < files.len() ==> (#[trigger] files[i]).skip || !paths::has_text_extension(
                outside::lowercase(files[i].path@),
            )) ==> d.noted(files, now) == d,
        d.due(now) ==> d.due(later),
        d.due(now) <==> d.has_pending && now - d.quiet_since >= 2_000_000_000,
{
}

} // verus!
