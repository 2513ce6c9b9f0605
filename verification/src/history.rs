//! Directory history: the most recently visited directories, newest first,
//! each directory at most once, bounded in length.
use std::collections::VecDeque;
use vstd::prelude::*;

use crate::clock::now_secs;
use crate::paths::{join, join_path};
use crate::text::{opt_chars, same_text};

verus! {

/// A history entry as plain values: the directory and when it was visited.
pub type EntryModel = (Seq<char>, u64);

/// One visited directory and the time (seconds since the Unix epoch) of the visit.
pub struct HistoryEntry {
    pub path: String,
    pub timestamp: u64,
}

impl View for HistoryEntry {
    type V = EntryModel;

    open spec fn view(&self) -> EntryModel {
        (self.path@, self.timestamp)
    }
}

/// The views of a sequence of borrowed entries.
pub open spec fn entry_models(es: Seq<&HistoryEntry>) -> Seq<EntryModel> {
    es.map_values(|e: &HistoryEntry| e@)
}

/// The abstract state of a [`History`].
pub struct HistoryModel {
    /// Entries, most recent first.
    pub entries: Seq<EntryModel>,
    /// How many entries a visit keeps at most.
    pub max_entries: nat,
}

/// The directories of a sequence of entries, in order.
pub open spec fn paths_of(es: Seq<EntryModel>) -> Seq<Seq<char>> {
    es.map_values(|e: EntryModel| e.0)
}

/// The entries of `es` whose directory differs from `path`, in their order.
pub open spec fn without_path(es: Seq<EntryModel>, path: Seq<char>) -> Seq<EntryModel>
    decreases es.len(),
{
    if es.len() == 0 {
        es
    } else {
        let rest = without_path(es.drop_last(), path);
        if es.last().0 == path {
            rest
        } else {
            rest.push(es.last())
        }
    }
}

/// The entries after a visit of `path` at time `ts`: the new entry first, then
/// the earlier entries for other directories in their order, cut to `max` entries.
pub open spec fn recorded(es: Seq<EntryModel>, max: nat, path: Seq<char>, ts: u64) -> Seq<
    EntryModel,
> {
    let kept = seq![(path, ts)] + without_path(es, path);
    if kept.len() > max {
        kept.take(max as int)
    } else {
        kept
    }
}

/// A history in the shape that visits keep: within its bound, no directory twice.
pub open spec fn well_formed(h: HistoryModel) -> bool {
    &&& h.entries.len() <= h.max_entries
    &&& paths_of(h.entries).no_duplicates()
}

/// The history that `History::new(max)` makes.
pub open spec fn empty_history(max: nat) -> HistoryModel {
    HistoryModel { entries: Seq::empty(), max_entries: max }
}

/// The ordered, bounded record of visited directories.
pub struct History {
    entries: VecDeque<HistoryEntry>,
    max_entries: usize,
}

impl View for History {
    type V = HistoryModel;

    closed spec fn view(&self) -> HistoryModel {
        HistoryModel {
            entries: self.entries@.map_values(|e: HistoryEntry| e@),
            max_entries: self.max_entries as nat,
        }
    }
}

proof fn lemma_without_path_push(es: Seq<EntryModel>, e: EntryModel, path: Seq<char>)
    ensures
        without_path(es.push(e), path) == if e.0 == path {
            without_path(es, path)
        } else {
            without_path(es, path).push(e)
        },
{
    assert(es.push(e).drop_last() =~= es);
}

/// Every entry that `without_path` keeps comes from `es` and is for another directory.
proof fn lemma_without_path_members(es: Seq<EntryModel>, path: Seq<char>)
    ensures
        without_path(es, path).len() <= es.len(),
        forall|i: int|
            0 <= i < without_path(es, path).len() ==> (#[trigger] without_path(es, path)[i]).0
                != path && es.contains(without_path(es, path)[i]),
    decreases es.len(),
{
    if es.len() > 0 {
        lemma_without_path_members(es.drop_last(), path);
        let rest = without_path(es.drop_last(), path);
        assert forall|i: int| 0 <= i < without_path(es, path).len() implies (#[trigger] without_path(
            es,
            path,
        )[i]).0 != path && es.contains(without_path(es, path)[i]) by {
            if i < rest.len() {
                let j = choose|j: int| 0 <= j < es.drop_last().len() && es.drop_last()[j] == rest[i];
                assert(es[j] == rest[i]);
            } else {
                assert(es[es.len() - 1] == es.last());
            }
        }
    }
}

/// `without_path` keeps distinct directories distinct.
proof fn lemma_without_path_distinct(es: Seq<EntryModel>, path: Seq<char>)
    requires
        paths_of(es).no_duplicates(),
    ensures
        paths_of(without_path(es, path)).no_duplicates(),
    decreases es.len(),
{
    if es.len() > 0 {
        let init = es.drop_last();
        assert(paths_of(init) =~= paths_of(es).drop_last());
        lemma_without_path_distinct(init, path);
        lemma_without_path_members(init, path);
        let rest = without_path(init, path);
        if es.last().0 != path {
            let r = rest.push(es.last());
            assert(paths_of(r) =~= paths_of(rest).push(es.last().0));
            assert forall|i: int, j: int|
                0 <= i < paths_of(r).len() && 0 <= j < paths_of(r).len() && i != j implies paths_of(
                r,
            )[i] != paths_of(r)[j] by {
                if i < rest.len() && j < rest.len() {
                    assert(paths_of(rest)[i] == paths_of(r)[i]);
                    assert(paths_of(rest)[j] == paths_of(r)[j]);
                } else if i < rest.len() || j < rest.len() {
                    let k = if i < rest.len() { i } else { j };
                    let m = choose|m: int| 0 <= m < init.len() && init[m] == rest[k];
                    assert(paths_of(es)[m] == init[m].0);
                    assert(paths_of(es)[es.len() - 1] == es.last().0);
                }
            }
        }
    }
}

/// `without_path` leaves entries for other directories in place.
proof fn lemma_without_path_none(es: Seq<EntryModel>, path: Seq<char>)
    requires
        forall|i: int| 0 <= i < es.len() ==> (#[trigger] es[i]).0 != path,
    ensures
        without_path(es, path) == es,
    decreases es.len(),
{
    if es.len() > 0 {
        lemma_without_path_none(es.drop_last(), path);
        assert(es.drop_last().push(es.last()) =~= es);
    }
}

/// `without_path` of a sequence with one more entry in front.
proof fn lemma_without_path_prepend(x: EntryModel, es: Seq<EntryModel>, path: Seq<char>)
    ensures
        without_path(seq![x] + es, path) == if x.0 == path {
            without_path(es, path)
        } else {
            seq![x] + without_path(es, path)
        },
    decreases es.len(),
{
    if es.len() == 0 {
        let e = Seq::<EntryModel>::empty();
        assert(seq![x] + es =~= seq![x]);
        assert(seq![x].drop_last() =~= e);
        assert(without_path(e, path) == e);
        assert(without_path(es, path) == e);
        assert(e.push(x) =~= seq![x]);
        assert(seq![x] + e =~= seq![x]);
        assert(seq![x].last() == x);
    } else {
        lemma_without_path_prepend(x, es.drop_last(), path);
        assert((seq![x] + es).drop_last() =~= seq![x] + es.drop_last());
        assert((seq![x] + es).last() == es.last());
        let w = without_path(es.drop_last(), path);
        assert(seq![x] + es != Seq::<EntryModel>::empty());
        assert((seq![x] + es).len() > 0);
        if x.0 != path {
            assert((seq![x] + w).push(es.last()) =~= seq![x] + w.push(es.last()));
        }
    }
}

/// A new history is well formed: empty, within its bound.
pub proof fn law_new_history_well_formed(max: nat)
    ensures
        well_formed(empty_history(max)),
        empty_history(max).entries.len() == 0,
{
    assert(paths_of(Seq::<EntryModel>::empty()) =~= Seq::<Seq<char>>::empty());
}

/// After a visit the history holds at most `max_entries` entries; when the
/// bound is not zero the visited directory comes first, with the visit's
/// time, and appears nowhere else; every other entry was there before.
pub proof fn law_visit_moves_to_front(h: HistoryModel, path: Seq<char>, ts: u64)
    ensures
        recorded(h.entries, h.max_entries, path, ts).len() <= h.max_entries,
        h.max_entries > 0 ==> recorded(h.entries, h.max_entries, path, ts)[0] == (path, ts),
        forall|i: int|
            0 < i < recorded(h.entries, h.max_entries, path, ts).len() ==> (#[trigger] recorded(
                h.entries,
                h.max_entries,
                path,
                ts,
            )[i]).0 != path && h.entries.contains(recorded(h.entries, h.max_entries, path, ts)[i]),
{
    lemma_without_path_members(h.entries, path);
    let w = without_path(h.entries, path);
    let r = recorded(h.entries, h.max_entries, path, ts);
    assert forall|i: int| 0 < i < r.len() implies (#[trigger] r[i]).0 != path && h.entries.contains(
        r[i],
    ) by {
        assert(r[i] == w[i - 1]);
    }
}

/// A visit keeps a well-formed history well formed.
pub proof fn law_visit_preserves_well_formed(h: HistoryModel, path: Seq<char>, ts: u64)
    requires
        well_formed(h),
    ensures
        well_formed(
            HistoryModel {
                entries: recorded(h.entries, h.max_entries, path, ts),
                max_entries: h.max_entries,
            },
        ),
{
    lemma_without_path_members(h.entries, path);
    lemma_without_path_distinct(h.entries, path);
    let w = without_path(h.entries, path);
    let full = seq![(path, ts)] + w;
    let r = recorded(h.entries, h.max_entries, path, ts);
    assert forall|i: int, j: int|
        0 <= i < paths_of(r).len() && 0 <= j < paths_of(r).len() && i != j implies paths_of(r)[i]
        != paths_of(r)[j] by {
        assert(paths_of(r)[i] == full[i].0);
        assert(paths_of(r)[j] == full[j].0);
        if i > 0 && j > 0 {
            assert(paths_of(w)[i - 1] == w[i - 1].0);
            assert(paths_of(w)[j - 1] == w[j - 1].0);
        } else if i > 0 {
            assert(full[i] == w[i - 1]);
        } else {
            assert(full[j] == w[j - 1]);
        }
    }
}

/// Visiting the same directory twice in a row leaves the same entries as
/// visiting it once, at the later time.
pub proof fn law_revisit_is_one_visit(h: HistoryModel, path: Seq<char>, t1: u64, t2: u64)
    ensures
        recorded(recorded(h.entries, h.max_entries, path, t1), h.max_entries, path, t2)
            == recorded(h.entries, h.max_entries, path, t2),
{
    let m = h.max_entries;
    let w = without_path(h.entries, path);
    lemma_without_path_members(h.entries, path);
    let r1 = recorded(h.entries, m, path, t1);
    let lhs = recorded(r1, m, path, t2);
    let rhs = recorded(h.entries, m, path, t2);
    if m == 0 {
        assert(r1 =~= Seq::<EntryModel>::empty());
        assert(lhs =~= rhs);
    } else {
        let j: int = if w.len() + 1 > m { m - 1 } else { w.len() as int };
        assert(r1 =~= seq![(path, t1)] + w.take(j));
        lemma_without_path_prepend((path, t1), w.take(j), path);
        assert forall|i: int| 0 <= i < w.take(j).len() implies (#[trigger] w.take(j)[i]).0
            != path by {
            assert(w.take(j)[i] == w[i]);
        }
        lemma_without_path_none(w.take(j), path);
        assert(lhs =~= seq![(path, t2)] + w.take(j));
        assert(rhs =~= seq![(path, t2)] + w.take(j));
    }
}

impl History {
    /// An empty history that keeps at most `max_entries` entries.
    pub fn new(max_entries: usize) -> (h: History)
        ensures
            h@ == empty_history(max_entries as nat),
    {
        let h = History { entries: VecDeque::with_capacity(max_entries), max_entries };
        assert(h@.entries =~= Seq::<EntryModel>::empty());
        h
    }

    /// A history holding `entries` (most recent first) and the bound
    /// `max_entries`, as stored on disk; neither is checked.
    pub fn from_parts(entries: Vec<HistoryEntry>, max_entries: usize) -> (h: History)
        ensures
            h@.entries == entries@.map_values(|e: HistoryEntry| e@),
            h@.max_entries == max_entries,
    {
        let mut q: VecDeque<HistoryEntry> = VecDeque::new();
        let mut rest = entries;
        let ghost all = rest@;
        assert(all.skip(all.len() as int) =~= q@);
        while rest.len() > 0
            invariant
                rest@ == all.take(rest@.len() as int),
                q@ == all.skip(rest@.len() as int),
                rest@.len() <= all.len(),
            decreases rest@.len(),
        {
            let e = rest.pop().unwrap();
            q.push_front(e);
            assert(rest@ =~= all.take(rest@.len() as int));
            assert(q@ =~= all.skip(rest@.len() as int));
        }
        assert(q@ =~= all);
        let h = History { entries: q, max_entries };
        assert(h@.entries =~= all.map_values(|e: HistoryEntry| e@));
        h
    }

    /// Records a visit of `path` at `timestamp` (seconds since the Unix
    /// epoch): the new entry goes first, an earlier entry for the same
    /// directory is dropped, and the oldest entries beyond the bound are dropped.
    pub fn add_entry_at(&mut self, path: String, timestamp: u64)
        ensures
            final(self)@.max_entries == old(self)@.max_entries,
            final(self)@.entries == recorded(
                old(self)@.entries,
                old(self)@.max_entries,
                path@,
                timestamp,
            ),
    {
        let ghost old_entries = self@.entries;
        let ghost old_seq = self.entries@;
        let mut kept: VecDeque<HistoryEntry> = VecDeque::new();
        let ghost mut consumed: Seq<HistoryEntry> = Seq::empty();
        assert(old_seq =~= consumed + self.entries@);
        while self.entries.len() > 0
            invariant
                old_seq == consumed + self.entries@,
                self.max_entries == old(self).max_entries,
                old_entries == old_seq.map_values(|e: HistoryEntry| e@),
                kept@.map_values(|e: HistoryEntry| e@) == without_path(
                    consumed.map_values(|e: HistoryEntry| e@),
                    path@,
                ),
            decreases self.entries@.len(),
        {
            let e = self.entries.pop_front().unwrap();
            let ghost before = kept@.map_values(|x: HistoryEntry| x@);
            proof {
                lemma_without_path_push(consumed.map_values(|x: HistoryEntry| x@), e@, path@);
                assert(consumed.push(e).map_values(|x: HistoryEntry| x@) =~= consumed.map_values(
                    |x: HistoryEntry| x@,
                ).push(e@));
                consumed = consumed.push(e);
            }
            if !same_text(e.path.as_str(), path.as_str()) {
                kept.push_back(e);
                assert(kept@.map_values(|x: HistoryEntry| x@) =~= before.push(e@));
            }
            assert(old_seq =~= consumed + self.entries@);
        }
        assert(consumed =~= old_seq);
        let ghost full = seq![(path@, timestamp)] + without_path(old_entries, path@);
        kept.push_front(HistoryEntry { path, timestamp });
        assert(kept@.map_values(|x: HistoryEntry| x@) =~= full);
        self.entries = kept;
        assert(self.entries@.map_values(|x: HistoryEntry| x@) =~= full.take(full.len() as int));
        while self.entries.len() > self.max_entries
            invariant
                self.entries@.len() <= full.len(),
                self.entries@.len() == full.len() || self.entries@.len() >= self.max_entries,
                self.entries@.map_values(|x: HistoryEntry| x@) == full.take(
                    self.entries@.len() as int,
                ),
                self.max_entries == old(self).max_entries,
            decreases self.entries@.len(),
        {
            self.entries.pop_back();
            assert(self.entries@.map_values(|x: HistoryEntry| x@) =~= full.take(
                self.entries@.len() as int,
            ));
        }
        assert(full.take(full.len() as int) =~= full);
    }

    /// Records a visit of `path` now.
    ///
    /// The timestamp is the current time, read from the system clock; which
    /// value that is depends on the clock and is not stated.
    pub fn add_entry(&mut self, path: String)
        ensures
            final(self)@.max_entries == old(self)@.max_entries,
            exists|t: u64|
                final(self)@.entries == #[trigger] recorded(
                    old(self)@.entries,
                    old(self)@.max_entries,
                    path@,
                    t,
                ),
    {
        let timestamp = now_secs();
        self.add_entry_at(path, timestamp);
    }

    /// The entries, most recent first.
    pub fn get_entries(&self) -> (r: Vec<&HistoryEntry>)
        ensures
            entry_models(r@) == self@.entries,
    {
        let mut r: Vec<&HistoryEntry> = Vec::new();
        let n = self.entries.len();
        let mut i: usize = 0;
        while i < n
            invariant
                i <= n == self.entries@.len(),
                entry_models(r@) == self@.entries.take(i as int),
            decreases n - i,
        {
            let ghost before = r@.map_values(|e: &HistoryEntry| e@);
            r.push(&self.entries[i]);
            assert(r@.map_values(|e: &HistoryEntry| e@) =~= before.push(self@.entries[i as int]));
            assert(self@.entries.take(i + 1) =~= self@.entries.take(i as int).push(
                self@.entries[i as int],
            ));
            i = i + 1;
        }
        assert(self@.entries.take(n as int) =~= self@.entries);
        r
    }

    /// Whether there are no entries.
    pub fn is_empty(&self) -> (r: bool)
        ensures
            r == (self@.entries.len() == 0),
    {
        self.entries.len() == 0
    }

    /// The number of entries.
    pub fn len(&self) -> (r: usize)
        ensures
            r == self@.entries.len(),
    {
        self.entries.len()
    }

    /// The bound on the number of entries that a visit keeps.
    pub fn max_entries(&self) -> (r: usize)
        ensures
            r == self@.max_entries,
    {
        self.max_entries
    }
}

/// How many entries the history file keeps.
pub const HISTORY_LIMIT: usize = 10;

/// The name of the history file inside the configuration directory.
pub open spec fn history_file_name() -> Seq<char> {
    ".powder.history"@
}

/// The history file for a configuration directory.
pub open spec fn history_file_in(config_dir: Seq<char>) -> Seq<char> {
    join_path(config_dir, history_file_name())
}

/// The path of the history file inside `config_dir`.
pub fn history_file_path(config_dir: &str) -> (r: String)
    ensures
        r@ == history_file_in(config_dir@),
{
    join(config_dir, ".powder.history")
}

/// The configuration directory chosen from the user's home directory and the
/// platform's configuration directory: the home directory when there is
/// one, else `powder` inside the configuration directory, else none.
pub open spec fn chosen_config_dir(home: Option<Seq<char>>, config: Option<Seq<char>>) -> Option<
    Seq<char>,
> {
    match home {
        Some(h) => Some(h),
        None => match config {
            Some(c) => Some(join_path(c, "powder"@)),
            None => None,
        },
    }
}

/// Chooses the configuration directory from the home directory and the
/// platform's configuration directory (see [`chosen_config_dir`]).
pub fn config_dir_from(home: Option<String>, config: Option<String>) -> (r: Option<String>)
    ensures
        opt_chars(r) == chosen_config_dir(opt_chars(home), opt_chars(config)),
{
    match home {
        Some(h) => Some(h),
        None => match config {
            Some(c) => Some(join(c.as_str(), "powder")),
            None => None,
        },
    }
}

/// The user's home directory, from `dirs::home_dir`, as a (lossy) string.
/// It depends on the environment and the user database, so nothing is stated of it.
#[verifier::external_body]
pub(crate) fn home_dir() -> Option<String> {
    match dirs::home_dir() {
        Some(p) => Some(p.to_string_lossy().into_owned()),
        None => None,
    }
}

/// The platform's configuration directory, from `dirs::config_dir`, as a
/// (lossy) string. It depends on the environment, so nothing is stated of it.
#[verifier::external_body]
pub(crate) fn config_dir() -> Option<String> {
    match dirs::config_dir() {
        Some(p) => Some(p.to_string_lossy().into_owned()),
        None => None,
    }
}

/// The configuration directory that the environment gives (see
/// [`config_dir_from`]), or `None` when it gives neither a home directory nor
/// a configuration directory. The platform's configuration directory is only
/// asked for when there is no home directory.
///
/// Both directories come from the environment, so which one is returned is
/// not stated; the choice between them is [`config_dir_from`]'s.
pub fn locate_config_dir() -> Option<String> {
    let home = home_dir();
    match home {
        Some(h) => {
            let r = config_dir_from(Some(h), None);
            r
        },
        None => {
            let config = config_dir();
            config_dir_from(None, config)
        },
    }
}

/// The abstract state of a [`HistoryManager`].
pub struct ManagerModel {
    pub history: HistoryModel,
    pub history_file: Seq<char>,
}

/// A history together with the file it is kept in.
pub struct HistoryManager {
    history: History,
    history_file: String,
}

impl View for HistoryManager {
    type V = ManagerModel;

    closed spec fn view(&self) -> ManagerModel {
        ManagerModel { history: self.history@, history_file: self.history_file@ }
    }
}

impl HistoryManager {
    /// The manager for the history file in `config_dir`, holding `stored`,
    /// the history read from that file, or an empty history bounded by
    /// [`HISTORY_LIMIT`] when there was no file.
    pub fn new(config_dir: &str, stored: Option<History>) -> (m: HistoryManager)
        ensures
            m@.history_file == history_file_in(config_dir@),
            m@.history == match stored {
                Some(h) => h@,
                None => empty_history(HISTORY_LIMIT as nat),
            },
    {
        let history_file = history_file_path(config_dir);
        let history = match stored {
            Some(h) => h,
            None => History::new(HISTORY_LIMIT),
        };
        HistoryManager { history, history_file }
    }

    /// Records a visit of `path` now in the history (see [`History::add_entry`]).
    pub fn add_current_directory(&mut self, path: String)
        ensures
            final(self)@.history_file == old(self)@.history_file,
            final(self)@.history.max_entries == old(self)@.history.max_entries,
            exists|t: u64|
                final(self)@.history.entries == #[trigger] recorded(
                    old(self)@.history.entries,
                    old(self)@.history.max_entries,
                    path@,
                    t,
                ),
    {
        self.history.add_entry(path);
    }

    /// The entries, most recent first.
    pub fn get_history(&self) -> (r: Vec<&HistoryEntry>)
        ensures
            entry_models(r@) == self@.history.entries,
    {
        self.history.get_entries()
    }

    /// The history.
    pub fn history(&self) -> (r: &History)
        ensures
            r@ == self@.history,
    {
        &self.history
    }

    /// The path of the history file.
    pub fn history_file(&self) -> (r: &str)
        ensures
            r@ == self@.history_file,
    {
        self.history_file.as_str()
    }
}

// ---------------------------------------------------------------------------
// Runs of visits

/// The history after visiting each directory of `vs`, in order, at its time.
pub open spec fn visit_all(h: HistoryModel, vs: Seq<EntryModel>) -> HistoryModel
    decreases vs.len(),
{
    if vs.len() == 0 {
        h
    } else {
        let prev = visit_all(h, vs.drop_last());
        HistoryModel {
            entries: recorded(prev.entries, prev.max_entries, vs.last().0, vs.last().1),
            max_entries: prev.max_entries,
        }
    }
}

/// `ps` without the occurrences of `p`.
pub open spec fn drop_all(ps: Seq<Seq<char>>, p: Seq<char>) -> Seq<Seq<char>>
    decreases ps.len(),
{
    if ps.len() == 0 {
        ps
    } else if ps.last() == p {
        drop_all(ps.drop_last(), p)
    } else {
        drop_all(ps.drop_last(), p).push(ps.last())
    }
}

/// The distinct directories of `ps` ordered by their last occurrence, most
/// recent first.
pub open spec fn recent_first(ps: Seq<Seq<char>>) -> Seq<Seq<char>>
    decreases ps.len(),
{
    if ps.len() == 0 {
        ps
    } else {
        seq![ps.last()] + drop_all(recent_first(ps.drop_last()), ps.last())
    }
}

/// `s` cut to its first `n` elements.
pub open spec fn cut<A>(s: Seq<A>, n: nat) -> Seq<A> {
    if s.len() > n {
        s.take(n as int)
    } else {
        s
    }
}

proof fn lemma_paths_without(es: Seq<EntryModel>, p: Seq<char>)
    ensures
        paths_of(without_path(es, p)) == drop_all(paths_of(es), p),
    decreases es.len(),
{
    if es.len() > 0 {
        lemma_paths_without(es.drop_last(), p);
        assert(paths_of(es).drop_last() =~= paths_of(es.drop_last()));
        assert(paths_of(es).last() == es.last().0);
        let w = without_path(es.drop_last(), p);
        assert(paths_of(w.push(es.last())) =~= paths_of(w).push(es.last().0));
    } else {
        assert(paths_of(es) =~= Seq::<Seq<char>>::empty());
    }
}

proof fn lemma_paths_recorded(es: Seq<EntryModel>, n: nat, p: Seq<char>, t: u64)
    ensures
        paths_of(recorded(es, n, p, t)) == cut(seq![p] + drop_all(paths_of(es), p), n),
{
    lemma_paths_without(es, p);
    let kept = seq![(p, t)] + without_path(es, p);
    assert(paths_of(kept) =~= seq![p] + paths_of(without_path(es, p)));
    if kept.len() > n {
        assert(paths_of(kept.take(n as int)) =~= paths_of(kept).take(n as int));
    }
}

proof fn lemma_drop_all_concat(a: Seq<Seq<char>>, b: Seq<Seq<char>>, p: Seq<char>)
    ensures
        drop_all(a + b, p) == drop_all(a, p) + drop_all(b, p),
    decreases b.len(),
{
    if b.len() == 0 {
        assert(a + b =~= a);
        assert(drop_all(a, p) + drop_all(b, p) =~= drop_all(a, p));
    } else {
        lemma_drop_all_concat(a, b.drop_last(), p);
        assert((a + b).drop_last() =~= a + b.drop_last());
        assert((a + b).last() == b.last());
        if b.last() != p {
            assert(drop_all(a, p) + drop_all(b.drop_last(), p).push(b.last()) =~= (drop_all(a, p)
                + drop_all(b.drop_last(), p)).push(b.last()));
        }
    }
}

proof fn lemma_drop_all_absent(s: Seq<Seq<char>>, p: Seq<char>)
    requires
        !s.contains(p),
    ensures
        drop_all(s, p) == s,
    decreases s.len(),
{
    if s.len() > 0 {
        assert(s[s.len() - 1] == s.last());
        assert(!s.drop_last().contains(p)) by {
            if s.drop_last().contains(p) {
                let k = choose|k: int| 0 <= k < s.drop_last().len() && s.drop_last()[k] == p;
                assert(s[k] == p);
            }
        }
        lemma_drop_all_absent(s.drop_last(), p);
        assert(s.drop_last().push(s.last()) =~= s);
    }
}

proof fn lemma_drop_all_members(s: Seq<Seq<char>>, p: Seq<char>)
    ensures
        drop_all(s, p).len() <= s.len(),
        forall|i: int|
            0 <= i < drop_all(s, p).len() ==> #[trigger] drop_all(s, p)[i] != p && s.contains(
                drop_all(s, p)[i],
            ),
    decreases s.len(),
{
    if s.len() > 0 {
        lemma_drop_all_members(s.drop_last(), p);
        let rest = drop_all(s.drop_last(), p);
        assert forall|i: int| 0 <= i < drop_all(s, p).len() implies #[trigger] drop_all(s, p)[i]
            != p && s.contains(drop_all(s, p)[i]) by {
            if i < rest.len() {
                let k = choose|k: int| 0 <= k < s.drop_last().len() && s.drop_last()[k] == rest[i];
                assert(s[k] == rest[i]);
            } else {
                assert(s[s.len() - 1] == s.last());
            }
        }
    }
}

proof fn lemma_drop_all_distinct(s: Seq<Seq<char>>, p: Seq<char>)
    requires
        s.no_duplicates(),
    ensures
        drop_all(s, p).no_duplicates(),
        drop_all(s, p).len() + 1 >= s.len(),
    decreases s.len(),
{
    if s.len() > 0 {
        let init = s.drop_last();
        assert(init.no_duplicates());
        lemma_drop_all_distinct(init, p);
        lemma_drop_all_members(init, p);
        let rest = drop_all(init, p);
        if s.last() == p {
            assert(!init.contains(p)) by {
                if init.contains(p) {
                    let k = choose|k: int| 0 <= k < init.len() && init[k] == p;
                    assert(s[k] == s[s.len() - 1]);
                }
            }
            lemma_drop_all_absent(init, p);
        } else {
            let r = rest.push(s.last());
            assert forall|i: int, j: int| 0 <= i < r.len() && 0 <= j < r.len() && i != j implies r[i]
                != r[j] by {
                if i < rest.len() && j < rest.len() {
                } else if i < rest.len() || j < rest.len() {
                    let k = if i < rest.len() {
                        i
                    } else {
                        j
                    };
                    let m = choose|m: int| 0 <= m < init.len() && init[m] == rest[k];
                    assert(s[m] == init[m]);
                    assert(s[s.len() - 1] == s.last());
                }
            }
        }
    }
}

proof fn lemma_recent_first_distinct(ps: Seq<Seq<char>>)
    ensures
        recent_first(ps).no_duplicates(),
    decreases ps.len(),
{
    if ps.len() > 0 {
        let p = ps.last();
        let r = recent_first(ps.drop_last());
        lemma_recent_first_distinct(ps.drop_last());
        lemma_drop_all_distinct(r, p);
        lemma_drop_all_members(r, p);
        let d = drop_all(r, p);
        let x = seq![p] + d;
        assert forall|i: int, j: int| 0 <= i < x.len() && 0 <= j < x.len() && i != j implies x[i]
            != x[j] by {
            if i > 0 && j > 0 {
                assert(x[i] == d[i - 1] && x[j] == d[j - 1]);
            } else if i > 0 {
                assert(x[i] == d[i - 1]);
            } else {
                assert(x[j] == d[j - 1]);
            }
        }
    }
}

/// Cutting before a visit changes nothing of the cut after it.
proof fn lemma_cut_before_visit(r: Seq<Seq<char>>, p: Seq<char>, n: nat)
    requires
        r.no_duplicates(),
    ensures
        cut(seq![p] + drop_all(cut(r, n), p), n) == cut(seq![p] + drop_all(r, p), n),
{
    if r.len() > n {
        if n == 0 {
            assert(cut(seq![p] + drop_all(cut(r, n), p), n) =~= Seq::<Seq<char>>::empty());
            assert(cut(seq![p] + drop_all(r, p), n) =~= Seq::<Seq<char>>::empty());
        } else {
            let a = r.take(n as int);
            let b = r.skip(n as int);
            assert(r =~= a + b);
            lemma_drop_all_concat(a, b, p);
            assert(a.no_duplicates());
            lemma_drop_all_distinct(a, p);
            let x = seq![p] + drop_all(a, p);
            let z = drop_all(b, p);
            assert(seq![p] + drop_all(r, p) =~= x + z);
            assert(x.len() >= n);
            assert((x + z).len() >= n);
            assert((x + z).take(n as int) =~= x.take(n as int));
            assert(cut(x, n) == x.take(n as int));
            assert(cut(x + z, n) == (x + z).take(n as int));
        }
    }
}

/// A run of visits from an empty history leaves the distinct directories
/// visited, ordered by their last visit, most recent first, cut to the bound.
pub proof fn law_visits_keep_latest_distinct(max: nat, vs: Seq<EntryModel>)
    ensures
        paths_of(visit_all(empty_history(max), vs).entries) == cut(
            recent_first(paths_of(vs)),
            max,
        ),
        visit_all(empty_history(max), vs).max_entries == max,
    decreases vs.len(),
{
    if vs.len() == 0 {
        assert(paths_of(Seq::<EntryModel>::empty()) =~= Seq::<Seq<char>>::empty());
        assert(paths_of(vs) =~= Seq::<Seq<char>>::empty());
    } else {
        let init = vs.drop_last();
        law_visits_keep_latest_distinct(max, init);
        let prev = visit_all(empty_history(max), init);
        let p = vs.last().0;
        lemma_paths_recorded(prev.entries, max, p, vs.last().1);
        assert(paths_of(vs).drop_last() =~= paths_of(init));
        assert(paths_of(vs).last() == p);
        lemma_recent_first_distinct(paths_of(init));
        lemma_cut_before_visit(recent_first(paths_of(init)), p, max);
    }
}

proof fn lemma_recent_first_of_distinct(ps: Seq<Seq<char>>)
    requires
        ps.no_duplicates(),
    ensures
        recent_first(ps) == ps.reverse(),
    decreases ps.len(),
{
    if ps.len() > 0 {
        let init = ps.drop_last();
        assert(init.no_duplicates());
        lemma_recent_first_of_distinct(init);
        assert(!init.reverse().contains(ps.last())) by {
            if init.reverse().contains(ps.last()) {
                let k = choose|k: int| 0 <= k < init.len() && init.reverse()[k] == ps.last();
                assert(init.reverse()[k] == init[init.len() - 1 - k]);
                assert(ps[init.len() - 1 - k] == ps[ps.len() - 1]);
            }
        }
        lemma_drop_all_absent(init.reverse(), ps.last());
        assert(seq![ps.last()] + init.reverse() =~= ps.reverse());
    }
}

/// Visiting `k` different directories one after another from an empty
/// history bounded by `n` leaves `min(k, n)` entries: the directories in the
/// reverse order of the visits, the most recent first.
pub proof fn law_distinct_visits_fill_to_bound(max: nat, vs: Seq<EntryModel>)
    requires
        paths_of(vs).no_duplicates(),
    ensures
        paths_of(visit_all(empty_history(max), vs).entries) == cut(paths_of(vs).reverse(), max),
        visit_all(empty_history(max), vs).entries.len() == if vs.len() < max {
            vs.len()
        } else {
            max
        },
{
    law_visits_keep_latest_distinct(max, vs);
    lemma_recent_first_of_distinct(paths_of(vs));
    let e = visit_all(empty_history(max), vs).entries;
    assert(paths_of(e).len() == e.len());
}

/// A history manager that found no history file, after visits of `k`
/// different directories, holds the last ten of them, most recent first:
/// `min(k, 10)` entries.
pub proof fn law_manager_keeps_last_ten(config_dir: Seq<char>, vs: Seq<EntryModel>)
    requires
        paths_of(vs).no_duplicates(),
    ensures
        ({
            let m = ManagerModel {
                history: empty_history(HISTORY_LIMIT as nat),
                history_file: history_file_in(config_dir),
            };
            let h = visit_all(m.history, vs);
            &&& paths_of(h.entries) == cut(paths_of(vs).reverse(), 10)
            &&& h.entries.len() == if vs.len() < 10 {
                vs.len()
            } else {
                10
            }
        }),
{
    law_distinct_visits_fill_to_bound(HISTORY_LIMIT as nat, vs);
}

} // verus!
