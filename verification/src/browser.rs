//! The interactive browser's state and decisions: which screen is shown,
//! the cursors and the selection, what a key press does, and what the
//! front end must do next (scan, delete, restore, list archives). Drawing,
//! the scan thread and the file-system work belong to the front end, which
//! reports their outcomes back.
use vstd::prelude::*;
use crate::model::{ArtifactKind, Entry, all_kinds, lemma_kind_listed, slug_of};
use crate::deleter::DeleteMode;
use crate::commands::kind_named;
use crate::workspace::sum_sizes;
use crate::text::trim;

verus! {

broadcast use vstd::string::group_string_axioms;

/// The screen shown.
#[derive(Debug, Clone, Copy, PartialEq, Eq, Structural)]
pub enum Stage {
    Splash,
    SelectTypes,
    /// Scanning in the background.
    Scanning,
    Results,
    /// Lists backup archives for the user to restore.
    Restore,
}

/// A key press, as far as the browser tells keys apart.
#[derive(Debug, Clone, Copy, PartialEq, Eq, Structural)]
pub enum Key {
    Char(char),
    Up,
    Down,
    Enter,
    Esc,
    Other,
}

/// The status line of the results screen.
#[derive(Debug)]
pub enum Status {
    Empty,
    Scanning,
    /// The scan found this many artifacts in this many seconds.
    Found { count: usize, seconds: u64 },
    /// The scan failed with this message.
    ScanError(String),
    /// A confirmation popup is open.
    Confirm,
    Cancelled,
    /// A deletion freed this many bytes; some may have failed.
    Freed { bytes: u64, mode: DeleteMode, failed: usize },
}

/// The status line of the restore screen.
#[derive(Debug)]
pub enum RestoreStatus {
    Empty,
    NoArchives,
    /// This many archives are listed.
    Found(usize),
    /// The archive was restored to this path.
    Restored(String),
    /// Restoring failed with this message.
    Failed(String),
}

/// The confirmation popup of a pending deletion.
#[derive(Debug)]
pub enum Modal {
    /// Some item carries a risk note: each warning is `path: note`.
    Warning { mode: DeleteMode, warnings: Vec<String> },
    /// Permanent deletion of this many items.
    ConfirmPermanent { count: usize },
    /// Trash or archive deletion of this many items.
    Confirm { mode: DeleteMode, count: usize },
}

/// What the front end must do after a key press.
#[derive(Debug)]
pub enum Action {
    Nothing,
    Quit,
    /// Scan `root` in the background, skipping these kinds and patterns.
    StartScan { root: String, exclude_kinds: Vec<ArtifactKind>, ignore_patterns: Vec<String> },
    /// List the backup archives under the root and report them with
    /// `set_archives`.
    FindArchives,
    /// Delete the entries at these indices, in this order (largest index
    /// first, so earlier indices stay valid), reporting each outcome with
    /// `record_deletion`, then call `finish_deletions`.
    Delete { order: Vec<usize>, mode: DeleteMode },
    /// Restore this archive and report with `restore_finished`.
    Restore(String),
}

/// The browser's state.
#[derive(Debug)]
pub struct Browser {
    pub root: String,
    pub stage: Stage,
    pub entries: Vec<Entry>,
    pub cursor: usize,
    /// Selected entry indices, increasing.
    pub selected: Vec<usize>,
    pub status: Status,
    pub pending_action: Option<(Vec<usize>, DeleteMode)>,
    pub modal: Option<Modal>,
    /// Kinds not scanned for, each once.
    pub excluded_kinds: Vec<ArtifactKind>,
    pub filter_cursor: usize,
    pub ignore_patterns: Vec<String>,
    /// Spinner frame counter, advanced on each tick while scanning.
    pub spinner_tick: usize,
    pub archives: Vec<String>,
    pub restore_cursor: usize,
    pub restore_status: RestoreStatus,
    /// Bytes freed by the deletions in progress.
    pub freed: u64,
    /// Deletions in progress that failed.
    pub failed: usize,
}

/// `cur + delta` clamped to `[0, len - 1]`.
pub open spec fn clamp_move(cur: int, delta: int, len: int) -> int {
    if cur + delta < 0 {
        0
    } else if cur + delta > len - 1 {
        len - 1
    } else {
        cur + delta
    }
}

/// The sizes of the entries at the given indices, added up.
pub open spec fn sum_at(es: Seq<Entry>, idx: Seq<usize>) -> int
    decreases idx.len(),
{
    if idx.len() == 0 {
        0
    } else {
        sum_at(es, idx.drop_last()) + if idx.last() < es.len() {
            es[idx.last() as int].size_bytes as int
        } else {
            0
        }
    }
}

/// Strictly increasing.
pub open spec fn increasing(s: Seq<usize>) -> bool {
    forall|i: int, j: int| 0 <= i < j < s.len() ==> #[trigger] s[i] < #[trigger] s[j]
}

/// No kind twice.
pub open spec fn distinct_kinds(s: Seq<ArtifactKind>) -> bool {
    forall|i: int, j: int| 0 <= i < j < s.len() ==> #[trigger] s[i] != #[trigger] s[j]
}

impl Browser {
    /// The invariant of the browser: cursors in range, selection increasing
    /// and within the entries, exclusions without repeats, a popup exactly
    /// when a deletion is pending, and entry sizes that add up within `u64`.
    pub open spec fn wf(&self) -> bool {
        &&& self.entries@.len() > 0 ==> self.cursor < self.entries@.len()
        &&& forall|i: int| 0 <= i < self.selected@.len() ==> #[trigger] self.selected@[i] < self.entries@.len()
        &&& increasing(self.selected@)
        &&& self.filter_cursor < 12
        &&& distinct_kinds(self.excluded_kinds@)
        &&& self.archives@.len() > 0 ==> self.restore_cursor < self.archives@.len()
        &&& (self.pending_action is Some <==> self.modal is Some)
        &&& sum_sizes(self.entries@) + self.freed <= u64::MAX
    }

    /// A browser on `root`, on the splash screen, with nothing scanned; the
    /// kinds named by `config_exclude` (trimmed; unknown names ignored) start
    /// out excluded.
    pub fn new(root: String, ignore_patterns: Vec<String>, config_exclude: &[String]) -> (r: Browser)
        ensures
            r.wf(),
            r.root == root,
            r.stage == Stage::Splash,
            r.entries@.len() == 0,
            r.cursor == 0,
            r.selected@.len() == 0,
            r.status is Empty,
            r.pending_action is None,
            r.modal is None,
            r.filter_cursor == 0,
            r.ignore_patterns == ignore_patterns,
            r.spinner_tick == 0,
            r.archives@.len() == 0,
            r.restore_cursor == 0,
            r.restore_status is Empty,
            r.freed == 0,
            r.failed == 0,
            forall|k: ArtifactKind|
                r.excluded_kinds@.contains(k) <==> exists|i: int|
                    0 <= i < config_exclude@.len() && kind_named(trim(config_exclude@[i]@)) == Some(
                        k,
                    ),
    {
        let mut excluded: Vec<ArtifactKind> = Vec::new();
        let mut i: usize = 0;
        while i < config_exclude.len()
            invariant
                i <= config_exclude@.len(),
                distinct_kinds(excluded@),
                forall|k: ArtifactKind|
                    excluded@.contains(k) <==> exists|m: int|
                        0 <= m < i && kind_named(trim(config_exclude@[m]@)) == Some(k),
            decreases config_exclude@.len() - i,
        {
            let t = crate::text::trimmed(config_exclude[i].as_str());
            match ArtifactKind::from_slug(t.as_str()) {
                Some(k) => {
                    proof {
                        assert forall|k2: ArtifactKind| slug_of(k2) == t@ implies k2 == k by {
                            crate::model::lemma_slug_round_trip(k, k2);
                        }
                        assert(kind_named(t@) == Some(k));
                    }
                    let ghost before = excluded@;
                    if !kind_in(&excluded, k) {
                        excluded.push(k);
                    }
                    proof {
                        assert forall|k3: ArtifactKind| excluded@.contains(k3) <==> exists|m: int|
                            0 <= m < i + 1 && kind_named(trim(config_exclude@[m]@)) == Some(
                                k3,
                            ) by {
                            if k3 == k {
                                assert(kind_named(trim(config_exclude@[i as int]@)) == Some(k3));
                                if !before.contains(k3) {
                                    assert(excluded@[excluded@.len() - 1] == k3);
                                } else {
                                    let m = choose|m: int| 0 <= m < before.len() && before[m] == k3;
                                    assert(excluded@[m] == k3);
                                }
                            } else {
                                if excluded@.contains(k3) {
                                    let m = choose|m: int| 0 <= m < excluded@.len() && excluded@[m] == k3;
                                    assert(m < before.len());
                                    assert(before[m] == k3);
                                }
                                if before.contains(k3) {
                                    let m = choose|m: int| 0 <= m < before.len() && before[m] == k3;
                                    assert(excluded@[m] == k3);
                                }
                                if exists|m: int|
                                    0 <= m < i + 1 && kind_named(trim(config_exclude@[m]@)) == Some(
                                        k3,
                                    ) {
                                    let m = choose|m: int|
                                        0 <= m < i + 1 && kind_named(trim(config_exclude@[m]@))
                                            == Some(k3);
                                    assert(m < i);
                                }
                            }
                        }
                    }
                },
                None => {
                    proof {
                        assert(kind_named(trim(config_exclude@[i as int]@)) is None);
                        assert forall|k3: ArtifactKind| excluded@.contains(k3) <==> exists|m: int|
                            0 <= m < i + 1 && kind_named(trim(config_exclude@[m]@)) == Some(
                                k3,
                            ) by {
                            if exists|m: int|
                                0 <= m < i + 1 && kind_named(trim(config_exclude@[m]@)) == Some(
                                    k3,
                                ) {
                                let m = choose|m: int|
                                    0 <= m < i + 1 && kind_named(trim(config_exclude@[m]@)) == Some(
                                        k3,
                                    );
                                assert(m < i);
                            }
                        }
                    }
                },
            }
            i = i + 1;
        }
        let r = Browser {
            root,
            stage: Stage::Splash,
            entries: Vec::new(),
            cursor: 0,
            selected: Vec::new(),
            status: Status::Empty,
            pending_action: None,
            modal: None,
            excluded_kinds: excluded,
            filter_cursor: 0,
            ignore_patterns,
            spinner_tick: 0,
            archives: Vec::new(),
            restore_cursor: 0,
            restore_status: RestoreStatus::Empty,
            freed: 0,
            failed: 0,
        };
        assert(sum_sizes(r.entries@) == 0);
        r
    }
}

fn kind_in(kinds: &Vec<ArtifactKind>, k: ArtifactKind) -> (r: bool)
    ensures
        r == kinds@.contains(k),
{
    let mut i: usize = 0;
    while i < kinds.len()
        invariant
            i <= kinds@.len(),
            forall|m: int| 0 <= m < i ==> kinds@[m] != k,
        decreases kinds@.len() - i,
    {
        if kinds[i] == k {
            assert(kinds@[i as int] == k);
            return true;
        }
        i = i + 1;
    }
    false
}

proof fn lemma_sum_sizes_nonneg(es: Seq<Entry>)
    ensures
        0 <= sum_sizes(es),
    decreases es.len(),
{
    if es.len() > 0 {
        lemma_sum_sizes_nonneg(es.drop_last());
    }
}

/// The sum of sizes without the entry at `i`.
proof fn lemma_sum_remove(es: Seq<Entry>, i: int)
    requires
        0 <= i < es.len(),
    ensures
        sum_sizes(es.remove(i)) + es[i].size_bytes == sum_sizes(es),
    decreases es.len(),
{
    if i < es.len() - 1 {
        lemma_sum_remove(es.drop_last(), i);
        assert(es.remove(i).drop_last() =~= es.drop_last().remove(i));
        assert(es.remove(i).last() == es.last());
    } else {
        assert(es.remove(i) =~= es.drop_last());
    }
}

/// The sizes at increasing in-range indices add up to at most the total.
proof fn lemma_sum_at_le(es: Seq<Entry>, idx: Seq<usize>)
    requires
        increasing(idx),
        forall|k: int| 0 <= k < idx.len() ==> #[trigger] idx[k] < es.len(),
    ensures
        0 <= sum_at(es, idx) <= sum_sizes(es.take(if idx.len() == 0 { 0 } else { idx.last() + 1 })),
    decreases idx.len(),
{
    if idx.len() > 0 {
        let last = idx.last() as int;
        let rest = idx.drop_last();
        lemma_sum_at_le(es, rest);
        let bound = if rest.len() == 0 { 0 } else { rest.last() + 1 };
        assert(bound <= last) by {
            if rest.len() > 0 {
                assert(rest.last() == idx[idx.len() - 2]);
            }
        }
        lemma_sum_take_mono(es, bound, last);
        assert(es.take(last + 1).drop_last() =~= es.take(last));
        assert(es.take(last + 1).last() == es[last]);
    }
}

proof fn lemma_sum_take_mono(es: Seq<Entry>, a: int, b: int)
    requires
        0 <= a <= b <= es.len(),
    ensures
        sum_sizes(es.take(a)) <= sum_sizes(es.take(b)),
    decreases b - a,
{
    if a < b {
        lemma_sum_take_mono(es, a, b - 1);
        assert(es.take(b).drop_last() =~= es.take(b - 1));
    }
}

impl Browser {
    /// Moves the results cursor by `delta`, clamped to the list; no-op when
    /// the list is empty.
    pub fn move_cursor(&mut self, delta: i32)
        requires
            old(self).wf(),
        ensures
            final(self).wf(),
            final(self).cursor == if old(self).entries@.len() == 0 {
                old(self).cursor as int
            } else {
                clamp_move(old(self).cursor as int, delta as int, old(self).entries@.len() as int)
            },
            final(self).entries@ == old(self).entries@,
            final(self).selected@ == old(self).selected@,
            final(self).stage == old(self).stage,
            *final(self) == (Browser { cursor: final(self).cursor, ..*old(self) }),
    {
        let len = self.entries.len();
        if len == 0 {
            return;
        }
        self.cursor = clamped(self.cursor, delta, len);
    }

    /// Moves the restore cursor by `delta`, clamped to the archive list;
    /// no-op when the list is empty.
    pub fn move_restore_cursor(&mut self, delta: i32)
        requires
            old(self).wf(),
        ensures
            final(self).wf(),
            final(self).restore_cursor == if old(self).archives@.len() == 0 {
                old(self).restore_cursor as int
            } else {
                clamp_move(
                    old(self).restore_cursor as int,
                    delta as int,
                    old(self).archives@.len() as int,
                )
            },
            final(self).archives@ == old(self).archives@,
            final(self).entries@ == old(self).entries@,
            final(self).selected@ == old(self).selected@,
            final(self).stage == old(self).stage,
            *final(self) == (Browser { restore_cursor: final(self).restore_cursor, ..*old(self) }),
    {
        let len = self.archives.len();
        if len == 0 {
            return;
        }
        self.restore_cursor = clamped(self.restore_cursor, delta, len);
    }

    /// Moves the type-filter cursor by `delta`, clamped to the kinds.
    pub fn move_filter_cursor(&mut self, delta: i32)
        requires
            old(self).wf(),
        ensures
            final(self).wf(),
            final(self).filter_cursor == clamp_move(old(self).filter_cursor as int, delta as int, 12),
            final(self).excluded_kinds@ == old(self).excluded_kinds@,
            final(self).entries@ == old(self).entries@,
            final(self).stage == old(self).stage,
            *final(self) == (Browser { filter_cursor: final(self).filter_cursor, ..*old(self) }),
    {
        self.filter_cursor = clamped(self.filter_cursor, delta, 12);
    }

    /// Selects the entry under the cursor, or deselects it if selected;
    /// no-op when the list is empty.
    pub fn toggle_selected(&mut self)
        requires
            old(self).wf(),
        ensures
            final(self).wf(),
            old(self).entries@.len() == 0 ==> final(self).selected@ == old(self).selected@,
            old(self).entries@.len() > 0 ==> forall|i: usize|
                final(self).selected@.contains(i) <==> (if i == old(self).cursor {
                    !old(self).selected@.contains(i)
                } else {
                    old(self).selected@.contains(i)
                }),
            final(self).entries@ == old(self).entries@,
            final(self).cursor == old(self).cursor,
            final(self).stage == old(self).stage,
            *final(self) == (Browser { selected: final(self).selected, ..*old(self) }),
            old(self).entries@.len() == 0 ==> *final(self) == *old(self),
    {
        if self.entries.len() == 0 {
            return;
        }
        let c = self.cursor;
        let ghost before = self.selected@;
        let mut j: usize = 0;
        while j < self.selected.len() && self.selected[j] < c
            invariant
                j <= self.selected@.len(),
                self.selected@ == before,
                increasing(before),
                forall|k: int| 0 <= k < j ==> #[trigger] before[k] < c,
            decreases self.selected@.len() - j,
        {
            j = j + 1;
        }
        if j < self.selected.len() && self.selected[j] == c {
            self.selected.remove(j);
            proof {
                assert forall|i: usize| self.selected@.contains(i) <==> (if i == c {
                    !before.contains(i)
                } else {
                    before.contains(i)
                }) by {
                    if self.selected@.contains(i) {
                        let m = choose|m: int| 0 <= m < self.selected@.len() && self.selected@[m] == i;
                        if m < j {
                            assert(before[m] == i);
                        } else {
                            assert(before[m + 1] == i);
                            assert(before[j as int] < before[m + 1]);
                        }
                    }
                    if before.contains(i) && i != c {
                        let m = choose|m: int| 0 <= m < before.len() && before[m] == i;
                        if m < j {
                            assert(self.selected@[m] == i);
                        } else {
                            assert(m != j);
                            assert(self.selected@[m - 1] == i);
                        }
                    }
                }
            }
        } else {
            self.selected.insert(j, c);
            proof {
                assert forall|a: int, b: int| 0 <= a < b < self.selected@.len() implies #[trigger] self.selected@[a]
                    < #[trigger] self.selected@[b] by {
                    if a < j && b < j {
                        assert(self.selected@[a] == before[a] && self.selected@[b] == before[b]);
                    } else if a < j && b > j {
                        assert(self.selected@[a] == before[a] && self.selected@[b] == before[b - 1]);
                    } else if a > j {
                        assert(self.selected@[a] == before[a - 1] && self.selected@[b] == before[b - 1]);
                    } else if a == j {
                        assert(self.selected@[b] == before[b - 1]);
                        if b - 1 > j {
                            assert(before[j as int] < before[b - 1]);
                        }
                    } else {
                        assert(self.selected@[a] == before[a]);
                    }
                }
                assert forall|i: usize| self.selected@.contains(i) <==> (if i == c {
                    !before.contains(i)
                } else {
                    before.contains(i)
                }) by {
                    if i == c {
                        assert(self.selected@[j as int] == c);
                        if before.contains(i) {
                            let m = choose|m: int| 0 <= m < before.len() && before[m] == i;
                            if m < j {
                            } else if m > j {
                                assert(before[j as int] < before[m]);
                            }
                        }
                    } else {
                        if self.selected@.contains(i) {
                            let m = choose|m: int| 0 <= m < self.selected@.len() && self.selected@[m] == i;
                            if m < j {
                                assert(before[m] == i);
                            } else {
                                assert(before[m - 1] == i);
                            }
                        }
                        if before.contains(i) {
                            let m = choose|m: int| 0 <= m < before.len() && before[m] == i;
                            if m < j {
                                assert(self.selected@[m] == i);
                            } else {
                                assert(self.selected@[m + 1] == i);
                            }
                        }
                    }
                }
            }
        }
    }

    /// The entries an action applies to: the selection, or the entry under
    /// the cursor when nothing is selected.
    pub fn selected_indices(&self) -> (r: Vec<usize>)
        requires
            self.wf(),
        ensures
            self.selected@.len() == 0 && self.entries@.len() > 0 ==> r@ == seq![self.cursor],
            !(self.selected@.len() == 0 && self.entries@.len() > 0) ==> r@ == self.selected@,
            increasing(r@),
            forall|i: int| 0 <= i < r@.len() ==> #[trigger] r@[i] < self.entries@.len(),
    {
        if self.selected.len() == 0 && self.entries.len() > 0 {
            let mut v: Vec<usize> = Vec::new();
            v.push(self.cursor);
            v
        } else {
            let v = self.selected.clone();
            assert(v@ =~= self.selected@);
            v
        }
    }

    /// The total size of the entries an action applies to.
    pub fn total_selected_size(&self) -> (r: u64)
        requires
            self.wf(),
        ensures
            r == sum_at(
                self.entries@,
                if self.selected@.len() == 0 && self.entries@.len() > 0 {
                    seq![self.cursor]
                } else {
                    self.selected@
                },
            ),
    {
        let idx = self.selected_indices();
        let mut total: u64 = 0;
        let mut i: usize = 0;
        proof {
            lemma_sum_at_le(self.entries@, idx@);
            if idx@.len() > 0 {
                lemma_sum_take_mono(self.entries@, idx@.last() + 1, self.entries@.len() as int);
            }
            assert(self.entries@.take(self.entries@.len() as int) =~= self.entries@);
        }
        while i < idx.len()
            invariant
                i <= idx@.len(),
                self.wf(),
                increasing(idx@),
                forall|k: int| 0 <= k < idx@.len() ==> #[trigger] idx@[k] < self.entries@.len(),
                sum_at(self.entries@, idx@) <= u64::MAX,
                total == sum_at(self.entries@, idx@.take(i as int)),
            decreases idx@.len() - i,
        {
            assert(idx@.take(i + 1).drop_last() =~= idx@.take(i as int));
            proof {
                lemma_sum_at_le(self.entries@, idx@.take(i + 1));
                lemma_sum_at_prefix(self.entries@, idx@, i + 1);
            }
            total = total + self.entries[idx[i]].size_bytes;
            i = i + 1;
        }
        assert(idx@.take(i as int) =~= idx@);
        total
    }
}

proof fn lemma_sum_at_prefix(es: Seq<Entry>, idx: Seq<usize>, n: int)
    requires
        0 <= n <= idx.len(),
    ensures
        0 <= sum_at(es, idx.take(n)) <= sum_at(es, idx),
    decreases idx.len() - n,
{
    if n < idx.len() {
        lemma_sum_at_prefix(es, idx, n + 1);
        assert(idx.take(n + 1).drop_last() =~= idx.take(n));
        lemma_sum_at_nonneg(es, idx.take(n));
    } else {
        assert(idx.take(n) =~= idx);
        lemma_sum_at_nonneg(es, idx);
    }
}

proof fn lemma_sum_at_nonneg(es: Seq<Entry>, idx: Seq<usize>)
    ensures
        0 <= sum_at(es, idx),
    decreases idx.len(),
{
    if idx.len() > 0 {
        lemma_sum_at_nonneg(es, idx.drop_last());
    }
}

/// `cur + delta` clamped to `[0, len - 1]`.
fn clamped(cur: usize, delta: i32, len: usize) -> (r: usize)
    requires
        len > 0,
    ensures
        r == clamp_move(cur as int, delta as int, len as int),
        r < len,
{
    if delta < 0 {
        let d: usize = (-(delta as i64)) as usize;
        let r = if d > cur {
            0
        } else {
            cur - d
        };
        if r > len - 1 {
            len - 1
        } else {
            r
        }
    } else {
        let d: usize = delta as usize;
        if cur >= len - 1 || d > len - 1 - cur {
            len - 1
        } else {
            cur + d
        }
    }
}

/// The warnings shown before deleting the entries at `idx`: `path: note`
/// for each in-range entry whose kind carries a risk note.
pub open spec fn warnings_of(es: Seq<Entry>, idx: Seq<usize>) -> Seq<Seq<char>>
    decreases idx.len(),
{
    if idx.len() == 0 {
        seq![]
    } else {
        let r = warnings_of(es, idx.drop_last());
        let i = idx.last();
        if i < es.len() && es[i as int].kind == ArtifactKind::PythonVenv {
            r.push(es[i as int].path@ + ": "@ + crate::model::venv_risk_note())
        } else {
            r
        }
    }
}

/// The popup asking to confirm deleting `count` items by `mode`, given the
/// risk warnings that apply.
pub open spec fn modal_for(mode: DeleteMode, count: nat, warnings: Seq<Seq<char>>, m: Modal) -> bool {
    if warnings.len() > 0 {
        m matches Modal::Warning { mode: mm, warnings: w } && mm == mode
            && crate::paths::string_views(w@) == warnings
    } else if mode == DeleteMode::Permanent {
        m matches Modal::ConfirmPermanent { count: c } && c == count
    } else {
        m matches Modal::Confirm { mode: mm, count: c } && mm == mode && c == count
    }
}

/// `{:?}` of a delete mode.
pub open spec fn mode_debug(m: DeleteMode) -> Seq<char> {
    match m {
        DeleteMode::Trash => "Trash"@,
        DeleteMode::Archive => "Archive"@,
        DeleteMode::Permanent => "Permanent"@,
    }
}

/// `{:?}` of a delete mode, in lower case.
pub open spec fn mode_lower(m: DeleteMode) -> Seq<char> {
    match m {
        DeleteMode::Trash => "trash"@,
        DeleteMode::Archive => "archive"@,
        DeleteMode::Permanent => "permanent"@,
    }
}

/// `n item?` or `n items?`.
pub open spec fn item_count(n: nat) -> Seq<char> {
    crate::text::decimal(n) + " item"@ + (if n == 1 {
        ""@
    } else {
        "s"@
    }) + "?"@
}

/// The body of a warning popup: for each warning (`path: note`), its
/// pieces after the first `": "`, then an empty line.
pub open spec fn warning_lines(ws: Seq<Seq<char>>) -> Seq<Seq<char>>
    decreases ws.len(),
{
    if ws.len() == 0 {
        seq![]
    } else {
        warning_lines(ws.drop_last()) + crate::text::colon_pieces(ws.last()).skip(1) + seq![""@]
    }
}

/// The title, the lines and the warning flag of a confirmation popup. A
/// `Confirm` popup is for a trash or archive deletion; any mode but archive
/// is worded as trash.
pub open spec fn popup_text(m: Modal) -> (Seq<char>, Seq<Seq<char>>, bool) {
    match m {
        Modal::Warning { mode, warnings } => (
            "⚠  Warning — "@ + mode_lower(mode) + " delete"@,
            warning_lines(crate::paths::string_views(warnings@)).push(
                "Proceed with "@ + mode_debug(mode) + "? (y = yes · any other key = cancel)"@,
            ),
            true,
        ),
        Modal::ConfirmPermanent { count } => (
            "Confirm permanent delete"@,
            seq![
                "Permanently delete "@ + item_count(count as nat),
                ""@,
                "This cannot be undone."@,
                ""@,
                "y = confirm  ·  any other key = cancel"@,
            ],
            false,
        ),
        Modal::Confirm { mode, count } => if mode == DeleteMode::Archive {
            (
                "Confirm archive then delete"@,
                seq![
                    "Archive and delete: "@ + item_count(count as nat),
                    ""@,
                    "y = confirm  ·  any other key = cancel"@,
                ],
                false,
            )
        } else {
            (
                "Confirm move to trash"@,
                seq![
                    "Move to trash: "@ + item_count(count as nat),
                    ""@,
                    "y = confirm  ·  any other key = cancel"@,
                ],
                false,
            )
        },
    }
}

fn text_of(parts: &Vec<char>) -> (s: String)
    ensures
        s@ == parts@,
{
    crate::text::string_of(parts)
}

fn item_count_text(prefix: &str, n: usize) -> (s: String)
    ensures
        s@ == prefix@ + item_count(n as nat),
{
    proof {
        reveal_strlit(" item");
        reveal_strlit("");
        reveal_strlit("s");
        reveal_strlit("?");
    }
    let mut v = crate::text::chars_of(prefix);
    crate::text::push_decimal(&mut v, n);
    crate::text::push_all(&mut v, &crate::text::chars_of(" item"));
    if n != 1 {
        v.push('s');
    }
    v.push('?');
    let ghost d = crate::text::decimal(n as nat);
    assert(v@ =~= prefix@ + item_count(n as nat));
    text_of(&v)
}

fn mode_debug_text(m: DeleteMode) -> (s: &'static str)
    ensures
        s@ == mode_debug(m),
{
    match m {
        DeleteMode::Trash => "Trash",
        DeleteMode::Archive => "Archive",
        DeleteMode::Permanent => "Permanent",
    }
}

fn mode_lower_text(m: DeleteMode) -> (s: &'static str)
    ensures
        s@ == mode_lower(m),
{
    match m {
        DeleteMode::Trash => "trash",
        DeleteMode::Archive => "archive",
        DeleteMode::Permanent => "permanent",
    }
}

fn concat3(a: &str, b: &str, c: &str) -> (s: String)
    ensures
        s@ == a@ + b@ + c@,
{
    let mut v = crate::text::chars_of(a);
    crate::text::push_all(&mut v, &crate::text::chars_of(b));
    crate::text::push_all(&mut v, &crate::text::chars_of(c));
    text_of(&v)
}

impl Modal {
    /// The popup's title, its lines and whether it is a warning (see
    /// [`popup_text`]).
    pub fn text(&self) -> (r: (String, Vec<String>, bool))
        ensures
            r.0@ == popup_text(*self).0,
            crate::paths::string_views(r.1@) == popup_text(*self).1,
            r.2 == popup_text(*self).2,
    {
        match self {
            Modal::Warning { mode, warnings } => {
                let mut lines: Vec<String> = Vec::new();
                let ghost ws = crate::paths::string_views(warnings@);
                let mut i: usize = 0;
                while i < warnings.len()
                    invariant
                        i <= warnings@.len(),
                        ws == crate::paths::string_views(warnings@),
                        crate::paths::string_views(lines@) == warning_lines(ws.take(i as int)),
                    decreases warnings@.len() - i,
                {
                    let pieces = crate::text::colon_split(warnings[i].as_str());
                    let ghost before = crate::paths::string_views(lines@);
                    let ghost ps = crate::paths::string_views(pieces@);
                    proof {
                        crate::text::lemma_colon_pieces_nonempty(ws[i as int]);
                        assert(before + ps.subrange(1, 1) =~= before);
                    }
                    let mut j: usize = 1;
                    while j < pieces.len()
                        invariant
                            1 <= j,
                            ps == crate::paths::string_views(pieces@),
                            ps.len() >= 1,
                            j <= ps.len(),
                            crate::paths::string_views(lines@) == before + ps.subrange(1, j as int),
                        decreases pieces@.len() - j,
                    {
                        let ghost l0 = crate::paths::string_views(lines@);
                        lines.push(pieces[j].clone());
                        assert(crate::paths::string_views(lines@) =~= l0.push(ps[j as int]));
                        assert(ps.subrange(1, j + 1) =~= ps.subrange(1, j as int).push(ps[j as int]));
                        j = j + 1;
                    }
                    proof {
                        crate::text::lemma_colon_pieces_nonempty(ws[i as int]);
                        assert(ps.subrange(1, ps.len() as int) =~= ps.skip(1));
                        assert(ws.take(i + 1).drop_last() =~= ws.take(i as int));
                        reveal_strlit("");
                    }
                    let ghost l1 = crate::paths::string_views(lines@);
                    lines.push("".to_string());
                    assert(crate::paths::string_views(lines@) =~= l1.push(""@));
                    assert(crate::paths::string_views(lines@) =~= warning_lines(ws.take(i + 1)));
                    i = i + 1;
                }
                assert(ws.take(warnings@.len() as int) =~= ws);
                let ghost l2 = crate::paths::string_views(lines@);
                lines.push(concat3("Proceed with ", mode_debug_text(*mode), "? (y = yes · any other key = cancel)"));
                assert(crate::paths::string_views(lines@) =~= l2.push(
                    "Proceed with "@ + mode_debug(*mode) + "? (y = yes · any other key = cancel)"@,
                ));
                (concat3("⚠  Warning — ", mode_lower_text(*mode), " delete"), lines, true)
            },
            Modal::ConfirmPermanent { count } => {
                let mut lines: Vec<String> = Vec::new();
                lines.push(item_count_text("Permanently delete ", *count));
                lines.push("".to_string());
                lines.push("This cannot be undone.".to_string());
                lines.push("".to_string());
                lines.push("y = confirm  ·  any other key = cancel".to_string());
                assert(crate::paths::string_views(lines@) =~= popup_text(*self).1);
                ("Confirm permanent delete".to_string(), lines, false)
            },
            Modal::Confirm { mode, count } => {
                let archive = *mode == DeleteMode::Archive;
                let mut lines: Vec<String> = Vec::new();
                lines.push(item_count_text(if archive { "Archive and delete: " } else { "Move to trash: " }, *count));
                lines.push("".to_string());
                lines.push("y = confirm  ·  any other key = cancel".to_string());
                assert(crate::paths::string_views(lines@) =~= popup_text(*self).1);
                let title = if archive {
                    "Confirm archive then delete".to_string()
                } else {
                    "Confirm move to trash".to_string()
                };
                (title, lines, false)
            },
        }
    }
}

impl Browser {
    /// The risk warnings for deleting the entries at `indices` (see
    /// [`warnings_of`]).
    pub fn risk_warnings(&self, indices: &[usize]) -> (r: Vec<String>)
        ensures
            crate::paths::string_views(r@) == warnings_of(self.entries@, indices@),
    {
        proof {
            reveal_strlit(": ");
        }
        let mut out: Vec<String> = Vec::new();
        let mut i: usize = 0;
        while i < indices.len()
            invariant
                i <= indices@.len(),
                crate::paths::string_views(out@) == warnings_of(self.entries@, indices@.take(i as int)),
            decreases indices@.len() - i,
        {
            assert(indices@.take(i + 1).drop_last() =~= indices@.take(i as int));
            let k = indices[i];
            if k < self.entries.len() {
                let e = &self.entries[k];
                match e.kind.risk_note() {
                    Some(note) => {
                        let mut w = crate::text::chars_of(e.path.as_str());
                        crate::text::push_all(&mut w, &crate::text::chars_of(": "));
                        crate::text::push_all(&mut w, &crate::text::chars_of(note));
                        let ws = crate::text::string_of(&w);
                        let ghost before = crate::paths::string_views(out@);
                        out.push(ws);
                        assert(crate::paths::string_views(out@) =~= before.push(ws@));
                    },
                    None => {},
                }
            }
            i = i + 1;
        }
        assert(indices@.take(indices@.len() as int) =~= indices@);
        out
    }

    /// Opens the confirmation popup for deleting the entries at `indices` by
    /// `mode`; no-op without indices.
    pub fn request_delete(&mut self, indices: Vec<usize>, mode: DeleteMode)
        requires
            old(self).wf(),
        ensures
            final(self).wf(),
            indices@.len() == 0 ==> *final(self) == *old(self),
            indices@.len() > 0 ==> (final(self).pending_action matches Some((idx, m)) && idx@
                == indices@ && m == mode),
            indices@.len() > 0 ==> (final(self).modal matches Some(md) && modal_for(
                mode,
                indices@.len(),
                warnings_of(old(self).entries@, indices@),
                md,
            )),
            indices@.len() > 0 ==> final(self).status is Confirm,
            final(self).entries@ == old(self).entries@,
            final(self).selected@ == old(self).selected@,
            final(self).cursor == old(self).cursor,
            final(self).stage == old(self).stage,
            indices@.len() > 0 ==> *final(self) == (Browser { pending_action: final(self).pending_action, modal: final(self).modal, status: Status::Confirm, ..*old(self) }),
    {
        if indices.len() == 0 {
            return;
        }
        let warnings = self.risk_warnings(indices.as_slice());
        let count = indices.len();
        let modal = if warnings.len() > 0 {
            Modal::Warning { mode, warnings }
        } else if mode == DeleteMode::Permanent {
            Modal::ConfirmPermanent { count }
        } else {
            Modal::Confirm { mode, count }
        };
        self.pending_action = Some((indices, mode));
        self.modal = Some(modal);
        self.status = Status::Confirm;
    }

    /// Toggles whether the kind under the type-filter cursor is scanned for.
    pub fn toggle_filter_kind(&mut self)
        requires
            old(self).wf(),
        ensures
            final(self).wf(),
            forall|k: ArtifactKind|
                final(self).excluded_kinds@.contains(k) <==> (if k == all_kinds()[old(
                    self,
                ).filter_cursor as int] {
                    !old(self).excluded_kinds@.contains(k)
                } else {
                    old(self).excluded_kinds@.contains(k)
                }),
            final(self).filter_cursor == old(self).filter_cursor,
            final(self).entries@ == old(self).entries@,
            final(self).stage == old(self).stage,
            *final(self) == (Browser { excluded_kinds: final(self).excluded_kinds, ..*old(self) }),
    {
        let kinds = ArtifactKind::all();
        let k = kinds[self.filter_cursor];
        let ghost before = self.excluded_kinds@;
        let mut j: usize = 0;
        while j < self.excluded_kinds.len() && self.excluded_kinds[j] != k
            invariant
                j <= self.excluded_kinds@.len(),
                self.excluded_kinds@ == before,
                forall|m: int| 0 <= m < j ==> before[m] != k,
            decreases self.excluded_kinds@.len() - j,
        {
            j = j + 1;
        }
        if j < self.excluded_kinds.len() {
            self.excluded_kinds.remove(j);
            proof {
                assert forall|k3: ArtifactKind| self.excluded_kinds@.contains(k3) <==> (if k3 == k {
                    !before.contains(k3)
                } else {
                    before.contains(k3)
                }) by {
                    if self.excluded_kinds@.contains(k3) {
                        let m = choose|m: int| 0 <= m < self.excluded_kinds@.len() && self.excluded_kinds@[m] == k3;
                        if m < j {
                            assert(before[m] == k3);
                        } else {
                            assert(before[m + 1] == k3);
                        }
                    }
                    if before.contains(k3) && k3 != k {
                        let m = choose|m: int| 0 <= m < before.len() && before[m] == k3;
                        if m < j {
                            assert(self.excluded_kinds@[m] == k3);
                        } else {
                            assert(self.excluded_kinds@[m - 1] == k3);
                        }
                    }
                }
            }
        } else {
            self.excluded_kinds.push(k);
            proof {
                assert forall|k3: ArtifactKind| self.excluded_kinds@.contains(k3) <==> (if k3 == k {
                    !before.contains(k3)
                } else {
                    before.contains(k3)
                }) by {
                    if k3 == k {
                        assert(self.excluded_kinds@[before.len() as int] == k);
                    } else {
                        if self.excluded_kinds@.contains(k3) {
                            let m = choose|m: int| 0 <= m < self.excluded_kinds@.len() && self.excluded_kinds@[m] == k3;
                            assert(before[m] == k3);
                        }
                        if before.contains(k3) {
                            let m = choose|m: int| 0 <= m < before.len() && before[m] == k3;
                            assert(self.excluded_kinds@[m] == k3);
                        }
                    }
                }
            }
        }
    }

    /// Scan for every kind.
    pub fn include_all_kinds(&mut self)
        requires
            old(self).wf(),
        ensures
            final(self).wf(),
            final(self).excluded_kinds@.len() == 0,
            final(self).entries@ == old(self).entries@,
            final(self).stage == old(self).stage,
            *final(self) == (Browser { excluded_kinds: final(self).excluded_kinds, ..*old(self) }),
    {
        self.excluded_kinds = Vec::new();
    }

    /// Scan for no kind.
    pub fn exclude_all_kinds(&mut self)
        requires
            old(self).wf(),
        ensures
            final(self).wf(),
            final(self).excluded_kinds@ == all_kinds(),
            final(self).entries@ == old(self).entries@,
            final(self).stage == old(self).stage,
            *final(self) == (Browser { excluded_kinds: final(self).excluded_kinds, ..*old(self) }),
    {
        self.excluded_kinds = ArtifactKind::all();
        assert(distinct_kinds(all_kinds()));
    }
}

fn copy_kinds(v: &Vec<ArtifactKind>) -> (r: Vec<ArtifactKind>)
    ensures
        r@ == v@,
{
    let mut r: Vec<ArtifactKind> = Vec::new();
    let mut i: usize = 0;
    while i < v.len()
        invariant
            i <= v@.len(),
            r@ == v@.take(i as int),
        decreases v@.len() - i,
    {
        r.push(v[i]);
        assert(r@ =~= v@.take(i + 1));
        i = i + 1;
    }
    assert(v@.take(v@.len() as int) =~= v@);
    r
}

fn copy_strings(v: &Vec<String>) -> (r: Vec<String>)
    ensures
        r@ == v@,
{
    let mut r: Vec<String> = Vec::new();
    let mut i: usize = 0;
    while i < v.len()
        invariant
            i <= v@.len(),
            r@ == v@.take(i as int),
        decreases v@.len() - i,
    {
        r.push(v[i].clone());
        assert(r@ =~= v@.take(i + 1));
        i = i + 1;
    }
    assert(v@.take(v@.len() as int) =~= v@);
    r
}

impl Browser {
    /// Starts a scan: shows the scanning screen and asks the front end to
    /// scan the root, skipping the excluded kinds and the ignore patterns.
    pub fn start_scan(&mut self) -> (r: Action)
        requires
            old(self).wf(),
        ensures
            final(self).wf(),
            final(self).stage == Stage::Scanning,
            final(self).status is Scanning,
            final(self).spinner_tick == 0,
            r matches Action::StartScan { root, exclude_kinds, ignore_patterns } && root
                == old(self).root && exclude_kinds@ == old(self).excluded_kinds@ && ignore_patterns@
                == old(self).ignore_patterns@,
            final(self).entries@ == old(self).entries@,
            final(self).selected@ == old(self).selected@,
            *final(self) == (Browser { stage: Stage::Scanning, status: Status::Scanning, spinner_tick: 0, ..*old(self) }),
    {
        let root = self.root.clone();
        let exclude_kinds = copy_kinds(&self.excluded_kinds);
        let ignore_patterns = copy_strings(&self.ignore_patterns);
        self.spinner_tick = 0;
        self.stage = Stage::Scanning;
        self.status = Status::Scanning;
        Action::StartScan { root, exclude_kinds, ignore_patterns }
    }

    /// Advances the spinner (while scanning).
    pub fn scan_tick(&mut self)
        requires
            old(self).wf(),
        ensures
            final(self).wf(),
            final(self).spinner_tick == if old(self).spinner_tick == usize::MAX {
                0
            } else {
                old(self).spinner_tick + 1
            },
            final(self).stage == old(self).stage,
            final(self).entries@ == old(self).entries@,
            *final(self) == (Browser { spinner_tick: final(self).spinner_tick, ..*old(self) }),
    {
        self.spinner_tick = if self.spinner_tick == usize::MAX {
            0
        } else {
            self.spinner_tick + 1
        };
    }

    /// The scan finished with `entries` after `seconds`: show them, cursor
    /// on the first, nothing selected.
    pub fn scan_finished(&mut self, entries: Vec<Entry>, seconds: u64)
        requires
            old(self).wf(),
            sum_sizes(entries@) + old(self).freed <= u64::MAX,
        ensures
            final(self).wf(),
            final(self).entries@ == entries@,
            final(self).cursor == 0,
            final(self).selected@.len() == 0,
            final(self).status matches Status::Found { count, seconds: s } && count == entries@.len()
                && s == seconds,
            final(self).stage == Stage::Results,
            *final(self) == (Browser { entries: final(self).entries, cursor: 0, selected: final(self).selected, status: final(self).status, stage: Stage::Results, ..*old(self) }),
    {
        let count = entries.len();
        self.entries = entries;
        self.cursor = 0;
        self.selected = Vec::new();
        self.status = Status::Found { count, seconds };
        self.stage = Stage::Results;
    }

    /// The scan failed: show the message on the results screen, which keeps
    /// what it showed.
    pub fn scan_failed(&mut self, message: String)
        requires
            old(self).wf(),
        ensures
            final(self).wf(),
            final(self).status matches Status::ScanError(m) && m == message,
            final(self).stage == Stage::Results,
            final(self).entries@ == old(self).entries@,
            final(self).selected@ == old(self).selected@,
            final(self).cursor == old(self).cursor,
            *final(self) == (Browser { status: final(self).status, stage: Stage::Results, ..*old(self) }),
    {
        self.status = Status::ScanError(message);
        self.stage = Stage::Results;
    }

    /// The path and size of the entry at `idx`, if there is one: what a
    /// deletion of it removes and frees.
    pub fn deletion_target(&self, idx: usize) -> (r: Option<(String, u64)>)
        ensures
            idx < self.entries@.len() ==> (r matches Some((p, size)) && p == self.entries@[idx as int].path
                && size == self.entries@[idx as int].size_bytes),
            idx >= self.entries@.len() ==> r is None,
    {
        if idx < self.entries.len() {
            Some((self.entries[idx].path.clone(), self.entries[idx].size_bytes))
        } else {
            None
        }
    }

    /// Records the outcome of deleting the entry at `idx`: on success the
    /// entry leaves the list and its size counts as freed; on failure it
    /// stays and counts as failed.
    pub fn record_deletion(&mut self, idx: usize, succeeded: bool)
        requires
            old(self).wf(),
            old(self).selected@.len() == 0,
            idx < old(self).entries@.len(),
            old(self).failed < usize::MAX,
        ensures
            final(self).wf(),
            final(self).selected@.len() == 0,
            succeeded ==> final(self).entries@ == old(self).entries@.remove(idx as int),
            succeeded ==> final(self).freed == old(self).freed + old(self).entries@[idx as int].size_bytes,
            succeeded ==> final(self).failed == old(self).failed,
            !succeeded ==> final(self).entries@ == old(self).entries@,
            !succeeded ==> final(self).freed == old(self).freed,
            !succeeded ==> final(self).failed == old(self).failed + 1,
            final(self).stage == old(self).stage,
            succeeded ==> final(self).cursor == if old(self).cursor >= final(self).entries@.len() && final(self).entries@.len() > 0 { final(self).entries@.len() - 1 } else { old(self).cursor as int },
            succeeded ==> *final(self) == (Browser { entries: final(self).entries, freed: final(self).freed, cursor: final(self).cursor, ..*old(self) }),
            !succeeded ==> *final(self) == (Browser { failed: final(self).failed, ..*old(self) }),
    {
        if succeeded {
            proof {
                lemma_sum_remove(self.entries@, idx as int);
                lemma_sum_sizes_nonneg(self.entries@.remove(idx as int));
            }
            let size = self.entries[idx].size_bytes;
            self.freed = self.freed + size;
            self.entries.remove(idx);
            if self.entries.len() > 0 && self.cursor >= self.entries.len() {
                self.cursor = self.entries.len() - 1;
            }
        } else {
            self.failed = self.failed + 1;
        }
    }

    /// Ends a round of deletions: nothing selected, the cursor back on the
    /// list, and the freed size and failure count shown.
    pub fn finish_deletions(&mut self, mode: DeleteMode)
        requires
            old(self).wf(),
        ensures
            final(self).wf(),
            final(self).selected@.len() == 0,
            final(self).entries@ == old(self).entries@,
            final(self).status matches Status::Freed { bytes, mode: m, failed } && bytes == old(
                self,
            ).freed && m == mode && failed == old(self).failed,
            final(self).freed == 0,
            final(self).failed == 0,
            final(self).stage == old(self).stage,
            final(self).cursor == if old(self).cursor >= old(self).entries@.len() && old(self).entries@.len() > 0 { old(self).entries@.len() - 1 } else { old(self).cursor as int },
            *final(self) == (Browser { selected: final(self).selected, cursor: final(self).cursor, status: final(self).status, freed: 0, failed: 0, ..*old(self) }),
    {
        self.selected = Vec::new();
        if self.cursor >= self.entries.len() && self.entries.len() > 0 {
            self.cursor = self.entries.len() - 1;
        }
        self.status = Status::Freed { bytes: self.freed, mode, failed: self.failed };
        self.freed = 0;
        self.failed = 0;
    }

    /// Shows the backup archives found, cursor on the first.
    pub fn set_archives(&mut self, archives: Vec<String>)
        requires
            old(self).wf(),
        ensures
            final(self).wf(),
            final(self).archives@ == archives@,
            final(self).restore_cursor == 0,
            archives@.len() == 0 ==> final(self).restore_status is NoArchives,
            archives@.len() > 0 ==> (final(self).restore_status matches RestoreStatus::Found(n) && n
                == archives@.len()),
            final(self).entries@ == old(self).entries@,
            final(self).stage == old(self).stage,
            *final(self) == (Browser { archives: final(self).archives, restore_cursor: 0, restore_status: final(self).restore_status, ..*old(self) }),
    {
        let n = archives.len();
        self.archives = archives;
        self.restore_cursor = 0;
        self.restore_status = if n == 0 {
            RestoreStatus::NoArchives
        } else {
            RestoreStatus::Found(n)
        };
    }

    /// Records the outcome of a restore; after a successful one the archive
    /// list is refreshed.
    pub fn restore_finished(&mut self, outcome: Result<String, String>) -> (r: Action)
        requires
            old(self).wf(),
        ensures
            final(self).wf(),
            match outcome {
                Ok(p) => (final(self).restore_status matches RestoreStatus::Restored(q) && q == p)
                    && r is FindArchives,
                Err(m) => (final(self).restore_status matches RestoreStatus::Failed(q) && q == m)
                    && r is Nothing,
            },
            final(self).entries@ == old(self).entries@,
            final(self).archives@ == old(self).archives@,
            final(self).stage == old(self).stage,
            *final(self) == (Browser { restore_status: final(self).restore_status, ..*old(self) }),
    {
        match outcome {
            Ok(p) => {
                self.restore_status = RestoreStatus::Restored(p);
                Action::FindArchives
            },
            Err(m) => {
                self.restore_status = RestoreStatus::Failed(m);
                Action::Nothing
            },
        }
    }
}

/// `indices` largest first: the order in which deletions keep the
/// remaining indices valid.
pub open spec fn descending(s: Seq<usize>) -> bool {
    forall|i: int, j: int| 0 <= i < j < s.len() ==> #[trigger] s[i] >= #[trigger] s[j]
}

/// The indices, largest first.
pub fn deletion_order(indices: &Vec<usize>) -> (r: Vec<usize>)
    ensures
        descending(r@),
        r@.to_multiset() == indices@.to_multiset(),
{
    let mut out: Vec<usize> = Vec::new();
    let mut i: usize = 0;
    proof {
        broadcast use vstd::seq_lib::group_to_multiset_ensures;
        assert(indices@.take(0) =~= out@);
    }
    while i < indices.len()
        invariant
            i <= indices@.len(),
            descending(out@),
            out@.to_multiset() == indices@.take(i as int).to_multiset(),
        decreases indices@.len() - i,
    {
        let x = indices[i];
        let mut j: usize = 0;
        while j < out.len() && out[j] >= x
            invariant
                j <= out@.len(),
                forall|k: int| 0 <= k < j ==> #[trigger] out@[k] >= x,
            decreases out@.len() - j,
        {
            j = j + 1;
        }
        let ghost before = out@;
        out.insert(j, x);
        proof {
            assert(indices@.take(i + 1) =~= indices@.take(i as int).push(x));
            assert(out@.remove(j as int) =~= before);
            vstd::seq_lib::to_multiset_remove(out@, j as int);
            vstd::seq_lib::to_multiset_build(indices@.take(i as int), x);
            assert(out@.to_multiset() =~= before.to_multiset().insert(x)) by {
                assert(out@[j as int] == x);
                broadcast use vstd::seq_lib::group_to_multiset_ensures;
                assert(out@.contains(x));
            }
            assert forall|a: int, b: int| 0 <= a < b < out@.len() implies #[trigger] out@[a]
                >= #[trigger] out@[b] by {
                if a < j && b < j {
                    assert(out@[a] == before[a] && out@[b] == before[b]);
                } else if a < j && b > j {
                    assert(out@[a] == before[a] && out@[b] == before[b - 1]);
                } else if a > j {
                    assert(out@[a] == before[a - 1] && out@[b] == before[b - 1]);
                } else if a == j {
                    assert(out@[b] == before[b - 1]);
                    if j < before.len() {
                        assert(before[j as int] < x);
                    }
                    if b - 1 > j {
                        assert(before[j as int] >= before[b - 1]);
                    }
                } else {
                    assert(out@[a] == before[a]);
                }
            }
        }
        i = i + 1;
    }
    assert(indices@.take(indices@.len() as int) =~= indices@);
    out
}

/// The mode of a pending deletion.
pub open spec fn pending_mode(p: Option<(Vec<usize>, DeleteMode)>) -> DeleteMode {
    match p {
        Some((_, m)) => m,
        None => DeleteMode::Trash,
    }
}

/// The indices of a pending deletion.
pub open spec fn pending_indices(p: Option<(Vec<usize>, DeleteMode)>) -> Seq<usize> {
    match p {
        Some((i, _)) => i@,
        None => seq![],
    }
}

/// A key that moves a list cursor down (`↓` or `j`).
pub open spec fn is_down(key: Key) -> bool {
    key == Key::Down || key == Key::Char('j')
}

/// A key that moves a list cursor up (`↑` or `k`).
pub open spec fn is_up(key: Key) -> bool {
    key == Key::Up || key == Key::Char('k')
}

/// A key that leaves a screen (`q` or `Esc`).
pub open spec fn is_leave(key: Key) -> bool {
    key == Key::Char('q') || key == Key::Esc
}

/// The delete mode a results-screen key asks for: `d` trash, `a` archive,
/// `p` permanent.
pub open spec fn delete_key_mode(key: Key) -> Option<DeleteMode> {
    if key == Key::Char('d') {
        Some(DeleteMode::Trash)
    } else if key == Key::Char('a') {
        Some(DeleteMode::Archive)
    } else if key == Key::Char('p') {
        Some(DeleteMode::Permanent)
    } else {
        None
    }
}

/// A key the type filter acts on.
pub open spec fn select_types_key_bound(key: Key) -> bool {
    key == Key::Char('q') || is_down(key) || is_up(key) || key == Key::Char(' ') || key == Key::Char(
        'a',
    ) || key == Key::Char('n') || key == Key::Enter
}

/// A key the results screen acts on when no deletion is pending.
pub open spec fn results_key_bound(key: Key) -> bool {
    key == Key::Char('t') || key == Key::Char('R') || is_leave(key) || is_down(key) || is_up(key)
        || key == Key::Char(' ') || key == Key::Char('r') || delete_key_mode(key) is Some
}

/// What a key does on the type filter (`o` before, `n` after, `r` the
/// action): `q` quits; `↓`/`j`, `↑`/`k` move the cursor; space toggles the
/// kind under it; `a` scans for every kind, `n` for none; `Enter` starts a
/// scan of the root that skips the excluded kinds and the ignore patterns.
/// Nothing else changes, and other keys do nothing.
pub open spec fn select_types_step(o: Browser, key: Key, n: Browser, r: Action) -> bool {
    &&& (key == Key::Char('q') ==> r is Quit && n == o)
    &&& (is_down(key) ==> r is Nothing && n.filter_cursor == clamp_move(o.filter_cursor as int, 1, 12)
        && n == (Browser { filter_cursor: n.filter_cursor, ..o }))
    &&& (is_up(key) ==> r is Nothing && n.filter_cursor == clamp_move(o.filter_cursor as int, -1, 12)
        && n == (Browser { filter_cursor: n.filter_cursor, ..o }))
    &&& (key == Key::Char(' ') ==> r is Nothing && (forall|k: ArtifactKind|
        n.excluded_kinds@.contains(k) <==> (if k == all_kinds()[o.filter_cursor as int] {
            !o.excluded_kinds@.contains(k)
        } else {
            o.excluded_kinds@.contains(k)
        })) && n == (Browser { excluded_kinds: n.excluded_kinds, ..o }))
    &&& (key == Key::Char('a') ==> r is Nothing && n.excluded_kinds@.len() == 0 && n == (Browser {
        excluded_kinds: n.excluded_kinds,
        ..o
    }))
    &&& (key == Key::Char('n') ==> r is Nothing && n.excluded_kinds@ == all_kinds() && n == (Browser {
        excluded_kinds: n.excluded_kinds,
        ..o
    }))
    &&& (key == Key::Enter ==> scan_started(o, n, r))
    &&& (!select_types_key_bound(key) ==> r is Nothing && n == o)
}

/// A scan was asked for: of the root, skipping the excluded kinds and the
/// ignore patterns, with the scanning screen shown and nothing else changed.
pub open spec fn scan_started(o: Browser, n: Browser, r: Action) -> bool {
    &&& r matches Action::StartScan { root, exclude_kinds, ignore_patterns } && root == o.root
        && exclude_kinds@ == o.excluded_kinds@ && ignore_patterns@ == o.ignore_patterns@
    &&& n == (Browser { stage: Stage::Scanning, status: Status::Scanning, spinner_tick: 0, ..o })
}

/// What a key does on the results screen (see [`Browser::handle_key`]).
pub open spec fn results_step(o: Browser, key: Key, n: Browser, r: Action) -> bool {
    &&& (o.pending_action is Some ==> if key == Key::Char('y') || key == Key::Char('Y') {
        &&& r is Delete
        &&& r->mode == pending_mode(o.pending_action)
        &&& descending(r->order@)
        &&& r->order@.to_multiset() == pending_indices(o.pending_action).to_multiset()
        &&& n.selected@.len() == 0
        &&& n == (Browser { pending_action: None, modal: None, selected: n.selected, ..o })
    } else {
        r is Nothing && n == (Browser {
            pending_action: None,
            modal: None,
            status: Status::Cancelled,
            ..o
        })
    })
    &&& (o.pending_action is None ==> {
        &&& (key == Key::Char('t') ==> r is Nothing && n == (Browser { stage: Stage::SelectTypes, ..o }))
        &&& (key == Key::Char('R') ==> r is FindArchives && n == (Browser { stage: Stage::Restore, ..o }))
        &&& (is_leave(key) ==> r is Quit && n == o)
        &&& (is_down(key) ==> r is Nothing && n.cursor == (if o.entries@.len() == 0 {
            o.cursor as int
        } else {
            clamp_move(o.cursor as int, 1, o.entries@.len() as int)
        }) && n == (Browser { cursor: n.cursor, ..o }))
        &&& (is_up(key) ==> r is Nothing && n.cursor == (if o.entries@.len() == 0 {
            o.cursor as int
        } else {
            clamp_move(o.cursor as int, -1, o.entries@.len() as int)
        }) && n == (Browser { cursor: n.cursor, ..o }))
        &&& (key == Key::Char(' ') ==> r is Nothing && (o.entries@.len() == 0 ==> n == o) && (o.entries@.len()
            > 0 ==> forall|i: usize|
            n.selected@.contains(i) <==> (if i == o.cursor {
                !o.selected@.contains(i)
            } else {
                o.selected@.contains(i)
            })) && n == (Browser { selected: n.selected, ..o }))
        &&& (key == Key::Char('r') ==> scan_started(o, n, r))
        &&& (delete_key_mode(key) matches Some(mode) ==> {
            let idx = if o.selected@.len() == 0 && o.entries@.len() > 0 {
                seq![o.cursor]
            } else {
                o.selected@
            };
            &&& r is Nothing
            &&& (idx.len() > 0 ==> (n.pending_action matches Some((pi, pm)) && pi@ == idx && pm == mode))
            &&& (idx.len() > 0 ==> (n.modal matches Some(md) && modal_for(
                mode,
                idx.len(),
                warnings_of(o.entries@, idx),
                md,
            )))
            &&& (idx.len() > 0 ==> n == (Browser {
                pending_action: n.pending_action,
                modal: n.modal,
                status: Status::Confirm,
                ..o
            }))
            &&& (idx.len() == 0 ==> n == o)
        })
        &&& (!results_key_bound(key) ==> r is Nothing && n == o)
    })
}

/// What a key does on the restore screen: `q`/`Esc` go back to the results;
/// `↓`/`j`, `↑`/`k` move; `Enter` asks to restore the archive under the
/// cursor. Nothing else changes, and other keys do nothing.
pub open spec fn restore_step(o: Browser, key: Key, n: Browser, r: Action) -> bool {
    &&& (is_leave(key) ==> r is Nothing && n == (Browser { stage: Stage::Results, ..o }))
    &&& (is_down(key) ==> r is Nothing && n.restore_cursor == (if o.archives@.len() == 0 {
        o.restore_cursor as int
    } else {
        clamp_move(o.restore_cursor as int, 1, o.archives@.len() as int)
    }) && n == (Browser { restore_cursor: n.restore_cursor, ..o }))
    &&& (is_up(key) ==> r is Nothing && n.restore_cursor == (if o.archives@.len() == 0 {
        o.restore_cursor as int
    } else {
        clamp_move(o.restore_cursor as int, -1, o.archives@.len() as int)
    }) && n == (Browser { restore_cursor: n.restore_cursor, ..o }))
    &&& (key == Key::Enter ==> n == o && (if o.restore_cursor < o.archives@.len() {
        r matches Action::Restore(p) && p == o.archives@[o.restore_cursor as int]
    } else {
        r is Nothing
    }))
    &&& (!is_leave(key) && !is_down(key) && !is_up(key) && key != Key::Enter ==> r is Nothing && n == o)
}

impl Browser {
    /// What a key press does, by screen:
    /// - scanning: `q` quits; nothing else.
    /// - splash: `q`/`Esc` quit; any other key opens the type filter.
    /// - type filter: `q` quits; `↓`/`j`, `↑`/`k` move; space toggles the
    ///   kind; `a` scans for every kind, `n` for none; `Enter` scans
    ///   ([`select_types_step`]).
    /// - results: while a deletion awaits confirmation, `y`/`Y` confirms it
    ///   (the entries are deleted largest index first) and any other key
    ///   cancels it and does nothing else. Otherwise `t` opens the type
    ///   filter; `R` the restore screen (the archives are listed anew);
    ///   `q`/`Esc` quit; `↓`/`j`, `↑`/`k` move; space toggles the selection;
    ///   `r` rescans; `d`, `a`, `p` ask to delete the selection (or the entry
    ///   under the cursor) by trash, archive, permanently ([`results_step`]).
    /// - restore: `q`/`Esc` go back to the results; `↓`/`j`, `↑`/`k` move;
    ///   `Enter` restores the archive under the cursor ([`restore_step`]).
    ///
    /// A scan, from `Enter` or `r`, skips the excluded kinds and the ignore
    /// patterns ([`scan_started`]). Each key changes only what it is said to
    /// change; other keys change nothing.
    pub fn handle_key(&mut self, key: Key) -> (r: Action)
        requires
            old(self).wf(),
        ensures
            final(self).wf(),
            final(self).entries@ == old(self).entries@,
            old(self).stage == Stage::Scanning ==> {
                &&& (key == Key::Char('q') ==> r is Quit)
                &&& (key != Key::Char('q') ==> r is Nothing)
                &&& *final(self) == *old(self)
            },
            old(self).stage == Stage::Splash ==> {
                &&& (is_leave(key) ==> r is Quit && *final(self) == *old(self))
                &&& (!is_leave(key) ==> r is Nothing && *final(self) == (Browser {
                    stage: Stage::SelectTypes,
                    ..*old(self)
                }))
            },
            old(self).stage == Stage::SelectTypes ==> select_types_step(*old(self), key, *final(self), r),
            old(self).stage == Stage::Results ==> results_step(*old(self), key, *final(self), r),
            old(self).stage == Stage::Restore ==> restore_step(*old(self), key, *final(self), r),
    {
        match self.stage {
            Stage::Scanning => {
                if key == Key::Char('q') {
                    Action::Quit
                } else {
                    Action::Nothing
                }
            },
            Stage::Splash => {
                if key == Key::Char('q') || key == Key::Esc {
                    Action::Quit
                } else {
                    self.stage = Stage::SelectTypes;
                    Action::Nothing
                }
            },
            Stage::SelectTypes => self.key_select_types(key),
            Stage::Results => self.key_results(key),
            Stage::Restore => self.key_restore(key),
        }
    }

    fn key_select_types(&mut self, key: Key) -> (r: Action)
        requires
            old(self).wf(),
            old(self).stage == Stage::SelectTypes,
        ensures
            final(self).wf(),
            select_types_step(*old(self), key, *final(self), r),
    {
        if key == Key::Char('q') {
            Action::Quit
        } else if key == Key::Down || key == Key::Char('j') {
            self.move_filter_cursor(1);
            Action::Nothing
        } else if key == Key::Up || key == Key::Char('k') {
            self.move_filter_cursor(-1);
            Action::Nothing
        } else if key == Key::Char(' ') {
            self.toggle_filter_kind();
            Action::Nothing
        } else if key == Key::Char('a') {
            self.include_all_kinds();
            Action::Nothing
        } else if key == Key::Char('n') {
            self.exclude_all_kinds();
            Action::Nothing
        } else if key == Key::Enter {
            self.start_scan()
        } else {
            Action::Nothing
        }
    }

    fn key_restore(&mut self, key: Key) -> (r: Action)
        requires
            old(self).wf(),
            old(self).stage == Stage::Restore,
        ensures
            final(self).wf(),
            restore_step(*old(self), key, *final(self), r),
    {
        match key {
            Key::Char('q') | Key::Esc => {
                self.stage = Stage::Results;
                Action::Nothing
            },
            Key::Down | Key::Char('j') => {
                self.move_restore_cursor(1);
                Action::Nothing
            },
            Key::Up | Key::Char('k') => {
                self.move_restore_cursor(-1);
                Action::Nothing
            },
            Key::Enter => {
                if self.restore_cursor < self.archives.len() {
                    Action::Restore(self.archives[self.restore_cursor].clone())
                } else {
                    Action::Nothing
                }
            },
            _ => Action::Nothing,
        }
    }

    fn key_results(&mut self, key: Key) -> (r: Action)
        requires
            old(self).wf(),
            old(self).stage == Stage::Results,
        ensures
            final(self).wf(),
            results_step(*old(self), key, *final(self), r),
    {
        if self.pending_action.is_none() {
            if key == Key::Char('t') {
                self.stage = Stage::SelectTypes;
                return Action::Nothing;
            }
            if key == Key::Char('R') {
                self.stage = Stage::Restore;
                return Action::FindArchives;
            }
        }
        if self.pending_action.is_some() {
            let (order, mode) = match &self.pending_action {
                Some((indices, mode)) => (deletion_order(indices), *mode),
                None => (Vec::new(), DeleteMode::Trash),
            };
            self.pending_action = None;
            self.modal = None;
            if key == Key::Char('y') || key == Key::Char('Y') {
                self.selected = Vec::new();
                return Action::Delete { order, mode };
            } else {
                self.status = Status::Cancelled;
                return Action::Nothing;
            }
        }
        match key {
            Key::Char('q') | Key::Esc => Action::Quit,
            Key::Down | Key::Char('j') => {
                self.move_cursor(1);
                Action::Nothing
            },
            Key::Up | Key::Char('k') => {
                self.move_cursor(-1);
                Action::Nothing
            },
            Key::Char(' ') => {
                self.toggle_selected();
                Action::Nothing
            },
            Key::Char('r') => self.start_scan(),
            Key::Char('d') => {
                let idx = self.selected_indices();
                self.request_delete(idx, DeleteMode::Trash);
                Action::Nothing
            },
            Key::Char('a') => {
                let idx = self.selected_indices();
                self.request_delete(idx, DeleteMode::Archive);
                Action::Nothing
            },
            Key::Char('p') => {
                let idx = self.selected_indices();
                self.request_delete(idx, DeleteMode::Permanent);
                Action::Nothing
            },
            _ => Action::Nothing,
        }
    }
}

} // verus!
