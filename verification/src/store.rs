//! The node's storage: the replicated log, the persistent vote, the
//! state machine, and the snapshot slot.
//!
//! The log is a vector of entries with strictly ascending indexes. Reads
//! are specified through `log_window`, the subsequence of entries whose
//! indexes fall in a closed interval; purging a committed prefix and
//! truncating a conflicting suffix are both exact window operations, and
//! the lemma at the bottom shows that purging up to `x` leaves every
//! read from `i > x` unchanged.

use vstd::prelude::*;

use crate::entities::opt_log_id_le;
use crate::entities::LogId;
use crate::entities::StoredMembership;
use crate::entities::Vote;
use crate::state_machine::EntryView;
use crate::state_machine::Entry;
use crate::state_machine::StateMachine;
use crate::table::Dup;
use vstd::string::StringExecFns;

verus! {

/// The decimal digit for one value.
pub open spec fn digit_char(d: int) -> char {
    if d == 0 {
        '0'
    } else if d == 1 {
        '1'
    } else if d == 2 {
        '2'
    } else if d == 3 {
        '3'
    } else if d == 4 {
        '4'
    } else if d == 5 {
        '5'
    } else if d == 6 {
        '6'
    } else if d == 7 {
        '7'
    } else if d == 8 {
        '8'
    } else {
        '9'
    }
}

/// The decimal numeral of a natural number.
pub open spec fn dec_str(n: int) -> Seq<char>
    decreases n,
{
    if n < 10 {
        seq![digit_char(n)]
    } else {
        dec_str(n / 10) + seq![digit_char(n % 10)]
    }
}

/// Render a number in decimal.
pub fn u64_to_dec(n: u64) -> (r: String)
    ensures
        r@ == dec_str(n as int),
    decreases n,
{
    if n >= 10 {
        let prefix = u64_to_dec(n / 10);
        let d = digit_str(n % 10);
        let r = prefix.concat(d);
        proof {
            assert(r@ == dec_str(n as int / 10) + seq![digit_char(n as int % 10)]);
        }
        r
    } else {
        String::from_str(digit_str(n))
    }
}

/// The one-character string for a digit.
fn digit_str(d: u64) -> (r: &'static str)
    requires
        d < 10,
    ensures
        r@ == seq![digit_char(d as int)],
{
    match d {
        0 => {
            proof {
                reveal_strlit("0");
                assert("0"@ =~= seq![digit_char(0)]);
            }
            "0"
        },
        1 => {
            proof {
                reveal_strlit("1");
                assert("1"@ =~= seq![digit_char(1)]);
            }
            "1"
        },
        2 => {
            proof {
                reveal_strlit("2");
                assert("2"@ =~= seq![digit_char(2)]);
            }
            "2"
        },
        3 => {
            proof {
                reveal_strlit("3");
                assert("3"@ =~= seq![digit_char(3)]);
            }
            "3"
        },
        4 => {
            proof {
                reveal_strlit("4");
                assert("4"@ =~= seq![digit_char(4)]);
            }
            "4"
        },
        5 => {
            proof {
                reveal_strlit("5");
                assert("5"@ =~= seq![digit_char(5)]);
            }
            "5"
        },
        6 => {
            proof {
                reveal_strlit("6");
                assert("6"@ =~= seq![digit_char(6)]);
            }
            "6"
        },
        7 => {
            proof {
                reveal_strlit("7");
                assert("7"@ =~= seq![digit_char(7)]);
            }
            "7"
        },
        8 => {
            proof {
                reveal_strlit("8");
                assert("8"@ =~= seq![digit_char(8)]);
            }
            "8"
        },
        _ => {
            proof {
                reveal_strlit("9");
                assert("9"@ =~= seq![digit_char(9)]);
            }
            "9"
        },
    }
}

/// The snapshot id: `"{leader_id}-{index}-{seq}"` after the last applied
/// log id, or `"--{seq}"` when nothing was applied yet.
pub open spec fn snapshot_id_spec(last: Option<LogId>, idx: u64) -> Seq<char> {
    match last {
        Some(l) => dec_str(l.leader_id as int) + "-"@ + dec_str(l.index as int) + "-"@ + dec_str(
            idx as int,
        ),
        None => "--"@ + dec_str(idx as int),
    }
}

fn snapshot_id_string(last: Option<LogId>, idx: u64) -> (r: String)
    ensures
        r@ == snapshot_id_spec(last, idx),
{
    match last {
        Some(l) => {
            let r = u64_to_dec(l.leader_id).concat("-").concat(u64_to_dec(l.index).as_str())
                .concat("-").concat(u64_to_dec(idx).as_str());
            proof {
                assert(r@ == snapshot_id_spec(last, idx));
            }
            r
        },
        None => {
            let r = String::from_str("--").concat(u64_to_dec(idx).as_str());
            r
        },
    }
}

/// The entries whose index lies in the closed interval `[lo, hi]`, in
/// log order.
pub open spec fn log_window(s: Seq<EntryView>, lo: int, hi: int) -> Seq<EntryView>
    decreases s.len(),
{
    if s.len() == 0 {
        Seq::empty()
    } else {
        log_window(s.drop_last(), lo, hi) + if lo <= s.last().log_id.index <= hi {
            seq![s.last()]
        } else {
            Seq::empty()
        }
    }
}

/// Windowing twice intersects the intervals.
pub proof fn lemma_log_window_compose(s: Seq<EntryView>, lo1: int, hi1: int, lo2: int, hi2: int)
    requires
        lo1 <= lo2,
        hi2 <= hi1,
    ensures
        log_window(log_window(s, lo1, hi1), lo2, hi2) == log_window(s, lo2, hi2),
    decreases s.len(),
{
    if s.len() > 0 {
        lemma_log_window_compose(s.drop_last(), lo1, hi1, lo2, hi2);
        let w1 = log_window(s, lo1, hi1);
        if lo1 <= s.last().log_id.index <= hi1 {
            assert(w1.drop_last() =~= log_window(s.drop_last(), lo1, hi1));
            assert(w1.last() == s.last());
        } else {
            assert(w1 =~= log_window(s.drop_last(), lo1, hi1));
            assert(!(lo2 <= s.last().log_id.index <= hi2));
            assert(log_window(s, lo2, hi2) =~= log_window(s.drop_last(), lo2, hi2));
        }
    }
}

/// Purging a committed prefix up to `x` does not change any later read:
/// reading from `i > x` returns the same entries before and after.
pub proof fn lemma_purge_preserves_reads(s: Seq<EntryView>, x: int, i: int)
    requires
        i > x,
    ensures
        log_window(log_window(s, x + 1, u64::MAX as int), i, u64::MAX as int) == log_window(
            s,
            i,
            u64::MAX as int,
        ),
{
    lemma_log_window_compose(s, x + 1, u64::MAX as int, i, u64::MAX as int);
}

/// For a sorted log split at `k` — indexes up to `c` before it, above
/// `c` from it on — the window above `c` is exactly the suffix.
proof fn lemma_log_window_skip(s: Seq<EntryView>, c: int, k: int)
    requires
        0 <= k <= s.len(),
        forall|i: int| 0 <= i < k ==> (#[trigger] s[i]).log_id.index <= c,
        forall|i: int| k <= i < s.len() ==> (#[trigger] s[i]).log_id.index > c,
    ensures
        log_window(s, c + 1, u64::MAX as int) == s.skip(k),
    decreases s.len(),
{
    if s.len() == 0 {
        assert(s.skip(k) =~= Seq::empty());
    } else if k == s.len() {
        lemma_log_window_skip(s.drop_last(), c, k - 1);
        assert(s.drop_last().skip(k - 1) =~= Seq::empty());
        assert(s.skip(k) =~= Seq::empty());
        assert(log_window(s, c + 1, u64::MAX as int) =~= Seq::empty());
    } else {
        lemma_log_window_skip(s.drop_last(), c, k);
        assert(s.last().log_id.index > c);
        assert(s.last().log_id.index <= u64::MAX);
        assert(log_window(s, c + 1, u64::MAX as int) =~= s.drop_last().skip(k) + seq![s.last()]);
        assert(s.skip(k) =~= s.drop_last().skip(k) + seq![s.last()]);
    }
}

/// For a sorted log split at `k` — indexes below `c` before it, at
/// least `c` from it on — the window below `c` is exactly the prefix.
proof fn lemma_log_window_take(s: Seq<EntryView>, c: int, k: int)
    requires
        0 <= k <= s.len(),
        forall|i: int| 0 <= i < k ==> (#[trigger] s[i]).log_id.index < c,
        forall|i: int| k <= i < s.len() ==> (#[trigger] s[i]).log_id.index >= c,
    ensures
        log_window(s, 0, c - 1) == s.take(k),
    decreases s.len(),
{
    if s.len() == 0 {
        assert(s.take(k) =~= Seq::empty());
    } else if k == s.len() {
        lemma_log_window_take(s.drop_last(), c, k - 1);
        assert(s.drop_last().take(k - 1) =~= s.drop_last());
        assert(s.last().log_id.index <= c - 1);
        assert(log_window(s, 0, c - 1) =~= s.drop_last() + seq![s.last()]);
        assert(s.take(k) =~= s);
    } else {
        lemma_log_window_take(s.drop_last(), c, k);
        assert(s.last().log_id.index >= c);
        assert(log_window(s, 0, c - 1) =~= s.drop_last().take(k));
        assert(s.take(k) =~= s.drop_last().take(k));
    }
}

/// Snapshot descriptor: where the snapshot stands in the log, the
/// membership it saw, and its monotonically increasing id.
#[derive(PartialEq, Debug)]
pub struct SnapshotMeta {
    pub last_log_id: Option<LogId>,
    pub last_membership: StoredMembership,
    pub snapshot_id: String,
}

impl SnapshotMeta {
    pub fn duplicate(&self) -> (r: Self)
        ensures
            r.last_log_id == self.last_log_id,
            r.last_membership@ == self.last_membership@,
            r.snapshot_id@ == self.snapshot_id@,
    {
        SnapshotMeta {
            last_log_id: self.last_log_id,
            last_membership: self.last_membership.duplicate(),
            snapshot_id: self.snapshot_id.clone(),
        }
    }
}

/// A snapshot: the whole state machine at one point, with its meta.
/// Serialization of the copied state is the caller's business; the
/// round-trip law holds of the contents.
#[derive(PartialEq, Debug)]
pub struct StoredSnapshot {
    pub meta: SnapshotMeta,
    pub data: StateMachine,
}

impl StoredSnapshot {
    pub fn duplicate(&self) -> (r: Self)
        requires
            self.data.wf(),
        ensures
            r.data.wf(),
            r.data@ == self.data@,
            r.meta.last_log_id == self.meta.last_log_id,
            r.meta.last_membership@ == self.meta.last_membership@,
            r.meta.snapshot_id@ == self.meta.snapshot_id@,
    {
        StoredSnapshot { meta: self.meta.duplicate(), data: self.data.duplicate() }
    }
}

/// The node's storage.
pub struct Store {
    pub last_purged_log_id: Option<LogId>,
    pub log: Vec<Entry>,
    pub state_machine: StateMachine,
    pub vote: Option<Vote>,
    pub snapshot_idx: u64,
    pub current_snapshot: Option<StoredSnapshot>,
}

impl Store {
    /// The views of the log entries, in order.
    pub open spec fn log_view(&self) -> Seq<EntryView> {
        self.log@.map_values(|e: Entry| e@)
    }

    /// Log indexes strictly ascend, and everything held is well-formed.
    pub open spec fn wf(&self) -> bool {
        &&& forall|i: int, j: int|
            0 <= i < j < self.log@.len() ==> (#[trigger] self.log@[i]).log_id.index < (
            #[trigger] self.log@[j]).log_id.index
        &&& self.state_machine.wf()
        &&& match self.current_snapshot {
            Some(s) => s.data.wf(),
            None => true,
        }
    }

    pub fn new() -> (r: Self)
        ensures
            r.wf(),
            r.log_view() =~= Seq::<EntryView>::empty(),
            r.last_purged_log_id is None,
            r.vote is None,
            r.state_machine@ =~~= crate::state_machine::sm_init(),
            r.snapshot_idx == 0,
            r.current_snapshot is None,
    {
        Store {
            last_purged_log_id: None,
            log: Vec::new(),
            state_machine: StateMachine::new(),
            vote: None,
            snapshot_idx: 0,
            current_snapshot: None,
        }
    }

    /// The purged prefix bound and the last known log id.
    pub fn get_log_state(&self) -> (r: (Option<LogId>, Option<LogId>))
        ensures
            r.0 == self.last_purged_log_id,
            r.1 == if self.log@.len() > 0 {
                Some(self.log@.last().log_id)
            } else {
                self.last_purged_log_id
            },
    {
        if self.log.len() > 0 {
            let last = self.log[self.log.len() - 1].log_id;
            (self.last_purged_log_id, Some(last))
        } else {
            (self.last_purged_log_id, self.last_purged_log_id)
        }
    }

    /// The entries with `lo <= index < hi`, in log order.
    pub fn try_get_log_entries(&self, lo: u64, hi: u64) -> (r: Vec<Entry>)
        ensures
            r@.map_values(|e: Entry| e@) == log_window(self.log_view(), lo as int, hi as int - 1),
    {
        let n = self.log.len();
        let mut out: Vec<Entry> = Vec::new();
        let mut i: usize = 0;
        while i < n
            invariant
                n == self.log@.len(),
                i <= n,
                out@.map_values(|e: Entry| e@) == log_window(
                    self.log_view().take(i as int),
                    lo as int,
                    hi as int - 1,
                ),
            decreases n - i,
        {
            let ghost prefix = self.log_view().take(i as int);
            let e = &self.log[i];
            if lo <= e.log_id.index && e.log_id.index < hi {
                out.push(e.duplicate());
            }
            proof {
                let next = self.log_view().take(i as int + 1);
                assert(next.drop_last() =~= prefix);
                assert(next.last() == self.log_view()[i as int]);
                assert(out@.map_values(|e: Entry| e@) =~= log_window(
                    next,
                    lo as int,
                    hi as int - 1,
                ));
            }
            i = i + 1;
        }
        proof {
            assert(self.log_view().take(n as int) =~= self.log_view());
        }
        out
    }

    /// The entries with `index >= lo`, in log order.
    pub fn read_from(&self, lo: u64) -> (r: Vec<Entry>)
        ensures
            r@.map_values(|e: Entry| e@) == log_window(
                self.log_view(),
                lo as int,
                u64::MAX as int,
            ),
    {
        let n = self.log.len();
        let mut out: Vec<Entry> = Vec::new();
        let mut i: usize = 0;
        while i < n
            invariant
                n == self.log@.len(),
                i <= n,
                out@.map_values(|e: Entry| e@) == log_window(
                    self.log_view().take(i as int),
                    lo as int,
                    u64::MAX as int,
                ),
            decreases n - i,
        {
            let ghost prefix = self.log_view().take(i as int);
            let e = &self.log[i];
            if lo <= e.log_id.index {
                out.push(e.duplicate());
            }
            proof {
                let next = self.log_view().take(i as int + 1);
                assert(next.drop_last() =~= prefix);
                assert(next.last() == self.log_view()[i as int]);
                assert(out@.map_values(|e: Entry| e@) =~= log_window(
                    next,
                    lo as int,
                    u64::MAX as int,
                ));
            }
            i = i + 1;
        }
        proof {
            assert(self.log_view().take(n as int) =~= self.log_view());
        }
        out
    }

    /// Append entries past the end of the log. The replication engine
    /// truncates conflicts first, so appended entries ascend from above
    /// the current last index.
    pub fn append_to_log(&mut self, entries: &Vec<Entry>)
        requires
            old(self).wf(),
            forall|i: int, j: int|
                0 <= i < j < entries@.len() ==> (#[trigger] entries@[i]).log_id.index < (
                #[trigger] entries@[j]).log_id.index,
            old(self).log@.len() > 0 && entries@.len() > 0 ==> old(
                self,
            ).log@.last().log_id.index < entries@[0].log_id.index,
        ensures
            final(self).wf(),
            final(self).log_view() == old(self).log_view() + entries@.map_values(|e: Entry| e@),
            final(self).state_machine == old(self).state_machine,
            final(self).last_purged_log_id == old(self).last_purged_log_id,
            final(self).vote == old(self).vote,
            final(self).current_snapshot == old(self).current_snapshot,
    {
        let n = entries.len();
        let mut i: usize = 0;
        while i < n
            invariant
                old(self).wf(),
                n == entries@.len(),
                i <= n,
                forall|a: int, b: int|
                    0 <= a < b < entries@.len() ==> (#[trigger] entries@[a]).log_id.index < (
                    #[trigger] entries@[b]).log_id.index,
                old(self).log@.len() > 0 && entries@.len() > 0 ==> old(
                    self,
                ).log@.last().log_id.index < entries@[0].log_id.index,
                self.log@.len() == old(self).log@.len() + i,
                forall|a: int| 0 <= a < old(self).log@.len() ==> self.log@[a] == old(
                    self,
                ).log@[a],
                forall|a: int|
                    old(self).log@.len() <= a < self.log@.len() ==> (#[trigger] self.log@[a])@
                        == entries@[a - old(self).log@.len()]@,
                self.state_machine == old(self).state_machine,
                self.last_purged_log_id == old(self).last_purged_log_id,
                self.vote == old(self).vote,
                self.current_snapshot == old(self).current_snapshot,
            decreases n - i,
        {
            self.log.push(entries[i].duplicate());
            i = i + 1;
        }
        proof {
            assert(self.log_view() =~= old(self).log_view() + entries@.map_values(|e: Entry| e@));
            let m = old(self).log@.len() as int;
            assert forall|a: int, b: int|
                0 <= a < b < self.log@.len() implies (#[trigger] self.log@[a]).log_id.index < (
            #[trigger] self.log@[b]).log_id.index by {
                if b >= m {
                    assert(self.log@[b]@ == entries@[b - m]@);
                    assert(self.log@[b].log_id == entries@[b - m].log_id);
                }
                if a >= m {
                    assert(self.log@[a]@ == entries@[a - m]@);
                    assert(self.log@[a].log_id == entries@[a - m].log_id);
                }
                if a < m && b >= m {
                    assert(self.log@[a] == old(self).log@[a]);
                    if a < m - 1 {
                        assert(old(self).log@[a].log_id.index < old(
                            self,
                        ).log@[m - 1].log_id.index);
                    }
                    assert(old(self).log@.last() == old(self).log@[m - 1]);
                    if b > m {
                        assert(entries@[0].log_id.index < entries@[b - m].log_id.index);
                    }
                }
            }
        }
    }

    /// Drop the conflicting suffix: every entry with `index >= log_id.index`.
    pub fn delete_conflict_logs_since(&mut self, log_id: LogId)
        requires
            old(self).wf(),
        ensures
            final(self).wf(),
            final(self).log_view() == log_window(
                old(self).log_view(),
                0,
                log_id.index as int - 1,
            ),
            final(self).state_machine == old(self).state_machine,
            final(self).last_purged_log_id == old(self).last_purged_log_id,
            final(self).vote == old(self).vote,
            final(self).current_snapshot == old(self).current_snapshot,
    {
        let n = self.log.len();
        let mut k: usize = 0;
        while k < n && self.log[k].log_id.index < log_id.index
            invariant
                n == self.log@.len(),
                k <= n,
                forall|i: int| 0 <= i < k ==> (#[trigger] self.log@[i]).log_id.index
                    < log_id.index,
            decreases n - k,
        {
            k = k + 1;
        }
        proof {
            assert forall|i: int| k <= i < self.log@.len() implies (#[trigger] self.log@[i])
                .log_id.index >= log_id.index by {
                if k < self.log@.len() && i > k as int {
                    assert(self.log@[k as int].log_id.index < self.log@[i].log_id.index);
                }
            }
            lemma_log_window_take(self.log_view(), log_id.index as int, k as int);
            assert(self.log_view().take(k as int) =~= log_window(
                self.log_view(),
                0,
                log_id.index as int - 1,
            ));
        }
        self.log.truncate(k);
        proof {
            assert(self.log_view() =~= old(self).log_view().take(k as int));
        }
    }

    /// Trim the committed prefix covered by a snapshot: every entry with
    /// `index <= log_id.index`. The bound may never move backwards.
    pub fn purge_logs_upto(&mut self, log_id: LogId)
        requires
            old(self).wf(),
            opt_log_id_le(old(self).last_purged_log_id, Some(log_id)),
        ensures
            final(self).wf(),
            final(self).last_purged_log_id == Some(log_id),
            final(self).log_view() == log_window(
                old(self).log_view(),
                log_id.index as int + 1,
                u64::MAX as int,
            ),
            final(self).state_machine == old(self).state_machine,
            final(self).vote == old(self).vote,
            final(self).current_snapshot == old(self).current_snapshot,
    {
        self.last_purged_log_id = Some(log_id);
        let n = self.log.len();
        let mut k: usize = 0;
        while k < n && self.log[k].log_id.index <= log_id.index
            invariant
                n == self.log@.len(),
                k <= n,
                forall|i: int| 0 <= i < k ==> (#[trigger] self.log@[i]).log_id.index
                    <= log_id.index,
            decreases n - k,
        {
            k = k + 1;
        }
        proof {
            assert forall|i: int| k <= i < self.log@.len() implies (#[trigger] self.log@[i])
                .log_id.index > log_id.index by {
                if k < self.log@.len() && i > k as int {
                    assert(self.log@[k as int].log_id.index < self.log@[i].log_id.index);
                }
            }
            lemma_log_window_skip(self.log_view(), log_id.index as int, k as int);
        }
        let rest = self.log.split_off(k);
        self.log = rest;
        proof {
            assert(self.log_view() =~= old(self).log_view().skip(k as int));
        }
    }

    /// What the state machine has applied, and under which membership.
    pub fn last_applied_state(&self) -> (r: (Option<LogId>, StoredMembership))
        ensures
            r.0 == self.state_machine@.last_applied_log,
            r.1@ == self.state_machine@.last_membership,
    {
        (self.state_machine.last_applied_log, self.state_machine.last_membership.duplicate())
    }

    /// Record a granted vote. The caller makes it durable before
    /// acknowledging.
    pub fn save_vote(&mut self, vote: Vote)
        requires
            old(self).wf(),
        ensures
            final(self).wf(),
            final(self).vote == Some(vote),
            final(self).log == old(self).log,
            final(self).state_machine == old(self).state_machine,
            final(self).last_purged_log_id == old(self).last_purged_log_id,
            final(self).current_snapshot == old(self).current_snapshot,
    {
        self.vote = Some(vote);
    }

    pub fn read_vote(&self) -> (r: Option<Vote>)
        ensures
            r == self.vote,
    {
        self.vote
    }

    /// Apply a batch of committed entries to the state machine.
    pub fn apply_to_state_machine(&mut self, entries: &Vec<Entry>, now: u64) -> (r: Vec<
        crate::state_machine::Response,
    >)
        requires
            old(self).wf(),
        ensures
            final(self).wf(),
            final(self).state_machine@ == crate::state_machine::apply_entries_spec(
                old(self).state_machine@,
                entries@.map_values(|e: Entry| e@),
                now,
            ),
            final(self).log == old(self).log,
            final(self).vote == old(self).vote,
            final(self).last_purged_log_id == old(self).last_purged_log_id,
            final(self).current_snapshot == old(self).current_snapshot,
            r@.len() == entries@.len(),
            forall|i: int| 0 <= i < entries@.len() ==> (#[trigger] r@[i])@
                == crate::state_machine::entry_response_of(entries@[i]@),
    {
        self.state_machine.apply_to_state_machine(entries, now)
    }

    /// Copy the state machine out as a snapshot, stamp it with a fresh
    /// id, and remember it as the current snapshot.
    pub fn build_snapshot(&mut self) -> (r: StoredSnapshot)
        requires
            old(self).wf(),
            old(self).snapshot_idx < u64::MAX,
        ensures
            final(self).wf(),
            r.data.wf(),
            r.data@ == old(self).state_machine@,
            r.meta.last_log_id == old(self).state_machine@.last_applied_log,
            r.meta.last_membership@ == old(self).state_machine@.last_membership,
            r.meta.snapshot_id@ == snapshot_id_spec(
                old(self).state_machine@.last_applied_log,
                (old(self).snapshot_idx + 1) as u64,
            ),
            final(self).snapshot_idx == old(self).snapshot_idx + 1,
            final(self).state_machine == old(self).state_machine,
            final(self).log == old(self).log,
            final(self).vote == old(self).vote,
            final(self).last_purged_log_id == old(self).last_purged_log_id,
            match final(self).current_snapshot {
                Some(s) => s.data@ == old(self).state_machine@ && s.meta.snapshot_id@
                    == r.meta.snapshot_id@,
                None => false,
            },
    {
        self.snapshot_idx = self.snapshot_idx + 1;
        let meta = SnapshotMeta {
            last_log_id: self.state_machine.last_applied_log,
            last_membership: self.state_machine.last_membership.duplicate(),
            snapshot_id: snapshot_id_string(self.state_machine.last_applied_log, self.snapshot_idx),
        };
        let snapshot = StoredSnapshot { meta, data: self.state_machine.duplicate() };
        let copy = snapshot.duplicate();
        self.current_snapshot = Some(copy);
        snapshot
    }

    /// Atomically replace the state machine with a snapshot's contents
    /// and remember the snapshot. Installing what `build_snapshot`
    /// returned leaves the state machine's contents unchanged.
    pub fn install_snapshot(&mut self, meta: SnapshotMeta, data: StateMachine)
        requires
            old(self).wf(),
            data.wf(),
        ensures
            final(self).wf(),
            final(self).state_machine@ == data@,
            final(self).log == old(self).log,
            final(self).vote == old(self).vote,
            final(self).last_purged_log_id == old(self).last_purged_log_id,
            match final(self).current_snapshot {
                Some(s) => s.data@ == data@ && s.meta.snapshot_id@ == meta.snapshot_id@,
                None => false,
            },
    {
        let stored = StoredSnapshot { meta, data };
        let copy = stored.duplicate();
        self.state_machine = stored.data;
        self.current_snapshot = Some(copy);
    }

    /// A copy of the current snapshot, if one was built or installed.
    pub fn get_current_snapshot(&self) -> (r: Option<StoredSnapshot>)
        requires
            self.wf(),
        ensures
            match (r, &self.current_snapshot) {
                (Some(a), Some(b)) => a.data@ == b.data@ && a.meta.snapshot_id@
                    == b.meta.snapshot_id@ && a.meta.last_log_id == b.meta.last_log_id,
                (None, None) => true,
                _ => false,
            },
    {
        match &self.current_snapshot {
            Some(s) => Some(s.duplicate()),
            None => None,
        }
    }
}

} // verus!
