//! Session metrics: per-file change counters and an aggregated summary.

use vstd::prelude::*;

use crate::text::append_str;
use crate::text::dec_str;
use crate::text::dec_str_i64;
use crate::text::i64_to_dec_string;
use crate::text::str_eq;
use crate::text::u64_to_dec_string;

verus! {

/// Tracks metrics for individual file changes.
#[derive(Clone, Copy, Debug, PartialEq, Eq, Structural)]
pub struct FileChangeMetrics {
    pub lines_added: u64,
    pub lines_removed: u64,
    pub operations_count: u64,
}

impl FileChangeMetrics {
    /// Fresh counters, all zero.
    pub fn new() -> (r: Self)
        ensures
            r.lines_added == 0,
            r.lines_removed == 0,
            r.operations_count == 0,
    {
        FileChangeMetrics { lines_added: 0, lines_removed: 0, operations_count: 0 }
    }

    /// Record one more operation touching this file.
    pub fn add_operation(&mut self, lines_added: u64, lines_removed: u64)
        requires
            old(self).lines_added + lines_added <= u64::MAX,
            old(self).lines_removed + lines_removed <= u64::MAX,
            old(self).operations_count + 1 <= u64::MAX,
        ensures
            final(self).lines_added == old(self).lines_added + lines_added,
            final(self).lines_removed == old(self).lines_removed + lines_removed,
            final(self).operations_count == old(self).operations_count + 1,
    {
        self.lines_added = self.lines_added + lines_added;
        self.lines_removed = self.lines_removed + lines_removed;
        self.operations_count = self.operations_count + 1;
    }

    /// Net change in lines for this file.
    pub fn net_change(&self) -> (r: i64)
        requires
            self.lines_added <= i64::MAX,
            self.lines_removed <= i64::MAX,
        ensures
            r == self.lines_added - self.lines_removed,
    {
        self.lines_added as i64 - self.lines_removed as i64
    }
}

impl Default for FileChangeMetrics {
    fn default() -> (r: Self)
        ensures
            r.lines_added == 0,
            r.lines_removed == 0,
            r.operations_count == 0,
    {
        FileChangeMetrics::new()
    }
}


/// Relies on std::time::SystemTime: milliseconds since the Unix epoch. The
/// clock is the machine's, so nothing is promised of the value.
#[verifier::external_body]
fn now_millis() -> (r: u64) {
    match std::time::SystemTime::now().duration_since(std::time::UNIX_EPOCH) {
        Ok(d) => d.as_millis() as u64,
        Err(_) => 0,
    }
}

/// Position of `key` among the entries, or their count when absent.
pub open spec fn key_pos(es: Seq<(String, FileChangeMetrics)>, key: Seq<char>) -> nat
    decreases es.len(),
{
    if es.len() == 0 {
        0
    } else if es.first().0@ == key {
        0
    } else {
        1 + key_pos(es.drop_first(), key)
    }
}

/// Aggregated session metrics: per-file counters keyed by path, and totals.
/// Paths are unique among the entries.
#[derive(Debug)]
pub struct Metrics {
    pub started_at: Option<u64>,
    pub files_changed: Vec<(String, FileChangeMetrics)>,
    pub total_lines_added: u64,
    pub total_lines_removed: u64,
    pub operations_count: u64,
}

/// No two entries share a path.
pub open spec fn keys_unique(es: Seq<(String, FileChangeMetrics)>) -> bool {
    forall|i: int, j: int| 0 <= i < j < es.len() ==> es[i].0@ != es[j].0@
}

impl Metrics {
    /// Fresh metrics: no files, zero totals, tracking not started.
    pub fn new() -> (r: Self)
        ensures
            r.started_at is None,
            r.files_changed@.len() == 0,
            r.total_lines_added == 0,
            r.total_lines_removed == 0,
            r.operations_count == 0,
            keys_unique(r.files_changed@),
    {
        Metrics {
            started_at: None,
            files_changed: Vec::new(),
            total_lines_added: 0,
            total_lines_removed: 0,
            operations_count: 0,
        }
    }

    /// Starts tracking: stamps the current wall-clock time.
    pub fn start(&mut self)
        ensures
            final(self).started_at is Some,
            final(self).files_changed@ == old(self).files_changed@,
            final(self).total_lines_added == old(self).total_lines_added,
            final(self).total_lines_removed == old(self).total_lines_removed,
            final(self).operations_count == old(self).operations_count,
    {
        self.started_at = Some(now_millis());
    }

    /// Records one file operation: the file's own counters and the totals
    /// both grow; a new path gains an entry at the end, keeping paths
    /// unique.
    pub fn record_file_operation(&mut self, path: String, lines_added: u64, lines_removed: u64)
        requires
            old(self).total_lines_added + lines_added <= u64::MAX,
            old(self).total_lines_removed + lines_removed <= u64::MAX,
            old(self).operations_count + 1 <= u64::MAX,
            forall|j: int|
                0 <= j < old(self).files_changed@.len() ==> (#[trigger] old(
                    self,
                ).files_changed@[j]).1.lines_added + lines_added <= u64::MAX && old(
                    self,
                ).files_changed@[j].1.lines_removed + lines_removed <= u64::MAX && old(
                    self,
                ).files_changed@[j].1.operations_count + 1 <= u64::MAX,
            keys_unique(old(self).files_changed@),
        ensures
            final(self).started_at == old(self).started_at,
            final(self).total_lines_added == old(self).total_lines_added + lines_added,
            final(self).total_lines_removed == old(self).total_lines_removed + lines_removed,
            final(self).operations_count == old(self).operations_count + 1,
            keys_unique(final(self).files_changed@),
            ({
                let es = old(self).files_changed@;
                let p = key_pos(es, path@);
                if p < es.len() {
                    final(self).files_changed@ == es.update(
                        p as int,
                        (
                            es[p as int].0,
                            FileChangeMetrics {
                                lines_added: (es[p as int].1.lines_added + lines_added) as u64,
                                lines_removed: (es[p as int].1.lines_removed
                                    + lines_removed) as u64,
                                operations_count: (es[p as int].1.operations_count + 1) as u64,
                            },
                        ),
                    )
                } else {
                    final(self).files_changed@.len() == es.len() + 1
                        && final(self).files_changed@.subrange(0, es.len() as int) == es
                        && final(self).files_changed@.last().0@ == path@
                        && final(self).files_changed@.last().1 == FileChangeMetrics {
                        lines_added,
                        lines_removed,
                        operations_count: 1,
                    }
                }
            }),
    {
        let ghost es = self.files_changed@;
        let n = self.files_changed.len();
        let mut i: usize = 0;
        proof {
            assert(es.skip(0) =~= es);
        }
        while i < n
            invariant
                i <= n == es.len(),
                es == old(self).files_changed@,
                es == self.files_changed@,
                self.started_at == old(self).started_at,
                self.total_lines_added == old(self).total_lines_added,
                self.total_lines_removed == old(self).total_lines_removed,
                self.operations_count == old(self).operations_count,
                old(self).total_lines_added + lines_added <= u64::MAX,
                old(self).total_lines_removed + lines_removed <= u64::MAX,
                old(self).operations_count + 1 <= u64::MAX,
                forall|j: int|
                    0 <= j < es.len() ==> (#[trigger] es[j]).1.lines_added + lines_added
                        <= u64::MAX && es[j].1.lines_removed + lines_removed <= u64::MAX
                        && es[j].1.operations_count + 1 <= u64::MAX,
                keys_unique(es),
                key_pos(es, path@) == i + key_pos(es.skip(i as int), path@),
                forall|j: int| 0 <= j < i ==> (#[trigger] es[j]).0@ != path@,
            decreases n - i,
        {
            proof {
                assert(es.skip(i as int).first() == es[i as int]);
                assert(es.skip(i as int).drop_first() =~= es.skip(i as int + 1));
            }
            if str_eq(self.files_changed[i].0.as_str(), path.as_str()) {
                proof {
                    assert(key_pos(es, path@) == i);
                    assert(es[i as int].1.lines_added + lines_added <= u64::MAX);
                }
                let entry = self.files_changed.remove(i);
                let mut fm = entry.1;
                fm.add_operation(lines_added, lines_removed);
                self.files_changed.insert(i, (entry.0, fm));
                self.total_lines_added = self.total_lines_added + lines_added;
                self.total_lines_removed = self.total_lines_removed + lines_removed;
                self.operations_count = self.operations_count + 1;
                proof {
                    assert(self.files_changed@ =~= es.update(
                        i as int,
                        (
                            es[i as int].0,
                            FileChangeMetrics {
                                lines_added: (es[i as int].1.lines_added + lines_added) as u64,
                                lines_removed: (es[i as int].1.lines_removed
                                    + lines_removed) as u64,
                                operations_count: (es[i as int].1.operations_count + 1) as u64,
                            },
                        ),
                    ));
                    assert(keys_unique(self.files_changed@));
                }
                return ;
            }
            i = i + 1;
        }
        proof {
            assert(es.skip(n as int) =~= Seq::<(String, FileChangeMetrics)>::empty());
            assert(key_pos(es, path@) == n);
        }
        let mut fm = FileChangeMetrics::new();
        fm.add_operation(lines_added, lines_removed);
        self.files_changed.push((path, fm));
        self.total_lines_added = self.total_lines_added + lines_added;
        self.total_lines_removed = self.total_lines_removed + lines_removed;
        self.operations_count = self.operations_count + 1;
        proof {
            assert(self.files_changed@.subrange(0, es.len() as int) =~= es);
            assert(keys_unique(self.files_changed@)) by {
                assert(forall|j: int|
                    0 <= j < es.len() ==> (#[trigger] self.files_changed@[j]) == es[j]);
            }
        }
    }

    /// Milliseconds since tracking started, if it has; the clock may have
    /// moved, so only the presence of a value is promised.
    pub fn duration_millis(&self) -> (r: Option<u64>)
        ensures
            r is Some <==> self.started_at is Some,
    {
        match self.started_at {
            Some(start) => {
                let now = now_millis();
                if now >= start {
                    Some(now - start)
                } else {
                    Some(0)
                }
            },
            None => None,
        }
    }

    /// How many distinct files were changed.
    pub fn files_changed_count(&self) -> (r: usize)
        ensures
            r == self.files_changed@.len(),
    {
        self.files_changed.len()
    }

    /// Net change in lines across all files.
    pub fn net_change(&self) -> (r: i64)
        requires
            self.total_lines_added <= i64::MAX,
            self.total_lines_removed <= i64::MAX,
        ensures
            r == self.total_lines_added - self.total_lines_removed,
    {
        self.total_lines_added as i64 - self.total_lines_removed as i64
    }

    /// Back to a fresh state.
    pub fn reset(&mut self)
        ensures
            final(self).started_at is None,
            final(self).files_changed@.len() == 0,
            final(self).total_lines_added == 0,
            final(self).total_lines_removed == 0,
            final(self).operations_count == 0,
    {
        *self = Metrics::new();
    }
}

/// A session duration written as minutes and seconds.
pub open spec fn duration_text(total_seconds: nat) -> Seq<char> {
    dec_str(total_seconds / 60) + "m "@ + dec_str(total_seconds % 60) + "s"@
}

/// Formatted session summary for display.
#[derive(Clone, Debug)]
pub struct SessionSummary {
    pub duration: String,
    pub files_changed: usize,
    pub lines_added: u64,
    pub lines_removed: u64,
    pub net_change: i64,
    pub operations: u64,
}

/// The text of a summary, line by line.
pub open spec fn summary_text_spec(s: SessionSummary) -> Seq<char> {
    "SESSION SUMMARY\nDuration: "@ + s.duration@ + "\nFiles Changed: "@ + dec_str(
        s.files_changed as nat,
    ) + "\nLines Added: "@ + dec_str(s.lines_added as nat) + "\nLines Removed: "@ + dec_str(
        s.lines_removed as nat,
    ) + "\nNet Change: "@ + (if s.net_change >= 0 {
        "+"@
    } else {
        Seq::<char>::empty()
    }) + dec_str_i64(s.net_change as int) + " lines\nOperations: "@ + dec_str(
        s.operations as nat,
    ) + "\n"@
}

impl SessionSummary {
    /// The summary of the given metrics: counters copied, the duration
    /// written as minutes and seconds — zero when tracking never started.
    pub fn from_metrics(metrics: &Metrics) -> (r: SessionSummary)
        requires
            metrics.total_lines_added <= i64::MAX,
            metrics.total_lines_removed <= i64::MAX,
        ensures
            r.files_changed == metrics.files_changed@.len(),
            r.lines_added == metrics.total_lines_added,
            r.lines_removed == metrics.total_lines_removed,
            r.net_change == metrics.total_lines_added - metrics.total_lines_removed,
            r.operations == metrics.operations_count,
            metrics.started_at is None ==> r.duration@ == duration_text(0),
            exists|secs: nat| r.duration@ == duration_text(secs),
    {
        let duration: String = match metrics.duration_millis() {
            Some(ms) => {
                let total_seconds: u64 = ms / 1000;
                format_duration(total_seconds)
            },
            None => format_duration(0),
        };
        SessionSummary {
            duration,
            files_changed: metrics.files_changed_count(),
            lines_added: metrics.total_lines_added,
            lines_removed: metrics.total_lines_removed,
            net_change: metrics.net_change(),
            operations: metrics.operations_count,
        }
    }

    /// The summary as display text, one fact per line; the net change
    /// carries an explicit sign when it is not negative.
    pub fn summary_text(&self) -> (r: String)
        ensures
            r@ == summary_text_spec(*self),
    {
        let mut out = owned("SESSION SUMMARY\nDuration: ");
        append_str(&mut out, self.duration.as_str());
        append_str(&mut out, "\nFiles Changed: ");
        let fc = u64_to_dec_string(self.files_changed as u64);
        append_str(&mut out, fc.as_str());
        append_str(&mut out, "\nLines Added: ");
        let la = u64_to_dec_string(self.lines_added);
        append_str(&mut out, la.as_str());
        append_str(&mut out, "\nLines Removed: ");
        let lr = u64_to_dec_string(self.lines_removed);
        append_str(&mut out, lr.as_str());
        append_str(&mut out, "\nNet Change: ");
        if self.net_change >= 0 {
            append_str(&mut out, "+");
        }
        let nc = i64_to_dec_string(self.net_change);
        append_str(&mut out, nc.as_str());
        append_str(&mut out, " lines\nOperations: ");
        let ops = u64_to_dec_string(self.operations);
        append_str(&mut out, ops.as_str());
        append_str(&mut out, "\n");
        proof {
            if self.net_change >= 0 {
                reveal_strlit("+");
                assert("+"@ =~= seq!['+']);
            }
            assert(out@ =~= summary_text_spec(*self));
        }
        out
    }
}

/// Minutes and seconds of a second count.
fn format_duration(total_seconds: u64) -> (r: String)
    ensures
        r@ == duration_text(total_seconds as nat),
{
    let minutes = total_seconds / 60;
    let seconds = total_seconds % 60;
    let mut out = u64_to_dec_string(minutes);
    append_str(&mut out, "m ");
    let sec_str = u64_to_dec_string(seconds);
    append_str(&mut out, sec_str.as_str());
    append_str(&mut out, "s");
    proof {
        assert(out@ =~= duration_text(total_seconds as nat));
    }
    out
}

/// An owned string from a literal.
fn owned(s: &str) -> (r: String)
    ensures
        r@ == s@,
{
    s.to_owned()
}

} // verus!
