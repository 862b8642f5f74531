//! The bounded admin scan: replaying a window of log records and
//! applying replace/delete overlays to reconstruct the effective log
//! state, within a caller-supplied time budget.
//!
//! The scan itself is driven from outside: the caller subscribes, polls
//! the external log, and feeds each poll outcome into [`AdminScan::step`]
//! together with the wall-clock time the poll consumed.  Everything the
//! scan decides — overlay resolution, timeout, error handling — is here.

use vstd::prelude::*;
use vstd::utf8::valid_utf8;

use crate::args::DataFormat;
use crate::json_format::opt_int;
use crate::message::{envelope_decoded, JsonMessage, MessageHandler};
use crate::strbytes::string_bytes;

verus! {

/// One surviving row of the reconstructed view: the original offset it
/// stands at, the record that supplied its current content, and that
/// record's text.
pub struct ViewEntry {
    /// The offset this row stands at: the original message's offset.
    pub offset: i64,
    /// Offset of the record whose content this row currently shows;
    /// equals `offset` until a replacement arrives.
    pub source_offset: i64,
    /// Timestamp of the source record, in milliseconds.
    pub timestamp: i64,
    /// Author shown for this row.
    pub username: String,
    /// Text shown for this row.
    pub message: String,
    /// The offset this row's content replaced, when it came from a
    /// replacement record.
    pub replaces: Option<i64>,
}

impl ViewEntry {
    /// An exact copy of this entry.
    pub fn duplicate(&self) -> (r: ViewEntry)
        ensures
            r == *self,
    {
        ViewEntry {
            offset: self.offset,
            source_offset: self.source_offset,
            timestamp: self.timestamp,
            username: self.username.clone(),
            message: self.message.clone(),
            replaces: self.replaces,
        }
    }
}

/// The first entry standing at offset `k`, scanning left to right.
pub open spec fn lookup(s: Seq<ViewEntry>, k: i64) -> Option<ViewEntry>
    decreases s.len(),
{
    if s.len() == 0 {
        None
    } else if s[0].offset == k {
        Some(s[0])
    } else {
        lookup(s.skip(1), k)
    }
}

/// Entries in strictly ascending offset order (so offsets are unique).
pub open spec fn sorted(s: Seq<ViewEntry>) -> bool {
    forall|i: int, j: int| 0 <= i < j < s.len() ==> s[i].offset < s[j].offset
}

/// No entry stands at offset `k`, so lookup finds nothing.
proof fn lemma_lookup_absent(s: Seq<ViewEntry>, k: i64)
    requires
        forall|i: int| 0 <= i < s.len() ==> s[i].offset != k,
    ensures
        lookup(s, k) is None,
    decreases s.len(),
{
    if s.len() > 0 {
        lemma_lookup_absent(s.skip(1), k);
    }
}

/// The entries that survive deleting offset `dd`: those standing at a
/// different offset whose content also comes from a different record.
pub open spec fn keep_after_delete(s: Seq<ViewEntry>, dd: i64) -> Seq<ViewEntry>
    decreases s.len(),
{
    if s.len() == 0 {
        Seq::empty()
    } else {
        let rest = keep_after_delete(s.skip(1), dd);
        if s[0].offset == dd || s[0].source_offset == dd {
            rest
        } else {
            seq![s[0]] + rest
        }
    }
}

/// Deleting preserves order and removes exactly the rows standing at the
/// deleted offset or sourced from the deleted record.
proof fn lemma_keep_props(s: Seq<ViewEntry>, dd: i64)
    requires
        sorted(s),
    ensures
        sorted(keep_after_delete(s, dd)),
        forall|i: int| 0 <= i < keep_after_delete(s, dd).len() ==> s.contains(
            #[trigger] keep_after_delete(s, dd)[i],
        ),
        forall|k: i64|
            #![auto]
            lookup(keep_after_delete(s, dd), k) == (match lookup(s, k) {
                Some(e) => if k == dd || e.source_offset == dd {
                    Option::<ViewEntry>::None
                } else {
                    Some(e)
                },
                None => Option::<ViewEntry>::None,
            }),
    decreases s.len(),
{
    if s.len() == 0 {
    } else {
        let h = s[0];
        let t = s.skip(1);
        assert(sorted(t));
        lemma_keep_props(t, dd);
        let kt = keep_after_delete(t, dd);
        assert forall|i: int| 0 <= i < kt.len() implies s.contains(kt[i]) by {
            assert(t.contains(kt[i]));
            let j = choose|j: int| 0 <= j < t.len() && t[j] == kt[i];
            assert(s[j + 1] == kt[i]);
        }
        assert forall|i: int| 0 <= i < kt.len() implies h.offset < (#[trigger] kt[i]).offset by {
            assert(t.contains(kt[i]));
            let j = choose|j: int| 0 <= j < t.len() && t[j] == kt[i];
            assert(s[j + 1] == kt[i]);
            assert(s[0].offset < s[j + 1].offset);
        }
        if h.offset == dd || h.source_offset == dd {
            assert(keep_after_delete(s, dd) == kt);
            assert forall|k: i64|
                #![auto]
                lookup(keep_after_delete(s, dd), k) == (match lookup(s, k) {
                    Some(e) => if k == dd || e.source_offset == dd {
                        Option::<ViewEntry>::None
                    } else {
                        Some(e)
                    },
                    None => Option::<ViewEntry>::None,
                }) by {
                if h.offset == k {
                    assert(lookup(s, k) == Some(h));
                    assert(forall|i: int| 0 <= i < kt.len() ==> (#[trigger] kt[i]).offset != k);
                    lemma_lookup_absent(kt, k);
                    assert(k == dd || h.source_offset == dd);
                } else {
                    assert(lookup(s, k) == lookup(t, k));
                }
            }
        } else {
            let ks = seq![h] + kt;
            assert(keep_after_delete(s, dd) == ks);
            assert(ks[0] == h);
            assert(ks.skip(1) =~= kt);
            assert forall|i: int, j: int| 0 <= i < j < ks.len() implies ks[i].offset
                < ks[j].offset by {
                if i == 0 {
                    assert(ks[j] == kt[j - 1]);
                } else {
                    assert(ks[i] == kt[i - 1] && ks[j] == kt[j - 1]);
                }
            }
            assert forall|k: i64|
                #![auto]
                lookup(ks, k) == (match lookup(s, k) {
                    Some(e) => if k == dd || e.source_offset == dd {
                        Option::<ViewEntry>::None
                    } else {
                        Some(e)
                    },
                    None => Option::<ViewEntry>::None,
                }) by {
                if h.offset == k {
                    assert(lookup(ks, k) == Some(h));
                    assert(lookup(s, k) == Some(h));
                    assert(!(k == dd || h.source_offset == dd));
                } else {
                    assert(lookup(ks, k) == lookup(kt, k));
                    assert(lookup(s, k) == lookup(t, k));
                }
            }
        }
    }
}

/// Replacing the entry at its own offset changes only that offset's
/// lookup.
proof fn lemma_lookup_update(s: Seq<ViewEntry>, pos: int, e: ViewEntry)
    requires
        sorted(s),
        0 <= pos < s.len(),
        s[pos].offset == e.offset,
    ensures
        forall|k: i64|
            #![auto]
            lookup(s.update(pos, e), k) == (if k == e.offset {
                Some(e)
            } else {
                lookup(s, k)
            }),
    decreases pos,
{
    let u = s.update(pos, e);
    if pos == 0 {
        assert(u[0] == e);
        assert(u.skip(1) =~= s.skip(1));
        assert forall|k: i64|
            #![auto]
            lookup(u, k) == (if k == e.offset {
                Some(e)
            } else {
                lookup(s, k)
            }) by {
            if k == e.offset {
                assert(lookup(u, k) == Some(e));
            } else {
                assert(lookup(u, k) == lookup(u.skip(1), k));
                assert(lookup(s, k) == lookup(s.skip(1), k));
            }
        }
    } else {
        assert(u[0] == s[0]);
        assert(u.skip(1) =~= s.skip(1).update(pos - 1, e));
        assert(sorted(s.skip(1)));
        lemma_lookup_update(s.skip(1), pos - 1, e);
        assert(s[0].offset < s[pos].offset);
        assert forall|k: i64|
            #![auto]
            lookup(u, k) == (if k == e.offset {
                Some(e)
            } else {
                lookup(s, k)
            }) by {
            if k == s[0].offset {
                assert(lookup(u, k) == Some(s[0]));
                assert(lookup(s, k) == Some(s[0]));
                assert(k != e.offset);
            } else {
                assert(lookup(u, k) == lookup(u.skip(1), k));
                assert(lookup(s, k) == lookup(s.skip(1), k));
                assert(lookup(u.skip(1), k) == (if k == e.offset {
                    Some(e)
                } else {
                    lookup(s.skip(1), k)
                }));
            }
        }
    }
}

/// Inserting a new entry at its sorted position keeps the order and
/// changes only that offset's lookup.
proof fn lemma_lookup_insert(s: Seq<ViewEntry>, pos: int, e: ViewEntry)
    requires
        sorted(s),
        0 <= pos <= s.len(),
        forall|i: int| 0 <= i < pos ==> s[i].offset < e.offset,
        forall|i: int| pos <= i < s.len() ==> s[i].offset > e.offset,
    ensures
        sorted(s.insert(pos, e)),
        forall|k: i64|
            #![auto]
            lookup(s.insert(pos, e), k) == (if k == e.offset {
                Some(e)
            } else {
                lookup(s, k)
            }),
    decreases pos,
{
    let u = s.insert(pos, e);
    assert(forall|i: int| 0 <= i < pos ==> u[i] == s[i]);
    assert(u[pos] == e);
    assert(forall|i: int| pos < i < u.len() ==> u[i] == s[i - 1]);
    assert forall|i: int, j: int| 0 <= i < j < u.len() implies u[i].offset < u[j].offset by {}
    if pos == 0 {
        assert(u[0] == e);
        assert(u.skip(1) =~= s);
        assert forall|k: i64|
            #![auto]
            lookup(u, k) == (if k == e.offset {
                Some(e)
            } else {
                lookup(s, k)
            }) by {
            if k == e.offset {
                assert(lookup(u, k) == Some(e));
            } else {
                assert(lookup(u, k) == lookup(u.skip(1), k));
            }
        }
    } else {
        assert(u[0] == s[0]);
        assert(u.skip(1) =~= s.skip(1).insert(pos - 1, e));
        assert(sorted(s.skip(1)));
        lemma_lookup_insert(s.skip(1), pos - 1, e);
        assert(s[0].offset < e.offset);
        assert forall|k: i64|
            #![auto]
            lookup(u, k) == (if k == e.offset {
                Some(e)
            } else {
                lookup(s, k)
            }) by {
            if k == s[0].offset {
                assert(lookup(u, k) == Some(s[0]));
                assert(lookup(s, k) == Some(s[0]));
                assert(k != e.offset);
            } else {
                assert(lookup(u, k) == lookup(u.skip(1), k));
                assert(lookup(s, k) == lookup(s.skip(1), k));
                assert(lookup(u.skip(1), k) == (if k == e.offset {
                    Some(e)
                } else {
                    lookup(s.skip(1), k)
                }));
            }
        }
    }
}

/// The reconstructed effective state of the scanned window: surviving
/// rows in ascending offset order, plus the set of deleted offsets,
/// which always win over later records targeting them.
pub struct LogView {
    entries: Vec<ViewEntry>,
    deleted: Vec<i64>,
}

impl LogView {
    /// The surviving rows, in order.
    pub closed spec fn entry_seq(self) -> Seq<ViewEntry> {
        self.entries@
    }

    /// Every offset a delete record has targeted so far.
    pub closed spec fn deleted_seq(self) -> Seq<i64> {
        self.deleted@
    }

    /// Rows are strictly ordered by offset.
    pub closed spec fn wf(self) -> bool {
        sorted(self.entries@)
    }

    /// Whether offset `k` has been deleted.
    pub closed spec fn is_deleted(self, k: i64) -> bool {
        self.deleted@.contains(k)
    }

    /// A fresh, empty view.
    pub fn new() -> (r: LogView)
        ensures
            r.wf(),
            r.entry_seq().len() == 0,
            r.deleted_seq().len() == 0,
    {
        LogView { entries: Vec::new(), deleted: Vec::new() }
    }

    /// The surviving rows, in strictly ascending offset order.
    pub fn entries(&self) -> (r: &Vec<ViewEntry>)
        ensures
            r@ == self.entry_seq(),
            self.wf() ==> sorted(r@),
    {
        &self.entries
    }

    /// How many rows survive.
    pub fn message_count(&self) -> (r: usize)
        ensures
            r == self.entry_seq().len(),
    {
        self.entries.len()
    }

    /// Whether offset `k` has been deleted.
    fn contains_deleted(&self, k: i64) -> (r: bool)
        ensures
            r == self.is_deleted(k),
    {
        let mut i: usize = 0;
        while i < self.deleted.len()
            invariant
                i <= self.deleted@.len(),
                forall|j: int| 0 <= j < i ==> self.deleted@[j] != k,
            decreases self.deleted@.len() - i,
        {
            if self.deleted[i] == k {
                return true;
            }
            i = i + 1;
        }
        false
    }

    /// First position whose offset is not below `key`.
    fn find_pos(&self, key: i64) -> (pos: usize)
        requires
            self.wf(),
        ensures
            pos <= self.entry_seq().len(),
            forall|i: int| 0 <= i < pos ==> self.entry_seq()[i].offset < key,
            forall|i: int| pos <= i < self.entry_seq().len() ==> self.entry_seq()[i].offset
                >= key,
    {
        let mut pos: usize = 0;
        while pos < self.entries.len() && self.entries[pos].offset < key
            invariant
                pos <= self.entries@.len(),
                forall|i: int| 0 <= i < pos ==> self.entries@[i].offset < key,
                sorted(self.entries@),
            decreases self.entries@.len() - pos,
        {
            pos = pos + 1;
        }
        proof {
            if pos < self.entries@.len() {
                assert forall|i: int|
                    pos <= i < self.entries@.len() implies self.entries@[i].offset >= key by {
                    if i > pos {
                        assert(self.entries@[pos as int].offset < self.entries@[i].offset);
                    }
                }
            }
        }
        pos
    }

    /// Puts `e` at its offset: overwrites the row standing there, or
    /// inserts a new row in order.
    fn upsert(&mut self, e: ViewEntry)
        requires
            old(self).wf(),
        ensures
            final(self).wf(),
            final(self).deleted_seq() == old(self).deleted_seq(),
            forall|k: i64|
                #![auto]
                lookup(final(self).entry_seq(), k) == (if k == e.offset {
                    Some(e)
                } else {
                    lookup(old(self).entry_seq(), k)
                }),
    {
        let pos = self.find_pos(e.offset);
        if pos < self.entries.len() && self.entries[pos].offset == e.offset {
            self.entries.remove(pos);
            self.entries.insert(pos, e);
            proof {
                assert(self.entries@ =~= old(self).entries@.update(pos as int, e));
                lemma_lookup_update(old(self).entries@, pos as int, e);
                assert forall|i: int, j: int|
                    0 <= i < j < self.entries@.len() implies self.entries@[i].offset
                    < self.entries@[j].offset by {
                    assert(old(self).entries@[i].offset < old(self).entries@[j].offset);
                }
            }
        } else {
            self.entries.insert(pos, e);
            proof {
                lemma_lookup_insert(old(self).entries@, pos as int, e);
            }
        }
    }

    /// Applies one decoded record to the view, in arrival order:
    /// - a delete record removes the row at its target and any row whose
    ///   content came from the target record, and remembers the target,
    ///   so that later records on that offset stay dead;
    /// - a replace record overwrites the row at its target with its own
    ///   content, unless the target or the record itself was deleted;
    /// - a plain record starts a new row at its own offset, unless that
    ///   offset was deleted.
    pub fn apply_record(&mut self, offset: i64, timestamp: i64, env: &JsonMessage)
        requires
            old(self).wf(),
        ensures
            final(self).wf(),
            apply_rel(*old(self), *final(self), offset, timestamp, *env),
    {
        if let Some(dd) = env.delete_offset {
            self.deleted.push(dd);
            let kept = keep_exec(&self.entries, 0, dd);
            proof {
                assert(self.entries@.skip(0) =~= self.entries@);
                lemma_keep_props(self.entries@, dd);
            }
            self.entries = kept;
            return ;
        }
        if let Some(t) = env.replaces_offset {
            if self.contains_deleted(t) || self.contains_deleted(offset) {
                return ;
            }
            let e = ViewEntry {
                offset: t,
                source_offset: offset,
                timestamp,
                username: env.username.clone(),
                message: env.message.clone(),
                replaces: Some(t),
            };
            self.upsert(e);
            return ;
        }
        if self.contains_deleted(offset) {
            return ;
        }
        let e = ViewEntry {
            offset,
            source_offset: offset,
            timestamp,
            username: env.username.clone(),
            message: env.message.clone(),
            replaces: None,
        };
        self.upsert(e);
    }
}

/// Exactly how one decoded record changes the view, row by row.
pub open spec fn apply_rel(
    pre: LogView,
    post: LogView,
    offset: i64,
    timestamp: i64,
    env: JsonMessage,
) -> bool {
    match env.delete_offset {
        Some(dd) => {
            &&& post.deleted_seq() == pre.deleted_seq().push(dd)
            &&& forall|k: i64|
                #![auto]
                lookup(post.entry_seq(), k) == (match lookup(pre.entry_seq(), k) {
                    Some(e) => if k == dd || e.source_offset == dd {
                        Option::<ViewEntry>::None
                    } else {
                        Some(e)
                    },
                    None => Option::<ViewEntry>::None,
                })
        },
        None => {
            &&& post.deleted_seq() == pre.deleted_seq()
            &&& match env.replaces_offset {
                Some(t) => if pre.is_deleted(t) || pre.is_deleted(offset) {
                    post.entry_seq() == pre.entry_seq()
                } else {
                    forall|k: i64|
                        #![auto]
                        lookup(post.entry_seq(), k) == (if k == t {
                            Some(
                                (ViewEntry {
                                    offset: t,
                                    source_offset: offset,
                                    timestamp,
                                    username: env.username,
                                    message: env.message,
                                    replaces: Some(t),
                                }),
                            )
                        } else {
                            lookup(pre.entry_seq(), k)
                        })
                },
                None => if pre.is_deleted(offset) {
                    post.entry_seq() == pre.entry_seq()
                } else {
                    forall|k: i64|
                        #![auto]
                        lookup(post.entry_seq(), k) == (if k == offset {
                            Some(
                                (ViewEntry {
                                    offset,
                                    source_offset: offset,
                                    timestamp,
                                    username: env.username,
                                    message: env.message,
                                    replaces: None,
                                }),
                            )
                        } else {
                            lookup(pre.entry_seq(), k)
                        })
                },
            }
        },
    }
}

/// Builds the rows of `v` from position `i` on that survive deleting
/// offset `dd`.
fn keep_exec(v: &Vec<ViewEntry>, i: usize, dd: i64) -> (r: Vec<ViewEntry>)
    requires
        i <= v@.len(),
    ensures
        r@ == keep_after_delete(v@.skip(i as int), dd),
    decreases v@.len() - i,
{
    if i == v.len() {
        let out: Vec<ViewEntry> = Vec::new();
        assert(v@.skip(i as int).len() == 0);
        return out;
    }
    let mut rest = keep_exec(v, i + 1, dd);
    assert(v@.skip(i as int)[0] == v@[i as int]);
    assert(v@.skip(i as int).skip(1) =~= v@.skip(i + 1));
    let e = &v[i];
    if e.offset == dd || e.source_offset == dd {
        rest
    } else {
        let mut out: Vec<ViewEntry> = Vec::new();
        out.push(e.duplicate());
        out.append(&mut rest);
        assert(out@ =~= seq![v@[i as int]] + keep_after_delete(v@.skip(i + 1), dd));
        out
    }
}

/// The scan clock after charging `spent` milliseconds to `e`,
/// saturating at the top of the range.
pub open spec fn charged(e: u64, spent: u64) -> u64 {
    if e + spent > u64::MAX {
        u64::MAX
    } else {
        (e + spent) as u64
    }
}

/// Polling makes progress toward the deadline: a poll that charges at
/// least one millisecond strictly advances the clock or saturates it,
/// and once the clock has reached a budget below the top of the range,
/// one more such poll pushes it past the budget — so an idle scan with
/// budget `b` times out after at most `b + 1` polls.
pub proof fn lemma_poll_progress(e: u64, spent: u64, budget: u64)
    requires
        spent >= 1,
        budget < u64::MAX,
    ensures
        charged(e, spent) > e || charged(e, spent) == u64::MAX,
        e >= budget ==> charged(e, spent) > budget,
{
}

/// Where the scan stands: waiting for the subscription to settle,
/// polling, or one of the two terminal states.
#[derive(Clone, Copy, Debug, PartialEq, Eq, Structural)]
pub enum ScanState {
    /// Subscribed; the settle delay has not elapsed yet.
    Subscribing,
    /// Polling the log and applying overlays.
    Polling,
    /// The time budget ran out: a normal terminal state, the view holds
    /// everything scanned so far.
    TimedOut,
    /// The log client reported a hard error; the view holds what was
    /// accumulated before it.
    StreamError,
}

/// One outcome of polling the external log.
pub enum PollEvent {
    /// A record arrived.
    Record {
        /// Log-assigned offset of the record.
        offset: i64,
        /// Record timestamp in milliseconds, zero when unavailable.
        timestamp: i64,
        /// Raw payload bytes.
        payload: Vec<u8>,
    },
    /// The poll returned empty-handed; only the clock advanced.
    Empty,
    /// The poll failed hard.
    StreamFailure,
}

/// The bounded scan: a fold over poll outcomes, charging elapsed time
/// against a fixed budget.
pub struct AdminScan {
    /// Where the scan stands.
    pub state: ScanState,
    /// The reconstructed view so far.
    pub view: LogView,
    /// The wire format of the scanned topic.
    pub format: DataFormat,
    /// Time charged so far, in milliseconds.
    pub elapsed_ms: u64,
    /// The overall budget, in milliseconds.
    pub budget_ms: u64,
    /// Records that failed to decode and were skipped.
    pub decode_failures: u64,
}

impl AdminScan {
    /// A fresh scan over a topic in the given format, with the given
    /// time budget.
    pub fn new(format: DataFormat, budget_ms: u64) -> (r: AdminScan)
        ensures
            r.state == ScanState::Subscribing,
            r.view.wf(),
            r.view.entry_seq().len() == 0,
            r.view.deleted_seq().len() == 0,
            r.format == format,
            r.elapsed_ms == 0,
            r.budget_ms == budget_ms,
            r.decode_failures == 0,
    {
        AdminScan {
            state: ScanState::Subscribing,
            view: LogView::new(),
            format,
            elapsed_ms: 0,
            budget_ms,
            decode_failures: 0,
        }
    }

    /// The settle delay is over: polling may begin.
    pub fn start_polling(&mut self)
        requires
            old(self).state == ScanState::Subscribing,
        ensures
            final(self).state == ScanState::Polling,
            final(self).view == old(self).view,
            final(self).format == old(self).format,
            final(self).elapsed_ms == old(self).elapsed_ms,
            final(self).budget_ms == old(self).budget_ms,
            final(self).decode_failures == old(self).decode_failures,
    {
        self.state = ScanState::Polling;
    }

    /// Whether the scan is over.
    pub fn finished(&self) -> (r: bool)
        ensures
            r == (self.state == ScanState::TimedOut || self.state == ScanState::StreamError),
    {
        match self.state {
            ScanState::TimedOut => true,
            ScanState::StreamError => true,
            _ => false,
        }
    }

    /// Feeds one poll outcome into the scan, charging `spent_ms` of
    /// wall-clock time.  A record is decoded and applied to the view; a
    /// record that fails to decode is counted and skipped, never ending
    /// the scan; a hard stream error ends the scan at once; and once the
    /// charged time exceeds the budget the scan times out, keeping
    /// everything accumulated.
    pub fn step(&mut self, event: PollEvent, spent_ms: u64)
        requires
            old(self).state == ScanState::Polling,
            old(self).view.wf(),
        ensures
            final(self).view.wf(),
            final(self).format == old(self).format,
            final(self).budget_ms == old(self).budget_ms,
            final(self).elapsed_ms == charged(old(self).elapsed_ms, spent_ms),
            (match event {
                PollEvent::StreamFailure => final(self).state == ScanState::StreamError,
                _ => final(self).state == (if final(self).elapsed_ms > final(self).budget_ms {
                    ScanState::TimedOut
                } else {
                    ScanState::Polling
                }),
            }),
            (match event {
                PollEvent::Empty => final(self).view == old(self).view
                    && final(self).decode_failures == old(self).decode_failures,
                PollEvent::StreamFailure => final(self).view == old(self).view
                    && final(self).decode_failures == old(self).decode_failures,
                PollEvent::Record { offset, timestamp, payload } => {
                    match envelope_decoded(old(self).format, payload@) {
                        Some(p) => {
                            if valid_utf8(p.0) && valid_utf8(p.1) {
                                &&& final(self).decode_failures == old(self).decode_failures
                                &&& exists|env: JsonMessage|
                                    {
                                        &&& string_bytes(&env.username) == p.0
                                        &&& string_bytes(&env.message) == p.1
                                        &&& opt_int(env.replaces_offset) == p.2
                                        &&& opt_int(env.delete_offset) == p.3
                                        &&& apply_rel(
                                            old(self).view,
                                            final(self).view,
                                            offset,
                                            timestamp,
                                            env,
                                        )
                                    }
                            } else {
                                &&& final(self).view == old(self).view
                                &&& final(self).decode_failures == (if old(self).decode_failures
                                    == u64::MAX {
                                    u64::MAX
                                } else {
                                    (old(self).decode_failures + 1) as u64
                                })
                            }
                        },
                        None => {
                            &&& final(self).view == old(self).view
                            &&& final(self).decode_failures == (if old(self).decode_failures
                                == u64::MAX {
                                u64::MAX
                            } else {
                                (old(self).decode_failures + 1) as u64
                            })
                        },
                    }
                },
            }),
    {
        self.elapsed_ms = self.elapsed_ms.saturating_add(spent_ms);
        match event {
            PollEvent::StreamFailure => {
                self.state = ScanState::StreamError;
            },
            PollEvent::Empty => {
                if self.elapsed_ms > self.budget_ms {
                    self.state = ScanState::TimedOut;
                }
            },
            PollEvent::Record { offset, timestamp, payload } => {
                match MessageHandler::deserialize_envelope(payload.as_slice(), self.format) {
                    Ok(env) => {
                        self.view.apply_record(offset, timestamp, &env);
                        proof {
                            let p = envelope_decoded(old(self).format, payload@)->Some_0;
                            assert(string_bytes(&env.username) == p.0 && string_bytes(
                                &env.message,
                            ) == p.1 && opt_int(env.replaces_offset) == p.2 && opt_int(
                                env.delete_offset,
                            ) == p.3 && apply_rel(
                                old(self).view,
                                self.view,
                                offset,
                                timestamp,
                                env,
                            ));
                        }
                    },
                    Err(_) => {
                        self.decode_failures = self.decode_failures.saturating_add(1);
                    },
                }
                if self.elapsed_ms > self.budget_ms {
                    self.state = ScanState::TimedOut;
                }
            },
        }
    }
}

} // verus!
