use vstd::prelude::*;
use crate::adobe_media_encoder_log::{AdobeMediaEncoderLog, Entry, EntryView};
use crate::datetime::{format_datetime, formatted_datetime_of};
use crate::doc::{object_texts, push_text_field, Doc};
use crate::text::{
    lemma_replaced_absent, lemma_replaced_leaves_none, no_new_occurrence, occurs, replace_all, replaced,
};

verus! {

/// How an outbound record writes its completion time, read by `chrono`.
pub const RECORD_TIME_FORMAT: &'static str = "%Y-%m-%dT%H:%M:%S";

/// Whether a record at time `t` is still to be sent past checkpoint `cp`.
pub open spec fn above(cp: Option<i64>, t: i64) -> bool {
    match cp {
        None => true,
        Some(c) => t > c,
    }
}

/// The checkpoint once a record at time `t` has been sent.
pub open spec fn advanced(cp: Option<i64>, t: i64) -> Option<i64> {
    match cp {
        None => Some(t),
        Some(c) => Some(if t > c { t } else { c }),
    }
}

/// Whether checkpoint `a` is not past checkpoint `b`.
pub open spec fn not_after(a: Option<i64>, b: Option<i64>) -> bool {
    match (a, b) {
        (None, _) => true,
        (Some(_), None) => false,
        (Some(x), Some(y)) => x <= y,
    }
}

/// The earliest time in `ts` that is past the checkpoint.
pub open spec fn min_above(ts: Seq<i64>, cp: Option<i64>) -> Option<i64>
    decreases ts.len(),
{
    if ts.len() == 0 {
        None
    } else {
        let rest = min_above(ts.drop_last(), cp);
        let t = ts.last();
        if above(cp, t) {
            match rest {
                None => Some(t),
                Some(m) => Some(if t < m { t } else { m }),
            }
        } else {
            rest
        }
    }
}

/// The completion times of a log's entries, in order.
pub open spec fn times(entries: Seq<EntryView>) -> Seq<i64> {
    entries.map_values(|e: EntryView| e.date_time)
}

/// What `min_above` picks: a time of `ts` past the checkpoint and no later
/// than any other such time; nothing when there is none.
pub proof fn lemma_min_above(ts: Seq<i64>, cp: Option<i64>)
    ensures
        match min_above(ts, cp) {
            Some(m) => above(cp, m) && (exists|i: int| 0 <= i < ts.len() && ts[i] == m) && (forall|j: int|
                0 <= j < ts.len() && above(cp, #[trigger] ts[j]) ==> m <= ts[j]),
            None => forall|j: int| 0 <= j < ts.len() ==> !above(cp, #[trigger] ts[j]),
        },
    decreases ts.len(),
{
    if ts.len() > 0 {
        let init = ts.drop_last();
        lemma_min_above(init, cp);
        assert forall|j: int| 0 <= j < init.len() implies init[j] == ts[j] by {}
        match min_above(init, cp) {
            Some(m) => {
                let i = choose|i: int| 0 <= i < init.len() && init[i] == m;
                assert(ts[i] == m);
            },
            None => {},
        }
        assert(ts[ts.len() - 1] == ts.last());
    }
}

/// A path with every occurrence of the mount prefix replaced by the local
/// root.
pub open spec fn rewritten(path: Seq<char>, mount: Seq<char>, root: Seq<char>) -> Seq<char> {
    replaced(path, mount, root)
}

/// Replaces the mount prefix by the local root throughout a path.
pub fn rewrite_path(path: &str, mount: &str, root: &str) -> (r: String)
    ensures
        r@ == rewritten(path@, mount@, root@),
{
    replace_all(path, mount, root)
}

/// Rewriting leaves a path without the mount prefix as it is; and where the
/// rewrite forms no new occurrence of the mount prefix across a substituted
/// root (which also asks that the root hold none), the rewritten path holds
/// no occurrence of it, so that rewriting it again changes nothing.
pub proof fn lemma_rewrite_idempotent(path: Seq<char>, mount: Seq<char>, root: Seq<char>)
    ensures
        !occurs(path, mount) ==> rewritten(path, mount, root) == path,
        mount.len() > 0 && no_new_occurrence(path, mount, root) ==> {
            &&& !occurs(rewritten(path, mount, root), mount)
            &&& rewritten(rewritten(path, mount, root), mount, root) == rewritten(path, mount, root)
        },
{
    if !occurs(path, mount) {
        lemma_replaced_absent(path, mount, root);
    }
    if mount.len() > 0 && no_new_occurrence(path, mount, root) {
        lemma_replaced_leaves_none(path, mount, root);
        lemma_replaced_absent(rewritten(path, mount, root), mount, root);
    }
}

/// The fields of an outbound record: its completion time as text (null where
/// it cannot be written), then its output path and its preset where known.
pub open spec fn record_fields(e: EntryView, date: Option<Seq<char>>) -> Seq<(Seq<char>, Option<Seq<char>>)> {
    let base = seq![("date_time"@, date)];
    let with_output = match e.output_filename {
        Some(o) => base.push(("output_filename"@, Some(o))),
        None => base,
    };
    match e.preset {
        Some(p) => with_output.push(("preset"@, Some(p))),
        None => with_output,
    }
}

/// An entry with its output path rewritten.
pub open spec fn rewritten_entry(e: EntryView, mount: Seq<char>, root: Seq<char>) -> EntryView {
    EntryView {
        output_filename: match e.output_filename {
            Some(o) => Some(rewritten(o, mount, root)),
            None => None,
        },
        ..e
    }
}

/// The payload of the event that announces one finished encoding, with its
/// output path rewritten from the mount prefix to the local root.
pub fn outbound_record(entry: &Entry, mount: &str, root: &str) -> (r: Doc)
    ensures
        object_texts(r) == Some(
            record_fields(
                rewritten_entry(entry@, mount@, root@),
                formatted_datetime_of(entry.date_time, RECORD_TIME_FORMAT@),
            ),
        ),
{
    let mut fields: Vec<(String, Doc)> = Vec::new();
    let date = format_datetime(entry.date_time, RECORD_TIME_FORMAT);
    push_text_field(&mut fields, "date_time", date);
    match &entry.output_filename {
        Some(o) => push_text_field(&mut fields, "output_filename", Some(rewrite_path(o.as_str(), mount, root))),
        None => {},
    }
    match &entry.preset {
        Some(p) => push_text_field(&mut fields, "preset", Some(p.clone())),
        None => {},
    }
    Doc::Object(fields)
}

/// Follows one log across polling cycles: the checkpoint is the time of the
/// latest record sent, and only records past it are still to be sent.
pub struct Tailer {
    pub checkpoint: Option<i64>,
}

impl Tailer {
    /// A tailer that resumes from the checkpoint the backend handed over.
    pub fn new(checkpoint: Option<i64>) -> (r: Tailer)
        ensures
            r.checkpoint == checkpoint,
    {
        Tailer { checkpoint }
    }

    /// Whether a record at time `t` is still to be sent.
    pub fn should_emit(&self, t: i64) -> (r: bool)
        ensures
            r == above(self.checkpoint, t),
    {
        match self.checkpoint {
            None => true,
            Some(c) => t > c,
        }
    }

    /// The entry to send next: one with the earliest time past the
    /// checkpoint, or `None` once nothing is left to send this cycle.
    pub fn next_record(&self, log: &AdobeMediaEncoderLog) -> (r: Option<usize>)
        ensures
            match r {
                Some(i) => i < log@.len() && min_above(times(log@), self.checkpoint) == Some(
                    log@[i as int].date_time,
                ),
                None => min_above(times(log@), self.checkpoint).is_none(),
            },
    {
        let ghost ts = times(log@);
        let mut best: Option<usize> = None;
        let mut i: usize = 0;
        while i < log.entries.len()
            invariant
                ts == times(log@),
                ts.len() == log.entries@.len(),
                i <= ts.len(),
                match best {
                    Some(b) => b < i && min_above(ts.subrange(0, i as int), self.checkpoint) == Some(ts[b as int]),
                    None => min_above(ts.subrange(0, i as int), self.checkpoint).is_none(),
                },
            decreases log.entries.len() - i,
        {
            let t = log.entries[i].date_time;
            assert(ts[i as int] == t);
            assert(ts.subrange(0, i + 1).drop_last() == ts.subrange(0, i as int));
            if self.should_emit(t) {
                match best {
                    None => {
                        best = Some(i);
                    },
                    Some(b) => {
                        if t < log.entries[b].date_time {
                            best = Some(i);
                        }
                    },
                }
            }
            i = i + 1;
        }
        assert(ts.subrange(0, ts.len() as int) == ts);
        best
    }

    /// Moves the checkpoint to a record just sent; it never moves back.
    pub fn record_sent(&mut self, t: i64)
        ensures
            final(self).checkpoint == advanced(old(self).checkpoint, t),
    {
        self.checkpoint = match self.checkpoint {
            None => Some(t),
            Some(c) => Some(if t > c { t } else { c }),
        };
    }
}

/// The times sent in one cycle over a log with times `ts`, from checkpoint
/// `cp`, when the first `n` sends succeed: the earliest time past the
/// checkpoint each time, until nothing is left.
pub open spec fn cycle_sends(ts: Seq<i64>, cp: Option<i64>, n: nat) -> Seq<i64>
    decreases n,
{
    if n == 0 {
        Seq::empty()
    } else {
        match min_above(ts, cp) {
            None => Seq::empty(),
            Some(m) => seq![m] + cycle_sends(ts, advanced(cp, m), (n - 1) as nat),
        }
    }
}

/// The checkpoint after such a cycle.
pub open spec fn cycle_checkpoint(ts: Seq<i64>, cp: Option<i64>, n: nat) -> Option<i64>
    decreases n,
{
    if n == 0 {
        cp
    } else {
        match min_above(ts, cp) {
            None => cp,
            Some(m) => cycle_checkpoint(ts, advanced(cp, m), (n - 1) as nat),
        }
    }
}

/// The times sent over a run of cycles, each over the log as it then reads
/// (`logs[k]`) and with its own number of successful sends (`counts[k]`).
pub open spec fn cycles_sends(logs: Seq<Seq<i64>>, counts: Seq<nat>, cp: Option<i64>) -> Seq<i64>
    decreases logs.len(),
{
    if logs.len() == 0 || counts.len() == 0 {
        Seq::empty()
    } else {
        cycle_sends(logs[0], cp, counts[0]) + cycles_sends(
            logs.drop_first(),
            counts.drop_first(),
            cycle_checkpoint(logs[0], cp, counts[0]),
        )
    }
}

/// The checkpoint after a run of cycles.
pub open spec fn cycles_checkpoint(logs: Seq<Seq<i64>>, counts: Seq<nat>, cp: Option<i64>) -> Option<i64>
    decreases logs.len(),
{
    if logs.len() == 0 || counts.len() == 0 {
        cp
    } else {
        cycles_checkpoint(logs.drop_first(), counts.drop_first(), cycle_checkpoint(logs[0], cp, counts[0]))
    }
}

pub open spec fn strictly_increasing(s: Seq<i64>) -> bool {
    forall|i: int, j: int| 0 <= i < j < s.len() ==> s[i] < s[j]
}

/// What one cycle sends is strictly increasing and past the checkpoint it
/// started from; the checkpoint ends at the last time sent.
pub proof fn lemma_cycle(ts: Seq<i64>, cp: Option<i64>, n: nat)
    ensures
        strictly_increasing(cycle_sends(ts, cp, n)),
        forall|i: int| 0 <= i < cycle_sends(ts, cp, n).len() ==> above(cp, #[trigger] cycle_sends(ts, cp, n)[i]),
        not_after(cp, cycle_checkpoint(ts, cp, n)),
        forall|i: int| 0 <= i < cycle_sends(ts, cp, n).len() ==> !above(
            cycle_checkpoint(ts, cp, n),
            #[trigger] cycle_sends(ts, cp, n)[i],
        ),
    decreases n,
{
    if n > 0 {
        lemma_min_above(ts, cp);
        match min_above(ts, cp) {
            None => {},
            Some(m) => {
                let next = advanced(cp, m);
                lemma_cycle(ts, next, (n - 1) as nat);
                let rest = cycle_sends(ts, next, (n - 1) as nat);
                let all = cycle_sends(ts, cp, n);
                assert(all == seq![m] + rest);
                assert forall|i: int| 0 <= i < all.len() implies above(cp, #[trigger] all[i]) by {
                    if i > 0 {
                        assert(all[i] == rest[i - 1]);
                    }
                }
                assert forall|i: int, j: int| 0 <= i < j < all.len() implies all[i] < all[j] by {
                    assert(all[j] == rest[j - 1]);
                    if i > 0 {
                        assert(all[i] == rest[i - 1]);
                    }
                }
                assert forall|i: int| 0 <= i < all.len() implies !above(
                    cycle_checkpoint(ts, cp, n),
                    #[trigger] all[i],
                ) by {
                    if i > 0 {
                        assert(all[i] == rest[i - 1]);
                    }
                }
            },
        }
    }
}

/// Over any run of polling cycles, whatever each cycle's log holds and
/// wherever its sends stop, the checkpoint never moves back and what is sent
/// is strictly increasing and past the starting checkpoint: no record is
/// sent twice, and none at or before a checkpoint is sent after it.
pub proof fn lemma_cycles_monotonic(logs: Seq<Seq<i64>>, counts: Seq<nat>, cp: Option<i64>)
    ensures
        not_after(cp, cycles_checkpoint(logs, counts, cp)),
        strictly_increasing(cycles_sends(logs, counts, cp)),
        forall|i: int| 0 <= i < cycles_sends(logs, counts, cp).len() ==> above(
            cp,
            #[trigger] cycles_sends(logs, counts, cp)[i],
        ),
        forall|i: int| 0 <= i < cycles_sends(logs, counts, cp).len() ==> !above(
            cycles_checkpoint(logs, counts, cp),
            #[trigger] cycles_sends(logs, counts, cp)[i],
        ),
    decreases logs.len(),
{
    if logs.len() > 0 && counts.len() > 0 {
        let first = cycle_sends(logs[0], cp, counts[0]);
        let mid = cycle_checkpoint(logs[0], cp, counts[0]);
        lemma_cycle(logs[0], cp, counts[0]);
        lemma_cycles_monotonic(logs.drop_first(), counts.drop_first(), mid);
        let rest = cycles_sends(logs.drop_first(), counts.drop_first(), mid);
        let last = cycles_checkpoint(logs.drop_first(), counts.drop_first(), mid);
        let all = cycles_sends(logs, counts, cp);
        assert(all == first + rest);
        assert forall|i: int| 0 <= i < all.len() implies above(cp, #[trigger] all[i]) by {
            if i >= first.len() {
                assert(all[i] == rest[i - first.len()]);
                assert(above(mid, rest[i - first.len()]));
            }
        }
        assert forall|i: int, j: int| 0 <= i < j < all.len() implies all[i] < all[j] by {
            if j >= first.len() {
                assert(all[j] == rest[j - first.len()]);
                assert(above(mid, rest[j - first.len()]));
                if i < first.len() {
                    assert(!above(mid, first[i]));
                } else {
                    assert(all[i] == rest[i - first.len()]);
                }
            }
        }
        assert forall|i: int| 0 <= i < all.len() implies !above(last, #[trigger] all[i]) by {
            if i < first.len() {
                assert(!above(mid, first[i]));
                assert(not_after(mid, last));
            } else {
                assert(all[i] == rest[i - first.len()]);
            }
        }
    }
}

/// How many times of `ts` are past the checkpoint.
pub open spec fn count_above(ts: Seq<i64>, cp: Option<i64>) -> nat
    decreases ts.len(),
{
    if ts.len() == 0 {
        0
    } else {
        count_above(ts.drop_last(), cp) + if above(cp, ts.last()) { 1nat } else { 0nat }
    }
}

/// A later checkpoint leaves fewer times past it, strictly fewer when a time
/// of `ts` lies between the two.
proof fn lemma_count_above_shrinks(ts: Seq<i64>, a: Option<i64>, b: Option<i64>, k: int)
    requires
        forall|t: i64| above(b, t) ==> above(a, t),
        0 <= k < ts.len(),
        above(a, ts[k]),
        !above(b, ts[k]),
    ensures
        count_above(ts, b) < count_above(ts, a),
    decreases ts.len(),
{
    lemma_count_above_le(ts.drop_last(), a, b);
    if k < ts.len() - 1 {
        assert(ts.drop_last()[k] == ts[k]);
        lemma_count_above_shrinks(ts.drop_last(), a, b, k);
    }
}

proof fn lemma_count_above_le(ts: Seq<i64>, a: Option<i64>, b: Option<i64>)
    requires
        forall|t: i64| above(b, t) ==> above(a, t),
    ensures
        count_above(ts, b) <= count_above(ts, a),
    decreases ts.len(),
{
    if ts.len() > 0 {
        lemma_count_above_le(ts.drop_last(), a, b);
    }
}

/// A cycle whose sends all succeed sends every time of the log past the
/// checkpoint it started from: given as many sends as there are such
/// records, none is lost.
pub proof fn lemma_cycle_complete(ts: Seq<i64>, cp: Option<i64>, n: nat)
    requires
        n >= count_above(ts, cp),
    ensures
        forall|i: int| 0 <= i < ts.len() && above(cp, #[trigger] ts[i]) ==> cycle_sends(ts, cp, n).contains(ts[i]),
    decreases n,
{
    lemma_min_above(ts, cp);
    assert forall|i: int| 0 <= i < ts.len() && above(cp, #[trigger] ts[i]) implies cycle_sends(ts, cp, n).contains(
        ts[i],
    ) by {
        let m = min_above(ts, cp).unwrap();
        let k = choose|k: int| 0 <= k < ts.len() && ts[k] == m;
        assert(above(cp, ts[k]) && !above(Some(m), ts[k]));
        lemma_count_above_shrinks(ts, cp, Some(m), k);
        let all = cycle_sends(ts, cp, n);
        let rest = cycle_sends(ts, advanced(cp, m), (n - 1) as nat);
        assert(all == seq![m] + rest);
        if ts[i] == m {
            assert(all[0] == m);
        } else {
            assert(above(Some(m), ts[i]));
            lemma_cycle_complete(ts, Some(m), (n - 1) as nat);
            let j = choose|j: int| 0 <= j < rest.len() && rest[j] == ts[i];
            assert(all[j + 1] == ts[i]);
        }
    }
}

/// From a checkpoint at the first of three increasing times, the records
/// are picked at the second time, then at the third, then no more.
pub proof fn lemma_replay_resumption(ts: Seq<i64>, t1: i64, t2: i64, t3: i64)
    requires
        t1 < t2 < t3,
        forall|i: int| 0 <= i < ts.len() ==> #[trigger] ts[i] == t1 || ts[i] == t2 || ts[i] == t3,
        exists|i: int| 0 <= i < ts.len() && ts[i] == t2,
        exists|i: int| 0 <= i < ts.len() && ts[i] == t3,
    ensures
        min_above(ts, Some(t1)) == Some(t2),
        advanced(Some(t1), t2) == Some(t2),
        min_above(ts, Some(t2)) == Some(t3),
        advanced(Some(t2), t3) == Some(t3),
        min_above(ts, Some(t3)).is_none(),
{
    lemma_min_above(ts, Some(t1));
    lemma_min_above(ts, Some(t2));
    lemma_min_above(ts, Some(t3));
    let i2 = choose|i: int| 0 <= i < ts.len() && ts[i] == t2;
    let i3 = choose|i: int| 0 <= i < ts.len() && ts[i] == t3;
    assert(above(Some(t1), ts[i2]));
    assert(above(Some(t2), ts[i3]));
}

} // verus!
