//! The durable event stream. A dedicated events ledger is the ordered source
//! of truth and each entry's `entry_ulid` is the cursor clients carry; replay
//! and range reads are bounded reads of that ledger alone.
use vstd::prelude::*;
use crate::json::{Json, JsonView, jget, jstr, get, get_str, json_clone, push_member, members_view, object_of};
use crate::envelope::{strings_view, opt_string_view};
use crate::text::{owned, str_eq};

verus! {

/// One event frame; `cursor` is the emitting ledger entry's `entry_ulid`.
pub struct EventFrame {
    pub cursor: String,
    /// Event kind, e.g. `case.submitted`.
    pub kind: String,
    pub case_id: Option<String>,
    pub run_id: Option<String>,
    pub detail: Json,
    /// The ledger entry's commit timestamp.
    pub committed_at: String,
}

/// The most events one catch-up burst or range read returns.
pub const EVENTS_REPLAY_CAP: usize = 500;

/// The ledger record kind of the events stream.
pub const EVENT_RECORD_KIND: &'static str = "sfwp_event";

/// An entry of the events ledger, as the stream reads it.
pub struct EventLedgerEntry {
    pub entry_ulid: String,
    pub record_kind: String,
    pub append_ordinal: u64,
    pub payload: Json,
    pub committed_at: String,
}

pub struct FrameView {
    pub cursor: Seq<char>,
    pub kind: Seq<char>,
    pub case_id: Option<Seq<char>>,
    pub run_id: Option<Seq<char>>,
    pub detail: JsonView,
    pub committed_at: Seq<char>,
}

pub open spec fn frame_view(f: EventFrame) -> FrameView {
    FrameView {
        cursor: f.cursor@,
        kind: f.kind@,
        case_id: opt_string_view(f.case_id),
        run_id: opt_string_view(f.run_id),
        detail: f.detail@,
        committed_at: f.committed_at@,
    }
}

/// The frame an entry stores: its payload's `kind` (empty when not a
/// string), `case_id`, `run_id` and `detail` (null when absent).
pub open spec fn frame_of(e: EventLedgerEntry) -> FrameView {
    FrameView {
        cursor: e.entry_ulid@,
        kind: match jstr(jget(e.payload@, "kind"@)) {
            Some(k) => k,
            None => Seq::empty(),
        },
        case_id: jstr(jget(e.payload@, "case_id"@)),
        run_id: jstr(jget(e.payload@, "run_id"@)),
        detail: match jget(e.payload@, "detail"@) {
            Some(d) => d,
            None => JsonView::Null,
        },
        committed_at: e.committed_at@,
    }
}

fn frame_from_entry(e: &EventLedgerEntry) -> (r: EventFrame)
    ensures
        frame_view(r) == frame_of(*e),
{
    EventFrame {
        cursor: e.entry_ulid.clone(),
        kind: match get_str(&e.payload, "kind") {
            Some(k) => owned(k),
            None => String::new(),
        },
        case_id: match get_str(&e.payload, "case_id") {
            Some(c) => Some(owned(c)),
            None => None,
        },
        run_id: match get_str(&e.payload, "run_id") {
            Some(c) => Some(owned(c)),
            None => None,
        },
        detail: match get(&e.payload, "detail") {
            Some(d) => json_clone(d),
            None => Json::Null,
        },
        committed_at: e.committed_at.clone(),
    }
}

/// The append ordinal of the first entry with this cursor.
pub open spec fn ordinal_of(entries: Seq<EventLedgerEntry>, cursor: Seq<char>) -> Option<u64>
    decreases entries.len(),
{
    if entries.len() == 0 {
        None
    } else if entries[0].entry_ulid@ == cursor {
        Some(entries[0].append_ordinal)
    } else {
        ordinal_of(entries.drop_first(), cursor)
    }
}

pub fn ordinal_for_cursor(entries: &Vec<EventLedgerEntry>, cursor: &str) -> (r: Option<u64>)
    ensures
        r == ordinal_of(entries@, cursor@),
{
    let mut i: usize = 0;
    proof {
        assert(entries@.skip(0) =~= entries@);
    }
    while i < entries.len()
        invariant
            i <= entries@.len(),
            ordinal_of(entries@, cursor@) == ordinal_of(entries@.skip(i as int), cursor@),
        decreases entries@.len() - i,
    {
        proof {
            assert(entries@.skip(i as int).drop_first() =~= entries@.skip(i + 1));
        }
        if str_eq(entries[i].entry_ulid.as_str(), cursor) {
            return Some(entries[i].append_ordinal);
        }
        i += 1;
    }
    None
}

/// An entry is an event strictly after ordinal `lo` and at or before `hi`.
pub open spec fn in_window(e: EventLedgerEntry, lo: Option<u64>, hi: Option<u64>) -> bool {
    &&& e.record_kind@ == "sfwp_event"@
    &&& match lo {
        Some(o) => e.append_ordinal > o,
        None => true,
    }
    &&& match hi {
        Some(o) => e.append_ordinal <= o,
        None => true,
    }
}

/// The frames of the events in the window, in ledger order.
pub open spec fn window(entries: Seq<EventLedgerEntry>, lo: Option<u64>, hi: Option<u64>) -> Seq<FrameView>
    decreases entries.len(),
{
    if entries.len() == 0 {
        Seq::empty()
    } else {
        let rest = window(entries.drop_last(), lo, hi);
        if in_window(entries.last(), lo, hi) {
            rest.push(frame_of(entries.last()))
        } else {
            rest
        }
    }
}

pub open spec fn frames_view(v: Seq<EventFrame>) -> Seq<FrameView> {
    v.map_values(|f: EventFrame| frame_view(f))
}

/// The first `cap` events in the window.
pub fn read_window(entries: &Vec<EventLedgerEntry>, lo: Option<u64>, hi: Option<u64>, cap: usize) -> (r: Vec<EventFrame>)
    ensures
        frames_view(r@) == window(entries@, lo, hi).take(
            if window(entries@, lo, hi).len() < cap {
                window(entries@, lo, hi).len() as int
            } else {
                cap as int
            },
        ),
{
    let mut out: Vec<EventFrame> = Vec::new();
    let mut i: usize = 0;
    while i < entries.len()
        invariant
            i <= entries@.len(),
            frames_view(out@) == window(entries@.take(i as int), lo, hi).take(
                if window(entries@.take(i as int), lo, hi).len() < cap {
                    window(entries@.take(i as int), lo, hi).len() as int
                } else {
                    cap as int
                },
            ),
        decreases entries@.len() - i,
    {
        proof {
            assert(entries@.take(i + 1).drop_last() =~= entries@.take(i as int));
        }
        let ghost before = frames_view(out@);
        let ghost w = window(entries@.take(i as int), lo, hi);
        let e = &entries[i];
        let after_lo = match lo {
            Some(o) => e.append_ordinal > o,
            None => true,
        };
        let before_hi = match hi {
            Some(o) => e.append_ordinal <= o,
            None => true,
        };
        if str_eq(e.record_kind.as_str(), EVENT_RECORD_KIND) && after_lo && before_hi {
            if out.len() < cap {
                let f = frame_from_entry(e);
                out.push(f);
                proof {
                    assert(frames_view(out@) =~= before.push(frame_view(f)));
                    assert(w.push(frame_of(*e)).take(w.len() as int + 1) =~= w.take(w.len() as int).push(frame_of(*e)));
                }
            } else {
                proof {
                    assert(frames_view(out@).len() == out@.len());
                    assert(w.len() >= cap);
                    assert(w.push(frame_of(*e)).take(cap as int) =~= w.take(cap as int));
                }
            }
        }
        i += 1;
    }
    proof {
        assert(entries@.take(entries@.len() as int) =~= entries@);
    }
    out
}

/// The events strictly after `from_cursor` (from the start without one, or
/// when the cursor is unknown), at most [`EVENTS_REPLAY_CAP`] of them.
pub fn replay_after(entries: &Vec<EventLedgerEntry>, from_cursor: Option<&str>) -> (r: Vec<EventFrame>)
    ensures
        ({
            let lo = match from_cursor {
                Some(c) => ordinal_of(entries@, c@),
                None => None,
            };
            let w = window(entries@, lo, None);
            frames_view(r@) == w.take(if w.len() < 500 { w.len() as int } else { 500 })
        }),
{
    let lo = match from_cursor {
        Some(c) => ordinal_for_cursor(entries, c),
        None => None,
    };
    read_window(entries, lo, None, EVENTS_REPLAY_CAP)
}

/// The events strictly after `from_cursor` and up to `to_cursor` (each
/// bound ignored when absent or unknown), at most `limit` of them and never
/// more than [`EVENTS_REPLAY_CAP`].
pub fn get_range(
    entries: &Vec<EventLedgerEntry>,
    from_cursor: Option<&str>,
    to_cursor: Option<&str>,
    limit: Option<u32>,
) -> (r: Vec<EventFrame>)
    ensures
        ({
            let lo = match from_cursor {
                Some(c) => ordinal_of(entries@, c@),
                None => None,
            };
            let hi = match to_cursor {
                Some(c) => ordinal_of(entries@, c@),
                None => None,
            };
            let cap: int = match limit {
                Some(l) => if l < 500 { l as int } else { 500 },
                None => 500,
            };
            let w = window(entries@, lo, hi);
            frames_view(r@) == w.take(if w.len() < cap { w.len() as int } else { cap })
        }),
{
    let lo = match from_cursor {
        Some(c) => ordinal_for_cursor(entries, c),
        None => None,
    };
    let hi = match to_cursor {
        Some(c) => ordinal_for_cursor(entries, c),
        None => None,
    };
    let cap: usize = match limit {
        Some(l) => if (l as u64) < 500 {
            l as usize
        } else {
            EVENTS_REPLAY_CAP
        },
        None => EVENTS_REPLAY_CAP,
    };
    read_window(entries, lo, hi, cap)
}

/// The payload an event is stored under: its kind, case and run when
/// present, and detail (the cursor is the entry's own ULID).
pub open spec fn stored_event(kind: Seq<char>, case_id: Option<Seq<char>>, run_id: Option<Seq<char>>, detail: JsonView) -> JsonView {
    let m0 = seq![("kind"@, JsonView::Str(kind))];
    let m1 = match case_id {
        Some(c) => m0.push(("case_id"@, JsonView::Str(c))),
        None => m0,
    };
    let m2 = match run_id {
        Some(r) => m1.push(("run_id"@, JsonView::Str(r))),
        None => m1,
    };
    JsonView::Object(m2.push(("detail"@, detail)))
}

pub fn stored_event_payload(kind: &str, case_id: Option<&str>, run_id: Option<&str>, detail: Json) -> (r: Json)
    ensures
        r@ == stored_event(kind@, crate::json::opt_str_view(case_id), crate::json::opt_str_view(run_id), detail@),
{
    let mut m: Vec<(String, Json)> = Vec::new();
    push_member(&mut m, "kind", Json::Str(owned(kind)));
    match case_id {
        Some(c) => push_member(&mut m, "case_id", Json::Str(owned(c))),
        None => {},
    }
    match run_id {
        Some(r) => push_member(&mut m, "run_id", Json::Str(owned(r))),
        None => {},
    }
    push_member(&mut m, "detail", detail);
    proof {
        let want = stored_event(kind@, crate::json::opt_str_view(case_id), crate::json::opt_str_view(run_id), detail@);
        assert(JsonView::Object(members_view(m@)) =~= want);
    }
    object_of(m)
}

/// The subjects an event is filed under: its case, then its run.
pub fn subject_refs(case_id: Option<&str>, run_id: Option<&str>) -> (r: Vec<String>)
    ensures
        strings_view(r@) == (match case_id {
            Some(c) => seq![c@],
            None => Seq::<Seq<char>>::empty(),
        }) + (match run_id {
            Some(x) => seq![x@],
            None => Seq::<Seq<char>>::empty(),
        }),
{
    let mut v: Vec<String> = Vec::new();
    match case_id {
        Some(c) => v.push(owned(c)),
        None => {},
    }
    match run_id {
        Some(x) => v.push(owned(x)),
        None => {},
    }
    proof {
        let want = (match case_id {
            Some(c) => seq![c@],
            None => Seq::<Seq<char>>::empty(),
        }) + (match run_id {
            Some(x) => seq![x@],
            None => Seq::<Seq<char>>::empty(),
        });
        assert(strings_view(v@) =~= want);
    }
    v
}

/// The frame of an appended event: the entry's cursor and commit time with
/// the event as given.
pub fn appended_frame(kind: &str, case_id: Option<&str>, run_id: Option<&str>, detail: Json, entry_ulid: &str, committed_at: &str) -> (r: EventFrame)
    ensures
        frame_view(r) == (FrameView {
            cursor: entry_ulid@,
            kind: kind@,
            case_id: crate::json::opt_str_view(case_id),
            run_id: crate::json::opt_str_view(run_id),
            detail: detail@,
            committed_at: committed_at@,
        }),
{
    EventFrame {
        cursor: owned(entry_ulid),
        kind: owned(kind),
        case_id: match case_id {
            Some(c) => Some(owned(c)),
            None => None,
        },
        run_id: match run_id {
            Some(x) => Some(owned(x)),
            None => None,
        },
        detail,
        committed_at: owned(committed_at),
    }
}

} // verus!
