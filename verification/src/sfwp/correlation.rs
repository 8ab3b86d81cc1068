//! Request correlation: one record per request id, so a client that
//! disconnects mid-request can recover the terminal outcome instead of
//! re-issuing the command, and so a retried id never executes twice.
use vstd::prelude::*;
use crate::json::{Json, JsonView, get, get_str, jget, jstr, json_clone};
use crate::envelope::opt_string_view;
use crate::text::{owned, str_eq, push_char, is_ascii_alnum, is_ascii_alnum_exec, concat2};
use vstd::string::StrSliceExecFns;

verus! {

/// Lifecycle status of a correlated request.
#[derive(Clone, Copy, Debug, PartialEq, Eq, Structural)]
pub enum RequestStatus {
    Pending,
    Completed,
    Failed,
}

/// The correlation record of one request id.
pub struct RequestRecord {
    pub request_id: String,
    pub method: String,
    pub status: RequestStatus,
    pub submitted_at: String,
    pub completed_at: Option<String>,
    /// The response once the request reached a terminal state.
    pub outcome: Option<Json>,
    /// Hash of the payload this id was first used for; records written
    /// before payload hashing have none.
    pub payload_hash: Option<String>,
}

pub struct RecordView {
    pub request_id: Seq<char>,
    pub method: Seq<char>,
    pub status: RequestStatus,
    pub submitted_at: Seq<char>,
    pub completed_at: Option<Seq<char>>,
    pub outcome: Option<JsonView>,
    pub payload_hash: Option<Seq<char>>,
}

pub open spec fn opt_json_view(o: Option<Json>) -> Option<JsonView> {
    match o {
        Some(j) => Some(j@),
        None => None,
    }
}

impl View for RequestRecord {
    type V = RecordView;

    open spec fn view(&self) -> RecordView {
        RecordView {
            request_id: self.request_id@,
            method: self.method@,
            status: self.status,
            submitted_at: self.submitted_at@,
            completed_at: opt_string_view(self.completed_at),
            outcome: opt_json_view(self.outcome),
            payload_hash: opt_string_view(self.payload_hash),
        }
    }
}

/// What dispatch does with a request that carries a request id.
pub enum DedupeVerdict {
    /// Unknown id, or a record that cannot prove a retry is the same payload: execute.
    Proceed,
    /// The same id and payload are admitted without a terminal outcome.
    Pending,
    /// The same id and payload reached a terminal state: answer with this.
    Replay(Json),
    /// The id is bound to a different payload: refuse.
    Reused,
}

pub enum VerdictView {
    Proceed,
    Pending,
    Replay(JsonView),
    Reused,
}

impl View for DedupeVerdict {
    type V = VerdictView;

    open spec fn view(&self) -> VerdictView {
        match self {
            DedupeVerdict::Proceed => VerdictView::Proceed,
            DedupeVerdict::Pending => VerdictView::Pending,
            DedupeVerdict::Replay(j) => VerdictView::Replay(j@),
            DedupeVerdict::Reused => VerdictView::Reused,
        }
    }
}

// ---------------------------------------------------------------------------
// The rules
// ---------------------------------------------------------------------------

/// The record is an interrupted-by-restart failure.
pub open spec fn is_interrupted(r: RecordView) -> bool {
    r.status == RequestStatus::Failed && r.outcome is Some && jstr(jget(r.outcome->0, "error_class"@))
        == Some("request_interrupted"@)
}

/// The dedupe verdict for a request carrying `hash`, given its id's record.
pub open spec fn verdict_of(rec: Option<RecordView>, hash: Seq<char>) -> VerdictView {
    match rec {
        None => VerdictView::Proceed,
        Some(r) => match r.payload_hash {
            None => if is_interrupted(r) {
                VerdictView::Replay(r.outcome->0)
            } else {
                VerdictView::Proceed
            },
            Some(stored) => if stored != hash {
                VerdictView::Reused
            } else if r.status == RequestStatus::Pending {
                VerdictView::Pending
            } else {
                match r.outcome {
                    Some(o) => VerdictView::Replay(o),
                    None => VerdictView::Pending,
                }
            },
        },
    }
}

/// The record holds a terminal response; it is never written again.
pub open spec fn settled(rec: Option<RecordView>) -> bool {
    rec matches Some(r) && r.status != RequestStatus::Pending && r.outcome is Some
}

/// The hash a new record carries: the supplied one, else the id's existing one.
pub open spec fn carried_hash(rec: Option<RecordView>, supplied: Option<Seq<char>>) -> Option<Seq<char>> {
    match supplied {
        Some(h) => Some(h),
        None => match rec {
            Some(r) => r.payload_hash,
            None => None,
        },
    }
}

/// The record a pending write leaves (none when the id is settled).
pub open spec fn pending_record(
    rec: Option<RecordView>,
    id: Seq<char>,
    method: Seq<char>,
    supplied: Option<Seq<char>>,
    now: Seq<char>,
) -> Option<RecordView> {
    if settled(rec) {
        None
    } else {
        Some(
            RecordView {
                request_id: id,
                method,
                status: RequestStatus::Pending,
                submitted_at: now,
                completed_at: None,
                outcome: None,
                payload_hash: carried_hash(rec, supplied),
            },
        )
    }
}

/// The record an outcome write leaves (none when the id is settled): failed
/// when the outcome carries an `error` member, completed otherwise.
pub open spec fn outcome_record(
    rec: Option<RecordView>,
    id: Seq<char>,
    method: Seq<char>,
    outcome: JsonView,
    now: Seq<char>,
) -> Option<RecordView> {
    if settled(rec) {
        None
    } else {
        Some(
            RecordView {
                request_id: id,
                method,
                status: if jget(outcome, "error"@) is Some {
                    RequestStatus::Failed
                } else {
                    RequestStatus::Completed
                },
                submitted_at: match rec {
                    Some(r) => r.submitted_at,
                    None => now,
                },
                completed_at: Some(now),
                outcome: Some(outcome),
                payload_hash: match rec {
                    Some(r) => r.payload_hash,
                    None => None,
                },
            },
        )
    }
}

/// A file-safe name for a request id: ASCII letters, digits, `-` and `_`
/// kept, every other character replaced by `_`.
pub open spec fn safe_char(c: char) -> char {
    if is_ascii_alnum(c) || c == '-' || c == '_' {
        c
    } else {
        '_'
    }
}

pub open spec fn safe_name(id: Seq<char>) -> Seq<char> {
    id.map_values(|c: char| safe_char(c))
}

// ---------------------------------------------------------------------------
// The store
// ---------------------------------------------------------------------------

/// The records of a store, by the file name each is kept under.
pub open spec fn find_key(s: Seq<(Seq<char>, RecordView)>, k: Seq<char>) -> Option<int>
    decreases s.len(),
{
    if s.len() == 0 {
        None
    } else {
        match find_key(s.drop_last(), k) {
            Some(i) => Some(i),
            None => if s.last().0 == k {
                Some(s.len() - 1)
            } else {
                None
            },
        }
    }
}

pub open spec fn lookup(s: Seq<(Seq<char>, RecordView)>, k: Seq<char>) -> Option<RecordView> {
    match find_key(s, k) {
        Some(i) => Some(s[i].1),
        None => None,
    }
}

/// `s` with the record under `k` replaced (or added).
pub open spec fn stored(s: Seq<(Seq<char>, RecordView)>, k: Seq<char>, r: RecordView) -> Seq<(Seq<char>, RecordView)> {
    match find_key(s, k) {
        Some(i) => s.update(i, (k, r)),
        None => s.push((k, r)),
    }
}

proof fn lemma_find_key(s: Seq<(Seq<char>, RecordView)>, k: Seq<char>)
    ensures
        find_key(s, k) matches Some(i) ==> 0 <= i < s.len() && s[i].0 == k && forall|j: int|
            0 <= j < i ==> (#[trigger] s[j]).0 != k,
        find_key(s, k) is None ==> forall|j: int| 0 <= j < s.len() ==> (#[trigger] s[j]).0 != k,
    decreases s.len(),
{
    if s.len() > 0 {
        lemma_find_key(s.drop_last(), k);
        assert forall|j: int| 0 <= j < s.len() - 1 implies s.drop_last()[j] == #[trigger] s[j] by {}
    }
}

proof fn lemma_find_key_char(s: Seq<(Seq<char>, RecordView)>, k: Seq<char>)
    ensures
        forall|i: int|
            0 <= i < s.len() && s[i].0 == k && (forall|j: int| 0 <= j < i ==> (#[trigger] s[j]).0 != k)
                ==> find_key(s, k) == Some(i),
        (forall|j: int| 0 <= j < s.len() ==> (#[trigger] s[j]).0 != k) ==> find_key(s, k) is None,
{
    lemma_find_key(s, k);
}

/// Storing under `k` changes what `k` holds and nothing else.
pub proof fn lemma_lookup_stored(s: Seq<(Seq<char>, RecordView)>, k: Seq<char>, r: RecordView, q: Seq<char>)
    ensures
        lookup(stored(s, k, r), q) == (if q == k {
            Some(r)
        } else {
            lookup(s, q)
        }),
{
    lemma_find_key(s, k);
    lemma_find_key(s, q);
    let t = stored(s, k, r);
    lemma_find_key_char(t, q);
    match find_key(s, k) {
        Some(i) => {
            assert forall|j: int| 0 <= j < t.len() implies (#[trigger] t[j]).0 == s[j].0 by {}
            match find_key(s, q) {
                Some(m) => {
                    assert(t[m].0 == q);
                    assert(forall|j: int| 0 <= j < m ==> (#[trigger] t[j]).0 != q);
                    assert(find_key(t, q) == Some(m));
                },
                None => {
                    assert(forall|j: int| 0 <= j < t.len() ==> (#[trigger] t[j]).0 != q);
                },
            }
        },
        None => {
            assert(t.drop_last() =~= s);
        },
    }
}

/// The correlation records of a cell, by file name under `dir`.
pub struct RequestCorrelationStore {
    dir: String,
    records: Vec<(String, RequestRecord)>,
}

impl View for RequestCorrelationStore {
    type V = Seq<(Seq<char>, RecordView)>;

    closed spec fn view(&self) -> Seq<(Seq<char>, RecordView)> {
        self.records@.map_values(|p: (String, RequestRecord)| (p.0@, p.1@))
    }
}

/// The outcome a restart records for a request that was still pending.
pub open spec fn interrupted_outcome(id: Seq<char>) -> JsonView {
    JsonView::Object(
        seq![
            ("error"@, JsonView::Str("server restarted before this admitted request settled"@)),
            ("error_class"@, JsonView::Str("request_interrupted"@)),
            ("recover_with"@, JsonView::Str("request.get_status"@)),
            ("request_id"@, JsonView::Str(id)),
        ],
    )
}

/// One record of a restart sweep: a pending record is settled as
/// interrupted (through the ordinary outcome write).
pub open spec fn settle_step(s: Seq<(Seq<char>, RecordView)>, r: RecordView, now: Seq<char>) -> Seq<(Seq<char>, RecordView)> {
    if r.status != RequestStatus::Pending {
        s
    } else {
        match outcome_record(lookup(s, safe_name(r.request_id)), r.request_id, r.method, interrupted_outcome(r.request_id), now) {
            Some(rec) => stored(s, safe_name(r.request_id), rec),
            None => s,
        }
    }
}

/// The sweep over the first `n` records of `orig`, and how many were pending.
pub open spec fn settle_upto(orig: Seq<(Seq<char>, RecordView)>, n: int, now: Seq<char>) -> (Seq<(Seq<char>, RecordView)>, nat)
    decreases n,
{
    if n <= 0 {
        (orig, 0)
    } else {
        let (s, c) = settle_upto(orig, n - 1, now);
        (
            settle_step(s, orig[n - 1].1, now),
            if orig[n - 1].1.status == RequestStatus::Pending {
                c + 1
            } else {
                c
            },
        )
    }
}

impl RequestCorrelationStore {
    /// An empty store kept under `dir`.
    pub fn new(dir: String) -> (r: RequestCorrelationStore)
        ensures
            r@.len() == 0,
            r.dir() == dir@,
    {
        RequestCorrelationStore { dir, records: Vec::new() }
    }

    pub closed spec fn dir(&self) -> Seq<char> {
        self.dir@
    }

    /// The record of `request_id`, if any.
    pub open spec fn record_of(&self, request_id: Seq<char>) -> Option<RecordView> {
        lookup(self@, safe_name(request_id))
    }

    /// The file name a request id's record is kept under.
    pub fn file_name_for(request_id: &str) -> (r: String)
        ensures
            r@ == safe_name(request_id@) + ".json"@,
    {
        let n = request_id.unicode_len();
        let mut out = String::new();
        let mut i: usize = 0;
        while i < n
            invariant
                n == request_id@.len(),
                i <= n,
                out@ == safe_name(request_id@.subrange(0, i as int)),
            decreases n - i,
        {
            let c = request_id.get_char(i);
            let d = if is_ascii_alnum_exec(c) || c == '-' || c == '_' {
                c
            } else {
                '_'
            };
            push_char(&mut out, d);
            proof {
                assert(request_id@.subrange(0, i + 1) =~= request_id@.subrange(0, i as int).push(c));
                assert(out@ =~= safe_name(request_id@.subrange(0, i + 1)));
            }
            i += 1;
        }
        proof {
            assert(request_id@.subrange(0, n as int) =~= request_id@);
        }
        out.append(".json");
        out
    }

    /// The path of a request id's record: the store's directory joined with
    /// its file name.
    pub fn path_for(&self, request_id: &str) -> (r: String)
        ensures
            r@ == (if self.dir().len() == 0 || self.dir().last() == '/' {
                self.dir() + safe_name(request_id@) + ".json"@
            } else {
                self.dir() + "/"@ + safe_name(request_id@) + ".json"@
            }),
    {
        let name = Self::file_name_for(request_id);
        let n = self.dir.as_str().unicode_len();
        if n == 0 || self.dir.as_str().get_char(n - 1) == '/' {
            concat2(self.dir.as_str(), name.as_str())
        } else {
            crate::text::concat3(self.dir.as_str(), "/", name.as_str())
        }
    }

    fn find_exec(&self, key: &str) -> (r: Option<usize>)
        ensures
            r matches Some(i) ==> i < self.records@.len(),
            match r {
                Some(i) => find_key(self@, key@) == Some(i as int),
                None => find_key(self@, key@) is None,
            },
    {
        let ghost sv = self@;
        proof {
            lemma_find_key_char(sv, key@);
        }
        let mut i: usize = 0;
        while i < self.records.len()
            invariant
                sv == self@,
                sv.len() == self.records@.len(),
                forall|j: int| 0 <= j < sv.len() ==> #[trigger] sv[j] == (self.records@[j].0@, self.records@[j].1@),
                i <= sv.len(),
                forall|j: int| 0 <= j < i ==> (#[trigger] sv[j]).0 != key@,
                forall|k: int| 0 <= k < sv.len() && sv[k].0 == key@ && (forall|j: int| 0 <= j < k ==> (#[trigger] sv[j]).0 != key@) ==> find_key(sv, key@) == Some(k),
                (forall|j: int| 0 <= j < sv.len() ==> (#[trigger] sv[j]).0 != key@) ==> find_key(sv, key@) is None,
            decreases sv.len() - i,
        {
            if str_eq(self.records[i].0.as_str(), key) {
                proof {
                    assert(sv[i as int].0 == key@);
                }
                return Some(i);
            }
            i += 1;
        }
        None
    }

    fn key_of(request_id: &str) -> (r: String)
        ensures
            r@ == safe_name(request_id@),
    {
        let n = request_id.unicode_len();
        let mut out = String::new();
        let mut i: usize = 0;
        while i < n
            invariant
                n == request_id@.len(),
                i <= n,
                out@ == safe_name(request_id@.subrange(0, i as int)),
            decreases n - i,
        {
            let c = request_id.get_char(i);
            let d = if is_ascii_alnum_exec(c) || c == '-' || c == '_' {
                c
            } else {
                '_'
            };
            push_char(&mut out, d);
            proof {
                assert(request_id@.subrange(0, i + 1) =~= request_id@.subrange(0, i as int).push(c));
                assert(out@ =~= safe_name(request_id@.subrange(0, i + 1)));
            }
            i += 1;
        }
        proof {
            assert(request_id@.subrange(0, n as int) =~= request_id@);
        }
        out
    }

    /// The record of `request_id`; none when the id is unknown.
    pub fn get(&self, request_id: &str) -> (r: Option<&RequestRecord>)
        ensures
            match r {
                Some(x) => self.record_of(request_id@) == Some(x@),
                None => self.record_of(request_id@) is None,
            },
    {
        let key = Self::key_of(request_id);
        match self.find_exec(key.as_str()) {
            Some(i) => {
                proof {
                    assert(self@[i as int] == (self.records@[i as int].0@, self.records@[i as int].1@));
                }
                Some(&self.records[i].1)
            },
            None => None,
        }
    }

    fn put(&mut self, record: RequestRecord)
        ensures
            final(self)@ == stored(old(self)@, safe_name(record.request_id@), record@),
            final(self).dir() == old(self).dir(),
    {
        let key = Self::key_of(record.request_id.as_str());
        let ghost k = key@;
        let ghost rv = record@;
        match self.find_exec(key.as_str()) {
            Some(i) => {
                let ghost old_s = self@;
                self.records.set(i, (key, record));
                proof {
                    assert(self@ =~= old_s.update(i as int, (k, rv)));
                }
            },
            None => {
                let ghost old_s = self@;
                self.records.push((key, record));
                proof {
                    assert(self@ =~= old_s.push((k, rv)));
                }
            },
        }
    }

    /// Keeps a record read back from storage under its file name (`name`
    /// without the `.json` extension).
    pub fn load(&mut self, name: String, record: RequestRecord)
        ensures
            final(self)@ == stored(old(self)@, name@, record@),
            final(self).dir() == old(self).dir(),
    {
        let ghost k = name@;
        let ghost rv = record@;
        match self.find_exec(name.as_str()) {
            Some(i) => {
                let ghost old_s = self@;
                self.records.set(i, (name, record));
                proof {
                    assert(self@ =~= old_s.update(i as int, (k, rv)));
                }
            },
            None => {
                let ghost old_s = self@;
                self.records.push((name, record));
                proof {
                    assert(self@ =~= old_s.push((k, rv)));
                }
            },
        }
    }

    /// Whether `request_id` holds a terminal record with a response.
    pub fn is_settled(&self, request_id: &str) -> (r: bool)
        ensures
            r == settled(self.record_of(request_id@)),
    {
        match self.get(request_id) {
            Some(rec) => !matches!(rec.status, RequestStatus::Pending) && rec.outcome.is_some(),
            None => false,
        }
    }

    /// The hash to persist: the supplied one, else whatever the id already has.
    pub fn carry_hash(&self, request_id: &str, supplied: Option<&str>) -> (r: Option<String>)
        ensures
            opt_string_view(r) == carried_hash(self.record_of(request_id@), crate::json::opt_str_view(supplied)),
    {
        match supplied {
            Some(h) => Some(owned(h)),
            None => match self.get(request_id) {
                Some(rec) => rec.payload_hash.clone(),
                None => None,
            },
        }
    }

    /// Whether a request bearing `request_id` and payload hash `payload_hash`
    /// may execute.
    pub fn check(&self, request_id: &str, payload_hash: &str) -> (r: DedupeVerdict)
        ensures
            r@ == verdict_of(self.record_of(request_id@), payload_hash@),
    {
        let record = match self.get(request_id) {
            None => {
                return DedupeVerdict::Proceed;
            },
            Some(r) => r,
        };
        match &record.payload_hash {
            None => {
                let interrupted = matches!(record.status, RequestStatus::Failed) && match &record.outcome {
                    Some(o) => match get_str(o, "error_class") {
                        Some(c) => str_eq(c, "request_interrupted"),
                        None => false,
                    },
                    None => false,
                };
                if interrupted {
                    DedupeVerdict::Replay(json_clone(record.outcome.as_ref().unwrap()))
                } else {
                    DedupeVerdict::Proceed
                }
            },
            Some(stored) => {
                if !str_eq(stored.as_str(), payload_hash) {
                    DedupeVerdict::Reused
                } else if matches!(record.status, RequestStatus::Pending) {
                    DedupeVerdict::Pending
                } else {
                    match &record.outcome {
                        Some(o) => DedupeVerdict::Replay(json_clone(o)),
                        None => DedupeVerdict::Pending,
                    }
                }
            },
        }
    }

    /// Records that a request has started, at time `now`; a settled id is
    /// left as it is.
    pub fn record_pending_at(&mut self, request_id: &str, method: &str, payload_hash: Option<&str>, now: String)
        ensures
            final(self).dir() == old(self).dir(),
            final(self)@ == (match pending_record(old(self).record_of(request_id@), request_id@, method@, crate::json::opt_str_view(payload_hash), now@) {
                Some(rec) => stored(old(self)@, safe_name(request_id@), rec),
                None => old(self)@,
            }),
    {
        if self.is_settled(request_id) {
            return;
        }
        let hash = self.carry_hash(request_id, payload_hash);
        let record = RequestRecord {
            request_id: owned(request_id),
            method: owned(method),
            status: RequestStatus::Pending,
            submitted_at: now,
            completed_at: None,
            outcome: None,
            payload_hash: hash,
        };
        self.put(record);
    }

    /// Records a terminal outcome at time `now`; the first outcome of an id
    /// wins and is never replaced.
    pub fn record_outcome_at(&mut self, request_id: &str, method: &str, outcome: &Json, now: String)
        ensures
            final(self).dir() == old(self).dir(),
            final(self)@ == (match outcome_record(old(self).record_of(request_id@), request_id@, method@, outcome@, now@) {
                Some(rec) => stored(old(self)@, safe_name(request_id@), rec),
                None => old(self)@,
            }),
    {
        if self.is_settled(request_id) {
            return;
        }
        let status = if get(outcome, "error").is_some() {
            RequestStatus::Failed
        } else {
            RequestStatus::Completed
        };
        let (submitted_at, hash) = match self.get(request_id) {
            Some(prior) => (prior.submitted_at.clone(), prior.payload_hash.clone()),
            None => (now.clone(), None),
        };
        let record = RequestRecord {
            request_id: owned(request_id),
            method: owned(method),
            status,
            submitted_at,
            completed_at: Some(now),
            outcome: Some(json_clone(outcome)),
            payload_hash: hash,
        };
        self.put(record);
    }

    /// Records that a request has started, now; when the clock gives no
    /// current time, nothing is recorded and that is reported.
    pub fn record_pending(&mut self, request_id: &str, method: &str, payload_hash: Option<&str>) -> (r: Result<(), String>)
        ensures
            final(self).dir() == old(self).dir(),
            match r {
                Ok(()) => exists|now: Seq<char>| crate::governed_execution_boundary::clock_rfc3339(now) && final(self)@ == (match #[trigger] pending_record(old(self).record_of(request_id@), request_id@, method@, crate::json::opt_str_view(payload_hash), now) {
                    Some(rec) => stored(old(self)@, safe_name(request_id@), rec),
                    None => old(self)@,
                }),
                Err(e) => e@ == crate::governed_execution_boundary::CLOCK_UNAVAILABLE@ && final(self)@ == old(self)@,
            },
    {
        let now = match crate::governed_execution_boundary::utc_rfc3339() {
            Some(t) => t,
            None => {
                return Err(owned(crate::governed_execution_boundary::CLOCK_UNAVAILABLE));
            },
        };
        let ghost t = now@;
        self.record_pending_at(request_id, method, payload_hash, now);
        Ok(())
    }

    /// Records a terminal outcome, now; when the clock gives no current
    /// time, nothing is recorded and that is reported.
    pub fn record_outcome(&mut self, request_id: &str, method: &str, outcome: &Json) -> (r: Result<(), String>)
        ensures
            final(self).dir() == old(self).dir(),
            match r {
                Ok(()) => exists|now: Seq<char>| crate::governed_execution_boundary::clock_rfc3339(now) && final(self)@ == (match #[trigger] outcome_record(old(self).record_of(request_id@), request_id@, method@, outcome@, now) {
                    Some(rec) => stored(old(self)@, safe_name(request_id@), rec),
                    None => old(self)@,
                }),
                Err(e) => e@ == crate::governed_execution_boundary::CLOCK_UNAVAILABLE@ && final(self)@ == old(self)@,
            },
    {
        let now = match crate::governed_execution_boundary::utc_rfc3339() {
            Some(t) => t,
            None => {
                return Err(owned(crate::governed_execution_boundary::CLOCK_UNAVAILABLE));
            },
        };
        let ghost t = now@;
        self.record_outcome_at(request_id, method, outcome, now);
        Ok(())
    }
}

impl RequestCorrelationStore {
    /// Settles, as interrupted at time `now`, every record that was pending
    /// when a previous server process died; returns how many there were.
    pub fn settle_interrupted_requests_at(&mut self, now: String) -> (n: usize)
        ensures
            final(self).dir() == old(self).dir(),
            (final(self)@, n as nat) == settle_upto(old(self)@, old(self)@.len() as int, now@),
    {
        let ghost orig = self@;
        let mut snapshot: Vec<(String, String, bool)> = Vec::new();
        let mut i: usize = 0;
        while i < self.records.len()
            invariant
                orig == self@,
                i <= self.records@.len(),
                snapshot@.len() == i,
                forall|j: int| 0 <= j < i ==> (#[trigger] snapshot@[j]).0@ == orig[j].1.request_id
                    && snapshot@[j].1@ == orig[j].1.method
                    && snapshot@[j].2 == (orig[j].1.status == RequestStatus::Pending),
            decreases self.records@.len() - i,
        {
            proof {
                assert(orig[i as int] == (self.records@[i as int].0@, self.records@[i as int].1@));
            }
            let r = &self.records[i].1;
            snapshot.push((r.request_id.clone(), r.method.clone(), matches!(r.status, RequestStatus::Pending)));
            i += 1;
        }
        let mut count: usize = 0;
        let mut k: usize = 0;
        while k < snapshot.len()
            invariant
                snapshot@.len() == orig.len(),
                forall|j: int| 0 <= j < orig.len() ==> (#[trigger] snapshot@[j]).0@ == orig[j].1.request_id
                    && snapshot@[j].1@ == orig[j].1.method
                    && snapshot@[j].2 == (orig[j].1.status == RequestStatus::Pending),
                k <= orig.len(),
                count <= k,
                (self@, count as nat) == settle_upto(orig, k as int, now@),
                self.dir() == old(self).dir(),
            decreases orig.len() - k,
        {
            if snapshot[k].2 {
                let outcome = interrupted_outcome_exec(snapshot[k].0.as_str());
                self.record_outcome_at(snapshot[k].0.as_str(), snapshot[k].1.as_str(), &outcome, now.clone());
                count += 1;
            }
            k += 1;
        }
        count
    }

    /// Settles, as interrupted now, every record that was still pending;
    /// when the clock gives no current time, nothing is settled and that is
    /// reported.
    pub fn settle_interrupted_requests(&mut self) -> (r: Result<usize, String>)
        ensures
            final(self).dir() == old(self).dir(),
            match r {
                Ok(n) => exists|now: Seq<char>| crate::governed_execution_boundary::clock_rfc3339(now) && (final(self)@, n as nat) == #[trigger] settle_upto(old(self)@, old(self)@.len() as int, now),
                Err(e) => e@ == crate::governed_execution_boundary::CLOCK_UNAVAILABLE@ && final(self)@ == old(self)@,
            },
    {
        let now = match crate::governed_execution_boundary::utc_rfc3339() {
            Some(t) => t,
            None => {
                return Err(owned(crate::governed_execution_boundary::CLOCK_UNAVAILABLE));
            },
        };
        let ghost t = now@;
        Ok(self.settle_interrupted_requests_at(now))
    }
}

fn interrupted_outcome_exec(id: &str) -> (r: Json)
    ensures
        r@ == interrupted_outcome(id@),
{
    let mut m: Vec<(String, Json)> = Vec::new();
    proof {
        assert(crate::json::members_view(m@) =~= Seq::<(Seq<char>, JsonView)>::empty());
    }
    crate::json::push_member(&mut m, "error", Json::Str(owned("server restarted before this admitted request settled")));
    crate::json::push_member(&mut m, "error_class", Json::Str(owned("request_interrupted")));
    crate::json::push_member(&mut m, "recover_with", Json::Str(owned("request.get_status")));
    crate::json::push_member(&mut m, "request_id", Json::Str(owned(id)));
    proof {
        assert(crate::json::members_view(m@) =~= interrupted_outcome(id@)->Object_0);
    }
    crate::json::object_of(m)
}


/// A deterministic hash of a request payload: the digest of its canonical
/// (sorted-key, compact) JSON text.
pub fn payload_hash(payload: &Json) -> (r: String)
    ensures
        r@ == crate::envelope::sha256_hex_of_text(crate::json::render(payload@, false)),
        r@.len() == 64,
        forall|i: int| 0 <= i < 64 ==> crate::envelope::is_lower_hex(#[trigger] r@[i]),
{
    let canonical = crate::json::render_exec(payload, false);
    crate::envelope::sha256_hex(canonical.as_str())
}

// ---------------------------------------------------------------------------
// Laws of the store
// ---------------------------------------------------------------------------

/// The store after a pending write of `id`.
pub open spec fn after_pending(s: Seq<(Seq<char>, RecordView)>, id: Seq<char>, method: Seq<char>, hash: Option<Seq<char>>, now: Seq<char>) -> Seq<(Seq<char>, RecordView)> {
    match pending_record(lookup(s, safe_name(id)), id, method, hash, now) {
        Some(rec) => stored(s, safe_name(id), rec),
        None => s,
    }
}

/// The store after an outcome write of `id`.
pub open spec fn after_outcome(s: Seq<(Seq<char>, RecordView)>, id: Seq<char>, method: Seq<char>, outcome: JsonView, now: Seq<char>) -> Seq<(Seq<char>, RecordView)> {
    match outcome_record(lookup(s, safe_name(id)), id, method, outcome, now) {
        Some(rec) => stored(s, safe_name(id), rec),
        None => s,
    }
}

/// The first outcome of an id wins: once it is recorded, neither a later
/// outcome nor a later pending write changes the id's record.
pub proof fn law_first_outcome_wins(
    s: Seq<(Seq<char>, RecordView)>,
    id: Seq<char>,
    method: Seq<char>,
    outcome: JsonView,
    now: Seq<char>,
    later_method: Seq<char>,
    later_outcome: JsonView,
    later_hash: Option<Seq<char>>,
    later_now: Seq<char>,
)
    requires
        !settled(lookup(s, safe_name(id))),
    ensures
        lookup(after_outcome(s, id, method, outcome, now), safe_name(id)) matches Some(r) && r.outcome
            == Some(outcome),
        settled(lookup(after_outcome(s, id, method, outcome, now), safe_name(id))),
        after_outcome(after_outcome(s, id, method, outcome, now), id, later_method, later_outcome, later_now)
            == after_outcome(s, id, method, outcome, now),
        after_pending(after_outcome(s, id, method, outcome, now), id, later_method, later_hash, later_now)
            == after_outcome(s, id, method, outcome, now),
{
    let rec = outcome_record(lookup(s, safe_name(id)), id, method, outcome, now)->0;
    lemma_lookup_stored(s, safe_name(id), rec, safe_name(id));
}

/// A request admitted with a payload hash dedupes a retry of the same
/// payload as pending; once its outcome is recorded, the same payload
/// replays that outcome and any other payload is refused as a reused id.
pub proof fn law_retry_replays_and_reuse_is_refused(
    s: Seq<(Seq<char>, RecordView)>,
    id: Seq<char>,
    method: Seq<char>,
    hash: Seq<char>,
    other_hash: Seq<char>,
    outcome: JsonView,
    now: Seq<char>,
    later: Seq<char>,
)
    requires
        !settled(lookup(s, safe_name(id))),
        other_hash != hash,
    ensures
        verdict_of(lookup(after_pending(s, id, method, Some(hash), now), safe_name(id)), hash) == VerdictView::Pending,
        verdict_of(
            lookup(after_outcome(after_pending(s, id, method, Some(hash), now), id, method, outcome, later), safe_name(id)),
            hash,
        ) == VerdictView::Replay(outcome),
        verdict_of(
            lookup(after_outcome(after_pending(s, id, method, Some(hash), now), id, method, outcome, later), safe_name(id)),
            other_hash,
        ) == VerdictView::Reused,
{
    let k = safe_name(id);
    let rec = pending_record(lookup(s, k), id, method, Some(hash), now)->0;
    lemma_lookup_stored(s, k, rec, k);
    let s1 = after_pending(s, id, method, Some(hash), now);
    let rec2 = outcome_record(lookup(s1, k), id, method, outcome, later)->0;
    lemma_lookup_stored(s1, k, rec2, k);
}

/// A pending write without a hash keeps the hash the id is already bound to.
pub proof fn law_pending_write_carries_the_hash(
    s: Seq<(Seq<char>, RecordView)>,
    id: Seq<char>,
    method: Seq<char>,
    now: Seq<char>,
)
    requires
        !settled(lookup(s, safe_name(id))),
        lookup(s, safe_name(id)) matches Some(r) && r.payload_hash is Some,
    ensures
        lookup(after_pending(s, id, method, None, now), safe_name(id))->0.payload_hash == lookup(
            s,
            safe_name(id),
        )->0.payload_hash,
{
    let k = safe_name(id);
    let rec = pending_record(lookup(s, k), id, method, None, now)->0;
    lemma_lookup_stored(s, k, rec, k);
}

proof fn lemma_step_keeps_settled(s: Seq<(Seq<char>, RecordView)>, r: RecordView, now: Seq<char>, k: Seq<char>)
    requires
        settled(lookup(s, k)),
    ensures
        settled(lookup(settle_step(s, r, now), k)),
        lookup(settle_step(s, r, now), k) == lookup(s, k),
{
    if r.status == RequestStatus::Pending {
        let kk = safe_name(r.request_id);
        match outcome_record(lookup(s, kk), r.request_id, r.method, interrupted_outcome(r.request_id), now) {
            Some(rec) => {
                lemma_lookup_stored(s, kk, rec, k);
            },
            None => {},
        }
    }
}

proof fn lemma_step_settles(s: Seq<(Seq<char>, RecordView)>, r: RecordView, now: Seq<char>)
    requires
        r.status == RequestStatus::Pending,
    ensures
        settled(lookup(settle_step(s, r, now), safe_name(r.request_id))),
{
    let kk = safe_name(r.request_id);
    match outcome_record(lookup(s, kk), r.request_id, r.method, interrupted_outcome(r.request_id), now) {
        Some(rec) => {
            lemma_lookup_stored(s, kk, rec, kk);
        },
        None => {},
    }
}

proof fn lemma_sweep_settles(orig: Seq<(Seq<char>, RecordView)>, n: int, now: Seq<char>)
    requires
        0 <= n <= orig.len(),
    ensures
        forall|i: int|
            0 <= i < n && (#[trigger] orig[i]).1.status == RequestStatus::Pending ==> settled(
                lookup(settle_upto(orig, n, now).0, safe_name(orig[i].1.request_id)),
            ),
    decreases n,
{
    if n > 0 {
        lemma_sweep_settles(orig, n - 1, now);
        let s = settle_upto(orig, n - 1, now).0;
        assert forall|i: int| 0 <= i < n && (#[trigger] orig[i]).1.status == RequestStatus::Pending implies settled(
            lookup(settle_upto(orig, n, now).0, safe_name(orig[i].1.request_id)),
        ) by {
            if i < n - 1 {
                lemma_step_keeps_settled(s, orig[n - 1].1, now, safe_name(orig[i].1.request_id));
            } else {
                lemma_step_settles(s, orig[n - 1].1, now);
            }
        }
    }
}

/// After a restart sweep no request that was pending is left unsettled: each
/// holds a terminal record, so a retry replays instead of executing again.
pub proof fn law_restart_settles_every_pending_request(orig: Seq<(Seq<char>, RecordView)>, now: Seq<char>)
    ensures
        forall|i: int|
            0 <= i < orig.len() && (#[trigger] orig[i]).1.status == RequestStatus::Pending ==> settled(
                lookup(settle_upto(orig, orig.len() as int, now).0, safe_name(orig[i].1.request_id)),
            ),
{
    lemma_sweep_settles(orig, orig.len() as int, now);
}


/// A payload's hash does not depend on the order of its object members:
/// one payload written with its members in any order hashes alike.
pub proof fn law_payload_hash_ignores_member_order(a: JsonView, b: JsonView)
    requires
        crate::json::same_json(a, b),
    ensures
        crate::envelope::sha256_hex_of_text(crate::json::render(a, false)) == crate::envelope::sha256_hex_of_text(
            crate::json::render(b, false),
        ),
{
    crate::json::law_render_ignores_member_order(a, b, false);
}

} // verus!
