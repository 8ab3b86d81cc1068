//! What a sequence of calls on an invocation ledger leaves in it: the current
//! generation of a slot, read against everything the calls returned.
use vstd::prelude::*;
use crate::governed_execution_boundary::{
    admission_of, admit_new, admit_outcome, already_settled, bound_invocation, current_generation_of,
    envelope_producer_fault, find_binding, find_slot, issued_of, law_refusals_and_settlements_keep_the_slots,
    lemma_admit_new_slots, lemma_find_issued, lemma_find_slot, lemma_other_admission_keeps_binding,
    observation_fields, readmitted_generation, settle_outcome, slot_key_text, superseded, AdmissionView,
    BoundaryErrorView, IssuedView, LedgerView, OutcomeView, EXECUTION_OBSERVATION,
};
use crate::json::{is_object, JsonView};

verus! {

/// One call on an invocation ledger, by the envelope it is made with.
pub enum LedgerCall {
    Admit(JsonView),
    Settle(JsonView),
}

/// A ledger with nothing admitted and nothing settled.
pub open spec fn empty_ledger() -> LedgerView {
    LedgerView {
        slots: Seq::empty(),
        bindings: Seq::empty(),
        settled_event_ids: Seq::empty(),
        settled_idempotency_keys: Seq::empty(),
    }
}

/// The ledger after `calls`, made in order on `l`.
pub open spec fn ledger_after(l: LedgerView, calls: Seq<LedgerCall>, local: Seq<char>) -> LedgerView
    decreases calls.len(),
{
    if calls.len() == 0 {
        l
    } else {
        let l1 = ledger_after(l, calls.drop_last(), local);
        match calls.last() {
            LedgerCall::Admit(env) => admit_outcome(l1, env, local).1,
            LedgerCall::Settle(obs) => settle_outcome(l1, obs, local).1,
        }
    }
}

/// The slot key of what an admission admits.
pub open spec fn admitted_key(f: AdmissionView) -> Seq<char> {
    slot_key_text(f.work_request_id, f.operation, f.resource)
}

/// The generation the call at index `i` returned for an envelope of the slot
/// keyed `k`; none when that call was no admission into `k`, or was refused.
pub open spec fn granted(l: LedgerView, calls: Seq<LedgerCall>, local: Seq<char>, i: int, k: Seq<char>) -> Option<nat> {
    match calls[i] {
        LedgerCall::Admit(env) => match admit_outcome(ledger_after(l, calls.take(i), local), env, local).0 {
            Ok(g) => if admission_of(env, local) matches Ok(f) && admitted_key(f) == k {
                Some(g)
            } else {
                None
            },
            Err(_) => None,
        },
        LedgerCall::Settle(_) => None,
    }
}

/// Admitted envelopes that share an invocation id and an event id name one
/// slot.
pub open spec fn ids_fix_the_slot(calls: Seq<LedgerCall>, local: Seq<char>) -> bool {
    forall|i: int, j: int|
        #![trigger calls[i], calls[j]]
        0 <= i < calls.len() && 0 <= j < calls.len() ==> match (calls[i], calls[j]) {
            (LedgerCall::Admit(a), LedgerCall::Admit(b)) => (admission_of(a, local) matches Ok(fa)
                && admission_of(b, local) matches Ok(fb) && fa.invocation_id == fb.invocation_id
                && fa.event_id == fb.event_id) ==> admitted_key(admission_of(a, local)->Ok_0)
                == admitted_key(admission_of(b, local)->Ok_0),
            _ => true,
        }
}

/// Call `j` admitted the invocation `x` into the slot keyed `key` and
/// returned generation `g` for it.
pub open spec fn admitted_by(
    calls: Seq<LedgerCall>,
    local: Seq<char>,
    j: int,
    x: IssuedView,
    key: Seq<char>,
    g: nat,
) -> bool {
    &&& 0 <= j < calls.len()
    &&& calls[j] matches LedgerCall::Admit(env)
    &&& admission_of(env, local) matches Ok(f)
    &&& issued_of(f) == x
    &&& admitted_key(f) == key
    &&& granted(empty_ledger(), calls, local, j, key) == Some(g)
}

/// Each slot is found under its own key.
#[verifier::opaque]
spec fn keys_found(l: LedgerView) -> bool {
    forall|si: int| 0 <= si < l.slots.len() ==> find_slot(l.slots, #[trigger] l.slots[si].key) == Some(si)
}

/// Each slot holds at least one invocation.
#[verifier::opaque]
spec fn slots_nonempty(l: LedgerView) -> bool {
    forall|si: int| 0 <= si < l.slots.len() ==> (#[trigger] l.slots[si]).invocations.len() > 0
}

/// Each invocation in `l` was admitted by one of the calls, which returned
/// its generation.
#[verifier::opaque]
spec fn entries_witnessed(calls: Seq<LedgerCall>, local: Seq<char>, l: LedgerView) -> bool {
    forall|si: int, ii: int|
        #![trigger l.slots[si].invocations[ii]]
        0 <= si < l.slots.len() && 0 <= ii < l.slots[si].invocations.len() ==> witnessed(
            calls,
            local,
            l.slots[si].invocations[ii],
            l.slots[si].key,
            (ii + 1) as nat,
        )
}

/// Some call admitted `x` into the slot keyed `key`, returning `g`.
spec fn witnessed(calls: Seq<LedgerCall>, local: Seq<char>, x: IssuedView, key: Seq<char>, g: nat) -> bool {
    exists|j: int| #[trigger] admitted_by(calls, local, j, x, key, g)
}

/// No call returned a generation above its slot's count in `l`.
#[verifier::opaque]
spec fn grants_bounded(calls: Seq<LedgerCall>, local: Seq<char>, l: LedgerView) -> bool {
    forall|j: int, k: Seq<char>|
        0 <= j < calls.len() && #[trigger] granted(empty_ledger(), calls, local, j, k) is Some ==> bounded_by(
            l,
            k,
            granted(empty_ledger(), calls, local, j, k)->0,
        )
}

/// `l` has a slot keyed `k` holding at least `g` invocations.
spec fn bounded_by(l: LedgerView, k: Seq<char>, g: nat) -> bool {
    find_slot(l.slots, k) matches Some(si) && g <= l.slots[si].invocations.len()
}

/// What every ledger reached from the empty one by `calls` keeps.
spec fn history_inv(calls: Seq<LedgerCall>, local: Seq<char>) -> bool {
    let l = ledger_after(empty_ledger(), calls, local);
    &&& keys_found(l)
    &&& slots_nonempty(l)
    &&& entries_witnessed(calls, local, l)
    &&& grants_bounded(calls, local, l)
}

proof fn lemma_granted_prefix(calls: Seq<LedgerCall>, local: Seq<char>, j: int, k: Seq<char>)
    requires
        0 <= j < calls.len() - 1,
    ensures
        granted(empty_ledger(), calls, local, j, k) == granted(empty_ledger(), calls.drop_last(), local, j, k),
{
    assert(calls.take(j) =~= calls.drop_last().take(j));
}

proof fn lemma_prefix_transfer(calls: Seq<LedgerCall>, local: Seq<char>)
    requires
        calls.len() > 0,
    ensures
        calls.take(calls.len() - 1) == calls.drop_last(),
        forall|j: int, k: Seq<char>|
            0 <= j < calls.len() - 1 ==> #[trigger] granted(empty_ledger(), calls, local, j, k) == granted(
                empty_ledger(),
                calls.drop_last(),
                local,
                j,
                k,
            ),
        forall|j: int, x: IssuedView, key: Seq<char>, g: nat|
            #[trigger] admitted_by(calls.drop_last(), local, j, x, key, g) ==> admitted_by(calls, local, j, x, key, g),
{
    let pre = calls.drop_last();
    assert(calls.take(calls.len() - 1) =~= pre);
    assert forall|j: int, k: Seq<char>| 0 <= j < calls.len() - 1 implies #[trigger] granted(empty_ledger(), calls, local, j, k)
        == granted(empty_ledger(), pre, local, j, k) by {
        lemma_granted_prefix(calls, local, j, k);
    }
    assert forall|j: int, x: IssuedView, key: Seq<char>, g: nat|
        #[trigger] admitted_by(pre, local, j, x, key, g) implies admitted_by(calls, local, j, x, key, g) by {
        lemma_granted_prefix(calls, local, j, key);
        assert(pre[j] == calls[j]);
    }
}

/// A step that leaves the slots as they were, and whose own grant (if any)
/// is within its slot's count.
proof fn lemma_same_slots_step(calls: Seq<LedgerCall>, local: Seq<char>)
    requires
        calls.len() > 0,
        history_inv(calls.drop_last(), local),
        ledger_after(empty_ledger(), calls, local).slots == ledger_after(empty_ledger(), calls.drop_last(), local).slots,
        forall|k: Seq<char>|
            #[trigger] granted(empty_ledger(), calls, local, calls.len() - 1, k) is Some ==> bounded_by(
                ledger_after(empty_ledger(), calls.drop_last(), local),
                k,
                granted(empty_ledger(), calls, local, calls.len() - 1, k)->0,
            ),
    ensures
        history_inv(calls, local),
{
    let pre = calls.drop_last();
    let n = pre.len() as int;
    let e = empty_ledger();
    let l0 = ledger_after(e, pre, local);
    let l1 = ledger_after(e, calls, local);
    lemma_prefix_transfer(calls, local);
    reveal(keys_found);
    reveal(slots_nonempty);
    reveal(entries_witnessed);
    assert(keys_found(l1));
    assert(slots_nonempty(l1));
    assert(entries_witnessed(calls, local, l1)) by {
        reveal(entries_witnessed);
        assert forall|si: int, ii: int|
            #![trigger l1.slots[si].invocations[ii]]
            0 <= si < l1.slots.len() && 0 <= ii < l1.slots[si].invocations.len() implies witnessed(calls, local, l1.slots[si].invocations[ii], l1.slots[si].key, (ii + 1) as nat) by {
            assert(l0.slots[si].invocations[ii] == l1.slots[si].invocations[ii]);
            let j = choose|j: int| #[trigger] admitted_by(pre, local, j, l0.slots[si].invocations[ii], l0.slots[si].key, (ii + 1) as nat);
            assert(admitted_by(calls, local, j, l1.slots[si].invocations[ii], l1.slots[si].key, (ii + 1) as nat));
        }
    }
    assert(grants_bounded(calls, local, l1)) by {
        reveal(grants_bounded);
        assert forall|j: int, k: Seq<char>|
            0 <= j < calls.len() && #[trigger] granted(e, calls, local, j, k) is Some implies bounded_by(
            l1,
            k,
            granted(e, calls, local, j, k)->0,
        ) by {
            if j < n {
                assert(granted(e, pre, local, j, k) is Some);
            }
        }
    }
}

/// The step of an admission the ledger has already made: it returns the
/// recorded generation and changes nothing.
proof fn lemma_readmission_step(calls: Seq<LedgerCall>, local: Seq<char>, env: JsonView, f: AdmissionView, g: nat)
    requires
        calls.len() > 0,
        calls.last() == LedgerCall::Admit(env),
        admission_of(env, local) == Ok::<AdmissionView, BoundaryErrorView>(f),
        ids_fix_the_slot(calls, local),
        history_inv(calls.drop_last(), local),
        readmitted_generation(ledger_after(empty_ledger(), calls.drop_last(), local), f.invocation_id, f.event_id)
            == Some(g),
    ensures
        history_inv(calls, local),
{
    let pre = calls.drop_last();
    let n = pre.len() as int;
    let e = empty_ledger();
    let l0 = ledger_after(e, pre, local);
    let l1 = ledger_after(e, calls, local);
    let key = admitted_key(f);
    lemma_prefix_transfer(calls, local);
    assert(calls[n] == LedgerCall::Admit(env));
    assert(l1 == l0);
    let (si, ii) = bound_invocation(l0, f.invocation_id)->0;
    let b = find_binding(l0.bindings, f.invocation_id)->0;
    lemma_find_slot(l0.slots, l0.bindings[b].1);
    lemma_find_issued(l0.slots[si].invocations, f.invocation_id);
    let x = l0.slots[si].invocations[ii];
    assert(g == ii + 1);
    assert(exists|j: int| #[trigger] admitted_by(pre, local, j, x, l0.slots[si].key, (ii + 1) as nat)) by {
        reveal(entries_witnessed);
    }
    let j0 = choose|j: int| #[trigger] admitted_by(pre, local, j, x, l0.slots[si].key, (ii + 1) as nat);
    assert(pre[j0] == calls[j0]);
    let e0 = calls[j0]->Admit_0;
    let f0 = admission_of(e0, local)->Ok_0;
    assert(issued_of(f0) == x);
    assert(admitted_key(f0) == key) by {
        assert(calls[j0] == LedgerCall::Admit(e0));
    }
    assert(find_slot(l0.slots, key) == Some(si)) by {
        reveal(keys_found);
    }
    assert forall|k: Seq<char>| #[trigger] granted(e, calls, local, n, k) is Some implies bounded_by(
        l0,
        k,
        granted(e, calls, local, n, k)->0,
    ) by {
        assert(k == key);
    }
    lemma_same_slots_step(calls, local);
}

/// The step of a new admission: it extends its slot, or opens one.
proof fn lemma_new_admission_step(calls: Seq<LedgerCall>, local: Seq<char>, env: JsonView, f: AdmissionView)
    requires
        calls.len() > 0,
        calls.last() == LedgerCall::Admit(env),
        admission_of(env, local) == Ok::<AdmissionView, BoundaryErrorView>(f),
        history_inv(calls.drop_last(), local),
        readmitted_generation(ledger_after(empty_ledger(), calls.drop_last(), local), f.invocation_id, f.event_id)
            is None,
    ensures
        history_inv(calls, local),
{
    let pre = calls.drop_last();
    let n = pre.len() as int;
    let e = empty_ledger();
    let l0 = ledger_after(e, pre, local);
    let l1 = ledger_after(e, calls, local);
    let key = admitted_key(f);
    lemma_prefix_transfer(calls, local);
    assert(calls[n] == LedgerCall::Admit(env));
    let g = admit_new(l0, f).0;
    assert(l1 == admit_new(l0, f).1);
    assert(granted(e, calls, local, n, key) == Some(g));
    lemma_find_slot(l0.slots, key);
    assert forall|k: Seq<char>| #[trigger] find_slot(l0.slots, k) is Some implies find_slot(l1.slots, k) == find_slot(
        l0.slots,
        k,
    ) by {
        lemma_admit_new_slots(l0, f, k);
    }
    lemma_admit_new_slots(l0, f, key);
    let target: int = match find_slot(l0.slots, key) {
        Some(si0) => si0,
        None => l0.slots.len() as int,
    };
    assert(find_slot(l1.slots, key) == Some(target));
    assert(l1.slots[target].key == key);
    assert(l1.slots[target].invocations.len() == g);
    assert(l1.slots[target].invocations[g - 1] == issued_of(f));
    assert(l1.slots.len() >= l0.slots.len());
    assert forall|si2: int| 0 <= si2 < l0.slots.len() implies #[trigger] l1.slots[si2].key == l0.slots[si2].key
        && l1.slots[si2].invocations.len() >= l0.slots[si2].invocations.len() && l0.slots[si2].invocations
        =~= l1.slots[si2].invocations.take(l0.slots[si2].invocations.len() as int) by {
    }
    assert(keys_found(l1)) by {
        reveal(keys_found);
        assert forall|si2: int| 0 <= si2 < l1.slots.len() implies find_slot(l1.slots, #[trigger] l1.slots[si2].key)
            == Some(si2) by {
            if si2 < l0.slots.len() {
                assert(l1.slots[si2].key == l0.slots[si2].key);
                assert(find_slot(l0.slots, l0.slots[si2].key) == Some(si2));
            }
        }
    }
    assert(slots_nonempty(l1)) by {
        reveal(slots_nonempty);
        assert forall|si2: int| 0 <= si2 < l1.slots.len() implies (#[trigger] l1.slots[si2]).invocations.len() > 0 by {
            if si2 < l0.slots.len() {
                assert(l1.slots[si2].key == l0.slots[si2].key);
            }
        }
    }
    assert(entries_witnessed(calls, local, l1)) by {
        reveal(entries_witnessed);
        assert forall|si2: int, ii2: int|
            #![trigger l1.slots[si2].invocations[ii2]]
            0 <= si2 < l1.slots.len() && 0 <= ii2 < l1.slots[si2].invocations.len() implies witnessed(calls, local, l1.slots[si2].invocations[ii2], l1.slots[si2].key, (ii2 + 1) as nat) by {
            if si2 < l0.slots.len() && ii2 < l0.slots[si2].invocations.len() {
                assert(l1.slots[si2].key == l0.slots[si2].key);
                assert(l0.slots[si2].invocations[ii2] == l1.slots[si2].invocations[ii2]);
                let j = choose|j: int| #[trigger] admitted_by(pre, local, j, l0.slots[si2].invocations[ii2], l0.slots[si2].key, (ii2 + 1) as nat);
                assert(admitted_by(calls, local, j, l1.slots[si2].invocations[ii2], l1.slots[si2].key, (ii2 + 1) as nat));
            } else {
                assert(si2 == target && ii2 == g - 1);
                assert(admitted_by(calls, local, n, l1.slots[si2].invocations[ii2], l1.slots[si2].key, (ii2 + 1) as nat));
            }
        }
    }
    assert(grants_bounded(calls, local, l1)) by {
        reveal(grants_bounded);
        assert forall|j: int, k: Seq<char>|
            0 <= j < calls.len() && #[trigger] granted(e, calls, local, j, k) is Some implies bounded_by(
            l1,
            k,
            granted(e, calls, local, j, k)->0,
        ) by {
            if j < n {
                assert(granted(e, pre, local, j, k) is Some);
                lemma_find_slot(l0.slots, k);
                let s0 = find_slot(l0.slots, k)->0;
                assert(find_slot(l1.slots, k) == Some(s0));
                assert(l1.slots[s0].key == l0.slots[s0].key);
            } else {
                assert(k == key);
            }
        }
    }
}

proof fn lemma_history(calls: Seq<LedgerCall>, local: Seq<char>)
    requires
        ids_fix_the_slot(calls, local),
    ensures
        history_inv(calls, local),
    decreases calls.len(),
{
    if calls.len() == 0 {
        reveal(keys_found);
        reveal(slots_nonempty);
        reveal(entries_witnessed);
        reveal(grants_bounded);
        return;
    }
    let pre = calls.drop_last();
    let n = pre.len() as int;
    assert forall|i: int, j: int| 0 <= i < pre.len() && 0 <= j < pre.len() implies match (#[trigger] pre[i], #[trigger] pre[j]) {
        (LedgerCall::Admit(a), LedgerCall::Admit(b)) => (admission_of(a, local) matches Ok(fa)
            && admission_of(b, local) matches Ok(fb) && fa.invocation_id == fb.invocation_id
            && fa.event_id == fb.event_id) ==> admitted_key(admission_of(a, local)->Ok_0)
            == admitted_key(admission_of(b, local)->Ok_0),
        _ => true,
    } by {
        assert(pre[i] == calls[i] && pre[j] == calls[j]);
    }
    lemma_history(pre, local);
    let e = empty_ledger();
    let l0 = ledger_after(e, pre, local);
    lemma_prefix_transfer(calls, local);
    assert(calls[n] == calls.last());
    match calls.last() {
        LedgerCall::Settle(obs) => {
            law_refusals_and_settlements_keep_the_slots(l0, obs, obs, local);
            assert forall|k: Seq<char>| #[trigger] granted(e, calls, local, n, k) is None by {}
            lemma_same_slots_step(calls, local);
        },
        LedgerCall::Admit(env) => {
            match admission_of(env, local) {
                Err(_) => {
                    assert forall|k: Seq<char>| #[trigger] granted(e, calls, local, n, k) is None by {}
                    lemma_same_slots_step(calls, local);
                },
                Ok(f) => {
                    match readmitted_generation(l0, f.invocation_id, f.event_id) {
                        Some(g) => lemma_readmission_step(calls, local, env, f, g),
                        None => lemma_new_admission_step(calls, local, env, f),
                    }
                },
            }
        },
    }
}

/// After any sequence of admissions and settlements on a fresh ledger, a
/// slot has no current generation exactly when no admission into it was
/// granted; otherwise its current generation is the highest generation any
/// admission into it returned. (It holds where envelopes that share an
/// invocation id and an event id name one slot: a re-admission returns the
/// generation recorded under those ids, whatever slot the new envelope names.)
pub proof fn law_current_generation_is_the_highest_granted(
    calls: Seq<LedgerCall>,
    local: Seq<char>,
    w: Seq<char>,
    o: Seq<char>,
    r: Seq<char>,
)
    requires
        ids_fix_the_slot(calls, local),
    ensures
        ({
            let l = ledger_after(empty_ledger(), calls, local);
            let k = slot_key_text(w, o, r);
            &&& current_generation_of(l, w, o, r) is None <==> forall|i: int|
                0 <= i < calls.len() ==> #[trigger] granted(empty_ledger(), calls, local, i, k) is None
            &&& current_generation_of(l, w, o, r) matches Some(g) ==> {
                &&& exists|i: int| 0 <= i < calls.len() && #[trigger] granted(empty_ledger(), calls, local, i, k) == Some(g)
                &&& forall|i: int|
                    0 <= i < calls.len() && #[trigger] granted(empty_ledger(), calls, local, i, k) is Some ==> granted(
                        empty_ledger(),
                        calls,
                        local,
                        i,
                        k,
                    )->0 <= g
            }
        }),
{
    lemma_history(calls, local);
    let l = ledger_after(empty_ledger(), calls, local);
    let k = slot_key_text(w, o, r);
    lemma_find_slot(l.slots, k);
    reveal(grants_bounded);
    match find_slot(l.slots, k) {
        None => {
            assert forall|i: int| 0 <= i < calls.len() implies #[trigger] granted(empty_ledger(), calls, local, i, k) is None by {
                if granted(empty_ledger(), calls, local, i, k) is Some {
                    assert(find_slot(l.slots, k) is Some);
                }
            }
        },
        Some(si) => {
            let len = l.slots[si].invocations.len();
            assert(l.slots[si].invocations.len() > 0) by {
                reveal(slots_nonempty);
            }
            let x = l.slots[si].invocations[len - 1];
            assert(exists|j: int| #[trigger] admitted_by(calls, local, j, x, l.slots[si].key, len as nat)) by {
                reveal(entries_witnessed);
            }
            let j = choose|j: int| #[trigger] admitted_by(calls, local, j, x, l.slots[si].key, len as nat);
            assert(admitted_by(calls, local, j, x, l.slots[si].key, len as nat));
            assert(granted(empty_ledger(), calls, local, j, k) == Some(len as nat));
        },
    }
}

/// None of the calls admits an envelope carrying invocation id `id`.
pub open spec fn admits_no_envelope_of(calls: Seq<LedgerCall>, local: Seq<char>, id: Seq<char>) -> bool {
    forall|i: int|
        0 <= i < calls.len() ==> !(#[trigger] calls[i] matches LedgerCall::Admit(env) && admission_of(env, local)
            matches Ok(f) && f.invocation_id == id)
}

/// A superseded invocation stays superseded, whatever calls follow that
/// admit no envelope of its invocation id; and an observation citing it
/// never settles after them (see `law_superseded_invocation_never_settles`
/// for how an invocation comes to be superseded).
pub proof fn law_superseded_invocation_stays_late(
    l: LedgerView,
    calls: Seq<LedgerCall>,
    obs: JsonView,
    local: Seq<char>,
    id: Seq<char>,
)
    requires
        superseded(l, id),
        admits_no_envelope_of(calls, local, id),
        observation_fields(obs, local) matches Ok(fo) && fo.invocation_id == id,
    ensures
        superseded(ledger_after(l, calls, local), id),
        !(settle_outcome(ledger_after(l, calls, local), obs, local).0 matches Ok(OutcomeView::Settled { .. })),
    decreases calls.len(),
{
    if calls.len() > 0 {
        let pre = calls.drop_last();
        assert forall|i: int| 0 <= i < pre.len() implies !(#[trigger] pre[i] matches LedgerCall::Admit(env)
            && admission_of(env, local) matches Ok(f) && f.invocation_id == id) by {
            assert(pre[i] == calls[i]);
        }
        law_superseded_invocation_stays_late(l, pre, obs, local, id);
        let l0 = ledger_after(l, pre, local);
        assert(calls[calls.len() - 1] == calls.last());
        match calls.last() {
            LedgerCall::Settle(o) => {
                law_refusals_and_settlements_keep_the_slots(l0, o, o, local);
                assert(bound_invocation(ledger_after(l, calls, local), id) == bound_invocation(l0, id));
            },
            LedgerCall::Admit(env) => {
                if let Ok(f) = admission_of(env, local) {
                    if readmitted_generation(l0, f.invocation_id, f.event_id) is None {
                        lemma_other_admission_keeps_binding(l0, f, id);
                    }
                }
            },
        }
    }
    let lf = ledger_after(l, calls, local);
    if !already_settled(lf, obs) && is_object(obs)
        && envelope_producer_fault(obs, EXECUTION_OBSERVATION@, "execution_environment"@) is None {
        let fo = observation_fields(obs, local)->Ok_0;
        assert(bound_invocation(lf, fo.invocation_id) is Some);
    }
}

} // verus!
