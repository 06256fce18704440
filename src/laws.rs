use vstd::prelude::*;
use crate::ledger::LedgerView;
use crate::submission::{submit_next, submit_outcome};
use crate::types::{is_zero_hash, Address, Error, ProofHash, ProofSubmitted, QuestStatus, Symbol};

verus! {

/// The arguments of one `submit_proof` call, with the clock it ran at.
pub struct SubmitCall {
    pub now: u64,
    pub quest_id: Symbol,
    pub submitter: Address,
    pub proof_hash: ProofHash,
}

/// The state after `calls` run one after another from `v`.
pub open spec fn run(v: LedgerView, calls: Seq<SubmitCall>) -> LedgerView
    decreases calls.len(),
{
    if calls.len() == 0 {
        v
    } else {
        let c = calls.last();
        submit_next(run(v, calls.drop_last()), c.now, c.quest_id, c.submitter, c.proof_hash)
    }
}

/// The announcements of the calls among `calls` that succeeded, in call order.
pub open spec fn accepted(v: LedgerView, calls: Seq<SubmitCall>) -> Seq<ProofSubmitted>
    decreases calls.len(),
{
    if calls.len() == 0 {
        Seq::empty()
    } else {
        let c = calls.last();
        let before = accepted(v, calls.drop_last());
        match submit_outcome(run(v, calls.drop_last()), c.now, c.quest_id, c.submitter, c.proof_hash) {
            Ok(e) => before.push(e),
            Err(_) => before,
        }
    }
}

/// The submitters of the events for quest `q`, in order.
pub open spec fn submitters_to(events: Seq<ProofSubmitted>, q: Symbol) -> Seq<Address>
    decreases events.len(),
{
    if events.len() == 0 {
        Seq::empty()
    } else {
        let rest = submitters_to(events.drop_last(), q);
        if events.last().quest_id == q {
            rest.push(events.last().submitter)
        } else {
            rest
        }
    }
}

/// The quests of the events by submitter `s`, in order.
pub open spec fn quests_of(events: Seq<ProofSubmitted>, s: Address) -> Seq<Symbol>
    decreases events.len(),
{
    if events.len() == 0 {
        Seq::empty()
    } else {
        let rest = quests_of(events.drop_last(), s);
        if events.last().submitter == s {
            rest.push(events.last().quest_id)
        } else {
            rest
        }
    }
}

/// A quest that exists and is not active refuses every proof with
/// `InvalidQuestStatus`, whatever the clock and the digest, and nothing
/// changes.
pub proof fn lemma_inactive_quest_refused(v: LedgerView, now: u64, q: Symbol, s: Address, h: ProofHash)
    requires
        v.quest(q) is Some,
        v.quest(q).unwrap().status != QuestStatus::Active,
    ensures
        submit_outcome(v, now, q, s, h) == Err::<ProofSubmitted, Error>(Error::InvalidQuestStatus),
        submit_next(v, now, q, s, h) == v,
{
}

/// The all-zero digest is refused with `InvalidProofHash` whenever every
/// earlier guard passes, and nothing changes.
pub proof fn lemma_zero_hash_refused(v: LedgerView, now: u64, q: Symbol, s: Address, h: ProofHash)
    requires
        is_zero_hash(h),
        v.quest(q) is Some,
        v.quest(q).unwrap().status == QuestStatus::Active,
        now <= v.quest(q).unwrap().deadline,
        v.record(q, s) is None,
    ensures
        submit_outcome(v, now, q, s, h) == Err::<ProofSubmitted, Error>(Error::InvalidProofHash),
        submit_next(v, now, q, s, h) == v,
{
}

/// Submitting never changes the quests, and a stored record stays stored;
/// each accepted proof leaves its record behind.
pub proof fn lemma_run_keeps_records(v: LedgerView, calls: Seq<SubmitCall>)
    ensures
        run(v, calls).quests == v.quests,
        forall|q: Symbol, s: Address| #[trigger] v.record(q, s) is Some ==> run(v, calls).record(q, s) is Some,
        forall|i: int| 0 <= i < accepted(v, calls).len() ==>
            (#[trigger] run(v, calls).record(accepted(v, calls)[i].quest_id, accepted(v, calls)[i].submitter)) is Some,
        forall|i: int| 0 <= i < accepted(v, calls).len() ==>
            (v.quest(#[trigger] accepted(v, calls)[i].quest_id) matches Some(quest) && quest.status == QuestStatus::Active),
    decreases calls.len(),
{
    if calls.len() > 0 {
        let cs = calls.drop_last();
        let c = calls.last();
        lemma_run_keeps_records(v, cs);
        let w = run(v, cs);
        let acc = accepted(v, cs);
        assert forall|q: Symbol, s: Address| #[trigger] w.record(q, s) is Some implies run(v, calls).record(q, s) is Some by {
            crate::ledger::lemma_record_key_injective(q, s, c.quest_id, c.submitter);
        }
        assert forall|q: Symbol, s: Address| #[trigger] v.record(q, s) is Some implies run(v, calls).record(q, s) is Some by {
            assert(w.record(q, s) is Some);
        }
        assert forall|i: int| 0 <= i < accepted(v, calls).len() implies
            (#[trigger] run(v, calls).record(accepted(v, calls)[i].quest_id, accepted(v, calls)[i].submitter)) is Some by {
            if i < acc.len() {
                assert(accepted(v, calls)[i] == acc[i]);
                assert(w.record(acc[i].quest_id, acc[i].submitter) is Some);
            }
        }
        assert forall|i: int| 0 <= i < accepted(v, calls).len() implies
            (v.quest(#[trigger] accepted(v, calls)[i].quest_id) matches Some(quest) && quest.status == QuestStatus::Active) by {
            if i < acc.len() {
                assert(accepted(v, calls)[i] == acc[i]);
            }
        }
    }
}

/// Each (quest, submitter) pair is accepted at most once over any run, and
/// never when a record for it already existed.
pub proof fn lemma_accepted_at_most_once(v: LedgerView, calls: Seq<SubmitCall>)
    ensures
        forall|i: int, j: int| 0 <= i < j < accepted(v, calls).len() ==>
            !(#[trigger] accepted(v, calls)[i].quest_id == #[trigger] accepted(v, calls)[j].quest_id
                && accepted(v, calls)[i].submitter == accepted(v, calls)[j].submitter),
        forall|i: int| 0 <= i < accepted(v, calls).len() ==>
            v.record(#[trigger] accepted(v, calls)[i].quest_id, accepted(v, calls)[i].submitter) is None,
    decreases calls.len(),
{
    if calls.len() > 0 {
        let cs = calls.drop_last();
        let c = calls.last();
        lemma_accepted_at_most_once(v, cs);
        lemma_run_keeps_records(v, cs);
        let w = run(v, cs);
        let acc = accepted(v, cs);
        if submit_outcome(w, c.now, c.quest_id, c.submitter, c.proof_hash) is Ok {
            let all = accepted(v, calls);
            assert(all == acc.push(all.last()));
            assert(w.record(c.quest_id, c.submitter) is None);
            assert forall|i: int, j: int| 0 <= i < j < all.len() implies
                !(#[trigger] all[i].quest_id == #[trigger] all[j].quest_id
                    && all[i].submitter == all[j].submitter) by {
                assert(all[i] == acc[i]);
                if j < acc.len() {
                    assert(all[j] == acc[j]);
                } else {
                    assert(w.record(acc[i].quest_id, acc[i].submitter) is Some);
                }
            }
            assert forall|i: int| 0 <= i < all.len() implies
                v.record(#[trigger] all[i].quest_id, all[i].submitter) is None by {
                if i < acc.len() {
                    assert(all[i] == acc[i]);
                } else {
                    if v.record(c.quest_id, c.submitter) is Some {
                        assert(w.record(c.quest_id, c.submitter) is Some);
                    }
                }
            }
        }
    }
}

/// Once a proof of `s` for `q` has been accepted, a later call for the same
/// pair, made while the quest's deadline has not passed, is refused with
/// `DuplicateSubmission` and changes nothing.
pub proof fn lemma_resubmission_refused(v: LedgerView, calls: Seq<SubmitCall>, i: int, c: SubmitCall)
    requires
        0 <= i < accepted(v, calls).len(),
        c.quest_id == accepted(v, calls)[i].quest_id,
        c.submitter == accepted(v, calls)[i].submitter,
        v.quest(c.quest_id) is Some,
        c.now <= v.quest(c.quest_id).unwrap().deadline,
    ensures
        submit_outcome(run(v, calls), c.now, c.quest_id, c.submitter, c.proof_hash)
            == Err::<ProofSubmitted, Error>(Error::DuplicateSubmission),
        submit_next(run(v, calls), c.now, c.quest_id, c.submitter, c.proof_hash) == run(v, calls),
{
    lemma_run_keeps_records(v, calls);
    assert(run(v, calls).record(accepted(v, calls)[i].quest_id, accepted(v, calls)[i].submitter) is Some);
    assert(v.quest(accepted(v, calls)[i].quest_id) matches Some(quest) && quest.status == QuestStatus::Active);
}

/// After any run, each quest index is what it was followed by the submitters
/// accepted for that quest in call order, and each user index is what it was
/// followed by the quests accepted for that user in call order.
pub proof fn lemma_index_consistency(v: LedgerView, calls: Seq<SubmitCall>)
    ensures
        forall|q: Symbol| #[trigger] run(v, calls).quest_index(q) == v.quest_index(q) + submitters_to(accepted(v, calls), q),
        forall|s: Address| #[trigger] run(v, calls).user_index(s) == v.user_index(s) + quests_of(accepted(v, calls), s),
    decreases calls.len(),
{
    if calls.len() > 0 {
        let cs = calls.drop_last();
        let c = calls.last();
        lemma_index_consistency(v, cs);
        let w = run(v, cs);
        let acc = accepted(v, cs);
        let all = accepted(v, calls);
        if submit_outcome(w, c.now, c.quest_id, c.submitter, c.proof_hash) is Ok {
            assert(all.drop_last() == acc);
            assert forall|q: Symbol| #[trigger] run(v, calls).quest_index(q) == v.quest_index(q) + submitters_to(all, q) by {
                assert(w.quest_index(q) == v.quest_index(q) + submitters_to(acc, q));
                if q == c.quest_id {
                    assert(v.quest_index(q) + submitters_to(acc, q).push(c.submitter)
                        =~= (v.quest_index(q) + submitters_to(acc, q)).push(c.submitter));
                }
            }
            assert forall|s: Address| #[trigger] run(v, calls).user_index(s) == v.user_index(s) + quests_of(all, s) by {
                assert(w.user_index(s) == v.user_index(s) + quests_of(acc, s));
                if s == c.submitter {
                    assert(v.user_index(s) + quests_of(acc, s).push(c.quest_id)
                        =~= (v.user_index(s) + quests_of(acc, s)).push(c.quest_id));
                }
            }
        } else {
            assert forall|q: Symbol| #[trigger] run(v, calls).quest_index(q) == v.quest_index(q) + submitters_to(all, q) by {
                assert(w.quest_index(q) == v.quest_index(q) + submitters_to(acc, q));
            }
            assert forall|s: Address| #[trigger] run(v, calls).user_index(s) == v.user_index(s) + quests_of(all, s) by {
                assert(w.user_index(s) == v.user_index(s) + quests_of(acc, s));
            }
        }
    } else {
        assert forall|q: Symbol| #[trigger] run(v, calls).quest_index(q) == v.quest_index(q) + submitters_to(accepted(v, calls), q) by {
            assert(v.quest_index(q) + Seq::<Address>::empty() =~= v.quest_index(q));
        }
        assert forall|s: Address| #[trigger] run(v, calls).user_index(s) == v.user_index(s) + quests_of(accepted(v, calls), s) by {
            assert(v.user_index(s) + Seq::<Symbol>::empty() =~= v.user_index(s));
        }
    }
}

} // verus!
