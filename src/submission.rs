use vstd::prelude::*;
use crate::ledger::{Ledger, LedgerView};
use crate::types::{
    is_zero_hash, zero_hash, Address, Error, ProofHash, ProofSubmitted, QuestStatus, Submission,
    SubmissionStatus, Symbol,
};

verus! {

/// The record that an accepted proof creates.
pub open spec fn pending_submission(now: u64, q: Symbol, s: Address, h: ProofHash) -> Submission {
    Submission { quest_id: q, submitter: s, proof_hash: h, status: SubmissionStatus::Pending, timestamp: now }
}

/// What `submit_proof` answers in state `v` at clock `now`: the first guard
/// that fails, in this order, or the announcement of the new submission.
pub open spec fn submit_outcome(v: LedgerView, now: u64, q: Symbol, s: Address, h: ProofHash) -> Result<ProofSubmitted, Error> {
    match v.quest(q) {
        None => Err(Error::QuestNotFound),
        Some(quest) => {
            if quest.status != QuestStatus::Active {
                Err(Error::InvalidQuestStatus)
            } else if now > quest.deadline {
                Err(Error::QuestExpired)
            } else if v.record(q, s).is_some() {
                Err(Error::DuplicateSubmission)
            } else if is_zero_hash(h) {
                Err(Error::InvalidProofHash)
            } else {
                Ok(ProofSubmitted { quest_id: q, submitter: s, proof_hash: h })
            }
        },
    }
}

/// The state after `submit_proof`: the new submission stored and indexed when
/// accepted, `v` itself when refused.
pub open spec fn submit_next(v: LedgerView, now: u64, q: Symbol, s: Address, h: ProofHash) -> LedgerView {
    if submit_outcome(v, now, q, s, h) is Ok {
        v.with_submission(pending_submission(now, q, s, h))
    } else {
        v
    }
}

/// Accepts `proof_hash` as the proof of `submitter` for `quest_id` at clock
/// `now`, or names the first guard that refuses it. On success the store
/// holds a pending record stamped `now`, both indexes list it last, and the
/// event to announce is returned; on failure nothing changes.
pub fn submit_proof(
    ledger: &mut Ledger,
    now: u64,
    quest_id: Symbol,
    submitter: Address,
    proof_hash: ProofHash,
) -> (r: Result<ProofSubmitted, Error>)
    requires
        old(ledger).wf(),
    ensures
        final(ledger).wf(),
        r == submit_outcome(old(ledger)@, now, quest_id, submitter, proof_hash),
        final(ledger)@ == submit_next(old(ledger)@, now, quest_id, submitter, proof_hash),
{
    let quest = match ledger.quest(quest_id) {
        Ok(quest) => quest,
        Err(_) => return Err(Error::QuestNotFound),
    };
    match quest.status {
        QuestStatus::Active => {},
        _ => return Err(Error::InvalidQuestStatus),
    }
    if now > quest.deadline {
        return Err(Error::QuestExpired);
    }
    if ledger.submission_exists(quest_id, submitter) {
        return Err(Error::DuplicateSubmission);
    }
    if zero_hash(&proof_hash) {
        return Err(Error::InvalidProofHash);
    }
    let submission = Submission {
        quest_id,
        submitter,
        proof_hash,
        status: SubmissionStatus::Pending,
        timestamp: now,
    };
    match ledger.create_submission(submission) {
        Ok(()) => {},
        Err(e) => return Err(e),
    }
    Ok(ProofSubmitted { quest_id, submitter, proof_hash })
}

/// The submission of `submitter` to `quest_id`, or `NotFound`.
pub fn get_submission(ledger: &Ledger, quest_id: Symbol, submitter: Address) -> (r: Result<Submission, Error>)
    ensures
        r == match ledger@.record(quest_id, submitter) {
            Some(s) => Ok::<Submission, Error>(s),
            None => Err(Error::NotFound),
        },
{
    ledger.submission(quest_id, submitter)
}

/// The quests that `user` submitted to, in submission order; empty for a
/// user with none.
pub fn get_user_submissions(ledger: &Ledger, user: Address) -> (r: Vec<Symbol>)
    ensures
        r@ == ledger@.user_index(user),
{
    ledger.list_by_user(user)
}

/// The submission records for `quest_id`, in submission order; empty for an
/// unknown quest or one with none. Never fails on a well-formed store.
pub fn get_quest_submissions(ledger: &Ledger, quest_id: Symbol) -> (r: Result<Vec<Submission>, Error>)
    requires
        ledger.wf(),
    ensures
        r is Ok,
        r matches Ok(v) && v@ == ledger@.quest_records(quest_id),
{
    let submitters = ledger.list_by_quest(quest_id);
    let mut out: Vec<Submission> = Vec::new();
    let mut i: usize = 0;
    while i < submitters.len()
        invariant
            ledger.wf(),
            i <= submitters.len(),
            submitters@ == ledger@.quest_index(quest_id),
            out@ == ledger@.quest_records(quest_id).subrange(0, i as int),
        decreases submitters.len() - i,
    {
        proof {
            assert(ledger@.quest_index(quest_id).contains(submitters@[i as int]));
            ledger.lemma_indexed_recorded(quest_id, submitters@[i as int]);
        }
        match ledger.submission(quest_id, submitters[i]) {
            Ok(s) => out.push(s),
            Err(e) => return Err(e),
        }
        i = i + 1;
        assert(out@ =~= ledger@.quest_records(quest_id).subrange(0, i as int));
    }
    assert(out@ =~= ledger@.quest_records(quest_id));
    Ok(out)
}

} // verus!
