use vstd::prelude::*;

verus! {

/// A short symbolic name (a quest id, a badge), held as its 64-bit code.
#[derive(Clone, Copy, Debug, PartialEq, Eq, Structural)]
pub struct Symbol(pub u64);

/// An account identity, held as its 64-bit handle.
#[derive(Clone, Copy, Debug, PartialEq, Eq, Structural)]
pub struct Address(pub u64);

/// A 32-byte proof digest.
pub type ProofHash = [u8; 32];

#[derive(Clone, Copy, Debug, PartialEq, Eq, Structural)]
pub enum QuestStatus {
    Active,
    Paused,
    Completed,
    Expired,
}

#[derive(Clone, Copy, Debug, PartialEq, Eq, Structural)]
pub enum SubmissionStatus {
    Pending,
    Approved,
    Rejected,
    Paid,
}

/// A time-bounded task with a reward. This crate only reads quests.
#[derive(Clone, Copy, Debug, PartialEq, Eq)]
pub struct Quest {
    pub id: Symbol,
    pub creator: Address,
    pub reward_asset: Address,
    pub reward_amount: i128,
    pub verifier: Address,
    pub deadline: u64,
    pub status: QuestStatus,
    pub total_claims: u32,
}

/// A claim of completion, keyed by `(quest_id, submitter)`.
#[derive(Clone, Copy, Debug, PartialEq, Eq)]
pub struct Submission {
    pub quest_id: Symbol,
    pub submitter: Address,
    pub proof_hash: ProofHash,
    pub status: SubmissionStatus,
    pub timestamp: u64,
}

/// Per-user progress, owned by the scoring side; carried here as data only.
#[derive(Clone, Debug, PartialEq, Eq)]
pub struct UserStats {
    pub address: Address,
    pub total_xp: u32,
    pub level: u32,
    pub quests_completed: u32,
    pub badges: Vec<Symbol>,
}

/// What an accepted proof announces: quest, submitter and digest.
#[derive(Clone, Copy, Debug, PartialEq, Eq)]
pub struct ProofSubmitted {
    pub quest_id: Symbol,
    pub submitter: Address,
    pub proof_hash: ProofHash,
}

/// Every way an operation of this crate can fail.
#[derive(Clone, Copy, Debug, PartialEq, Eq, Structural)]
pub enum Error {
    QuestNotFound,
    InvalidQuestStatus,
    QuestExpired,
    DuplicateSubmission,
    InvalidProofHash,
    AlreadyExists,
    NotFound,
}

/// The digest made of 32 zero bytes, which no proof may carry.
pub open spec fn is_zero_hash(h: ProofHash) -> bool {
    forall|i: int| 0 <= i < 32 ==> #[trigger] h@[i] == 0
}

/// Tells whether `h` is the all-zero digest.
pub fn zero_hash(h: &ProofHash) -> (r: bool)
    ensures
        r == is_zero_hash(*h),
{
    broadcast use vstd::array::group_array_axioms;
    let mut i: usize = 0;
    while i < 32
        invariant
            i <= 32,
            forall|j: int| 0 <= j < i ==> #[trigger] h@[j] == 0,
        decreases 32 - i,
    {
        if h[i] != 0 {
            return false;
        }
        i = i + 1;
    }
    true
}

} // verus!
