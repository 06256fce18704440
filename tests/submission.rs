use earn_quest::ledger::Ledger;
use earn_quest::submission::{get_quest_submissions, get_submission, get_user_submissions, submit_proof};
use earn_quest::types::{
    zero_hash, Address, Error, ProofSubmitted, Quest, QuestStatus, Submission, SubmissionStatus, Symbol,
    UserStats,
};

const Q1: Symbol = Symbol(1);
const Q2: Symbol = Symbol(2);
const Q3: Symbol = Symbol(3);
const Q9: Symbol = Symbol(9);
const ALICE: Address = Address(100);
const BOB: Address = Address(101);
const CAROL: Address = Address(102);
const DAVE: Address = Address(103);

fn quest(id: Symbol, deadline: u64, status: QuestStatus) -> Quest {
    Quest {
        id,
        creator: Address(1),
        reward_asset: Address(2),
        reward_amount: 50,
        verifier: Address(3),
        deadline,
        status,
        total_claims: 0,
    }
}

fn ledger_with(quests: &[Quest]) -> Ledger {
    let mut l = Ledger::new();
    for q in quests {
        l.insert_quest(*q);
    }
    l
}

#[test]
fn accepts_before_deadline_and_stores_pending() {
    let mut l = ledger_with(&[quest(Q1, 1000, QuestStatus::Active)]);
    let r = submit_proof(&mut l, 500, Q1, ALICE, [0xAA; 32]);
    assert_eq!(r, Ok(ProofSubmitted { quest_id: Q1, submitter: ALICE, proof_hash: [0xAA; 32] }));
    let s = get_submission(&l, Q1, ALICE).unwrap();
    assert_eq!(s.timestamp, 500);
    assert_eq!(s.status, SubmissionStatus::Pending);
    assert_eq!(s.proof_hash, [0xAA; 32]);
    assert_eq!(s.quest_id, Q1);
    assert_eq!(s.submitter, ALICE);
}

#[test]
fn refuses_after_deadline() {
    let mut l = ledger_with(&[quest(Q1, 1000, QuestStatus::Active)]);
    assert!(submit_proof(&mut l, 500, Q1, ALICE, [0xAA; 32]).is_ok());
    assert_eq!(submit_proof(&mut l, 1500, Q1, BOB, [0xBB; 32]), Err(Error::QuestExpired));
    assert_eq!(get_submission(&l, Q1, BOB), Err(Error::NotFound));
    assert_eq!(get_user_submissions(&l, BOB), Vec::<Symbol>::new());
}

#[test]
fn deadline_itself_is_still_open() {
    let mut l = ledger_with(&[quest(Q1, 1000, QuestStatus::Active)]);
    assert!(submit_proof(&mut l, 1000, Q1, BOB, [0xBB; 32]).is_ok());
    assert_eq!(submit_proof(&mut l, 1001, Q1, CAROL, [0xCC; 32]), Err(Error::QuestExpired));
}

#[test]
fn repeated_submission_is_duplicate_and_changes_nothing() {
    let mut l = ledger_with(&[quest(Q1, 1000, QuestStatus::Active)]);
    assert!(submit_proof(&mut l, 500, Q1, ALICE, [0xAA; 32]).is_ok());
    assert_eq!(submit_proof(&mut l, 500, Q1, ALICE, [0xAA; 32]), Err(Error::DuplicateSubmission));
    assert_eq!(submit_proof(&mut l, 600, Q1, ALICE, [0x11; 32]), Err(Error::DuplicateSubmission));
    let subs = get_quest_submissions(&l, Q1).unwrap();
    assert_eq!(subs.len(), 1);
    assert_eq!(subs[0].submitter, ALICE);
    assert_eq!(subs[0].timestamp, 500);
    assert_eq!(subs[0].proof_hash, [0xAA; 32]);
    assert_eq!(get_user_submissions(&l, ALICE), vec![Q1]);
}

#[test]
fn paused_quest_refused_at_any_clock() {
    for now in [0u64, 500, 5000, u64::MAX] {
        let mut l = ledger_with(&[quest(Q2, 1000, QuestStatus::Paused)]);
        assert_eq!(submit_proof(&mut l, now, Q2, CAROL, [0xCC; 32]), Err(Error::InvalidQuestStatus));
        assert_eq!(get_quest_submissions(&l, Q2), Ok(vec![]));
    }
}

#[test]
fn unknown_quest_not_found_and_lists_empty() {
    let mut l = ledger_with(&[quest(Q1, 1000, QuestStatus::Active)]);
    assert_eq!(submit_proof(&mut l, 500, Q9, DAVE, [0xDD; 32]), Err(Error::QuestNotFound));
    assert_eq!(get_quest_submissions(&l, Q9), Ok(vec![]));
    assert_eq!(get_user_submissions(&l, DAVE), Vec::<Symbol>::new());
}

#[test]
fn every_inactive_status_is_refused() {
    for status in [QuestStatus::Paused, QuestStatus::Completed, QuestStatus::Expired] {
        let mut l = ledger_with(&[quest(Q1, 1000, status)]);
        assert_eq!(submit_proof(&mut l, 500, Q1, ALICE, [0xAA; 32]), Err(Error::InvalidQuestStatus));
        assert_eq!(submit_proof(&mut l, 2000, Q1, ALICE, [0; 32]), Err(Error::InvalidQuestStatus));
    }
}

#[test]
fn zero_hash_refused_when_all_else_passes() {
    let mut l = ledger_with(&[quest(Q1, 1000, QuestStatus::Active)]);
    assert_eq!(submit_proof(&mut l, 500, Q1, ALICE, [0; 32]), Err(Error::InvalidProofHash));
    assert_eq!(get_submission(&l, Q1, ALICE), Err(Error::NotFound));
    assert_eq!(get_user_submissions(&l, ALICE), Vec::<Symbol>::new());
    let mut one = [0u8; 32];
    one[31] = 1;
    assert!(submit_proof(&mut l, 500, Q1, ALICE, one).is_ok());
}

#[test]
fn guard_order_takes_the_first_failure() {
    let mut l = ledger_with(&[quest(Q1, 1000, QuestStatus::Active)]);
    assert!(submit_proof(&mut l, 500, Q1, ALICE, [0xAA; 32]).is_ok());
    // expired before duplicate
    assert_eq!(submit_proof(&mut l, 1500, Q1, ALICE, [0xAA; 32]), Err(Error::QuestExpired));
    // duplicate before zero digest
    assert_eq!(submit_proof(&mut l, 500, Q1, ALICE, [0; 32]), Err(Error::DuplicateSubmission));
}

#[test]
fn zero_hash_detection() {
    assert!(zero_hash(&[0; 32]));
    assert!(!zero_hash(&[0xAA; 32]));
    let mut h = [0u8; 32];
    h[0] = 7;
    assert!(!zero_hash(&h));
}

#[test]
fn indexes_follow_call_order() {
    let mut l = ledger_with(&[
        quest(Q1, 1000, QuestStatus::Active),
        quest(Q2, 1000, QuestStatus::Active),
        quest(Q3, 1000, QuestStatus::Paused),
    ]);
    assert!(submit_proof(&mut l, 10, Q2, BOB, [1; 32]).is_ok());
    assert!(submit_proof(&mut l, 11, Q1, CAROL, [2; 32]).is_ok());
    assert!(submit_proof(&mut l, 12, Q3, BOB, [3; 32]).is_err());
    assert!(submit_proof(&mut l, 13, Q1, BOB, [4; 32]).is_ok());
    assert!(submit_proof(&mut l, 14, Q1, ALICE, [5; 32]).is_ok());
    assert!(submit_proof(&mut l, 15, Q1, BOB, [6; 32]).is_err());
    let q1: Vec<Address> = get_quest_submissions(&l, Q1).unwrap().iter().map(|s| s.submitter).collect();
    assert_eq!(q1, vec![CAROL, BOB, ALICE]);
    let q2: Vec<Address> = get_quest_submissions(&l, Q2).unwrap().iter().map(|s| s.submitter).collect();
    assert_eq!(q2, vec![BOB]);
    assert_eq!(get_quest_submissions(&l, Q3), Ok(vec![]));
    assert_eq!(get_user_submissions(&l, BOB), vec![Q2, Q1]);
    assert_eq!(get_user_submissions(&l, CAROL), vec![Q1]);
    assert_eq!(get_user_submissions(&l, ALICE), vec![Q1]);
    assert_eq!(l.list_by_quest(Q1), vec![CAROL, BOB, ALICE]);
    assert_eq!(l.list_by_user(BOB), vec![Q2, Q1]);
    let timestamps: Vec<u64> = get_quest_submissions(&l, Q1).unwrap().iter().map(|s| s.timestamp).collect();
    assert_eq!(timestamps, vec![11, 13, 14]);
}

#[test]
fn reads_repeat_identically() {
    let mut l = ledger_with(&[quest(Q1, 1000, QuestStatus::Active)]);
    assert!(submit_proof(&mut l, 500, Q1, ALICE, [0xAA; 32]).is_ok());
    assert!(submit_proof(&mut l, 501, Q1, BOB, [0xBB; 32]).is_ok());
    assert_eq!(get_submission(&l, Q1, ALICE), get_submission(&l, Q1, ALICE));
    assert_eq!(get_submission(&l, Q1, DAVE), get_submission(&l, Q1, DAVE));
    assert_eq!(get_user_submissions(&l, BOB), get_user_submissions(&l, BOB));
    assert_eq!(get_quest_submissions(&l, Q1), get_quest_submissions(&l, Q1));
    assert_eq!(get_quest_submissions(&l, Q1).unwrap().len(), 2);
}

#[test]
fn repository_get_and_create() {
    let mut l = ledger_with(&[quest(Q1, 1000, QuestStatus::Active)]);
    assert_eq!(l.quest(Q1), Ok(quest(Q1, 1000, QuestStatus::Active)));
    assert_eq!(l.quest(Q9), Err(Error::NotFound));
    let sub = Submission {
        quest_id: Q1,
        submitter: DAVE,
        proof_hash: [9; 32],
        status: SubmissionStatus::Pending,
        timestamp: 3,
    };
    assert!(!l.submission_exists(Q1, DAVE));
    assert_eq!(l.create_submission(sub), Ok(()));
    assert!(l.submission_exists(Q1, DAVE));
    assert_eq!(l.submission(Q1, DAVE), Ok(sub));
    assert_eq!(l.create_submission(Submission { timestamp: 4, ..sub }), Err(Error::AlreadyExists));
    assert_eq!(l.submission(Q1, DAVE), Ok(sub));
    assert_eq!(l.list_by_quest(Q1), vec![DAVE]);
    assert_eq!(l.list_by_user(DAVE), vec![Q1]);
}

#[test]
fn same_user_many_quests_and_same_quest_many_users_are_distinct_slots() {
    let mut l = ledger_with(&[quest(Symbol(0), 9, QuestStatus::Active), quest(Symbol(u64::MAX), 9, QuestStatus::Active)]);
    assert!(submit_proof(&mut l, 1, Symbol(0), Address(u64::MAX), [1; 32]).is_ok());
    assert!(submit_proof(&mut l, 1, Symbol(u64::MAX), Address(0), [2; 32]).is_ok());
    assert!(submit_proof(&mut l, 1, Symbol(0), Address(0), [3; 32]).is_ok());
    assert!(submit_proof(&mut l, 1, Symbol(u64::MAX), Address(u64::MAX), [4; 32]).is_ok());
    assert_eq!(get_submission(&l, Symbol(0), Address(0)).unwrap().proof_hash, [3; 32]);
    assert_eq!(get_submission(&l, Symbol(u64::MAX), Address(0)).unwrap().proof_hash, [2; 32]);
    assert_eq!(get_user_submissions(&l, Address(0)), vec![Symbol(u64::MAX), Symbol(0)]);
}

#[test]
fn quest_update_keeps_submissions() {
    let mut l = ledger_with(&[quest(Q1, 1000, QuestStatus::Active)]);
    assert!(submit_proof(&mut l, 500, Q1, ALICE, [0xAA; 32]).is_ok());
    l.insert_quest(quest(Q1, 1000, QuestStatus::Completed));
    assert_eq!(submit_proof(&mut l, 500, Q1, BOB, [0xBB; 32]), Err(Error::InvalidQuestStatus));
    assert_eq!(get_submission(&l, Q1, ALICE).unwrap().timestamp, 500);
}

#[test]
fn user_stats_is_plain_data() {
    let a = UserStats { address: ALICE, total_xp: 10, level: 1, quests_completed: 1, badges: vec![Q1] };
    let b = a.clone();
    assert_eq!(a, b);
}
