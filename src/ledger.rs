use std::collections::HashMap;
use vstd::prelude::*;
use crate::types::{is_zero_hash, Address, Error, Quest, Submission, Symbol};

verus! {

broadcast use vstd::std_specs::hash::group_hash_axioms;

/// The slot of the submission of `submitter` to `quest` in the record table.
pub open spec fn record_key(quest: Symbol, submitter: Address) -> u128 {
    (quest.0 as int * 0x1_0000_0000_0000_0000 + submitter.0 as int) as u128
}

/// The contents of a [`Ledger`]: quests by code, submissions by
/// [`record_key`], and the two indexes.
pub struct LedgerView {
    pub quests: Map<u64, Quest>,
    pub records: Map<u128, Submission>,
    pub by_quest: Map<u64, Seq<Address>>,
    pub by_user: Map<u64, Seq<Symbol>>,
}

impl LedgerView {
    pub open spec fn quest(self, q: Symbol) -> Option<Quest> {
        if self.quests.contains_key(q.0) {
            Some(self.quests[q.0])
        } else {
            None
        }
    }

    pub open spec fn record(self, q: Symbol, s: Address) -> Option<Submission> {
        if self.records.contains_key(record_key(q, s)) {
            Some(self.records[record_key(q, s)])
        } else {
            None
        }
    }

    /// The submitters to `q`, in the order they submitted.
    pub open spec fn quest_index(self, q: Symbol) -> Seq<Address> {
        if self.by_quest.contains_key(q.0) {
            self.by_quest[q.0]
        } else {
            Seq::empty()
        }
    }

    /// The quests that `s` submitted to, in the order of submission.
    pub open spec fn user_index(self, s: Address) -> Seq<Symbol> {
        if self.by_user.contains_key(s.0) {
            self.by_user[s.0]
        } else {
            Seq::empty()
        }
    }

    /// The submission records, in the order that `quest_index(q)` gives.
    pub open spec fn quest_records(self, q: Symbol) -> Seq<Submission> {
        self.quest_index(q).map_values(|s: Address| self.record(q, s).unwrap())
    }

    /// The state after `sub` is stored and appended to both indexes.
    pub open spec fn with_submission(self, sub: Submission) -> LedgerView {
        let q = sub.quest_id;
        let s = sub.submitter;
        LedgerView {
            quests: self.quests,
            records: self.records.insert(record_key(q, s), sub),
            by_quest: self.by_quest.insert(q.0, self.quest_index(q).push(s)),
            by_user: self.by_user.insert(s.0, self.user_index(s).push(q)),
        }
    }

    /// Each quest sits under its own code; each record under its own key and
    /// with a nonzero digest; a record exists exactly when its submitter is
    /// listed once under its quest and its quest once under its submitter.
    pub open spec fn wf(self) -> bool {
        &&& forall|k: u64| #[trigger]
            self.quests.contains_key(k) ==> self.quests[k].id.0 == k
        &&& forall|k: u128| #[trigger]
            self.records.contains_key(k) ==> {
                let r = self.records[k];
                &&& record_key(r.quest_id, r.submitter) == k
                &&& !is_zero_hash(r.proof_hash)
            }
        &&& forall|q: Symbol, s: Address|
            #![trigger self.record(q, s)]
            #![trigger self.quest_index(q).contains(s)]
            self.record(q, s).is_some() <==> self.quest_index(q).contains(s)
        &&& forall|q: Symbol, s: Address|
            #![trigger self.record(q, s)]
            #![trigger self.user_index(s).contains(q)]
            self.record(q, s).is_some() <==> self.user_index(s).contains(q)
        &&& forall|q: Symbol| #[trigger] self.quest_index(q).no_duplicates()
        &&& forall|s: Address| #[trigger] self.user_index(s).no_duplicates()
    }
}

/// Distinct (quest, submitter) pairs occupy distinct slots.
pub proof fn lemma_record_key_injective(q1: Symbol, s1: Address, q2: Symbol, s2: Address)
    ensures
        record_key(q1, s1) == record_key(q2, s2) ==> q1 == q2 && s1 == s2,
{
}

/// The in-memory record store: quests, submissions, and the indexes
/// "submitters by quest" and "quests by submitter".
pub struct Ledger {
    quests: HashMap<u64, Quest>,
    records: HashMap<u128, Submission>,
    by_quest: HashMap<u64, Vec<Address>>,
    by_user: HashMap<u64, Vec<Symbol>>,
}

impl View for Ledger {
    type V = LedgerView;

    closed spec fn view(&self) -> LedgerView {
        LedgerView {
            quests: self.quests@,
            records: self.records@,
            by_quest: self.by_quest@.map_values(|v: Vec<Address>| v@),
            by_user: self.by_user@.map_values(|v: Vec<Symbol>| v@),
        }
    }
}

/// A copy of `v`, element by element.
fn copy_all<T: Copy>(v: &Vec<T>) -> (r: Vec<T>)
    ensures
        r@ == v@,
{
    let mut r: Vec<T> = Vec::new();
    let mut i: usize = 0;
    while i < v.len()
        invariant
            i <= v.len(),
            r@ == v@.subrange(0, i as int),
        decreases v.len() - i,
    {
        r.push(v[i]);
        i = i + 1;
        assert(r@ =~= v@.subrange(0, i as int));
    }
    assert(r@ =~= v@);
    r
}

fn slot(q: Symbol, s: Address) -> (r: u128)
    ensures
        r == record_key(q, s),
{
    (q.0 as u128) * 0x1_0000_0000_0000_0000u128 + (s.0 as u128)
}

impl Ledger {
    pub closed spec fn wf(&self) -> bool {
        self@.wf()
    }

    /// Every submitter that the quest index lists has a stored record.
    pub proof fn lemma_indexed_recorded(&self, q: Symbol, s: Address)
        requires
            self.wf(),
            self@.quest_index(q).contains(s),
        ensures
            self@.record(q, s).is_some(),
    {
    }

    /// An empty store.
    pub fn new() -> (r: Ledger)
        ensures
            r.wf(),
            r@.quests == Map::<u64, Quest>::empty(),
            r@.records == Map::<u128, Submission>::empty(),
            forall|q: Symbol| #[trigger] r@.quest_index(q) == Seq::<Address>::empty(),
            forall|s: Address| #[trigger] r@.user_index(s) == Seq::<Symbol>::empty(),
    {
        let r = Ledger {
            quests: HashMap::new(),
            records: HashMap::new(),
            by_quest: HashMap::new(),
            by_user: HashMap::new(),
        };
        assert(r@.by_quest =~= Map::empty());
        assert(r@.by_user =~= Map::empty());
        r
    }

    /// Adds or replaces the quest stored under `quest.id`. This is the seam
    /// through which quest administration fills the store; the submission
    /// workflow never writes quests.
    pub fn insert_quest(&mut self, quest: Quest)
        requires
            old(self).wf(),
        ensures
            final(self).wf(),
            final(self)@ == (LedgerView { quests: old(self)@.quests.insert(quest.id.0, quest), ..old(self)@ }),
    {
        let ghost pre = self@;
        self.quests.insert(quest.id.0, quest);
        proof {
            assert forall|q: Symbol, s: Address| #[trigger] self@.record(q, s) == pre.record(q, s) by {
                assert(pre.record(q, s).is_some() <==> pre.quest_index(q).contains(s));
                assert(pre.record(q, s).is_some() <==> pre.user_index(s).contains(q));
            }
            assert forall|q: Symbol| #[trigger] self@.quest_index(q).no_duplicates() by {
                assert(pre.quest_index(q).no_duplicates());
            }
            assert forall|s: Address| #[trigger] self@.user_index(s).no_duplicates() by {
                assert(pre.user_index(s).no_duplicates());
            }
        }
    }

    /// The quest stored under `id`, or `NotFound`.
    pub fn quest(&self, id: Symbol) -> (r: Result<Quest, Error>)
        ensures
            r == match self@.quest(id) {
                Some(q) => Ok::<Quest, Error>(q),
                None => Err(Error::NotFound),
            },
    {
        match self.quests.get(&id.0) {
            Some(q) => Ok(*q),
            None => Err(Error::NotFound),
        }
    }

    /// Whether a submission of `submitter` to `quest_id` is stored.
    pub fn submission_exists(&self, quest_id: Symbol, submitter: Address) -> (r: bool)
        ensures
            r == self@.record(quest_id, submitter).is_some(),
    {
        self.records.contains_key(&slot(quest_id, submitter))
    }

    /// The submission of `submitter` to `quest_id`, or `NotFound`.
    pub fn submission(&self, quest_id: Symbol, submitter: Address) -> (r: Result<Submission, Error>)
        ensures
            r == match self@.record(quest_id, submitter) {
                Some(s) => Ok::<Submission, Error>(s),
                None => Err(Error::NotFound),
            },
    {
        match self.records.get(&slot(quest_id, submitter)) {
            Some(s) => Ok(*s),
            None => Err(Error::NotFound),
        }
    }

    /// The submitters to `quest_id` in submission order; empty for a quest
    /// with none.
    pub fn list_by_quest(&self, quest_id: Symbol) -> (r: Vec<Address>)
        ensures
            r@ == self@.quest_index(quest_id),
    {
        match self.by_quest.get(&quest_id.0) {
            Some(v) => copy_all(v),
            None => Vec::new(),
        }
    }

    /// The quests that `submitter` submitted to, in submission order; empty
    /// for a user with none.
    pub fn list_by_user(&self, submitter: Address) -> (r: Vec<Symbol>)
        ensures
            r@ == self@.user_index(submitter),
    {
        match self.by_user.get(&submitter.0) {
            Some(v) => copy_all(v),
            None => Vec::new(),
        }
    }

    /// Stores `sub` unless its slot is taken (`AlreadyExists`, nothing
    /// changes). Writes the record first, then the quest index, then the
    /// user index.
    pub fn create_submission(&mut self, sub: Submission) -> (r: Result<(), Error>)
        requires
            old(self).wf(),
            !is_zero_hash(sub.proof_hash),
        ensures
            final(self).wf(),
            old(self)@.record(sub.quest_id, sub.submitter).is_some() ==> r == Err::<(), Error>(
                Error::AlreadyExists,
            ) && final(self)@ == old(self)@,
            old(self)@.record(sub.quest_id, sub.submitter).is_none() ==> r == Ok::<(), Error>(())
                && final(self)@ == old(self)@.with_submission(sub),
    {
        let q = sub.quest_id;
        let s = sub.submitter;
        let key = slot(q, s);
        if self.records.contains_key(&key) {
            return Err(Error::AlreadyExists);
        }
        let ghost pre = self@;
        self.records.insert(key, sub);
        let mut subs = match self.by_quest.remove(&q.0) {
            Some(v) => v,
            None => Vec::new(),
        };
        subs.push(s);
        self.by_quest.insert(q.0, subs);
        let mut quests = match self.by_user.remove(&s.0) {
            Some(v) => v,
            None => Vec::new(),
        };
        quests.push(q);
        self.by_user.insert(s.0, quests);
        proof {
            let post = pre.with_submission(sub);
            assert(self@.records =~= post.records);
            assert(self@.by_quest =~= post.by_quest);
            assert(self@.by_user =~= post.by_user);
            lemma_with_submission_wf(pre, sub);
        }
        Ok(())
    }
}

/// An element is in `a.push(x)` exactly when it is `x` or already in `a`.
proof fn lemma_push_contains<T>(a: Seq<T>, x: T, y: T)
    ensures
        a.push(x).contains(y) <==> (a.contains(y) || y == x),
{
    if a.push(x).contains(y) && y != x {
        let i = choose|i: int| 0 <= i < a.push(x).len() && a.push(x)[i] == y;
        assert(a[i] == y);
    }
    if a.contains(y) {
        let i = choose|i: int| 0 <= i < a.len() && a[i] == y;
        assert(a.push(x)[i] == y);
    }
    if y == x {
        assert(a.push(x)[a.len() as int] == y);
    }
}

/// Storing a new record with a nonzero digest keeps the store well formed.
proof fn lemma_with_submission_wf(v: LedgerView, sub: Submission)
    requires
        v.wf(),
        v.record(sub.quest_id, sub.submitter).is_none(),
        !is_zero_hash(sub.proof_hash),
    ensures
        v.with_submission(sub).wf(),
{
    let w = v.with_submission(sub);
    let q = sub.quest_id;
    let s = sub.submitter;
    assert(!v.quest_index(q).contains(s));
    assert(!v.user_index(s).contains(q));
    assert forall|q2: Symbol, s2: Address|
        #![trigger w.record(q2, s2)]
        w.record(q2, s2).is_some() <==> w.quest_index(q2).contains(s2) by {
        lemma_record_key_injective(q2, s2, q, s);
        assert(v.record(q2, s2).is_some() <==> v.quest_index(q2).contains(s2));
        if q2 == q {
            lemma_push_contains(v.quest_index(q), s, s2);
        }
    }
    assert forall|q2: Symbol, s2: Address|
        #![trigger w.record(q2, s2)]
        w.record(q2, s2).is_some() <==> w.user_index(s2).contains(q2) by {
        lemma_record_key_injective(q2, s2, q, s);
        assert(v.record(q2, s2).is_some() <==> v.user_index(s2).contains(q2));
        if s2 == s {
            lemma_push_contains(v.user_index(s), q, q2);
        }
    }
    assert forall|q2: Symbol| #[trigger] w.quest_index(q2).no_duplicates() by {
        assert(v.quest_index(q2).no_duplicates());
        if q2 == q {
            lemma_push_no_duplicates(v.quest_index(q), s);
        }
    }
    assert forall|s2: Address| #[trigger] w.user_index(s2).no_duplicates() by {
        assert(v.user_index(s2).no_duplicates());
        if s2 == s {
            lemma_push_no_duplicates(v.user_index(s), q);
        }
    }
}

/// Appending an element that is absent keeps a sequence free of repeats.
proof fn lemma_push_no_duplicates<T>(a: Seq<T>, x: T)
    requires
        a.no_duplicates(),
        !a.contains(x),
    ensures
        a.push(x).no_duplicates(),
{
    let b = a.push(x);
    assert forall|i: int, j: int| 0 <= i < b.len() && 0 <= j < b.len() && i != j implies b[i] != b[j] by {
        if i == a.len() as int {
            assert(b[j] == a[j]);
        } else if j == a.len() as int {
            assert(b[i] == a[i]);
        } else {
            assert(b[i] == a[i] && b[j] == a[j]);
        }
    }
}

} // verus!
