//! The bounded persistent ledger: corrections (AI suggestion versus the
//! user's choice), activity entries (move history with an undo flag), simple
//! last-write-wins settings, and ordered pattern rules.  Retention is
//! enforced on every insert: only the most recent entries, by creation time,
//! are kept.  The unverified shell loads and saves this state; every rule
//! about it lives here.

use vstd::prelude::*;

use crate::errors::DbError;

verus! {

/// How many corrections are retained.
pub const MAX_CORRECTIONS: usize = 50;

/// How many activity entries are retained.
pub const MAX_ACTIVITY_LOG: usize = 100;

/// A recorded disagreement (or confirmation) between the AI's suggestion and
/// the user's final choice.
#[derive(Debug)]
pub struct Correction {
    pub id: Option<i64>,
    pub filename: String,
    pub ai_suggested: String,
    pub user_chose: String,
    pub correction_type: String,
    pub created_at: i64,
}

/// The mathematical image of a stored correction.
pub struct CorrectionModel {
    pub id: int,
    pub filename: Seq<char>,
    pub ai_suggested: Seq<char>,
    pub user_chose: Seq<char>,
    pub correction_type: Seq<char>,
    pub created_at: int,
}

impl View for Correction {
    type V = CorrectionModel;

    open spec fn view(&self) -> CorrectionModel {
        CorrectionModel {
            id: match self.id {
                Some(i) => i as int,
                None => 0,
            },
            filename: self.filename@,
            ai_suggested: self.ai_suggested@,
            user_chose: self.user_chose@,
            correction_type: self.correction_type@,
            created_at: self.created_at as int,
        }
    }
}

impl Clone for Correction {
    /// A clone carries every field unchanged.
    fn clone(&self) -> (r: Self)
        ensures
            r == *self,
    {
        Correction {
            id: self.id,
            filename: self.filename.clone(),
            ai_suggested: self.ai_suggested.clone(),
            user_chose: self.user_chose.clone(),
            correction_type: self.correction_type.clone(),
            created_at: self.created_at,
        }
    }
}

/// A record of one relocation, reversible via undo until evicted.
#[derive(Debug)]
pub struct ActivityEntry {
    pub id: Option<i64>,
    pub filename: String,
    pub original_filename: Option<String>,
    pub from_folder: String,
    pub to_folder: String,
    pub undone: bool,
    pub created_at: i64,
}

/// The mathematical image of a stored activity entry.
pub struct ActivityModel {
    pub id: int,
    pub filename: Seq<char>,
    pub original_filename: Option<Seq<char>>,
    pub from_folder: Seq<char>,
    pub to_folder: Seq<char>,
    pub undone: bool,
    pub created_at: int,
}

impl View for ActivityEntry {
    type V = ActivityModel;

    open spec fn view(&self) -> ActivityModel {
        ActivityModel {
            id: match self.id {
                Some(i) => i as int,
                None => 0,
            },
            filename: self.filename@,
            original_filename: match self.original_filename {
                Some(s) => Some(s@),
                None => None,
            },
            from_folder: self.from_folder@,
            to_folder: self.to_folder@,
            undone: self.undone,
            created_at: self.created_at as int,
        }
    }
}

impl Clone for ActivityEntry {
    /// A clone carries every field unchanged.
    fn clone(&self) -> (r: Self)
        ensures
            r == *self,
    {
        ActivityEntry {
            id: self.id,
            filename: self.filename.clone(),
            original_filename: match &self.original_filename {
                Some(s) => Some(s.clone()),
                None => None,
            },
            from_folder: self.from_folder.clone(),
            to_folder: self.to_folder.clone(),
            undone: self.undone,
            created_at: self.created_at,
        }
    }
}

/// A deterministic shortcut: a filename pattern mapped to a target folder.
#[derive(Debug)]
pub struct Rule {
    pub id: Option<i64>,
    pub pattern: String,
    pub target_folder: String,
    pub created_at: i64,
}

/// The mathematical image of a stored rule.
pub struct RuleModel {
    pub id: int,
    pub pattern: Seq<char>,
    pub target_folder: Seq<char>,
    pub created_at: int,
}

impl View for Rule {
    type V = RuleModel;

    open spec fn view(&self) -> RuleModel {
        RuleModel {
            id: match self.id {
                Some(i) => i as int,
                None => 0,
            },
            pattern: self.pattern@,
            target_folder: self.target_folder@,
            created_at: self.created_at as int,
        }
    }
}

impl Clone for Rule {
    /// A clone carries every field unchanged.
    fn clone(&self) -> (r: Self)
        ensures
            r == *self,
    {
        Rule {
            id: self.id,
            pattern: self.pattern.clone(),
            target_folder: self.target_folder.clone(),
            created_at: self.created_at,
        }
    }
}

/// The views of the entries of a vector of corrections.
pub open spec fn corr_views(s: Seq<Correction>) -> Seq<CorrectionModel> {
    s.map_values(|c: Correction| c@)
}

/// The views of the entries of a vector of activity entries.
pub open spec fn act_views(s: Seq<ActivityEntry>) -> Seq<ActivityModel> {
    s.map_values(|c: ActivityEntry| c@)
}

/// The views of the entries of a vector of rules.
pub open spec fn rule_views(s: Seq<Rule>) -> Seq<RuleModel> {
    s.map_values(|c: Rule| c@)
}

/// `a` is more recent than `b`: later creation time, or the same time with a
/// later id.
pub open spec fn corr_newer(a: CorrectionModel, b: CorrectionModel) -> bool {
    a.created_at > b.created_at || (a.created_at == b.created_at && a.id > b.id)
}

/// The list runs from the most recent entry down.
pub open spec fn corr_sorted(s: Seq<CorrectionModel>) -> bool {
    forall|i: int, j: int| 0 <= i < j < s.len() ==> corr_newer(#[trigger] s[i], #[trigger] s[j])
}

/// `m` placed into the newest-first list at its position.
pub open spec fn corr_insert(s: Seq<CorrectionModel>, m: CorrectionModel) -> Seq<CorrectionModel>
    decreases s.len(),
{
    if s.len() == 0 {
        seq![m]
    } else if corr_newer(m, s[0]) {
        seq![m] + s
    } else {
        seq![s[0]] + corr_insert(s.drop_first(), m)
    }
}

/// `a` is more recent than `b`: later creation time, or the same time with a
/// later id.
pub open spec fn act_newer(a: ActivityModel, b: ActivityModel) -> bool {
    a.created_at > b.created_at || (a.created_at == b.created_at && a.id > b.id)
}

/// The list runs from the most recent entry down.
pub open spec fn act_sorted(s: Seq<ActivityModel>) -> bool {
    forall|i: int, j: int| 0 <= i < j < s.len() ==> act_newer(#[trigger] s[i], #[trigger] s[j])
}

/// `m` placed into the newest-first list at its position.
pub open spec fn act_insert(s: Seq<ActivityModel>, m: ActivityModel) -> Seq<ActivityModel>
    decreases s.len(),
{
    if s.len() == 0 {
        seq![m]
    } else if act_newer(m, s[0]) {
        seq![m] + s
    } else {
        seq![s[0]] + act_insert(s.drop_first(), m)
    }
}

/// `a` comes before `b` in rule order: earlier creation time, or the same
/// time with an earlier id.
pub open spec fn rule_earlier(a: RuleModel, b: RuleModel) -> bool {
    a.created_at < b.created_at || (a.created_at == b.created_at && a.id < b.id)
}

/// The list runs from the earliest rule up.
pub open spec fn rule_sorted(s: Seq<RuleModel>) -> bool {
    forall|i: int, j: int| 0 <= i < j < s.len() ==> rule_earlier(#[trigger] s[i], #[trigger] s[j])
}

/// One entry with the undo flag raised if it was created at `ts`.
pub open spec fn act_mark_one(m: ActivityModel, ts: int) -> ActivityModel {
    if m.created_at == ts {
        ActivityModel { undone: true, ..m }
    } else {
        m
    }
}

/// The list with the undo flag raised on every entry created at `ts`.
pub open spec fn act_marked(s: Seq<ActivityModel>, ts: int) -> Seq<ActivityModel> {
    Seq::new(s.len(), |k: int| act_mark_one(s[k], ts))
}

/// `m` placed into the earliest-first list at its position.
pub open spec fn rule_insert(s: Seq<RuleModel>, m: RuleModel) -> Seq<RuleModel>
    decreases s.len(),
{
    if s.len() == 0 {
        seq![m]
    } else if rule_earlier(m, s[0]) {
        seq![m] + s
    } else {
        seq![s[0]] + rule_insert(s.drop_first(), m)
    }
}

/// The retained prefix of a newest-first list under the bound `max`.
pub open spec fn retained<T>(s: Seq<T>, max: int) -> Seq<T> {
    if s.len() <= max {
        s
    } else {
        s.take(max)
    }
}

proof fn lemma_corr_insert_at(s: Seq<CorrectionModel>, m: CorrectionModel, i: int)
    requires
        0 <= i <= s.len(),
        forall|k: int| 0 <= k < i ==> !corr_newer(m, #[trigger] s[k]),
        i < s.len() ==> corr_newer(m, s[i]),
    ensures
        corr_insert(s, m) == s.take(i) + seq![m] + s.skip(i),
    decreases i,
{
    if i == 0 {
        assert(corr_insert(s, m) =~= s.take(0) + seq![m] + s.skip(0));
    } else {
        assert(!corr_newer(m, s[0]));
        lemma_corr_insert_at(s.drop_first(), m, i - 1);
        assert(s.take(i) + seq![m] + s.skip(i) =~= seq![s[0]] + (s.drop_first().take(i - 1)
            + seq![m] + s.drop_first().skip(i - 1)));
    }
}

proof fn lemma_corr_insert_sorted(s: Seq<CorrectionModel>, m: CorrectionModel)
    requires
        corr_sorted(s),
        forall|k: int| 0 <= k < s.len() ==> (#[trigger] s[k]).id != m.id,
    ensures
        corr_sorted(corr_insert(s, m)),
        corr_insert(s, m).len() == s.len() + 1,
        forall|k: int|
            0 <= k < corr_insert(s, m).len() ==> (#[trigger] corr_insert(s, m)[k] == m
                || s.contains(corr_insert(s, m)[k])),
    decreases s.len(),
{
    if s.len() == 0 {
    } else if corr_newer(m, s[0]) {
        let r = seq![m] + s;
        assert(forall|j: int| 1 <= j < r.len() ==> r[j] == s[j - 1]);
        assert forall|i: int, j: int| 0 <= i < j < r.len() implies corr_newer(r[i], r[j]) by {
            if i > 0 {
                assert(corr_newer(s[i - 1], s[j - 1]));
            } else {
                if j > 1 {
                    assert(corr_newer(s[0], s[j - 1]));
                }
            }
        }
        assert(forall|k: int| 1 <= k < r.len() ==> s.contains(r[k]));
    } else {
        let s1 = s.drop_first();
        assert(forall|k: int| 0 <= k < s1.len() ==> s1[k] == s[k + 1]);
        lemma_corr_insert_sorted(s1, m);
        let r1 = corr_insert(s1, m);
        let r = seq![s[0]] + r1;
        // The head is more recent than everything behind it.
        assert(!corr_newer(m, s[0]));
        assert(m.id != s[0].id);
        assert(corr_newer(s[0], m));
        assert forall|i: int, j: int| 0 <= i < j < r.len() implies corr_newer(r[i], r[j]) by {
            if i == 0 {
                let e = r1[j - 1];
                assert(e == m || s1.contains(e));
                if s1.contains(e) {
                    let w = choose|w: int| 0 <= w < s1.len() && s1[w] == e;
                    assert(corr_newer(s[0], s[w + 1]));
                }
            } else {
                assert(corr_newer(r1[i - 1], r1[j - 1]));
            }
        }
        assert forall|k: int| 0 <= k < r.len() implies (r[k] == m || s.contains(r[k])) by {
            if k > 0 {
                let e = r1[k - 1];
                if s1.contains(e) {
                    let w = choose|w: int| 0 <= w < s1.len() && s1[w] == e;
                    assert(s[w + 1] == e);
                }
            } else {
                assert(s[0] == r[0]);
            }
        }
    }
}

/// The ledger.  One instance owns all persisted state; the components read
/// and write only through its methods.
pub struct Database {
    corrections: Vec<Correction>,
    activity: Vec<ActivityEntry>,
    settings: Vec<(String, String)>,
    rules: Vec<Rule>,
    next_id: i64,
}

impl Database {
    /// The stored corrections, most recent first.
    pub closed spec fn corrections_view(&self) -> Seq<CorrectionModel> {
        corr_views(self.corrections@)
    }

    /// The stored activity entries, most recent first.
    pub closed spec fn activity_view(&self) -> Seq<ActivityModel> {
        act_views(self.activity@)
    }

    /// The stored rules, earliest first.
    pub closed spec fn rules_view(&self) -> Seq<RuleModel> {
        rule_views(self.rules@)
    }

    /// The stored settings as key-value pairs.
    pub closed spec fn settings_view(&self) -> Seq<(Seq<char>, Seq<char>)> {
        self.settings@.map_values(|p: (String, String)| (p.0@, p.1@))
    }

    /// The id the next stored entry will receive.
    pub closed spec fn fresh_id(&self) -> int {
        self.next_id as int
    }

    /// The ledger's invariant: each list is sorted its way and within its
    /// bound, every stored id is assigned and below the id counter, and
    /// setting keys are unique.
    pub closed spec fn wf(&self) -> bool {
        &&& 1 <= self.next_id
        &&& corr_sorted(self.corrections_view())
        &&& self.corrections@.len() <= MAX_CORRECTIONS
        &&& forall|k: int|
            0 <= k < self.corrections@.len() ==> ((#[trigger] self.corrections@[k]).id matches Some(
                i,
            ) && 1 <= i < self.next_id)
        &&& act_sorted(self.activity_view())
        &&& self.activity@.len() <= MAX_ACTIVITY_LOG
        &&& forall|k: int|
            0 <= k < self.activity@.len() ==> ((#[trigger] self.activity@[k]).id matches Some(i)
                && 1 <= i < self.next_id)
        &&& rule_sorted(self.rules_view())
        &&& forall|k: int|
            0 <= k < self.rules@.len() ==> ((#[trigger] self.rules@[k]).id matches Some(i) && 1 <= i
                < self.next_id)
        &&& forall|i: int, j: int|
            0 <= i < j < self.settings@.len() ==> (#[trigger] self.settings@[i]).0@ != (
            #[trigger] self.settings@[j]).0@
    }

    /// An empty ledger.
    pub fn new() -> (r: Database)
        ensures
            r.wf(),
            r.corrections_view() == Seq::<CorrectionModel>::empty(),
            r.activity_view() == Seq::<ActivityModel>::empty(),
            r.rules_view() == Seq::<RuleModel>::empty(),
            r.settings_view() == Seq::<(Seq<char>, Seq<char>)>::empty(),
            r.fresh_id() == 1,
    {
        let r = Database {
            corrections: Vec::new(),
            activity: Vec::new(),
            settings: Vec::new(),
            rules: Vec::new(),
            next_id: 1,
        };
        proof {
            assert(r.corrections_view() =~= Seq::<CorrectionModel>::empty());
            assert(r.activity_view() =~= Seq::<ActivityModel>::empty());
            assert(r.rules_view() =~= Seq::<RuleModel>::empty());
            assert(r.settings_view() =~= Seq::<(Seq<char>, Seq<char>)>::empty());
        }
        r
    }

    /// The invariant pins each list's order and bound, and every stored id:
    /// assigned, positive, and below the id counter, which itself sits within
    /// the id space.
    pub proof fn lemma_inv(&self)
        requires
            self.wf(),
        ensures
            corr_sorted(self.corrections_view()),
            self.corrections_view().len() <= MAX_CORRECTIONS,
            act_sorted(self.activity_view()),
            self.activity_view().len() <= MAX_ACTIVITY_LOG,
            rule_sorted(self.rules_view()),
            1 <= self.fresh_id() <= i64::MAX as int,
            forall|k: int|
                0 <= k < self.corrections_view().len() ==> 1 <= (
                #[trigger] self.corrections_view()[k]).id < self.fresh_id(),
            forall|k: int|
                0 <= k < self.activity_view().len() ==> 1 <= (
                #[trigger] self.activity_view()[k]).id < self.fresh_id(),
            forall|k: int|
                0 <= k < self.rules_view().len() ==> 1 <= (#[trigger] self.rules_view()[k]).id
                    < self.fresh_id(),
    {
        assert forall|k: int|
            0 <= k < self.corrections_view().len() implies 1 <= (
        #[trigger] self.corrections_view()[k]).id < self.fresh_id() by {
            assert(self.corrections_view()[k] == self.corrections@[k]@);
            assert(self.corrections@[k].id matches Some(x) && 1 <= x < self.next_id);
        }
        assert forall|k: int|
            0 <= k < self.activity_view().len() implies 1 <= (
        #[trigger] self.activity_view()[k]).id < self.fresh_id() by {
            assert(self.activity_view()[k] == self.activity@[k]@);
            assert(self.activity@[k].id matches Some(x) && 1 <= x < self.next_id);
        }
        assert forall|k: int|
            0 <= k < self.rules_view().len() implies 1 <= (#[trigger] self.rules_view()[k]).id
            < self.fresh_id() by {
            assert(self.rules_view()[k] == self.rules@[k]@);
            assert(self.rules@[k].id matches Some(x) && 1 <= x < self.next_id);
        }
    }

    /// Find the position a new entry with this creation time and id takes in
    /// the newest-first correction list.
    fn corr_insert_pos(
        v: &Vec<Correction>,
        at: i64,
        id: i64,
        Ghost(m): Ghost<CorrectionModel>,
    ) -> (i: usize)
        requires
            forall|k: int| 0 <= k < v@.len() ==> (#[trigger] v@[k]).id is Some,
            m.created_at == at as int,
            m.id == id as int,
        ensures
            i <= v@.len(),
            forall|k: int| 0 <= k < i ==> !corr_newer(m, #[trigger] corr_views(v@)[k]),
            i < v@.len() ==> corr_newer(m, corr_views(v@)[i as int]),
    {
        let mut i: usize = 0;
        while i < v.len()
            invariant
                i <= v@.len(),
                forall|k: int| 0 <= k < v@.len() ==> (#[trigger] v@[k]).id is Some,
                m.created_at == at as int,
                m.id == id as int,
                forall|k: int| 0 <= k < i ==> !corr_newer(m, #[trigger] corr_views(v@)[k]),
            decreases v@.len() - i,
        {
            let e = &v[i];
            let eid = match e.id {
                Some(x) => x,
                None => unreached(),
            };
            if at > e.created_at || (at == e.created_at && id > eid) {
                return i;
            }
            i += 1;
        }
        i
    }

    /// Add a correction under a fresh id, then enforce the retention bound:
    /// only the `MAX_CORRECTIONS` most recent survive.
    pub fn add_correction(&mut self, correction: Correction) -> (r: Result<i64, DbError>)
        requires
            old(self).wf(),
        ensures
            final(self).wf(),
            final(self).activity_view() == old(self).activity_view(),
            final(self).rules_view() == old(self).rules_view(),
            final(self).settings_view() == old(self).settings_view(),
            old(self).fresh_id() == i64::MAX as int ==> r is Err && *final(self) == *old(self),
            old(self).fresh_id() < i64::MAX as int ==> {
                &&& r matches Ok(id) && id as int == old(self).fresh_id() && id >= 1
                &&& final(self).fresh_id() == old(self).fresh_id() + 1
                &&& final(self).corrections_view() == retained(
                    corr_insert(
                        old(self).corrections_view(),
                        CorrectionModel { id: old(self).fresh_id(), ..correction@ },
                    ),
                    MAX_CORRECTIONS as int,
                )
            },
    {
        if self.next_id == i64::MAX {
            let mut t = String::new();
            t.append("id space exhausted");
            return Err(DbError::InsertFailed(t));
        }
        let id = self.next_id;
        self.next_id = id + 1;
        let entry = Correction {
            id: Some(id),
            filename: correction.filename,
            ai_suggested: correction.ai_suggested,
            user_chose: correction.user_chose,
            correction_type: correction.correction_type,
            created_at: correction.created_at,
        };
        let ghost m = entry@;
        let ghost v0 = corr_views(old(self).corrections@);
        let i = Self::corr_insert_pos(&self.corrections, entry.created_at, id, Ghost(m));
        proof {
            assert forall|k: int| 0 <= k < v0.len() implies (#[trigger] v0[k]).id != m.id by {
                assert(old(self).corrections@[k].id matches Some(x) && x < id);
            }
            lemma_corr_insert_at(v0, m, i as int);
            lemma_corr_insert_sorted(v0, m);
        }
        let ghost e0 = self.corrections@;
        self.corrections.insert(i, entry);
        proof {
            assert(self.corrections@ =~= e0.take(i as int) + seq![entry] + e0.skip(i as int));
            assert(corr_views(self.corrections@) =~= v0.take(i as int) + seq![m] + v0.skip(
                i as int,
            ));
            assert(corr_views(self.corrections@) == corr_insert(v0, m));
        }
        if self.corrections.len() > MAX_CORRECTIONS {
            let ghost e1 = self.corrections@;
            self.corrections.truncate(MAX_CORRECTIONS);
            proof {
                assert(self.corrections@ =~= e1.take(MAX_CORRECTIONS as int));
                assert(corr_views(self.corrections@) =~= corr_views(e1).take(
                    MAX_CORRECTIONS as int,
                ));
            }
        }
        proof {
            let inserted = corr_insert(v0, m);
            assert(self.corrections_view() == retained(inserted, MAX_CORRECTIONS as int));
            assert forall|k: int|
                0 <= k < self.corrections@.len() implies (#[trigger] self.corrections@[k]).id
                matches Some(x) && 1 <= x < self.next_id by {
                let ins = e0.take(i as int) + seq![entry] + e0.skip(i as int);
                assert(self.corrections@[k] == ins[k]);
                if k < i {
                    assert(ins[k] == old(self).corrections@[k]);
                } else if k > i {
                    assert(ins[k] == old(self).corrections@[k - 1]);
                }
            }
        }
        Ok(id)
    }

    /// All corrections, most recent first.
    pub fn get_corrections(&self) -> (r: Result<Vec<Correction>, DbError>)
        requires
            self.wf(),
        ensures
            r matches Ok(v) && corr_views(v@) == self.corrections_view(),
    {
        let v = self.corrections.clone();
        proof {
            assert(v@ =~= self.corrections@);
        }
        Ok(v)
    }

    /// Drop every correction.
    pub fn clear_corrections(&mut self) -> (r: Result<(), DbError>)
        requires
            old(self).wf(),
        ensures
            final(self).wf(),
            r is Ok,
            final(self).corrections_view() == Seq::<CorrectionModel>::empty(),
            final(self).activity_view() == old(self).activity_view(),
            final(self).rules_view() == old(self).rules_view(),
            final(self).settings_view() == old(self).settings_view(),
            final(self).fresh_id() == old(self).fresh_id(),
    {
        self.corrections.clear();
        proof {
            assert(final(self).corrections_view() =~= Seq::<CorrectionModel>::empty());
        }
        Ok(())
    }

    /// Find the position a new entry with this creation time and id takes in
    /// the newest-first activity list.
    fn act_insert_pos(
        v: &Vec<ActivityEntry>,
        at: i64,
        id: i64,
        Ghost(m): Ghost<ActivityModel>,
    ) -> (i: usize)
        requires
            forall|k: int| 0 <= k < v@.len() ==> (#[trigger] v@[k]).id is Some,
            m.created_at == at as int,
            m.id == id as int,
        ensures
            i <= v@.len(),
            forall|k: int| 0 <= k < i ==> !act_newer(m, #[trigger] act_views(v@)[k]),
            i < v@.len() ==> act_newer(m, act_views(v@)[i as int]),
    {
        let mut i: usize = 0;
        while i < v.len()
            invariant
                i <= v@.len(),
                forall|k: int| 0 <= k < v@.len() ==> (#[trigger] v@[k]).id is Some,
                m.created_at == at as int,
                m.id == id as int,
                forall|k: int| 0 <= k < i ==> !act_newer(m, #[trigger] act_views(v@)[k]),
            decreases v@.len() - i,
        {
            let e = &v[i];
            let eid = match e.id {
                Some(x) => x,
                None => unreached(),
            };
            if at > e.created_at || (at == e.created_at && id > eid) {
                return i;
            }
            i += 1;
        }
        i
    }

    /// Add an activity entry under a fresh id, then enforce the retention
    /// bound: only the `MAX_ACTIVITY_LOG` most recent survive.
    pub fn add_activity(&mut self, entry: ActivityEntry) -> (r: Result<i64, DbError>)
        requires
            old(self).wf(),
        ensures
            final(self).wf(),
            final(self).corrections_view() == old(self).corrections_view(),
            final(self).rules_view() == old(self).rules_view(),
            final(self).settings_view() == old(self).settings_view(),
            old(self).fresh_id() == i64::MAX as int ==> r is Err && *final(self) == *old(self),
            old(self).fresh_id() < i64::MAX as int ==> {
                &&& r matches Ok(id) && id as int == old(self).fresh_id() && id >= 1
                &&& final(self).fresh_id() == old(self).fresh_id() + 1
                &&& final(self).activity_view() == retained(
                    act_insert(
                        old(self).activity_view(),
                        ActivityModel { id: old(self).fresh_id(), ..entry@ },
                    ),
                    MAX_ACTIVITY_LOG as int,
                )
            },
    {
        if self.next_id == i64::MAX {
            let mut t = String::new();
            t.append("id space exhausted");
            return Err(DbError::InsertFailed(t));
        }
        let id = self.next_id;
        self.next_id = id + 1;
        let stored = ActivityEntry {
            id: Some(id),
            filename: entry.filename,
            original_filename: entry.original_filename,
            from_folder: entry.from_folder,
            to_folder: entry.to_folder,
            undone: entry.undone,
            created_at: entry.created_at,
        };
        let ghost m = stored@;
        let ghost v0 = act_views(old(self).activity@);
        let i = Self::act_insert_pos(&self.activity, stored.created_at, id, Ghost(m));
        proof {
            assert forall|k: int| 0 <= k < v0.len() implies (#[trigger] v0[k]).id != m.id by {
                assert(old(self).activity@[k].id matches Some(x) && x < id);
            }
            lemma_act_insert_at(v0, m, i as int);
            lemma_act_insert_sorted(v0, m);
        }
        let ghost e0 = self.activity@;
        self.activity.insert(i, stored);
        proof {
            assert(self.activity@ =~= e0.take(i as int) + seq![stored] + e0.skip(i as int));
            assert(act_views(self.activity@) =~= v0.take(i as int) + seq![m] + v0.skip(i as int));
            assert(act_views(self.activity@) == act_insert(v0, m));
        }
        if self.activity.len() > MAX_ACTIVITY_LOG {
            let ghost e1 = self.activity@;
            self.activity.truncate(MAX_ACTIVITY_LOG);
            proof {
                assert(self.activity@ =~= e1.take(MAX_ACTIVITY_LOG as int));
                assert(act_views(self.activity@) =~= act_views(e1).take(MAX_ACTIVITY_LOG as int));
            }
        }
        proof {
            let inserted = act_insert(v0, m);
            assert(self.activity_view() == retained(inserted, MAX_ACTIVITY_LOG as int));
            assert forall|k: int|
                0 <= k < self.activity@.len() implies ((#[trigger] self.activity@[k]).id
                matches Some(x) && 1 <= x < self.next_id) by {
                let ins = e0.take(i as int) + seq![stored] + e0.skip(i as int);
                assert(self.activity@[k] == ins[k]);
                if k < i {
                    assert(ins[k] == old(self).activity@[k]);
                } else if k > i {
                    assert(ins[k] == old(self).activity@[k - 1]);
                }
            }
        }
        Ok(id)
    }

    /// All activity entries, most recent first.
    pub fn get_activity_log(&self) -> (r: Result<Vec<ActivityEntry>, DbError>)
        requires
            self.wf(),
        ensures
            r matches Ok(v) && act_views(v@) == self.activity_view(),
    {
        let v = self.activity.clone();
        proof {
            assert(v@ =~= self.activity@);
        }
        Ok(v)
    }

    /// Flip the undo flag of every activity entry created at `timestamp`, and
    /// report whether any entry matched.
    pub fn mark_activity_undone(&mut self, timestamp: i64) -> (r: Result<bool, DbError>)
        requires
            old(self).wf(),
        ensures
            final(self).wf(),
            final(self).corrections_view() == old(self).corrections_view(),
            final(self).rules_view() == old(self).rules_view(),
            final(self).settings_view() == old(self).settings_view(),
            final(self).fresh_id() == old(self).fresh_id(),
            r matches Ok(b) && b == (exists|k: int|
                0 <= k < old(self).activity_view().len() && (#[trigger] old(
                    self,
                ).activity_view()[k]).created_at == timestamp as int),
            final(self).activity_view() == act_marked(
                old(self).activity_view(),
                timestamp as int,
            ),
    {
        let ghost v0 = act_views(old(self).activity@);
        let ghost target = act_marked(v0, timestamp as int);
        let mut found = false;
        let mut i: usize = 0;
        while i < self.activity.len()
            invariant
                v0 == act_views(old(self).activity@),
                target == act_marked(v0, timestamp as int),
                i <= self.activity@.len(),
                self.activity@.len() == v0.len(),
                forall|k: int|
                    0 <= k < v0.len() ==> (#[trigger] self.activity@[k]).id == old(
                        self,
                    ).activity@[k].id,
                forall|k: int| i <= k < v0.len() ==> (#[trigger] self.activity@[k])@ == v0[k],
                forall|k: int| 0 <= k < i ==> (#[trigger] self.activity@[k])@ == target[k],
                found == (exists|k: int|
                    0 <= k < i && (#[trigger] v0[k]).created_at == timestamp as int),
                self.corrections@ == old(self).corrections@,
                self.rules@ == old(self).rules@,
                self.settings@ == old(self).settings@,
                self.next_id == old(self).next_id,
            decreases self.activity@.len() - i,
        {
            if self.activity[i].created_at == timestamp {
                proof {
                    assert(self.activity@[i as int]@ == v0[i as int]);
                    assert(v0[i as int].created_at == timestamp as int);
                    assert(target[i as int] == ActivityModel {
                        undone: true,
                        ..v0[i as int]
                    });
                }
                let mut e = self.activity[i].clone();
                e.undone = true;
                self.activity.set(i, e);
                found = true;
                proof {
                    assert(self.activity@[i as int]@ == target[i as int]);
                }
            } else {
                proof {
                    assert(self.activity@[i as int]@ == v0[i as int]);
                    assert(target[i as int] == v0[i as int]);
                    assert(self.activity@[i as int]@ == target[i as int]);
                }
            }
            i += 1;
        }
        proof {
            assert(act_views(self.activity@) =~= target);
            assert forall|i2: int, j2: int|
                0 <= i2 < j2 < target.len() implies act_newer(
                #[trigger] target[i2],
                #[trigger] target[j2],
            ) by {
                assert(act_newer(v0[i2], v0[j2]));
            }
        }
        Ok(found)
    }

    /// Drop every activity entry.
    pub fn clear_activity_log(&mut self) -> (r: Result<(), DbError>)
        requires
            old(self).wf(),
        ensures
            final(self).wf(),
            r is Ok,
            final(self).activity_view() == Seq::<ActivityModel>::empty(),
            final(self).corrections_view() == old(self).corrections_view(),
            final(self).rules_view() == old(self).rules_view(),
            final(self).settings_view() == old(self).settings_view(),
            final(self).fresh_id() == old(self).fresh_id(),
    {
        self.activity.clear();
        proof {
            assert(final(self).activity_view() =~= Seq::<ActivityModel>::empty());
        }
        Ok(())
    }

    /// Store a setting: last write wins.
    pub fn set_setting(&mut self, key: &str, value: &str) -> (r: Result<(), DbError>)
        requires
            old(self).wf(),
        ensures
            final(self).wf(),
            r is Ok,
            setting_of(final(self).settings_view(), key@) == Some(value@),
            forall|k2: Seq<char>|
                k2 != key@ ==> setting_of(final(self).settings_view(), k2) == setting_of(
                    old(self).settings_view(),
                    k2,
                ),
            final(self).corrections_view() == old(self).corrections_view(),
            final(self).activity_view() == old(self).activity_view(),
            final(self).rules_view() == old(self).rules_view(),
            final(self).fresh_id() == old(self).fresh_id(),
    {
        let ghost v0 = old(self).settings_view();
        let key_s = key.to_owned();
        let mut i: usize = 0;
        while i < self.settings.len()
            invariant
                old(self).wf(),
                v0 == old(self).settings_view(),
                *self == *old(self),
                key_s@ == key@,
                i <= self.settings@.len(),
                forall|j: int| 0 <= j < i ==> (#[trigger] v0[j]).0 != key@,
            decreases self.settings@.len() - i,
        {
            if self.settings[i].0 == key_s {
                let ghost e0 = self.settings@;
                self.settings.set(i, (key_s, value.to_owned()));
                proof {
                    assert(self.settings_view() =~= v0.update(i as int, (key@, value@)));
                    lemma_setting_update_lookup(v0, i as int, (key@, value@), key@);
                    assert forall|k2: Seq<char>| k2 != key@ implies setting_of(
                        self.settings_view(),
                        k2,
                    ) == setting_of(v0, k2) by {
                        lemma_setting_update_lookup(v0, i as int, (key@, value@), k2);
                    }
                    assert forall|a: int, b: int|
                        0 <= a < b < self.settings@.len() implies (
                        #[trigger] self.settings@[a]).0@ != (#[trigger] self.settings@[b]).0@ by {
                        assert(v0.len() == self.settings@.len());
                        assert(v0[a].0 == old(self).settings@[a].0@);
                        assert(v0[b].0 == old(self).settings@[b].0@);
                        if a == i as int {
                            assert(self.settings@[a].0@ == key@);
                            assert(self.settings@[b] == old(self).settings@[b]);
                            assert(v0[i as int].0 == key@);
                        } else if b == i as int {
                            assert(self.settings@[b].0@ == key@);
                            assert(self.settings@[a] == old(self).settings@[a]);
                            assert(v0[i as int].0 == key@);
                        } else {
                            assert(self.settings@[a] == old(self).settings@[a]);
                            assert(self.settings@[b] == old(self).settings@[b]);
                        }
                    }
                }
                return Ok(());
            }
            i += 1;
        }
        proof {
            lemma_setting_skip(v0, key@, v0.len() as int);
            assert(v0.skip(v0.len() as int) =~= Seq::<(Seq<char>, Seq<char>)>::empty());
            assert(setting_of(v0, key@) is None);
        }
        self.settings.push((key_s, value.to_owned()));
        proof {
            assert(self.settings_view() =~= v0.push((key@, value@)));
            lemma_setting_push_lookup(v0, (key@, value@), key@);
            assert forall|k2: Seq<char>| k2 != key@ implies setting_of(self.settings_view(), k2)
                == setting_of(v0, k2) by {
                lemma_setting_push_lookup(v0, (key@, value@), k2);
            }
            assert forall|a: int, b: int|
                0 <= a < b < self.settings@.len() implies (#[trigger] self.settings@[a]).0@ != (
                #[trigger] self.settings@[b]).0@ by {
                if b < self.settings@.len() - 1 {
                    assert(self.settings@[a] == old(self).settings@[a]);
                    assert(self.settings@[b] == old(self).settings@[b]);
                    assert(v0[a].0 == old(self).settings@[a].0@);
                    assert(v0[b].0 == old(self).settings@[b].0@);
                } else {
                    assert(self.settings@[a] == old(self).settings@[a]);
                    assert(self.settings@[b].0@ == key@);
                    assert(v0[a].0 == old(self).settings@[a].0@);
                    assert(v0[a].0 != key@);
                }
            }
        }
        Ok(())
    }

    /// The value stored under `key`, if any.
    pub fn get_setting(&self, key: &str) -> (r: Result<Option<String>, DbError>)
        requires
            self.wf(),
        ensures
            r matches Ok(o) && (match o {
                Some(v) => setting_of(self.settings_view(), key@) == Some(v@),
                None => setting_of(self.settings_view(), key@) is None,
            }),
    {
        let ghost v0 = self.settings_view();
        let key_s = key.to_owned();
        let mut i: usize = 0;
        while i < self.settings.len()
            invariant
                self.wf(),
                v0 == self.settings_view(),
                key_s@ == key@,
                i <= self.settings@.len(),
                forall|j: int| 0 <= j < i ==> (#[trigger] v0[j]).0 != key@,
            decreases self.settings@.len() - i,
        {
            if self.settings[i].0 == key_s {
                proof {
                    lemma_setting_skip(v0, key@, i as int);
                    assert(v0.skip(i as int)[0] == v0[i as int]);
                }
                return Ok(Some(self.settings[i].1.clone()));
            }
            i += 1;
        }
        proof {
            lemma_setting_skip(v0, key@, v0.len() as int);
            assert(v0.skip(v0.len() as int) =~= Seq::<(Seq<char>, Seq<char>)>::empty());
        }
        Ok(None)
    }

    /// Find the position a new rule with this creation time and id takes in
    /// the earliest-first rule list.
    fn rule_insert_pos(v: &Vec<Rule>, at: i64, id: i64, Ghost(m): Ghost<RuleModel>) -> (i: usize)
        requires
            forall|k: int| 0 <= k < v@.len() ==> (#[trigger] v@[k]).id is Some,
            m.created_at == at as int,
            m.id == id as int,
        ensures
            i <= v@.len(),
            forall|k: int| 0 <= k < i ==> !rule_earlier(m, #[trigger] rule_views(v@)[k]),
            i < v@.len() ==> rule_earlier(m, rule_views(v@)[i as int]),
    {
        let mut i: usize = 0;
        while i < v.len()
            invariant
                i <= v@.len(),
                forall|k: int| 0 <= k < v@.len() ==> (#[trigger] v@[k]).id is Some,
                m.created_at == at as int,
                m.id == id as int,
                forall|k: int| 0 <= k < i ==> !rule_earlier(m, #[trigger] rule_views(v@)[k]),
            decreases v@.len() - i,
        {
            let e = &v[i];
            let eid = match e.id {
                Some(x) => x,
                None => unreached(),
            };
            if at < e.created_at || (at == e.created_at && id < eid) {
                return i;
            }
            i += 1;
        }
        i
    }

    /// Add a rule under a fresh id, timestamped now; rules keep creation
    /// order.
    pub fn add_rule(&mut self, pattern: &str, target_folder: &str) -> (r: Result<i64, DbError>)
        requires
            old(self).wf(),
        ensures
            final(self).wf(),
            final(self).corrections_view() == old(self).corrections_view(),
            final(self).activity_view() == old(self).activity_view(),
            final(self).settings_view() == old(self).settings_view(),
            old(self).fresh_id() == i64::MAX as int ==> r is Err && *final(self) == *old(self),
            old(self).fresh_id() < i64::MAX as int ==> {
                &&& r matches Ok(id) && id as int == old(self).fresh_id() && id >= 1
                &&& final(self).fresh_id() == old(self).fresh_id() + 1
                &&& exists|t: int|
                    0 <= t && final(self).rules_view() == rule_insert(
                        old(self).rules_view(),
                        RuleModel {
                            id: old(self).fresh_id(),
                            pattern: pattern@,
                            target_folder: target_folder@,
                            created_at: t,
                        },
                    )
            },
    {
        if self.next_id == i64::MAX {
            let mut t = String::new();
            t.append("id space exhausted");
            return Err(DbError::InsertFailed(t));
        }
        let id = self.next_id;
        self.next_id = id + 1;
        let now = crate::trusted::current_timestamp_ms();
        let stored = Rule {
            id: Some(id),
            pattern: pattern.to_owned(),
            target_folder: target_folder.to_owned(),
            created_at: now,
        };
        let ghost m = stored@;
        let ghost v0 = rule_views(old(self).rules@);
        let i = Self::rule_insert_pos(&self.rules, now, id, Ghost(m));
        proof {
            assert forall|k: int| 0 <= k < v0.len() implies (#[trigger] v0[k]).id != m.id by {
                assert(old(self).rules@[k].id matches Some(x) && x < id);
            }
            lemma_rule_insert_at(v0, m, i as int);
            lemma_rule_insert_sorted(v0, m);
        }
        let ghost e0 = self.rules@;
        self.rules.insert(i, stored);
        proof {
            assert(self.rules@ =~= e0.take(i as int) + seq![stored] + e0.skip(i as int));
            assert(rule_views(self.rules@) =~= v0.take(i as int) + seq![m] + v0.skip(i as int));
            assert(rule_views(self.rules@) == rule_insert(v0, m));
            assert forall|k: int|
                0 <= k < self.rules@.len() implies ((#[trigger] self.rules@[k]).id matches Some(x)
                && 1 <= x < self.next_id) by {
                let ins = e0.take(i as int) + seq![stored] + e0.skip(i as int);
                assert(self.rules@[k] == ins[k]);
                if k < i {
                    assert(ins[k] == old(self).rules@[k]);
                } else if k > i {
                    assert(ins[k] == old(self).rules@[k - 1]);
                }
            }
        }
        Ok(id)
    }

    /// All rules, earliest first.
    pub fn get_rules(&self) -> (r: Result<Vec<Rule>, DbError>)
        requires
            self.wf(),
        ensures
            r matches Ok(v) && rule_views(v@) == self.rules_view(),
    {
        let v = self.rules.clone();
        proof {
            assert(v@ =~= self.rules@);
        }
        Ok(v)
    }

    /// Delete the rule with this id, and report whether one was found.
    pub fn delete_rule(&mut self, id: i64) -> (r: Result<bool, DbError>)
        requires
            old(self).wf(),
        ensures
            final(self).wf(),
            final(self).corrections_view() == old(self).corrections_view(),
            final(self).activity_view() == old(self).activity_view(),
            final(self).settings_view() == old(self).settings_view(),
            final(self).fresh_id() == old(self).fresh_id(),
            ({
                match rule_idx(old(self).rules_view(), id as int) {
                    Some(k) => r matches Ok(b) && b && final(self).rules_view() == old(
                        self,
                    ).rules_view().remove(k),
                    None => r matches Ok(b) && !b && final(self).rules_view() == old(
                        self,
                    ).rules_view(),
                }
            }),
    {
        let ghost v0 = old(self).rules_view();
        let mut i: usize = 0;
        while i < self.rules.len()
            invariant
                old(self).wf(),
                v0 == old(self).rules_view(),
                *self == *old(self),
                i <= self.rules@.len(),
                forall|k: int| 0 <= k < i ==> (#[trigger] v0[k]).id != id as int,
            decreases self.rules@.len() - i,
        {
            let e = &self.rules[i];
            let eid = match e.id {
                Some(x) => x,
                None => unreached(),
            };
            if eid == id {
                proof {
                    lemma_rule_idx_at(v0, id as int, i as int);
                }
                let ghost e0 = self.rules@;
                self.rules.remove(i);
                proof {
                    assert(self.rules@ =~= e0.remove(i as int));
                    assert(rule_views(self.rules@) =~= v0.remove(i as int));
                    assert forall|a: int, b: int|
                        0 <= a < b < rule_views(self.rules@).len() implies rule_earlier(
                        #[trigger] rule_views(self.rules@)[a],
                        #[trigger] rule_views(self.rules@)[b],
                    ) by {
                        let w = rule_views(self.rules@);
                        if a < i {
                            assert(w[a] == v0[a]);
                        } else {
                            assert(w[a] == v0[a + 1]);
                        }
                        if b < i {
                            assert(w[b] == v0[b]);
                        } else {
                            assert(w[b] == v0[b + 1]);
                        }
                    }
                    assert forall|k: int|
                        0 <= k < self.rules@.len() implies ((#[trigger] self.rules@[k]).id
                        matches Some(x) && 1 <= x < self.next_id) by {
                        if k < i {
                            assert(self.rules@[k] == old(self).rules@[k]);
                        } else {
                            assert(self.rules@[k] == old(self).rules@[k + 1]);
                        }
                    }
                }
                return Ok(true);
            }
            i += 1;
        }
        proof {
            lemma_rule_idx_none(v0, id as int, v0.len() as int);
        }
        Ok(false)
    }

    /// Is a correction with this content (ids aside) already stored?
    fn corr_dup_exists(&self, c: &Correction) -> (r: bool)
        ensures
            r == corr_has_dup(self.corrections_view(), c@),
    {
        let ghost v = self.corrections_view();
        let mut i: usize = 0;
        while i < self.corrections.len()
            invariant
                v == self.corrections_view(),
                i <= self.corrections@.len(),
                forall|k: int| 0 <= k < i ==> !corr_same_content(#[trigger] v[k], c@),
            decreases self.corrections@.len() - i,
        {
            let e = &self.corrections[i];
            if e.filename == c.filename && e.ai_suggested == c.ai_suggested && e.user_chose
                == c.user_chose && e.correction_type == c.correction_type && e.created_at
                == c.created_at {
                proof {
                    assert(corr_same_content(v[i as int], c@));
                }
                return true;
            }
            i += 1;
        }
        false
    }

    /// Is an activity entry with this content (ids aside) already stored?
    fn act_dup_exists(&self, c: &ActivityEntry) -> (r: bool)
        ensures
            r == act_has_dup(self.activity_view(), c@),
    {
        let ghost v = self.activity_view();
        let mut i: usize = 0;
        while i < self.activity.len()
            invariant
                v == self.activity_view(),
                i <= self.activity@.len(),
                forall|k: int| 0 <= k < i ==> !act_same_content(#[trigger] v[k], c@),
            decreases self.activity@.len() - i,
        {
            let e = &self.activity[i];
            let same_orig = match &e.original_filename {
                Some(a) => match &c.original_filename {
                    Some(b) => *a == *b,
                    None => false,
                },
                None => match &c.original_filename {
                    Some(_) => false,
                    None => true,
                },
            };
            proof {
                assert(same_orig == (e@.original_filename == c@.original_filename));
                assert(v[i as int] == e@);
            }
            if e.filename == c.filename && same_orig && e.from_folder == c.from_folder
                && e.to_folder == c.to_folder && e.undone == c.undone && e.created_at
                == c.created_at {
                proof {
                    assert(act_same_content(v[i as int], c@));
                }
                return true;
            }
            i += 1;
        }
        false
    }

    /// Merge externally held corrections: a record whose content is already
    /// stored is left alone, anything else is inserted under a fresh id with
    /// retention enforced on each insert.
    pub fn import_corrections(&mut self, corrections: Vec<Correction>) -> (r: Result<
        usize,
        DbError,
    >)
        requires
            old(self).wf(),
        ensures
            final(self).wf(),
            final(self).activity_view() == old(self).activity_view(),
            final(self).rules_view() == old(self).rules_view(),
            final(self).settings_view() == old(self).settings_view(),
            old(self).fresh_id() + corrections@.len() > i64::MAX as int ==> r is Err && *final(self)
                == *old(self),
            old(self).fresh_id() + corrections@.len() <= i64::MAX as int ==> {
                let f = corr_import_from(
                    old(self).corrections_view(),
                    old(self).fresh_id(),
                    corr_views(corrections@),
                    0,
                );
                &&& r matches Ok(n) && n == corrections@.len()
                &&& final(self).corrections_view() == f.0
                &&& final(self).fresh_id() == f.1
            },
    {
        if (corrections.len() as u64) > ((i64::MAX - self.next_id) as u64) {
            let mut t = String::new();
            t.append("id space exhausted");
            return Err(DbError::InsertFailed(t));
        }
        let ghost v0 = old(self).corrections_view();
        let ghost nid0 = old(self).fresh_id();
        let ghost ents = corr_views(corrections@);
        let mut idx: usize = 0;
        while idx < corrections.len()
            invariant
                self.wf(),
                ents == corr_views(corrections@),
                idx <= corrections@.len(),
                self.fresh_id() + (corrections@.len() - idx) <= i64::MAX as int,
                corr_import_from(v0, nid0, ents, 0) == corr_import_from(
                    self.corrections_view(),
                    self.fresh_id(),
                    ents,
                    idx as int,
                ),
                self.activity_view() == old(self).activity_view(),
                self.rules_view() == old(self).rules_view(),
                self.settings_view() == old(self).settings_view(),
            decreases corrections@.len() - idx,
        {
            let c = corrections[idx].clone();
            proof {
                assert(c@ == ents[idx as int]);
            }
            if !self.corr_dup_exists(&c) {
                let ghost pre_view = self.corrections_view();
                let ghost pre_nid = self.fresh_id();
                match self.add_correction(c) {
                    Ok(_) => {},
                    Err(_) => {
                        proof {
                            assert(false);
                        }
                    },
                }
                proof {
                    assert(corr_import_from(pre_view, pre_nid, ents, idx as int)
                        == corr_import_from(self.corrections_view(), self.fresh_id(), ents, idx + 1));
                }
            }
            idx += 1;
        }
        Ok(corrections.len())
    }

    /// Merge externally held activity entries, duplicate-tolerantly, with
    /// retention enforced on each insert.
    pub fn import_activity_log(&mut self, entries: Vec<ActivityEntry>) -> (r: Result<
        usize,
        DbError,
    >)
        requires
            old(self).wf(),
        ensures
            final(self).wf(),
            final(self).corrections_view() == old(self).corrections_view(),
            final(self).rules_view() == old(self).rules_view(),
            final(self).settings_view() == old(self).settings_view(),
            old(self).fresh_id() + entries@.len() > i64::MAX as int ==> r is Err && *final(self)
                == *old(self),
            old(self).fresh_id() + entries@.len() <= i64::MAX as int ==> {
                let f = act_import_from(
                    old(self).activity_view(),
                    old(self).fresh_id(),
                    act_views(entries@),
                    0,
                );
                &&& r matches Ok(n) && n == entries@.len()
                &&& final(self).activity_view() == f.0
                &&& final(self).fresh_id() == f.1
            },
    {
        if (entries.len() as u64) > ((i64::MAX - self.next_id) as u64) {
            let mut t = String::new();
            t.append("id space exhausted");
            return Err(DbError::InsertFailed(t));
        }
        let ghost v0 = old(self).activity_view();
        let ghost nid0 = old(self).fresh_id();
        let ghost ents = act_views(entries@);
        let mut idx: usize = 0;
        while idx < entries.len()
            invariant
                self.wf(),
                ents == act_views(entries@),
                idx <= entries@.len(),
                self.fresh_id() + (entries@.len() - idx) <= i64::MAX as int,
                act_import_from(v0, nid0, ents, 0) == act_import_from(
                    self.activity_view(),
                    self.fresh_id(),
                    ents,
                    idx as int,
                ),
                self.corrections_view() == old(self).corrections_view(),
                self.rules_view() == old(self).rules_view(),
                self.settings_view() == old(self).settings_view(),
            decreases entries@.len() - idx,
        {
            let c = entries[idx].clone();
            proof {
                assert(c@ == ents[idx as int]);
            }
            if !self.act_dup_exists(&c) {
                let ghost pre_view = self.activity_view();
                let ghost pre_nid = self.fresh_id();
                match self.add_activity(c) {
                    Ok(_) => {},
                    Err(_) => {
                        proof {
                            assert(false);
                        }
                    },
                }
                proof {
                    assert(act_import_from(pre_view, pre_nid, ents, idx as int) == act_import_from(
                        self.activity_view(),
                        self.fresh_id(),
                        ents,
                        idx + 1,
                    ));
                }
            }
            idx += 1;
        }
        Ok(entries.len())
    }
}

/// Bounded retention of corrections: inserting a fresh entry into a
/// newest-first list within the bound keeps the order, grows the list only up
/// to the bound, keeps only the new entry and old entries, and every retained
/// entry is at least as recent as every evicted one.
pub proof fn lemma_correction_retention(s: Seq<CorrectionModel>, m: CorrectionModel)
    requires
        corr_sorted(s),
        s.len() <= MAX_CORRECTIONS,
        forall|k: int| 0 <= k < s.len() ==> (#[trigger] s[k]).id != m.id,
    ensures
        ({
            let f = corr_insert(s, m);
            let r = retained(f, MAX_CORRECTIONS as int);
            &&& r.len() == if s.len() < MAX_CORRECTIONS {
                s.len() as int + 1
            } else {
                MAX_CORRECTIONS as int
            }
            &&& corr_sorted(r)
            &&& forall|k: int| 0 <= k < r.len() ==> (#[trigger] r[k] == m || s.contains(r[k]))
            &&& forall|i: int, j: int|
                0 <= i < r.len() && r.len() <= j < f.len() ==> corr_newer(
                    #[trigger] r[i],
                    #[trigger] f[j],
                )
        }),
{
    lemma_corr_insert_sorted(s, m);
    let f = corr_insert(s, m);
    let r = retained(f, MAX_CORRECTIONS as int);
    assert(forall|k: int| 0 <= k < r.len() ==> r[k] == f[k]);
}

/// Bounded retention of activity entries, as for corrections.
pub proof fn lemma_activity_retention(s: Seq<ActivityModel>, m: ActivityModel)
    requires
        act_sorted(s),
        s.len() <= MAX_ACTIVITY_LOG,
        forall|k: int| 0 <= k < s.len() ==> (#[trigger] s[k]).id != m.id,
    ensures
        ({
            let f = act_insert(s, m);
            let r = retained(f, MAX_ACTIVITY_LOG as int);
            &&& r.len() == if s.len() < MAX_ACTIVITY_LOG {
                s.len() as int + 1
            } else {
                MAX_ACTIVITY_LOG as int
            }
            &&& act_sorted(r)
            &&& forall|k: int| 0 <= k < r.len() ==> (#[trigger] r[k] == m || s.contains(r[k]))
            &&& forall|i: int, j: int|
                0 <= i < r.len() && r.len() <= j < f.len() ==> act_newer(
                    #[trigger] r[i],
                    #[trigger] f[j],
                )
        }),
{
    lemma_act_insert_sorted(s, m);
    let f = act_insert(s, m);
    let r = retained(f, MAX_ACTIVITY_LOG as int);
    assert(forall|k: int| 0 <= k < r.len() ==> r[k] == f[k]);
}

/// The value stored under key `k`, if any.
pub open spec fn setting_of(s: Seq<(Seq<char>, Seq<char>)>, k: Seq<char>) -> Option<Seq<char>>
    decreases s.len(),
{
    if s.len() == 0 {
        None
    } else if s[0].0 == k {
        Some(s[0].1)
    } else {
        setting_of(s.drop_first(), k)
    }
}

proof fn lemma_setting_update_lookup(
    s: Seq<(Seq<char>, Seq<char>)>,
    i: int,
    p: (Seq<char>, Seq<char>),
    k2: Seq<char>,
)
    requires
        0 <= i < s.len(),
        s[i].0 == p.0,
        forall|j: int| 0 <= j < i ==> (#[trigger] s[j]).0 != p.0,
    ensures
        setting_of(s.update(i, p), k2) == (if k2 == p.0 {
            Some(p.1)
        } else {
            setting_of(s, k2)
        }),
    decreases i,
{
    let s2 = s.update(i, p);
    if i == 0 {
        assert(s2[0] == p);
        assert(s2.drop_first() =~= s.drop_first());
    } else {
        assert(s2[0] == s[0]);
        assert(s[0].0 != p.0);
        assert(s2.drop_first() =~= s.drop_first().update(i - 1, p));
        assert(forall|j: int| 0 <= j < i - 1 ==> (#[trigger] s.drop_first()[j]).0 == s[j + 1].0);
        lemma_setting_update_lookup(s.drop_first(), i - 1, p, k2);
    }
}

proof fn lemma_setting_push_lookup(
    s: Seq<(Seq<char>, Seq<char>)>,
    p: (Seq<char>, Seq<char>),
    k2: Seq<char>,
)
    requires
        setting_of(s, p.0) is None,
    ensures
        setting_of(s.push(p), k2) == (if k2 == p.0 {
            Some(p.1)
        } else {
            setting_of(s, k2)
        }),
    decreases s.len(),
{
    let s2 = s.push(p);
    if s.len() == 0 {
        assert(s2[0] == p);
        assert(s2.drop_first() =~= Seq::<(Seq<char>, Seq<char>)>::empty());
    } else {
        assert(s2[0] == s[0]);
        assert(s[0].0 != p.0);
        assert(s2.drop_first() =~= s.drop_first().push(p));
        lemma_setting_push_lookup(s.drop_first(), p, k2);
    }
}

proof fn lemma_setting_skip(s: Seq<(Seq<char>, Seq<char>)>, k: Seq<char>, i: int)
    requires
        0 <= i <= s.len(),
        forall|j: int| 0 <= j < i ==> (#[trigger] s[j]).0 != k,
    ensures
        setting_of(s, k) == setting_of(s.skip(i), k),
    decreases i,
{
    if i > 0 {
        assert(s[0].0 != k);
        assert(s.drop_first().skip(i - 1) =~= s.skip(i));
        assert(forall|j: int| 0 <= j < i - 1 ==> (#[trigger] s.drop_first()[j]).0 == s[j + 1].0);
        lemma_setting_skip(s.drop_first(), k, i - 1);
    } else {
        assert(s.skip(0) =~= s);
    }
}

/// Two corrections carry the same content, ids aside.
pub open spec fn corr_same_content(a: CorrectionModel, b: CorrectionModel) -> bool {
    a.filename == b.filename && a.ai_suggested == b.ai_suggested && a.user_chose == b.user_chose
        && a.correction_type == b.correction_type && a.created_at == b.created_at
}

/// Some stored correction carries this content already.
pub open spec fn corr_has_dup(s: Seq<CorrectionModel>, m: CorrectionModel) -> bool {
    exists|k: int| 0 <= k < s.len() && corr_same_content(#[trigger] s[k], m)
}

/// The correction list and id counter after importing the entries from
/// position `i` on: a duplicate is left alone, anything else is inserted
/// under a fresh id with retention enforced.
pub open spec fn corr_import_from(
    view: Seq<CorrectionModel>,
    nid: int,
    ents: Seq<CorrectionModel>,
    i: int,
) -> (Seq<CorrectionModel>, int)
    decreases ents.len() - i,
{
    if i < 0 || i >= ents.len() {
        (view, nid)
    } else if corr_has_dup(view, ents[i]) {
        corr_import_from(view, nid, ents, i + 1)
    } else {
        corr_import_from(
            retained(corr_insert(view, CorrectionModel { id: nid, ..ents[i] }), MAX_CORRECTIONS as int),
            nid + 1,
            ents,
            i + 1,
        )
    }
}

/// Two activity entries carry the same content, ids aside.
pub open spec fn act_same_content(a: ActivityModel, b: ActivityModel) -> bool {
    a.filename == b.filename && a.original_filename == b.original_filename && a.from_folder
        == b.from_folder && a.to_folder == b.to_folder && a.undone == b.undone && a.created_at
        == b.created_at
}

/// Some stored activity entry carries this content already.
pub open spec fn act_has_dup(s: Seq<ActivityModel>, m: ActivityModel) -> bool {
    exists|k: int| 0 <= k < s.len() && act_same_content(#[trigger] s[k], m)
}

/// The activity list and id counter after importing the entries from
/// position `i` on.
pub open spec fn act_import_from(
    view: Seq<ActivityModel>,
    nid: int,
    ents: Seq<ActivityModel>,
    i: int,
) -> (Seq<ActivityModel>, int)
    decreases ents.len() - i,
{
    if i < 0 || i >= ents.len() {
        (view, nid)
    } else if act_has_dup(view, ents[i]) {
        act_import_from(view, nid, ents, i + 1)
    } else {
        act_import_from(
            retained(act_insert(view, ActivityModel { id: nid, ..ents[i] }), MAX_ACTIVITY_LOG as int),
            nid + 1,
            ents,
            i + 1,
        )
    }
}

/// The index of the first rule with this id, if any.
pub open spec fn rule_idx(s: Seq<RuleModel>, id: int) -> Option<int>
    decreases s.len(),
{
    if s.len() == 0 {
        None
    } else if s[0].id == id {
        Some(0)
    } else {
        match rule_idx(s.drop_first(), id) {
            Some(j) => Some(j + 1),
            None => None,
        }
    }
}

proof fn lemma_rule_idx_at(s: Seq<RuleModel>, id: int, i: int)
    requires
        0 <= i < s.len(),
        s[i].id == id,
        forall|k: int| 0 <= k < i ==> (#[trigger] s[k]).id != id,
    ensures
        rule_idx(s, id) == Some(i),
    decreases i,
{
    if i > 0 {
        assert(forall|k: int| 0 <= k < i - 1 ==> s.drop_first()[k] == s[k + 1]);
        assert(s.drop_first()[i - 1] == s[i]);
        lemma_rule_idx_at(s.drop_first(), id, i - 1);
    }
}

proof fn lemma_rule_idx_none(s: Seq<RuleModel>, id: int, n: int)
    requires
        n == s.len(),
        forall|k: int| 0 <= k < n ==> (#[trigger] s[k]).id != id,
    ensures
        rule_idx(s, id) is None,
    decreases n,
{
    if n > 0 {
        assert(forall|k: int| 0 <= k < n - 1 ==> s.drop_first()[k] == s[k + 1]);
        lemma_rule_idx_none(s.drop_first(), id, n - 1);
    }
}

proof fn lemma_rule_insert_at(s: Seq<RuleModel>, m: RuleModel, i: int)
    requires
        0 <= i <= s.len(),
        forall|k: int| 0 <= k < i ==> !rule_earlier(m, #[trigger] s[k]),
        i < s.len() ==> rule_earlier(m, s[i]),
    ensures
        rule_insert(s, m) == s.take(i) + seq![m] + s.skip(i),
    decreases i,
{
    if i == 0 {
        assert(rule_insert(s, m) =~= s.take(0) + seq![m] + s.skip(0));
    } else {
        assert(!rule_earlier(m, s[0]));
        lemma_rule_insert_at(s.drop_first(), m, i - 1);
        assert(s.take(i) + seq![m] + s.skip(i) =~= seq![s[0]] + (s.drop_first().take(i - 1)
            + seq![m] + s.drop_first().skip(i - 1)));
    }
}

proof fn lemma_rule_insert_sorted(s: Seq<RuleModel>, m: RuleModel)
    requires
        rule_sorted(s),
        forall|k: int| 0 <= k < s.len() ==> (#[trigger] s[k]).id != m.id,
    ensures
        rule_sorted(rule_insert(s, m)),
        rule_insert(s, m).len() == s.len() + 1,
        forall|k: int|
            0 <= k < rule_insert(s, m).len() ==> (#[trigger] rule_insert(s, m)[k] == m
                || s.contains(rule_insert(s, m)[k])),
    decreases s.len(),
{
    if s.len() == 0 {
    } else if rule_earlier(m, s[0]) {
        let r = seq![m] + s;
        assert(forall|j: int| 1 <= j < r.len() ==> r[j] == s[j - 1]);
        assert forall|i: int, j: int| 0 <= i < j < r.len() implies rule_earlier(r[i], r[j]) by {
            if i > 0 {
                assert(rule_earlier(s[i - 1], s[j - 1]));
            } else {
                if j > 1 {
                    assert(rule_earlier(s[0], s[j - 1]));
                }
            }
        }
        assert(forall|k: int| 1 <= k < r.len() ==> s.contains(r[k]));
    } else {
        let s1 = s.drop_first();
        assert(forall|k: int| 0 <= k < s1.len() ==> s1[k] == s[k + 1]);
        lemma_rule_insert_sorted(s1, m);
        let r1 = rule_insert(s1, m);
        let r = seq![s[0]] + r1;
        assert(!rule_earlier(m, s[0]));
        assert(m.id != s[0].id);
        assert(rule_earlier(s[0], m));
        assert forall|i: int, j: int| 0 <= i < j < r.len() implies rule_earlier(r[i], r[j]) by {
            if i == 0 {
                let e = r1[j - 1];
                assert(e == m || s1.contains(e));
                if s1.contains(e) {
                    let w = choose|w: int| 0 <= w < s1.len() && s1[w] == e;
                    assert(rule_earlier(s[0], s[w + 1]));
                }
            } else {
                assert(rule_earlier(r1[i - 1], r1[j - 1]));
            }
        }
        assert forall|k: int| 0 <= k < r.len() implies (r[k] == m || s.contains(r[k])) by {
            if k > 0 {
                let e = r1[k - 1];
                if s1.contains(e) {
                    let w = choose|w: int| 0 <= w < s1.len() && s1[w] == e;
                    assert(s[w + 1] == e);
                }
            } else {
                assert(s[0] == r[0]);
            }
        }
    }
}

proof fn lemma_act_insert_at(s: Seq<ActivityModel>, m: ActivityModel, i: int)
    requires
        0 <= i <= s.len(),
        forall|k: int| 0 <= k < i ==> !act_newer(m, #[trigger] s[k]),
        i < s.len() ==> act_newer(m, s[i]),
    ensures
        act_insert(s, m) == s.take(i) + seq![m] + s.skip(i),
    decreases i,
{
    if i == 0 {
        assert(act_insert(s, m) =~= s.take(0) + seq![m] + s.skip(0));
    } else {
        assert(!act_newer(m, s[0]));
        lemma_act_insert_at(s.drop_first(), m, i - 1);
        assert(s.take(i) + seq![m] + s.skip(i) =~= seq![s[0]] + (s.drop_first().take(i - 1)
            + seq![m] + s.drop_first().skip(i - 1)));
    }
}

proof fn lemma_act_insert_sorted(s: Seq<ActivityModel>, m: ActivityModel)
    requires
        act_sorted(s),
        forall|k: int| 0 <= k < s.len() ==> (#[trigger] s[k]).id != m.id,
    ensures
        act_sorted(act_insert(s, m)),
        act_insert(s, m).len() == s.len() + 1,
        forall|k: int|
            0 <= k < act_insert(s, m).len() ==> (#[trigger] act_insert(s, m)[k] == m || s.contains(
                act_insert(s, m)[k],
            )),
    decreases s.len(),
{
    if s.len() == 0 {
    } else if act_newer(m, s[0]) {
        let r = seq![m] + s;
        assert(forall|j: int| 1 <= j < r.len() ==> r[j] == s[j - 1]);
        assert forall|i: int, j: int| 0 <= i < j < r.len() implies act_newer(r[i], r[j]) by {
            if i > 0 {
                assert(act_newer(s[i - 1], s[j - 1]));
            } else {
                if j > 1 {
                    assert(act_newer(s[0], s[j - 1]));
                }
            }
        }
        assert(forall|k: int| 1 <= k < r.len() ==> s.contains(r[k]));
    } else {
        let s1 = s.drop_first();
        assert(forall|k: int| 0 <= k < s1.len() ==> s1[k] == s[k + 1]);
        lemma_act_insert_sorted(s1, m);
        let r1 = act_insert(s1, m);
        let r = seq![s[0]] + r1;
        assert(!act_newer(m, s[0]));
        assert(m.id != s[0].id);
        assert(act_newer(s[0], m));
        assert forall|i: int, j: int| 0 <= i < j < r.len() implies act_newer(r[i], r[j]) by {
            if i == 0 {
                let e = r1[j - 1];
                assert(e == m || s1.contains(e));
                if s1.contains(e) {
                    let w = choose|w: int| 0 <= w < s1.len() && s1[w] == e;
                    assert(act_newer(s[0], s[w + 1]));
                }
            } else {
                assert(act_newer(r1[i - 1], r1[j - 1]));
            }
        }
        assert forall|k: int| 0 <= k < r.len() implies (r[k] == m || s.contains(r[k])) by {
            if k > 0 {
                let e = r1[k - 1];
                if s1.contains(e) {
                    let w = choose|w: int| 0 <= w < s1.len() && s1[w] == e;
                    assert(s[w + 1] == e);
                }
            } else {
                assert(s[0] == r[0]);
            }
        }
    }
}

} // verus!

