//! Diff and merge engine over flat `(key, locale) -> value` maps.
use crate::text::{lower_of, lowercase, str_eq};
use vstd::prelude::*;

verus! {

/// A record as the proofs see it: key, locale and value as character sequences.
pub type RecordView = (Seq<char>, Seq<char>, Seq<char>);

/// A conflicting pair as the proofs see it: key, locale, local value, cloud value.
pub type ModifiedView = (Seq<char>, Seq<char>, Seq<char>, Seq<char>);

pub open spec fn record_view(t: (String, String, String)) -> RecordView {
    (t.0@, t.1@, t.2@)
}

pub open spec fn records_view(v: Seq<(String, String, String)>) -> Seq<RecordView> {
    v.map_values(|t: (String, String, String)| record_view(t))
}

pub open spec fn modified_view(t: (String, String, String, String)) -> ModifiedView {
    (t.0@, t.1@, t.2@, t.3@)
}

pub open spec fn modifieds_view(v: Seq<(String, String, String, String)>) -> Seq<ModifiedView> {
    v.map_values(|t: (String, String, String, String)| modified_view(t))
}

pub open spec fn pairs_view(v: Seq<(String, String)>) -> Seq<(Seq<char>, Seq<char>)> {
    v.map_values(|t: (String, String)| (t.0@, t.1@))
}

/// Whether the pair `(k, l)` has a record in `s`.
pub open spec fn has_key(s: Seq<RecordView>, k: Seq<char>, l: Seq<char>) -> bool {
    exists|i: int| 0 <= i < s.len() && #[trigger] s[i].0 == k && s[i].1 == l
}

/// No two records of `s` share a `(key, locale)` pair.
pub open spec fn keys_unique(s: Seq<RecordView>) -> bool {
    forall|i: int, j: int|
        0 <= i < s.len() && 0 <= j < s.len() && #[trigger] s[i].0 == #[trigger] s[j].0 && s[i].1
            == s[j].1 ==> i == j
}

/// The records of `local` whose pair `cloud` lacks.
pub open spec fn is_added(local: Seq<RecordView>, cloud: Seq<RecordView>, r: RecordView) -> bool {
    local.contains(r) && !has_key(cloud, r.0, r.1)
}

/// `(k, l, a, b)` with `(k, l, a)` in `local`, `(k, l, b)` in `cloud` and `a != b`.
pub open spec fn is_modified(
    local: Seq<RecordView>,
    cloud: Seq<RecordView>,
    m: ModifiedView,
) -> bool {
    local.contains((m.0, m.1, m.2)) && cloud.contains((m.0, m.1, m.3)) && m.2 != m.3
}

/// Merge strategy for resolving conflicts between local and cloud translations.
#[derive(Debug, Clone, Copy, PartialEq, Eq)]
pub enum MergeStrategy {
    /// Local is the ground truth and replaces the cloud wholesale.
    Overwrite,
    /// Both sides are merged; the cloud value wins a conflict.
    Merge,
    /// Non-conflicting entries are synced; conflicts are set aside for review.
    SkipConflicts,
}

/// A flat map from `(key, locale)` to a value, with unique pairs.
#[derive(Debug, Clone)]
pub struct LocalMap {
    pub entries: Vec<(String, String, String)>,
}

impl LocalMap {
    pub open spec fn view(&self) -> Seq<RecordView> {
        records_view(self.entries@)
    }

    pub open spec fn wf(&self) -> bool {
        keys_unique(self@)
    }

    pub fn new() -> (m: LocalMap)
        ensures
            m.wf(),
            m@.len() == 0,
    {
        LocalMap { entries: Vec::new() }
    }

    pub fn len(&self) -> (n: usize)
        ensures
            n == self@.len(),
    {
        self.entries.len()
    }

    /// Index of the record for `(key, locale)`, if there is one.
    pub fn find(&self, key: &String, locale: &String) -> (r: Option<usize>)
        ensures
            match r {
                Some(i) => i < self@.len() && self@[i as int].0 == key@ && self@[i as int].1
                    == locale@,
                None => !has_key(self@, key@, locale@),
            },
    {
        let mut i: usize = 0;
        while i < self.entries.len()
            invariant
                i <= self.entries@.len(),
                forall|j: int|
                    0 <= j < i ==> !(#[trigger] self@[j].0 == key@ && self@[j].1 == locale@),
            decreases self.entries@.len() - i,
        {
            let e = &self.entries[i];
            if e.0 == *key && e.1 == *locale {
                return Some(i);
            }
            i = i + 1;
        }
        None
    }

    /// The value stored for `(key, locale)`.
    pub fn get(&self, key: &String, locale: &String) -> (r: Option<&String>)
        requires
            self.wf(),
        ensures
            match r {
                Some(v) => self@.contains((key@, locale@, v@)),
                None => !has_key(self@, key@, locale@),
            },
    {
        match self.find(key, locale) {
            Some(i) => {
                assert(self@[i as int] == (key@, locale@, self.entries@[i as int].2@));
                Some(&self.entries[i].2)
            },
            None => None,
        }
    }

    /// Sets the value of `(key, locale)`, replacing any earlier one.
    pub fn insert(&mut self, key: String, locale: String, value: String)
        requires
            old(self).wf(),
        ensures
            final(self).wf(),
            forall|r: RecordView|
                #![trigger final(self)@.contains(r)]
                final(self)@.contains(r) <==> (r == (key@, locale@, value@) || (old(self)@.contains(
                    r) && !(r.0 == key@ && r.1 == locale@))),
    {
        let found = self.find(&key, &locale);
        let ghost key_v = key@;
        let ghost locale_v = locale@;
        let ghost value_v = value@;
        let ghost before = self@;
        match found {
            Some(i) => {
                self.entries.set(i, (key, locale, value));
                assert forall|j: int| 0 <= j < self@.len() implies self@[j].0 == before[j].0
                    && self@[j].1 == before[j].1 by {
                    if j == i {
                        assert(before[j].0 == key_v && before[j].1 == locale_v);
                    }
                }
                assert forall|a: int, b: int|
                    0 <= a < self@.len() && 0 <= b < self@.len() && #[trigger] self@[a].0
                        == #[trigger] self@[b].0 && self@[a].1 == self@[b].1 implies a == b by {
                    assert(before[a].0 == before[b].0 && before[a].1 == before[b].1);
                }
                assert forall|r: RecordView|
                    #![trigger self@.contains(r)]
                    self@.contains(r) <==> (r == (key_v, locale_v, value_v) || (before.contains(r)
                        && !(r.0 == key_v && r.1 == locale_v))) by {
                    if self@.contains(r) {
                        let j = choose|j: int| 0 <= j < self@.len() && self@[j] == r;
                        if j != i {
                            assert(before[j] == r);
                        }
                    }
                    if before.contains(r) && !(r.0 == key_v && r.1 == locale_v) {
                        let j = choose|j: int| 0 <= j < before.len() && before[j] == r;
                        assert(self@[j] == r);
                    }
                    if r == (key_v, locale_v, value_v) {
                        assert(self@[i as int] == r);
                    }
                }
            },
            None => {
                self.entries.push((key, locale, value));
                assert(self@ == before.push((key_v, locale_v, value_v)));
                assert forall|r: RecordView|
                    #![trigger self@.contains(r)]
                    self@.contains(r) <==> (r == (key_v, locale_v, value_v) || (before.contains(r)
                        && !(r.0 == key_v && r.1 == locale_v))) by {
                    if self@.contains(r) {
                        let j = choose|j: int| 0 <= j < self@.len() && self@[j] == r;
                        if j < before.len() {
                            assert(before[j] == r);
                            assert(!(r.0 == key_v && r.1 == locale_v));
                        }
                    }
                    if before.contains(r) && !(r.0 == key_v && r.1 == locale_v) {
                        let j = choose|j: int| 0 <= j < before.len() && before[j] == r;
                        assert(self@[j] == r);
                    }
                    if r == (key_v, locale_v, value_v) {
                        assert(self@[before.len() as int] == r);
                    }
                }
            },
        }
    }
}

/// Difference between local and cloud translations.
#[derive(Debug, Clone, PartialEq, Eq)]
pub struct Diff {
    /// Entries only in local: `(key, locale, value)`.
    pub added_local: Vec<(String, String, String)>,
    /// Entries only in the cloud: `(key, locale, value)`.
    pub added_cloud: Vec<(String, String, String)>,
    /// Entries in both with differing values: `(key, locale, local value, cloud value)`.
    pub modified_both: Vec<(String, String, String, String)>,
    /// Pairs present in the cloud but not locally.
    pub deleted_local: Vec<(String, String)>,
}

impl Diff {
    /// This diff classifies exactly the records of `local` and `cloud`, each class without
    /// repetitions.
    pub open spec fn is_diff_of(&self, local: Seq<RecordView>, cloud: Seq<RecordView>) -> bool {
        &&& records_view(self.added_local@).no_duplicates()
        &&& forall|r: RecordView|
            #![trigger records_view(self.added_local@).contains(r)]
            records_view(self.added_local@).contains(r) <==> is_added(local, cloud, r)
        &&& records_view(self.added_cloud@).no_duplicates()
        &&& forall|r: RecordView|
            #![trigger records_view(self.added_cloud@).contains(r)]
            records_view(self.added_cloud@).contains(r) <==> is_added(cloud, local, r)
        &&& modifieds_view(self.modified_both@).no_duplicates()
        &&& forall|m: ModifiedView|
            #![trigger modifieds_view(self.modified_both@).contains(m)]
            modifieds_view(self.modified_both@).contains(m) <==> is_modified(local, cloud, m)
        &&& pairs_view(self.deleted_local@) == records_view(self.added_cloud@).map_values(
            |r: RecordView| (r.0, r.1),
        )
    }
}

/// A conflict between a local and a cloud translation.
#[derive(Debug, Clone, PartialEq, Eq)]
pub struct Conflict {
    pub key: String,
    pub locale: String,
    pub local_value: String,
    pub cloud_value: String,
}

pub open spec fn conflict_view(c: Conflict) -> ModifiedView {
    (c.key@, c.locale@, c.local_value@, c.cloud_value@)
}

pub open spec fn conflicts_view(v: Seq<Conflict>) -> Seq<ModifiedView> {
    v.map_values(|c: Conflict| conflict_view(c))
}

/// The outcome of a merge strategy.
#[derive(Debug, Clone, PartialEq, Eq)]
pub struct MergeResult {
    /// Entries to upload to the cloud: `(key, locale, value)`.
    pub to_upload: Vec<(String, String, String)>,
    /// Entries to download from the cloud: `(key, locale, value)`.
    pub to_download: Vec<(String, String, String)>,
    /// Conflicts set aside for manual review.
    pub conflicts: Vec<Conflict>,
}

/// The cloud side of a conflict, as a record to download.
pub open spec fn cloud_side(m: ModifiedView) -> RecordView {
    (m.0, m.1, m.3)
}

/// What each strategy yields for a diff and the local map.
pub open spec fn strategy_result(
    diff: Diff,
    strategy: MergeStrategy,
    local: Seq<RecordView>,
) -> (Seq<RecordView>, Seq<RecordView>, Seq<ModifiedView>) {
    match strategy {
        MergeStrategy::Overwrite => (local, Seq::empty(), Seq::empty()),
        MergeStrategy::Merge => (
            records_view(diff.added_local@),
            records_view(diff.added_cloud@) + modifieds_view(diff.modified_both@).map_values(
                |m: ModifiedView| cloud_side(m),
            ),
            Seq::empty(),
        ),
        MergeStrategy::SkipConflicts => (
            records_view(diff.added_local@),
            records_view(diff.added_cloud@),
            modifieds_view(diff.modified_both@),
        ),
    }
}

impl MergeResult {
    pub open spec fn view(&self) -> (Seq<RecordView>, Seq<RecordView>, Seq<ModifiedView>) {
        (records_view(self.to_upload@), records_view(self.to_download@), conflicts_view(self.conflicts@))
    }
}

fn copy_record(t: &(String, String, String)) -> (r: (String, String, String))
    ensures
        r == *t,
{
    (t.0.clone(), t.1.clone(), t.2.clone())
}

fn copy_records(v: &Vec<(String, String, String)>) -> (r: Vec<(String, String, String)>)
    ensures
        r@ == v@,
{
    let mut r: Vec<(String, String, String)> = Vec::new();
    let mut i: usize = 0;
    while i < v.len()
        invariant
            i <= v@.len(),
            r@ == v@.subrange(0, i as int),
        decreases v@.len() - i,
    {
        r.push(copy_record(&v[i]));
        i = i + 1;
    }
    assert(r@ =~= v@);
    r
}

/// Computes diffs and applies merge strategies.
pub struct MergeEngine;

impl MergeEngine {
    /// Compares two maps: records only in `local`, records only in `cloud`, and pairs in both
    /// whose values differ.
    pub fn compute_diff(local: &LocalMap, cloud: &LocalMap) -> (diff: Diff)
        requires
            local.wf(),
            cloud.wf(),
        ensures
            diff.is_diff_of(local@, cloud@),
    {
        let mut added_local: Vec<(String, String, String)> = Vec::new();
        let mut added_cloud: Vec<(String, String, String)> = Vec::new();
        let mut modified_both: Vec<(String, String, String, String)> = Vec::new();
        let mut deleted_local: Vec<(String, String)> = Vec::new();
        let ghost lv = local@;
        let ghost cv = cloud@;

        let mut i: usize = 0;
        while i < local.entries.len()
            invariant
                i <= lv.len(),
                lv == local@,
                cv == cloud@,
                keys_unique(lv),
                keys_unique(cv),
                records_view(added_local@).no_duplicates(),
                modifieds_view(modified_both@).no_duplicates(),
                forall|r: RecordView|
                    #![trigger records_view(added_local@).contains(r)]
                    records_view(added_local@).contains(r) <==> (lv.subrange(0, i as int).contains(
                        r) && !has_key(cv, r.0, r.1)),
                forall|m: ModifiedView|
                    #![trigger modifieds_view(modified_both@).contains(m)]
                    modifieds_view(modified_both@).contains(m) <==> (lv.subrange(
                        0,
                        i as int,
                    ).contains((m.0, m.1, m.2)) && cv.contains((m.0, m.1, m.3)) && m.2 != m.3),
            decreases lv.len() - i,
        {
            let e = &local.entries[i];
            let ghost cur = lv[i as int];
            let ghost pre = lv.subrange(0, i as int);
            let ghost nxt = lv.subrange(0, i + 1);
            assert(nxt == pre.push(cur));
            match cloud.find(&e.0, &e.1) {
                Some(j) => {
                    let c = &cloud.entries[j];
                    if e.2 != c.2 {
                        let ghost before = modifieds_view(modified_both@);
                        let ghost newm: ModifiedView = (cur.0, cur.1, cur.2, cv[j as int].2);
                        modified_both.push((e.0.clone(), e.1.clone(), e.2.clone(), c.2.clone()));
                        assert(modifieds_view(modified_both@) == before.push(newm));
                        assert forall|m: ModifiedView|
                            #![trigger modifieds_view(modified_both@).contains(m)]
                            modifieds_view(modified_both@).contains(m) <==> (nxt.contains((m.0, m.1, m.2)) && cv.contains((m.0, m.1, m.3)) && m.2
                                != m.3) by {
                            if nxt.contains((m.0, m.1, m.2)) && cv.contains(
                                (m.0, m.1, m.3),
                            ) && m.2 != m.3 {
                                if !pre.contains((m.0, m.1, m.2)) {
                                    let q = choose|q: int|
                                        0 <= q < i + 1 && nxt[q] == (
                                            m.0,
                                            m.1,
                                            m.2,
                                        );
                                    if q < i {
                                        assert(pre[q] == (m.0, m.1, m.2));
                                    }
                                    let w = choose|w: int|
                                        0 <= w < cv.len() && cv[w] == (m.0, m.1, m.3);
                                    assert(cv[w].0 == cv[j as int].0 && cv[w].1 == cv[j as int].1);
                                    assert(newm == m);
                                    assert(modifieds_view(modified_both@)[before.len() as int]
                                        == m);
                                } else {
                                    assert(before.contains(m));
                                    let q = choose|q: int| 0 <= q < before.len() && before[q] == m;
                                    assert(modifieds_view(modified_both@)[q] == m);
                                }
                            }
                            if modifieds_view(modified_both@).contains(m) {
                                let q = choose|q: int|
                                    0 <= q < modifieds_view(modified_both@).len()
                                        && modifieds_view(modified_both@)[q] == m;
                                if q < before.len() {
                                    assert(before[q] == m);
                                    assert(before.contains(m));
                                    let p = choose|p: int|
                                        0 <= p < pre.len() && pre[p] == (m.0, m.1, m.2);
                                    assert(nxt[p] == (m.0, m.1, m.2));
                                } else {
                                    assert(m == newm);
                                    assert(nxt[i as int] == (m.0, m.1, m.2));
                                    assert(cv[j as int] == (m.0, m.1, m.3));
                                }
                            }
                        }
                        assert forall|a: int, b: int|
                            0 <= a < modifieds_view(modified_both@).len() && 0 <= b
                                < modifieds_view(modified_both@).len() && a != b implies
                            modifieds_view(modified_both@)[a] != modifieds_view(
                                modified_both@,
                            )[b] by {
                            if b == before.len() && a < before.len() {
                                let ma = before[a];
                                assert(before.contains(ma));
                                let p = choose|p: int|
                                    0 <= p < pre.len() && pre[p] == (ma.0, ma.1, ma.2);
                                if ma == newm {
                                    assert(lv[p] == pre[p]);
                                    assert(lv[p].0 == lv[i as int].0 && lv[p].1 == lv[i as int].1);
                                }
                            }
                            if a == before.len() && b < before.len() {
                                let mb = before[b];
                                assert(before.contains(mb));
                                let p = choose|p: int|
                                    0 <= p < pre.len() && pre[p] == (mb.0, mb.1, mb.2);
                                if mb == newm {
                                    assert(lv[p] == pre[p]);
                                    assert(lv[p].0 == lv[i as int].0 && lv[p].1 == lv[i as int].1);
                                }
                            }
                        }
                    }
                    assert forall|r: RecordView|
                        #![trigger records_view(added_local@).contains(r)]
                        records_view(added_local@).contains(r) <==> (nxt.contains(r) && !has_key(cv, r.0, r.1)) by {
                        if nxt.contains(r) && !has_key(cv, r.0, r.1) {
                            let q = choose|q: int|
                                0 <= q < i + 1 && nxt[q] == r;
                            if q < i {
                                assert(pre[q] == r);
                            } else {
                                assert(cv[j as int].0 == r.0 && cv[j as int].1 == r.1);
                            }
                        }
                        if records_view(added_local@).contains(r) {
                            let p = choose|p: int| 0 <= p < pre.len() && pre[p] == r;
                            assert(nxt[p] == r);
                        }
                    }
                    if e.2 == c.2 {
                        assert forall|m: ModifiedView|
                            #![trigger modifieds_view(modified_both@).contains(m)]
                            modifieds_view(modified_both@).contains(m) <==> (nxt.contains((m.0, m.1, m.2)) && cv.contains((m.0, m.1, m.3)) && m.2
                                != m.3) by {
                            if nxt.contains((m.0, m.1, m.2)) && cv.contains(
                                (m.0, m.1, m.3),
                            ) && m.2 != m.3 {
                                let q = choose|q: int|
                                    0 <= q < i + 1 && nxt[q] == (
                                        m.0,
                                        m.1,
                                        m.2,
                                    );
                                if q < i {
                                    assert(pre[q] == (m.0, m.1, m.2));
                                } else {
                                    let w = choose|w: int|
                                        0 <= w < cv.len() && cv[w] == (m.0, m.1, m.3);
                                    assert(cv[w].0 == cv[j as int].0 && cv[w].1 == cv[j as int].1);
                                }
                            }
                            if modifieds_view(modified_both@).contains(m) {
                                let p = choose|p: int|
                                    0 <= p < pre.len() && pre[p] == (m.0, m.1, m.2);
                                assert(nxt[p] == (m.0, m.1, m.2));
                            }
                        }
                    }
                },
                None => {
                    let ghost before = records_view(added_local@);
                    added_local.push(copy_record(e));
                    assert(records_view(added_local@) == before.push(cur));
                    assert forall|r: RecordView|
                        #![trigger records_view(added_local@).contains(r)]
                        records_view(added_local@).contains(r) <==> (nxt.contains(r) && !has_key(cv, r.0, r.1)) by {
                        if nxt.contains(r) && !has_key(cv, r.0, r.1) {
                            let q = choose|q: int|
                                0 <= q < i + 1 && nxt[q] == r;
                            if q < i {
                                assert(pre[q] == r);
                                assert(before.contains(r));
                                let p = choose|p: int| 0 <= p < before.len() && before[p] == r;
                                assert(records_view(added_local@)[p] == r);
                            } else {
                                assert(records_view(added_local@)[before.len() as int] == r);
                            }
                        }
                        if records_view(added_local@).contains(r) {
                            let q = choose|q: int|
                                0 <= q < records_view(added_local@).len() && records_view(
                                    added_local@,
                                )[q] == r;
                            if q < before.len() {
                                assert(before[q] == r);
                                assert(before.contains(r));
                                let p = choose|p: int| 0 <= p < pre.len() && pre[p] == r;
                                assert(nxt[p] == r);
                            } else {
                                assert(nxt[i as int] == r);
                            }
                        }
                    }
                    assert forall|a: int, b: int|
                        0 <= a < records_view(added_local@).len() && 0 <= b < records_view(
                            added_local@,
                        ).len() && a != b implies records_view(added_local@)[a] != records_view(
                        added_local@,
                    )[b] by {
                        if b == before.len() && a < before.len() {
                            assert(before.contains(before[a]));
                            let p = choose|p: int| 0 <= p < pre.len() && pre[p] == before[a];
                            if before[a] == cur {
                                assert(lv[p] == pre[p]);
                                assert(lv[p].0 == lv[i as int].0 && lv[p].1 == lv[i as int].1);
                            }
                        }
                        if a == before.len() && b < before.len() {
                            assert(before.contains(before[b]));
                            let p = choose|p: int| 0 <= p < pre.len() && pre[p] == before[b];
                            if before[b] == cur {
                                assert(lv[p] == pre[p]);
                                assert(lv[p].0 == lv[i as int].0 && lv[p].1 == lv[i as int].1);
                            }
                        }
                    }
                    assert forall|m: ModifiedView|
                        #![trigger modifieds_view(modified_both@).contains(m)]
                        modifieds_view(modified_both@).contains(m) <==> (nxt.contains((m.0, m.1, m.2)) && cv.contains((m.0, m.1, m.3)) && m.2
                            != m.3) by {
                        if nxt.contains((m.0, m.1, m.2)) && cv.contains(
                            (m.0, m.1, m.3),
                        ) && m.2 != m.3 {
                            let q = choose|q: int|
                                0 <= q < i + 1 && nxt[q] == (m.0, m.1, m.2);
                            if q < i {
                                assert(pre[q] == (m.0, m.1, m.2));
                            } else {
                                let w = choose|w: int|
                                    0 <= w < cv.len() && cv[w] == (m.0, m.1, m.3);
                                assert(cv[w].0 == m.0 && cv[w].1 == m.1);
                            }
                        }
                        if modifieds_view(modified_both@).contains(m) {
                            let p = choose|p: int| 0 <= p < pre.len() && pre[p] == (m.0, m.1, m.2);
                            assert(nxt[p] == (m.0, m.1, m.2));
                        }
                    }
                },
            }
            i = i + 1;
        }
        assert(lv.subrange(0, lv.len() as int) == lv);

        let mut j: usize = 0;
        while j < cloud.entries.len()
            invariant
                j <= cv.len(),
                lv == local@,
                cv == cloud@,
                keys_unique(lv),
                keys_unique(cv),
                records_view(added_cloud@).no_duplicates(),
                forall|r: RecordView|
                    #![trigger records_view(added_cloud@).contains(r)]
                    records_view(added_cloud@).contains(r) <==> (cv.subrange(0, j as int).contains(
                        r) && !has_key(lv, r.0, r.1)),
                pairs_view(deleted_local@) == records_view(added_cloud@).map_values(
                    |r: RecordView| (r.0, r.1),
                ),
            decreases cv.len() - j,
        {
            let e = &cloud.entries[j];
            let ghost cur = cv[j as int];
            let ghost pre = cv.subrange(0, j as int);
            let ghost nxt = cv.subrange(0, j + 1);
            assert(nxt == pre.push(cur));
            match local.find(&e.0, &e.1) {
                Some(_) => {
                    assert forall|r: RecordView|
                        #![trigger records_view(added_cloud@).contains(r)]
                        records_view(added_cloud@).contains(r) <==> (nxt.contains(r) && !has_key(lv, r.0, r.1)) by {
                        if nxt.contains(r) && !has_key(lv, r.0, r.1) {
                            let q = choose|q: int|
                                0 <= q < j + 1 && nxt[q] == r;
                            if q < j {
                                assert(pre[q] == r);
                            }
                        }
                        if records_view(added_cloud@).contains(r) {
                            let p = choose|p: int| 0 <= p < pre.len() && pre[p] == r;
                            assert(nxt[p] == r);
                        }
                    }
                },
                None => {
                    let ghost before = records_view(added_cloud@);
                    let ghost before_d = pairs_view(deleted_local@);
                    added_cloud.push(copy_record(e));
                    deleted_local.push((e.0.clone(), e.1.clone()));
                    assert(records_view(added_cloud@) == before.push(cur));
                    assert(pairs_view(deleted_local@) == before_d.push((cur.0, cur.1)));
                    assert(pairs_view(deleted_local@) =~= records_view(added_cloud@).map_values(
                        |r: RecordView| (r.0, r.1),
                    ));
                    assert forall|r: RecordView|
                        #![trigger records_view(added_cloud@).contains(r)]
                        records_view(added_cloud@).contains(r) <==> (nxt.contains(r) && !has_key(lv, r.0, r.1)) by {
                        if nxt.contains(r) && !has_key(lv, r.0, r.1) {
                            let q = choose|q: int|
                                0 <= q < j + 1 && nxt[q] == r;
                            if q < j {
                                assert(pre[q] == r);
                                assert(before.contains(r));
                                let p = choose|p: int| 0 <= p < before.len() && before[p] == r;
                                assert(records_view(added_cloud@)[p] == r);
                            } else {
                                assert(records_view(added_cloud@)[before.len() as int] == r);
                            }
                        }
                        if records_view(added_cloud@).contains(r) {
                            let q = choose|q: int|
                                0 <= q < records_view(added_cloud@).len() && records_view(
                                    added_cloud@,
                                )[q] == r;
                            if q < before.len() {
                                assert(before[q] == r);
                                assert(before.contains(r));
                                let p = choose|p: int| 0 <= p < pre.len() && pre[p] == r;
                                assert(nxt[p] == r);
                            } else {
                                assert(nxt[j as int] == r);
                            }
                        }
                    }
                    assert forall|a: int, b: int|
                        0 <= a < records_view(added_cloud@).len() && 0 <= b < records_view(
                            added_cloud@,
                        ).len() && a != b implies records_view(added_cloud@)[a] != records_view(
                        added_cloud@,
                    )[b] by {
                        if b == before.len() && a < before.len() {
                            assert(before.contains(before[a]));
                            let p = choose|p: int| 0 <= p < pre.len() && pre[p] == before[a];
                            if before[a] == cur {
                                assert(cv[p] == pre[p]);
                                assert(cv[p].0 == cv[j as int].0 && cv[p].1 == cv[j as int].1);
                            }
                        }
                        if a == before.len() && b < before.len() {
                            assert(before.contains(before[b]));
                            let p = choose|p: int| 0 <= p < pre.len() && pre[p] == before[b];
                            if before[b] == cur {
                                assert(cv[p] == pre[p]);
                                assert(cv[p].0 == cv[j as int].0 && cv[p].1 == cv[j as int].1);
                            }
                        }
                    }
                },
            }
            j = j + 1;
        }
        assert(cv.subrange(0, cv.len() as int) == cv);
        Diff { added_local, added_cloud, modified_both, deleted_local }
    }

    /// Applies `strategy` to `diff`; `local` is what Overwrite uploads.
    pub fn apply_strategy(diff: &Diff, strategy: MergeStrategy, local: &LocalMap) -> (r:
        MergeResult)
        ensures
            r@ == strategy_result(*diff, strategy, local@),
    {
        match strategy {
            MergeStrategy::Overwrite => Self::apply_overwrite(local),
            MergeStrategy::Merge => Self::apply_merge(diff),
            MergeStrategy::SkipConflicts => Self::apply_skip_conflicts(diff),
        }
    }

    fn apply_overwrite(local: &LocalMap) -> (r: MergeResult)
        ensures
            r@ == (local@, Seq::<RecordView>::empty(), Seq::<ModifiedView>::empty()),
    {
        let to_upload = copy_records(&local.entries);
        let r = MergeResult { to_upload, to_download: Vec::new(), conflicts: Vec::new() };
        assert(r@.1 =~= Seq::<RecordView>::empty());
        assert(r@.2 =~= Seq::<ModifiedView>::empty());
        r
    }

    fn apply_merge(diff: &Diff) -> (r: MergeResult)
        ensures
            r@ == strategy_result(*diff, MergeStrategy::Merge, Seq::empty()),
    {
        let to_upload = copy_records(&diff.added_local);
        let mut to_download = copy_records(&diff.added_cloud);
        let ghost base = records_view(diff.added_cloud@);
        let ghost mods = modifieds_view(diff.modified_both@);
        let mut i: usize = 0;
        while i < diff.modified_both.len()
            invariant
                i <= diff.modified_both@.len(),
                base == records_view(diff.added_cloud@),
                mods == modifieds_view(diff.modified_both@),
                records_view(to_download@) == base + mods.subrange(0, i as int).map_values(
                    |m: ModifiedView| cloud_side(m),
                ),
            decreases diff.modified_both@.len() - i,
        {
            let m = &diff.modified_both[i];
            let ghost old_td = records_view(to_download@);
            to_download.push((m.0.clone(), m.1.clone(), m.3.clone()));
            assert(records_view(to_download@) =~= old_td.push(cloud_side(mods[i as int])));
            assert(mods.subrange(0, i + 1).map_values(|m: ModifiedView| cloud_side(m))
                =~= mods.subrange(0, i as int).map_values(|m: ModifiedView| cloud_side(m)).push(
                cloud_side(mods[i as int]),
            ));
            assert(records_view(to_download@) =~= base + mods.subrange(0, i + 1).map_values(
                |m: ModifiedView| cloud_side(m),
            ));
            i = i + 1;
        }
        assert(mods.subrange(0, mods.len() as int) == mods);
        let r = MergeResult { to_upload, to_download, conflicts: Vec::new() };
        assert(r@.2 =~= Seq::<ModifiedView>::empty());
        r
    }

    fn apply_skip_conflicts(diff: &Diff) -> (r: MergeResult)
        ensures
            r@ == strategy_result(*diff, MergeStrategy::SkipConflicts, Seq::empty()),
    {
        let to_upload = copy_records(&diff.added_local);
        let to_download = copy_records(&diff.added_cloud);
        let mut conflicts: Vec<Conflict> = Vec::new();
        let mut i: usize = 0;
        while i < diff.modified_both.len()
            invariant
                i <= diff.modified_both@.len(),
                conflicts_view(conflicts@) == modifieds_view(diff.modified_both@).subrange(
                    0,
                    i as int,
                ),
            decreases diff.modified_both@.len() - i,
        {
            let m = &diff.modified_both[i];
            let ghost old_c = conflicts_view(conflicts@);
            conflicts.push(
                Conflict {
                    key: m.0.clone(),
                    locale: m.1.clone(),
                    local_value: m.2.clone(),
                    cloud_value: m.3.clone(),
                },
            );
            assert(conflicts_view(conflicts@) =~= old_c.push(modified_view(diff.modified_both@[i as int])));
            assert(conflicts_view(conflicts@) =~= modifieds_view(diff.modified_both@).subrange(
                0,
                i + 1,
            ));
            i = i + 1;
        }
        assert(modifieds_view(diff.modified_both@).subrange(0, diff.modified_both@.len() as int)
            =~= modifieds_view(diff.modified_both@));
        MergeResult { to_upload, to_download, conflicts }
    }
}

/// The strategy that a lower-case name denotes.
pub open spec fn strategy_named(s: Seq<char>) -> Option<MergeStrategy> {
    if s == "overwrite"@ {
        Some(MergeStrategy::Overwrite)
    } else if s == "merge"@ {
        Some(MergeStrategy::Merge)
    } else if s == "skip-conflicts"@ || s == "skip_conflicts"@ {
        Some(MergeStrategy::SkipConflicts)
    } else {
        None
    }
}

impl MergeStrategy {
    /// The strategy of an already lower-cased name: `overwrite`, `merge`, or
    /// `skip-conflicts` (also written `skip_conflicts`).
    pub fn from_lowercase_name(name: &str) -> (r: Option<MergeStrategy>)
        ensures
            r == strategy_named(name@),
    {
        if str_eq(name, "overwrite") {
            Some(MergeStrategy::Overwrite)
        } else if str_eq(name, "merge") {
            Some(MergeStrategy::Merge)
        } else if str_eq(name, "skip-conflicts") || str_eq(name, "skip_conflicts") {
            Some(MergeStrategy::SkipConflicts)
        } else {
            None
        }
    }

    /// The strategy a name denotes, in any letter case.
    pub fn from_name(name: &str) -> (r: Option<MergeStrategy>)
        ensures
            r == strategy_named(lower_of(name@)),
    {
        let lower = lowercase(name);
        Self::from_lowercase_name(lower.as_str())
    }
}

/// Both maps hold `(k, l)` with one and the same value.
pub open spec fn unchanged(local: Seq<RecordView>, cloud: Seq<RecordView>, k: Seq<char>, l: Seq<char>) -> bool {
    exists|v: Seq<char>| local.contains((k, l, v)) && cloud.contains((k, l, v))
}

/// `ms` holds a conflict for `(k, l)`.
pub open spec fn has_modified_key(ms: Seq<ModifiedView>, k: Seq<char>, l: Seq<char>) -> bool {
    exists|i: int| 0 <= i < ms.len() && #[trigger] ms[i].0 == k && ms[i].1 == l
}

pub open spec fn exactly_one(a: bool, b: bool, c: bool, d: bool) -> bool {
    &&& a || b || c || d
    &&& !(a && b) && !(a && c) && !(a && d)
    &&& !(b && c) && !(b && d)
    &&& !(c && d)
}

/// Every pair held by either map falls into exactly one class: unchanged, added locally,
/// added in the cloud, or modified on both sides.
pub proof fn lemma_diff_classification(
    local: LocalMap,
    cloud: LocalMap,
    diff: Diff,
    k: Seq<char>,
    l: Seq<char>,
)
    requires
        local.wf(),
        cloud.wf(),
        diff.is_diff_of(local@, cloud@),
        has_key(local@, k, l) || has_key(cloud@, k, l),
    ensures
        exactly_one(
            unchanged(local@, cloud@, k, l),
            has_key(records_view(diff.added_local@), k, l),
            has_key(records_view(diff.added_cloud@), k, l),
            has_modified_key(modifieds_view(diff.modified_both@), k, l),
        ),
{
    let lv = local@;
    let cv = cloud@;
    let al = records_view(diff.added_local@);
    let ac = records_view(diff.added_cloud@);
    let mb = modifieds_view(diff.modified_both@);
    if has_key(al, k, l) {
        let i = choose|i: int| 0 <= i < al.len() && #[trigger] al[i].0 == k && al[i].1 == l;
        assert(al.contains(al[i]));
        assert(is_added(lv, cv, al[i]));
        let x = choose|x: int| 0 <= x < lv.len() && lv[x] == al[i];
        assert(lv[x].0 == k && lv[x].1 == l);
    }
    if has_key(ac, k, l) {
        let i = choose|i: int| 0 <= i < ac.len() && #[trigger] ac[i].0 == k && ac[i].1 == l;
        assert(ac.contains(ac[i]));
        assert(is_added(cv, lv, ac[i]));
        let x = choose|x: int| 0 <= x < cv.len() && cv[x] == ac[i];
        assert(cv[x].0 == k && cv[x].1 == l);
    }
    if unchanged(lv, cv, k, l) {
        let v = choose|v: Seq<char>| lv.contains((k, l, v)) && cv.contains((k, l, v));
        let a2 = choose|a2: int| 0 <= a2 < lv.len() && lv[a2] == (k, l, v);
        let b2 = choose|b2: int| 0 <= b2 < cv.len() && cv[b2] == (k, l, v);
        assert(lv[a2].0 == k && lv[a2].1 == l);
        assert(cv[b2].0 == k && cv[b2].1 == l);
    }
    if has_modified_key(mb, k, l) {
        let i = choose|i: int| 0 <= i < mb.len() && #[trigger] mb[i].0 == k && mb[i].1 == l;
        assert(mb.contains(mb[i]));
        assert(is_modified(lv, cv, mb[i]));
        let a = choose|a: int| 0 <= a < lv.len() && lv[a] == (k, l, mb[i].2);
        let b = choose|b: int| 0 <= b < cv.len() && cv[b] == (k, l, mb[i].3);
        assert(lv[a].0 == k && lv[a].1 == l);
        assert(cv[b].0 == k && cv[b].1 == l);
        if unchanged(lv, cv, k, l) {
            let v = choose|v: Seq<char>| lv.contains((k, l, v)) && cv.contains((k, l, v));
            let a2 = choose|a2: int| 0 <= a2 < lv.len() && lv[a2] == (k, l, v);
            let b2 = choose|b2: int| 0 <= b2 < cv.len() && cv[b2] == (k, l, v);
            assert(lv[a].0 == lv[a2].0 && lv[a].1 == lv[a2].1);
            assert(cv[b].0 == cv[b2].0 && cv[b].1 == cv[b2].1);
        }
    }
    if has_key(lv, k, l) {
        let a = choose|a: int| 0 <= a < lv.len() && #[trigger] lv[a].0 == k && lv[a].1 == l;
        assert(lv.contains(lv[a]));
        if has_key(cv, k, l) {
            let b = choose|b: int| 0 <= b < cv.len() && #[trigger] cv[b].0 == k && cv[b].1 == l;
            assert(cv.contains(cv[b]));
            if lv[a].2 == cv[b].2 {
                assert(lv.contains((k, l, lv[a].2)) && cv.contains((k, l, lv[a].2)));
            } else {
                let m: ModifiedView = (k, l, lv[a].2, cv[b].2);
                assert(is_modified(lv, cv, m));
                assert(mb.contains(m));
                let q = choose|q: int| 0 <= q < mb.len() && mb[q] == m;
                assert(mb[q].0 == k && mb[q].1 == l);
            }
        } else {
            assert(is_added(lv, cv, lv[a]));
            assert(al.contains(lv[a]));
            let q = choose|q: int| 0 <= q < al.len() && al[q] == lv[a];
            assert(al[q].0 == k && al[q].1 == l);
        }
    } else {
        let b = choose|b: int| 0 <= b < cv.len() && #[trigger] cv[b].0 == k && cv[b].1 == l;
        assert(cv.contains(cv[b]));
        assert(is_added(cv, lv, cv[b]));
        assert(ac.contains(cv[b]));
        let q = choose|q: int| 0 <= q < ac.len() && ac[q] == cv[b];
        assert(ac[q].0 == k && ac[q].1 == l);
    }
}

/// Overwrite uploads the whole local map and downloads nothing, whatever the diff.
pub proof fn lemma_overwrite_uploads_local(diff: Diff, local: Seq<RecordView>)
    ensures
        strategy_result(diff, MergeStrategy::Overwrite, local).0 == local,
        strategy_result(diff, MergeStrategy::Overwrite, local).1.len() == 0,
        strategy_result(diff, MergeStrategy::Overwrite, local).2.len() == 0,
{
}

/// Merge reports no conflicts, and downloads every record that only the cloud holds.
pub proof fn lemma_merge_downloads_cloud_additions(diff: Diff, local: Seq<RecordView>)
    ensures
        strategy_result(diff, MergeStrategy::Merge, local).2.len() == 0,
        forall|r: RecordView|
            records_view(diff.added_cloud@).contains(r) ==> #[trigger] strategy_result(
                diff,
                MergeStrategy::Merge,
                local,
            ).1.contains(r),
{
    let ac = records_view(diff.added_cloud@);
    let down = strategy_result(diff, MergeStrategy::Merge, local).1;
    assert forall|r: RecordView| ac.contains(r) implies #[trigger] down.contains(r) by {
        let i = choose|i: int| 0 <= i < ac.len() && ac[i] == r;
        assert(down[i] == r);
    }
}

/// SkipConflicts sets aside one conflict per modified pair, uploads exactly the local
/// additions and downloads exactly the cloud additions.
pub proof fn lemma_skip_conflicts_partition(diff: Diff, local: Seq<RecordView>)
    ensures
        strategy_result(diff, MergeStrategy::SkipConflicts, local).2.len()
            == diff.modified_both@.len(),
        strategy_result(diff, MergeStrategy::SkipConflicts, local).0 == records_view(
            diff.added_local@,
        ),
        strategy_result(diff, MergeStrategy::SkipConflicts, local).1 == records_view(
            diff.added_cloud@,
        ),
{
}

} // verus!
