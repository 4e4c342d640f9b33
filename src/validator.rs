//! Checks over a set of translation records: duplicates and missing keys.
use crate::merge::pairs_view;
use crate::records::{Translation, TranslationView, translations_view};
use crate::text::str_eq;
use vstd::prelude::*;
use vstd::string::StringExecFns;

verus! {

/// `(key, locale)` occurs in at least two records of `s`.
pub open spec fn is_duplicate(s: Seq<TranslationView>, k: Seq<char>, l: Seq<char>) -> bool {
    exists|i: int, j: int|
        0 <= i < j < s.len() && #[trigger] s[i].0 == k && s[i].1 == l && #[trigger] s[j].0 == k
            && s[j].1 == l
}

/// The text that reports a duplicated key.
pub open spec fn duplicate_message(k: Seq<char>, l: Seq<char>) -> Seq<char> {
    "Duplicate key '"@ + k + "' in locale '"@ + l + "'"@
}

pub open spec fn messages_view(v: Seq<String>) -> Seq<Seq<char>> {
    v.map_values(|m: String| m@)
}

pub open spec fn pair_messages(pairs: Seq<(Seq<char>, Seq<char>)>) -> Seq<Seq<char>> {
    pairs.map_values(|p: (Seq<char>, Seq<char>)| duplicate_message(p.0, p.1))
}

/// A record of `s` before position `n` has key `k` and locale `l`.
pub open spec fn occurs_before(s: Seq<TranslationView>, n: int, k: Seq<char>, l: Seq<char>) -> bool {
    exists|b: int| 0 <= b < n && #[trigger] s[b].0 == k && s[b].1 == l
}

fn pair_index(pairs: &Vec<(String, String)>, k: &String, l: &String) -> (r: Option<usize>)
    ensures
        match r {
            Some(i) => i < pairs@.len() && pairs@[i as int].0@ == k@ && pairs@[i as int].1@ == l@,
            None => forall|i: int|
                0 <= i < pairs@.len() ==> !(#[trigger] pairs@[i].0@ == k@ && pairs@[i].1@ == l@),
        },
{
    let mut i: usize = 0;
    while i < pairs.len()
        invariant
            i <= pairs@.len(),
            forall|j: int| 0 <= j < i ==> !(#[trigger] pairs@[j].0@ == k@ && pairs@[j].1@ == l@),
        decreases pairs@.len() - i,
    {
        if str_eq(pairs[i].0.as_str(), k.as_str()) && str_eq(pairs[i].1.as_str(), l.as_str()) {
            return Some(i);
        }
        i = i + 1;
    }
    None
}

/// The message of each `(key, locale)` pair that occurs more than once, once per pair, in
/// the order in which the second occurrence comes.
fn duplicate_reports(translations: &Vec<Translation>) -> (r: Vec<String>)
    ensures
        exists|pairs: Seq<(Seq<char>, Seq<char>)>|
            {
                &&& #[trigger] pairs.no_duplicates()
                &&& forall|k: Seq<char>, l: Seq<char>|
                    #![trigger pairs.contains((k, l))]
                    pairs.contains((k, l)) <==> is_duplicate(translations_view(translations@), k, l)
                &&& messages_view(r@) == pair_messages(pairs)
            },
{
    let ghost s = translations_view(translations@);
    let mut seen: Vec<(String, String)> = Vec::new();
    let mut reported: Vec<(String, String)> = Vec::new();
    let mut out: Vec<String> = Vec::new();
    let mut i: usize = 0;
    while i < translations.len()
        invariant
            i <= translations@.len(),
            s == translations_view(translations@),
            forall|k: Seq<char>, l: Seq<char>|
                #![trigger pairs_view(seen@).contains((k, l))]
                #![trigger occurs_before(s, i as int, k, l)]
                pairs_view(seen@).contains((k, l)) <==> occurs_before(s, i as int, k, l),
            pairs_view(reported@).no_duplicates(),
            forall|k: Seq<char>, l: Seq<char>|
                #![trigger pairs_view(reported@).contains((k, l))]
                pairs_view(reported@).contains((k, l))
                    <==> is_duplicate(s.subrange(0, i as int), k, l),
            messages_view(out@) == pair_messages(pairs_view(reported@)),
        decreases translations@.len() - i,
    {
        let t = &translations[i];
        let ghost pre = s.subrange(0, i as int);
        let ghost nxt = s.subrange(0, i + 1);
        let ghost rv = pairs_view(reported@);
        assert forall|k: Seq<char>, l: Seq<char>| is_duplicate(nxt, k, l) <==> (is_duplicate(pre, k, l) || (
            k == s[i as int].0 && l == s[i as int].1 && exists|b: int| 0 <= b < i && #[trigger] s[b].0 == k && s[b].1 == l)) by {
            if is_duplicate(nxt, k, l) {
                let (a, b) = choose|a: int, b: int|
                    0 <= a < b < nxt.len() && #[trigger] nxt[a].0 == k && nxt[a].1 == l && #[trigger] nxt[b].0 == k && nxt[b].1 == l;
                if b < i {
                    assert(pre[a] == nxt[a] && pre[b] == nxt[b]);
                    assert(is_duplicate(pre, k, l));
                } else {
                    assert(s[a].0 == k);
                }
            }
            if is_duplicate(pre, k, l) {
                let (a, b) = choose|a: int, b: int|
                    0 <= a < b < pre.len() && #[trigger] pre[a].0 == k && pre[a].1 == l && #[trigger] pre[b].0 == k && pre[b].1 == l;
                assert(nxt[a] == pre[a] && nxt[b] == pre[b]);
            }
            if k == s[i as int].0 && l == s[i as int].1 && exists|b: int| 0 <= b < i && #[trigger] s[b].0 == k && s[b].1 == l {
                let b = choose|b: int| 0 <= b < i && #[trigger] s[b].0 == k && s[b].1 == l;
                assert(nxt[b] == s[b] && nxt[i as int] == s[i as int]);
            }
        }
        match pair_index(&seen, &t.key, &t.locale) {
            Some(a) => {
                match pair_index(&reported, &t.key, &t.locale) {
                    Some(j) => {
                        assert(rv[j as int] == (t.key@, t.locale@));
                    },
                    None => {
                        let ghost before_out = messages_view(out@);
                        let msg = String::from_str("Duplicate key '").concat(t.key.as_str()).concat(
                            "' in locale '",
                        ).concat(t.locale.as_str()).concat("'");
                        reported.push((t.key.clone(), t.locale.clone()));
                        out.push(msg);
                        let ghost nrv = pairs_view(reported@);
                        assert(nrv =~= rv.push((t.key@, t.locale@)));
                        assert(messages_view(out@) =~= before_out.push(
                            duplicate_message(t.key@, t.locale@),
                        ));
                        assert(pair_messages(nrv)
                            =~= pair_messages(rv).push(
                            duplicate_message(t.key@, t.locale@),
                        ));
                        assert forall|x: int, y: int| 0 <= x < nrv.len() && 0 <= y < nrv.len() && x != y implies nrv[x] != nrv[y] by {
                            if y == rv.len() && x < rv.len() {
                                assert(!(reported@[x].0@ == t.key@ && reported@[x].1@ == t.locale@));
                            }
                            if x == rv.len() && y < rv.len() {
                                assert(!(reported@[y].0@ == t.key@ && reported@[y].1@ == t.locale@));
                            }
                        }
                        assert forall|k: Seq<char>, l: Seq<char>|
                            #![trigger nrv.contains((k, l))]
                            nrv.contains((k, l)) <==> is_duplicate(nxt, k, l) by {
                            if nrv.contains((k, l)) {
                                let q = choose|q: int| 0 <= q < nrv.len() && nrv[q] == (k, l);
                                if q < rv.len() {
                                    assert(rv[q] == (k, l));
                                    assert(rv.contains((k, l)));
                                } else {
                                    assert(seen@[a as int].0@ == k && seen@[a as int].1@ == l);
                                    assert(pairs_view(seen@)[a as int] == (k, l));
                                    assert(pairs_view(seen@).contains((k, l)));
                                    assert(occurs_before(s, i as int, k, l));
                                    let b = choose|b: int| 0 <= b < i && #[trigger] s[b].0 == k && s[b].1 == l;
                                    assert(nxt[b] == s[b] && nxt[i as int] == s[i as int]);
                                }
                            }
                            if is_duplicate(nxt, k, l) {
                                if is_duplicate(pre, k, l) {
                                    assert(rv.contains((k, l)));
                                    let q = choose|q: int| 0 <= q < rv.len() && rv[q] == (k, l);
                                    assert(nrv[q] == (k, l));
                                } else {
                                    assert(nrv[rv.len() as int] == (k, l));
                                }
                            }
                        }
                    },
                }
            },
            None => {
                assert forall|k: Seq<char>, l: Seq<char>|
                    #![trigger rv.contains((k, l))]
                    rv.contains((k, l)) <==> is_duplicate(nxt, k, l) by {
                    if k == s[i as int].0 && l == s[i as int].1 && exists|b: int| 0 <= b < i && #[trigger] s[b].0 == k && s[b].1 == l {
                        assert(occurs_before(s, i as int, k, l));
                        assert(pairs_view(seen@).contains((k, l)));
                        let c = choose|c: int| 0 <= c < seen@.len() && pairs_view(seen@)[c] == (k, l);
                        assert(seen@[c].0@ == k && seen@[c].1@ == l);
                    }
                }
            },
        }
        let ghost old_seen = pairs_view(seen@);
        seen.push((t.key.clone(), t.locale.clone()));
        assert(pairs_view(seen@) =~= old_seen.push((t.key@, t.locale@)));
        assert forall|k: Seq<char>, l: Seq<char>|
            #![trigger pairs_view(seen@).contains((k, l))]
            #![trigger occurs_before(s, i + 1, k, l)]
            pairs_view(seen@).contains((k, l)) <==> occurs_before(s, i + 1, k, l) by {
            if pairs_view(seen@).contains((k, l)) {
                let a = choose|a: int| 0 <= a < pairs_view(seen@).len() && pairs_view(seen@)[a] == (k, l);
                if a < old_seen.len() {
                    assert(old_seen[a] == (k, l));
                    assert(old_seen.contains((k, l)));
                    assert(occurs_before(s, i as int, k, l));
                    let b = choose|b: int| 0 <= b < i && #[trigger] s[b].0 == k && s[b].1 == l;
                    assert(0 <= b < i + 1 && s[b].0 == k && s[b].1 == l);
                } else {
                    assert(s[i as int].0 == k && s[i as int].1 == l);
                }
            }
            if occurs_before(s, i + 1, k, l) {
                let b = choose|b: int| 0 <= b < i + 1 && #[trigger] s[b].0 == k && s[b].1 == l;
                if b < i {
                    assert(occurs_before(s, i as int, k, l));
                    assert(old_seen.contains((k, l)));
                    let a = choose|a: int| 0 <= a < old_seen.len() && old_seen[a] == (k, l);
                    assert(pairs_view(seen@)[a] == (k, l));
                } else {
                    assert(pairs_view(seen@)[old_seen.len() as int] == (k, l));
                }
            }
        }
        i = i + 1;
    }
    assert(s.subrange(0, translations@.len() as int) == s);
    let ghost pairs = pairs_view(reported@);
    assert(pairs.no_duplicates());
    out
}

/// Some duplicated pair of `s` is reported by message `m`.
pub open spec fn is_conflict_message(s: Seq<TranslationView>, m: Seq<char>) -> bool {
    exists|k: Seq<char>, l: Seq<char>| #[trigger] is_duplicate(s, k, l) && m == duplicate_message(k, l)
}

fn contains_message(v: &Vec<String>, x: &String) -> (r: bool)
    ensures
        r == messages_view(v@).contains(x@),
{
    let mut i: usize = 0;
    while i < v.len()
        invariant
            i <= v@.len(),
            forall|j: int| 0 <= j < i ==> messages_view(v@)[j] != x@,
        decreases v@.len() - i,
    {
        if str_eq(v[i].as_str(), x.as_str()) {
            assert(messages_view(v@)[i as int] == x@);
            return true;
        }
        i = i + 1;
    }
    false
}

/// Reports each `(key, locale)` pair that occurs more than once as
/// `Duplicate key '<key>' in locale '<locale>'`, each message once, in the order in which
/// the second occurrences come.
pub fn detect_conflicts(translations: &Vec<Translation>) -> (r: Vec<String>)
    ensures
        messages_view(r@).no_duplicates(),
        forall|m: Seq<char>|
            #![trigger messages_view(r@).contains(m)]
            messages_view(r@).contains(m) <==> is_conflict_message(translations_view(translations@), m),
{
    let ghost s = translations_view(translations@);
    let reports = duplicate_reports(translations);
    let ghost pairs = choose|pairs: Seq<(Seq<char>, Seq<char>)>|
        {
            &&& #[trigger] pairs.no_duplicates()
            &&& forall|k: Seq<char>, l: Seq<char>|
                #![trigger pairs.contains((k, l))]
                pairs.contains((k, l)) <==> is_duplicate(s, k, l)
            &&& messages_view(reports@) == pair_messages(pairs)
        };
    let ghost rv = messages_view(reports@);
    assert forall|m: Seq<char>| rv.contains(m) <==> is_conflict_message(s, m) by {
        if rv.contains(m) {
            let q = choose|q: int| 0 <= q < rv.len() && rv[q] == m;
            assert(rv[q] == duplicate_message(pairs[q].0, pairs[q].1));
            assert(pairs.contains((pairs[q].0, pairs[q].1)));
            assert(is_duplicate(s, pairs[q].0, pairs[q].1));
        }
        if is_conflict_message(s, m) {
            let (k, l) = choose|k: Seq<char>, l: Seq<char>| #[trigger] is_duplicate(s, k, l) && m == duplicate_message(k, l);
            assert(pairs.contains((k, l)));
            let q = choose|q: int| 0 <= q < pairs.len() && pairs[q] == (k, l);
            assert(rv[q] == m);
        }
    }
    let mut out: Vec<String> = Vec::new();
    let mut i: usize = 0;
    while i < reports.len()
        invariant
            i <= reports@.len(),
            rv == messages_view(reports@),
            messages_view(out@).no_duplicates(),
            forall|m: Seq<char>|
                #![trigger messages_view(out@).contains(m)]
                messages_view(out@).contains(m) <==> rv.subrange(0, i as int).contains(m),
        decreases reports@.len() - i,
    {
        let ghost ov = messages_view(out@);
        let ghost r0 = rv.subrange(0, i as int);
        let ghost r1 = rv.subrange(0, i + 1);
        assert(r1 == r0.push(rv[i as int]));
        assert(rv[i as int] == reports@[i as int]@);
        if !contains_message(&out, &reports[i]) {
            out.push(reports[i].clone());
            assert(messages_view(out@) =~= ov.push(rv[i as int]));
            assert forall|m: Seq<char>|
                #![trigger messages_view(out@).contains(m)]
                messages_view(out@).contains(m) <==> r1.contains(m) by {
                if messages_view(out@).contains(m) {
                    let q = choose|q: int| 0 <= q < messages_view(out@).len() && messages_view(out@)[q] == m;
                    if q < ov.len() {
                        assert(ov[q] == m);
                        assert(ov.contains(m));
                        let p = choose|p: int| 0 <= p < r0.len() && r0[p] == m;
                        assert(r1[p] == m);
                    } else {
                        assert(r1[i as int] == m);
                    }
                }
                if r1.contains(m) {
                    let p = choose|p: int| 0 <= p < r1.len() && r1[p] == m;
                    if p < i {
                        assert(r0[p] == m);
                        assert(r0.contains(m));
                        assert(ov.contains(m));
                        let q = choose|q: int| 0 <= q < ov.len() && ov[q] == m;
                        assert(messages_view(out@)[q] == m);
                    } else {
                        assert(messages_view(out@)[ov.len() as int] == m);
                    }
                }
            }
            assert forall|x: int, y: int|
                0 <= x < messages_view(out@).len() && 0 <= y < messages_view(out@).len() && x != y
                implies messages_view(out@)[x] != messages_view(out@)[y] by {
                if y == ov.len() && x < ov.len() {
                    assert(ov.contains(ov[x]));
                }
                if x == ov.len() && y < ov.len() {
                    assert(ov.contains(ov[y]));
                }
            }
        } else {
            assert forall|m: Seq<char>|
                #![trigger messages_view(out@).contains(m)]
                messages_view(out@).contains(m) <==> r1.contains(m) by {
                if messages_view(out@).contains(m) {
                    let p = choose|p: int| 0 <= p < r0.len() && r0[p] == m;
                    assert(r1[p] == m);
                }
                if r1.contains(m) {
                    let p = choose|p: int| 0 <= p < r1.len() && r1[p] == m;
                    if p < i {
                        assert(r0[p] == m);
                        assert(r0.contains(m));
                    }
                }
            }
        }
        i = i + 1;
    }
    assert(rv.subrange(0, rv.len() as int) == rv);
    out
}

/// Some record of `s` has locale `l` and key `k`.
pub open spec fn has_record(s: Seq<TranslationView>, l: Seq<char>, k: Seq<char>) -> bool {
    exists|i: int| 0 <= i < s.len() && #[trigger] s[i].0 == k && s[i].1 == l
}

/// `k` is a key of the base locale that locale `l` lacks.
pub open spec fn is_missing(s: Seq<TranslationView>, base: Seq<char>, l: Seq<char>, k: Seq<char>) -> bool {
    has_record(s, base, k) && !has_record(s, l, k)
}

pub open spec fn strings_view(v: Seq<String>) -> Seq<Seq<char>> {
    v.map_values(|x: String| x@)
}

fn has_record_exec(s: &Vec<Translation>, l: &String, k: &String) -> (r: bool)
    ensures
        r == has_record(translations_view(s@), l@, k@),
{
    let ghost sv = translations_view(s@);
    let mut i: usize = 0;
    while i < s.len()
        invariant
            i <= s@.len(),
            sv == translations_view(s@),
            forall|j: int| 0 <= j < i ==> !(#[trigger] sv[j].0 == k@ && sv[j].1 == l@),
        decreases s@.len() - i,
    {
        if str_eq(s[i].key.as_str(), k.as_str()) && str_eq(s[i].locale.as_str(), l.as_str()) {
            assert(sv[i as int].0 == k@);
            return true;
        }
        i = i + 1;
    }
    false
}

fn contains_string(v: &Vec<String>, x: &String) -> (r: bool)
    ensures
        r == strings_view(v@).contains(x@),
{
    let mut i: usize = 0;
    while i < v.len()
        invariant
            i <= v@.len(),
            forall|j: int| 0 <= j < i ==> strings_view(v@)[j] != x@,
        decreases v@.len() - i,
    {
        if str_eq(v[i].as_str(), x.as_str()) {
            assert(strings_view(v@)[i as int] == x@);
            return true;
        }
        i = i + 1;
    }
    false
}

/// The distinct keys of locale `l`, in order of first appearance.
pub fn keys_of_locale(s: &Vec<Translation>, l: &String) -> (r: Vec<String>)
    ensures
        strings_view(r@).no_duplicates(),
        forall|k: Seq<char>|
            #![trigger strings_view(r@).contains(k)]
            strings_view(r@).contains(k) <==> has_record(translations_view(s@), l@, k),
{
    let ghost sv = translations_view(s@);
    let mut keys: Vec<String> = Vec::new();
    let mut i: usize = 0;
    while i < s.len()
        invariant
            i <= s@.len(),
            sv == translations_view(s@),
            strings_view(keys@).no_duplicates(),
            forall|k: Seq<char>|
                #![trigger strings_view(keys@).contains(k)]
                strings_view(keys@).contains(k) <==> has_record(sv.subrange(0, i as int), l@, k),
        decreases s@.len() - i,
    {
        let ghost pre = sv.subrange(0, i as int);
        let ghost nxt = sv.subrange(0, i + 1);
        let ghost kv = strings_view(keys@);
        assert forall|k: Seq<char>| has_record(nxt, l@, k) <==> (has_record(pre, l@, k) || (
            sv[i as int].0 == k && sv[i as int].1 == l@)) by {
            if has_record(nxt, l@, k) {
                let j = choose|j: int| 0 <= j < nxt.len() && #[trigger] nxt[j].0 == k && nxt[j].1 == l@;
                if j < i {
                    assert(pre[j] == nxt[j]);
                }
            }
            if has_record(pre, l@, k) {
                let j = choose|j: int| 0 <= j < pre.len() && #[trigger] pre[j].0 == k && pre[j].1 == l@;
                assert(nxt[j] == pre[j]);
            }
            if sv[i as int].0 == k && sv[i as int].1 == l@ {
                assert(nxt[i as int] == sv[i as int]);
            }
        }
        if str_eq(s[i].locale.as_str(), l.as_str()) && !contains_string(&keys, &s[i].key) {
            keys.push(s[i].key.clone());
            assert(strings_view(keys@) =~= kv.push(sv[i as int].0));
            assert forall|k: Seq<char>|
                #![trigger strings_view(keys@).contains(k)]
                strings_view(keys@).contains(k) <==> has_record(nxt, l@, k) by {
                if strings_view(keys@).contains(k) {
                    let q = choose|q: int| 0 <= q < strings_view(keys@).len() && strings_view(keys@)[q] == k;
                    if q < kv.len() {
                        assert(kv[q] == k);
                        assert(kv.contains(k));
                    }
                }
                if has_record(pre, l@, k) {
                    assert(kv.contains(k));
                    let q = choose|q: int| 0 <= q < kv.len() && kv[q] == k;
                    assert(strings_view(keys@)[q] == k);
                }
                if sv[i as int].0 == k {
                    assert(strings_view(keys@)[kv.len() as int] == k);
                }
            }
        } else {
            assert forall|k: Seq<char>|
                #![trigger strings_view(keys@).contains(k)]
                strings_view(keys@).contains(k) <==> has_record(nxt, l@, k) by {
            }
        }
        i = i + 1;
    }
    assert(sv.subrange(0, s@.len() as int) == sv);
    keys
}

pub open spec fn entry_locales(v: Seq<(String, Vec<String>)>) -> Seq<Seq<char>> {
    v.map_values(|e: (String, Vec<String>)| e.0@)
}

/// For each locale that lacks some keys of the base locale, the keys it lacks.
#[derive(Debug, Clone)]
pub struct MissingKeys {
    pub entries: Vec<(String, Vec<String>)>,
}

impl MissingKeys {
    pub open spec fn locales(&self) -> Seq<Seq<char>> {
        entry_locales(self.entries@)
    }

    /// The number of locales with missing keys.
    pub fn len(&self) -> (n: usize)
        ensures
            n == self.entries@.len(),
    {
        self.entries.len()
    }

    /// Whether `locale` lacks some keys.
    pub fn contains_key(&self, locale: &str) -> (r: bool)
        ensures
            r == self.locales().contains(locale@),
    {
        let mut i: usize = 0;
        while i < self.entries.len()
            invariant
                i <= self.entries@.len(),
                forall|j: int| 0 <= j < i ==> self.locales()[j] != locale@,
            decreases self.entries@.len() - i,
        {
            if str_eq(self.entries[i].0.as_str(), locale) {
                assert(self.locales()[i as int] == locale@);
                return true;
            }
            i = i + 1;
        }
        false
    }

    /// The keys that `locale` lacks, if it lacks any.
    pub fn get(&self, locale: &str) -> (r: Option<&Vec<String>>)
        ensures
            match r {
                Some(v) => exists|j: int|
                    0 <= j < self.entries@.len() && #[trigger] self.entries@[j].0@ == locale@ && self.entries@[j].1 == *v,
                None => !self.locales().contains(locale@),
            },
    {
        let mut i: usize = 0;
        while i < self.entries.len()
            invariant
                i <= self.entries@.len(),
                forall|j: int| 0 <= j < i ==> self.locales()[j] != locale@,
            decreases self.entries@.len() - i,
        {
            if str_eq(self.entries[i].0.as_str(), locale) {
                return Some(&self.entries[i].1);
            }
            i = i + 1;
        }
        None
    }
}

/// Finds, for each supported locale other than the base one, the keys of the base locale
/// that it has no record for. Locales that lack nothing are left out.
pub fn detect_missing_keys(
    translations: &Vec<Translation>,
    base_locale: &str,
    supported_locales: &Vec<String>,
) -> (r: MissingKeys)
    ensures
        r.locales().no_duplicates(),
        forall|j: int|
            0 <= j < r.entries@.len() ==> {
                let l = (#[trigger] r.entries@[j]).0@;
                &&& strings_view(supported_locales@).contains(l)
                &&& l != base_locale@
                &&& r.entries@[j].1@.len() > 0
                &&& strings_view(r.entries@[j].1@).no_duplicates()
                &&& forall|k: Seq<char>|
                    #![trigger strings_view(r.entries@[j].1@).contains(k)]
                    strings_view(r.entries@[j].1@).contains(k) <==> is_missing(
                        translations_view(translations@),
                        base_locale@,
                        l,
                        k,
                    )
            },
        forall|i: int, k: Seq<char>|
            0 <= i < supported_locales@.len() && #[trigger] is_missing(
                translations_view(translations@),
                base_locale@,
                supported_locales@[i]@,
                k,
            ) && supported_locales@[i]@ != base_locale@ ==> r.locales().contains(supported_locales@[i]@),
{
    let ghost sv = translations_view(translations@);
    let base = base_locale.to_owned();
    let base_keys = keys_of_locale(translations, &base);
    let mut entries: Vec<(String, Vec<String>)> = Vec::new();
    let mut i: usize = 0;
    while i < supported_locales.len()
        invariant
            i <= supported_locales@.len(),
            sv == translations_view(translations@),
            base@ == base_locale@,
            strings_view(base_keys@).no_duplicates(),
            forall|k: Seq<char>|
                #![trigger strings_view(base_keys@).contains(k)]
                strings_view(base_keys@).contains(k) <==> has_record(sv, base@, k),
            entry_locales(entries@).no_duplicates(),
            forall|j: int|
                0 <= j < entries@.len() ==> {
                    let l = (#[trigger] entries@[j]).0@;
                    &&& strings_view(supported_locales@).contains(l)
                    &&& l != base_locale@
                    &&& entries@[j].1@.len() > 0
                    &&& strings_view(entries@[j].1@).no_duplicates()
                    &&& forall|k: Seq<char>|
                        #![trigger strings_view(entries@[j].1@).contains(k)]
                        strings_view(entries@[j].1@).contains(k) <==> is_missing(sv, base_locale@, l, k)
                },
            forall|a: int, k: Seq<char>|
                0 <= a < i && #[trigger] is_missing(sv, base_locale@, supported_locales@[a]@, k)
                    && supported_locales@[a]@ != base_locale@ ==> entry_locales(entries@).contains(supported_locales@[a]@),
        decreases supported_locales@.len() - i,
    {
        let l = &supported_locales[i];
        let ghost lv = l@;
        let ghost ev = entry_locales(entries@);
        assert(strings_view(supported_locales@)[i as int] == lv);
        let mut known = false;
        let mut e: usize = 0;
        while e < entries.len()
            invariant
                e <= entries@.len(),
                lv == l@,
                ev == entry_locales(entries@),
                known == exists|q: int| 0 <= q < e && ev[q] == lv,
            decreases entries@.len() - e,
        {
            assert(ev[e as int] == entries@[e as int].0@);
            if str_eq(entries[e].0.as_str(), l.as_str()) {
                known = true;
            }
            e = e + 1;
        }
        if !known && !str_eq(l.as_str(), base_locale) {
            let mut missing: Vec<String> = Vec::new();
            let mut b: usize = 0;
            while b < base_keys.len()
                invariant
                    b <= base_keys@.len(),
                    lv == l@,
                    sv == translations_view(translations@),
                    strings_view(base_keys@).no_duplicates(),
                    forall|k: Seq<char>|
                        #![trigger strings_view(base_keys@).contains(k)]
                        strings_view(base_keys@).contains(k) <==> has_record(sv, base@, k),
                    strings_view(missing@).no_duplicates(),
                    forall|k: Seq<char>|
                        #![trigger strings_view(missing@).contains(k)]
                        strings_view(missing@).contains(k) <==> (strings_view(base_keys@).subrange(0, b as int).contains(k)
                            && !has_record(sv, lv, k)),
                decreases base_keys@.len() - b,
            {
                let ghost mv = strings_view(missing@);
                let ghost bk = strings_view(base_keys@);
                let ghost b0 = bk.subrange(0, b as int);
                let ghost b1 = bk.subrange(0, b + 1);
                assert(b1 == b0.push(bk[b as int]));
                if !has_record_exec(translations, l, &base_keys[b]) {
                    missing.push(base_keys[b].clone());
                    assert(strings_view(missing@) =~= mv.push(bk[b as int]));
                    assert forall|k: Seq<char>|
                        #![trigger strings_view(missing@).contains(k)]
                        strings_view(missing@).contains(k) <==> (b1.contains(k)
                            && !has_record(sv, lv, k)) by {
                        if strings_view(missing@).contains(k) {
                            let q = choose|q: int| 0 <= q < strings_view(missing@).len() && strings_view(missing@)[q] == k;
                            if q < mv.len() {
                                assert(mv[q] == k);
                                assert(mv.contains(k));
                                let p = choose|p: int| 0 <= p < b && b0[p] == k;
                                assert(b1[p] == k);
                            } else {
                                assert(b1[b as int] == k);
                            }
                        }
                        if b1.contains(k) && !has_record(sv, lv, k) {
                            let p = choose|p: int| 0 <= p < b + 1 && b1[p] == k;
                            if p < b {
                                assert(b0[p] == k);
                                assert(b0.contains(k));
                                assert(mv.contains(k));
                                let q = choose|q: int| 0 <= q < mv.len() && mv[q] == k;
                                assert(strings_view(missing@)[q] == k);
                            } else {
                                assert(strings_view(missing@)[mv.len() as int] == k);
                            }
                        }
                    }
                    assert forall|x: int, y: int|
                        0 <= x < strings_view(missing@).len() && 0 <= y < strings_view(missing@).len() && x != y
                        implies strings_view(missing@)[x] != strings_view(missing@)[y] by {
                        if y == mv.len() && x < mv.len() {
                            assert(mv.contains(mv[x]));
                            let p = choose|p: int| 0 <= p < b && b0[p] == mv[x];
                            assert(bk[p] == mv[x]);
                        }
                        if x == mv.len() && y < mv.len() {
                            assert(mv.contains(mv[y]));
                            let p = choose|p: int| 0 <= p < b && b0[p] == mv[y];
                            assert(bk[p] == mv[y]);
                        }
                    }
                } else {
                    assert forall|k: Seq<char>|
                        #![trigger strings_view(missing@).contains(k)]
                        strings_view(missing@).contains(k) <==> (b1.contains(k)
                            && !has_record(sv, lv, k)) by {
                        if strings_view(missing@).contains(k) {
                            let p = choose|p: int| 0 <= p < b && b0[p] == k;
                            assert(b1[p] == k);
                        }
                        if b1.contains(k) && !has_record(sv, lv, k) {
                            let p = choose|p: int| 0 <= p < b + 1 && b1[p] == k;
                            if p < b {
                                assert(b0[p] == k);
                                assert(b0.contains(k));
                                assert(mv.contains(k));
                            } else {
                                assert(k == bk[b as int]);
                            }
                        }
                    }
                }
                b = b + 1;
            }
            assert(strings_view(base_keys@).subrange(0, base_keys@.len() as int) == strings_view(base_keys@));
            if missing.len() > 0 {
                entries.push((l.clone(), missing));
                assert(entry_locales(entries@) =~= ev.push(lv));
                let ghost nev = entry_locales(entries@);
                assert forall|x: int, y: int|
                    0 <= x < ev.len() + 1 && 0 <= y < ev.len() + 1 && x != y
                    implies nev[x] != nev[y] by {
                    if y == ev.len() && x < ev.len() {
                        assert(ev[x] != lv);
                    }
                    if x == ev.len() && y < ev.len() {
                        assert(ev[y] != lv);
                    }
                }
            } else {
                assert forall|k: Seq<char>| !#[trigger] is_missing(sv, base_locale@, lv, k) by {
                    if is_missing(sv, base_locale@, lv, k) {
                        assert(strings_view(base_keys@).contains(k));
                        assert(strings_view(missing@).contains(k));
                    }
                }
            }
        } else if known {
            proof {
                let q = choose|q: int| 0 <= q < entries@.len() && ev[q] == lv;
                assert(ev.contains(lv));
            }
        }
        proof {
            let nev = entry_locales(entries@);
            assert forall|a: int, k: Seq<char>|
                0 <= a < i + 1 && #[trigger] is_missing(sv, base_locale@, supported_locales@[a]@, k)
                    && supported_locales@[a]@ != base_locale@ implies nev.contains(supported_locales@[a]@) by {
                if a < i {
                    assert(ev.contains(supported_locales@[a]@));
                    let q = choose|q: int| 0 <= q < ev.len() && ev[q] == supported_locales@[a]@;
                    assert(nev[q] == ev[q]);
                } else if !known {
                    assert(nev[ev.len() as int] == lv);
                }
            }
        }
        i = i + 1;
    }
    MissingKeys { entries }
}

/// Key counts of one locale against the base locale.
#[derive(Debug, Clone)]
pub struct LocaleCoverage {
    /// Distinct keys of the base locale.
    pub total_keys: usize,
    /// Distinct keys of this locale.
    pub translated_keys: usize,
    /// Keys of the base locale that this locale lacks.
    pub missing_keys: Vec<String>,
}

/// Counts how much of the base locale's keys `locale` covers. The percentage is
/// `translated_keys / total_keys`, or complete when the base locale has no keys.
pub fn locale_coverage(translations: &Vec<Translation>, base_locale: &str, locale: &String) -> (r: LocaleCoverage)
    ensures
        exists|bk: Seq<Seq<char>>|
            #[trigger] bk.no_duplicates() && bk.len() == r.total_keys && forall|k: Seq<char>|
                #![trigger bk.contains(k)]
                bk.contains(k) <==> has_record(translations_view(translations@), base_locale@, k),
        exists|lk: Seq<Seq<char>>|
            #[trigger] lk.no_duplicates() && lk.len() == r.translated_keys && forall|k: Seq<char>|
                #![trigger lk.contains(k)]
                lk.contains(k) <==> has_record(translations_view(translations@), locale@, k),
        strings_view(r.missing_keys@).no_duplicates(),
        forall|k: Seq<char>|
            #![trigger strings_view(r.missing_keys@).contains(k)]
            strings_view(r.missing_keys@).contains(k) <==> is_missing(translations_view(translations@), base_locale@, locale@, k),
{
    let ghost sv = translations_view(translations@);
    let base = base_locale.to_owned();
    let base_keys = keys_of_locale(translations, &base);
    let locale_keys = keys_of_locale(translations, locale);
    let mut missing: Vec<String> = Vec::new();
    let mut b: usize = 0;
    while b < base_keys.len()
        invariant
            b <= base_keys@.len(),
            sv == translations_view(translations@),
            base@ == base_locale@,
            strings_view(base_keys@).no_duplicates(),
            forall|k: Seq<char>|
                #![trigger strings_view(base_keys@).contains(k)]
                strings_view(base_keys@).contains(k) <==> has_record(sv, base@, k),
            strings_view(missing@).no_duplicates(),
            forall|k: Seq<char>|
                #![trigger strings_view(missing@).contains(k)]
                strings_view(missing@).contains(k) <==> (strings_view(base_keys@).subrange(0, b as int).contains(k)
                    && !has_record(sv, locale@, k)),
        decreases base_keys@.len() - b,
    {
        let ghost mv = strings_view(missing@);
        let ghost bk = strings_view(base_keys@);
        let ghost b0 = bk.subrange(0, b as int);
        let ghost b1 = bk.subrange(0, b + 1);
        assert(b1 == b0.push(bk[b as int]));
        if !has_record_exec(translations, locale, &base_keys[b]) {
            missing.push(base_keys[b].clone());
            assert(strings_view(missing@) =~= mv.push(bk[b as int]));
            assert forall|k: Seq<char>|
                #![trigger strings_view(missing@).contains(k)]
                strings_view(missing@).contains(k) <==> (b1.contains(k) && !has_record(sv, locale@, k)) by {
                if strings_view(missing@).contains(k) {
                    let q = choose|q: int| 0 <= q < strings_view(missing@).len() && strings_view(missing@)[q] == k;
                    if q < mv.len() {
                        assert(mv[q] == k);
                        assert(mv.contains(k));
                        let p = choose|p: int| 0 <= p < b && b0[p] == k;
                        assert(b1[p] == k);
                    } else {
                        assert(b1[b as int] == k);
                    }
                }
                if b1.contains(k) && !has_record(sv, locale@, k) {
                    let p = choose|p: int| 0 <= p < b + 1 && b1[p] == k;
                    if p < b {
                        assert(b0[p] == k);
                        assert(b0.contains(k));
                        assert(mv.contains(k));
                        let q = choose|q: int| 0 <= q < mv.len() && mv[q] == k;
                        assert(strings_view(missing@)[q] == k);
                    } else {
                        assert(strings_view(missing@)[mv.len() as int] == k);
                    }
                }
            }
            assert forall|x: int, y: int|
                0 <= x < strings_view(missing@).len() && 0 <= y < strings_view(missing@).len() && x != y
                implies strings_view(missing@)[x] != strings_view(missing@)[y] by {
                if y == mv.len() && x < mv.len() {
                    assert(mv.contains(mv[x]));
                    let p = choose|p: int| 0 <= p < b && b0[p] == mv[x];
                    assert(bk[p] == mv[x]);
                }
                if x == mv.len() && y < mv.len() {
                    assert(mv.contains(mv[y]));
                    let p = choose|p: int| 0 <= p < b && b0[p] == mv[y];
                    assert(bk[p] == mv[y]);
                }
            }
        } else {
            assert forall|k: Seq<char>|
                #![trigger strings_view(missing@).contains(k)]
                strings_view(missing@).contains(k) <==> (b1.contains(k) && !has_record(sv, locale@, k)) by {
                if strings_view(missing@).contains(k) {
                    let p = choose|p: int| 0 <= p < b && b0[p] == k;
                    assert(b1[p] == k);
                }
                if b1.contains(k) && !has_record(sv, locale@, k) {
                    let p = choose|p: int| 0 <= p < b + 1 && b1[p] == k;
                    if p < b {
                        assert(b0[p] == k);
                        assert(b0.contains(k));
                        assert(mv.contains(k));
                    } else {
                        assert(k == bk[b as int]);
                    }
                }
            }
        }
        b = b + 1;
    }
    assert(strings_view(base_keys@).subrange(0, base_keys@.len() as int) == strings_view(base_keys@));
    assert forall|k: Seq<char>|
        #![trigger strings_view(missing@).contains(k)]
        strings_view(missing@).contains(k) <==> is_missing(sv, base_locale@, locale@, k) by {
    }
    let ghost bkv = strings_view(base_keys@);
    let ghost lkv = strings_view(locale_keys@);
    assert(bkv.no_duplicates() && bkv.len() == base_keys.len());
    assert(lkv.no_duplicates() && lkv.len() == locale_keys.len());
    LocaleCoverage {
        total_keys: base_keys.len(),
        translated_keys: locale_keys.len(),
        missing_keys: missing,
    }
}

/// `needle` occurs in `hay`.
pub open spec fn occurs_in(hay: Seq<char>, needle: Seq<char>) -> bool {
    exists|i: int| 0 <= i && i + needle.len() <= hay.len() && #[trigger] hay.subrange(i, i + needle.len()) == needle
}

fn occurs_at(hay: &str, n: usize, needle: &str, m: usize, i: usize) -> (r: bool)
    requires
        n == hay@.len(),
        m == needle@.len(),
        i + m <= n,
    ensures
        r == (hay@.subrange(i as int, i + m) == needle@),
{
    let mut j: usize = 0;
    while j < m
        invariant
            n == hay@.len(),
            m == needle@.len(),
            i + m <= n,
            j <= m,
            forall|q: int| 0 <= q < j ==> hay@[i + q] == needle@[q],
        decreases m - j,
    {
        if hay.get_char(i + j) != needle.get_char(j) {
            assert(hay@.subrange(i as int, i + m)[j as int] != needle@[j as int]);
            return false;
        }
        j = j + 1;
    }
    assert(hay@.subrange(i as int, i + m) =~= needle@);
    true
}

/// Whether `needle` occurs in `hay`.
pub fn contains_text(hay: &str, needle: &str) -> (r: bool)
    ensures
        r == occurs_in(hay@, needle@),
{
    let n = hay.unicode_len();
    let m = needle.unicode_len();
    if m > n {
        return false;
    }
    let last = n - m;
    let mut i: usize = 0;
    while i <= last
        invariant
            n == hay@.len(),
            m == needle@.len(),
            m <= n,
            last == n - m,
            i <= last + 1,
            forall|q: int| 0 <= q < i ==> #[trigger] hay@.subrange(q, q + m) != needle@,
        decreases last + 1 - i,
    {
        if occurs_at(hay, n, needle, m, i) {
            return true;
        }
        if i == last {
            return false;
        }
        i = i + 1;
    }
    false
}

/// The keys that do not occur in `content` (the source text of the project, where a key
/// is used as a string literal or as a dotted access).
pub fn unused_keys(keys: &Vec<String>, content: &str) -> (r: Vec<String>)
    ensures
        strings_view(r@) == strings_view(keys@).filter(|k: Seq<char>| !occurs_in(content@, k)),
{
    let ghost kv = strings_view(keys@);
    let mut out: Vec<String> = Vec::new();
    let mut i: usize = 0;
    while i < keys.len()
        invariant
            i <= keys@.len(),
            kv == strings_view(keys@),
            strings_view(out@) == kv.subrange(0, i as int).filter(|k: Seq<char>| !occurs_in(content@, k)),
        decreases keys@.len() - i,
    {
        let ghost before = strings_view(out@);
        proof {
            assert(kv.subrange(0, i + 1) == kv.subrange(0, i as int).push(kv[i as int]));
            kv.subrange(0, i as int).lemma_filter_push(kv[i as int], |k: Seq<char>| !occurs_in(content@, k));
        }
        assert(kv[i as int] == keys@[i as int]@);
        if !contains_text(content, keys[i].as_str()) {
            out.push(keys[i].clone());
            assert(strings_view(out@) =~= before.push(kv[i as int]));
        }
        i = i + 1;
    }
    assert(kv.subrange(0, kv.len() as int) == kv);
    out
}

} // verus!
