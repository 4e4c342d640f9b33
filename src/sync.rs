//! The decisions of the upload, download and sync workflows.
//!
//! Reading and writing files, calling the cloud and measuring time are left to the caller;
//! the functions here turn the records that were read into what is to be written or sent.
use crate::merge::{
    conflicts_view, strategy_result, Conflict, ModifiedView, Diff, LocalMap, MergeEngine, MergeResult, MergeStrategy, RecordView,
};
use crate::records::{copy_opt, copy_translation, opt_view, Translation, TranslationView, translations_view};
use crate::types::{EntryMetadata, Identifier, LocalizationEntry, Translation as ApiTranslation};
use crate::text::str_eq;
use vstd::prelude::*;
use vstd::string::StringExecFns;

verus! {

broadcast use vstd::seq_lib::group_seq_properties;

/// The records that one cloud entry stands for: the base-locale record built from its
/// source text, then one record per listed translation, all under the entry's context.
pub open spec fn expand_entry(e: LocalizationEntry, base: Seq<char>) -> Seq<TranslationView> {
    seq![(e.identifier.key@, base, e.identifier.source@, opt_view(e.identifier.context))]
        + e.translations@.map_values(
        |t: ApiTranslation|
            (e.identifier.key@, t.locale@, t.translation_text@, opt_view(e.identifier.context)),
    )
}

pub open spec fn expand_entries(es: Seq<LocalizationEntry>, base: Seq<char>) -> Seq<
    TranslationView,
>
    decreases es.len(),
{
    if es.len() == 0 {
        Seq::empty()
    } else {
        expand_entries(es.drop_last(), base) + expand_entry(es.last(), base)
    }
}

/// `(k, l, v)` is the last record of `s` for the pair `(k, l)`.
pub open spec fn last_wins(s: Seq<TranslationView>, r: RecordView) -> bool {
    exists|i: int|
        0 <= i < s.len() && #[trigger] s[i].0 == r.0 && s[i].1 == r.1 && s[i].2 == r.2 && forall|
            j: int,
        |
            i < j < s.len() ==> !(#[trigger] s[j].0 == r.0 && s[j].1 == r.1)
}

/// The key (`by_locale` false) or the locale of a record.
pub open spec fn field(t: TranslationView, by_locale: bool) -> Seq<char> {
    if by_locale {
        t.1
    } else {
        t.0
    }
}

pub open spec fn field_is(by_locale: bool, f: Seq<char>) -> spec_fn(TranslationView) -> bool {
    |t: TranslationView| field(t, by_locale) == f
}

/// `groups` splits `s` by key or by locale: one group per distinct value, in order of first
/// appearance, each holding the records of `s` with that value in their order.
pub open spec fn is_grouping(
    s: Seq<TranslationView>,
    by_locale: bool,
    groups: Seq<(Seq<char>, Seq<TranslationView>)>,
) -> bool {
    &&& forall|g: int|
        0 <= g < groups.len() ==> (#[trigger] groups[g]).1 == s.filter(field_is(by_locale, groups[g].0))
    &&& forall|g: int, h: int|
        0 <= g < groups.len() && 0 <= h < groups.len() && g != h ==> (#[trigger] groups[g]).0
            != (#[trigger] groups[h]).0
    &&& forall|i: int| 0 <= i < s.len() ==> has_group(groups, field(#[trigger] s[i], by_locale))
    &&& forall|g: int| 0 <= g < groups.len() ==> (#[trigger] groups[g]).1.len() > 0
}

/// Some group of `groups` is labelled `f`.
pub open spec fn has_group(groups: Seq<(Seq<char>, Seq<TranslationView>)>, f: Seq<char>) -> bool {
    exists|g: int| 0 <= g < groups.len() && (#[trigger] groups[g]).0 == f
}

pub open spec fn groups_view(v: Seq<(String, Vec<Translation>)>) -> Seq<
    (Seq<char>, Seq<TranslationView>),
> {
    v.map_values(|p: (String, Vec<Translation>)| (p.0@, translations_view(p.1@)))
}

fn select_field(t: &Translation, by_locale: bool) -> (r: &String)
    ensures
        r@ == field(t@, by_locale),
{
    if by_locale {
        &t.locale
    } else {
        &t.key
    }
}

/// Splits the records by key or by locale, in order of first appearance.
fn group_by_field(s: &Vec<Translation>, by_locale: bool) -> (groups: Vec<(String, Vec<Translation>)>)
    ensures
        is_grouping(translations_view(s@), by_locale, groups_view(groups@)),
{
    let ghost sv = translations_view(s@);
    let mut groups: Vec<(String, Vec<Translation>)> = Vec::new();
    let mut i: usize = 0;
    while i < s.len()
        invariant
            i <= s@.len(),
            sv == translations_view(s@),
            is_grouping(sv.subrange(0, i as int), by_locale, groups_view(groups@)),
        decreases s@.len() - i,
    {
        let t = &s[i];
        let f = select_field(t, by_locale);
        let ghost pre = sv.subrange(0, i as int);
        let ghost x = sv[i as int];
        let ghost old_g = groups_view(groups@);
        assert(sv.subrange(0, i + 1) == pre.push(x));
        let found = find_group(&groups, f);
        if found.is_some() {
            let g = found.unwrap();
            assert(old_g[g as int].0 == field(x, by_locale));
            groups[g].1.push(copy_translation(t));
            proof {
                let new_g = groups_view(groups@);
                assert forall|h: int| 0 <= h < new_g.len() implies (#[trigger] new_g[h]).1
                    == sv.subrange(0, i + 1).filter(field_is(by_locale, new_g[h].0)) by {
                    pre.lemma_filter_push(x, field_is(by_locale, new_g[h].0));
                    if h == g {
                        assert(translations_view(groups@[h].1@) == old_g[h].1.push(x));
                    } else {
                        assert(new_g[h] == old_g[h]);
                    }
                }
                assert forall|h: int, k: int|
                    0 <= h < new_g.len() && 0 <= k < new_g.len() && h != k implies (
                    #[trigger] new_g[h]).0 != (#[trigger] new_g[k]).0 by {
                    assert(new_g[h].0 == old_g[h].0 && new_g[k].0 == old_g[k].0);
                }
                assert forall|j: int| 0 <= j < i + 1 implies has_group(
                    new_g,
                    field(#[trigger] sv.subrange(0, i + 1)[j], by_locale),
                ) by {
                    if j < i {
                        assert(sv.subrange(0, i + 1)[j] == pre[j]);
                        assert(has_group(old_g, field(pre[j], by_locale)));
                        let h = choose|h: int|
                            0 <= h < old_g.len() && (#[trigger] old_g[h]).0 == field(
                                pre[j],
                                by_locale,
                            );
                        assert(new_g[h].0 == old_g[h].0);
                    } else {
                        assert(sv.subrange(0, i + 1)[j] == x);
                        assert(new_g[g as int].0 == old_g[g as int].0);
                    }
                }
                assert forall|h: int| 0 <= h < new_g.len() implies (#[trigger] new_g[h]).1.len()
                    > 0 by {
                    assert(old_g[h].1.len() > 0);
                    if h == g {
                        assert(translations_view(groups@[h].1@) == old_g[h].1.push(x));
                    } else {
                        assert(new_g[h] == old_g[h]);
                    }
                }
                assert(is_grouping(sv.subrange(0, i + 1), by_locale, new_g));
            }
        } else {
            let mut group: Vec<Translation> = Vec::new();
            group.push(copy_translation(t));
            assert(translations_view(group@) =~= seq![x]);
            groups.push((f.clone(), group));
            proof {
                let new_g = groups_view(groups@);
                assert(new_g =~= old_g.push((field(x, by_locale), seq![x])));
                assert forall|h: int| 0 <= h < new_g.len() implies (#[trigger] new_g[h]).1
                    == sv.subrange(0, i + 1).filter(field_is(by_locale, new_g[h].0)) by {
                    pre.lemma_filter_push(x, field_is(by_locale, new_g[h].0));
                    if h == old_g.len() {
                        assert forall|j: int| 0 <= j < pre.len() implies !field_is(
                            by_locale,
                            new_g[h].0,
                        )(#[trigger] pre[j]) by {
                            assert(has_group(old_g, field(pre[j], by_locale)));
                            let q = choose|q: int|
                                0 <= q < old_g.len() && (#[trigger] old_g[q]).0 == field(
                                    pre[j],
                                    by_locale,
                                );
                            assert(old_g[q].0 != f@);
                        }
                        lemma_filter_none(pre, field_is(by_locale, new_g[h].0));
                        assert(seq![x] == Seq::<TranslationView>::empty().push(x));
                    } else {
                        assert(new_g[h] == old_g[h]);
                        assert(old_g[h].0 != f@);
                    }
                }
                let s1 = sv.subrange(0, i + 1);
                assert forall|j: int| 0 <= j < s1.len() implies has_group(
                    new_g,
                    field(#[trigger] s1[j], by_locale),
                ) by {
                    if j < i {
                        assert(s1[j] == pre[j]);
                        assert(has_group(old_g, field(pre[j], by_locale)));
                        let h = choose|h: int|
                            0 <= h < old_g.len() && (#[trigger] old_g[h]).0 == field(
                                pre[j],
                                by_locale,
                            );
                        assert(new_g[h].0 == old_g[h].0);
                        assert(new_g[h].0 == field(s1[j], by_locale));
                    } else {
                        assert(s1[j] == x);
                        assert(new_g[old_g.len() as int].0 == field(s1[j], by_locale));
                    }
                }
                assert forall|h: int, k: int|
                    0 <= h < new_g.len() && 0 <= k < new_g.len() && h != k implies (
                    #[trigger] new_g[h]).0 != (#[trigger] new_g[k]).0 by {
                    if h == old_g.len() {
                        assert(old_g[k].0 != f@);
                    } else if k == old_g.len() {
                        assert(old_g[h].0 != f@);
                    } else {
                        assert(new_g[h].0 == old_g[h].0 && new_g[k].0 == old_g[k].0);
                    }
                }
                assert forall|h: int| 0 <= h < new_g.len() implies (#[trigger] new_g[h]).1.len()
                    > 0 by {
                    if h < old_g.len() {
                        assert(new_g[h] == old_g[h]);
                    }
                }
                assert(is_grouping(sv.subrange(0, i + 1), by_locale, new_g));
            }
        }
        i = i + 1;
    }
    assert(sv.subrange(0, s@.len() as int) == sv);
    groups
}

fn find_group(groups: &Vec<(String, Vec<Translation>)>, f: &String) -> (r: Option<usize>)
    ensures
        match r {
            Some(g) => g < groups@.len() && groups_view(groups@)[g as int].0 == f@,
            None => forall|h: int|
                0 <= h < groups@.len() ==> (#[trigger] groups_view(groups@)[h]).0 != f@,
        },
{
    let mut g: usize = 0;
    while g < groups.len()
        invariant
            g <= groups@.len(),
            forall|h: int| 0 <= h < g ==> (#[trigger] groups_view(groups@)[h]).0 != f@,
        decreases groups@.len() - g,
    {
        if groups[g].0 == *f {
            return Some(g);
        }
        g = g + 1;
    }
    None
}

proof fn lemma_filter_none(s: Seq<TranslationView>, p: spec_fn(TranslationView) -> bool)
    requires
        forall|j: int| 0 <= j < s.len() ==> !p(#[trigger] s[j]),
    ensures
        s.filter(p) == Seq::<TranslationView>::empty(),
    decreases s.len(),
{
    reveal(Seq::filter);
    if s.len() > 0 {
        assert forall|j: int| 0 <= j < s.drop_last().len() implies !p(
            #[trigger] s.drop_last()[j],
        ) by {
            assert(s.drop_last()[j] == s[j]);
        }
        lemma_filter_none(s.drop_last(), p);
    }
}

/// Groups records by locale, locales in order of first appearance.
pub fn group_by_locale(s: &Vec<Translation>) -> (groups: Vec<(String, Vec<Translation>)>)
    ensures
        is_grouping(translations_view(s@), true, groups_view(groups@)),
{
    group_by_field(s, true)
}

/// Groups records by key, keys in order of first appearance.
pub fn group_by_key(s: &Vec<Translation>) -> (groups: Vec<(String, Vec<Translation>)>)
    ensures
        is_grouping(translations_view(s@), false, groups_view(groups@)),
{
    group_by_field(s, false)
}

/// Expands cloud entries back into flat records, the base-locale record of each entry first.
pub fn entries_to_translations(entries: &Vec<LocalizationEntry>, base_locale: &String) -> (r: Vec<
    Translation,
>)
    ensures
        translations_view(r@) == expand_entries(entries@, base_locale@),
{
    let mut out: Vec<Translation> = Vec::new();
    let mut i: usize = 0;
    while i < entries.len()
        invariant
            i <= entries@.len(),
            translations_view(out@) == expand_entries(entries@.subrange(0, i as int), base_locale@),
        decreases entries@.len() - i,
    {
        let e = &entries[i];
        let ghost start = translations_view(out@);
        let ghost ctx = opt_view(e.identifier.context);
        let ghost key = e.identifier.key@;
        out.push(
            Translation {
                key: e.identifier.key.clone(),
                locale: base_locale.clone(),
                value: e.identifier.source.clone(),
                context: copy_opt(&e.identifier.context),
            },
        );
        let ghost head: Seq<TranslationView> = seq![(key, base_locale@, e.identifier.source@, ctx)];
        assert(translations_view(out@) =~= start + head);
        let mut j: usize = 0;
        while j < e.translations.len()
            invariant
                j <= e.translations@.len(),
                e == entries@[i as int],
                ctx == opt_view(e.identifier.context),
                key == e.identifier.key@,
                translations_view(out@) == start + head + e.translations@.subrange(
                    0,
                    j as int,
                ).map_values(|t: ApiTranslation| (key, t.locale@, t.translation_text@, ctx)),
            decreases e.translations@.len() - j,
        {
            let t = &e.translations[j];
            let ghost before = translations_view(out@);
            out.push(
                Translation {
                    key: e.identifier.key.clone(),
                    locale: t.locale.clone(),
                    value: t.translation_text.clone(),
                    context: copy_opt(&e.identifier.context),
                },
            );
            assert(translations_view(out@) =~= before.push((key, t.locale@, t.translation_text@, ctx)));
            assert(e.translations@.subrange(0, j + 1).map_values(
                |t: ApiTranslation| (key, t.locale@, t.translation_text@, ctx),
            ) =~= e.translations@.subrange(0, j as int).map_values(
                |t: ApiTranslation| (key, t.locale@, t.translation_text@, ctx),
            ).push((key, t.locale@, t.translation_text@, ctx)));
            j = j + 1;
        }
        assert(e.translations@.subrange(0, e.translations@.len() as int) == e.translations@);
        assert(entries@.subrange(0, i + 1).drop_last() == entries@.subrange(0, i as int));
        assert(translations_view(out@) =~= expand_entries(entries@.subrange(0, i + 1), base_locale@));
        i = i + 1;
    }
    assert(entries@.subrange(0, entries@.len() as int) == entries@);
    out
}

/// Reduces records to a map from `(key, locale)` to value; a later record for a pair
/// replaces an earlier one.
pub fn translations_to_map(s: &Vec<Translation>) -> (m: LocalMap)
    ensures
        m.wf(),
        forall|r: RecordView|
            #![trigger m@.contains(r)]
            m@.contains(r) <==> last_wins(translations_view(s@), r),
{
    let ghost sv = translations_view(s@);
    let mut m = LocalMap::new();
    let mut i: usize = 0;
    while i < s.len()
        invariant
            i <= s@.len(),
            sv == translations_view(s@),
            m.wf(),
            forall|r: RecordView|
                #![trigger m@.contains(r)]
                m@.contains(r) <==> last_wins(sv.subrange(0, i as int), r),
        decreases s@.len() - i,
    {
        let t = &s[i];
        let ghost pre = sv.subrange(0, i as int);
        let ghost nxt = sv.subrange(0, i + 1);
        let ghost x = sv[i as int];
        assert(nxt == pre.push(x));
        m.insert(t.key.clone(), t.locale.clone(), t.value.clone());
        assert forall|r: RecordView|
            #![trigger m@.contains(r)]
            m@.contains(r) <==> last_wins(nxt, r) by {
            if last_wins(nxt, r) {
                let w = choose|w: int|
                    0 <= w < nxt.len() && #[trigger] nxt[w].0 == r.0 && nxt[w].1 == r.1 && nxt[w].2
                        == r.2 && forall|j: int|
                        w < j < nxt.len() ==> !(#[trigger] nxt[j].0 == r.0 && nxt[j].1 == r.1);
                if w < i {
                    assert(!(nxt[i as int].0 == r.0 && nxt[i as int].1 == r.1));
                    assert(pre[w] == nxt[w]);
                    assert forall|j: int| w < j < pre.len() implies !(#[trigger] pre[j].0 == r.0
                        && pre[j].1 == r.1) by {
                        assert(pre[j] == nxt[j]);
                    }
                    assert(last_wins(pre, r));
                } else {
                    assert(r == (x.0, x.1, x.2));
                }
            }
            if m@.contains(r) {
                if r == (x.0, x.1, x.2) {
                    assert(nxt[i as int].0 == r.0);
                    assert(last_wins(nxt, r));
                } else {
                    assert(last_wins(pre, r));
                    let w = choose|w: int|
                        0 <= w < pre.len() && #[trigger] pre[w].0 == r.0 && pre[w].1 == r.1
                            && pre[w].2 == r.2 && forall|j: int|
                            w < j < pre.len() ==> !(#[trigger] pre[j].0 == r.0 && pre[j].1 == r.1);
                    assert(nxt[w] == pre[w]);
                    assert forall|j: int| w < j < nxt.len() implies !(#[trigger] nxt[j].0 == r.0
                        && nxt[j].1 == r.1) by {
                        if j < i {
                            assert(pre[j] == nxt[j]);
                        }
                    }
                }
            }
        }
        i = i + 1;
    }
    assert(sv.subrange(0, s@.len() as int) == sv);
    m
}

/// `a` and `b` agree before position `i`, where `a` ends first or has the lower code point.
pub open spec fn differs_lower_at(a: Seq<char>, b: Seq<char>, i: int) -> bool {
    &&& 0 <= i <= a.len()
    &&& i <= b.len()
    &&& forall|j: int| 0 <= j < i ==> #[trigger] a[j] == b[j]
    &&& (i == a.len() && i < b.len()) || (i < a.len() && i < b.len() && (a[i] as u32) < (b[i] as u32))
}

/// `a` comes before `b` in lexicographic order of code points.
pub open spec fn seq_lt(a: Seq<char>, b: Seq<char>) -> bool {
    exists|i: int| #[trigger] differs_lower_at(a, b, i)
}

/// Whether `a` sorts before `b` by code points.
pub fn str_less(a: &String, b: &String) -> (r: bool)
    ensures
        r == seq_lt(a@, b@),
{
    let la = a.as_str().unicode_len();
    let lb = b.as_str().unicode_len();
    let mut i: usize = 0;
    while i < la && i < lb
        invariant
            la == a@.len(),
            lb == b@.len(),
            i <= la,
            i <= lb,
            forall|j: int| 0 <= j < i ==> #[trigger] a@[j] == b@[j],
        decreases la - i,
    {
        let ca = a.as_str().get_char(i);
        let cb = b.as_str().get_char(i);
        if ca != cb {
            let r = (ca as u32) < (cb as u32);
            proof {
                if r {
                    assert(differs_lower_at(a@, b@, i as int));
                } else {
                    assert forall|k: int| !#[trigger] differs_lower_at(a@, b@, k) by {
                        if k > i && differs_lower_at(a@, b@, k) {
                            assert(a@[i as int] == b@[i as int]);
                        }
                    }
                }
            }
            return r;
        }
        i = i + 1;
    }
    let r = i == la && i < lb;
    proof {
        if r {
            assert(differs_lower_at(a@, b@, i as int));
        } else {
            assert forall|k: int| !#[trigger] differs_lower_at(a@, b@, k) by {
            }
        }
    }
    r
}

/// Index of the first record of `s` in locale `base`, or -1.
pub open spec fn base_index(s: Seq<TranslationView>, base: Seq<char>) -> int
    decreases s.len(),
{
    if s.len() == 0 {
        -1
    } else {
        let j = base_index(s.drop_last(), base);
        if j >= 0 {
            j
        } else if s.last().1 == base {
            s.len() - 1
        } else {
            -1
        }
    }
}

/// Index of the first record of `s` whose locale sorts lowest.
pub open spec fn min_locale_index(s: Seq<TranslationView>) -> int
    decreases s.len(),
{
    if s.len() <= 1 {
        0
    } else {
        let j = min_locale_index(s.drop_last());
        if seq_lt(s.last().1, s[j].1) {
            s.len() - 1
        } else {
            j
        }
    }
}

/// The source text of a key's records: the base-locale value, else the value of the
/// lowest-sorting locale.
pub open spec fn source_of(s: Seq<TranslationView>, base: Seq<char>) -> Seq<char> {
    if base_index(s, base) >= 0 {
        s[base_index(s, base)].2
    } else {
        s[min_locale_index(s)].2
    }
}

proof fn lemma_base_index_bounds(s: Seq<TranslationView>, base: Seq<char>)
    ensures
        -1 <= base_index(s, base) < s.len(),
        base_index(s, base) >= 0 ==> s[base_index(s, base)].1 == base,
    decreases s.len(),
{
    if s.len() > 0 {
        lemma_base_index_bounds(s.drop_last(), base);
    }
}

/// The source text for one key's records (see [`source_of`]).
fn pick_source(group: &Vec<Translation>, base_locale: &String) -> (r: String)
    requires
        group@.len() > 0,
    ensures
        r@ == source_of(translations_view(group@), base_locale@),
{
    let ghost gv = translations_view(group@);
    let mut base_at: Option<usize> = None;
    let mut min_at: usize = 0;
    let mut i: usize = 1;
    if group[0].locale == *base_locale {
        base_at = Some(0);
    }
    assert(gv.subrange(0, 1).drop_last() =~= Seq::<TranslationView>::empty());
    assert(gv.subrange(0, 1).last() == gv[0]);
    assert(base_index(Seq::<TranslationView>::empty(), base_locale@) == -1);
    while i < group.len()
        invariant
            1 <= i <= group@.len(),
            gv == translations_view(group@),
            min_at < i,
            min_at as int == min_locale_index(gv.subrange(0, i as int)),
            match base_at {
                Some(b) => b < i && b as int == base_index(gv.subrange(0, i as int), base_locale@),
                None => base_index(gv.subrange(0, i as int), base_locale@) == -1,
            },
        decreases group@.len() - i,
    {
        let ghost pre = gv.subrange(0, i as int);
        let ghost nxt = gv.subrange(0, i + 1);
        assert(nxt.drop_last() == pre);
        assert(nxt.last() == gv[i as int]);
        assert(nxt[min_at as int] == gv[min_at as int]);
        if str_less(&group[i].locale, &group[min_at].locale) {
            min_at = i;
        }
        if base_at.is_none() && group[i].locale == *base_locale {
            base_at = Some(i);
        }
        i = i + 1;
    }
    assert(gv.subrange(0, group@.len() as int) == gv);
    proof {
        lemma_base_index_bounds(gv, base_locale@);
    }
    match base_at {
        Some(b) => group[b].value.clone(),
        None => group[min_at].value.clone(),
    }
}

/// `e` is the cloud entry for key `key`, whose records are `grp`.
pub open spec fn entry_of_group(
    e: LocalizationEntry,
    key: Seq<char>,
    grp: Seq<TranslationView>,
    base: Seq<char>,
) -> bool {
    &&& e.identifier.key@ == key
    &&& opt_view(e.identifier.context) == grp[0].3
    &&& e.identifier.source@ == source_of(grp, base)
    &&& e.metadata is Some
    &&& e.metadata->Some_0.example is None
    &&& opt_view(e.metadata->Some_0.entry_type) == Some("manual"@)
    &&& e.translations@.map_values(|t: ApiTranslation| (t.locale@, t.translation_text@))
        == other_locale_pairs(grp, base)
}

/// `(locale, value)` of the records of `grp` in locales other than `base`, in order: the
/// base locale is carried by the entry's source text and not repeated.
pub open spec fn other_locale_pairs(grp: Seq<TranslationView>, base: Seq<char>) -> Seq<
    (Seq<char>, Seq<char>),
>
    decreases grp.len(),
{
    if grp.len() == 0 {
        Seq::empty()
    } else if grp.last().1 == base {
        other_locale_pairs(grp.drop_last(), base)
    } else {
        other_locale_pairs(grp.drop_last(), base).push((grp.last().1, grp.last().2))
    }
}

/// The cloud entries for `s`: one per key, in order of first appearance.
pub open spec fn is_entries_of(
    entries: Seq<LocalizationEntry>,
    s: Seq<TranslationView>,
    base: Seq<char>,
) -> bool {
    &&& forall|i: int|
        0 <= i < entries.len() ==> {
            let k = (#[trigger] entries[i]).identifier.key@;
            &&& s.filter(field_is(false, k)).len() > 0
            &&& entry_of_group(entries[i], k, s.filter(field_is(false, k)), base)
        }
    &&& forall|i: int, j: int|
        0 <= i < entries.len() && 0 <= j < entries.len() && i != j ==> (
        #[trigger] entries[i]).identifier.key@ != (#[trigger] entries[j]).identifier.key@
    &&& forall|j: int| 0 <= j < s.len() ==> has_entry(entries, (#[trigger] s[j]).0)
}

pub open spec fn has_entry(entries: Seq<LocalizationEntry>, k: Seq<char>) -> bool {
    exists|i: int| 0 <= i < entries.len() && (#[trigger] entries[i]).identifier.key@ == k
}

fn make_entry(key: &String, group: &Vec<Translation>, base_locale: &String) -> (e: LocalizationEntry)
    requires
        group@.len() > 0,
    ensures
        entry_of_group(e, key@, translations_view(group@), base_locale@),
{
    let source = pick_source(group, base_locale);
    let mut translations: Vec<ApiTranslation> = Vec::new();
    let ghost gv = translations_view(group@);
    let mut i: usize = 0;
    while i < group.len()
        invariant
            i <= group@.len(),
            gv == translations_view(group@),
            translations@.map_values(|t: ApiTranslation| (t.locale@, t.translation_text@))
                == other_locale_pairs(gv.subrange(0, i as int), base_locale@),
        decreases group@.len() - i,
    {
        let ghost before = translations@;
        assert(gv.subrange(0, i + 1).drop_last() == gv.subrange(0, i as int));
        assert(gv[i as int] == group@[i as int]@);
        if !str_eq(group[i].locale.as_str(), base_locale.as_str()) {
            translations.push(
                ApiTranslation {
                    locale: group[i].locale.clone(),
                    translation_text: group[i].value.clone(),
                },
            );
            assert(translations@.map_values(|t: ApiTranslation| (t.locale@, t.translation_text@))
                =~= before.map_values(|t: ApiTranslation| (t.locale@, t.translation_text@)).push(
                (gv[i as int].1, gv[i as int].2),
            ));
        }
        i = i + 1;
    }
    assert(gv.subrange(0, group@.len() as int) == gv);
    let manual = String::from_str("manual");
    proof {
        reveal_strlit("manual");
    }
    LocalizationEntry {
        identifier: Identifier {
            key: key.clone(),
            context: copy_opt(&group[0].context),
            source,
        },
        metadata: Some(EntryMetadata { example: None, entry_type: Some(manual) }),
        translations,
    }
}

/// Groups records by key into cloud entries. The source text of an entry is the value of
/// the base locale, else that of the lowest-sorting locale; its context is that of the key's
/// first record.
pub fn translations_to_entries(s: &Vec<Translation>, base_locale: &String) -> (r: Vec<
    LocalizationEntry,
>)
    ensures
        is_entries_of(r@, translations_view(s@), base_locale@),
{
    let groups = group_by_key(s);
    let ghost sv = translations_view(s@);
    let ghost gv = groups_view(groups@);
    let mut out: Vec<LocalizationEntry> = Vec::new();
    let mut i: usize = 0;
    while i < groups.len()
        invariant
            i <= groups@.len(),
            gv == groups_view(groups@),
            is_grouping(sv, false, gv),
            out@.len() == i,
            forall|j: int|
                0 <= j < i ==> (#[trigger] out@[j]).identifier.key@ == gv[j].0 && entry_of_group(
                    out@[j],
                    gv[j].0,
                    gv[j].1,
                    base_locale@,
                ),
        decreases groups@.len() - i,
    {
        assert(gv[i as int].1.len() > 0);
        let e = make_entry(&groups[i].0, &groups[i].1, base_locale);
        out.push(e);
        i = i + 1;
    }
    proof {
        assert forall|i: int| 0 <= i < out@.len() implies {
            let k = (#[trigger] out@[i]).identifier.key@;
            &&& sv.filter(field_is(false, k)).len() > 0
            &&& entry_of_group(out@[i], k, sv.filter(field_is(false, k)), base_locale@)
        } by {
            assert(gv[i].1.len() > 0);
        }
        assert forall|i: int, j: int|
            0 <= i < out@.len() && 0 <= j < out@.len() && i != j implies (
            #[trigger] out@[i]).identifier.key@ != (#[trigger] out@[j]).identifier.key@ by {
            assert(gv[i].0 != gv[j].0);
        }
        assert forall|j: int| 0 <= j < sv.len() implies has_entry(out@, (#[trigger] sv[j]).0) by {
            assert(field(sv[j], false) == sv[j].0);
            assert(has_group(gv, field(sv[j], false)));
            let g = choose|g: int| 0 <= g < gv.len() && (#[trigger] gv[g]).0 == field(sv[j], false);
            assert(out@[g].identifier.key@ == sv[j].0);
        }
    }
    out
}

/// The distinct locales of `s`.
pub open spec fn locale_set(s: Seq<TranslationView>) -> Set<Seq<char>> {
    s.map_values(|t: TranslationView| t.1).to_set()
}

/// A grouping by locale has one group per distinct locale.
proof fn lemma_grouping_count(s: Seq<TranslationView>, groups: Seq<(Seq<char>, Seq<TranslationView>)>)
    requires
        is_grouping(s, true, groups),
    ensures
        groups.len() == locale_set(s).len(),
{
    let labels = groups.map_values(|g: (Seq<char>, Seq<TranslationView>)| g.0);
    assert forall|a: int, b: int| 0 <= a < labels.len() && 0 <= b < labels.len() && a != b implies labels[a] != labels[b] by {
        assert(groups[a].0 != groups[b].0);
    }
    labels.unique_seq_to_set();
    let locs = s.map_values(|t: TranslationView| t.1);
    assert forall|x: Seq<char>| labels.to_set().contains(x) <==> locs.to_set().contains(x) by {
        if labels.to_set().contains(x) {
            let g = choose|g: int| 0 <= g < labels.len() && labels[g] == x;
            let f = s.filter(field_is(true, x));
            assert(groups[g].1 == f);
            assert(f.len() > 0);
            s.lemma_filter_pred(field_is(true, x), 0);
            assert(f.contains(f[0]));
            s.lemma_filter_contains_rev(field_is(true, x), f[0]);
            let i = choose|i: int| 0 <= i < s.len() && s[i] == f[0];
            assert(locs[i] == x);
            assert(locs.contains(x));
        }
        if locs.to_set().contains(x) {
            let i = choose|i: int| 0 <= i < locs.len() && locs[i] == x;
            assert(field(s[i], true) == x);
            assert(has_group(groups, field(s[i], true)));
            let g = choose|g: int| 0 <= g < groups.len() && (#[trigger] groups[g]).0 == x;
            assert(labels[g] == x);
            assert(labels.contains(x));
        }
    }
    assert(labels.to_set() =~= locs.to_set());
}

/// What an upload sends and reports.
pub struct UploadPlan {
    /// The entries to push to the cloud.
    pub entries: Vec<LocalizationEntry>,
    /// The number of records read.
    pub entries_uploaded: usize,
    /// The number of distinct locales among them.
    pub locales_processed: usize,
}

/// Plans an upload of the local records.
pub fn plan_upload(records: &Vec<Translation>, base_locale: &String) -> (p: UploadPlan)
    ensures
        is_entries_of(p.entries@, translations_view(records@), base_locale@),
        p.entries_uploaded == records@.len(),
        p.locales_processed == locale_set(translations_view(records@)).len(),
{
    let entries = translations_to_entries(records, base_locale);
    let locales = group_by_locale(records);
    proof {
        lemma_grouping_count(translations_view(records@), groups_view(locales@));
    }
    UploadPlan { entries, entries_uploaded: records.len(), locales_processed: locales.len() }
}

/// What a download writes and reports.
pub struct DownloadPlan {
    /// The records of each locale, locales in order of first appearance.
    pub by_locale: Vec<(String, Vec<Translation>)>,
    /// The number of cloud entries fetched.
    pub entries_downloaded: usize,
}

/// Plans a download: expands the fetched entries and groups the records by locale.
pub fn plan_download(entries: &Vec<LocalizationEntry>, base_locale: &String) -> (p: DownloadPlan)
    ensures
        is_grouping(expand_entries(entries@, base_locale@), true, groups_view(p.by_locale@)),
        p.entries_downloaded == entries@.len(),
{
    let records = entries_to_translations(entries, base_locale);
    let by_locale = group_by_locale(&records);
    DownloadPlan { by_locale, entries_downloaded: entries.len() }
}

/// Counts the locale files of a download: `(created, updated)`, where `existed[i]` tells
/// whether the file of the `i`-th locale was there before.
pub fn tally_locales(existed: &Vec<bool>) -> (r: (usize, usize))
    ensures
        r.0 == existed@.filter(|b: bool| !b).len(),
        r.1 == existed@.filter(|b: bool| b).len(),
        r.0 + r.1 == existed@.len(),
{
    let mut created: usize = 0;
    let mut updated: usize = 0;
    let mut i: usize = 0;
    while i < existed.len()
        invariant
            i <= existed@.len(),
            created == existed@.subrange(0, i as int).filter(|b: bool| !b).len(),
            updated == existed@.subrange(0, i as int).filter(|b: bool| b).len(),
            created + updated == i,
        decreases existed@.len() - i,
    {
        proof {
            let pre = existed@.subrange(0, i as int);
            assert(existed@.subrange(0, i + 1) == pre.push(existed@[i as int]));
            pre.lemma_filter_push(existed@[i as int], |b: bool| !b);
            pre.lemma_filter_push(existed@[i as int], |b: bool| b);
        }
        if existed[i] {
            updated = updated + 1;
        } else {
            created = created + 1;
        }
        i = i + 1;
    }
    assert(existed@.subrange(0, existed@.len() as int) == existed@);
    (created, updated)
}

pub open spec fn as_records(v: Seq<(String, String, String)>) -> Seq<TranslationView> {
    v.map_values(|t: (String, String, String)| (t.0@, t.1@, t.2@, None::<Seq<char>>))
}

/// Turns `(key, locale, value)` triples into records without context.
fn triples_to_translations(v: &Vec<(String, String, String)>) -> (r: Vec<Translation>)
    ensures
        translations_view(r@) == as_records(v@),
{
    let mut r: Vec<Translation> = Vec::new();
    let mut i: usize = 0;
    while i < v.len()
        invariant
            i <= v@.len(),
            r@.len() == i,
            translations_view(r@) == as_records(v@.subrange(0, i as int)),
        decreases v@.len() - i,
    {
        let ghost before = translations_view(r@);
        r.push(
            Translation {
                key: v[i].0.clone(),
                locale: v[i].1.clone(),
                value: v[i].2.clone(),
                context: None,
            },
        );
        let ghost item: TranslationView = (v@[i as int].0@, v@[i as int].1@, v@[i as int].2@, None);
        assert(r@[i as int]@ == item);
        assert(translations_view(r@) =~= before.push(item));
        assert(as_records(v@.subrange(0, i + 1)) =~= as_records(v@.subrange(0, i as int)).push(item));
        i = i + 1;
    }
    assert(v@.subrange(0, v@.len() as int) == v@);
    r
}

/// What a sync sends, writes and reports, with the maps and the diff it was computed from.
pub struct SyncPlan {
    /// The local records reduced to a map.
    pub local_map: LocalMap,
    /// The cloud entries expanded and reduced to a map.
    pub cloud_map: LocalMap,
    /// The diff of the two maps.
    pub diff: Diff,
    /// The outcome of the merge strategy.
    pub result: MergeResult,
    /// The entries to push to the cloud.
    pub upload_entries: Vec<LocalizationEntry>,
    /// The records to write, by locale.
    pub downloads: Vec<(String, Vec<Translation>)>,
    /// The number of records to upload.
    pub entries_added: usize,
    /// The number of records to download.
    pub entries_updated: usize,
    /// Reserved; always zero.
    pub entries_deleted: usize,
    /// The number of conflicts set aside.
    pub conflicts_skipped: usize,
}

/// Plans a bidirectional sync of local records with the fetched cloud entries.
pub fn plan_sync(
    local: &Vec<Translation>,
    cloud_entries: &Vec<LocalizationEntry>,
    base_locale: &String,
    strategy: MergeStrategy,
) -> (p: SyncPlan)
    ensures
        p.local_map.wf(),
        p.cloud_map.wf(),
        forall|r: RecordView|
            #![trigger p.local_map@.contains(r)]
            p.local_map@.contains(r) <==> last_wins(translations_view(local@), r),
        forall|r: RecordView|
            #![trigger p.cloud_map@.contains(r)]
            p.cloud_map@.contains(r) <==> last_wins(expand_entries(cloud_entries@, base_locale@), r),
        p.diff.is_diff_of(p.local_map@, p.cloud_map@),
        p.result@ == strategy_result(p.diff, strategy, p.local_map@),
        is_entries_of(p.upload_entries@, as_records(p.result.to_upload@), base_locale@),
        is_grouping(as_records(p.result.to_download@), true, groups_view(p.downloads@)),
        p.entries_added == p.result.to_upload@.len(),
        p.entries_updated == p.result.to_download@.len(),
        p.entries_deleted == 0,
        p.conflicts_skipped == p.result.conflicts@.len(),
{
    let local_map = translations_to_map(local);
    let cloud_records = entries_to_translations(cloud_entries, base_locale);
    let cloud_map = translations_to_map(&cloud_records);
    let diff = MergeEngine::compute_diff(&local_map, &cloud_map);
    let result = MergeEngine::apply_strategy(&diff, strategy, &local_map);
    let uploads = triples_to_translations(&result.to_upload);
    let upload_entries = translations_to_entries(&uploads, base_locale);
    let download_records = triples_to_translations(&result.to_download);
    let downloads = group_by_locale(&download_records);
    let entries_added = result.to_upload.len();
    let entries_updated = result.to_download.len();
    let conflicts_skipped = result.conflicts.len();
    SyncPlan {
        local_map,
        cloud_map,
        diff,
        result,
        upload_entries,
        downloads,
        entries_added,
        entries_updated,
        entries_deleted: 0,
        conflicts_skipped,
    }
}

/// The locales of `cs`, each once, in order of first appearance.
pub open spec fn distinct_locales(cs: Seq<ModifiedView>) -> Seq<Seq<char>>
    decreases cs.len(),
{
    if cs.len() == 0 {
        Seq::empty()
    } else {
        let d = distinct_locales(cs.drop_last());
        if d.contains(cs.last().1) {
            d
        } else {
            d.push(cs.last().1)
        }
    }
}

/// The lines of one conflict: its key, then the local and the cloud value.
pub open spec fn conflict_lines(c: ModifiedView) -> Seq<char> {
    "  "@ + c.0 + ":\n"@ + "    local: \""@ + c.2 + "\"\n"@ + "    cloud: \""@ + c.3 + "\"\n"@
}

pub open spec fn all_conflict_lines(cs: Seq<ModifiedView>) -> Seq<char>
    decreases cs.len(),
{
    if cs.len() == 0 {
        Seq::empty()
    } else {
        all_conflict_lines(cs.drop_last()) + conflict_lines(cs.last())
    }
}

pub open spec fn in_locale(l: Seq<char>) -> spec_fn(ModifiedView) -> bool {
    |c: ModifiedView| c.1 == l
}

/// The section of locale `l`: a heading, then the conflicts of `l` in their order.
pub open spec fn locale_section(cs: Seq<ModifiedView>, l: Seq<char>) -> Seq<char> {
    l + ":\n"@ + all_conflict_lines(cs.filter(in_locale(l))) + "\n"@
}

pub open spec fn sections(cs: Seq<ModifiedView>, ls: Seq<Seq<char>>) -> Seq<char>
    decreases ls.len(),
{
    if ls.len() == 0 {
        Seq::empty()
    } else {
        sections(cs, ls.drop_last()) + locale_section(cs, ls.last())
    }
}

pub open spec fn report_header() -> Seq<char> {
    "# Translation Conflicts\n# Resolve these conflicts manually\n\n"@
}

/// The conflicts file: a header, then one section per locale in order of first appearance.
pub open spec fn conflicts_report_spec(cs: Seq<ModifiedView>) -> Seq<char> {
    report_header() + sections(cs, distinct_locales(cs))
}

fn contains_str(v: &Vec<String>, x: &String) -> (r: bool)
    ensures
        r == v@.map_values(|s: String| s@).contains(x@),
{
    let ghost vv = v@.map_values(|s: String| s@);
    let mut i: usize = 0;
    while i < v.len()
        invariant
            i <= v@.len(),
            vv == v@.map_values(|s: String| s@),
            forall|j: int| 0 <= j < i ==> vv[j] != x@,
        decreases v@.len() - i,
    {
        if v[i] == *x {
            assert(vv[i as int] == x@);
            return true;
        }
        i = i + 1;
    }
    false
}

/// A human-readable report of conflicts for manual resolution, grouped by locale.
pub fn conflicts_report(conflicts: &Vec<Conflict>) -> (r: String)
    ensures
        r@ == conflicts_report_spec(conflicts_view(conflicts@)),
{
    let ghost cs = conflicts_view(conflicts@);
    let mut locales: Vec<String> = Vec::new();
    let mut i: usize = 0;
    while i < conflicts.len()
        invariant
            i <= conflicts@.len(),
            cs == conflicts_view(conflicts@),
            locales@.map_values(|s: String| s@) == distinct_locales(cs.subrange(0, i as int)),
        decreases conflicts@.len() - i,
    {
        let ghost lv = locales@.map_values(|s: String| s@);
        assert(cs.subrange(0, i + 1).drop_last() == cs.subrange(0, i as int));
        assert(cs.subrange(0, i + 1).last() == cs[i as int]);
        if !contains_str(&locales, &conflicts[i].locale) {
            locales.push(conflicts[i].locale.clone());
            assert(locales@.map_values(|s: String| s@) =~= lv.push(cs[i as int].1));
        }
        i = i + 1;
    }
    assert(cs.subrange(0, cs.len() as int) == cs);
    let ghost ls = locales@.map_values(|s: String| s@);
    let mut out = String::from_str("# Translation Conflicts\n# Resolve these conflicts manually\n\n");
    proof {
        reveal_strlit("# Translation Conflicts\n# Resolve these conflicts manually\n\n");
    }
    let mut k: usize = 0;
    while k < locales.len()
        invariant
            k <= locales@.len(),
            cs == conflicts_view(conflicts@),
            ls == locales@.map_values(|s: String| s@),
            out@ == report_header() + sections(cs, ls.subrange(0, k as int)),
        decreases locales@.len() - k,
    {
        let l = &locales[k];
        let ghost start = out@;
        out.append(l.as_str());
        out.append(":\n");
        let mut j: usize = 0;
        while j < conflicts.len()
            invariant
                j <= conflicts@.len(),
                cs == conflicts_view(conflicts@),
                l@ == ls[k as int],
                out@ == start + l@ + ":\n"@ + all_conflict_lines(
                    cs.subrange(0, j as int).filter(in_locale(l@)),
                ),
            decreases conflicts@.len() - j,
        {
            let c = &conflicts[j];
            let ghost pre = cs.subrange(0, j as int);
            assert(cs.subrange(0, j + 1) == pre.push(cs[j as int]));
            proof {
                pre.lemma_filter_push(cs[j as int], in_locale(l@));
            }
            if c.locale == *l {
                let ghost before = out@;
                out.append("  ");
                out.append(c.key.as_str());
                out.append(":\n");
                out.append("    local: \"");
                out.append(c.local_value.as_str());
                out.append("\"\n");
                out.append("    cloud: \"");
                out.append(c.cloud_value.as_str());
                out.append("\"\n");
                let ghost f = pre.filter(in_locale(l@)).push(cs[j as int]);
                assert(f.drop_last() == pre.filter(in_locale(l@)));
                assert(out@ =~= before + conflict_lines(cs[j as int]));
            }
            j = j + 1;
        }
        assert(cs.subrange(0, cs.len() as int) == cs);
        out.append("\n");
        assert(ls.subrange(0, k + 1).drop_last() == ls.subrange(0, k as int));
        assert(out@ =~= report_header() + sections(cs, ls.subrange(0, k + 1)));
        k = k + 1;
    }
    assert(ls.subrange(0, ls.len() as int) == ls);
    out
}

/// One side effect of a workflow, in the order in which they are performed.
#[derive(Debug, Clone, Copy, PartialEq, Eq)]
pub enum SyncAction {
    /// Push the plan's entries to the cloud.
    UploadEntries,
    /// Write the records of the `i`-th locale that the plan groups.
    WriteLocale(usize),
    /// Write the conflicts report.
    WriteConflicts,
}

/// The side effects of a sync: none in a dry run; else the upload if there is anything to
/// upload, then one write per downloaded locale, then the conflicts report if there are
/// conflicts.
pub open spec fn sync_actions_spec(p: SyncPlan, dry_run: bool) -> Seq<SyncAction> {
    if dry_run {
        Seq::empty()
    } else {
        (if p.upload_entries@.len() > 0 {
            seq![SyncAction::UploadEntries]
        } else {
            Seq::empty()
        }) + Seq::new(p.downloads@.len(), |i: int| SyncAction::WriteLocale(i as usize)) + (
        if p.result.conflicts@.len() > 0 {
            seq![SyncAction::WriteConflicts]
        } else {
            Seq::empty()
        })
    }
}

/// The side effects of a sync, in order (see [`sync_actions_spec`]).
pub fn sync_actions(p: &SyncPlan, dry_run: bool) -> (r: Vec<SyncAction>)
    ensures
        r@ == sync_actions_spec(*p, dry_run),
{
    let mut actions: Vec<SyncAction> = Vec::new();
    if dry_run {
        assert(actions@ =~= sync_actions_spec(*p, dry_run));
        return actions;
    }
    if p.upload_entries.len() > 0 {
        actions.push(SyncAction::UploadEntries);
    }
    let ghost head = actions@;
    let mut i: usize = 0;
    while i < p.downloads.len()
        invariant
            i <= p.downloads@.len(),
            actions@ == head + Seq::new(i as nat, |j: int| SyncAction::WriteLocale(j as usize)),
        decreases p.downloads@.len() - i,
    {
        actions.push(SyncAction::WriteLocale(i));
        assert(actions@ =~= head + Seq::new((i + 1) as nat, |j: int| SyncAction::WriteLocale(j as usize)));
        i = i + 1;
    }
    if p.result.conflicts.len() > 0 {
        actions.push(SyncAction::WriteConflicts);
    }
    assert(actions@ =~= sync_actions_spec(*p, dry_run));
    actions
}

/// The side effects of an upload: one push of the entries, none in a dry run.
pub open spec fn upload_actions_spec(dry_run: bool) -> Seq<SyncAction> {
    if dry_run {
        Seq::empty()
    } else {
        seq![SyncAction::UploadEntries]
    }
}

/// The side effects of an upload (see [`upload_actions_spec`]).
pub fn upload_actions(p: &UploadPlan, dry_run: bool) -> (r: Vec<SyncAction>)
    ensures
        r@ == upload_actions_spec(dry_run),
{
    let mut actions: Vec<SyncAction> = Vec::new();
    if !dry_run {
        actions.push(SyncAction::UploadEntries);
    }
    assert(actions@ =~= upload_actions_spec(dry_run));
    actions
}

/// The side effects of a download: one write per locale, in the plan's order; none in a
/// dry run.
pub open spec fn download_actions_spec(p: DownloadPlan, dry_run: bool) -> Seq<SyncAction> {
    if dry_run {
        Seq::empty()
    } else {
        Seq::new(p.by_locale@.len(), |i: int| SyncAction::WriteLocale(i as usize))
    }
}

/// The side effects of a download (see [`download_actions_spec`]).
pub fn download_actions(p: &DownloadPlan, dry_run: bool) -> (r: Vec<SyncAction>)
    ensures
        r@ == download_actions_spec(*p, dry_run),
{
    let mut actions: Vec<SyncAction> = Vec::new();
    if dry_run {
        assert(actions@ =~= download_actions_spec(*p, dry_run));
        return actions;
    }
    let mut i: usize = 0;
    while i < p.by_locale.len()
        invariant
            i <= p.by_locale@.len(),
            actions@ == Seq::new(i as nat, |j: int| SyncAction::WriteLocale(j as usize)),
        decreases p.by_locale@.len() - i,
    {
        actions.push(SyncAction::WriteLocale(i));
        assert(actions@ =~= Seq::new((i + 1) as nat, |j: int| SyncAction::WriteLocale(j as usize)));
        i = i + 1;
    }
    assert(actions@ =~= download_actions_spec(*p, dry_run));
    actions
}

} // verus!
