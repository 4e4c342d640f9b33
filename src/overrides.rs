//! Hand-written overrides that replace or extend the translations read from files.
use crate::records::{copy_translation, translations_view, Translation, TranslationView};
use crate::text::str_eq;
use vstd::prelude::*;

verus! {

/// Same key and locale.
pub open spec fn same_pair(a: TranslationView, b: TranslationView) -> bool {
    a.0 == b.0 && a.1 == b.1
}

/// The last override of `ov` for the pair of `t`.
pub open spec fn last_override(ov: Seq<TranslationView>, t: TranslationView) -> Option<TranslationView>
    decreases ov.len(),
{
    if ov.len() == 0 {
        None
    } else if same_pair(ov.last(), t) {
        Some(ov.last())
    } else {
        last_override(ov.drop_last(), t)
    }
}

/// A main record, or the override that replaces it.
pub open spec fn overridden(ov: Seq<TranslationView>, t: TranslationView) -> TranslationView {
    match last_override(ov, t) {
        Some(o) => o,
        None => t,
    }
}

/// `ov[i]` is the last override of its pair, and no main record has that pair.
pub open spec fn is_extra(ov: Seq<TranslationView>, main: Seq<TranslationView>, i: int) -> bool {
    &&& forall|j: int| i < j < ov.len() ==> !same_pair(#[trigger] ov[j], ov[i])
    &&& forall|j: int| 0 <= j < main.len() ==> !same_pair(#[trigger] main[j], ov[i])
}

/// The overrides of the first `n` that add a new pair, in their order.
pub open spec fn extras(ov: Seq<TranslationView>, main: Seq<TranslationView>, n: int) -> Seq<TranslationView>
    decreases n,
{
    if n <= 0 {
        Seq::empty()
    } else if is_extra(ov, main, n - 1) {
        extras(ov, main, n - 1).push(ov[n - 1])
    } else {
        extras(ov, main, n - 1)
    }
}

pub open spec fn merged_spec(main: Seq<TranslationView>, ov: Seq<TranslationView>) -> Seq<TranslationView> {
    main.map_values(|t: TranslationView| overridden(ov, t)) + extras(ov, main, ov.len() as int)
}

fn pair_eq(a: &Translation, b: &Translation) -> (r: bool)
    ensures
        r == same_pair(a@, b@),
{
    str_eq(a.key.as_str(), b.key.as_str()) && str_eq(a.locale.as_str(), b.locale.as_str())
}

fn find_last_override(ov: &Vec<Translation>, t: &Translation) -> (r: Option<usize>)
    ensures
        match r {
            Some(i) => i < ov@.len() && last_override(translations_view(ov@), t@) == Some(ov@[i as int]@),
            None => last_override(translations_view(ov@), t@) is None,
        },
{
    let ghost ovv = translations_view(ov@);
    let mut i: usize = ov.len();
    assert(ovv.subrange(0, ov@.len() as int) == ovv);
    while i > 0
        invariant
            i <= ov@.len(),
            ovv == translations_view(ov@),
            last_override(ovv, t@) == last_override(ovv.subrange(0, i as int), t@),
        decreases i,
    {
        let ghost sub = ovv.subrange(0, i as int);
        assert(sub.drop_last() == ovv.subrange(0, i - 1));
        assert(sub.last() == ovv[i - 1]);
        if pair_eq(&ov[i - 1], t) {
            return Some(i - 1);
        }
        i = i - 1;
    }
    None
}

/// Applies overrides: each main record whose key and locale an override names is replaced
/// by the last such override; the overrides of pairs that no main record has follow, each
/// pair once (its last override), in their order.
pub fn merge_translations(main: Vec<Translation>, overrides: Vec<Translation>) -> (r: Vec<Translation>)
    ensures
        translations_view(r@) == merged_spec(translations_view(main@), translations_view(overrides@)),
{
    let ghost mv = translations_view(main@);
    let ghost ovv = translations_view(overrides@);
    let mut out: Vec<Translation> = Vec::new();
    let mut i: usize = 0;
    while i < main.len()
        invariant
            i <= main@.len(),
            mv == translations_view(main@),
            ovv == translations_view(overrides@),
            translations_view(out@) == mv.subrange(0, i as int).map_values(|t: TranslationView| overridden(ovv, t)),
        decreases main@.len() - i,
    {
        let ghost before = translations_view(out@);
        match find_last_override(&overrides, &main[i]) {
            Some(j) => out.push(copy_translation(&overrides[j])),
            None => out.push(copy_translation(&main[i])),
        }
        assert(mv[i as int] == main@[i as int]@);
        assert(translations_view(out@) =~= before.push(overridden(ovv, mv[i as int])));
        assert(mv.subrange(0, i + 1).map_values(|t: TranslationView| overridden(ovv, t)) =~= mv.subrange(0, i as int).map_values(|t: TranslationView| overridden(ovv, t)).push(overridden(ovv, mv[i as int])));
        i = i + 1;
    }
    assert(mv.subrange(0, mv.len() as int) == mv);
    let ghost head = translations_view(out@);
    let mut k: usize = 0;
    while k < overrides.len()
        invariant
            k <= overrides@.len(),
            mv == translations_view(main@),
            ovv == translations_view(overrides@),
            translations_view(out@) == head + extras(ovv, mv, k as int),
        decreases overrides@.len() - k,
    {
        let o = &overrides[k];
        assert(ovv[k as int] == o@);
        let mut later = false;
        let mut j: usize = k + 1;
        while j < overrides.len()
            invariant
                k < j <= overrides@.len(),
                ovv == translations_view(overrides@),
                ovv[k as int] == o@,
                !later ==> forall|q: int| k < q < j ==> !same_pair(#[trigger] ovv[q], ovv[k as int]),
                later ==> exists|q: int| k < q < overrides@.len() && same_pair(#[trigger] ovv[q], ovv[k as int]),
            decreases overrides@.len() - j,
        {
            if !later && pair_eq(&overrides[j], o) {
                assert(same_pair(ovv[j as int], ovv[k as int]));
                later = true;
            }
            j = j + 1;
        }
        let mut in_main = false;
        let mut m: usize = 0;
        while m < main.len()
            invariant
                m <= main@.len(),
                mv == translations_view(main@),
                ovv[k as int] == o@,
                !in_main ==> forall|q: int| 0 <= q < m ==> !same_pair(#[trigger] mv[q], ovv[k as int]),
                in_main ==> exists|q: int| 0 <= q < main@.len() && same_pair(#[trigger] mv[q], ovv[k as int]),
            decreases main@.len() - m,
        {
            if !in_main && pair_eq(&main[m], o) {
                assert(same_pair(mv[m as int], ovv[k as int]));
                in_main = true;
            }
            m = m + 1;
        }
        let ghost before = translations_view(out@);
        if !later && !in_main {
            out.push(copy_translation(o));
            assert(is_extra(ovv, mv, k as int));
            assert(translations_view(out@) =~= before.push(ovv[k as int]));
        } else {
            assert(!is_extra(ovv, mv, k as int));
        }
        k = k + 1;
    }
    out
}

} // verus!
