//! Luau type definitions for the generated translation module.
use crate::csv::{adjacent_sorted, sort_distinct, strings_view};
use crate::format::{extract_parameters_with_format, last_param, parsed_params};
use crate::plurals::{base_key_spec, extract_base_key, is_plural_key, is_plural_key_spec};
use crate::records::{translations_view, Translation, TranslationView};
use crate::text::{push_char, str_eq};
use vstd::prelude::*;
use vstd::string::StringExecFns;

verus! {

pub const FILE_HEADER: &'static str = "--[[\n    Roblox Slang - Type Definitions\n    \n    This file provides type definitions for Luau LSP autocomplete.\n    DO NOT MODIFY BY HAND - Your changes will be overwritten!\n    \n    Generated from translation files in your project.\n    To update type definitions, edit your JSON/YAML files and run:\n        roblox-slang build\n    \n    Usage:\n    Place this file alongside your Translations.lua module.\n    Your IDE/LSP will automatically provide autocomplete and type checking.\n    \n    Learn more: https://github.com/mathtechstudio/roblox-slang\n--]]\n\n";

pub const TYPES_PRELUDE: &'static str = "export type Translations = {\n    new: (locale: string?) -> TranslationsInstance,\n}\n\nexport type TranslationsInstance = {\n    _locale: string,\n    _translator: any,\n    _localeChangedCallbacks: {any},\n\n    setLocale: (self: TranslationsInstance, locale: string) -> (),\n    getLocale: (self: TranslationsInstance) -> string,\n    onLocaleChanged: (self: TranslationsInstance, callback: (newLocale: string, oldLocale: string) -> ()) -> (),\n    getAsset: (self: TranslationsInstance, assetKey: string) -> string,\n\n";

pub const EMPTY_TYPES: &'static str = "export type Translations = {}\n";

pub const PLAIN_SIGNATURE: &'static str = ": (self: TranslationsInstance) -> string,\n";

pub const PARAMS_SIGNATURE: &'static str = ": (self: TranslationsInstance, params: {}) -> string,\n";

pub const PLURAL_SIGNATURE: &'static str = ": (self: TranslationsInstance, count: number, params: {}?) -> string,\n";

pub open spec fn header_text() -> Seq<char> {
    FILE_HEADER@
}

pub open spec fn prelude_text() -> Seq<char> {
    TYPES_PRELUDE@
}

/// The records of locale `l`, in order.
pub open spec fn of_locale(s: Seq<TranslationView>, l: Seq<char>) -> Seq<TranslationView>
    decreases s.len(),
{
    if s.len() == 0 {
        Seq::empty()
    } else if s.last().1 == l {
        of_locale(s.drop_last(), l).push(s.last())
    } else {
        of_locale(s.drop_last(), l)
    }
}

/// The records of key `k`, in order.
pub open spec fn of_key(s: Seq<TranslationView>, k: Seq<char>) -> Seq<TranslationView>
    decreases s.len(),
{
    if s.len() == 0 {
        Seq::empty()
    } else if s.last().0 == k {
        of_key(s.drop_last(), k).push(s.last())
    } else {
        of_key(s.drop_last(), k)
    }
}

/// The records of the keys `ks`, key by key.
pub open spec fn by_keys(s: Seq<TranslationView>, ks: Seq<Seq<char>>) -> Seq<TranslationView>
    decreases ks.len(),
{
    if ks.len() == 0 {
        Seq::empty()
    } else {
        by_keys(s, ks.drop_last()) + of_key(s, ks.last())
    }
}

/// `k` with each `.` replaced by `_`.
pub open spec fn method_name(k: Seq<char>) -> Seq<char>
    decreases k.len(),
{
    if k.len() == 0 {
        Seq::empty()
    } else {
        method_name(k.drop_last()).push(if k.last() == '.' { '_' } else { k.last() })
    }
}

/// The signature of a method, with a `params` argument when the text has parameters.
pub open spec fn signature(value: Seq<char>) -> Seq<char> {
    if parsed_params(value).len() > 0 {
        PARAMS_SIGNATURE@
    } else {
        PLAIN_SIGNATURE@
    }
}

pub open spec fn plural_signature() -> Seq<char> {
    PLURAL_SIGNATURE@
}

pub open spec fn flat_methods(rs: Seq<TranslationView>) -> Seq<char>
    decreases rs.len(),
{
    if rs.len() == 0 {
        Seq::empty()
    } else {
        flat_methods(rs.drop_last()) + "    "@ + method_name(rs.last().0) + signature(rs.last().2)
    }
}

pub open spec fn flat_plurals(ps: Seq<Seq<char>>) -> Seq<char>
    decreases ps.len(),
{
    if ps.len() == 0 {
        Seq::empty()
    } else {
        flat_plurals(ps.drop_last()) + "    "@ + method_name(ps.last()) + plural_signature()
    }
}

pub open spec fn has_dot(s: Seq<char>) -> bool {
    exists|i: int| 0 <= i < s.len() && s[i] == '.'
}

/// `k` is `n.m` for a name `m` without dots: the name, if so.
pub open spec fn child_of(k: Seq<char>, n: Seq<char>) -> Option<Seq<char>> {
    if n.len() < k.len() && k.subrange(0, n.len() as int) == n && k[n.len() as int] == '.' && !has_dot(
        k.subrange(n.len() as int + 1, k.len() as int),
    ) {
        Some(k.subrange(n.len() as int + 1, k.len() as int))
    } else {
        None
    }
}

/// Methods of the records that are direct children of `n`, at the given indentation.
pub open spec fn child_methods(rs: Seq<TranslationView>, n: Seq<char>, indent: Seq<char>) -> Seq<char>
    decreases rs.len(),
{
    if rs.len() == 0 {
        Seq::empty()
    } else {
        child_methods(rs.drop_last(), n, indent) + match child_of(rs.last().0, n) {
            Some(m) => indent + m + signature(rs.last().2),
            None => Seq::empty(),
        }
    }
}

/// Plural methods of the base keys that are direct children of `n`.
pub open spec fn child_plurals(ps: Seq<Seq<char>>, n: Seq<char>) -> Seq<char>
    decreases ps.len(),
{
    if ps.len() == 0 {
        Seq::empty()
    } else {
        child_plurals(ps.drop_last(), n) + match child_of(ps.last(), n) {
            Some(m) => "            "@ + m + plural_signature(),
            None => Seq::empty(),
        }
    }
}

/// The blocks of the namespaces of `ns` that are direct children of `n`.
pub open spec fn nested_blocks(ns: Seq<Seq<char>>, n: Seq<char>, rs: Seq<TranslationView>, ps: Seq<Seq<char>>) -> Seq<char>
    decreases ns.len(),
{
    if ns.len() == 0 {
        Seq::empty()
    } else {
        nested_blocks(ns.drop_last(), n, rs, ps) + match child_of(ns.last(), n) {
            Some(m) => "        "@ + m + ": {\n"@ + child_methods(rs, ns.last(), "            "@)
                + child_plurals(ps, ns.last()) + "        },\n"@,
            None => Seq::empty(),
        }
    }
}

/// The blocks of the top-level namespaces of `ns`, with their members.
pub open spec fn namespace_blocks(all: Seq<Seq<char>>, ns: Seq<Seq<char>>, rs: Seq<TranslationView>, ps: Seq<Seq<char>>) -> Seq<char>
    decreases ns.len(),
{
    if ns.len() == 0 {
        Seq::empty()
    } else {
        namespace_blocks(all, ns.drop_last(), rs, ps) + if !has_dot(ns.last()) {
            "    "@ + ns.last() + ": {\n"@ + child_methods(rs, ns.last(), "        "@)
                + nested_blocks(all, ns.last(), rs, ps) + "    },\n"@
        } else {
            Seq::empty()
        }
    }
}

/// `n` is a proper dotted prefix of some key of `ks`.
pub open spec fn is_namespace_of(ks: Seq<Seq<char>>, n: Seq<char>) -> bool {
    exists|j: int, i: int|
        0 <= j < ks.len() && 0 <= i < ks[j].len() && ks[j][i] == '.' && n == #[trigger] ks[j].subrange(0, i)
}

/// The whole file for base records `base`, given the sorted regular keys, sorted plural
/// base keys and sorted namespaces.
pub open spec fn type_definitions_text(
    base: Seq<TranslationView>,
    regular: Seq<Seq<char>>,
    plurals: Seq<Seq<char>>,
    namespaces: Seq<Seq<char>>,
) -> Seq<char> {
    if base.len() == 0 {
        header_text() + EMPTY_TYPES@
    } else {
        let rs = by_keys(base, regular);
        header_text() + prelude_text() + flat_methods(rs) + flat_plurals(plurals) + "\n"@
            + namespace_blocks(namespaces, namespaces, rs, plurals) + "}\n"@
    }
}

/// `ks` lists exactly the strings `pred` admits, sorted, each once.
pub open spec fn sorted_set(ks: Seq<Seq<char>>, pred: spec_fn(Seq<char>) -> bool) -> bool {
    &&& adjacent_sorted(ks)
    &&& ks.no_duplicates()
    &&& forall|k: Seq<char>| #![trigger ks.contains(k)] ks.contains(k) <==> pred(k)
}

/// `k` is the key of a base record and not a plural form.
pub open spec fn is_regular_key(base: Seq<TranslationView>, k: Seq<char>) -> bool {
    (exists|i: int| 0 <= i < base.len() && (#[trigger] base[i]).0 == k) && !is_plural_key_spec(k)
}

/// `k` is the base key of a plural-form base record.
pub open spec fn is_plural_base(base: Seq<TranslationView>, k: Seq<char>) -> bool {
    exists|i: int|
        0 <= i < base.len() && is_plural_key_spec((#[trigger] base[i]).0) && k == base_key_spec(base[i].0)
}

pub open spec fn regular_key(base: Seq<TranslationView>) -> spec_fn(Seq<char>) -> bool {
    |k: Seq<char>| is_regular_key(base, k)
}

pub open spec fn plural_base(base: Seq<TranslationView>) -> spec_fn(Seq<char>) -> bool {
    |k: Seq<char>| is_plural_base(base, k)
}

pub open spec fn namespace_of(regular: Seq<Seq<char>>, plurals: Seq<Seq<char>>) -> spec_fn(Seq<char>) -> bool {
    |n: Seq<char>| is_namespace_of(regular + plurals, n)
}

fn base_records(s: &Vec<Translation>, base: &str) -> (r: Vec<Translation>)
    ensures
        translations_view(r@) == of_locale(translations_view(s@), base@),
{
    let ghost sv = translations_view(s@);
    let mut out: Vec<Translation> = Vec::new();
    let mut i: usize = 0;
    while i < s.len()
        invariant
            i <= s@.len(),
            sv == translations_view(s@),
            translations_view(out@) == of_locale(sv.subrange(0, i as int), base@),
        decreases s@.len() - i,
    {
        assert(sv.subrange(0, i + 1).drop_last() == sv.subrange(0, i as int));
        assert(sv[i as int] == s@[i as int]@);
        let ghost before = translations_view(out@);
        if str_eq(s[i].locale.as_str(), base) {
            out.push(crate::records::copy_translation(&s[i]));
            assert(translations_view(out@) =~= before.push(sv[i as int]));
        }
        i = i + 1;
    }
    assert(sv.subrange(0, sv.len() as int) == sv);
    out
}

fn records_of_key(s: &Vec<Translation>, k: &String) -> (r: Vec<Translation>)
    ensures
        translations_view(r@) == of_key(translations_view(s@), k@),
{
    let ghost sv = translations_view(s@);
    let mut out: Vec<Translation> = Vec::new();
    let mut i: usize = 0;
    while i < s.len()
        invariant
            i <= s@.len(),
            sv == translations_view(s@),
            translations_view(out@) == of_key(sv.subrange(0, i as int), k@),
        decreases s@.len() - i,
    {
        assert(sv.subrange(0, i + 1).drop_last() == sv.subrange(0, i as int));
        assert(sv[i as int] == s@[i as int]@);
        let ghost before = translations_view(out@);
        if str_eq(s[i].key.as_str(), k.as_str()) {
            out.push(crate::records::copy_translation(&s[i]));
            assert(translations_view(out@) =~= before.push(sv[i as int]));
        }
        i = i + 1;
    }
    assert(sv.subrange(0, sv.len() as int) == sv);
    out
}

/// Whether a text holds a `{...}` parameter.
fn has_parameters(value: &str) -> (r: bool)
    ensures
        r == (parsed_params(value@).len() > 0),
{
    let params = extract_parameters_with_format(value);
    let r = params.len() > 0;
    proof {
        let ps = parsed_params(value@);
        if ps.len() > 0 {
            let w = ps.len() - 1;
            assert(last_param(ps, ps[w].0, ps[w].1));
            assert(params@.contains((ps[w].0, ps[w].1)));
        }
        if params@.len() > 0 {
            assert(params@.contains(params@[0]));
        }
    }
    r
}

fn method_name_exec(k: &str) -> (r: String)
    ensures
        r@ == method_name(k@),
{
    let mut out = String::new();
    let n = k.unicode_len();
    let mut i: usize = 0;
    while i < n
        invariant
            n == k@.len(),
            i <= n,
            out@ == method_name(k@.subrange(0, i as int)),
        decreases n - i,
    {
        let c = k.get_char(i);
        assert(k@.subrange(0, i + 1).drop_last() == k@.subrange(0, i as int));
        push_char(&mut out, if c == '.' { '_' } else { c });
        i = i + 1;
    }
    assert(k@.subrange(0, n as int) == k@);
    out
}

fn child_name(k: &str, n: &str) -> (r: Option<String>)
    ensures
        match r {
            Some(m) => child_of(k@, n@) == Some(m@),
            None => child_of(k@, n@) is None,
        },
{
    let kl = k.unicode_len();
    let nl = n.unicode_len();
    if nl >= kl || !crate::text::starts_with(k, n) || k.get_char(nl) != '.' {
        return None;
    }
    let rest = k.substring_char(nl + 1, kl);
    let rl = rest.unicode_len();
    let mut i: usize = 0;
    while i < rl
        invariant
            rl == rest@.len(),
            i <= rl,
            kl == k@.len(),
            nl == n@.len(),
            nl < kl,
            crate::text::has_prefix(k@, n@),
            k@[nl as int] == '.',
            rest@ == k@.subrange(nl + 1, kl as int),
            forall|j: int| 0 <= j < i ==> rest@[j] != '.',
        decreases rl - i,
    {
        if rest.get_char(i) == '.' {
            assert(has_dot(rest@));
            return None;
        }
        i = i + 1;
    }
    Some(rest.to_owned())
}

fn signature_exec(value: &str) -> (r: &'static str)
    ensures
        r@ == signature(value@),
{
    if has_parameters(value) {
        PARAMS_SIGNATURE
    } else {
        PLAIN_SIGNATURE
    }
}

fn flat_methods_exec(rs: &Vec<Translation>, out: &mut String)
    ensures
        final(out)@ == old(out)@ + flat_methods(translations_view(rs@)),
{
    let ghost rv = translations_view(rs@);
    let ghost start = out@;
    let mut i: usize = 0;
    while i < rs.len()
        invariant
            i <= rs@.len(),
            rv == translations_view(rs@),
            out@ == start + flat_methods(rv.subrange(0, i as int)),
        decreases rs@.len() - i,
    {
        assert(rv.subrange(0, i + 1).drop_last() == rv.subrange(0, i as int));
        assert(rv[i as int] == rs@[i as int]@);
        let name = method_name_exec(rs[i].key.as_str());
        out.append("    ");
        out.append(name.as_str());
        out.append(signature_exec(rs[i].value.as_str()));
        assert(out@ =~= start + flat_methods(rv.subrange(0, i + 1)));
        i = i + 1;
    }
    assert(rv.subrange(0, rv.len() as int) == rv);
}

fn flat_plurals_exec(ps: &Vec<String>, out: &mut String)
    ensures
        final(out)@ == old(out)@ + flat_plurals(strings_view(ps@)),
{
    let ghost pv = strings_view(ps@);
    let ghost start = out@;
    let mut i: usize = 0;
    while i < ps.len()
        invariant
            i <= ps@.len(),
            pv == strings_view(ps@),
            out@ == start + flat_plurals(pv.subrange(0, i as int)),
        decreases ps@.len() - i,
    {
        assert(pv.subrange(0, i + 1).drop_last() == pv.subrange(0, i as int));
        assert(pv[i as int] == ps@[i as int]@);
        let name = method_name_exec(ps[i].as_str());
        out.append("    ");
        out.append(name.as_str());
        out.append(PLURAL_SIGNATURE);
        assert(out@ =~= start + flat_plurals(pv.subrange(0, i + 1)));
        i = i + 1;
    }
    assert(pv.subrange(0, pv.len() as int) == pv);
}

fn child_methods_exec(rs: &Vec<Translation>, n: &str, indent: &str, out: &mut String)
    ensures
        final(out)@ == old(out)@ + child_methods(translations_view(rs@), n@, indent@),
{
    let ghost rv = translations_view(rs@);
    let ghost start = out@;
    let mut i: usize = 0;
    while i < rs.len()
        invariant
            i <= rs@.len(),
            rv == translations_view(rs@),
            out@ == start + child_methods(rv.subrange(0, i as int), n@, indent@),
        decreases rs@.len() - i,
    {
        assert(rv.subrange(0, i + 1).drop_last() == rv.subrange(0, i as int));
        assert(rv[i as int] == rs@[i as int]@);
        match child_name(rs[i].key.as_str(), n) {
            Some(m) => {
                out.append(indent);
                out.append(m.as_str());
                out.append(signature_exec(rs[i].value.as_str()));
            },
            None => {},
        }
        assert(out@ =~= start + child_methods(rv.subrange(0, i + 1), n@, indent@));
        i = i + 1;
    }
    assert(rv.subrange(0, rv.len() as int) == rv);
}

fn child_plurals_exec(ps: &Vec<String>, n: &str, out: &mut String)
    ensures
        final(out)@ == old(out)@ + child_plurals(strings_view(ps@), n@),
{
    let ghost pv = strings_view(ps@);
    let ghost start = out@;
    let mut i: usize = 0;
    while i < ps.len()
        invariant
            i <= ps@.len(),
            pv == strings_view(ps@),
            out@ == start + child_plurals(pv.subrange(0, i as int), n@),
        decreases ps@.len() - i,
    {
        assert(pv.subrange(0, i + 1).drop_last() == pv.subrange(0, i as int));
        assert(pv[i as int] == ps@[i as int]@);
        match child_name(ps[i].as_str(), n) {
            Some(m) => {
                out.append("            ");
                out.append(m.as_str());
                out.append(PLURAL_SIGNATURE);
            },
            None => {},
        }
        assert(out@ =~= start + child_plurals(pv.subrange(0, i + 1), n@));
        i = i + 1;
    }
    assert(pv.subrange(0, pv.len() as int) == pv);
}

fn nested_blocks_exec(ns: &Vec<String>, n: &str, rs: &Vec<Translation>, ps: &Vec<String>, out: &mut String)
    ensures
        final(out)@ == old(out)@ + nested_blocks(strings_view(ns@), n@, translations_view(rs@), strings_view(ps@)),
{
    let ghost nv = strings_view(ns@);
    let ghost start = out@;
    let mut i: usize = 0;
    while i < ns.len()
        invariant
            i <= ns@.len(),
            nv == strings_view(ns@),
            out@ == start + nested_blocks(nv.subrange(0, i as int), n@, translations_view(rs@), strings_view(ps@)),
        decreases ns@.len() - i,
    {
        assert(nv.subrange(0, i + 1).drop_last() == nv.subrange(0, i as int));
        assert(nv[i as int] == ns@[i as int]@);
        let ghost before = out@;
        match child_name(ns[i].as_str(), n) {
            Some(m) => {
                out.append("        ");
                out.append(m.as_str());
                out.append(": {\n");
                child_methods_exec(rs, ns[i].as_str(), "            ", out);
                child_plurals_exec(ps, ns[i].as_str(), out);
                out.append("        },\n");
                proof {
                    reveal_strlit("            ");
                }
            },
            None => {},
        }
        assert(out@ =~= start + nested_blocks(nv.subrange(0, i + 1), n@, translations_view(rs@), strings_view(ps@)));
        i = i + 1;
    }
    assert(nv.subrange(0, nv.len() as int) == nv);
}

fn contains_dot(s: &str) -> (r: bool)
    ensures
        r == has_dot(s@),
{
    let n = s.unicode_len();
    let mut i: usize = 0;
    while i < n
        invariant
            n == s@.len(),
            i <= n,
            forall|j: int| 0 <= j < i ==> s@[j] != '.',
        decreases n - i,
    {
        if s.get_char(i) == '.' {
            return true;
        }
        i = i + 1;
    }
    false
}

fn generate_namespace_types(ns: &Vec<String>, rs: &Vec<Translation>, ps: &Vec<String>, out: &mut String)
    ensures
        final(out)@ == old(out)@ + namespace_blocks(strings_view(ns@), strings_view(ns@), translations_view(rs@), strings_view(ps@)),
{
    let ghost nv = strings_view(ns@);
    let ghost start = out@;
    let mut i: usize = 0;
    while i < ns.len()
        invariant
            i <= ns@.len(),
            nv == strings_view(ns@),
            out@ == start + namespace_blocks(nv, nv.subrange(0, i as int), translations_view(rs@), strings_view(ps@)),
        decreases ns@.len() - i,
    {
        assert(nv.subrange(0, i + 1).drop_last() == nv.subrange(0, i as int));
        assert(nv[i as int] == ns@[i as int]@);
        if !contains_dot(ns[i].as_str()) {
            out.append("    ");
            out.append(ns[i].as_str());
            out.append(": {\n");
            child_methods_exec(rs, ns[i].as_str(), "        ", out);
            nested_blocks_exec(ns, ns[i].as_str(), rs, ps, out);
            out.append("    },\n");
        }
        assert(out@ =~= start + namespace_blocks(nv, nv.subrange(0, i + 1), translations_view(rs@), strings_view(ps@)));
        i = i + 1;
    }
    assert(nv.subrange(0, nv.len() as int) == nv);
}

/// The regular keys and the plural base keys of base records, unsorted.
fn classify(base: &Vec<Translation>) -> (r: (Vec<String>, Vec<String>))
    ensures
        forall|k: Seq<char>|
            #![trigger strings_view(r.0@).contains(k)]
            strings_view(r.0@).contains(k) <==> is_regular_key(translations_view(base@), k),
        forall|k: Seq<char>|
            #![trigger strings_view(r.1@).contains(k)]
            strings_view(r.1@).contains(k) <==> is_plural_base(translations_view(base@), k),
{
    let ghost bv = translations_view(base@);
    let mut regular: Vec<String> = Vec::new();
    let mut plural: Vec<String> = Vec::new();
    let mut i: usize = 0;
    while i < base.len()
        invariant
            i <= base@.len(),
            bv == translations_view(base@),
            forall|k: Seq<char>|
                #![trigger strings_view(regular@).contains(k)]
                strings_view(regular@).contains(k) <==> is_regular_key(bv.subrange(0, i as int), k),
            forall|k: Seq<char>|
                #![trigger strings_view(plural@).contains(k)]
                strings_view(plural@).contains(k) <==> is_plural_base(bv.subrange(0, i as int), k),
        decreases base@.len() - i,
    {
        let ghost pre = bv.subrange(0, i as int);
        let ghost nxt = bv.subrange(0, i + 1);
        let ghost x = bv[i as int];
        assert(x == base@[i as int]@);
        let ghost rv = strings_view(regular@);
        let ghost pv = strings_view(plural@);
        assert forall|k: Seq<char>| is_regular_key(nxt, k) <==> (is_regular_key(pre, k) || (k == x.0 && !is_plural_key_spec(k))) by {
            if is_regular_key(nxt, k) {
                let j = choose|j: int| 0 <= j < nxt.len() && (#[trigger] nxt[j]).0 == k;
                if j < i {
                    assert(pre[j] == nxt[j]);
                }
            }
            if is_regular_key(pre, k) {
                let j = choose|j: int| 0 <= j < pre.len() && (#[trigger] pre[j]).0 == k;
                assert(nxt[j] == pre[j]);
            }
            if k == x.0 {
                assert(nxt[i as int] == x);
            }
        }
        assert forall|k: Seq<char>| is_plural_base(nxt, k) <==> (is_plural_base(pre, k) || (is_plural_key_spec(x.0) && k == base_key_spec(x.0))) by {
            if is_plural_base(nxt, k) {
                let j = choose|j: int| 0 <= j < nxt.len() && is_plural_key_spec((#[trigger] nxt[j]).0) && k == base_key_spec(nxt[j].0);
                if j < i {
                    assert(pre[j] == nxt[j]);
                }
            }
            if is_plural_base(pre, k) {
                let j = choose|j: int| 0 <= j < pre.len() && is_plural_key_spec((#[trigger] pre[j]).0) && k == base_key_spec(pre[j].0);
                assert(nxt[j] == pre[j]);
            }
            if is_plural_key_spec(x.0) && k == base_key_spec(x.0) {
                assert(nxt[i as int] == x);
            }
        }
        if is_plural_key(base[i].key.as_str()) {
            let b = extract_base_key(base[i].key.as_str());
            plural.push(b);
            assert(strings_view(plural@) =~= pv.push(base_key_spec(x.0)));
            assert forall|k: Seq<char>|
                #![trigger strings_view(plural@).contains(k)]
                strings_view(plural@).contains(k) <==> is_plural_base(nxt, k) by {
                if strings_view(plural@).contains(k) {
                    let q = choose|q: int| 0 <= q < strings_view(plural@).len() && strings_view(plural@)[q] == k;
                    if q < pv.len() {
                        assert(pv[q] == k);
                        assert(pv.contains(k));
                    }
                }
                if is_plural_base(pre, k) {
                    assert(pv.contains(k));
                    let q = choose|q: int| 0 <= q < pv.len() && pv[q] == k;
                    assert(strings_view(plural@)[q] == k);
                }
                if k == base_key_spec(x.0) {
                    assert(strings_view(plural@)[pv.len() as int] == k);
                }
            }
            assert forall|k: Seq<char>|
                #![trigger strings_view(regular@).contains(k)]
                strings_view(regular@).contains(k) <==> is_regular_key(nxt, k) by {
            }
        } else {
            regular.push(base[i].key.clone());
            assert(strings_view(regular@) =~= rv.push(x.0));
            assert forall|k: Seq<char>|
                #![trigger strings_view(regular@).contains(k)]
                strings_view(regular@).contains(k) <==> is_regular_key(nxt, k) by {
                if strings_view(regular@).contains(k) {
                    let q = choose|q: int| 0 <= q < strings_view(regular@).len() && strings_view(regular@)[q] == k;
                    if q < rv.len() {
                        assert(rv[q] == k);
                        assert(rv.contains(k));
                    }
                }
                if is_regular_key(pre, k) {
                    assert(rv.contains(k));
                    let q = choose|q: int| 0 <= q < rv.len() && rv[q] == k;
                    assert(strings_view(regular@)[q] == k);
                }
                if k == x.0 {
                    assert(strings_view(regular@)[rv.len() as int] == k);
                }
            }
            assert forall|k: Seq<char>|
                #![trigger strings_view(plural@).contains(k)]
                strings_view(plural@).contains(k) <==> is_plural_base(nxt, k) by {
            }
        }
        i = i + 1;
    }
    assert(bv.subrange(0, bv.len() as int) == bv);
    (regular, plural)
}

/// `n` is a proper dotted prefix of `k`.
pub open spec fn is_prefix_ns(k: Seq<char>, n: Seq<char>) -> bool {
    exists|i: int| 0 <= i < k.len() && k[i] == '.' && n == #[trigger] k.subrange(0, i)
}

fn prefixes_of(k: &str, out: &mut Vec<String>)
    ensures
        forall|n: Seq<char>|
            #![trigger strings_view(final(out)@).contains(n)]
            strings_view(final(out)@).contains(n) <==> (strings_view(old(out)@).contains(n) || is_prefix_ns(k@, n)),
{
    let ghost start = strings_view(out@);
    let len = k.unicode_len();
    let mut i: usize = 0;
    while i < len
        invariant
            len == k@.len(),
            i <= len,
            forall|n: Seq<char>|
                #![trigger strings_view(out@).contains(n)]
                strings_view(out@).contains(n) <==> (start.contains(n) || exists|j: int|
                    0 <= j < i && k@[j] == '.' && n == #[trigger] k@.subrange(0, j)),
        decreases len - i,
    {
        let ghost ov = strings_view(out@);
        if k.get_char(i) == '.' {
            out.push(k.substring_char(0, i).to_owned());
            assert(strings_view(out@) =~= ov.push(k@.subrange(0, i as int)));
            assert forall|n: Seq<char>|
                #![trigger strings_view(out@).contains(n)]
                strings_view(out@).contains(n) <==> (start.contains(n) || exists|j: int|
                    0 <= j < i + 1 && k@[j] == '.' && n == #[trigger] k@.subrange(0, j)) by {
                if strings_view(out@).contains(n) {
                    let q = choose|q: int| 0 <= q < strings_view(out@).len() && strings_view(out@)[q] == n;
                    if q < ov.len() {
                        assert(ov[q] == n);
                        assert(ov.contains(n));
                    } else {
                        assert(k@[i as int] == '.' && n == k@.subrange(0, i as int));
                    }
                }
                if start.contains(n) || exists|j: int| 0 <= j < i + 1 && k@[j] == '.' && n == #[trigger] k@.subrange(0, j) {
                    if start.contains(n) || exists|j: int| 0 <= j < i && k@[j] == '.' && n == #[trigger] k@.subrange(0, j) {
                        assert(ov.contains(n));
                        let q = choose|q: int| 0 <= q < ov.len() && ov[q] == n;
                        assert(strings_view(out@)[q] == n);
                    } else {
                        assert(strings_view(out@)[ov.len() as int] == n);
                    }
                }
            }
        } else {
            assert forall|n: Seq<char>|
                #![trigger strings_view(out@).contains(n)]
                strings_view(out@).contains(n) <==> (start.contains(n) || exists|j: int|
                    0 <= j < i + 1 && k@[j] == '.' && n == #[trigger] k@.subrange(0, j)) by {
                if exists|j: int| 0 <= j < i + 1 && k@[j] == '.' && n == #[trigger] k@.subrange(0, j) {
                    let j = choose|j: int| 0 <= j < i + 1 && k@[j] == '.' && n == #[trigger] k@.subrange(0, j);
                    assert(j < i);
                }
            }
        }
        i = i + 1;
    }
}

/// The dotted prefixes of the keys, sorted, each once.
pub fn build_namespace_tree(ks: &Vec<String>) -> (r: Vec<String>)
    ensures
        adjacent_sorted(strings_view(r@)),
        strings_view(r@).no_duplicates(),
        forall|n: Seq<char>|
            #![trigger strings_view(r@).contains(n)]
            strings_view(r@).contains(n) <==> is_namespace_of(strings_view(ks@), n),
{
    let ghost kv = strings_view(ks@);
    let mut all: Vec<String> = Vec::new();
    let mut j: usize = 0;
    while j < ks.len()
        invariant
            j <= ks@.len(),
            kv == strings_view(ks@),
            forall|n: Seq<char>|
                #![trigger strings_view(all@).contains(n)]
                strings_view(all@).contains(n) <==> exists|q: int| 0 <= q < j && is_prefix_ns(#[trigger] kv[q], n),
        decreases ks@.len() - j,
    {
        prefixes_of(ks[j].as_str(), &mut all);
        assert(kv[j as int] == ks@[j as int]@);
        assert forall|n: Seq<char>|
            #![trigger strings_view(all@).contains(n)]
            strings_view(all@).contains(n) <==> exists|q: int| 0 <= q < j + 1 && is_prefix_ns(#[trigger] kv[q], n) by {
            if exists|q: int| 0 <= q < j + 1 && is_prefix_ns(#[trigger] kv[q], n) {
                let q = choose|q: int| 0 <= q < j + 1 && is_prefix_ns(#[trigger] kv[q], n);
                if q < j {
                    assert(exists|q2: int| 0 <= q2 < j && is_prefix_ns(#[trigger] kv[q2], n));
                }
            }
        }
        j = j + 1;
    }
    let r = sort_distinct(&all);
    assert forall|n: Seq<char>|
        #![trigger strings_view(r@).contains(n)]
        strings_view(r@).contains(n) <==> is_namespace_of(kv, n) by {
        if is_namespace_of(kv, n) {
            let (q, i) = choose|q: int, i: int| 0 <= q < kv.len() && 0 <= i < kv[q].len() && kv[q][i] == '.' && n == #[trigger] kv[q].subrange(0, i);
            assert(is_prefix_ns(kv[q], n));
        }
        if exists|q: int| 0 <= q < kv.len() && is_prefix_ns(#[trigger] kv[q], n) {
            let q = choose|q: int| 0 <= q < kv.len() && is_prefix_ns(#[trigger] kv[q], n);
            let i = choose|i: int| 0 <= i < kv[q].len() && kv[q][i] == '.' && n == #[trigger] kv[q].subrange(0, i);
            assert(is_namespace_of(kv, n));
        }
    }
    r
}

/// Generates the Luau type definitions of the translation module from the base-locale
/// records: one method per regular key (with a `params` argument when its text has
/// parameters), one per plural base key (with a `count`), and a table per namespace.
/// Keys, plural base keys and namespaces each come in code-point order.
pub fn generate_type_definitions(translations: &Vec<Translation>, base_locale: &str) -> (r: String)
    ensures
        exists|regular: Seq<Seq<char>>, plurals: Seq<Seq<char>>, namespaces: Seq<Seq<char>>|
            #[trigger] sorted_set(regular, regular_key(of_locale(translations_view(translations@), base_locale@)))
            && #[trigger] sorted_set(plurals, plural_base(of_locale(translations_view(translations@), base_locale@)))
            && #[trigger] sorted_set(namespaces, namespace_of(regular, plurals))
            && r@ == type_definitions_text(of_locale(translations_view(translations@), base_locale@), regular, plurals, namespaces),
{
    let base = base_records(translations, base_locale);
    let ghost bv = translations_view(base@);
    let (regular_all, plural_all) = classify(&base);
    let regular = sort_distinct(&regular_all);
    let plurals = sort_distinct(&plural_all);
    let ghost rk = strings_view(regular@);
    let ghost pk = strings_view(plurals@);
    assert(sorted_set(rk, regular_key(bv)));
    assert(sorted_set(pk, plural_base(bv)));
    let mut keys: Vec<String> = Vec::new();
    let mut rs: Vec<Translation> = Vec::new();
    let mut i: usize = 0;
    while i < regular.len()
        invariant
            i <= regular@.len(),
            rk == strings_view(regular@),
            bv == translations_view(base@),
            strings_view(keys@) == rk.subrange(0, i as int),
            translations_view(rs@) == by_keys(bv, rk.subrange(0, i as int)),
        decreases regular@.len() - i,
    {
        let ghost before = translations_view(rs@);
        let mut group = records_of_key(&base, &regular[i]);
        let ghost gv = translations_view(group@);
        rs.append(&mut group);
        keys.push(regular[i].clone());
        assert(rk.subrange(0, i + 1).drop_last() == rk.subrange(0, i as int));
        assert(rk[i as int] == regular@[i as int]@);
        assert(translations_view(rs@) =~= before + gv);
        assert(strings_view(keys@) =~= rk.subrange(0, i + 1));
        i = i + 1;
    }
    assert(rk.subrange(0, rk.len() as int) == rk);
    let mut j: usize = 0;
    while j < plurals.len()
        invariant
            j <= plurals@.len(),
            pk == strings_view(plurals@),
            strings_view(keys@) == rk + pk.subrange(0, j as int),
        decreases plurals@.len() - j,
    {
        let ghost kb = strings_view(keys@);
        keys.push(plurals[j].clone());
        assert(pk[j as int] == plurals@[j as int]@);
        assert(strings_view(keys@) =~= kb.push(pk[j as int]));
        assert(strings_view(keys@) =~= rk + pk.subrange(0, j + 1));
        j = j + 1;
    }
    assert(pk.subrange(0, pk.len() as int) == pk);
    let namespaces = build_namespace_tree(&keys);
    let ghost nk = strings_view(namespaces@);
    assert(sorted_set(nk, namespace_of(rk, pk)));
    let mut code = String::from_str(FILE_HEADER);
    if base.len() == 0 {
        code.append(EMPTY_TYPES);
        proof {
            assert(sorted_set(rk, regular_key(of_locale(translations_view(translations@), base_locale@))));
        }
        return code;
    }
    code.append(TYPES_PRELUDE);
    flat_methods_exec(&rs, &mut code);
    flat_plurals_exec(&plurals, &mut code);
    code.append("\n");
    generate_namespace_types(&namespaces, &rs, &plurals, &mut code);
    code.append("}\n");
    assert(code@ =~= type_definitions_text(bv, rk, pk, nk));
    code
}

} // verus!
