//! Plural-form keys: `items(one)`, `items(other)` and the like.
use crate::text::{ends_with, has_suffix};
use vstd::prelude::*;

verus! {

/// `key` is a plural form: a non-empty base key followed by a plural category.
pub open spec fn is_plural_key_spec(key: Seq<char>) -> bool {
    exists|suffix: Seq<char>|
        #![trigger has_suffix(key, suffix)]
        plural_category(suffix) && has_suffix(key, suffix) && suffix.len() < key.len()
}

/// The six CLDR plural categories, each in parentheses.
pub open spec fn plural_category(suffix: Seq<char>) -> bool {
    suffix == "(zero)"@ || suffix == "(one)"@ || suffix == "(two)"@ || suffix == "(few)"@ || suffix
        == "(many)"@ || suffix == "(other)"@
}

fn ends_with_form(key: &str, suffix: &str) -> (r: bool)
    ensures
        r == (has_suffix(key@, suffix@) && suffix@.len() < key@.len()),
{
    ends_with(key, suffix) && suffix.unicode_len() < key.unicode_len()
}

/// Whether `key` is a plural form such as `items(one)`.
pub fn is_plural_key(key: &str) -> (r: bool)
    ensures
        r == is_plural_key_spec(key@),
{
    proof {
        reveal_strlit("(zero)");
        reveal_strlit("(one)");
        reveal_strlit("(two)");
        reveal_strlit("(few)");
        reveal_strlit("(many)");
        reveal_strlit("(other)");
    }
    let r = ends_with_form(key, "(zero)") || ends_with_form(key, "(one)") || ends_with_form(
        key,
        "(two)",
    ) || ends_with_form(key, "(few)") || ends_with_form(key, "(many)") || ends_with_form(
        key,
        "(other)",
    );
    proof {
        if r {
            if has_suffix(key@, "(zero)"@) && 6 < key@.len() {
                assert(plural_category("(zero)"@));
            } else if has_suffix(key@, "(one)"@) && 5 < key@.len() {
                assert(plural_category("(one)"@));
            } else if has_suffix(key@, "(two)"@) && 5 < key@.len() {
                assert(plural_category("(two)"@));
            } else if has_suffix(key@, "(few)"@) && 5 < key@.len() {
                assert(plural_category("(few)"@));
            } else if has_suffix(key@, "(many)"@) && 6 < key@.len() {
                assert(plural_category("(many)"@));
            } else {
                assert(plural_category("(other)"@));
            }
        }
    }
    r
}

/// Index of the last `c` in `s`, or -1.
pub open spec fn last_index_of(s: Seq<char>, c: char) -> int
    decreases s.len(),
{
    if s.len() == 0 {
        -1
    } else if s.last() == c {
        s.len() - 1
    } else {
        last_index_of(s.drop_last(), c)
    }
}

/// The key without its plural category: what precedes the last `(`, or the whole key.
pub open spec fn base_key_spec(key: Seq<char>) -> Seq<char> {
    if last_index_of(key, '(') >= 0 {
        key.subrange(0, last_index_of(key, '('))
    } else {
        key
    }
}

proof fn lemma_last_index_of_skip(s: Seq<char>, c: char, i: int)
    requires
        0 <= i <= s.len(),
        forall|j: int| i <= j < s.len() ==> s[j] != c,
    ensures
        last_index_of(s, c) == last_index_of(s.subrange(0, i), c),
    decreases s.len() - i,
{
    if i < s.len() {
        assert(s.last() != c);
        assert forall|j: int| i <= j < s.drop_last().len() implies s.drop_last()[j] != c by {
            assert(s.drop_last()[j] == s[j]);
        }
        lemma_last_index_of_skip(s.drop_last(), c, i);
        assert(s.drop_last().subrange(0, i) =~= s.subrange(0, i));
    } else {
        assert(s.subrange(0, i) =~= s);
    }
}

/// The key without its plural category, e.g. `items(one)` gives `items`.
pub fn extract_base_key(key: &str) -> (r: String)
    ensures
        r@ == base_key_spec(key@),
{
    let n = key.unicode_len();
    let mut i: usize = n;
    while i > 0
        invariant
            n == key@.len(),
            i <= n,
            forall|j: int| i <= j < n ==> key@[j] != '(',
        decreases i,
    {
        if key.get_char(i - 1) == '(' {
            proof {
                lemma_last_index_of_skip(key@, '(', i as int);
                let p = key@.subrange(0, i as int);
                assert(p.last() == '(');
            }
            return key.substring_char(0, i - 1).to_owned();
        }
        i = i - 1;
    }
    proof {
        lemma_last_index_of_skip(key@, '(', 0);
    }
    assert(key@.subrange(0, n as int) =~= key@);
    key.to_owned()
}

} // verus!
