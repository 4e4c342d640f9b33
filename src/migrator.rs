//! Key rewriting applied when translations are migrated from other formats.
use crate::text::{ascii_upper, lower_of, lowercase, push_char, to_ascii_upper};
use vstd::prelude::*;

verus! {

/// Source formats that can be migrated.
#[derive(Debug, Clone, Copy)]
pub enum MigrationFormat {
    CustomJson,
    Gettext,
}

/// How keys are rewritten during a migration.
#[derive(Debug, Clone, Copy)]
pub enum KeyTransform {
    SnakeToCamel,
    UpperToLower,
    DotToNested,
    /// Keys are kept as they are.
    NoChange,
}

/// Reads `s` left to right: the output so far, and whether the next character is to be
/// capitalised (it follows an underscore).
pub open spec fn camel_run(s: Seq<char>) -> (Seq<char>, bool)
    decreases s.len(),
{
    if s.len() == 0 {
        (Seq::empty(), false)
    } else {
        let prev = camel_run(s.drop_last());
        let c = s.last();
        if c == '_' {
            (prev.0, true)
        } else if prev.1 {
            (prev.0.push(ascii_upper(c)), false)
        } else {
            (prev.0.push(c), false)
        }
    }
}

/// Underscores removed, and the character after each run of them upper-cased.
pub open spec fn snake_to_camel_spec(s: Seq<char>) -> Seq<char> {
    camel_run(s).0
}

pub open spec fn transform_key_spec(key: Seq<char>, strategy: KeyTransform) -> Seq<char> {
    match strategy {
        KeyTransform::SnakeToCamel => snake_to_camel_spec(key),
        KeyTransform::UpperToLower => lower_of(key),
        KeyTransform::DotToNested => key,
        KeyTransform::NoChange => key,
    }
}

/// Rewrites `key` as `strategy` says. Dotted keys are left as they are: nesting is done
/// when the output is written.
pub fn transform_key(key: &str, strategy: KeyTransform) -> (r: String)
    ensures
        r@ == transform_key_spec(key@, strategy),
{
    match strategy {
        KeyTransform::SnakeToCamel => snake_to_camel(key),
        KeyTransform::UpperToLower => lowercase(key),
        KeyTransform::DotToNested => key.to_owned(),
        KeyTransform::NoChange => key.to_owned(),
    }
}

/// `hello_world` becomes `helloWorld`.
pub fn snake_to_camel(s: &str) -> (r: String)
    ensures
        r@ == snake_to_camel_spec(s@),
{
    let mut result = String::new();
    let mut capitalize_next = false;
    let n = s.unicode_len();
    let mut i: usize = 0;
    while i < n
        invariant
            n == s@.len(),
            i <= n,
            (result@, capitalize_next) == camel_run(s@.subrange(0, i as int)),
        decreases n - i,
    {
        let c = s.get_char(i);
        assert(s@.subrange(0, i + 1).drop_last() == s@.subrange(0, i as int));
        if c == '_' {
            capitalize_next = true;
        } else if capitalize_next {
            push_char(&mut result, to_ascii_upper(c));
            capitalize_next = false;
        } else {
            push_char(&mut result, c);
        }
        i = i + 1;
    }
    assert(s@.subrange(0, n as int) =~= s@);
    result
}

} // verus!
