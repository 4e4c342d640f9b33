//! Rules for locale codes and translation keys.
use crate::config::{Config, ConfigError};
use vstd::prelude::*;

verus! {

pub open spec fn is_ascii_letter(c: char) -> bool {
    ('a' <= c && c <= 'z') || ('A' <= c && c <= 'Z')
}

pub open spec fn is_ascii_digit(c: char) -> bool {
    '0' <= c && c <= '9'
}

pub open spec fn is_ascii_lower(c: char) -> bool {
    'a' <= c && c <= 'z'
}

/// Letters, digits and hyphens are the characters of a locale code.
pub open spec fn locale_char(c: char) -> bool {
    is_ascii_letter(c) || is_ascii_digit(c) || c == '-'
}

/// Index of the first `c` in `s` at or after `from`, or `s.len()`.
pub open spec fn index_from(s: Seq<char>, c: char, from: int) -> int
    decreases s.len() - from,
{
    if from >= s.len() {
        s.len() as int
    } else if s[from] == c {
        from
    } else {
        index_from(s, c, from + 1)
    }
}

pub open spec fn is_char(c: char) -> spec_fn(char) -> bool {
    |x: char| x == c
}

pub open spec fn count_char(s: Seq<char>, c: char) -> nat {
    s.filter(is_char(c)).len()
}

/// The language part of a locale code: what precedes the first hyphen.
pub open spec fn language_part(s: Seq<char>) -> Seq<char> {
    s.subrange(0, index_from(s, '-', 0))
}

/// The region or script part: between the first and the second hyphen.
pub open spec fn region_part(s: Seq<char>) -> Seq<char> {
    let a = index_from(s, '-', 0) + 1;
    s.subrange(a, index_from(s, '-', a))
}

/// Why a locale code was refused.
#[derive(Debug, Clone, Copy, PartialEq, Eq)]
pub enum LocaleCodeError {
    Empty,
    InvalidCharacters,
    InvalidFormat,
    LanguageLength,
    LanguageNotLowercase,
    RegionLength,
    RegionNotLetters,
}

/// The verdict on a locale code, rule by rule in order.
pub open spec fn locale_code_verdict(s: Seq<char>) -> Result<(), LocaleCodeError> {
    let lang = language_part(s);
    let region = region_part(s);
    if s.len() == 0 {
        Err(LocaleCodeError::Empty)
    } else if exists|i: int| 0 <= i < s.len() && !locale_char(#[trigger] s[i]) {
        Err(LocaleCodeError::InvalidCharacters)
    } else if count_char(s, '-') > 2 {
        Err(LocaleCodeError::InvalidFormat)
    } else if lang.len() < 2 || lang.len() > 3 {
        Err(LocaleCodeError::LanguageLength)
    } else if exists|i: int| 0 <= i < lang.len() && !is_ascii_lower(#[trigger] lang[i]) {
        Err(LocaleCodeError::LanguageNotLowercase)
    } else if count_char(s, '-') >= 1 && (region.len() < 2 || region.len() > 4) {
        Err(LocaleCodeError::RegionLength)
    } else if count_char(s, '-') >= 1 && exists|i: int|
        0 <= i < region.len() && !is_ascii_letter(#[trigger] region[i]) {
        Err(LocaleCodeError::RegionNotLetters)
    } else {
        Ok(())
    }
}

impl LocaleCodeError {
    /// A sentence that says what is wrong.
    /// The text of [`Self::message`].
    pub open spec fn message_text(&self) -> Seq<char> {
        match self {
            LocaleCodeError::Empty => "Locale code cannot be empty"@,
            LocaleCodeError::InvalidCharacters => "Invalid locale code: contains invalid characters (only letters, digits and hyphens are allowed)"@,
            LocaleCodeError::InvalidFormat => "Invalid locale code: invalid format (expected xx, xx-YY or xx-Script-YY)"@,
            LocaleCodeError::LanguageLength => "Invalid locale code: language code must be 2-3 characters"@,
            LocaleCodeError::LanguageNotLowercase => "Invalid locale code: language code must be lowercase"@,
            LocaleCodeError::RegionLength => "Invalid locale code: region/script code must be 2-4 characters"@,
            LocaleCodeError::RegionNotLetters => "Invalid locale code: region/script code must contain only letters"@,
        }
    }

    pub fn message(&self) -> (r: &'static str)
        ensures
            r@ == self.message_text(),
    {
        match self {
            LocaleCodeError::Empty => "Locale code cannot be empty",
            LocaleCodeError::InvalidCharacters => "Invalid locale code: contains invalid characters (only letters, digits and hyphens are allowed)",
            LocaleCodeError::InvalidFormat => "Invalid locale code: invalid format (expected xx, xx-YY or xx-Script-YY)",
            LocaleCodeError::LanguageLength => "Invalid locale code: language code must be 2-3 characters",
            LocaleCodeError::LanguageNotLowercase => "Invalid locale code: language code must be lowercase",
            LocaleCodeError::RegionLength => "Invalid locale code: region/script code must be 2-4 characters",
            LocaleCodeError::RegionNotLetters => "Invalid locale code: region/script code must contain only letters",
        }
    }
}

/// Index of the first `c` in `s` at or after `from`, or the length of `s`.
fn find_char_from(s: &str, n: usize, c: char, from: usize) -> (r: usize)
    requires
        n == s@.len(),
        from <= n,
    ensures
        r == index_from(s@, c, from as int),
        from <= r <= n,
        forall|j: int| from <= j < r ==> s@[j] != c,
        r < n ==> s@[r as int] == c,
{
    let mut i: usize = from;
    while i < n
        invariant
            n == s@.len(),
            from <= i <= n,
            index_from(s@, c, from as int) == index_from(s@, c, i as int),
            forall|j: int| from <= j < i ==> s@[j] != c,
        decreases n - i,
    {
        if s.get_char(i) == c {
            return i;
        }
        i = i + 1;
    }
    i
}

fn count_hyphens(s: &str, n: usize) -> (r: usize)
    requires
        n == s@.len(),
    ensures
        r == count_char(s@, '-'),
{
    let mut k: usize = 0;
    let mut i: usize = 0;
    while i < n
        invariant
            n == s@.len(),
            i <= n,
            k == count_char(s@.subrange(0, i as int), '-'),
            k <= i,
        decreases n - i,
    {
        let c = s.get_char(i);
        proof {
            let pre = s@.subrange(0, i as int);
            assert(s@.subrange(0, i + 1) == pre.push(c));
            pre.lemma_filter_push(c, is_char('-'));
        }
        if c == '-' {
            k = k + 1;
        }
        i = i + 1;
    }
    assert(s@.subrange(0, n as int) =~= s@);
    k
}

/// Checks a locale code such as `en`, `en-US` or `zh-Hans-CN`: letters, digits and
/// hyphens only; at most three parts; a lowercase language of 2-3 letters; a region or
/// script of 2-4 letters when there is one.
pub fn validate_locale_code(locale: &str) -> (r: Result<(), LocaleCodeError>)
    ensures
        r == locale_code_verdict(locale@),
{
    let ghost s = locale@;
    let n = locale.unicode_len();
    if n == 0 {
        return Err(LocaleCodeError::Empty);
    }
    let mut i: usize = 0;
    while i < n
        invariant
            n == s.len(),
            s == locale@,
            i <= n,
            forall|j: int| 0 <= j < i ==> locale_char(#[trigger] s[j]),
        decreases n - i,
    {
        let c = locale.get_char(i);
        if !(('a' <= c && c <= 'z') || ('A' <= c && c <= 'Z') || ('0' <= c && c <= '9') || c
            == '-') {
            assert(!locale_char(s[i as int]));
            return Err(LocaleCodeError::InvalidCharacters);
        }
        i = i + 1;
    }
    if count_hyphens(locale, n) > 2 {
        return Err(LocaleCodeError::InvalidFormat);
    }
    let d1 = find_char_from(locale, n, '-', 0);
    assert(language_part(s).len() == d1);
    if d1 < 2 || d1 > 3 {
        return Err(LocaleCodeError::LanguageLength);
    }
    let mut i: usize = 0;
    while i < d1
        invariant
            d1 <= n,
            n == s.len(),
            s == locale@,
            i <= d1,
            d1 == index_from(s, '-', 0),
            2 <= d1 <= 3,
            forall|j: int| 0 <= j < n ==> locale_char(#[trigger] s[j]),
            count_char(s, '-') <= 2,
            forall|j: int| 0 <= j < i ==> is_ascii_lower(#[trigger] language_part(s)[j]),
        decreases d1 - i,
    {
        let c = locale.get_char(i);
        assert(language_part(s)[i as int] == c);
        if !('a' <= c && c <= 'z') {
            assert(!is_ascii_lower(language_part(s)[i as int]));
            return Err(LocaleCodeError::LanguageNotLowercase);
        }
        i = i + 1;
    }
    if d1 < n {
        proof {
            assert(s[d1 as int] == '-');
            lemma_count_positive(s, d1 as int);
        }
        let d2 = find_char_from(locale, n, '-', d1 + 1);
        let len = d2 - (d1 + 1);
        if len < 2 || len > 4 {
            return Err(LocaleCodeError::RegionLength);
        }
        let mut i: usize = d1 + 1;
        while i < d2
            invariant
                d1 < d2 <= n,
                n == s.len(),
                s == locale@,
                d1 + 1 <= i <= d2,
                d1 == index_from(s, '-', 0),
                d2 == index_from(s, '-', d1 + 1),
                2 <= d1 <= 3,
                2 <= d2 - (d1 + 1) <= 4,
                count_char(s, '-') >= 1,
                forall|j: int| 0 <= j < n ==> locale_char(#[trigger] s[j]),
                count_char(s, '-') <= 2,
                forall|j: int| 0 <= j < d1 ==> is_ascii_lower(#[trigger] language_part(s)[j]),
                forall|j: int|
                    0 <= j < i - (d1 + 1) ==> is_ascii_letter(#[trigger] region_part(s)[j]),
            decreases d2 - i,
        {
            let c = locale.get_char(i);
            assert(region_part(s)[i - (d1 + 1)] == c);
            if !(('a' <= c && c <= 'z') || ('A' <= c && c <= 'Z')) {
                assert(!is_ascii_letter(region_part(s)[i - (d1 + 1)]));
                return Err(LocaleCodeError::RegionNotLetters);
            }
            i = i + 1;
        }
        Ok(())
    } else {
        proof {
            lemma_no_char_count(s, '-');
        }
        Ok(())
    }
}

proof fn lemma_count_positive(s: Seq<char>, i: int)
    requires
        0 <= i < s.len(),
        s[i] == '-',
    ensures
        count_char(s, '-') >= 1,
{
    s.lemma_filter_contains(is_char('-'), i);
    s.lemma_filter_len(is_char('-'));
    assert(s.filter(is_char('-')).len() > 0);
}

proof fn lemma_no_char_count(s: Seq<char>, c: char)
    requires
        index_from(s, c, 0) == s.len(),
    ensures
        count_char(s, c) == 0,
{
    assert forall|j: int| 0 <= j < s.len() implies s[j] != c by {
        lemma_index_from_first(s, c, 0, j);
    }
    lemma_filter_empty(s, c);
}

proof fn lemma_index_from_first(s: Seq<char>, c: char, from: int, j: int)
    requires
        0 <= from <= j < index_from(s, c, from),
    ensures
        s[j] != c,
    decreases s.len() - from,
{
    if from < j {
        lemma_index_from_first(s, c, from + 1, j);
    }
}

proof fn lemma_filter_empty(s: Seq<char>, c: char)
    requires
        forall|j: int| 0 <= j < s.len() ==> s[j] != c,
    ensures
        s.filter(is_char(c)).len() == 0,
    decreases s.len(),
{
    reveal(Seq::filter);
    if s.len() > 0 {
        assert forall|j: int| 0 <= j < s.drop_last().len() implies s.drop_last()[j] != c by {
            assert(s.drop_last()[j] == s[j]);
        }
        lemma_filter_empty(s.drop_last(), c);
    }
}

/// Characters that file systems reserve, which keys may not hold.
pub open spec fn is_reserved(c: char) -> bool {
    c == '/' || c == '\\' || c == ':' || c == '*' || c == '?' || c == '"' || c == '<' || c == '>'
        || c == '|' || c == '\0'
}

/// The characters with the Unicode `White_Space` property.
pub open spec fn is_whitespace(c: char) -> bool {
    ('\u{9}' <= c && c <= '\u{d}') || c == ' ' || c == '\u{85}' || c == '\u{a0}' || c == '\u{1680}'
        || ('\u{2000}' <= c && c <= '\u{200a}') || c == '\u{2028}' || c == '\u{2029}' || c
        == '\u{202f}' || c == '\u{205f}' || c == '\u{3000}'
}

fn whitespace_char(c: char) -> (r: bool)
    ensures
        r == is_whitespace(c),
{
    ('\u{9}' <= c && c <= '\u{d}') || c == ' ' || c == '\u{85}' || c == '\u{a0}' || c == '\u{1680}'
        || ('\u{2000}' <= c && c <= '\u{200a}') || c == '\u{2028}' || c == '\u{2029}' || c
        == '\u{202f}' || c == '\u{205f}' || c == '\u{3000}'
}

fn reserved_char(c: char) -> (r: bool)
    ensures
        r == is_reserved(c),
{
    c == '/' || c == '\\' || c == ':' || c == '*' || c == '?' || c == '"' || c == '<' || c == '>'
        || c == '|' || c == '\0'
}

/// Why a translation key was refused.
#[derive(Debug, Clone, Copy, PartialEq, Eq)]
pub enum KeyError {
    Empty,
    LeadingDot,
    TrailingDot,
    ConsecutiveDots,
    /// The first reserved character of the key.
    ReservedCharacter(char),
    Whitespace,
}

/// Index of the first reserved character of `s`, or `s.len()`.
pub open spec fn first_reserved(s: Seq<char>, from: int) -> int
    decreases s.len() - from,
{
    if from >= s.len() {
        s.len() as int
    } else if is_reserved(s[from]) {
        from
    } else {
        first_reserved(s, from + 1)
    }
}

/// The verdict on a translation key, rule by rule in order.
pub open spec fn key_verdict(s: Seq<char>) -> Result<(), KeyError> {
    if s.len() == 0 {
        Err(KeyError::Empty)
    } else if s[0] == '.' {
        Err(KeyError::LeadingDot)
    } else if s.last() == '.' {
        Err(KeyError::TrailingDot)
    } else if exists|i: int| 0 <= i < s.len() - 1 && #[trigger] s[i] == '.' && s[i + 1] == '.' {
        Err(KeyError::ConsecutiveDots)
    } else if first_reserved(s, 0) < s.len() {
        Err(KeyError::ReservedCharacter(s[first_reserved(s, 0)]))
    } else if exists|i: int| 0 <= i < s.len() && is_whitespace(#[trigger] s[i]) {
        Err(KeyError::Whitespace)
    } else {
        Ok(())
    }
}

impl KeyError {
    /// A sentence that says what is wrong.
    /// The text of [`Self::message`].
    pub open spec fn message_text(&self) -> Seq<char> {
        match self {
            KeyError::Empty => "Translation key cannot be empty"@,
            KeyError::LeadingDot => "Invalid translation key: Cannot start with a dot"@,
            KeyError::TrailingDot => "Invalid translation key: Cannot end with a dot"@,
            KeyError::ConsecutiveDots => "Invalid translation key: Cannot contain consecutive dots"@,
            KeyError::ReservedCharacter(_) => "Invalid translation key: Contains reserved character"@,
            KeyError::Whitespace => "Invalid translation key: Cannot contain whitespace"@,
        }
    }

    pub fn message(&self) -> (r: &'static str)
        ensures
            r@ == self.message_text(),
    {
        match self {
            KeyError::Empty => "Translation key cannot be empty",
            KeyError::LeadingDot => "Invalid translation key: Cannot start with a dot",
            KeyError::TrailingDot => "Invalid translation key: Cannot end with a dot",
            KeyError::ConsecutiveDots => "Invalid translation key: Cannot contain consecutive dots",
            KeyError::ReservedCharacter(_) => "Invalid translation key: Contains reserved character",
            KeyError::Whitespace => "Invalid translation key: Cannot contain whitespace",
        }
    }
}

/// Checks a dotted translation key: not empty, no dot at either end, no empty segment,
/// no reserved character and no whitespace.
pub fn validate_translation_key(key: &str) -> (r: Result<(), KeyError>)
    ensures
        r == key_verdict(key@),
{
    let ghost s = key@;
    let n = key.unicode_len();
    if n == 0 {
        return Err(KeyError::Empty);
    }
    if key.get_char(0) == '.' {
        return Err(KeyError::LeadingDot);
    }
    if key.get_char(n - 1) == '.' {
        return Err(KeyError::TrailingDot);
    }
    let mut i: usize = 0;
    while i + 1 < n
        invariant
            n == s.len(),
            s == key@,
            n > 0,
            i < n,
            s[0] != '.',
            s[n - 1] != '.',
            forall|j: int| 0 <= j < i ==> !(#[trigger] s[j] == '.' && s[j + 1] == '.'),
        decreases n - i,
    {
        if key.get_char(i) == '.' && key.get_char(i + 1) == '.' {
            assert(s[i as int] == '.' && s[i + 1] == '.');
            return Err(KeyError::ConsecutiveDots);
        }
        i = i + 1;
    }
    let mut i: usize = 0;
    while i < n
        invariant
            n == s.len(),
            s == key@,
            i <= n,
            n > 0,
            s[0] != '.',
            s[n - 1] != '.',
            forall|j: int| 0 <= j < n - 1 ==> !(#[trigger] s[j] == '.' && s[j + 1] == '.'),
            first_reserved(s, 0) == first_reserved(s, i as int),
        decreases n - i,
    {
        let c = key.get_char(i);
        if reserved_char(c) {
            return Err(KeyError::ReservedCharacter(c));
        }
        i = i + 1;
    }
    let mut i: usize = 0;
    while i < n
        invariant
            n == s.len(),
            s == key@,
            i <= n,
            n > 0,
            s[0] != '.',
            s[n - 1] != '.',
            forall|j: int| 0 <= j < n - 1 ==> !(#[trigger] s[j] == '.' && s[j + 1] == '.'),
            first_reserved(s, 0) == n,
            forall|j: int| 0 <= j < i ==> !is_whitespace(#[trigger] s[j]),
        decreases n - i,
    {
        if whitespace_char(key.get_char(i)) {
            assert(is_whitespace(s[i as int]));
            return Err(KeyError::Whitespace);
        }
        i = i + 1;
    }
    Ok(())
}

/// `s` holds two dots in a row.
pub open spec fn has_double_dot(s: Seq<char>) -> bool {
    exists|i: int| 0 <= i < s.len() - 1 && #[trigger] s[i] == '.' && s[i + 1] == '.'
}

fn contains_double_dot(s: &str) -> (r: bool)
    ensures
        r == has_double_dot(s@),
{
    let n = s.unicode_len();
    let mut i: usize = 0;
    while i < n
        invariant
            n == s@.len(),
            i <= n,
            forall|j: int| 0 <= j < i && j < n - 1 ==> !(#[trigger] s@[j] == '.' && s@[j + 1] == '.'),
        decreases n - i,
    {
        if i + 1 < n && s.get_char(i) == '.' && s.get_char(i + 1) == '.' {
            return true;
        }
        i = i + 1;
    }
    false
}

/// Whether a path is free of `..`, which could step out of the project.
pub fn validate_relative_path(path: &str) -> (r: bool)
    ensures
        r == !has_double_dot(path@),
{
    !contains_double_dot(path)
}

/// What `char::is_alphanumeric` says of a character (Unicode `Alphabetic` or `Numeric`).
pub uninterp spec fn alphanumeric(c: char) -> bool;

/// Relies on `char::is_alphanumeric`: Unicode alphabetic or numeric.
#[verifier::external_body]
fn is_alphanumeric_char(c: char) -> (r: bool)
    ensures
        r == alphanumeric(c),
{
    c.is_alphanumeric()
}

/// Why a configuration failed the full check.
#[derive(Debug, Clone, Copy, PartialEq, Eq)]
pub enum ConfigCheckError {
    /// One of the consistency rules of [`Config::validate`].
    Config(ConfigError),
    BaseLocale(LocaleCodeError),
    SupportedLocale(LocaleCodeError),
    /// A directory or the override file holds `..`.
    PathTraversal,
    EmptyNamespace,
    NamespaceInvalidCharacters,
    NamespaceStartsWithDigit,
}

impl ConfigCheckError {
    /// A sentence that says what is wrong.
    /// The text of [`Self::message`].
    pub open spec fn message_text(&self) -> Seq<char> {
        match self {
            ConfigCheckError::Config(e) => e.message_text(),
            ConfigCheckError::BaseLocale(_) => "Configuration error in base_locale: invalid locale code"@,
            ConfigCheckError::SupportedLocale(_) => "Configuration error in supported_locales: invalid locale code"@,
            ConfigCheckError::PathTraversal => "Invalid path: Path traversal not allowed"@,
            ConfigCheckError::EmptyNamespace => "Configuration error: namespace cannot be empty"@,
            ConfigCheckError::NamespaceInvalidCharacters => "Configuration error: namespace contains invalid characters"@,
            ConfigCheckError::NamespaceStartsWithDigit => "Configuration error: namespace cannot start with a digit"@,
        }
    }

    pub fn message(&self) -> (r: &'static str)
        ensures
            r@ == self.message_text(),
    {
        match self {
            ConfigCheckError::Config(e) => e.message(),
            ConfigCheckError::BaseLocale(_) => "Configuration error in base_locale: invalid locale code",
            ConfigCheckError::SupportedLocale(_) => "Configuration error in supported_locales: invalid locale code",
            ConfigCheckError::PathTraversal => "Invalid path: Path traversal not allowed",
            ConfigCheckError::EmptyNamespace => "Configuration error: namespace cannot be empty",
            ConfigCheckError::NamespaceInvalidCharacters => "Configuration error: namespace contains invalid characters",
            ConfigCheckError::NamespaceStartsWithDigit => "Configuration error: namespace cannot start with a digit",
        }
    }
}

pub open spec fn namespace_char(c: char) -> bool {
    alphanumeric(c) || c == '_'
}

/// The verdict of the full check, rule by rule in order.
pub open spec fn config_check_verdict(c: Config) -> Result<(), ConfigCheckError> {
    let locales = c.supported_locales@;
    if c.verdict() is Err {
        Err(ConfigCheckError::Config(c.verdict()->Err_0))
    } else if locale_code_verdict(c.base_locale@) is Err {
        Err(ConfigCheckError::BaseLocale(locale_code_verdict(c.base_locale@)->Err_0))
    } else if exists|i: int| 0 <= i < locales.len() && #[trigger] locale_code_verdict(locales[i]@) is Err {
        Err(ConfigCheckError::SupportedLocale(locale_code_verdict(locales[first_bad_locale(locales, 0)]@)->Err_0))
    } else if has_double_dot(c.input_directory@) || has_double_dot(c.output_directory@) {
        Err(ConfigCheckError::PathTraversal)
    } else if c.namespace is Some && c.namespace->Some_0@.len() == 0 {
        Err(ConfigCheckError::EmptyNamespace)
    } else if c.namespace is Some && exists|i: int|
        0 <= i < c.namespace->Some_0@.len() && !namespace_char(#[trigger] c.namespace->Some_0@[i]) {
        Err(ConfigCheckError::NamespaceInvalidCharacters)
    } else if c.namespace is Some && is_ascii_digit(c.namespace->Some_0@[0]) {
        Err(ConfigCheckError::NamespaceStartsWithDigit)
    } else if c.overrides is Some && c.overrides->Some_0.enabled && has_double_dot(
        c.overrides->Some_0.file@,
    ) {
        Err(ConfigCheckError::PathTraversal)
    } else {
        Ok(())
    }
}

/// Index of the first supported locale at or after `from` whose code is malformed.
pub open spec fn first_bad_locale(locales: Seq<String>, from: int) -> int
    decreases locales.len() - from,
{
    if from >= locales.len() {
        locales.len() as int
    } else if locale_code_verdict(locales[from]@) is Err {
        from
    } else {
        first_bad_locale(locales, from + 1)
    }
}

proof fn lemma_first_bad_locale(locales: Seq<String>, from: int)
    requires
        0 <= from <= locales.len(),
    ensures
        from <= first_bad_locale(locales, from) <= locales.len(),
        first_bad_locale(locales, from) < locales.len() ==> locale_code_verdict(
            locales[first_bad_locale(locales, from)]@,
        ) is Err,
        forall|j: int| from <= j < first_bad_locale(locales, from) ==> #[trigger] locale_code_verdict(locales[j]@) is Ok,
    decreases locales.len() - from,
{
    if from < locales.len() && locale_code_verdict(locales[from]@) is Ok {
        lemma_first_bad_locale(locales, from + 1);
    }
}

fn namespace_chars(ns: &str) -> (r: bool)
    ensures
        r == forall|j: int| 0 <= j < ns@.len() ==> namespace_char(#[trigger] ns@[j]),
{
    let n = ns.unicode_len();
    let mut i: usize = 0;
    while i < n
        invariant
            n == ns@.len(),
            i <= n,
            forall|j: int| 0 <= j < i ==> namespace_char(#[trigger] ns@[j]),
        decreases n - i,
    {
        let c = ns.get_char(i);
        if !(is_alphanumeric_char(c) || c == '_') {
            assert(!namespace_char(ns@[i as int]));
            return false;
        }
        i = i + 1;
    }
    true
}

/// The full check of a configuration: its consistency rules, then the format of each
/// locale code, paths free of `..`, and a namespace that is a valid identifier.
/// (Absolute paths outside the project are checked by the caller, on the file system.)
pub fn validate_config(config: &Config) -> (r: Result<(), ConfigCheckError>)
    ensures
        r == config_check_verdict(*config),
{
    match config.validate() {
        Err(e) => return Err(ConfigCheckError::Config(e)),
        Ok(()) => {},
    }
    match validate_locale_code(config.base_locale.as_str()) {
        Err(e) => return Err(ConfigCheckError::BaseLocale(e)),
        Ok(()) => {},
    }
    let ghost locales = config.supported_locales@;
    let mut i: usize = 0;
    while i < config.supported_locales.len()
        invariant
            locales == config.supported_locales@,
            i <= locales.len(),
            config.verdict() is Ok,
            locale_code_verdict(config.base_locale@) is Ok,
            forall|j: int| 0 <= j < i ==> #[trigger] locale_code_verdict(locales[j]@) is Ok,
        decreases locales.len() - i,
    {
        match validate_locale_code(config.supported_locales[i].as_str()) {
            Err(e) => {
                proof {
                    lemma_first_bad_locale(locales, 0);
                    assert(locale_code_verdict(locales[i as int]@) is Err);
                    if first_bad_locale(locales, 0) < i {
                        let k = first_bad_locale(locales, 0);
                        assert(locale_code_verdict(locales[k]@) is Ok);
                    }
                }
                return Err(ConfigCheckError::SupportedLocale(e));
            },
            Ok(()) => {},
        }
        i = i + 1;
    }
    if !validate_relative_path(config.input_directory.as_str()) || !validate_relative_path(
        config.output_directory.as_str(),
    ) {
        return Err(ConfigCheckError::PathTraversal);
    }
    match &config.namespace {
        Some(ns) => {
            let n = ns.as_str().unicode_len();
            if n == 0 {
                return Err(ConfigCheckError::EmptyNamespace);
            }
            if !namespace_chars(ns.as_str()) {
                return Err(ConfigCheckError::NamespaceInvalidCharacters);
            }
            let c0 = ns.as_str().get_char(0);
            if '0' <= c0 && c0 <= '9' {
                return Err(ConfigCheckError::NamespaceStartsWithDigit);
            }
        },
        None => {},
    }
    match &config.overrides {
        Some(o) => {
            if o.enabled && !validate_relative_path(o.file.as_str()) {
                return Err(ConfigCheckError::PathTraversal);
            }
        },
        None => {},
    }
    Ok(())
}

} // verus!
