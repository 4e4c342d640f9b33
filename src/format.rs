//! Format specifiers of translation parameters, such as `{price:fixed(2)}`.
use crate::text::{ends_with, has_prefix, has_suffix, starts_with, str_eq};
use crate::types::{decimal_digits, decimal_text};
use crate::validation::{index_from, is_whitespace};
use vstd::prelude::*;
use vstd::string::StringExecFns;

verus! {

/// How a parameter is formatted before it is substituted.
#[derive(Debug, Clone, Copy, PartialEq, Eq)]
pub enum FormatSpecifier {
    Int,
    /// A number with this many decimals.
    Fixed(usize),
    Num,
    DateTime,
    Translate,
    /// Substituted as it is.
    Unformatted,
}

/// Index of the first non-whitespace character at or after `from`, or `s.len()`.
pub open spec fn first_non_ws(s: Seq<char>, from: int) -> int
    decreases s.len() - from,
{
    if from >= s.len() {
        s.len() as int
    } else if !is_whitespace(s[from]) {
        from
    } else {
        first_non_ws(s, from + 1)
    }
}

/// One past the last non-whitespace character before `to`, or 0.
pub open spec fn last_non_ws_end(s: Seq<char>, to: int) -> int
    decreases to,
{
    if to <= 0 {
        0
    } else if !is_whitespace(s[to - 1]) {
        to
    } else {
        last_non_ws_end(s, to - 1)
    }
}

/// `s` without leading and trailing Unicode whitespace.
pub open spec fn trim_spec(s: Seq<char>) -> Seq<char> {
    let a = first_non_ws(s, 0);
    if a >= s.len() {
        Seq::empty()
    } else {
        s.subrange(a, last_non_ws_end(s, s.len() as int))
    }
}

fn ws(c: char) -> (r: bool)
    ensures
        r == is_whitespace(c),
{
    ('\u{9}' <= c && c <= '\u{d}') || c == ' ' || c == '\u{85}' || c == '\u{a0}' || c == '\u{1680}'
        || ('\u{2000}' <= c && c <= '\u{200a}') || c == '\u{2028}' || c == '\u{2029}' || c
        == '\u{202f}' || c == '\u{205f}' || c == '\u{3000}'
}

/// `s` without leading and trailing whitespace.
pub fn trim(s: &str) -> (r: String)
    ensures
        r@ == trim_spec(s@),
{
    let n = s.unicode_len();
    let mut a: usize = 0;
    while a < n && ws(s.get_char(a))
        invariant
            n == s@.len(),
            a <= n,
            first_non_ws(s@, 0) == first_non_ws(s@, a as int),
        decreases n - a,
    {
        a = a + 1;
    }
    if a >= n {
        return String::new();
    }
    let mut b: usize = n;
    while b > a && ws(s.get_char(b - 1))
        invariant
            n == s@.len(),
            a < n,
            a < b <= n,
            !is_whitespace(s@[a as int]),
            last_non_ws_end(s@, n as int) == last_non_ws_end(s@, b as int),
        decreases b,
    {
        b = b - 1;
    }
    s.substring_char(a, b).to_owned()
}

/// What `usize::from_str` accepts: an optional `+`, then one or more decimal digits whose
/// value fits.
pub open spec fn digits_value(d: Seq<char>) -> nat
    decreases d.len(),
{
    if d.len() == 0 {
        0
    } else {
        digits_value(d.drop_last()) * 10 + (d.last() as nat - '0' as nat) as nat
    }
}

pub open spec fn parse_usize_spec(s: Seq<char>) -> Option<usize> {
    let d = if s.len() > 0 && s[0] == '+' {
        s.drop_first()
    } else {
        s
    };
    if d.len() > 0 && (forall|i: int| 0 <= i < d.len() ==> '0' <= #[trigger] d[i] && d[i] <= '9')
        && digits_value(d) <= usize::MAX as nat {
        Some(digits_value(d) as usize)
    } else {
        None
    }
}

/// Relies on `str::parse::<usize>`: an optional `+` and decimal digits, refused when empty,
/// when another character occurs, or when the value overflows.
#[verifier::external_body]
fn parse_usize(s: &str) -> (r: Option<usize>)
    ensures
        r == parse_usize_spec(s@),
{
    s.parse::<usize>().ok()
}

/// The specifier that follows the colon, already trimmed.
pub open spec fn specifier_of(s: Seq<char>) -> FormatSpecifier {
    if s == "int"@ {
        FormatSpecifier::Int
    } else if s == "num"@ {
        FormatSpecifier::Num
    } else if s == "datetime"@ {
        FormatSpecifier::DateTime
    } else if s == "translate"@ {
        FormatSpecifier::Translate
    } else if has_prefix(s, "fixed("@) && has_suffix(s, ")"@) {
        FormatSpecifier::Fixed(
            match parse_usize_spec(s.subrange(6, s.len() - 1)) {
                Some(n) => n,
                None => 2,
            },
        )
    } else {
        FormatSpecifier::Unformatted
    }
}

/// A parameter's name and specifier: split at the first colon, both sides trimmed.
pub open spec fn parse_format_specifier_spec(param: Seq<char>) -> (Seq<char>, FormatSpecifier) {
    let c = index_from(param, ':', 0);
    if c < param.len() {
        (trim_spec(param.subrange(0, c)), specifier_of(trim_spec(param.subrange(c + 1, param.len() as int))))
    } else {
        (trim_spec(param), FormatSpecifier::Unformatted)
    }
}

fn find_colon(s: &str) -> (r: usize)
    ensures
        r == index_from(s@, ':', 0),
        r <= s@.len(),
{
    let n = s.unicode_len();
    let mut i: usize = 0;
    while i < n
        invariant
            n == s@.len(),
            i <= n,
            index_from(s@, ':', 0) == index_from(s@, ':', i as int),
        decreases n - i,
    {
        if s.get_char(i) == ':' {
            return i;
        }
        i = i + 1;
    }
    i
}

/// Splits `name:spec` into the name and its specifier; an unknown or missing specifier is
/// `Unformatted`, and `fixed(n)` with a malformed `n` means two decimals.
pub fn parse_format_specifier(param: &str) -> (r: (String, FormatSpecifier))
    ensures
        (r.0@, r.1) == parse_format_specifier_spec(param@),
{
    let n = param.unicode_len();
    let c = find_colon(param);
    if c < n {
        let name = trim(param.substring_char(0, c));
        let spec = trim(param.substring_char(c + 1, n));
        let s = spec.as_str();
        proof {
            reveal_strlit("int");
            reveal_strlit("num");
            reveal_strlit("datetime");
            reveal_strlit("translate");
            reveal_strlit("fixed(");
            reveal_strlit(")");
        }
        let format = if str_eq(s, "int") {
            FormatSpecifier::Int
        } else if str_eq(s, "num") {
            FormatSpecifier::Num
        } else if str_eq(s, "datetime") {
            FormatSpecifier::DateTime
        } else if str_eq(s, "translate") {
            FormatSpecifier::Translate
        } else if starts_with(s, "fixed(") && ends_with(s, ")") {
            let len = s.unicode_len();
            assert(s@.len() >= 7) by {
                if s@.len() == 6 {
                    assert(s@.subrange(0, 6)[5] == s@[5]);
                    assert("fixed("@[5] == '(');
                    assert(s@.subrange(5, 6)[0] == s@[5]);
                    assert(")"@[0] == ')');
                }
            }
            let digits = parse_usize(s.substring_char(6, len - 1));
            FormatSpecifier::Fixed(
                match digits {
                    Some(d) => d,
                    None => 2,
                },
            )
        } else {
            FormatSpecifier::Unformatted
        };
        (name, format)
    } else {
        (trim(param), FormatSpecifier::Unformatted)
    }
}

/// Reads `s` left to right: the parameters closed so far, whether a `{` is open, and the
/// text since it.
pub open spec fn scan_params(s: Seq<char>) -> (Seq<Seq<char>>, bool, Seq<char>)
    decreases s.len(),
{
    if s.len() == 0 {
        (Seq::empty(), false, Seq::empty())
    } else {
        let prev = scan_params(s.drop_last());
        let c = s.last();
        if c == '{' {
            (prev.0, true, Seq::empty())
        } else if c == '}' {
            if prev.1 && prev.2.len() > 0 {
                (prev.0.push(prev.2), false, prev.2)
            } else {
                (prev.0, false, prev.2)
            }
        } else if prev.1 {
            (prev.0, true, prev.2.push(c))
        } else {
            prev
        }
    }
}

/// The parameters of `text`, each parsed, in order of appearance.
pub open spec fn parsed_params(text: Seq<char>) -> Seq<(Seq<char>, FormatSpecifier)> {
    scan_params(text).0.map_values(|p: Seq<char>| parse_format_specifier_spec(p))
}

/// `(n, f)` is the last parsed parameter named `n`.
pub open spec fn last_param(ps: Seq<(Seq<char>, FormatSpecifier)>, n: Seq<char>, f: FormatSpecifier) -> bool {
    exists|i: int|
        0 <= i < ps.len() && #[trigger] ps[i].0 == n && ps[i].1 == f && forall|j: int|
            i < j < ps.len() ==> (#[trigger] ps[j]).0 != n
}

/// Parameters by name, each with its specifier; names are unique.
#[derive(Debug, Clone)]
pub struct FormatParams {
    pub entries: Vec<(String, FormatSpecifier)>,
}

impl FormatParams {
    pub open spec fn view(&self) -> Seq<(Seq<char>, FormatSpecifier)> {
        self.entries@.map_values(|e: (String, FormatSpecifier)| (e.0@, e.1))
    }

    pub open spec fn names_unique(&self) -> bool {
        forall|i: int, j: int|
            0 <= i < self@.len() && 0 <= j < self@.len() && i != j ==> (#[trigger] self@[i]).0
                != (#[trigger] self@[j]).0
    }

    /// The number of distinct parameters.
    pub fn len(&self) -> (n: usize)
        ensures
            n == self@.len(),
    {
        self.entries.len()
    }

    fn find(&self, name: &str) -> (r: Option<usize>)
        ensures
            match r {
                Some(i) => i < self@.len() && self@[i as int].0 == name@,
                None => forall|i: int| 0 <= i < self@.len() ==> (#[trigger] self@[i]).0 != name@,
            },
    {
        let mut i: usize = 0;
        while i < self.entries.len()
            invariant
                i <= self@.len(),
                forall|j: int| 0 <= j < i ==> (#[trigger] self@[j]).0 != name@,
            decreases self@.len() - i,
        {
            if str_eq(self.entries[i].0.as_str(), name) {
                return Some(i);
            }
            i = i + 1;
        }
        None
    }

    /// The specifier of parameter `name`.
    pub fn get(&self, name: &str) -> (r: Option<&FormatSpecifier>)
        ensures
            match r {
                Some(f) => self@.contains((name@, *f)),
                None => forall|i: int| 0 <= i < self@.len() ==> (#[trigger] self@[i]).0 != name@,
            },
    {
        match self.find(name) {
            Some(i) => {
                assert(self@[i as int] == (name@, self.entries@[i as int].1));
                Some(&self.entries[i].1)
            },
            None => None,
        }
    }

    /// Sets the specifier of `name`, replacing an earlier one.
    fn set(&mut self, name: String, f: FormatSpecifier)
        requires
            old(self).names_unique(),
        ensures
            final(self).names_unique(),
            forall|p: (Seq<char>, FormatSpecifier)|
                #![trigger final(self)@.contains(p)]
                final(self)@.contains(p) <==> (p == (name@, f) || (old(self)@.contains(p) && p.0 != name@)),
    {
        let ghost before = self@;
        let ghost nv = name@;
        match self.find(name.as_str()) {
            Some(i) => {
                self.entries.set(i, (name, f));
                assert(self@ =~= before.update(i as int, (nv, f)));
                assert forall|a: int, b: int|
                    0 <= a < self@.len() && 0 <= b < self@.len() && a != b implies (#[trigger] self@[a]).0
                        != (#[trigger] self@[b]).0 by {
                    assert(self@[a].0 == before[a].0 && self@[b].0 == before[b].0);
                }
                assert forall|p: (Seq<char>, FormatSpecifier)|
                    #![trigger self@.contains(p)]
                    self@.contains(p) <==> (p == (nv, f) || (before.contains(p) && p.0 != nv)) by {
                    if self@.contains(p) {
                        let j = choose|j: int| 0 <= j < self@.len() && self@[j] == p;
                        if j != i {
                            assert(before[j] == p);
                            assert(before[j].0 != before[i as int].0);
                        }
                    }
                    if before.contains(p) && p.0 != nv {
                        let j = choose|j: int| 0 <= j < before.len() && before[j] == p;
                        assert(self@[j] == p);
                    }
                    if p == (nv, f) {
                        assert(self@[i as int] == p);
                    }
                }
            },
            None => {
                self.entries.push((name, f));
                assert(self@ =~= before.push((nv, f)));
                assert forall|p: (Seq<char>, FormatSpecifier)|
                    #![trigger self@.contains(p)]
                    self@.contains(p) <==> (p == (nv, f) || (before.contains(p) && p.0 != nv)) by {
                    if self@.contains(p) {
                        let j = choose|j: int| 0 <= j < self@.len() && self@[j] == p;
                        if j < before.len() {
                            assert(before[j] == p);
                        }
                    }
                    if before.contains(p) && p.0 != nv {
                        let j = choose|j: int| 0 <= j < before.len() && before[j] == p;
                        assert(self@[j] == p);
                    }
                    if p == (nv, f) {
                        assert(self@[before.len() as int] == p);
                    }
                }
            },
        }
    }
}

/// Collects the `{...}` parameters of `text` with their specifiers. Empty braces are
/// ignored, and a later parameter of the same name replaces an earlier one.
pub fn extract_parameters_with_format(text: &str) -> (r: FormatParams)
    ensures
        r.names_unique(),
        forall|p: (Seq<char>, FormatSpecifier)|
            #![trigger r@.contains(p)]
            r@.contains(p) <==> last_param(parsed_params(text@), p.0, p.1),
{
    let mut params = FormatParams { entries: Vec::new() };
    let mut in_param = false;
    let mut current = String::new();
    let n = text.unicode_len();
    let mut i: usize = 0;
    while i < n
        invariant
            n == text@.len(),
            i <= n,
            params.names_unique(),
            in_param == scan_params(text@.subrange(0, i as int)).1,
            current@ == scan_params(text@.subrange(0, i as int)).2,
            forall|p: (Seq<char>, FormatSpecifier)|
                #![trigger params@.contains(p)]
                params@.contains(p) <==> last_param(parsed_params(text@.subrange(0, i as int)), p.0, p.1),
        decreases n - i,
    {
        let c = text.get_char(i);
        let ghost pre = text@.subrange(0, i as int);
        let ghost nxt = text@.subrange(0, i + 1);
        assert(nxt.drop_last() == pre);
        let ghost ps = parsed_params(pre);
        if c == '{' {
            in_param = true;
            current = String::new();
            assert(parsed_params(nxt) == ps);
        } else if c == '}' {
            if in_param && current.as_str().unicode_len() > 0 {
                let (name, format) = parse_format_specifier(current.as_str());
                let ghost item = (name@, format);
                assert(parsed_params(nxt) =~= ps.push(item));
                params.set(name, format);
                assert forall|p: (Seq<char>, FormatSpecifier)|
                    #![trigger params@.contains(p)]
                    params@.contains(p) <==> last_param(ps.push(item), p.0, p.1) by {
                    let qs = ps.push(item);
                    if p == item {
                        assert(qs[ps.len() as int] == item);
                    }
                    if last_param(qs, p.0, p.1) {
                        let w = choose|w: int|
                            0 <= w < qs.len() && #[trigger] qs[w].0 == p.0 && qs[w].1 == p.1 && forall|j: int|
                                w < j < qs.len() ==> (#[trigger] qs[j]).0 != p.0;
                        if w < ps.len() {
                            assert(qs[ps.len() as int].0 != p.0);
                            assert forall|j: int| w < j < ps.len() implies (#[trigger] ps[j]).0 != p.0 by {
                                assert(qs[j] == ps[j]);
                            }
                            assert(ps[w] == qs[w]);
                            assert(last_param(ps, p.0, p.1));
                        }
                    }
                    if last_param(ps, p.0, p.1) && p.0 != item.0 {
                        let w = choose|w: int|
                            0 <= w < ps.len() && #[trigger] ps[w].0 == p.0 && ps[w].1 == p.1 && forall|j: int|
                                w < j < ps.len() ==> (#[trigger] ps[j]).0 != p.0;
                        assert(qs[w] == ps[w]);
                        assert forall|j: int| w < j < qs.len() implies (#[trigger] qs[j]).0 != p.0 by {
                            if j < ps.len() {
                                assert(qs[j] == ps[j]);
                            }
                        }
                    }
                }
            } else {
                assert(parsed_params(nxt) == ps);
            }
            in_param = false;
        } else {
            if in_param {
                crate::text::push_char(&mut current, c);
            }
            assert(parsed_params(nxt) == ps);
        }
        i = i + 1;
    }
    assert(text@.subrange(0, n as int) == text@);
    params
}

/// The Luau statement that formats parameter `param_name` as `specifier` says.
pub open spec fn format_code_spec(name: Seq<char>, specifier: FormatSpecifier) -> Seq<char> {
    match specifier {
        FormatSpecifier::Int => "params."@ + name + " = math.floor(tonumber(params."@ + name
            + ") or 0)"@,
        FormatSpecifier::Fixed(d) => "params."@ + name + " = string.format(\"%."@ + decimal_digits(
            d as nat,
        ) + "f\", tonumber(params."@ + name + ") or 0)"@,
        FormatSpecifier::Num => "params."@ + name + " = tostring(params."@ + name + " or 0)"@,
        FormatSpecifier::DateTime => "if typeof(params."@ + name
            + ") == \"DateTime\" then\n        params."@ + name + " = params."@ + name
            + ":FormatLocalTime(\"L LT\", \"en-us\")\n    end"@,
        FormatSpecifier::Translate => "if type(params."@ + name
            + ") == \"string\" then\n        params."@ + name
            + " = self._translator:FormatByKey(params."@ + name + ")\n    end"@,
        FormatSpecifier::Unformatted => Seq::empty(),
    }
}

/// The Luau statement that formats a parameter; empty for `Unformatted`.
pub fn generate_format_code(param_name: &str, specifier: &FormatSpecifier) -> (r: String)
    ensures
        r@ == format_code_spec(param_name@, *specifier),
{
    match specifier {
        FormatSpecifier::Int => String::from_str("params.").concat(param_name).concat(
            " = math.floor(tonumber(params.",
        ).concat(param_name).concat(") or 0)"),
        FormatSpecifier::Fixed(d) => {
            let digits = decimal_text(*d as u64);
            String::from_str("params.").concat(param_name).concat(" = string.format(\"%.").concat(
                digits.as_str(),
            ).concat("f\", tonumber(params.").concat(param_name).concat(") or 0)")
        },
        FormatSpecifier::Num => String::from_str("params.").concat(param_name).concat(
            " = tostring(params.",
        ).concat(param_name).concat(" or 0)"),
        FormatSpecifier::DateTime => String::from_str("if typeof(params.").concat(param_name).concat(
            ") == \"DateTime\" then\n        params.",
        ).concat(param_name).concat(" = params.").concat(param_name).concat(
            ":FormatLocalTime(\"L LT\", \"en-us\")\n    end",
        ),
        FormatSpecifier::Translate => String::from_str("if type(params.").concat(param_name).concat(
            ") == \"string\" then\n        params.",
        ).concat(param_name).concat(" = self._translator:FormatByKey(params.").concat(
            param_name,
        ).concat(")\n    end"),
        FormatSpecifier::Unformatted => String::new(),
    }
}

} // verus!
