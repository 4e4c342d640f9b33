//! CSV export and import of translations, one row per key and one column per locale.
use crate::format::{trim, trim_spec};
use crate::records::{copy_opt, opt_view, Translation, TranslationView, translations_view};
use crate::sync::{differs_lower_at, seq_lt, str_less};
use crate::text::{push_char, str_eq};
use vstd::prelude::*;
use vstd::string::StringExecFns;

verus! {

/// `s` with every `"` doubled.
pub open spec fn double_quotes(s: Seq<char>) -> Seq<char>
    decreases s.len(),
{
    if s.len() == 0 {
        Seq::empty()
    } else if s.last() == '"' {
        double_quotes(s.drop_last()) + seq!['"', '"']
    } else {
        double_quotes(s.drop_last()).push(s.last())
    }
}

/// A CSV cell: the value in quotes, inner quotes doubled.
pub open spec fn csv_cell(s: Seq<char>) -> Seq<char> {
    seq!['"'] + double_quotes(s) + seq!['"']
}

/// Quotes a value for a CSV cell, doubling the quotes inside it; an empty value gives `""`.
pub fn escape_csv_value(value: &str) -> (r: String)
    ensures
        r@ == csv_cell(value@),
{
    let mut out = String::new();
    push_char(&mut out, '"');
    let n = value.unicode_len();
    let mut i: usize = 0;
    while i < n
        invariant
            n == value@.len(),
            i <= n,
            out@ == seq!['"'] + double_quotes(value@.subrange(0, i as int)),
        decreases n - i,
    {
        let c = value.get_char(i);
        assert(value@.subrange(0, i + 1).drop_last() == value@.subrange(0, i as int));
        push_char(&mut out, c);
        if c == '"' {
            push_char(&mut out, '"');
        }
        assert(out@ =~= seq!['"'] + double_quotes(value@.subrange(0, i + 1)));
        i = i + 1;
    }
    assert(value@.subrange(0, n as int) =~= value@);
    push_char(&mut out, '"');
    out
}

/// Reads a CSV line from position `i`: the cells finished so far, the current cell and
/// whether a quote is open. A doubled quote inside quotes stands for one quote; cells are
/// trimmed.
pub open spec fn csv_scan(
    s: Seq<char>,
    i: int,
    cells: Seq<Seq<char>>,
    cur: Seq<char>,
    quoted: bool,
) -> Seq<Seq<char>>
    decreases s.len() - i,
{
    if i >= s.len() || i < 0 {
        cells.push(trim_spec(cur))
    } else if s[i] == '"' {
        if quoted {
            if i + 1 < s.len() && s[i + 1] == '"' {
                csv_scan(s, i + 2, cells, cur.push('"'), true)
            } else {
                csv_scan(s, i + 1, cells, cur, false)
            }
        } else {
            csv_scan(s, i + 1, cells, cur, true)
        }
    } else if s[i] == ',' && !quoted {
        csv_scan(s, i + 1, cells.push(trim_spec(cur)), Seq::empty(), false)
    } else {
        csv_scan(s, i + 1, cells, cur.push(s[i]), quoted)
    }
}

pub open spec fn csv_line_spec(line: Seq<char>) -> Seq<Seq<char>> {
    csv_scan(line, 0, Seq::empty(), Seq::empty(), false)
}

pub open spec fn strings_view(v: Seq<String>) -> Seq<Seq<char>> {
    v.map_values(|s: String| s@)
}

/// Splits one CSV line into trimmed cells.
pub fn parse_csv_line(line: &str) -> (r: Vec<String>)
    ensures
        strings_view(r@) == csv_line_spec(line@),
{
    let mut cells: Vec<String> = Vec::new();
    let mut cur = String::new();
    let mut quoted = false;
    let n = line.unicode_len();
    let mut i: usize = 0;
    assert(strings_view(cells@) =~= Seq::<Seq<char>>::empty());
    assert(cur@ =~= Seq::<char>::empty());
    while i < n
        invariant
            n == line@.len(),
            i <= n,
            csv_line_spec(line@) == csv_scan(line@, i as int, strings_view(cells@), cur@, quoted),
        decreases n - i,
    {
        let c = line.get_char(i);
        let ghost cv = strings_view(cells@);
        if c == '"' {
            if quoted {
                if i + 1 < n && line.get_char(i + 1) == '"' {
                    push_char(&mut cur, '"');
                    i = i + 2;
                } else {
                    quoted = false;
                    i = i + 1;
                }
            } else {
                quoted = true;
                i = i + 1;
            }
        } else if c == ',' && !quoted {
            let t = trim(cur.as_str());
            cells.push(t);
            assert(strings_view(cells@) =~= cv.push(trim_spec(cur@)));
            cur = String::new();
            i = i + 1;
        } else {
            push_char(&mut cur, c);
            i = i + 1;
        }
    }
    let ghost cv = strings_view(cells@);
    let t = trim(cur.as_str());
    cells.push(t);
    assert(strings_view(cells@) =~= cv.push(trim_spec(cur@)));
    cells
}

pub open spec fn strip_cr(line: Seq<char>) -> Seq<char> {
    if line.len() > 0 && line.last() == '\r' {
        line.drop_last()
    } else {
        line
    }
}

/// The lines of `s` from position `i`, as `str::lines` gives them: split at `\n`, a `\r`
/// before it dropped, and no empty line after a final `\n`.
pub open spec fn split_lines(s: Seq<char>, i: int, cur: Seq<char>, acc: Seq<Seq<char>>) -> Seq<
    Seq<char>,
>
    decreases s.len() - i,
{
    if i >= s.len() || i < 0 {
        if cur.len() > 0 {
            acc.push(cur)
        } else {
            acc
        }
    } else if s[i] == '\n' {
        split_lines(s, i + 1, Seq::empty(), acc.push(strip_cr(cur)))
    } else {
        split_lines(s, i + 1, cur.push(s[i]), acc)
    }
}

pub open spec fn lines_spec(s: Seq<char>) -> Seq<Seq<char>> {
    split_lines(s, 0, Seq::empty(), Seq::empty())
}

fn strip_cr_exec(line: String) -> (r: String)
    ensures
        r@ == strip_cr(line@),
{
    let n = line.as_str().unicode_len();
    if n > 0 && line.as_str().get_char(n - 1) == '\r' {
        line.as_str().substring_char(0, n - 1).to_owned()
    } else {
        line
    }
}

/// Splits text into lines (see [`lines_spec`]).
pub fn split_into_lines(s: &str) -> (r: Vec<String>)
    ensures
        strings_view(r@) == lines_spec(s@),
{
    let mut acc: Vec<String> = Vec::new();
    let mut cur = String::new();
    let n = s.unicode_len();
    let mut i: usize = 0;
    assert(strings_view(acc@) =~= Seq::<Seq<char>>::empty());
    assert(cur@ =~= Seq::<char>::empty());
    while i < n
        invariant
            n == s@.len(),
            i <= n,
            lines_spec(s@) == split_lines(s@, i as int, cur@, strings_view(acc@)),
        decreases n - i,
    {
        let c = s.get_char(i);
        if c == '\n' {
            let ghost av = strings_view(acc@);
            let line = strip_cr_exec(cur);
            acc.push(line);
            assert(strings_view(acc@) =~= av.push(strip_cr(cur@)));
            cur = String::new();
        } else {
            push_char(&mut cur, c);
        }
        i = i + 1;
    }
    if cur.as_str().unicode_len() > 0 {
        let ghost av = strings_view(acc@);
        let ghost cv = cur@;
        acc.push(cur);
        assert(strings_view(acc@) =~= av.push(cv));
    }
    acc
}

/// Why CSV text was refused.
#[derive(Debug, Clone, Copy, PartialEq, Eq)]
pub enum CsvError {
    /// There is no header line.
    Empty,
    /// The header has fewer than the Source, Context and Key columns.
    InvalidHeader,
}

impl CsvError {
    /// A sentence that says what is wrong.
    /// The text of [`Self::message`].
    pub open spec fn message_text(&self) -> Seq<char> {
        match self {
            CsvError::Empty => "CSV file is empty"@,
            CsvError::InvalidHeader => "Invalid CSV header: expected at least Source,Context,Key columns"@,
        }
    }

    pub fn message(&self) -> (r: &'static str)
        ensures
            r@ == self.message_text(),
    {
        match self {
            CsvError::Empty => "CSV file is empty",
            CsvError::InvalidHeader => "Invalid CSV header: expected at least Source,Context,Key columns",
        }
    }
}

/// The context cell: none when empty.
pub open spec fn context_cell(vals: Seq<Seq<char>>) -> Option<Seq<char>> {
    if vals[1].len() == 0 {
        None
    } else {
        Some(vals[1])
    }
}

/// The records of a row's first `j` locale columns, skipping empty or absent cells.
pub open spec fn row_prefix(vals: Seq<Seq<char>>, locales: Seq<Seq<char>>, j: int) -> Seq<
    TranslationView,
>
    decreases j,
{
    if j <= 0 {
        Seq::empty()
    } else {
        let prev = row_prefix(vals, locales, j - 1);
        let idx = 3 + j - 1;
        if idx < vals.len() && vals[idx].len() > 0 {
            prev.push((vals[2], locales[j - 1], vals[idx], context_cell(vals)))
        } else {
            prev
        }
    }
}

/// The records of one data row; blank rows and rows of fewer than three cells give none.
pub open spec fn row_records(row: Seq<char>, locales: Seq<Seq<char>>) -> Seq<TranslationView> {
    let vals = csv_line_spec(row);
    if trim_spec(row).len() == 0 || vals.len() < 3 {
        Seq::empty()
    } else {
        row_prefix(vals, locales, locales.len() as int)
    }
}

/// The records of data rows `1..k`.
pub open spec fn rows_records(rows: Seq<Seq<char>>, locales: Seq<Seq<char>>, k: int) -> Seq<
    TranslationView,
>
    decreases k,
{
    if k <= 1 {
        Seq::empty()
    } else {
        rows_records(rows, locales, k - 1) + row_records(rows[k - 1], locales)
    }
}

pub open spec fn parse_csv_spec(content: Seq<char>) -> Result<Seq<TranslationView>, CsvError> {
    let rows = lines_spec(content);
    if rows.len() == 0 {
        Err(CsvError::Empty)
    } else if csv_line_spec(rows[0]).len() < 3 {
        Err(CsvError::InvalidHeader)
    } else {
        let header = csv_line_spec(rows[0]);
        Ok(rows_records(rows, header.subrange(3, header.len() as int), rows.len() as int))
    }
}

/// Reads CSV text: a header `Source,Context,Key,<locale>...`, then one row per key; each
/// non-empty locale cell gives a record, with the Context cell as context when it is set.
pub fn parse_csv(content: &str) -> (r: Result<Vec<Translation>, CsvError>)
    ensures
        match r {
            Ok(v) => parse_csv_spec(content@) == Ok::<Seq<TranslationView>, CsvError>(translations_view(v@)),
            Err(e) => parse_csv_spec(content@) == Err::<Seq<TranslationView>, CsvError>(e),
        },
{
    let rows = split_into_lines(content);
    let ghost rv = strings_view(rows@);
    if rows.len() == 0 {
        return Err(CsvError::Empty);
    }
    let headers = parse_csv_line(rows[0].as_str());
    assert(rv[0] == rows@[0]@);
    if headers.len() < 3 {
        return Err(CsvError::InvalidHeader);
    }
    let ghost hv = strings_view(headers@);
    let ghost locs = hv.subrange(3, hv.len() as int);
    let mut out: Vec<Translation> = Vec::new();
    let mut k: usize = 1;
    assert(translations_view(out@) =~= Seq::<TranslationView>::empty());
    while k < rows.len()
        invariant
            1 <= k <= rows@.len(),
            rv == strings_view(rows@),
            hv == strings_view(headers@),
            hv.len() >= 3,
            locs == hv.subrange(3, hv.len() as int),
            translations_view(out@) == rows_records(rv, locs, k as int),
        decreases rows@.len() - k,
    {
        let line = rows[k].as_str();
        assert(rv[k as int] == line@);
        let ghost before = translations_view(out@);
        let blank = trim(line).as_str().unicode_len() == 0;
        if !blank {
            let values = parse_csv_line(line);
            let ghost vv = strings_view(values@);
            if values.len() >= 3 {
                let context = if values[1].as_str().unicode_len() == 0 {
                    None
                } else {
                    Some(values[1].clone())
                };
                assert(opt_view(context) == context_cell(vv)) by {
                    assert(vv[1] == values@[1]@);
                }
                let mut j: usize = 0;
                while j < headers.len() - 3
                    invariant
                        j <= hv.len() - 3,
                        hv == strings_view(headers@),
                        hv.len() >= 3,
                        locs == hv.subrange(3, hv.len() as int),
                        vv == strings_view(values@),
                        vv.len() >= 3,
                        opt_view(context) == context_cell(vv),
                        translations_view(out@) == before + row_prefix(vv, locs, j as int),
                    decreases hv.len() - 3 - j,
                {
                    let idx = 3 + j;
                    let ghost pre = translations_view(out@);
                    if idx < values.len() && values[idx].as_str().unicode_len() > 0 {
                        out.push(
                            Translation {
                                key: values[2].clone(),
                                value: values[idx].clone(),
                                locale: headers[idx].clone(),
                                context: copy_opt(&context),
                            },
                        );
                        assert(vv[2] == values@[2]@ && vv[idx as int] == values@[idx as int]@);
                        assert(locs[j as int] == headers@[idx as int]@);
                        assert(translations_view(out@) =~= pre.push(
                            (vv[2], locs[j as int], vv[idx as int], context_cell(vv)),
                        ));
                    } else {
                        assert(idx < values.len() ==> vv[idx as int] == values@[idx as int]@);
                    }
                    j = j + 1;
                }
            }
        }
        assert(translations_view(out@) =~= before + row_records(rv[k as int], locs));
        k = k + 1;
    }
    Ok(out)
}

/// Length of the common prefix of `a` and `b` from position `i`.
pub open spec fn common_prefix_end(a: Seq<char>, b: Seq<char>, i: int) -> int
    decreases a.len() - i,
{
    if i < 0 || i >= a.len() || i >= b.len() || a[i] != b[i] {
        i
    } else {
        common_prefix_end(a, b, i + 1)
    }
}

proof fn lemma_common_prefix_end(a: Seq<char>, b: Seq<char>, i: int)
    requires
        0 <= i <= a.len(),
        i <= b.len(),
        forall|j: int| 0 <= j < i ==> a[j] == b[j],
    ensures
        i <= common_prefix_end(a, b, i) <= a.len(),
        common_prefix_end(a, b, i) <= b.len(),
        forall|j: int| 0 <= j < common_prefix_end(a, b, i) ==> #[trigger] a[j] == b[j],
        common_prefix_end(a, b, i) < a.len() && common_prefix_end(a, b, i) < b.len() ==> a[common_prefix_end(a, b, i)] != b[common_prefix_end(a, b, i)],
    decreases a.len() - i,
{
    if i < a.len() && i < b.len() && a[i] == b[i] {
        lemma_common_prefix_end(a, b, i + 1);
    }
}

/// Two different sequences are ordered one way or the other.
pub proof fn lemma_seq_lt_total(a: Seq<char>, b: Seq<char>)
    requires
        a != b,
    ensures
        seq_lt(a, b) || seq_lt(b, a),
{
    lemma_common_prefix_end(a, b, 0);
    let i = common_prefix_end(a, b, 0);
    if i == a.len() && i == b.len() {
        assert(a =~= b);
    } else if i == a.len() {
        assert(differs_lower_at(a, b, i));
    } else if i == b.len() {
        assert(differs_lower_at(b, a, i));
    } else if (a[i] as u32) < (b[i] as u32) {
        assert(differs_lower_at(a, b, i));
    } else {
        vstd::utf8::char_u32_cast(a[i], a[i] as u32);
        vstd::utf8::char_u32_cast(b[i], b[i] as u32);
        assert(differs_lower_at(b, a, i));
    }
}

/// Each sequence of `ks` sorts before the next.
pub open spec fn adjacent_sorted(ks: Seq<Seq<char>>) -> bool {
    forall|i: int| 0 <= i < ks.len() - 1 ==> seq_lt(#[trigger] ks[i], ks[i + 1])
}

/// Some record of `s` has key `k`.
pub open spec fn has_key_record(s: Seq<TranslationView>, k: Seq<char>) -> bool {
    exists|i: int| 0 <= i < s.len() && (#[trigger] s[i]).0 == k
}

fn contains_string(v: &Vec<String>, x: &String) -> (r: bool)
    ensures
        r == strings_view(v@).contains(x@),
{
    let mut i: usize = 0;
    while i < v.len()
        invariant
            i <= v@.len(),
            forall|j: int| 0 <= j < i ==> strings_view(v@)[j] != x@,
        decreases v@.len() - i,
    {
        if str_eq(v[i].as_str(), x.as_str()) {
            assert(strings_view(v@)[i as int] == x@);
            return true;
        }
        i = i + 1;
    }
    false
}

/// The distinct strings of `s`, sorted by code points.
pub fn sort_distinct(s: &Vec<String>) -> (r: Vec<String>)
    ensures
        adjacent_sorted(strings_view(r@)),
        strings_view(r@).no_duplicates(),
        forall|k: Seq<char>|
            #![trigger strings_view(r@).contains(k)]
            strings_view(r@).contains(k) <==> strings_view(s@).contains(k),
{
    let ghost sv = strings_view(s@);
    let mut keys: Vec<String> = Vec::new();
    let mut i: usize = 0;
    while i < s.len()
        invariant
            i <= s@.len(),
            sv == strings_view(s@),
            adjacent_sorted(strings_view(keys@)),
            strings_view(keys@).no_duplicates(),
            forall|k: Seq<char>|
                #![trigger strings_view(keys@).contains(k)]
                strings_view(keys@).contains(k) <==> sv.subrange(0, i as int).contains(k),
        decreases s@.len() - i,
    {
        let key = &s[i];
        let ghost kv = strings_view(keys@);
        let ghost pre = sv.subrange(0, i as int);
        let ghost nxt = sv.subrange(0, i + 1);
        assert forall|k: Seq<char>| nxt.contains(k) <==> (pre.contains(k) || k == sv[i as int]) by {
            if nxt.contains(k) {
                let j = choose|j: int| 0 <= j < nxt.len() && nxt[j] == k;
                if j < i {
                    assert(pre[j] == nxt[j]);
                }
            }
            if pre.contains(k) {
                let j = choose|j: int| 0 <= j < pre.len() && pre[j] == k;
                assert(nxt[j] == pre[j]);
            }
            if k == sv[i as int] {
                assert(nxt[i as int] == sv[i as int]);
            }
        }
        if !contains_string(&keys, key) {
            let mut p: usize = 0;
            while p < keys.len() && !str_less(key, &keys[p])
                invariant
                    p <= keys@.len(),
                    kv == strings_view(keys@),
                    forall|q: int| 0 <= q < p ==> !seq_lt(key@, #[trigger] kv[q]),
                decreases keys@.len() - p,
            {
                p = p + 1;
            }
            keys.insert(p, key.clone());
            proof {
                let nk = strings_view(keys@);
                assert(nk =~= kv.insert(p as int, key@));
                assert forall|q: int| 0 <= q < nk.len() - 1 implies seq_lt(#[trigger] nk[q], nk[q + 1]) by {
                    if q + 1 < p {
                        assert(nk[q] == kv[q] && nk[q + 1] == kv[q + 1]);
                    } else if q + 1 == p {
                        assert(nk[q] == kv[q] && nk[q + 1] == key@);
                        assert(!seq_lt(key@, kv[q]));
                        assert(kv[q] != key@) by {
                            assert(kv.contains(kv[q]));
                        }
                        lemma_seq_lt_total(kv[q], key@);
                    } else if q == p {
                        assert(nk[q] == key@ && nk[q + 1] == kv[q]);
                    } else {
                        assert(nk[q] == kv[q - 1] && nk[q + 1] == kv[q]);
                    }
                }
                assert forall|x: int, y: int| 0 <= x < nk.len() && 0 <= y < nk.len() && x != y implies nk[x] != nk[y] by {
                    if x == p && y != p {
                        let yy = if y < p { y } else { y - 1 };
                        assert(nk[y] == kv[yy]);
                        assert(kv.contains(kv[yy]));
                    } else if y == p && x != p {
                        let xx = if x < p { x } else { x - 1 };
                        assert(nk[x] == kv[xx]);
                        assert(kv.contains(kv[xx]));
                    } else if x != p && y != p {
                        let xx = if x < p { x } else { x - 1 };
                        let yy = if y < p { y } else { y - 1 };
                        assert(nk[x] == kv[xx] && nk[y] == kv[yy]);
                    }
                }
                assert forall|k: Seq<char>|
                    #![trigger nk.contains(k)]
                    nk.contains(k) <==> nxt.contains(k) by {
                    if nk.contains(k) {
                        let q = choose|q: int| 0 <= q < nk.len() && nk[q] == k;
                        if q < p {
                            assert(kv[q] == k);
                            assert(kv.contains(k));
                        } else if q > p {
                            assert(kv[q - 1] == k);
                            assert(kv.contains(k));
                        }
                    }
                    if nxt.contains(k) {
                        if pre.contains(k) {
                            assert(kv.contains(k));
                            let q = choose|q: int| 0 <= q < kv.len() && kv[q] == k;
                            if q < p {
                                assert(nk[q] == k);
                            } else {
                                assert(nk[q + 1] == k);
                            }
                        } else {
                            assert(nk[p as int] == k);
                        }
                    }
                }
            }
        } else {
            assert forall|k: Seq<char>|
                #![trigger strings_view(keys@).contains(k)]
                strings_view(keys@).contains(k) <==> nxt.contains(k) by {
            }
        }
        i = i + 1;
    }
    assert(sv.subrange(0, s@.len() as int) == sv);
    keys
}

/// The distinct keys of the records, sorted by code points.
pub fn sorted_keys(s: &Vec<Translation>) -> (r: Vec<String>)
    ensures
        adjacent_sorted(strings_view(r@)),
        strings_view(r@).no_duplicates(),
        forall|k: Seq<char>|
            #![trigger strings_view(r@).contains(k)]
            strings_view(r@).contains(k) <==> has_key_record(translations_view(s@), k),
{
    let ghost sv = translations_view(s@);
    let mut all: Vec<String> = Vec::new();
    let mut i: usize = 0;
    while i < s.len()
        invariant
            i <= s@.len(),
            sv == translations_view(s@),
            strings_view(all@) == sv.subrange(0, i as int).map_values(|t: TranslationView| t.0),
        decreases s@.len() - i,
    {
        let ghost before = strings_view(all@);
        all.push(s[i].key.clone());
        assert(strings_view(all@) =~= before.push(sv[i as int].0));
        assert(sv.subrange(0, i + 1).map_values(|t: TranslationView| t.0) =~= sv.subrange(0, i as int).map_values(|t: TranslationView| t.0).push(sv[i as int].0));
        i = i + 1;
    }
    assert(sv.subrange(0, sv.len() as int) == sv);
    let r = sort_distinct(&all);
    assert forall|k: Seq<char>|
        #![trigger strings_view(r@).contains(k)]
        strings_view(r@).contains(k) <==> has_key_record(sv, k) by {
        let av = strings_view(all@);
        if av.contains(k) {
            let j = choose|j: int| 0 <= j < av.len() && av[j] == k;
            assert(sv[j].0 == k);
        }
        if has_key_record(sv, k) {
            let j = choose|j: int| 0 <= j < sv.len() && (#[trigger] sv[j]).0 == k;
            assert(av[j] == k);
        }
    }
    r
}

/// The value of the last record of `s` with key `k` and locale `l`.
pub open spec fn last_value(s: Seq<TranslationView>, k: Seq<char>, l: Seq<char>) -> Option<Seq<char>>
    decreases s.len(),
{
    if s.len() == 0 {
        None
    } else if s.last().0 == k && s.last().1 == l {
        Some(s.last().2)
    } else {
        last_value(s.drop_last(), k, l)
    }
}

/// The context of the first record of `s` with key `k` (none if it has none).
pub open spec fn first_context(s: Seq<TranslationView>, k: Seq<char>, from: int) -> Option<Seq<char>>
    decreases s.len() - from,
{
    if from < 0 || from >= s.len() {
        None
    } else if s[from].0 == k {
        s[from].3
    } else {
        first_context(s, k, from + 1)
    }
}

pub open spec fn optional_cell(v: Option<Seq<char>>) -> Seq<char> {
    match v {
        Some(x) => csv_cell(x),
        None => "\"\""@,
    }
}

/// `,l1,l2,...`: the locale columns of the header.
pub open spec fn header_columns(ls: Seq<Seq<char>>) -> Seq<char>
    decreases ls.len(),
{
    if ls.len() == 0 {
        Seq::empty()
    } else {
        header_columns(ls.drop_last()) + ","@ + ls.last()
    }
}

/// `,v1,v2,...`: the cells of key `k` for locales `ls`.
pub open spec fn value_columns(s: Seq<TranslationView>, k: Seq<char>, ls: Seq<Seq<char>>) -> Seq<char>
    decreases ls.len(),
{
    if ls.len() == 0 {
        Seq::empty()
    } else {
        value_columns(s, k, ls.drop_last()) + ","@ + optional_cell(last_value(s, k, ls.last()))
    }
}

/// The row of key `k`: source (base-locale value), context, key, then one cell per locale.
pub open spec fn csv_row(s: Seq<TranslationView>, k: Seq<char>, base: Seq<char>, ls: Seq<Seq<char>>) -> Seq<char> {
    optional_cell(last_value(s, k, base)) + ","@ + optional_cell(first_context(s, k, 0)) + ","@
        + csv_cell(k) + value_columns(s, k, ls) + "\n"@
}

pub open spec fn csv_rows(s: Seq<TranslationView>, ks: Seq<Seq<char>>, base: Seq<char>, ls: Seq<Seq<char>>) -> Seq<char>
    decreases ks.len(),
{
    if ks.len() == 0 {
        Seq::empty()
    } else {
        csv_rows(s, ks.drop_last(), base, ls) + csv_row(s, ks.last(), base, ls)
    }
}

/// The whole CSV text, for keys `ks`.
pub open spec fn csv_text(s: Seq<TranslationView>, ks: Seq<Seq<char>>, base: Seq<char>, ls: Seq<Seq<char>>) -> Seq<char> {
    "Source,Context,Key"@ + header_columns(ls) + "\n"@ + csv_rows(s, ks, base, ls)
}

fn find_last_value<'a>(s: &'a Vec<Translation>, k: &String, l: &String) -> (r: Option<&'a String>)
    ensures
        match r {
            Some(v) => last_value(translations_view(s@), k@, l@) == Some(v@),
            None => last_value(translations_view(s@), k@, l@) is None,
        },
{
    let ghost sv = translations_view(s@);
    let mut i: usize = s.len();
    assert(sv.subrange(0, s@.len() as int) == sv);
    while i > 0
        invariant
            i <= s@.len(),
            sv == translations_view(s@),
            last_value(sv, k@, l@) == last_value(sv.subrange(0, i as int), k@, l@),
        decreases i,
    {
        let ghost sub = sv.subrange(0, i as int);
        assert(sub.drop_last() == sv.subrange(0, i - 1));
        assert(sub.last() == sv[i - 1]);
        if str_eq(s[i - 1].key.as_str(), k.as_str()) && str_eq(s[i - 1].locale.as_str(), l.as_str()) {
            return Some(&s[i - 1].value);
        }
        i = i - 1;
    }
    None
}

fn find_first_context<'a>(s: &'a Vec<Translation>, k: &String) -> (r: Option<&'a String>)
    ensures
        match r {
            Some(v) => first_context(translations_view(s@), k@, 0) == Some(v@),
            None => first_context(translations_view(s@), k@, 0) is None,
        },
{
    let ghost sv = translations_view(s@);
    let mut i: usize = 0;
    while i < s.len()
        invariant
            i <= s@.len(),
            sv == translations_view(s@),
            first_context(sv, k@, 0) == first_context(sv, k@, i as int),
        decreases s@.len() - i,
    {
        if str_eq(s[i].key.as_str(), k.as_str()) {
            return match &s[i].context {
                Some(c) => Some(c),
                None => None,
            };
        }
        i = i + 1;
    }
    None
}

fn cell_of(v: Option<&String>) -> (r: String)
    ensures
        r@ == optional_cell(match v {
            Some(x) => Some(x@),
            None => None,
        }),
{
    match v {
        Some(x) => escape_csv_value(x.as_str()),
        None => {
            proof {
                reveal_strlit("\"\"");
            }
            String::from_str("\"\"")
        },
    }
}

fn row_text(translations: &Vec<Translation>, k: &String, base: &String, locales: &Vec<String>) -> (r: String)
    ensures
        r@ == csv_row(translations_view(translations@), k@, base@, strings_view(locales@)),
{
    let ghost sv = translations_view(translations@);
    let ghost lv = strings_view(locales@);
    let mut csv = String::new();
    let source = cell_of(find_last_value(translations, k, base));
    let context = cell_of(find_first_context(translations, k));
    let key_cell = escape_csv_value(k.as_str());
    csv.append(source.as_str());
    csv.append(",");
    csv.append(context.as_str());
    csv.append(",");
    csv.append(key_cell.as_str());
    let ghost row_start = csv@;
    assert(row_start =~= optional_cell(last_value(sv, k@, base@)) + ","@ + optional_cell(
        first_context(sv, k@, 0),
    ) + ","@ + csv_cell(k@));
    let mut j: usize = 0;
    while j < locales.len()
        invariant
            j <= locales@.len(),
            lv == strings_view(locales@),
            sv == translations_view(translations@),
            csv@ == row_start + value_columns(sv, k@, lv.subrange(0, j as int)),
        decreases locales@.len() - j,
    {
        assert(lv.subrange(0, j + 1).drop_last() == lv.subrange(0, j as int));
        assert(lv[j as int] == locales@[j as int]@);
        let cell = cell_of(find_last_value(translations, k, &locales[j]));
        csv.append(",");
        csv.append(cell.as_str());
        assert(csv@ =~= row_start + value_columns(sv, k@, lv.subrange(0, j + 1)));
        j = j + 1;
    }
    assert(lv.subrange(0, lv.len() as int) == lv);
    csv.append("\n");
    assert(csv@ =~= csv_row(sv, k@, base@, lv));
    csv
}

/// Writes translations as CSV: a header `Source,Context,Key,<locales>`, then one row per
/// key in code-point order. A row holds the base-locale value as source, the context of the
/// key's first record, the key, and for each locale the last value given for it; a missing
/// value is an empty cell.
pub fn generate_csv(translations: &Vec<Translation>, base_locale: &str, locales: &Vec<String>) -> (r:
    Result<String, CsvError>)
    ensures
        r matches Ok(text) && exists|ks: Seq<Seq<char>>|
            #[trigger] adjacent_sorted(ks) && ks.no_duplicates() && (forall|k: Seq<char>|
                #![trigger ks.contains(k)]
                ks.contains(k) <==> has_key_record(translations_view(translations@), k)) && text@
                == csv_text(translations_view(translations@), ks, base_locale@, strings_view(locales@)),
{
    let ghost sv = translations_view(translations@);
    let ghost lv = strings_view(locales@);
    let base = base_locale.to_owned();
    let mut csv = String::from_str("Source,Context,Key");
    proof {
        reveal_strlit("Source,Context,Key");
    }
    let mut j: usize = 0;
    while j < locales.len()
        invariant
            j <= locales@.len(),
            lv == strings_view(locales@),
            csv@ == "Source,Context,Key"@ + header_columns(lv.subrange(0, j as int)),
        decreases locales@.len() - j,
    {
        assert(lv.subrange(0, j + 1).drop_last() == lv.subrange(0, j as int));
        assert(lv[j as int] == locales@[j as int]@);
        csv.append(",");
        csv.append(locales[j].as_str());
        assert(csv@ =~= "Source,Context,Key"@ + header_columns(lv.subrange(0, j + 1)));
        j = j + 1;
    }
    assert(lv.subrange(0, lv.len() as int) == lv);
    csv.append("\n");
    let keys = sorted_keys(translations);
    let ghost kv = strings_view(keys@);
    let mut i: usize = 0;
    while i < keys.len()
        invariant
            i <= keys@.len(),
            kv == strings_view(keys@),
            lv == strings_view(locales@),
            sv == translations_view(translations@),
            base@ == base_locale@,
            csv@ == "Source,Context,Key"@ + header_columns(lv) + "\n"@ + csv_rows(sv, kv.subrange(0, i as int), base_locale@, lv),
        decreases keys@.len() - i,
    {
        let k = &keys[i];
        assert(kv[i as int] == k@);
        let row = row_text(translations, k, &base, locales);
        csv.append(row.as_str());
        assert(kv.subrange(0, i + 1).drop_last() == kv.subrange(0, i as int));
        assert(csv@ =~= "Source,Context,Key"@ + header_columns(lv) + "\n"@ + csv_rows(sv, kv.subrange(0, i + 1), base_locale@, lv));
        i = i + 1;
    }
    assert(kv.subrange(0, kv.len() as int) == kv);
    assert(adjacent_sorted(kv));
    Ok(csv)
}

} // verus!
