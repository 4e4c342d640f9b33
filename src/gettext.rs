//! Reading gettext `.po` catalogues into key/value pairs.
use crate::csv::{lines_spec, split_into_lines, strings_view};
use crate::format::{trim, trim_spec};
use crate::text::{has_prefix, starts_with, str_eq};
use vstd::prelude::*;
use vstd::string::StringExecFns;

verus! {

/// Index of the first `"` of `s`, or -1.
pub open spec fn first_quote(s: Seq<char>, from: int) -> int
    decreases s.len() - from,
{
    if from < 0 || from >= s.len() {
        -1
    } else if s[from] == '"' {
        from
    } else {
        first_quote(s, from + 1)
    }
}

/// Index of the last `"` of `s` before `to`, or -1.
pub open spec fn last_quote(s: Seq<char>, to: int) -> int
    decreases to,
{
    if to <= 0 {
        -1
    } else if s[to - 1] == '"' {
        to - 1
    } else {
        last_quote(s, to - 1)
    }
}

/// The text between the first and the last quote of a line, or nothing.
pub open spec fn quoted_spec(line: Seq<char>) -> Seq<char> {
    let a = first_quote(line, 0);
    let b = last_quote(line, line.len() as int);
    if 0 <= a && a < b {
        line.subrange(a + 1, b)
    } else {
        Seq::empty()
    }
}

proof fn lemma_last_quote(s: Seq<char>, to: int)
    requires
        0 <= to <= s.len(),
    ensures
        -1 <= last_quote(s, to) < to,
    decreases to,
{
    if to > 0 && s[to - 1] != '"' {
        lemma_last_quote(s, to - 1);
    }
}

/// The text between the first and the last `"` of a line; empty if there are fewer than
/// two quotes.
pub fn extract_quoted_string(line: &str) -> (r: String)
    ensures
        r@ == quoted_spec(line@),
{
    let n = line.unicode_len();
    let mut a: usize = 0;
    while a < n && line.get_char(a) != '"'
        invariant
            n == line@.len(),
            a <= n,
            first_quote(line@, 0) == first_quote(line@, a as int),
        decreases n - a,
    {
        a = a + 1;
    }
    let mut b: usize = n;
    while b > 0 && line.get_char(b - 1) != '"'
        invariant
            n == line@.len(),
            b <= n,
            last_quote(line@, n as int) == last_quote(line@, b as int),
        decreases b,
    {
        b = b - 1;
    }
    if a < n && b > 0 && a < b - 1 {
        line.substring_char(a + 1, b - 1).to_owned()
    } else {
        proof {
            lemma_last_quote(line@, n as int);
        }
        String::new()
    }
}

/// The parser's state after some lines: the entries found, the current `msgid` and
/// `msgstr`, and which of them continuation lines extend.
pub struct PoState {
    pub found: Seq<(Seq<char>, Seq<char>)>,
    pub msgid: Option<Seq<char>>,
    pub msgstr: Option<Seq<char>>,
    pub in_id: bool,
    pub in_str: bool,
}

/// The entry that ends with the current one, if both parts are set and non-empty.
pub open spec fn flush(found: Seq<(Seq<char>, Seq<char>)>, id: Option<Seq<char>>, s: Option<Seq<char>>) -> Seq<(Seq<char>, Seq<char>)> {
    match (id, s) {
        (Some(i), Some(t)) => if i.len() > 0 && t.len() > 0 {
            found.push((i, t))
        } else {
            found
        },
        _ => found,
    }
}

pub open spec fn append_opt(o: Option<Seq<char>>, t: Seq<char>) -> Option<Seq<char>> {
    match o {
        Some(x) => Some(x + t),
        None => None,
    }
}

/// One line of a catalogue applied to the state.
pub open spec fn po_step(st: PoState, raw: Seq<char>) -> PoState {
    let line = trim_spec(raw);
    if line.len() == 0 || line[0] == '#' {
        st
    } else if has_prefix(line, "msgid "@) {
        PoState {
            found: flush(st.found, st.msgid, st.msgstr),
            msgid: Some(quoted_spec(line)),
            msgstr: None,
            in_id: true,
            in_str: false,
        }
    } else if has_prefix(line, "msgstr "@) {
        PoState { msgstr: Some(quoted_spec(line)), in_id: false, in_str: true, ..st }
    } else if line[0] == '"' {
        if st.in_str {
            PoState { msgstr: append_opt(st.msgstr, quoted_spec(line)), ..st }
        } else if st.in_id {
            PoState { msgid: append_opt(st.msgid, quoted_spec(line)), ..st }
        } else {
            st
        }
    } else {
        st
    }
}

pub open spec fn po_run(lines: Seq<Seq<char>>) -> PoState
    decreases lines.len(),
{
    if lines.len() == 0 {
        PoState { found: Seq::empty(), msgid: None, msgstr: None, in_id: false, in_str: false }
    } else {
        po_step(po_run(lines.drop_last()), lines.last())
    }
}

/// The `(msgid, msgstr)` entries of a catalogue, in order, before duplicates are merged.
pub open spec fn po_entries_spec(content: Seq<char>) -> Seq<(Seq<char>, Seq<char>)> {
    let st = po_run(lines_spec(content));
    flush(st.found, st.msgid, st.msgstr)
}

/// `(k, v)` is the last entry of `es` for `k`.
pub open spec fn last_entry(es: Seq<(Seq<char>, Seq<char>)>, k: Seq<char>, v: Seq<char>) -> bool {
    exists|i: int|
        0 <= i < es.len() && #[trigger] es[i].0 == k && es[i].1 == v && forall|j: int|
            i < j < es.len() ==> (#[trigger] es[j]).0 != k
}

/// Message ids with their translations; ids are unique.
#[derive(Debug, Clone)]
pub struct PoEntries {
    pub entries: Vec<(String, String)>,
}

impl PoEntries {
    pub open spec fn view(&self) -> Seq<(Seq<char>, Seq<char>)> {
        self.entries@.map_values(|e: (String, String)| (e.0@, e.1@))
    }

    pub open spec fn ids_unique(&self) -> bool {
        forall|i: int, j: int|
            0 <= i < self@.len() && 0 <= j < self@.len() && i != j ==> (#[trigger] self@[i]).0
                != (#[trigger] self@[j]).0
    }

    /// The number of distinct ids.
    pub fn len(&self) -> (n: usize)
        ensures
            n == self@.len(),
    {
        self.entries.len()
    }

    fn find(&self, id: &str) -> (r: Option<usize>)
        ensures
            match r {
                Some(i) => i < self@.len() && self@[i as int].0 == id@,
                None => forall|i: int| 0 <= i < self@.len() ==> (#[trigger] self@[i]).0 != id@,
            },
    {
        let mut i: usize = 0;
        while i < self.entries.len()
            invariant
                i <= self@.len(),
                forall|j: int| 0 <= j < i ==> (#[trigger] self@[j]).0 != id@,
            decreases self@.len() - i,
        {
            if str_eq(self.entries[i].0.as_str(), id) {
                return Some(i);
            }
            i = i + 1;
        }
        None
    }

    /// The translation of `id`.
    pub fn get(&self, id: &str) -> (r: Option<&String>)
        ensures
            match r {
                Some(v) => self@.contains((id@, v@)),
                None => forall|i: int| 0 <= i < self@.len() ==> (#[trigger] self@[i]).0 != id@,
            },
    {
        match self.find(id) {
            Some(i) => {
                assert(self@[i as int] == (id@, self.entries@[i as int].1@));
                Some(&self.entries[i].1)
            },
            None => None,
        }
    }

    fn set(&mut self, id: String, text: String)
        requires
            old(self).ids_unique(),
        ensures
            final(self).ids_unique(),
            forall|p: (Seq<char>, Seq<char>)|
                #![trigger final(self)@.contains(p)]
                final(self)@.contains(p) <==> (p == (id@, text@) || (old(self)@.contains(p) && p.0 != id@)),
    {
        let ghost before = self@;
        let ghost iv = id@;
        let ghost tv = text@;
        match self.find(id.as_str()) {
            Some(i) => {
                self.entries.set(i, (id, text));
                assert(self@ =~= before.update(i as int, (iv, tv)));
                assert forall|a: int, b: int|
                    0 <= a < self@.len() && 0 <= b < self@.len() && a != b implies (#[trigger] self@[a]).0
                        != (#[trigger] self@[b]).0 by {
                    assert(self@[a].0 == before[a].0 && self@[b].0 == before[b].0);
                }
                assert forall|p: (Seq<char>, Seq<char>)|
                    #![trigger self@.contains(p)]
                    self@.contains(p) <==> (p == (iv, tv) || (before.contains(p) && p.0 != iv)) by {
                    if self@.contains(p) {
                        let j = choose|j: int| 0 <= j < self@.len() && self@[j] == p;
                        if j != i {
                            assert(before[j] == p);
                            assert(before[j].0 != before[i as int].0);
                        }
                    }
                    if before.contains(p) && p.0 != iv {
                        let j = choose|j: int| 0 <= j < before.len() && before[j] == p;
                        assert(self@[j] == p);
                    }
                    if p == (iv, tv) {
                        assert(self@[i as int] == p);
                    }
                }
            },
            None => {
                self.entries.push((id, text));
                assert(self@ =~= before.push((iv, tv)));
                assert forall|p: (Seq<char>, Seq<char>)|
                    #![trigger self@.contains(p)]
                    self@.contains(p) <==> (p == (iv, tv) || (before.contains(p) && p.0 != iv)) by {
                    if self@.contains(p) {
                        let j = choose|j: int| 0 <= j < self@.len() && self@[j] == p;
                        if j < before.len() {
                            assert(before[j] == p);
                        }
                    }
                    if before.contains(p) && p.0 != iv {
                        let j = choose|j: int| 0 <= j < before.len() && before[j] == p;
                        assert(self@[j] == p);
                    }
                    if p == (iv, tv) {
                        assert(self@[before.len() as int] == p);
                    }
                }
            },
        }
    }

    /// Records `(id, text)` as the last entry so far.
    fn record(&mut self, id: String, text: String, Ghost(es): Ghost<Seq<(Seq<char>, Seq<char>)>>)
        requires
            old(self).ids_unique(),
            forall|p: (Seq<char>, Seq<char>)|
                #![trigger old(self)@.contains(p)]
                old(self)@.contains(p) <==> last_entry(es, p.0, p.1),
        ensures
            final(self).ids_unique(),
            forall|p: (Seq<char>, Seq<char>)|
                #![trigger final(self)@.contains(p)]
                final(self)@.contains(p) <==> last_entry(es.push((id@, text@)), p.0, p.1),
    {
        let ghost item = (id@, text@);
        self.set(id, text);
        assert forall|p: (Seq<char>, Seq<char>)|
            #![trigger self@.contains(p)]
            self@.contains(p) <==> last_entry(es.push(item), p.0, p.1) by {
            let qs = es.push(item);
            if p == item {
                assert(qs[es.len() as int] == item);
            }
            if last_entry(qs, p.0, p.1) {
                let w = choose|w: int|
                    0 <= w < qs.len() && #[trigger] qs[w].0 == p.0 && qs[w].1 == p.1 && forall|j: int|
                        w < j < qs.len() ==> (#[trigger] qs[j]).0 != p.0;
                if w < es.len() {
                    assert(qs[es.len() as int].0 != p.0);
                    assert forall|j: int| w < j < es.len() implies (#[trigger] es[j]).0 != p.0 by {
                        assert(qs[j] == es[j]);
                    }
                    assert(es[w] == qs[w]);
                    assert(last_entry(es, p.0, p.1));
                }
            }
            if last_entry(es, p.0, p.1) && p.0 != item.0 {
                let w = choose|w: int|
                    0 <= w < es.len() && #[trigger] es[w].0 == p.0 && es[w].1 == p.1 && forall|j: int|
                        w < j < es.len() ==> (#[trigger] es[j]).0 != p.0;
                assert(qs[w] == es[w]);
                assert forall|j: int| w < j < qs.len() implies (#[trigger] qs[j]).0 != p.0 by {
                    if j < es.len() {
                        assert(qs[j] == es[j]);
                    }
                }
            }
        }
    }
}

fn is_empty_opt(o: &Option<String>) -> (r: bool)
    ensures
        r == (o is None || o->Some_0@.len() == 0),
{
    match o {
        Some(s) => s.as_str().unicode_len() == 0,
        None => true,
    }
}

pub open spec fn opt_seq(o: Option<String>) -> Option<Seq<char>> {
    match o {
        Some(s) => Some(s@),
        None => None,
    }
}

/// Reads a `.po` catalogue: each `msgid` with its `msgstr`, continuation lines appended,
/// comments and blank lines skipped, entries with an empty id or text dropped. A later
/// entry for an id replaces an earlier one.
pub fn parse_po_file(content: &str) -> (r: PoEntries)
    ensures
        r.ids_unique(),
        forall|p: (Seq<char>, Seq<char>)|
            #![trigger r@.contains(p)]
            r@.contains(p) <==> last_entry(po_entries_spec(content@), p.0, p.1),
{
    let lines = split_into_lines(content);
    let ghost lv = strings_view(lines@);
    let mut out = PoEntries { entries: Vec::new() };
    let mut msgid: Option<String> = None;
    let mut msgstr: Option<String> = None;
    let mut in_id = false;
    let mut in_str = false;
    let ghost mut found: Seq<(Seq<char>, Seq<char>)> = Seq::empty();
    proof {
        reveal_strlit("msgid ");
        reveal_strlit("msgstr ");
    }
    let mut i: usize = 0;
    while i < lines.len()
        invariant
            i <= lines@.len(),
            lv == strings_view(lines@),
            po_run(lv.subrange(0, i as int)) == (PoState { found, msgid: opt_seq(msgid), msgstr: opt_seq(msgstr), in_id, in_str }),
            out.ids_unique(),
            forall|p: (Seq<char>, Seq<char>)|
                #![trigger out@.contains(p)]
                out@.contains(p) <==> last_entry(found, p.0, p.1),
        decreases lines@.len() - i,
    {
        assert(lv.subrange(0, i + 1).drop_last() == lv.subrange(0, i as int));
        assert(lv[i as int] == lines@[i as int]@);
        let line = trim(lines[i].as_str());
        let l = line.as_str();
        let n = l.unicode_len();
        if n == 0 || l.get_char(0) == '#' {
        } else if starts_with(l, "msgid ") {
            let id = msgid.take();
            let st = msgstr.take();
            if !is_empty_opt(&id) && !is_empty_opt(&st) {
                let ghost item = (id->Some_0@, st->Some_0@);
                out.record(id.unwrap(), st.unwrap(), Ghost(found));
                proof {
                    found = found.push(item);
                }
            }
            msgid = Some(extract_quoted_string(l));
            in_id = true;
            in_str = false;
        } else if starts_with(l, "msgstr ") {
            msgstr = Some(extract_quoted_string(l));
            in_id = false;
            in_str = true;
        } else if l.get_char(0) == '"' {
            let text = extract_quoted_string(l);
            if in_str {
                msgstr = match msgstr {
                    Some(s) => Some(s.concat(text.as_str())),
                    None => None,
                };
            } else if in_id {
                msgid = match msgid {
                    Some(s) => Some(s.concat(text.as_str())),
                    None => None,
                };
            }
        }
        i = i + 1;
    }
    assert(lv.subrange(0, lv.len() as int) == lv);
    if !is_empty_opt(&msgid) && !is_empty_opt(&msgstr) {
        out.record(msgid.unwrap(), msgstr.unwrap(), Ghost(found));
    }
    out
}

} // verus!
