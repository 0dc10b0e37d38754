//! The stanza scanner and the typed field accessors over its output.
use vstd::prelude::*;

use crate::error::ParseError;
use crate::text::{
    find_char, find_char_from, same_text, split_char, split_on, split_words, str_views, trim, trim_str,
    trimmed_nonempty, views, words,
};

verus! {

/// One scanned field: its key and its value-lines.
pub type Line = (String, Vec<String>);

/// A scanned field as plain sequences.
pub type LineView = (Seq<char>, Seq<Seq<char>>);

pub open spec fn line_view(l: Line) -> LineView {
    (l.0@, views(l.1@))
}

pub open spec fn line_views(ls: Seq<Line>) -> Seq<LineView> {
    ls.map_values(|l: Line| line_view(l))
}

/// `l` without one trailing carriage return.
pub open spec fn strip_cr(l: Seq<char>) -> Seq<char> {
    if l.len() > 0 && l.last() == '\r' {
        l.drop_last()
    } else {
        l
    }
}

/// The lines of a text, as `str::lines` cuts them: at each newline, with no
/// empty line after a final newline, and a trailing carriage return dropped.
pub open spec fn text_lines(s: Seq<char>) -> Seq<Seq<char>> {
    let ps = split_on(s, '\n');
    let kept = if ps.len() > 0 && ps.last().len() == 0 {
        ps.drop_last()
    } else {
        ps
    };
    kept.map_values(|l: Seq<char>| strip_cr(l))
}

/// A line that carries nothing: blank, or a comment.
pub open spec fn is_skippable(l: Seq<char>) -> bool {
    trim(l).len() == 0 || (l.len() > 0 && l[0] == '#')
}

/// A line that continues the value of the field above it.
pub open spec fn is_continuation(l: Seq<char>) -> bool {
    l.len() > 0 && l[0] == ' '
}

/// The field that a `key: value` line opens: the key up to the first colon,
/// and the trimmed rest as its first value-line unless that is empty.
pub open spec fn open_field(l: Seq<char>) -> LineView {
    let colon = find_char(l, ':', 0);
    let first = trim(l.subrange(colon + 1, l.len() as int));
    (l.subrange(0, colon), if first.len() == 0 { Seq::empty() } else { seq![first] })
}

/// The result of scanning that the fields in `done` come before.
pub open spec fn after(done: Seq<LineView>, r: Result<Seq<LineView>, Seq<char>>) -> Result<
    Seq<LineView>,
    Seq<char>,
> {
    match r {
        Ok(rest) => Ok(done + rest),
        Err(e) => Err(e),
    }
}

pub open spec fn pending(cur: Option<LineView>) -> Seq<LineView> {
    match cur {
        Some(f) => seq![f],
        None => Seq::empty(),
    }
}

/// Scanning `ls[i..]` while the field `cur` is still open: the fields in
/// order, or the first line that is not a field line.
pub open spec fn scan_lines_from(ls: Seq<Seq<char>>, i: int, cur: Option<LineView>) -> Result<
    Seq<LineView>,
    Seq<char>,
>
    decreases ls.len() - i,
{
    if i < 0 || i >= ls.len() {
        Ok(pending(cur))
    } else {
        let l = ls[i];
        if cur is Some && is_continuation(l) {
            let f = cur->Some_0;
            scan_lines_from(ls, i + 1, Some((f.0, f.1.push(trim(l)))))
        } else if is_skippable(l) {
            after(pending(cur), scan_lines_from(ls, i + 1, None))
        } else if find_char(l, ':', 0) >= l.len() {
            Err(l)
        } else {
            after(pending(cur), scan_lines_from(ls, i + 1, Some(open_field(l))))
        }
    }
}

/// Whether `r` reports the outcome `s` of scanning: the same fields, or a
/// scan error carrying the same line.
pub open spec fn scan_matches(r: Result<Vec<Line>, ParseError>, s: Result<Seq<LineView>, Seq<char>>) -> bool {
    match s {
        Ok(w) => match r {
            Ok(v) => line_views(v@) == w,
            Err(_) => false,
        },
        Err(l) => match r {
            Err(ParseError::Scan { line }) => line@ == l,
            _ => false,
        },
    }
}

/// The lines of `s`, owned.
pub fn lines_of(s: &str) -> (r: Vec<String>)
    ensures
        views(r@) == text_lines(s@),
{
    let pieces = split_char(s, '\n');
    let ghost ps = split_on(s@, '\n');
    let mut n = pieces.len();
    if n > 0 && pieces[n - 1].unicode_len() == 0 {
        n = n - 1;
    }
    let ghost kept = if ps.len() > 0 && ps.last().len() == 0 {
        ps.drop_last()
    } else {
        ps
    };
    assert(kept.len() == n);
    assert forall|k: int| 0 <= k < n implies kept[k] == pieces@[k]@ by {
        assert(str_views(pieces@)[k] == pieces@[k]@);
    }
    let mut out: Vec<String> = Vec::new();
    let mut k: usize = 0;
    while k < n
        invariant
            n <= pieces@.len(),
            kept.len() == n,
            forall|j: int| 0 <= j < n ==> kept[j] == pieces@[j]@,
            k <= n,
            views(out@) =~= kept.subrange(0, k as int).map_values(|l: Seq<char>| strip_cr(l)),
        decreases n - k,
    {
        let p = pieces[k];
        let m = p.unicode_len();
        let line = if m > 0 && p.get_char(m - 1) == '\r' {
            p.substring_char(0, m - 1)
        } else {
            p
        };
        assert(line@ == strip_cr(kept[k as int])) by {
            if m > 0 && p@.last() == '\r' {
                assert(line@ =~= p@.drop_last());
            }
        }
        let ghost before = out@;
        out.push(line.to_owned());
        assert(views(out@) =~= views(before).push(line@)) by {
            assert(out@ =~= before.push(out@.last()));
        }
        assert(kept.subrange(0, k + 1) =~= kept.subrange(0, k as int).push(kept[k as int]));
        k = k + 1;
    }
    assert(kept.subrange(0, n as int) =~= kept);
    out
}

/// A stanza being scanned: its lines, owned.
#[derive(Clone, Debug)]
pub struct Scanner {
    lines: Vec<String>,
}

impl Scanner {
    /// The lines still to scan.
    pub closed spec fn lines_view(&self) -> Seq<Seq<char>> {
        views(self.lines@)
    }

    /// The fields of the stanza in order, or a scan error carrying the first
    /// line that is none of a field line, a continuation, a blank line or a
    /// comment.
    pub fn collect_lines(self) -> (r: Result<Vec<Line>, ParseError>)
        ensures
            scan_matches(r, scan_lines_from(self.lines_view(), 0, None)),
    {
        let ghost ls = self.lines_view();
        let lines = self.lines;
        let mut out: Vec<Line> = Vec::new();
        let mut cur: Option<Line> = None;
        let mut i: usize = 0;
        while i < lines.len()
            invariant
                ls == views(lines@),
                ls == self.lines_view(),
                i <= lines@.len(),
                after(
                    line_views(out@),
                    scan_lines_from(ls, i as int, cur_view(cur)),
                ) == scan_lines_from(ls, 0, None),
            decreases lines@.len() - i,
        {
            let l: &str = lines[i].as_str();
            assert(l@ == ls[i as int]);
            let cont = match cur {
                Some(_) => l.unicode_len() > 0 && l.get_char(0) == ' ',
                None => false,
            };
            if cont {
                let ghost cv = cur_view(cur);
                let mut f = cur.unwrap();
                let t = trim_str(l);
                let ghost before = f.1@;
                f.1.push(t.to_owned());
                assert(views(f.1@) =~= views(before).push(trim(l@))) by {
                    assert(f.1@ =~= before.push(f.1@.last()));
                }
                cur = Some(f);
            } else {
                let blank = trim_str(l).unicode_len() == 0;
                let comment = l.unicode_len() > 0 && l.get_char(0) == '#';
                let colon = find_char_from(l, ':', 0);
                assert(is_skippable(l@) == (blank || comment));
                if !blank && !comment && colon >= l.unicode_len() {
                    assert(scan_lines_from(ls, i as int, cur_view(cur)) == Err::<Seq<LineView>, Seq<char>>(l@));
                    assert(scan_lines_from(ls, 0, None) == Err::<Seq<LineView>, Seq<char>>(l@));
                    let owned = l.to_owned();
                    assert(owned@ == l@);
                    let e = ParseError::Scan { line: owned };
                    return Err(e);
                }
                let ghost before = out@;
                let ghost cv = cur_view(cur);
                match cur {
                    Some(f) => {
                        out.push(f);
                    },
                    None => {},
                }
                assert(line_views(out@) =~= line_views(before) + pending(cv)) by {
                    assert(out@ =~= before + if cv is Some { seq![out@.last()] } else { Seq::empty() });
                }
                if blank || comment {
                    cur = None;
                } else {
                    cur = Some(open_line(l, colon));
                }
                assert(scan_lines_from(ls, i as int, cv) == after(pending(cv), scan_lines_from(ls, i + 1, cur_view(cur))));
                proof {
                    lemma_after_after(line_views(before), pending(cv), scan_lines_from(ls, i + 1, cur_view(cur)));
                }
            }
            i = i + 1;
        }
        let ghost before = out@;
        let ghost cv = cur_view(cur);
        match cur {
            Some(f) => {
                out.push(f);
            },
            None => {},
        }
        assert(line_views(out@) =~= line_views(before) + pending(cv)) by {
            assert(out@ =~= before + if cv is Some { seq![out@.last()] } else { Seq::empty() });
        }
        Ok(out)
    }
}

proof fn lemma_after_after(a: Seq<LineView>, b: Seq<LineView>, r: Result<Seq<LineView>, Seq<char>>)
    ensures
        after(a, after(b, r)) == after(a + b, r),
{
    if let Ok(x) = r {
        assert((a + b) + x =~= a + (b + x));
    }
}

pub open spec fn cur_view(cur: Option<Line>) -> Option<LineView> {
    match cur {
        Some(l) => Some(line_view(l)),
        None => None,
    }
}

/// The field opened by the line `l`, whose first colon stands at `colon`.
fn open_line(l: &str, colon: usize) -> (r: Line)
    requires
        colon == find_char(l@, ':', 0),
        colon < l@.len(),
    ensures
        line_view(r) == open_field(l@),
{
    let n = l.unicode_len();
    let key = l.substring_char(0, colon).to_owned();
    let first = trim_str(l.substring_char(colon + 1, n));
    let mut vals: Vec<String> = Vec::new();
    if first.unicode_len() > 0 {
        vals.push(first.to_owned());
    }
    assert(views(vals@) =~= open_field(l@).1);
    (key, vals)
}

/// Begins scanning the text of one stanza.
pub fn scan(block: &str) -> (r: Scanner)
    ensures
        r.lines_view() == text_lines(block@),
{
    Scanner { lines: lines_of(block) }
}

} // verus!

verus! {

/// The value-lines of the last field named `k` among `ls`.
pub open spec fn last_value(ls: Seq<LineView>, k: Seq<char>) -> Option<Seq<Seq<char>>>
    decreases ls.len(),
{
    if ls.len() == 0 {
        None
    } else if ls.last().0 == k {
        Some(ls.last().1)
    } else {
        last_value(ls.drop_last(), k)
    }
}

/// Whether some field of `ls` is named `k`.
pub open spec fn has_key(ls: Seq<LineView>, k: Seq<char>) -> bool {
    exists|i: int| 0 <= i < ls.len() && #[trigger] ls[i].0 == k
}

pub proof fn lemma_last_value_some(ls: Seq<LineView>, k: Seq<char>)
    ensures
        last_value(ls, k) is Some <==> has_key(ls, k),
    decreases ls.len(),
{
    if ls.len() > 0 {
        lemma_last_value_some(ls.drop_last(), k);
        if has_key(ls, k) && ls.last().0 != k {
            let i = choose|i: int| 0 <= i < ls.len() && #[trigger] ls[i].0 == k;
            assert(ls.drop_last()[i].0 == k);
        }
        if has_key(ls.drop_last(), k) {
            let i = choose|i: int| 0 <= i < ls.len() - 1 && #[trigger] ls.drop_last()[i].0 == k;
            assert(ls[i].0 == k);
        }
    }
}

/// The value-lines joined with single spaces.
pub open spec fn join_space(ls: Seq<Seq<char>>) -> Seq<char>
    decreases ls.len(),
{
    if ls.len() == 0 {
        Seq::empty()
    } else if ls.len() == 1 {
        ls[0]
    } else {
        join_space(ls.drop_last()) + seq![' '] + ls.last()
    }
}

/// The comma-separated items of all lines, trimmed, empty ones left out.
pub open spec fn comma_items(ls: Seq<Seq<char>>) -> Seq<Seq<char>>
    decreases ls.len(),
{
    if ls.len() == 0 {
        Seq::empty()
    } else {
        comma_items(ls.drop_last()) + trimmed_nonempty(split_on(ls.last(), ','))
    }
}

/// The whitespace-separated words of all lines.
pub open spec fn line_words(ls: Seq<Seq<char>>) -> Seq<Seq<char>>
    decreases ls.len(),
{
    if ls.len() == 0 {
        Seq::empty()
    } else {
        line_words(ls.drop_last()) + words(ls.last())
    }
}

/// The scanned fields of one stanza, in order; a later field of the same
/// name hides an earlier one.
#[derive(Clone, Debug, PartialEq, Eq)]
pub struct FieldMap {
    entries: Vec<Line>,
}

impl FieldMap {
    pub closed spec fn lines(&self) -> Seq<LineView> {
        line_views(self.entries@)
    }

    /// The value-lines that `key` maps to: those of its last field.
    pub open spec fn lookup(&self, key: Seq<char>) -> Option<Seq<Seq<char>>> {
        last_value(self.lines(), key)
    }

    /// The map of the fields `lines`, as scanned.
    pub fn from_lines(lines: Vec<Line>) -> (r: FieldMap)
        ensures
            r.lines() == line_views(lines@),
    {
        FieldMap { entries: lines }
    }

    /// The field `key`, present or not.
    pub fn get_value(&self, key: &str) -> (r: Value)
        ensures
            r.key@ == key@,
            r.val_view() == self.lookup(key@),
    {
        let mut i: usize = self.entries.len();
        assert(self.lines().subrange(0, i as int) =~= self.lines());
        while i > 0
            invariant
                i <= self.entries@.len(),
                last_value(self.lines(), key@) == last_value(self.lines().subrange(0, i as int), key@),
            decreases i,
        {
            let ghost pre = self.lines().subrange(0, i as int);
            assert(pre.drop_last() =~= self.lines().subrange(0, i - 1));
            if same_text(self.entries[i - 1].0.as_str(), key) {
                let v = clone_lines(&self.entries[i - 1].1);
                return Value { key: key.to_owned(), val: Some(v) };
            }
            i = i - 1;
        }
        Value { key: key.to_owned(), val: None }
    }

    /// Takes the field `key` out: afterwards no field of that name is left,
    /// and every other name maps to what it did.
    pub fn remove_value(&mut self, key: &str) -> (r: Value)
        ensures
            r.key@ == key@,
            r.val_view() == old(self).lookup(key@),
            final(self).lookup(key@) is None,
            forall|k: Seq<char>| k != key@ ==> final(self).lookup(k) == old(self).lookup(k),
    {
        let found = self.get_value(key);
        let ghost src = self.lines();
        let mut kept: Vec<Line> = Vec::new();
        let mut i: usize = 0;
        let n = self.entries.len();
        while i < n
            invariant
                n == self.entries@.len(),
                src == self.lines(),
                i <= n,
                last_value(line_views(kept@), key@) is None,
                forall|k: Seq<char>| k != key@ ==> last_value(line_views(kept@), k) == last_value(src.subrange(0, i as int), k),
            decreases n - i,
        {
            let ghost pre = src.subrange(0, i + 1);
            assert(pre.drop_last() =~= src.subrange(0, i as int));
            if !same_text(self.entries[i].0.as_str(), key) {
                let e = (self.entries[i].0.as_str().to_owned(), clone_lines(&self.entries[i].1));
                let ghost before = kept@;
                kept.push(e);
                assert(line_views(kept@).drop_last() =~= line_views(before));
                assert(line_views(kept@).last() == src[i as int]);
                assert forall|k: Seq<char>| k != key@ implies last_value(line_views(kept@), k)
                    == last_value(pre, k) by {
                    assert(pre.last() == src[i as int]);
                    assert(pre.len() == i + 1);
                    assert(last_value(line_views(before), k) == last_value(src.subrange(0, i as int), k));
                    if src[i as int].0 != k {
                        assert(last_value(line_views(kept@), k) == last_value(line_views(before), k));
                        assert(last_value(pre, k) == last_value(pre.drop_last(), k));
                    }
                }
                assert(last_value(line_views(kept@), key@) == last_value(line_views(before), key@));
            } else {
                assert(src[i as int].0 == key@);
                assert forall|k: Seq<char>| k != key@ implies last_value(line_views(kept@), k)
                    == last_value(pre, k) by {
                    assert(pre.last() == src[i as int]);
                    assert(pre.drop_last() =~= src.subrange(0, i as int));
                    assert(last_value(line_views(kept@), k) == last_value(src.subrange(0, i as int), k));
                    assert(pre.len() == i + 1);
                    assert(last_value(pre, k) == last_value(pre.drop_last(), k));
                }
            }
            assert(pre.last() == src[i as int]);
            i = i + 1;
        }
        assert(src.subrange(0, n as int) =~= src);
        self.entries = kept;
        found
    }
}

/// A copy of the value-lines.
pub fn clone_lines(v: &Vec<String>) -> (r: Vec<String>)
    ensures
        views(r@) == views(v@),
{
    let mut out: Vec<String> = Vec::new();
    let mut i: usize = 0;
    while i < v.len()
        invariant
            i <= v@.len(),
            views(out@) =~= views(v@.subrange(0, i as int)),
        decreases v@.len() - i,
    {
        let ghost before = out@;
        out.push(v[i].as_str().to_owned());
        assert(views(out@) =~= views(before).push(v@[i as int]@));
        assert(views(v@.subrange(0, i + 1)) =~= views(v@.subrange(0, i as int)).push(v@[i as int]@));
        i = i + 1;
    }
    assert(v@.subrange(0, v@.len() as int) =~= v@);
    out
}

impl Scanner {
    /// The fields of the stanza as a map from key to value-lines.
    pub fn collect_to_map(self) -> (r: Result<FieldMap, ParseError>)
        ensures
            match scan_lines_from(self.lines_view(), 0, None) {
                Ok(w) => r is Ok && r->Ok_0.lines() == w,
                Err(l) => match r {
                    Err(ParseError::Scan { line }) => line@ == l,
                    _ => false,
                },
            },
    {
        match self.collect_lines() {
            Ok(v) => Ok(FieldMap::from_lines(v)),
            Err(e) => Err(e),
        }
    }
}

/// The value-lines joined with single spaces.
pub fn joined(lines: &Vec<String>) -> (r: String)
    ensures
        r@ == join_space(views(lines@)),
{
    let mut out = String::new();
    let mut i: usize = 0;
    while i < lines.len()
        invariant
            i <= lines@.len(),
            out@ == join_space(views(lines@.subrange(0, i as int))),
        decreases lines@.len() - i,
    {
        let ghost pre = views(lines@.subrange(0, i + 1));
        assert(pre.drop_last() =~= views(lines@.subrange(0, i as int)));
        if i > 0 {
            let sp = " ";
            proof {
                reveal_strlit(" ");
            }
            out.append(sp);
        } else {
            assert(out@ =~= Seq::<char>::empty());
        }
        out.append(lines[i].as_str());
        assert(out@ =~= join_space(pre));
        i = i + 1;
    }
    assert(lines@.subrange(0, lines@.len() as int) =~= lines@);
    out
}

/// The one value-line of a field that must have exactly one.
pub fn one_line(lines: &Vec<String>) -> (r: Result<String, ParseError>)
    ensures
        lines@.len() == 1 ==> r is Ok && r->Ok_0@ == lines@[0]@,
        lines@.len() != 1 ==> r is Err && r->Err_0 is MultiLineViolation,
{
    if lines.len() == 1 {
        Ok(lines[0].as_str().to_owned())
    } else {
        Err(ParseError::MultiLineViolation { key: String::new() })
    }
}

/// One field of a stanza, as looked up by name: the name, and its
/// value-lines if it was present.
pub struct Value {
    pub key: String,
    pub val: Option<Vec<String>>,
}

impl Value {
    pub open spec fn val_view(&self) -> Option<Seq<Seq<char>>> {
        match self.val {
            Some(v) => Some(views(v@)),
            None => None,
        }
    }

    pub open spec fn is_missing(&self, e: ParseError) -> bool {
        e is MissingField && e->MissingField_key@ == self.key@
    }

    pub open spec fn is_multi_line(&self, e: ParseError) -> bool {
        e is MultiLineViolation && e->MultiLineViolation_key@ == self.key@
    }

    /// The value-lines; a missing-field error if the field is absent.
    pub fn required(&self) -> (r: Result<&Vec<String>, ParseError>)
        ensures
            self.val is None ==> r is Err && self.is_missing(r->Err_0),
            self.val is Some ==> r is Ok && views(r->Ok_0@) == self.val_view()->Some_0,
    {
        match &self.val {
            Some(v) => Ok(v),
            None => Err(ParseError::MissingField { key: self.key.as_str().to_owned() }),
        }
    }

    /// The single value-line, `None` if the field is absent; an error if it
    /// has any other number of lines.
    pub fn one_line(&self) -> (r: Result<Option<String>, ParseError>)
        ensures
            match self.val_view() {
                None => r == Ok::<Option<String>, ParseError>(None),
                Some(ls) => if ls.len() == 1 {
                    r is Ok && r->Ok_0 is Some && r->Ok_0->Some_0@ == ls[0]
                } else {
                    r is Err && self.is_multi_line(r->Err_0)
                },
            },
    {
        match &self.val {
            None => Ok(None),
            Some(v) => {
                if v.len() == 1 {
                    Ok(Some(v[0].as_str().to_owned()))
                } else {
                    Err(ParseError::MultiLineViolation { key: self.key.as_str().to_owned() })
                }
            },
        }
    }

    /// As `one_line`, the line owned.
    pub fn one_line_owned(&self) -> (r: Result<Option<String>, ParseError>)
        ensures
            match self.val_view() {
                None => r == Ok::<Option<String>, ParseError>(None),
                Some(ls) => if ls.len() == 1 {
                    r is Ok && r->Ok_0 is Some && r->Ok_0->Some_0@ == ls[0]
                } else {
                    r is Err && self.is_multi_line(r->Err_0)
                },
            },
    {
        self.one_line()
    }

    /// The single value-line of a field that must be present.
    pub fn one_line_req(&self) -> (r: Result<String, ParseError>)
        ensures
            match self.val_view() {
                None => r is Err && self.is_missing(r->Err_0),
                Some(ls) => if ls.len() == 1 {
                    r is Ok && r->Ok_0@ == ls[0]
                } else {
                    r is Err && self.is_multi_line(r->Err_0)
                },
            },
    {
        match self.one_line() {
            Ok(Some(s)) => Ok(s),
            Ok(None) => Err(ParseError::MissingField { key: self.key.as_str().to_owned() }),
            Err(e) => Err(e),
        }
    }

    /// The value-lines joined with single spaces, `None` if absent.
    pub fn joined_lines(&self) -> (r: Option<String>)
        ensures
            match self.val_view() {
                None => r is None,
                Some(ls) => r is Some && r->Some_0@ == join_space(ls),
            },
    {
        match &self.val {
            Some(v) => Some(joined(v)),
            None => None,
        }
    }

    /// The value-lines joined with single spaces, of a required field.
    pub fn joined_lines_req(&self) -> (r: Result<String, ParseError>)
        ensures
            match self.val_view() {
                None => r is Err && self.is_missing(r->Err_0),
                Some(ls) => r is Ok && r->Ok_0@ == join_space(ls),
            },
    {
        match self.joined_lines() {
            Some(s) => Ok(s),
            None => Err(ParseError::MissingField { key: self.key.as_str().to_owned() }),
        }
    }

    /// The comma-separated items of a required field, trimmed, empty ones
    /// left out.
    pub fn split_comma(&self) -> (r: Result<Vec<String>, ParseError>)
        ensures
            match self.val_view() {
                None => r is Err && self.is_missing(r->Err_0),
                Some(ls) => r is Ok && views(r->Ok_0@) == comma_items(ls),
            },
    {
        let lines = self.required()?;
        let ghost ls = views(lines@);
        let mut out: Vec<String> = Vec::new();
        let mut i: usize = 0;
        while i < lines.len()
            invariant
                ls == views(lines@),
                i <= lines@.len(),
                views(out@) == comma_items(ls.subrange(0, i as int)),
            decreases lines@.len() - i,
        {
            let ghost pre = ls.subrange(0, i + 1);
            assert(pre.drop_last() =~= ls.subrange(0, i as int));
            let pieces = split_char(lines[i].as_str(), ',');
            let ghost ps = str_views(pieces@);
            let ghost base = views(out@);
            let mut j: usize = 0;
            while j < pieces.len()
                invariant
                    ps == str_views(pieces@),
                    j <= pieces@.len(),
                    views(out@) == base + trimmed_nonempty(ps.subrange(0, j as int)),
                decreases pieces@.len() - j,
            {
                let ghost sub = ps.subrange(0, j + 1);
                assert(sub.drop_last() =~= ps.subrange(0, j as int));
                let t = trim_str(pieces[j]);
                if t.unicode_len() > 0 {
                    let ghost before = out@;
                    out.push(t.to_owned());
                    assert(views(out@) =~= views(before).push(t@));
                }
                assert(views(out@) =~= base + trimmed_nonempty(sub));
                j = j + 1;
            }
            assert(ps.subrange(0, ps.len() as int) =~= ps);
            assert(views(out@) =~= comma_items(pre));
            i = i + 1;
        }
        assert(ls.subrange(0, ls.len() as int) =~= ls);
        Ok(out)
    }

    /// The whitespace-separated words of a required field.
    pub fn split_whitespace(&self) -> (r: Result<Vec<String>, ParseError>)
        ensures
            match self.val_view() {
                None => r is Err && self.is_missing(r->Err_0),
                Some(ls) => r is Ok && views(r->Ok_0@) == line_words(ls),
            },
    {
        let lines = self.required()?;
        let ghost ls = views(lines@);
        let mut out: Vec<String> = Vec::new();
        let mut i: usize = 0;
        while i < lines.len()
            invariant
                ls == views(lines@),
                i <= lines@.len(),
                views(out@) == line_words(ls.subrange(0, i as int)),
            decreases lines@.len() - i,
        {
            let ghost pre = ls.subrange(0, i + 1);
            assert(pre.drop_last() =~= ls.subrange(0, i as int));
            let ws = split_words(lines[i].as_str());
            let ghost base = views(out@);
            let mut j: usize = 0;
            while j < ws.len()
                invariant
                    j <= ws@.len(),
                    views(out@) == base + str_views(ws@).subrange(0, j as int),
                decreases ws@.len() - j,
            {
                let ghost before = out@;
                out.push(ws[j].to_owned());
                assert(views(out@) =~= views(before).push(ws@[j as int]@));
                assert(str_views(ws@).subrange(0, j + 1) =~= str_views(ws@).subrange(0, j as int).push(ws@[j as int]@));
                assert(views(out@) =~= base + str_views(ws@).subrange(0, j + 1));
                j = j + 1;
            }
            assert(str_views(ws@).subrange(0, ws@.len() as int) =~= str_views(ws@));
            assert(views(out@) =~= line_words(pre));
            i = i + 1;
        }
        assert(ls.subrange(0, ls.len() as int) =~= ls);
        Ok(out)
    }
}

} // verus!

verus! {

/// The stanzas of `b` from byte `start`, where the current stanza began at
/// `start` and `i` is the next byte to look at. A blank line ends a stanza
/// that has a line; blank lines before a stanza are skipped. Each stanza
/// keeps the newline of its last line.
pub open spec fn sections_from(b: Seq<u8>, start: int, i: int) -> Seq<Seq<u8>>
    decreases b.len() - i,
{
    if i < 0 || i >= b.len() {
        if 0 <= start < b.len() {
            seq![b.subrange(start, b.len() as int)]
        } else {
            Seq::empty()
        }
    } else if b[i] == 10u8 && i == start {
        sections_from(b, i + 1, i + 1)
    } else if b[i] == 10u8 && i > start && b[i - 1] == 10u8 {
        seq![b.subrange(start, i)] + sections_from(b, i + 1, i + 1)
    } else {
        sections_from(b, start, i + 1)
    }
}

/// The blank-line separated stanzas of a file's bytes.
pub struct ByteSections {
    name: String,
    data: Vec<u8>,
    pos: usize,
}

impl ByteSections {
    /// The name of the file the stanzas come from.
    pub closed spec fn file_name(&self) -> Seq<char> {
        self.name@
    }

    /// The stanzas not yet handed out.
    pub closed spec fn remaining(&self) -> Seq<Seq<u8>> {
        sections_from(self.data@, self.pos as int, self.pos as int)
    }

    /// Reads the stanzas of `from`, a file called `name`.
    pub fn new(from: Vec<u8>, name: String) -> (r: Self)
        ensures
            r.remaining() == sections_from(from@, 0, 0),
            r.file_name() == name@,
    {
        ByteSections { name, data: from, pos: 0 }
    }

    /// The next stanza, if any.
    pub fn next_section(&mut self) -> (r: Option<Vec<u8>>)
        ensures
            match r {
                Some(s) => old(self).remaining() == seq![s@] + final(self).remaining(),
                None => old(self).remaining().len() == 0 && final(self).remaining().len() == 0,
            },
    {
        let n = self.data.len();
        let mut start = self.pos;
        let mut i = self.pos;
        if start > n {
            return None;
        }
        while i < n
            invariant
                n == self.data@.len(),
                start <= i <= n,
                self.pos <= start,
                sections_from(self.data@, start as int, i as int) == old(self).remaining(),
                self.data@ == old(self).data@,
                self.pos == old(self).pos,
            decreases n - i,
        {
            if self.data[i] == 10u8 && i == start {
                start = i + 1;
            } else if self.data[i] == 10u8 && i > start && self.data[i - 1] == 10u8 {
                let s = copy_range(&self.data, start, i);
                self.pos = i + 1;
                return Some(s);
            }
            i = i + 1;
        }
        if start < n {
            let s = copy_range(&self.data, start, n);
            self.pos = n;
            assert(self.remaining() =~= Seq::<Seq<u8>>::empty());
            Some(s)
        } else {
            self.pos = n;
            None
        }
    }

    /// All the stanzas not yet handed out, in order.
    pub fn collect_sections(self) -> (r: Vec<Vec<u8>>)
        ensures
            r@.map_values(|s: Vec<u8>| s@) == self.remaining(),
    {
        let mut it = self;
        let ghost all = it.remaining();
        let mut out: Vec<Vec<u8>> = Vec::new();
        loop
            invariant
                out@.map_values(|s: Vec<u8>| s@) + it.remaining() == all,
                all == self.remaining(),
            decreases it.remaining().len(),
        {
            match it.next_section() {
                Some(s) => {
                    let ghost before = out@;
                    out.push(s);
                    assert(out@.map_values(|s: Vec<u8>| s@) =~= before.map_values(|s: Vec<u8>| s@).push(s@));
                },
                None => {
                    assert(out@.map_values(|s: Vec<u8>| s@) =~= all);
                    return out;
                },
            }
        }
    }

    /// The same stanzas, decoded as UTF-8.
    pub fn into_string_sections(self) -> (r: StringSections)
        ensures
            r.remaining() == self.remaining(),
    {
        StringSections { inner: self }
    }
}

/// The bytes `v[from..to]`, copied.
fn copy_range(v: &Vec<u8>, from: usize, to: usize) -> (r: Vec<u8>)
    requires
        from <= to <= v@.len(),
    ensures
        r@ == v@.subrange(from as int, to as int),
{
    let mut out: Vec<u8> = Vec::new();
    let mut i = from;
    while i < to
        invariant
            from <= i <= to <= v@.len(),
            out@ == v@.subrange(from as int, i as int),
        decreases to - i,
    {
        out.push(v[i]);
        assert(out@ =~= v@.subrange(from as int, i + 1));
        i = i + 1;
    }
    out
}

/// Relies on `String::from_utf8`: succeeds exactly on valid UTF-8, and then
/// holds the characters those bytes encode.
#[verifier::external_body]
fn decode_utf8(v: Vec<u8>) -> (r: Option<String>)
    ensures
        r is Some <==> vstd::utf8::valid_utf8(v@),
        r matches Some(s) ==> vstd::utf8::encode_utf8(s@) == v@,
{
    String::from_utf8(v).ok()
}

/// The stanzas of a file, as text.
pub struct StringSections {
    inner: ByteSections,
}

impl StringSections {
    /// The stanzas not yet handed out, as bytes.
    pub closed spec fn remaining(&self) -> Seq<Seq<u8>> {
        self.inner.remaining()
    }

    /// The next stanza as text: `None` at the end, an error naming the file
    /// if the stanza is not valid UTF-8.
    pub fn next_section(&mut self) -> (r: Option<Result<String, ParseError>>)
        ensures
            match r {
                None => old(self).remaining().len() == 0,
                Some(x) => {
                    let s = old(self).remaining()[0];
                    &&& old(self).remaining() == seq![s] + final(self).remaining()
                    &&& (x is Ok <==> vstd::utf8::valid_utf8(s))
                    &&& (x matches Ok(t) ==> vstd::utf8::encode_utf8(t@) == s)
                },
            },
    {
        match self.inner.next_section() {
            None => None,
            Some(bytes) => match decode_utf8(bytes) {
                Some(s) => Some(Ok(s)),
                None => Some(
                    Err(ParseError::TypeError { key: self.inner.name.as_str().to_owned(), text: String::new() }),
                ),
            },
        }
    }
}

} // verus!

verus! {

/// An instant, as whole seconds since the Unix epoch in UTC.
#[derive(Copy, Clone, Debug, PartialEq, Eq, Structural)]
pub struct UtcTime {
    pub secs: i64,
}

/// The seconds since the epoch that an RFC 2822 date names, if it parses.
pub uninterp spec fn mail_date_secs(s: Seq<char>) -> Option<i64>;

/// Relies on `mailparse::dateparse`: the seconds since the epoch that an
/// RFC 2822 date names, or failure; a function of the text alone.
#[verifier::external_body]
fn mail_date(s: &str) -> (r: Option<i64>)
    ensures
        r == mail_date_secs(s@),
{
    mailparse::dateparse(s).ok()
}

/// A `Date` field such as `Wed, 06 Feb 2019 14:29:43 UTC`, as an instant;
/// a type error if it does not parse as an RFC 2822 date.
pub fn parse_date(date: &str) -> (r: Result<UtcTime, ParseError>)
    ensures
        match mail_date_secs(date@) {
            Some(secs) => r == Ok::<UtcTime, ParseError>(UtcTime { secs }),
            None => r is Err && r->Err_0 is TypeError && r->Err_0->TypeError_text@ == date@,
        },
{
    match mail_date(date) {
        Some(secs) => Ok(UtcTime { secs }),
        None => Err(ParseError::TypeError { key: String::new(), text: date.to_owned() }),
    }
}

} // verus!
