//! Entries of a classic `sources.list`: one `deb`, `deb-src` or `debs`
//! line names a mirror URL, a suite and its components.
use vstd::prelude::*;

use crate::error::ParseError;
use crate::rfc822::{clone_lines, lines_of, text_lines};
use crate::text::{find_char, find_char_from, split_words, str_views, trim, trim_str, views, words};

verus! {

/// One source of packages.
#[derive(Clone, Debug, PartialEq, Eq)]
pub struct Entry {
    pub src: bool,
    pub url: String,
    pub suite_codename: String,
    pub components: Vec<String>,
    pub arch: Option<String>,
}

/// An entry as plain values.
pub struct EntryView {
    pub src: bool,
    pub url: Seq<char>,
    pub suite_codename: Seq<char>,
    pub components: Seq<Seq<char>>,
    pub arch: Option<Seq<char>>,
}

pub open spec fn entry_view(e: Entry) -> EntryView {
    EntryView {
        src: e.src,
        url: e.url@,
        suite_codename: e.suite_codename@,
        components: views(e.components@),
        arch: match e.arch {
            Some(a) => Some(a@),
            None => None,
        },
    }
}

pub open spec fn entry_views(es: Seq<Entry>) -> Seq<EntryView> {
    es.map_values(|e: Entry| entry_view(e))
}

/// Why a line was rejected: a part is missing, or the type tag is unknown.
pub enum LineFault {
    Missing,
    UnknownTag,
}

/// The line without its comment, trimmed.
pub open spec fn content_of(l: Seq<char>) -> Seq<char> {
    trim(l.subrange(0, find_char(l, '#', 0)))
}

/// The `src` flags of the entries that a type tag stands for.
pub open spec fn flags_of(tag: Seq<char>) -> Option<Seq<bool>> {
    if tag == "deb"@ {
        Some(seq![false])
    } else if tag == "deb-src"@ {
        Some(seq![true])
    } else if tag == "debs"@ {
        Some(seq![false, true])
    } else {
        None
    }
}

/// The URL with a trailing `/`.
pub open spec fn with_slash(u: Seq<char>) -> Seq<char> {
    if u.len() > 0 && u.last() == '/' {
        u
    } else {
        u.push('/')
    }
}

/// The entries of one line: none for a blank or comment line; else words
/// `type [arch] url suite components...`, one entry per flag of the type.
pub open spec fn line_entries(l: Seq<char>) -> Result<Seq<EntryView>, LineFault> {
    let t = content_of(l);
    let ps = words(t);
    if ps.len() == 0 {
        Ok(Seq::empty())
    } else if ps.len() < 2 {
        Err(LineFault::Missing)
    } else {
        let has_arch = ps[1].len() > 0 && ps[1][0] == '[';
        let u = if has_arch { 2int } else { 1int };
        if ps.len() < u + 2 {
            Err(LineFault::Missing)
        } else {
            match flags_of(ps[0]) {
                None => Err(LineFault::UnknownTag),
                Some(fl) => Ok(
                    fl.map_values(
                        |f: bool|
                            EntryView {
                                src: f,
                                url: with_slash(ps[u]),
                                suite_codename: ps[u + 1],
                                components: ps.subrange(u + 2, ps.len() as int),
                                arch: if has_arch { Some(ps[1]) } else { None },
                            },
                    ),
                ),
            }
        }
    }
}

/// The entries of all lines in order, or the first fault with its line.
pub open spec fn list_entries(ls: Seq<Seq<char>>) -> Result<Seq<EntryView>, (LineFault, Seq<char>)>
    decreases ls.len(),
{
    if ls.len() == 0 {
        Ok(Seq::empty())
    } else {
        match list_entries(ls.drop_last()) {
            Err(e) => Err(e),
            Ok(es) => match line_entries(ls.last()) {
                Ok(more) => Ok(es + more),
                Err(f) => Err((f, ls.last())),
            },
        }
    }
}

/// Whether `e` reports the fault `f`.
pub open spec fn reports(e: ParseError, f: LineFault) -> bool {
    match f {
        LineFault::Missing => e is MissingField,
        LineFault::UnknownTag => e is UnknownEnumToken,
    }
}

fn url_with_slash(u: &str) -> (r: String)
    ensures
        r@ == with_slash(u@),
{
    let n = u.unicode_len();
    let mut s = u.to_owned();
    if !(n > 0 && u.get_char(n - 1) == '/') {
        let slash = "/";
        proof {
            reveal_strlit("/");
        }
        s.append(slash);
    }
    s
}

fn make_entry(src: bool, url: &str, suite: &str, comps: &Vec<String>, arch: Option<&str>) -> (r: Entry)
    ensures
        r.src == src,
        r.url@ == with_slash(url@),
        r.suite_codename@ == suite@,
        views(r.components@) == views(comps@),
        r.arch matches Some(a) ==> arch matches Some(b) && a@ == b@,
        r.arch is None <==> arch is None,
{
    Entry {
        src,
        url: url_with_slash(url),
        suite_codename: suite.to_owned(),
        components: clone_lines(comps),
        arch: match arch {
            Some(a) => Some(a.to_owned()),
            None => None,
        },
    }
}

/// The entries of one line.
pub fn read_line(line: &str) -> (r: Result<Vec<Entry>, ParseError>)
    ensures
        match line_entries(line@) {
            Ok(es) => r is Ok && entry_views(r->Ok_0@) == es,
            Err(f) => r is Err && reports(r->Err_0, f),
        },
{
    let cut = find_char_from(line, '#', 0);
    let t = trim_str(line.substring_char(0, cut));
    let ps = split_words(t);
    let ghost pv = str_views(ps@);
    assert(pv == words(content_of(line@)));
    if ps.len() == 0 {
        let v: Vec<Entry> = Vec::new();
        assert(entry_views(v@) =~= Seq::<EntryView>::empty());
        return Ok(v);
    }
    if ps.len() < 2 {
        return Err(ParseError::MissingField { key: "url".to_owned() });
    }
    let has_arch = ps[1].unicode_len() > 0 && ps[1].get_char(0) == '[';
    let u: usize = if has_arch { 2 } else { 1 };
    if ps.len() < u + 2 {
        if ps.len() < u + 1 {
            return Err(ParseError::MissingField { key: "url".to_owned() });
        }
        return Err(ParseError::MissingField { key: "suite".to_owned() });
    }
    let mut comps: Vec<String> = Vec::new();
    let mut k = u + 2;
    while k < ps.len()
        invariant
            u + 2 <= k <= ps@.len(),
            pv == str_views(ps@),
            views(comps@) =~= pv.subrange(u + 2, k as int),
        decreases ps@.len() - k,
    {
        let ghost before = comps@;
        comps.push(ps[k].to_owned());
        assert(views(comps@) =~= views(before).push(pv[k as int]));
        k = k + 1;
    }
    let arch = if has_arch { Some(ps[1]) } else { None };
    let tag = ps[0];
    let mut out: Vec<Entry> = Vec::new();
    let ghost mk = |f: bool|
        EntryView {
            src: f,
            url: with_slash(pv[u as int]),
            suite_codename: pv[u + 1],
            components: pv.subrange(u + 2, pv.len() as int),
            arch: if has_arch { Some(pv[1]) } else { None },
        };
    if crate::text::same_text(tag, "deb") {
        out.push(make_entry(false, ps[u], ps[u + 1], &comps, arch));
        assert(entry_views(out@) =~= seq![false].map_values(mk));
    } else if crate::text::same_text(tag, "deb-src") {
        out.push(make_entry(true, ps[u], ps[u + 1], &comps, arch));
        assert(entry_views(out@) =~= seq![true].map_values(mk));
    } else if crate::text::same_text(tag, "debs") {
        out.push(make_entry(false, ps[u], ps[u + 1], &comps, arch));
        out.push(make_entry(true, ps[u], ps[u + 1], &comps, arch));
        assert(entry_views(out@) =~= seq![false, true].map_values(mk));
    } else {
        return Err(ParseError::UnknownEnumToken { key: "type".to_owned(), token: tag.to_owned() });
    }
    Ok(out)
}

proof fn lemma_list_err(ls: Seq<Seq<char>>, k: int)
    requires
        0 < k <= ls.len(),
        list_entries(ls.subrange(0, k)) is Err,
    ensures
        list_entries(ls) == list_entries(ls.subrange(0, k)),
    decreases ls.len() - k,
{
    if k < ls.len() {
        let pre = ls.subrange(0, k + 1);
        assert(pre.drop_last() =~= ls.subrange(0, k));
        lemma_list_err(ls, k + 1);
    } else {
        assert(ls.subrange(0, k) =~= ls);
    }
}

/// The entries of a whole `sources.list` text, in order; the first bad line
/// fails the whole text.
pub fn read(from: &str) -> (r: Result<Vec<Entry>, ParseError>)
    ensures
        match list_entries(text_lines(from@)) {
            Ok(es) => r is Ok && entry_views(r->Ok_0@) == es,
            Err((f, _)) => r is Err && reports(r->Err_0, f),
        },
{
    let lines = lines_of(from);
    let ghost ls = views(lines@);
    let mut out: Vec<Entry> = Vec::new();
    let mut i: usize = 0;
    assert(ls.subrange(0, 0) =~= Seq::<Seq<char>>::empty());
    assert(entry_views(out@) =~= Seq::<EntryView>::empty());
    while i < lines.len()
        invariant
            ls == views(lines@),
            ls == text_lines(from@),
            i <= lines@.len(),
            list_entries(ls.subrange(0, i as int)) == Ok::<Seq<EntryView>, (LineFault, Seq<char>)>(
                entry_views(out@),
            ),
        decreases lines@.len() - i,
    {
        let ghost pre = ls.subrange(0, i + 1);
        assert(pre.drop_last() =~= ls.subrange(0, i as int));
        assert(pre.last() == lines@[i as int]@);
        match read_line(lines[i].as_str()) {
            Ok(es) => {
                let mut es = es;
                let ghost before = out@;
                let ghost ev = entry_views(es@);
                out.append(&mut es);
                assert(entry_views(out@) =~= entry_views(before) + ev);
            },
            Err(e) => {
                proof {
                    lemma_list_err(ls, i as int + 1);
                }
                return Err(e);
            },
        }
        i = i + 1;
    }
    assert(ls.subrange(0, ls.len() as int) =~= ls);
    Ok(out)
}

} // verus!
