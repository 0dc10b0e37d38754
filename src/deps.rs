//! The dependency-expression grammar: a field holds comma-separated terms,
//! a term `|`-separated alternatives, and an alternative reads
//! `name [:arch] [(op version)] [[arch !arch ...]] <stage>...`.
use vstd::prelude::*;

use crate::error::ParseError;
use crate::rfc822::{join_space, joined};
use crate::text::{
    char_is_ws, find_char, find_char_from, is_ws, skip_ws, split_char, split_on, split_words, str_views, trim, trim_str,
    trimmed_nonempty, views, words,
};
use crate::types::{arch_of, Arch, Constraint, ConstraintOperator};

verus! {

/// One architecture filter: an architecture, possibly negated with `!`.
#[derive(Copy, Clone, Debug, PartialEq, Eq, Structural)]
pub struct ArchFilter {
    pub negated: bool,
    pub arch: Arch,
}

/// One alternative of a dependency.
#[derive(Clone, Debug, PartialEq, Eq)]
pub struct SingleDependency {
    pub package: String,
    pub arch: Option<Arch>,
    /// At most one constraint is written in practice.
    pub version_constraints: Vec<Constraint>,
    pub arch_filter: Vec<ArchFilter>,
    pub stage_filter: Vec<String>,
}

/// A dependency: satisfied when any one of its alternatives is.
#[derive(Clone, Debug, PartialEq, Eq)]
pub struct Dependency {
    pub alternate: Vec<SingleDependency>,
}

/// An alternative as plain values.
pub struct AltView {
    pub package: Seq<char>,
    pub arch: Option<Arch>,
    pub constraints: Seq<(ConstraintOperator, Seq<char>)>,
    pub arch_filter: Seq<ArchFilter>,
    pub stage_filter: Seq<Seq<char>>,
}

pub open spec fn constraint_views(cs: Seq<Constraint>) -> Seq<(ConstraintOperator, Seq<char>)> {
    cs.map_values(|c: Constraint| (c.operator, c.version@))
}

pub open spec fn alt_view(d: SingleDependency) -> AltView {
    AltView {
        package: d.package@,
        arch: d.arch,
        constraints: constraint_views(d.version_constraints@),
        arch_filter: d.arch_filter@,
        stage_filter: views(d.stage_filter@),
    }
}

pub open spec fn dep_view(d: Dependency) -> Seq<AltView> {
    d.alternate@.map_values(|a: SingleDependency| alt_view(a))
}

pub open spec fn dep_views(ds: Seq<Dependency>) -> Seq<Seq<AltView>> {
    ds.map_values(|d: Dependency| dep_view(d))
}

/// A character that may stand in a package name or an architecture token.
pub open spec fn is_name_char(c: char) -> bool {
    !is_ws(c) && c != ':' && c != '(' && c != ')' && c != '[' && c != ']' && c != '<' && c != '>'
        && c != '!' && c != ',' && c != '|'
}

/// A character of a relation operator.
pub open spec fn is_op_char(c: char) -> bool {
    c == '<' || c == '=' || c == '>'
}

/// End of the run of name characters that starts at `i`.
pub open spec fn name_end(s: Seq<char>, i: int) -> int
    decreases s.len() - i,
{
    if 0 <= i < s.len() && is_name_char(s[i]) {
        name_end(s, i + 1)
    } else {
        i
    }
}

/// End of the run of operator characters that starts at `i`.
pub open spec fn op_end(s: Seq<char>, i: int) -> int
    decreases s.len() - i,
{
    if 0 <= i < s.len() && is_op_char(s[i]) {
        op_end(s, i + 1)
    } else {
        i
    }
}

/// The operator that a token names, if any.
pub open spec fn op_of(s: Seq<char>) -> Option<ConstraintOperator> {
    if s == "<<"@ {
        Some(ConstraintOperator::Lt)
    } else if s == "<="@ {
        Some(ConstraintOperator::Le)
    } else if s == "="@ {
        Some(ConstraintOperator::Eq)
    } else if s == ">="@ {
        Some(ConstraintOperator::Ge)
    } else if s == ">>"@ {
        Some(ConstraintOperator::Gt)
    } else {
        None
    }
}

/// The inside of a `( ... )`: an operator, then a non-empty version.
pub open spec fn constraint_of(inner: Seq<char>) -> Option<(ConstraintOperator, Seq<char>)> {
    let u = trim(inner);
    let o = op_end(u, 0);
    match op_of(u.subrange(0, o)) {
        None => None,
        Some(op) => {
            let v = trim(u.subrange(o, u.len() as int));
            if v.len() == 0 {
                None
            } else {
                Some((op, v))
            }
        },
    }
}

/// One word inside `[ ... ]`: an architecture, possibly after a `!`.
pub open spec fn filter_of(w: Seq<char>) -> Option<ArchFilter> {
    if w.len() > 0 && w[0] == '!' {
        match arch_of(w.subrange(1, w.len() as int)) {
            Some(a) => Some(ArchFilter { negated: true, arch: a }),
            None => None,
        }
    } else {
        match arch_of(w) {
            Some(a) => Some(ArchFilter { negated: false, arch: a }),
            None => None,
        }
    }
}

pub open spec fn filters_of(ws: Seq<Seq<char>>) -> Option<Seq<ArchFilter>>
    decreases ws.len(),
{
    if ws.len() == 0 {
        Some(Seq::empty())
    } else {
        match (filters_of(ws.drop_last()), filter_of(ws.last())) {
            (Some(fs), Some(f)) => Some(fs.push(f)),
            _ => None,
        }
    }
}

/// One `<stage>` group, its closing `>` cut off: the trimmed text after `<`.
pub open spec fn stage_of(p: Seq<char>) -> Option<Seq<char>> {
    let t = trim(p);
    if t.len() > 0 && t[0] == '<' {
        Some(trim(t.subrange(1, t.len() as int)))
    } else {
        None
    }
}

pub open spec fn stages_of(ps: Seq<Seq<char>>) -> Option<Seq<Seq<char>>>
    decreases ps.len(),
{
    if ps.len() == 0 {
        Some(Seq::empty())
    } else {
        match (stages_of(ps.drop_last()), stage_of(ps.last())) {
            (Some(ss), Some(x)) => Some(ss.push(x)),
            _ => None,
        }
    }
}

/// The optional `:arch` qualifier at `i`, and where the text goes on.
pub open spec fn arch_part(t: Seq<char>, i: int) -> Option<(Option<Arch>, int)> {
    if i < t.len() && t[i] == ':' {
        let a0 = skip_ws(t, i + 1);
        let a1 = name_end(t, a0);
        match arch_of(t.subrange(a0, a1)) {
            Some(a) => Some((Some(a), skip_ws(t, a1))),
            None => None,
        }
    } else {
        Some((None, i))
    }
}

/// The optional `(op version)` at `i`, and where the text goes on.
pub open spec fn constraint_part(t: Seq<char>, i: int) -> Option<(Seq<(ConstraintOperator, Seq<char>)>, int)> {
    if i < t.len() && t[i] == '(' {
        let close = find_char(t, ')', i + 1);
        if close >= t.len() {
            None
        } else {
            match constraint_of(t.subrange(i + 1, close)) {
                Some(c) => Some((seq![c], skip_ws(t, close + 1))),
                None => None,
            }
        }
    } else {
        Some((Seq::empty(), i))
    }
}

/// The optional `[arch !arch ...]` at `i`, and where the text goes on.
pub open spec fn filter_part(t: Seq<char>, i: int) -> Option<(Seq<ArchFilter>, int)> {
    if i < t.len() && t[i] == '[' {
        let close = find_char(t, ']', i + 1);
        if close >= t.len() {
            None
        } else {
            let ws = words(t.subrange(i + 1, close));
            if ws.len() == 0 {
                None
            } else {
                match filters_of(ws) {
                    Some(fs) => Some((fs, skip_ws(t, close + 1))),
                    None => None,
                }
            }
        }
    } else {
        Some((Seq::empty(), i))
    }
}

/// The `<stage>` groups that make up the rest of an alternative.
pub open spec fn stage_part(rest: Seq<char>) -> Option<Seq<Seq<char>>> {
    let ps = split_on(rest, '>');
    if ps.len() == 0 || trim(ps.last()).len() != 0 {
        None
    } else {
        stages_of(ps.drop_last())
    }
}

/// One trimmed alternative, parsed.
pub open spec fn parse_alt(t: Seq<char>) -> Option<AltView> {
    let n0 = name_end(t, 0);
    if n0 <= 0 {
        None
    } else {
        match arch_part(t, skip_ws(t, n0)) {
            None => None,
            Some((arch, i2)) => match constraint_part(t, i2) {
                None => None,
                Some((cs, i3)) => match filter_part(t, i3) {
                    None => None,
                    Some((fs, i4)) => match stage_part(t.subrange(i4, t.len() as int)) {
                        None => None,
                        Some(ss) => Some(
                            AltView {
                                package: t.subrange(0, n0),
                                arch,
                                constraints: cs,
                                arch_filter: fs,
                                stage_filter: ss,
                            },
                        ),
                    },
                },
            },
        }
    }
}

/// The `|`-separated alternatives of a term, each trimmed and parsed.
pub open spec fn alts_of(ps: Seq<Seq<char>>) -> Option<Seq<AltView>>
    decreases ps.len(),
{
    if ps.len() == 0 {
        Some(Seq::empty())
    } else {
        match (alts_of(ps.drop_last()), parse_alt(trim(ps.last()))) {
            (Some(xs), Some(x)) => Some(xs.push(x)),
            _ => None,
        }
    }
}

/// The terms of a field, parsed; the first term that fails is the error.
pub open spec fn terms_of(ts: Seq<Seq<char>>) -> Result<Seq<Seq<AltView>>, Seq<char>>
    decreases ts.len(),
{
    if ts.len() == 0 {
        Ok(Seq::empty())
    } else {
        match terms_of(ts.drop_last()) {
            Err(e) => Err(e),
            Ok(ds) => match alts_of(split_on(ts.last(), '|')) {
                Some(alts) => Ok(ds.push(alts)),
                None => Err(ts.last()),
            },
        }
    }
}

/// A dependency field's text, parsed: one dependency per non-empty
/// comma-separated term, or the first term that breaks the grammar.
pub open spec fn parse_deps(s: Seq<char>) -> Result<Seq<Seq<AltView>>, Seq<char>> {
    terms_of(trimmed_nonempty(split_on(s, ',')))
}

} // verus!

verus! {

fn skip_ws_from(s: &str, i: usize) -> (r: usize)
    requires
        i <= s@.len(),
    ensures
        r == skip_ws(s@, i as int),
        i <= r <= s@.len(),
{
    let n = s.unicode_len();
    let mut j = i;
    while j < n && char_is_ws(s.get_char(j))
        invariant
            n == s@.len(),
            i <= j <= n,
            skip_ws(s@, j as int) == skip_ws(s@, i as int),
        decreases n - j,
    {
        j = j + 1;
    }
    j
}

fn char_is_name(c: char) -> (r: bool)
    ensures
        r == is_name_char(c),
{
    !char_is_ws(c) && c != ':' && c != '(' && c != ')' && c != '[' && c != ']' && c != '<' && c
        != '>' && c != '!' && c != ',' && c != '|'
}

fn name_end_from(s: &str, i: usize) -> (r: usize)
    requires
        i <= s@.len(),
    ensures
        r == name_end(s@, i as int),
        i <= r <= s@.len(),
{
    let n = s.unicode_len();
    let mut j = i;
    while j < n && char_is_name(s.get_char(j))
        invariant
            n == s@.len(),
            i <= j <= n,
            name_end(s@, j as int) == name_end(s@, i as int),
        decreases n - j,
    {
        j = j + 1;
    }
    j
}

fn char_is_op(c: char) -> (r: bool)
    ensures
        r == is_op_char(c),
{
    c == '<' || c == '=' || c == '>'
}

fn op_end_from(s: &str, i: usize) -> (r: usize)
    requires
        i <= s@.len(),
    ensures
        r == op_end(s@, i as int),
        i <= r <= s@.len(),
{
    let n = s.unicode_len();
    let mut j = i;
    while j < n && char_is_op(s.get_char(j))
        invariant
            n == s@.len(),
            i <= j <= n,
            op_end(s@, j as int) == op_end(s@, i as int),
        decreases n - j,
    {
        j = j + 1;
    }
    j
}

/// The operator that `s` names, if any.
fn operator_of(s: &str) -> (r: Option<ConstraintOperator>)
    ensures
        r == op_of(s@),
{
    if crate::text::same_text(s, "<<") {
        Some(ConstraintOperator::Lt)
    } else if crate::text::same_text(s, "<=") {
        Some(ConstraintOperator::Le)
    } else if crate::text::same_text(s, "=") {
        Some(ConstraintOperator::Eq)
    } else if crate::text::same_text(s, ">=") {
        Some(ConstraintOperator::Ge)
    } else if crate::text::same_text(s, ">>") {
        Some(ConstraintOperator::Gt)
    } else {
        None
    }
}

fn arch_token(s: &str) -> (r: Option<Arch>)
    ensures
        r == arch_of(s@),
{
    match Arch::from_str(s) {
        Ok(a) => Some(a),
        Err(_) => None,
    }
}

/// The inside of a `( ... )`, parsed.
fn parse_constraint(inner: &str) -> (r: Option<Constraint>)
    ensures
        match constraint_of(inner@) {
            None => r is None,
            Some(c) => r is Some && (r->Some_0.operator, r->Some_0.version@) == c,
        },
{
    let u = trim_str(inner);
    let o = op_end_from(u, 0);
    match operator_of(u.substring_char(0, o)) {
        None => None,
        Some(op) => {
            let v = trim_str(u.substring_char(o, u.unicode_len()));
            if v.unicode_len() == 0 {
                None
            } else {
                Some(Constraint::new(op, v))
            }
        },
    }
}

/// One word inside `[ ... ]`, parsed.
fn parse_filter(w: &str) -> (r: Option<ArchFilter>)
    ensures
        r == filter_of(w@),
{
    let n = w.unicode_len();
    if n > 0 && w.get_char(0) == '!' {
        match arch_token(w.substring_char(1, n)) {
            Some(a) => Some(ArchFilter { negated: true, arch: a }),
            None => None,
        }
    } else {
        match arch_token(w) {
            Some(a) => Some(ArchFilter { negated: false, arch: a }),
            None => None,
        }
    }
}

fn parse_filters(ws: &Vec<&str>) -> (r: Option<Vec<ArchFilter>>)
    ensures
        match filters_of(str_views(ws@)) {
            None => r is None,
            Some(fs) => r is Some && r->Some_0@ == fs,
        },
{
    let ghost wv = str_views(ws@);
    let mut out: Vec<ArchFilter> = Vec::new();
    let mut i: usize = 0;
    while i < ws.len()
        invariant
            wv == str_views(ws@),
            i <= ws@.len(),
            filters_of(wv.subrange(0, i as int)) == Some(out@),
        decreases ws@.len() - i,
    {
        let ghost pre = wv.subrange(0, i + 1);
        assert(pre.drop_last() =~= wv.subrange(0, i as int));
        match parse_filter(ws[i]) {
            None => {
                proof {
                    lemma_filters_none(wv, i as int + 1);
                }
                return None;
            },
            Some(f) => {
                out.push(f);
            },
        }
        i = i + 1;
    }
    assert(wv.subrange(0, wv.len() as int) =~= wv);
    Some(out)
}

/// Once a prefix fails, every longer prefix fails.
proof fn lemma_filters_none(wv: Seq<Seq<char>>, k: int)
    requires
        0 < k <= wv.len(),
        filters_of(wv.subrange(0, k)) is None,
    ensures
        filters_of(wv) is None,
    decreases wv.len() - k,
{
    if k < wv.len() {
        let pre = wv.subrange(0, k + 1);
        assert(pre.drop_last() =~= wv.subrange(0, k));
        lemma_filters_none(wv, k + 1);
    } else {
        assert(wv.subrange(0, k) =~= wv);
    }
}

proof fn lemma_stages_none(ps: Seq<Seq<char>>, k: int)
    requires
        0 < k <= ps.len(),
        stages_of(ps.subrange(0, k)) is None,
    ensures
        stages_of(ps) is None,
    decreases ps.len() - k,
{
    if k < ps.len() {
        let pre = ps.subrange(0, k + 1);
        assert(pre.drop_last() =~= ps.subrange(0, k));
        lemma_stages_none(ps, k + 1);
    } else {
        assert(ps.subrange(0, k) =~= ps);
    }
}

/// The `<stage>` groups that make up `rest`.
fn parse_stages(rest: &str) -> (r: Option<Vec<String>>)
    ensures
        match stage_part(rest@) {
            None => r is None,
            Some(ss) => r is Some && views(r->Some_0@) == ss,
        },
{
    let ps = split_char(rest, '>');
    let ghost pv = str_views(ps@);
    let n = ps.len();
    if n == 0 || trim_str(ps[n - 1]).unicode_len() != 0 {
        return None;
    }
    let ghost body = pv.drop_last();
    let mut out: Vec<String> = Vec::new();
    let mut i: usize = 0;
    while i < n - 1
        invariant
            pv == str_views(ps@),
            n == ps@.len(),
            n > 0,
            body == pv.drop_last(),
            pv == split_on(rest@, '>'),
            trim(pv.last()).len() == 0,
            i <= n - 1,
            stages_of(body.subrange(0, i as int)) == Some(views(out@)),
        decreases n - 1 - i,
    {
        let ghost pre = body.subrange(0, i + 1);
        assert(pre.drop_last() =~= body.subrange(0, i as int));
        assert(pre.last() == ps@[i as int]@);
        let t = trim_str(ps[i]);
        let m = t.unicode_len();
        if m > 0 && t.get_char(0) == '<' {
            let x = trim_str(t.substring_char(1, m));
            let ghost before = out@;
            out.push(x.to_owned());
            assert(views(out@) =~= views(before).push(x@));
        } else {
            assert(stage_of(pre.last()) is None);
            assert(stages_of(pre) is None);
            proof {
                lemma_stages_none(body, i as int + 1);
            }
            return None;
        }
        i = i + 1;
    }
    assert(body.subrange(0, body.len() as int) =~= body);
    Some(out)
}

pub open spec fn opt_alt(r: Option<SingleDependency>) -> Option<AltView> {
    match r {
        Some(d) => Some(alt_view(d)),
        None => None,
    }
}

/// One trimmed alternative, parsed.
pub fn parse_single(t: &str) -> (r: Option<SingleDependency>)
    ensures
        opt_alt(r) == parse_alt(t@),
{
    let n = t.unicode_len();
    let n0 = name_end_from(t, 0);
    if n0 == 0 {
        return None;
    }
    let i1 = skip_ws_from(t, n0);
    let mut arch: Option<Arch> = None;
    let mut i2 = i1;
    if i1 < n && t.get_char(i1) == ':' {
        let a0 = skip_ws_from(t, i1 + 1);
        let a1 = name_end_from(t, a0);
        match arch_token(t.substring_char(a0, a1)) {
            Some(a) => {
                arch = Some(a);
                i2 = skip_ws_from(t, a1);
            },
            None => {
                return None;
            },
        }
    }
    assert(arch_part(t@, i1 as int) == Some((arch, i2 as int)));
    let mut cons: Vec<Constraint> = Vec::new();
    let mut i3 = i2;
    if i2 < n && t.get_char(i2) == '(' {
        let close = find_char_from(t, ')', i2 + 1);
        if close >= n {
            return None;
        }
        match parse_constraint(t.substring_char(i2 + 1, close)) {
            Some(c) => {
                cons.push(c);
                i3 = skip_ws_from(t, close + 1);
            },
            None => {
                return None;
            },
        }
    }
    assert(constraint_part(t@, i2 as int) == Some((constraint_views(cons@), i3 as int))) by {
        if i2 < n && t@[i2 as int] == '(' {
            assert(constraint_views(cons@) =~= seq![(cons@[0].operator, cons@[0].version@)]);
        } else {
            assert(constraint_views(cons@) =~= Seq::empty());
        }
    }
    let mut filters: Vec<ArchFilter> = Vec::new();
    let mut i4 = i3;
    if i3 < n && t.get_char(i3) == '[' {
        let close = find_char_from(t, ']', i3 + 1);
        if close >= n {
            return None;
        }
        let ws = split_words(t.substring_char(i3 + 1, close));
        if ws.len() == 0 {
            return None;
        }
        match parse_filters(&ws) {
            Some(fs) => {
                filters = fs;
                i4 = skip_ws_from(t, close + 1);
            },
            None => {
                return None;
            },
        }
    }
    assert(filter_part(t@, i3 as int) == Some((filters@, i4 as int))) by {
        if !(i3 < n && t@[i3 as int] == '[') {
            assert(filters@ =~= Seq::<ArchFilter>::empty());
        }
    }
    let stages = match parse_stages(t.substring_char(i4, n)) {
        Some(ss) => ss,
        None => {
            return None;
        },
    };
    let d = SingleDependency {
        package: t.substring_char(0, n0).to_owned(),
        arch,
        version_constraints: cons,
        arch_filter: filters,
        stage_filter: stages,
    };
    assert(d.package@ == t@.subrange(0, n0 as int));
    Some(d)
}

} // verus!

verus! {

proof fn lemma_alts_none(ps: Seq<Seq<char>>, k: int)
    requires
        0 < k <= ps.len(),
        alts_of(ps.subrange(0, k)) is None,
    ensures
        alts_of(ps) is None,
    decreases ps.len() - k,
{
    if k < ps.len() {
        let pre = ps.subrange(0, k + 1);
        assert(pre.drop_last() =~= ps.subrange(0, k));
        lemma_alts_none(ps, k + 1);
    } else {
        assert(ps.subrange(0, k) =~= ps);
    }
}

/// The alternatives of one term, parsed.
fn parse_term(term: &str) -> (r: Option<Dependency>)
    ensures
        match alts_of(split_on(term@, '|')) {
            None => r is None,
            Some(xs) => r is Some && dep_view(r->Some_0) == xs,
        },
{
    let ps = split_char(term, '|');
    let ghost pv = str_views(ps@);
    let mut out: Vec<SingleDependency> = Vec::new();
    let mut i: usize = 0;
    while i < ps.len()
        invariant
            pv == str_views(ps@),
            pv == split_on(term@, '|'),
            i <= ps@.len(),
            alts_of(pv.subrange(0, i as int)) == Some(
                out@.map_values(|a: SingleDependency| alt_view(a)),
            ),
        decreases ps@.len() - i,
    {
        let ghost pre = pv.subrange(0, i + 1);
        assert(pre.drop_last() =~= pv.subrange(0, i as int));
        assert(pre.last() == ps@[i as int]@);
        match parse_single(trim_str(ps[i])) {
            Some(d) => {
                let ghost before = out@;
                out.push(d);
                assert(out@.map_values(|a: SingleDependency| alt_view(a)) =~= before.map_values(
                    |a: SingleDependency| alt_view(a),
                ).push(alt_view(d)));
            },
            None => {
                proof {
                    lemma_alts_none(pv, i as int + 1);
                }
                return None;
            },
        }
        i = i + 1;
    }
    assert(pv.subrange(0, pv.len() as int) =~= pv);
    Some(Dependency { alternate: out })
}

/// The error a dependency field reports: the term that broke the grammar.
pub open spec fn deps_matches(r: Result<Vec<Dependency>, ParseError>, s: Result<Seq<Seq<AltView>>, Seq<char>>) -> bool {
    match s {
        Ok(ds) => match r {
            Ok(v) => dep_views(v@) == ds,
            Err(_) => false,
        },
        Err(t) => match r {
            Err(ParseError::DependencyGrammar { text, .. }) => text@ == t,
            _ => false,
        },
    }
}

proof fn lemma_terms_err(ts: Seq<Seq<char>>, k: int, t: Seq<char>)
    requires
        0 < k <= ts.len(),
        terms_of(ts.subrange(0, k)) == Err::<Seq<Seq<AltView>>, Seq<char>>(t),
    ensures
        terms_of(ts) == Err::<Seq<Seq<AltView>>, Seq<char>>(t),
    decreases ts.len() - k,
{
    if k < ts.len() {
        let pre = ts.subrange(0, k + 1);
        assert(pre.drop_last() =~= ts.subrange(0, k));
        lemma_terms_err(ts, k + 1, t);
    } else {
        assert(ts.subrange(0, k) =~= ts);
    }
}

/// A dependency field's text, parsed: all its dependencies, or an error
/// carrying the first term that breaks the grammar. Nothing is returned
/// from a field that fails.
pub fn read_deps(s: &str) -> (r: Result<Vec<Dependency>, ParseError>)
    ensures
        deps_matches(r, parse_deps(s@)),
{
    let pieces = split_char(s, ',');
    let ghost tv = trimmed_nonempty(str_views(pieces@));
    let mut terms: Vec<&str> = Vec::new();
    let mut k: usize = 0;
    while k < pieces.len()
        invariant
            k <= pieces@.len(),
            str_views(terms@) == trimmed_nonempty(str_views(pieces@).subrange(0, k as int)),
        decreases pieces@.len() - k,
    {
        let ghost pre = str_views(pieces@).subrange(0, k + 1);
        assert(pre.drop_last() =~= str_views(pieces@).subrange(0, k as int));
        let t = trim_str(pieces[k]);
        if t.unicode_len() > 0 {
            let ghost before = terms@;
            terms.push(t);
            assert(str_views(terms@) =~= str_views(before).push(t@));
        }
        k = k + 1;
    }
    assert(str_views(pieces@).subrange(0, pieces@.len() as int) =~= str_views(pieces@));
    let ghost tsv = str_views(terms@);
    let mut out: Vec<Dependency> = Vec::new();
    let mut i: usize = 0;
    assert(tsv.subrange(0, 0) =~= Seq::<Seq<char>>::empty());
    assert(dep_views(out@) =~= Seq::<Seq<AltView>>::empty());
    while i < terms.len()
        invariant
            tsv == str_views(terms@),
            tsv == parse_deps_terms(s@),
            i <= terms@.len(),
            terms_of(tsv.subrange(0, i as int)) == Ok::<Seq<Seq<AltView>>, Seq<char>>(dep_views(out@)),
        decreases terms@.len() - i,
    {
        let ghost pre = tsv.subrange(0, i + 1);
        assert(pre.drop_last() =~= tsv.subrange(0, i as int));
        assert(pre.last() == terms@[i as int]@);
        match parse_term(terms[i]) {
            Some(d) => {
                let ghost before = out@;
                out.push(d);
                assert(dep_views(out@) =~= dep_views(before).push(dep_view(d)));
            },
            None => {
                let text = terms[i].to_owned();
                proof {
                    lemma_terms_err(tsv, i as int + 1, terms@[i as int]@);
                }
                return Err(ParseError::DependencyGrammar { key: String::new(), text });
            },
        }
        i = i + 1;
    }
    assert(tsv.subrange(0, tsv.len() as int) =~= tsv);
    Ok(out)
}

/// The terms of a dependency field's text.
pub open spec fn parse_deps_terms(s: Seq<char>) -> Seq<Seq<char>> {
    trimmed_nonempty(split_on(s, ','))
}

/// The dependencies written over the value-lines of one field, which are
/// joined with spaces first.
pub fn parse_dep(lines: &Vec<String>) -> (r: Result<Vec<Dependency>, ParseError>)
    ensures
        deps_matches(r, parse_deps(join_space(views(lines@)))),
{
    let text = joined(lines);
    read_deps(text.as_str())
}

} // verus!
