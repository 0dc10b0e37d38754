//! Parsers for the scalar field values: decimal sizes and identities.
use vstd::prelude::*;

use crate::error::ParseError;
use crate::text::{find_char, find_char_from, split_char, split_on, str_views, trim, trim_str, trimmed_nonempty};

verus! {

pub open spec fn is_digit(c: char) -> bool {
    '0' <= c <= '9'
}

pub open spec fn all_digits(s: Seq<char>) -> bool {
    forall|i: int| 0 <= i < s.len() ==> is_digit(#[trigger] s[i])
}

/// The value of a string of decimal digits.
pub open spec fn decimal(s: Seq<char>) -> int
    decreases s.len(),
{
    if s.len() == 0 {
        0
    } else {
        10 * decimal(s.drop_last()) + (s.last() as int - '0' as int)
    }
}

/// The value of a non-empty run of decimal digits, if it fits in `u64`.
pub open spec fn digits_value(s: Seq<char>) -> Option<u64> {
    if s.len() > 0 && all_digits(s) && decimal(s) <= u64::MAX {
        Some(decimal(s) as u64)
    } else {
        None
    }
}

/// The size that `s` writes: decimal digits after an optional `+`, as
/// `str::parse::<u64>` reads them, if the number fits in `u64`.
pub open spec fn size_of(s: Seq<char>) -> Option<u64> {
    if s.len() > 0 && s[0] == '+' {
        digits_value(s.subrange(1, s.len() as int))
    } else {
        digits_value(s)
    }
}

proof fn lemma_decimal_grows(s: Seq<char>, k: int)
    requires
        0 <= k <= s.len(),
        all_digits(s),
    ensures
        0 <= decimal(s.subrange(0, k)) <= decimal(s),
    decreases s.len() - k,
{
    if k < s.len() {
        lemma_decimal_grows(s, k + 1);
        let pre = s.subrange(0, k + 1);
        assert(pre.drop_last() =~= s.subrange(0, k));
        assert(is_digit(pre.last()));
    } else {
        assert(s.subrange(0, k) =~= s);
        lemma_decimal_nonneg(s);
    }
}

proof fn lemma_decimal_nonneg(s: Seq<char>)
    requires
        all_digits(s),
    ensures
        decimal(s) >= 0,
    decreases s.len(),
{
    if s.len() > 0 {
        assert(all_digits(s.drop_last()));
        lemma_decimal_nonneg(s.drop_last());
        assert(is_digit(s.last()));
    }
}

/// A decimal size, optionally after `+`; anything else, or one too large
/// for `u64`, is a type error.
pub fn parse_size(s: &str) -> (r: Result<u64, ParseError>)
    ensures
        match size_of(s@) {
            Some(n) => r == Ok::<u64, ParseError>(n),
            None => r is Err && r->Err_0 is TypeError && r->Err_0->TypeError_text@ == s@,
        },
{
    let n = s.unicode_len();
    let digits = if n > 0 && s.get_char(0) == '+' {
        s.substring_char(1, n)
    } else {
        s
    };
    match parse_digits(digits) {
        Some(v) => Ok(v),
        None => Err(ParseError::TypeError { key: String::new(), text: s.to_owned() }),
    }
}

/// The value of a non-empty run of decimal digits that fits in `u64`.
fn parse_digits(s: &str) -> (r: Option<u64>)
    ensures
        r == digits_value(s@),
{
    let n = s.unicode_len();
    if n == 0 {
        return None;
    }
    let mut acc: u64 = 0;
    let mut i: usize = 0;
    while i < n
        invariant
            n == s@.len(),
            i <= n,
            all_digits(s@.subrange(0, i as int)),
            acc as int == decimal(s@.subrange(0, i as int)),
        decreases n - i,
    {
        let c = s.get_char(i);
        let pre = Ghost(s@.subrange(0, i + 1));
        assert(pre@.drop_last() =~= s@.subrange(0, i as int));
        if !('0' <= c && c <= '9') {
            assert(!all_digits(s@)) by {
                assert(!is_digit(s@[i as int]));
            }
            return None;
        }
        let d = (c as u32 - '0' as u32) as u64;
        if acc > (u64::MAX - d) / 10 {
            proof {
                assert(all_digits(pre@));
                assert(decimal(pre@) > u64::MAX) by (nonlinear_arith)
                    requires
                        decimal(pre@) == 10 * acc + d,
                        acc > (u64::MAX - d) / 10,
                        d <= 9,
                ;
                if all_digits(s@) {
                    lemma_decimal_grows(s@, i + 1);
                }
            }
            return None;
        }
        assert(10 * acc + d <= u64::MAX) by (nonlinear_arith)
            requires
                acc <= (u64::MAX - d) / 10,
                d <= 9,
        ;
        acc = acc * 10 + d;
        i = i + 1;
    }
    assert(s@.subrange(0, n as int) =~= s@);
    Some(acc)
}

/// A name and an e-mail address.
#[derive(Clone, Debug, PartialEq, Eq)]
pub struct Identity {
    pub name: String,
    pub email: String,
}

pub open spec fn identity_view(i: Identity) -> (Seq<char>, Seq<char>) {
    (i.name@, i.email@)
}

pub open spec fn identity_views(v: Seq<Identity>) -> Seq<(Seq<char>, Seq<char>)> {
    v.map_values(|i: Identity| identity_view(i))
}

/// One `Name <address>` item: the trimmed name before `<`, the trimmed
/// address up to the first `>`, and nothing after it.
pub open spec fn identity_of(t: Seq<char>) -> Option<(Seq<char>, Seq<char>)> {
    let lt = find_char(t, '<', 0);
    let gt = find_char(t, '>', 0);
    if lt < gt && gt < t.len() && trim(t.subrange(gt + 1, t.len() as int)).len() == 0 {
        Some((trim(t.subrange(0, lt)), trim(t.subrange(lt + 1, gt))))
    } else {
        None
    }
}

pub open spec fn identities_of(ts: Seq<Seq<char>>) -> Option<Seq<(Seq<char>, Seq<char>)>>
    decreases ts.len(),
{
    if ts.len() == 0 {
        Some(Seq::empty())
    } else {
        match (identities_of(ts.drop_last()), identity_of(ts.last())) {
            (Some(xs), Some(x)) => Some(xs.push(x)),
            _ => None,
        }
    }
}

/// The identities of a comma-separated list such as a `Maintainer` field.
pub open spec fn read_identities(s: Seq<char>) -> Option<Seq<(Seq<char>, Seq<char>)>> {
    identities_of(trimmed_nonempty(split_on(s, ',')))
}

proof fn lemma_identities_none(ts: Seq<Seq<char>>, k: int)
    requires
        0 < k <= ts.len(),
        identities_of(ts.subrange(0, k)) is None,
    ensures
        identities_of(ts) is None,
    decreases ts.len() - k,
{
    if k < ts.len() {
        let pre = ts.subrange(0, k + 1);
        assert(pre.drop_last() =~= ts.subrange(0, k));
        lemma_identities_none(ts, k + 1);
    } else {
        assert(ts.subrange(0, k) =~= ts);
    }
}

fn parse_identity(t: &str) -> (r: Option<Identity>)
    ensures
        match identity_of(t@) {
            None => r is None,
            Some(x) => r is Some && identity_view(r->Some_0) == x,
        },
{
    let n = t.unicode_len();
    let lt = find_char_from(t, '<', 0);
    let gt = find_char_from(t, '>', 0);
    if lt < gt && gt < n && trim_str(t.substring_char(gt + 1, n)).unicode_len() == 0 {
        let name = trim_str(t.substring_char(0, lt)).to_owned();
        let email = trim_str(t.substring_char(lt + 1, gt)).to_owned();
        Some(Identity { name, email })
    } else {
        None
    }
}

/// The identities of a comma-separated list, `None` if an item is not of
/// the form `Name <address>`.
pub fn read(s: &str) -> (r: Option<Vec<Identity>>)
    ensures
        match read_identities(s@) {
            None => r is None,
            Some(xs) => r is Some && identity_views(r->Some_0@) == xs,
        },
{
    let pieces = split_char(s, ',');
    let ghost pv = str_views(pieces@);
    let mut items: Vec<&str> = Vec::new();
    let mut k: usize = 0;
    while k < pieces.len()
        invariant
            pv == str_views(pieces@),
            k <= pieces@.len(),
            str_views(items@) == trimmed_nonempty(pv.subrange(0, k as int)),
        decreases pieces@.len() - k,
    {
        let ghost pre = pv.subrange(0, k + 1);
        assert(pre.drop_last() =~= pv.subrange(0, k as int));
        let t = trim_str(pieces[k]);
        if t.unicode_len() > 0 {
            let ghost before = items@;
            items.push(t);
            assert(str_views(items@) =~= str_views(before).push(t@));
        }
        k = k + 1;
    }
    assert(pv.subrange(0, pv.len() as int) =~= pv);
    let ghost iv = str_views(items@);
    let mut out: Vec<Identity> = Vec::new();
    let mut i: usize = 0;
    assert(iv.subrange(0, 0) =~= Seq::<Seq<char>>::empty());
    assert(identity_views(out@) =~= Seq::<(Seq<char>, Seq<char>)>::empty());
    while i < items.len()
        invariant
            iv == str_views(items@),
            iv == trimmed_nonempty(split_on(s@, ',')),
            i <= items@.len(),
            identities_of(iv.subrange(0, i as int)) == Some(identity_views(out@)),
        decreases items@.len() - i,
    {
        let ghost pre = iv.subrange(0, i + 1);
        assert(pre.drop_last() =~= iv.subrange(0, i as int));
        assert(pre.last() == items@[i as int]@);
        match parse_identity(items[i]) {
            Some(x) => {
                let ghost before = out@;
                out.push(x);
                assert(identity_views(out@) =~= identity_views(before).push(identity_view(x)));
            },
            None => {
                proof {
                    lemma_identities_none(iv, i as int + 1);
                }
                return None;
            },
        }
        i = i + 1;
    }
    assert(iv.subrange(0, iv.len() as int) =~= iv);
    Some(out)
}

} // verus!
