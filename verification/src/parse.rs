//! Port specs such as `80,443,8080-8082` and durations such as `500ms`.

use std::collections::BTreeSet;
use vstd::prelude::*;

use crate::span::TimeSpan;
use crate::text::{
    all_digits, decimal_value, is_digit, lemma_decimal_push, lemma_decimal_text_value, chars_of, debug_quote, decimal_string, decimal_text, debug_text, is_white_space, is_whitespace, read_decimal,
    read_decimal_str, DecimalRead,
};

verus! {

broadcast use {vstd::std_specs::btree::group_btree_axioms, vstd::laws_cmp::group_laws_cmp};

/// Why a port spec was rejected.
#[derive(Debug, Clone, PartialEq, Eq)]
pub enum ParseError {
    /// The whole spec is empty.
    Empty,
    /// Two commas in a row, or a comma at either end.
    EmptyItem,
    /// An item holds white space; the item is given.
    Whitespace(String),
    /// A port that is not a decimal number in `0..=65535`; the text is given.
    NotAPort(String),
    /// Port 0.
    PortZero,
    /// A range whose low end is above its high end.
    InvalidRange { lo: u16, hi: u16 },
}

/// The mathematical form of a `ParseError`: texts as character sequences.
pub enum ParseFailure {
    Empty,
    EmptyItem,
    Whitespace(Seq<char>),
    NotAPort(Seq<char>),
    PortZero,
    InvalidRange { lo: u16, hi: u16 },
}

impl View for ParseError {
    type V = ParseFailure;

    open spec fn view(&self) -> ParseFailure {
        match self {
            ParseError::Empty => ParseFailure::Empty,
            ParseError::EmptyItem => ParseFailure::EmptyItem,
            ParseError::Whitespace(s) => ParseFailure::Whitespace(s@),
            ParseError::NotAPort(s) => ParseFailure::NotAPort(s@),
            ParseError::PortZero => ParseFailure::PortZero,
            ParseError::InvalidRange { lo, hi } => ParseFailure::InvalidRange { lo: *lo, hi: *hi },
        }
    }
}

/// The message for a rejected port spec, given the text that the error carries
/// as `{:?}` shows it.
pub open spec fn parse_error_text(e: ParseFailure, quoted: Seq<char>) -> Seq<char> {
    match e {
        ParseFailure::Empty => "port spec is empty"@,
        ParseFailure::EmptyItem => "empty item in port spec"@,
        ParseFailure::Whitespace(_) => "whitespace in port spec: "@ + quoted
            + " (quote the spec, no spaces)"@,
        ParseFailure::NotAPort(_) => "not a valid port: "@ + quoted,
        ParseFailure::PortZero => "port 0 cannot be scanned"@,
        ParseFailure::InvalidRange { lo, hi } => "invalid range "@ + decimal_text(lo as nat) + "-"@
            + decimal_text(hi as nat) + ": low > high"@,
    }
}

/// The text that an error carries, as `{:?}` shows it; empty for the others.
pub open spec fn quoted_payload(e: ParseFailure) -> Seq<char> {
    match e {
        ParseFailure::Whitespace(t) => debug_text(t),
        ParseFailure::NotAPort(t) => debug_text(t),
        _ => Seq::empty(),
    }
}

impl ParseError {
    /// The message for this error, given its text as `{:?}` shows it.
    pub fn describe(&self, quoted: &str) -> (r: String)
        ensures
            r@ == parse_error_text(self@, quoted@),
    {
        match self {
            ParseError::Empty => "port spec is empty".to_owned(),
            ParseError::EmptyItem => "empty item in port spec".to_owned(),
            ParseError::Whitespace(_) => {
                let mut m = "whitespace in port spec: ".to_owned();
                m.append(quoted);
                m.append(" (quote the spec, no spaces)");
                m
            },
            ParseError::NotAPort(_) => {
                let mut m = "not a valid port: ".to_owned();
                m.append(quoted);
                m
            },
            ParseError::PortZero => "port 0 cannot be scanned".to_owned(),
            ParseError::InvalidRange { lo, hi } => {
                let mut m = "invalid range ".to_owned();
                let a = decimal_string(*lo as u64);
                let b = decimal_string(*hi as u64);
                m.append(a.as_str());
                m.append("-");
                m.append(b.as_str());
                m.append(": low > high");
                m
            },
        }
    }

    /// The message for this error.
    pub fn message(&self) -> (r: String)
        ensures
            r@ == parse_error_text(self@, quoted_payload(self@)),
    {
        match self {
            ParseError::Whitespace(t) => {
                let q = debug_quote(t.as_str());
                self.describe(q.as_str())
            },
            ParseError::NotAPort(t) => {
                let q = debug_quote(t.as_str());
                self.describe(q.as_str())
            },
            _ => {
                proof {
                    reveal_strlit("");
                }
                self.describe("")
            },
        }
    }
}

/// A result whose error is seen through its view.
pub open spec fn outcome<T>(r: Result<T, ParseError>) -> Result<T, ParseFailure> {
    match r {
        Ok(v) => Ok(v),
        Err(e) => Err(e@),
    }
}

/// One port: decimal digits only, at most 65535, and not 0.
pub open spec fn port_result(s: Seq<char>) -> Result<u16, ParseFailure> {
    match read_decimal(s, 65535) {
        DecimalRead::Value(n) => if n == 0 {
            Err(ParseFailure::PortZero)
        } else {
            Ok(n as u16)
        },
        _ => Err(ParseFailure::NotAPort(s)),
    }
}

/// `k` is the position of the first `-` in `item`.
pub open spec fn is_first_dash(item: Seq<char>, k: int) -> bool {
    &&& 0 <= k < item.len()
    &&& item[k] == '-'
    &&& forall|j: int| 0 <= j < k ==> item[j] != '-'
}

/// The ports from `lo` to `hi`, both included.
pub open spec fn port_range(lo: u16, hi: u16) -> Set<u16> {
    Set::new(|p: u16| lo <= p && p <= hi)
}

/// What one comma-separated item denotes: a port, or a range `lo-hi` split at its first `-`.
pub open spec fn item_ports(item: Seq<char>) -> Result<Set<u16>, ParseFailure> {
    if item.len() == 0 {
        Err(ParseFailure::EmptyItem)
    } else if exists|k: int| 0 <= k < item.len() && is_white_space(#[trigger] item[k]) {
        Err(ParseFailure::Whitespace(item))
    } else if exists|k: int| is_first_dash(item, k) {
        let k = choose|k: int| is_first_dash(item, k);
        match port_result(item.take(k)) {
            Err(e) => Err(e),
            Ok(lo) => match port_result(item.skip(k + 1)) {
                Err(e) => Err(e),
                Ok(hi) => if lo > hi {
                    Err(ParseFailure::InvalidRange { lo, hi })
                } else {
                    Ok(port_range(lo, hi))
                },
            },
        }
    } else {
        match port_result(item) {
            Err(e) => Err(e),
            Ok(p) => Ok(set![p]),
        }
    }
}

/// The pieces of `s` between commas, as `str::split(',')` gives them.
pub open spec fn split_items(s: Seq<char>) -> Seq<Seq<char>>
    decreases s.len(),
{
    if s.len() == 0 {
        seq![Seq::empty()]
    } else {
        let prev = split_items(s.drop_last());
        if s.last() == ',' {
            prev.push(Seq::empty())
        } else {
            prev.update(prev.len() - 1, prev.last().push(s.last()))
        }
    }
}

/// The union of what the items denote, or the error of the first item that fails.
pub open spec fn items_ports(items: Seq<Seq<char>>) -> Result<Set<u16>, ParseFailure>
    decreases items.len(),
{
    if items.len() == 0 {
        Ok(Set::empty())
    } else {
        match items_ports(items.drop_last()) {
            Err(e) => Err(e),
            Ok(before) => match item_ports(items.last()) {
                Err(e) => Err(e),
                Ok(these) => Ok(before.union(these)),
            },
        }
    }
}

/// The set of ports a whole spec denotes, or why it is rejected.
pub open spec fn spec_ports(s: Seq<char>) -> Result<Set<u16>, ParseFailure> {
    if s.len() == 0 {
        Err(ParseFailure::Empty)
    } else {
        items_ports(split_items(s))
    }
}

/// Each element is smaller than the next.
pub open spec fn strictly_increasing(v: Seq<u16>) -> bool {
    forall|i: int, j: int| 0 <= i < j < v.len() ==> v[i] < v[j]
}

/// The items that lie wholly before position `start`, which follows a comma.
pub open spec fn items_before(s: Seq<char>, start: int) -> Seq<Seq<char>> {
    if start == 0 {
        Seq::empty()
    } else {
        split_items(s.take(start - 1))
    }
}

proof fn lemma_split_nonempty(s: Seq<char>)
    ensures
        split_items(s).len() >= 1,
    decreases s.len(),
{
    if s.len() > 0 {
        lemma_split_nonempty(s.drop_last());
    }
}

proof fn lemma_split_extend(s: Seq<char>, start: int, i: int)
    requires
        0 <= start <= i <= s.len(),
        start == 0 || s[start - 1] == ',',
        forall|k: int| start <= k < i ==> s[k] != ',',
    ensures
        split_items(s.take(i)) == items_before(s, start).push(s.subrange(start, i)),
    decreases i - start,
{
    if i == start {
        if start == 0 {
            assert(s.take(0) =~= Seq::<char>::empty());
            assert(split_items(s.take(0)) =~= items_before(s, start).push(s.subrange(start, i)));
        } else {
            assert(s.take(start).drop_last() =~= s.take(start - 1));
            assert(s.take(start).last() == ',');
            assert(s.subrange(start, i) =~= Seq::<char>::empty());
        }
    } else {
        lemma_split_extend(s, start, i - 1);
        assert(s.take(i).drop_last() =~= s.take(i - 1));
        assert(s.take(i).last() == s[i - 1]);
        let prev = split_items(s.take(i - 1));
        assert(s.subrange(start, i - 1).push(s[i - 1]) =~= s.subrange(start, i));
        assert(prev.update(prev.len() - 1, prev.last().push(s[i - 1])) =~= items_before(
            s,
            start,
        ).push(s.subrange(start, i)));
    }
}

proof fn lemma_split_prefix(s: Seq<char>, i: int, j: int)
    requires
        0 <= i < j <= s.len(),
        s[i] == ',',
    ensures
        split_items(s.take(j)).len() > split_items(s.take(i)).len(),
        split_items(s.take(j)).take(split_items(s.take(i)).len() as int) == split_items(s.take(i)),
    decreases j - i,
{
    let a = split_items(s.take(i));
    lemma_split_nonempty(s.take(i));
    if j == i + 1 {
        assert(s.take(j).drop_last() =~= s.take(i));
        assert(s.take(j).last() == ',');
        assert(split_items(s.take(j)).take(a.len() as int) =~= a);
    } else {
        lemma_split_prefix(s, i, j - 1);
        assert(s.take(j).drop_last() =~= s.take(j - 1));
        let prev = split_items(s.take(j - 1));
        assert(split_items(s.take(j)).take(a.len() as int) =~= prev.take(a.len() as int));
    }
}

proof fn lemma_items_push(xs: Seq<Seq<char>>, item: Seq<char>)
    ensures
        items_ports(xs.push(item)) == match items_ports(xs) {
            Err(e) => Err(e),
            Ok(before) => match item_ports(item) {
                Err(e) => Err(e),
                Ok(these) => Ok(before.union(these)),
            },
        },
{
    assert(xs.push(item).drop_last() =~= xs);
}

proof fn lemma_items_error_prefix(xs: Seq<Seq<char>>, m: int)
    requires
        0 <= m <= xs.len(),
        items_ports(xs.take(m)) is Err,
    ensures
        items_ports(xs) == items_ports(xs.take(m)),
    decreases xs.len() - m,
{
    if m == xs.len() {
        assert(xs.take(m) =~= xs);
    } else {
        let ys = xs.drop_last();
        assert(ys.take(m) =~= xs.take(m));
        lemma_items_error_prefix(ys, m);
    }
}

proof fn lemma_split_concat(a: Seq<char>, b: Seq<char>)
    ensures
        split_items(a.push(',') + b) == split_items(a) + split_items(b),
    decreases b.len(),
{
    lemma_split_nonempty(a);
    lemma_split_nonempty(b);
    if b.len() == 0 {
        assert(a.push(',') + b =~= a.push(','));
        assert(a.push(',').drop_last() =~= a);
        assert(split_items(a) + split_items(b) =~= split_items(a).push(Seq::empty()));
    } else {
        let c = b.last();
        let b0 = b.drop_last();
        lemma_split_concat(a, b0);
        lemma_split_nonempty(b0);
        assert((a.push(',') + b).drop_last() =~= a.push(',') + b0);
        let x = split_items(a);
        let y = split_items(b0);
        if c == ',' {
            assert((x + y).push(Seq::empty()) =~= x + y.push(Seq::empty()));
        } else {
            assert((x + y).update((x + y).len() - 1, (x + y).last().push(c)) =~= x + y.update(
                y.len() - 1,
                y.last().push(c),
            ));
        }
    }
}

proof fn lemma_items_concat(xs: Seq<Seq<char>>, ys: Seq<Seq<char>>)
    ensures
        items_ports(xs + ys) == match items_ports(xs) {
            Err(e) => Err(e),
            Ok(a) => match items_ports(ys) {
                Err(e) => Err(e),
                Ok(b) => Ok(a.union(b)),
            },
        },
    decreases ys.len(),
{
    if ys.len() == 0 {
        assert(xs + ys =~= xs);
        if let Ok(a) = items_ports(xs) {
            assert(a.union(Set::empty()) =~= a);
        }
    } else {
        let y0 = ys.drop_last();
        lemma_items_concat(xs, y0);
        assert((xs + ys).drop_last() =~= xs + y0);
        assert((xs + ys).last() == ys.last());
        if let Ok(a) = items_ports(xs) {
            if let Ok(b0) = items_ports(y0) {
                if let Ok(c) = item_ports(ys.last()) {
                    assert(a.union(b0).union(c) =~= a.union(b0.union(c)));
                }
            }
        }
    }
}

/// A spec made of two specs joined by a comma denotes the union of their ports;
/// when the first is rejected, the whole is rejected for the same reason, and
/// when only the second is, for the second's reason. So the order of the items
/// does not change the ports.
pub proof fn lemma_comma_joins(a: Seq<char>, b: Seq<char>)
    requires
        a.len() > 0,
        b.len() > 0,
    ensures
        spec_ports(a.push(',') + b) == match spec_ports(a) {
            Err(e) => Err(e),
            Ok(x) => match spec_ports(b) {
                Err(e) => Err(e),
                Ok(y) => Ok(x.union(y)),
            },
        },
        spec_ports(a) is Ok && spec_ports(b) is Ok ==> spec_ports(a.push(',') + b) == spec_ports(
            b.push(',') + a,
        ),
{
    lemma_split_concat(a, b);
    lemma_items_concat(split_items(a), split_items(b));
    lemma_split_concat(b, a);
    lemma_items_concat(split_items(b), split_items(a));
    if let Ok(x) = spec_ports(a) {
        if let Ok(y) = spec_ports(b) {
            assert(x.union(y) =~= y.union(x));
        }
    }
}

/// Reads one port.
fn parse_port(s: &str) -> (r: Result<u16, ParseError>)
    ensures
        outcome(r) == port_result(s@),
{
    match read_decimal_str(s, 65535) {
        DecimalRead::Value(n) => {
            if n == 0 {
                Err(ParseError::PortZero)
            } else {
                Ok(n as u16)
            }
        },
        _ => Err(ParseError::NotAPort(s.to_owned())),
    }
}

/// Reads one item of a spec: a port `p`, given as the range `(p, p)`, or a range `lo-hi`.
fn parse_item(item: &str) -> (r: Result<(u16, u16), ParseError>)
    ensures
        match r {
            Ok((lo, hi)) => 1 <= lo <= hi && item_ports(item@) == Ok::<Set<u16>, ParseFailure>(
                port_range(lo, hi),
            ),
            Err(e) => item_ports(item@) == Err::<Set<u16>, ParseFailure>(e@),
        },
{
    let cs = chars_of(item);
    let n = cs.len();
    if n == 0 {
        return Err(ParseError::EmptyItem);
    }
    let mut k: usize = 0;
    while k < n
        invariant
            k <= n,
            n == cs@.len(),
            cs@ == item@,
            forall|j: int| 0 <= j < k ==> !is_white_space(#[trigger] cs@[j]),
        decreases n - k,
    {
        if is_whitespace(cs[k]) {
            assert(0 <= k < item@.len() && is_white_space(item@[k as int]));
            return Err(ParseError::Whitespace(item.to_owned()));
        }
        k = k + 1;
    }
    assert(!exists|j: int| 0 <= j < item@.len() && is_white_space(#[trigger] item@[j]));
    let mut d: usize = 0;
    while d < n && cs[d] != '-'
        invariant
            d <= n,
            n == cs@.len(),
            cs@ == item@,
            forall|j: int| 0 <= j < d ==> cs@[j] != '-',
        decreases n - d,
    {
        d = d + 1;
    }
    if d == n {
        assert(!exists|j: int| is_first_dash(item@, j));
        match parse_port(item) {
            Ok(p) => {
                assert(set![p] =~= port_range(p, p));
                Ok((p, p))
            },
            Err(e) => Err(e),
        }
    } else {
        assert(is_first_dash(item@, d as int));
        let ghost k0 = choose|j: int| is_first_dash(item@, j);
        assert(k0 == d) by {
            if k0 < d {
                assert(cs@[k0] != '-');
            }
            if k0 > d {
                assert(item@[d as int] != '-');
            }
        }
        let a = item.substring_char(0, d);
        let b = item.substring_char(d + 1, n);
        assert(a@ =~= item@.take(d as int));
        assert(b@ =~= item@.skip(d + 1));
        let lo = match parse_port(a) {
            Ok(v) => v,
            Err(e) => {
                return Err(e);
            },
        };
        let hi = match parse_port(b) {
            Ok(v) => v,
            Err(e) => {
                return Err(e);
            },
        };
        if lo > hi {
            Err(ParseError::InvalidRange { lo, hi })
        } else {
            Ok((lo, hi))
        }
    }
}

/// Adds the ports of the item `spec[start..end]` to `out`.
fn absorb_item(spec: &str, start: usize, end: usize, out: &mut BTreeSet<u16>) -> (r: Result<
    (),
    ParseError,
>)
    requires
        start <= end <= spec@.len(),
        forall|p: u16| old(out)@.contains(p) ==> p >= 1,
    ensures
        forall|p: u16| final(out)@.contains(p) ==> p >= 1,
        match item_ports(spec@.subrange(start as int, end as int)) {
            Ok(these) => r is Ok && final(out)@ == old(out)@.union(these),
            Err(e) => r matches Err(x) && x@ == e,
        },
{
    let item = spec.substring_char(start, end);
    let (lo, hi) = match parse_item(item) {
        Ok(range) => range,
        Err(e) => {
            return Err(e);
        },
    };
    let ghost before = out@;
    let mut p: u32 = lo as u32;
    while p <= hi as u32
        invariant
            1 <= lo <= hi,
            lo <= p <= hi as u32 + 1,
            out@ == before.union(Set::new(|q: u16| lo <= q && q < p)),
            forall|q: u16| before.contains(q) ==> q >= 1,
        decreases hi as u32 + 1 - p,
    {
        out.insert(p as u16);
        p = p + 1;
        assert(out@ =~= before.union(Set::new(|q: u16| lo <= q && q < p)));
    }
    assert(out@ =~= before.union(port_range(lo, hi)));
    Ok(())
}

/// The ports of `set` in increasing order.
fn ascending(set: &BTreeSet<u16>) -> (v: Vec<u16>)
    requires
        forall|p: u16| set@.contains(p) ==> p >= 1,
    ensures
        v@.to_set() == set@,
        strictly_increasing(v@),
{
    let mut v: Vec<u16> = Vec::new();
    let mut p: u32 = 1;
    while p <= 65535
        invariant
            1 <= p <= 65536,
            forall|q: u16| v@.contains(q) <==> (q < p && set@.contains(q)),
            forall|i: int| 0 <= i < v@.len() ==> v@[i] < p,
            strictly_increasing(v@),
            forall|q: u16| set@.contains(q) ==> q >= 1,
        decreases 65536 - p,
    {
        let q: u16 = p as u16;
        let ghost old_v = v@;
        let present = set.contains(&q);
        if present {
            v.push(q);
        }
        assert forall|x: u16| v@.contains(x) <==> (x <= q && set@.contains(x)) by {
            if old_v.contains(x) {
                let i = choose|i: int| 0 <= i < old_v.len() && old_v[i] == x;
                assert(v@[i] == x);
            }
            if present && x == q {
                assert(v@[v@.len() - 1] == x);
            }
            if v@.contains(x) {
                let i = choose|i: int| 0 <= i < v@.len() && v@[i] == x;
                if i < old_v.len() {
                    assert(old_v[i] == x);
                }
            }
        }
        p = p + 1;
    }
    assert(v@.to_set() =~= set@);
    v
}

/// Reads a port spec: comma-separated ports and ranges `lo-hi`. The ports come
/// back sorted with duplicates removed.
pub fn parse(spec: &str) -> (r: Result<Vec<u16>, ParseError>)
    ensures
        match r {
            Ok(v) => spec_ports(spec@) == Ok::<Set<u16>, ParseFailure>(v@.to_set())
                && strictly_increasing(v@) && forall|i: int| 0 <= i < v@.len() ==> v@[i] >= 1,
            Err(e) => spec_ports(spec@) == Err::<Set<u16>, ParseFailure>(e@),
        },
{
    let cs = chars_of(spec);
    let n = cs.len();
    if n == 0 {
        return Err(ParseError::Empty);
    }
    let mut out: BTreeSet<u16> = BTreeSet::new();
    let mut start: usize = 0;
    let mut i: usize = 0;
    assert(items_ports(items_before(spec@, 0)) == Ok::<Set<u16>, ParseFailure>(out@)) by {
        assert(out@ =~= Set::<u16>::empty());
    }
    while i < n
        invariant
            start <= i <= n,
            n == cs@.len(),
            cs@ == spec@,
            start == 0 || cs@[start - 1] == ',',
            forall|k: int| start <= k < i ==> cs@[k] != ',',
            items_ports(items_before(spec@, start as int)) == Ok::<Set<u16>, ParseFailure>(out@),
            forall|p: u16| out@.contains(p) ==> p >= 1,
        decreases n - i,
    {
        if cs[i] == ',' {
            let ghost before = out@;
            proof {
                lemma_split_extend(spec@, start as int, i as int);
            }
            let ghost sub = spec@.subrange(start as int, i as int);
            proof {
                lemma_items_push(items_before(spec@, start as int), sub);
            }
            match absorb_item(spec, start, i, &mut out) {
                Ok(()) => {},
                Err(e) => {
                    proof {
                        lemma_split_prefix(spec@, i as int, n as int);
                        assert(spec@.take(n as int) =~= spec@);
                        let xs = split_items(spec@);
                        let m = split_items(spec@.take(i as int)).len() as int;
                        assert(xs.take(m) == split_items(spec@.take(i as int)));
                        lemma_items_error_prefix(xs, m);
                        assert(items_ports(xs) == Err::<Set<u16>, ParseFailure>(e@));
                    }
                    return Err(e);
                },
            }
            assert(items_before(spec@, i + 1) == split_items(spec@.take(i as int)));
            start = i + 1;
        }
        i = i + 1;
    }
    proof {
        lemma_split_extend(spec@, start as int, n as int);
        assert(spec@.take(n as int) =~= spec@);
        lemma_items_push(items_before(spec@, start as int), spec@.subrange(start as int, n as int));
    }
    match absorb_item(spec, start, n, &mut out) {
        Ok(()) => {},
        Err(e) => {
            return Err(e);
        },
    }
    let v = ascending(&out);
    assert forall|k: int| 0 <= k < v@.len() implies v@[k] >= 1 by {
        assert(v@.to_set().contains(v@[k]));
    }
    Ok(v)
}

/// The unit that a duration is written in.
#[derive(Clone, Copy, Debug, PartialEq, Eq)]
pub enum TimeUnit {
    Millis,
    Secs,
    Mins,
    Hours,
}

/// A duration text split into its number and its unit: a trailing `ms`, `s`, `m`
/// or `h` (tried in that order); with none of them the whole text is the number,
/// in seconds.
pub open spec fn unit_split(s: Seq<char>) -> (Seq<char>, TimeUnit) {
    let n = s.len();
    if n >= 2 && s[n - 2] == 'm' && s[n - 1] == 's' {
        (s.take(n - 2), TimeUnit::Millis)
    } else if n >= 1 && s[n - 1] == 's' {
        (s.take(n - 1), TimeUnit::Secs)
    } else if n >= 1 && s[n - 1] == 'm' {
        (s.take(n - 1), TimeUnit::Mins)
    } else if n >= 1 && s[n - 1] == 'h' {
        (s.take(n - 1), TimeUnit::Hours)
    } else {
        (s, TimeUnit::Secs)
    }
}

/// Nanoseconds in one of `unit`.
pub open spec fn unit_nanos(unit: TimeUnit) -> nat {
    match unit {
        TimeUnit::Millis => 1_000_000,
        TimeUnit::Secs => 1_000_000_000,
        TimeUnit::Mins => 60_000_000_000,
        TimeUnit::Hours => 3_600_000_000_000,
    }
}

/// Why a duration text was rejected.
#[derive(Clone, Copy, Debug, PartialEq, Eq)]
pub enum DurationFault {
    /// The number is empty or holds a character that is not an ASCII digit.
    Invalid,
    /// The number does not fit in 64 bits.
    OutOfRange,
    /// The duration is zero.
    Zero,
}

/// The texts whose minutes or hours, counted in seconds, do not fit in 64 bits.
pub open spec fn duration_overflows(s: Seq<char>) -> bool {
    let (num, unit) = unit_split(s);
    match read_decimal(num, u64::MAX as nat) {
        DecimalRead::Value(n) => match unit {
            TimeUnit::Mins => n * 60 > u64::MAX,
            TimeUnit::Hours => n * 3600 > u64::MAX,
            _ => false,
        },
        _ => false,
    }
}

/// The length in nanoseconds that a duration text denotes, or why it is rejected.
pub open spec fn duration_spec(s: Seq<char>) -> Result<nat, DurationFault> {
    let (num, unit) = unit_split(s);
    match read_decimal(num, u64::MAX as nat) {
        DecimalRead::NotDigits => Err(DurationFault::Invalid),
        DecimalRead::TooLarge => Err(DurationFault::OutOfRange),
        DecimalRead::Value(n) => if (n as nat) * unit_nanos(unit) == 0 {
            Err(DurationFault::Zero)
        } else {
            Ok((n as nat) * unit_nanos(unit))
        },
    }
}

/// The message for a rejected duration, given the text as `{:?}` shows it.
pub open spec fn duration_text(fault: DurationFault, quoted: Seq<char>) -> Seq<char> {
    match fault {
        DurationFault::Invalid => "not a valid duration: "@ + quoted
            + " (expected e.g. 500ms, 2s, 1m; bare numbers mean seconds)"@,
        DurationFault::OutOfRange => "duration out of range: "@ + quoted,
        DurationFault::Zero => "duration must be greater than zero: "@ + quoted,
    }
}

/// Whether `s` is a text that `read_duration` and `parse_duration` accept as input:
/// every text but those whose minutes or hours overflow 64 bits of seconds.
pub fn duration_in_bounds(s: &str) -> (r: bool)
    ensures
        r == !duration_overflows(s@),
{
    let (num, unit) = split_unit(s);
    match read_decimal_str(num, u64::MAX) {
        DecimalRead::Value(n) => match unit {
            TimeUnit::Mins => n <= u64::MAX / 60,
            TimeUnit::Hours => n <= u64::MAX / 3600,
            _ => true,
        },
        _ => true,
    }
}

fn split_unit(s: &str) -> (r: (&str, TimeUnit))
    ensures
        (r.0@, r.1) == unit_split(s@),
{
    let cs = chars_of(s);
    let n = cs.len();
    if n >= 2 && cs[n - 2] == 'm' && cs[n - 1] == 's' {
        let num = s.substring_char(0, n - 2);
        assert(num@ =~= s@.take(n - 2));
        (num, TimeUnit::Millis)
    } else if n >= 1 && (cs[n - 1] == 's' || cs[n - 1] == 'm' || cs[n - 1] == 'h') {
        let num = s.substring_char(0, n - 1);
        assert(num@ =~= s@.take(n - 1));
        let unit = if cs[n - 1] == 's' {
            TimeUnit::Secs
        } else if cs[n - 1] == 'm' {
            TimeUnit::Mins
        } else {
            TimeUnit::Hours
        };
        (num, unit)
    } else {
        (s, TimeUnit::Secs)
    }
}

/// Reads a duration: a number followed by `ms`, `s`, `m` or `h`; a bare number
/// is seconds. Zero is rejected.
pub fn read_duration(s: &str) -> (r: Result<TimeSpan, DurationFault>)
    requires
        !duration_overflows(s@),
    ensures
        match r {
            Ok(d) => duration_spec(s@) == Ok::<nat, DurationFault>(d@),
            Err(f) => duration_spec(s@) == Err::<nat, DurationFault>(f),
        },
{
    let (num, unit) = split_unit(s);
    let n = match read_decimal_str(num, u64::MAX) {
        DecimalRead::NotDigits => {
            return Err(DurationFault::Invalid);
        },
        DecimalRead::TooLarge => {
            return Err(DurationFault::OutOfRange);
        },
        DecimalRead::Value(n) => n,
    };
    let d = match unit {
        TimeUnit::Millis => TimeSpan::from_millis(n),
        TimeUnit::Secs => TimeSpan::from_secs(n),
        TimeUnit::Mins => TimeSpan::from_secs(n * 60),
        TimeUnit::Hours => TimeSpan::from_secs(n * 3600),
    };
    if d.is_zero() {
        return Err(DurationFault::Zero);
    }
    Ok(d)
}

/// The message for a rejected duration, given the rejected text as `{:?}` shows it.
pub fn duration_message(fault: DurationFault, quoted: &str) -> (r: String)
    ensures
        r@ == duration_text(fault, quoted@),
{
    match fault {
        DurationFault::Invalid => {
            let mut m = "not a valid duration: ".to_owned();
            m.append(quoted);
            m.append(" (expected e.g. 500ms, 2s, 1m; bare numbers mean seconds)");
            m
        },
        DurationFault::OutOfRange => {
            let mut m = "duration out of range: ".to_owned();
            m.append(quoted);
            m
        },
        DurationFault::Zero => {
            let mut m = "duration must be greater than zero: ".to_owned();
            m.append(quoted);
            m
        },
    }
}

/// Reads a duration such as `500ms`, `2s`, `1m`, `1h` or `90` (seconds), with the
/// message for a rejected one.
pub fn parse_duration(s: &str) -> (r: Result<TimeSpan, String>)
    requires
        !duration_overflows(s@),
    ensures
        match r {
            Ok(d) => duration_spec(s@) == Ok::<nat, DurationFault>(d@),
            Err(m) => duration_spec(s@) matches Err(f) && m@ == duration_text(
                f,
                debug_text(s@),
            ),
        },
{
    match read_duration(s) {
        Ok(d) => Ok(d),
        Err(f) => {
            let quoted = debug_quote(s);
            Err(duration_message(f, quoted.as_str()))
        },
    }
}

/// A bare number means seconds: digits alone and the same digits followed by
/// `s` give the same duration, or the same rejection.
pub proof fn lemma_bare_number_is_seconds(digits: Seq<char>)
    requires
        all_digits(digits),
    ensures
        duration_spec(digits) == duration_spec(digits.push('s')),
{
    let n = digits.len();
    if n >= 1 {
        assert(digits[n - 1] != 's' && digits[n - 1] != 'm' && digits[n - 1] != 'h') by {
            assert(is_digit(digits[n - 1]));
        }
    }
    assert(digits.push('s').take(n as int) =~= digits);
    if n >= 1 {
        assert(!(digits.push('s')[n - 1] == 'm')) by {
            assert(is_digit(digits[n - 1]));
        }
    }
}

/// The units scale as they should, within range: `n` and `ns` are the same
/// duration; `nm` is `60n` seconds and `nh` is `3600n` seconds, while those
/// seconds fit in 64 bits; and `ns` is `n000ms` while those milliseconds fit.
pub proof fn lemma_unit_scaling(n: nat)
    requires
        n <= u64::MAX,
    ensures
        duration_spec(decimal_text(n)) == duration_spec(decimal_text(n).push('s')),
        n * 60 <= u64::MAX ==> duration_spec(decimal_text(n).push('m')) == duration_spec(
            decimal_text(n * 60).push('s'),
        ),
        n * 3600 <= u64::MAX ==> duration_spec(decimal_text(n).push('h')) == duration_spec(
            decimal_text(n * 3600).push('s'),
        ),
        n * 1000 <= u64::MAX ==> duration_spec(decimal_text(n).push('s')) == duration_spec(
            decimal_text(n) + "000ms"@,
        ),
{
    let d = decimal_text(n);
    lemma_decimal_text_value(n);
    lemma_bare_number_is_seconds(d);
    let k = d.len();
    assert(is_digit(d[k - 1]));
    assert(d.push('s').take(k as int) =~= d);
    assert(d.push('m').take(k as int) =~= d);
    assert(d.push('h').take(k as int) =~= d);
    assert(d.push('m')[k as int] == 'm');
    assert(d.push('h')[k as int] == 'h');
    assert(d.push('s')[k - 1] == d[k - 1]);
    assert(d.push('m')[k - 1] == d[k - 1]);
    assert(d.push('h')[k - 1] == d[k - 1]);
    if n * 60 <= u64::MAX {
        lemma_decimal_text_value(n * 60);
        lemma_bare_number_is_seconds(decimal_text(n * 60));
        assert((n * 60) * 1_000_000_000 == n * 60_000_000_000) by (nonlinear_arith);
    }
    if n * 3600 <= u64::MAX {
        lemma_decimal_text_value(n * 3600);
        lemma_bare_number_is_seconds(decimal_text(n * 3600));
        assert((n * 3600) * 1_000_000_000 == n * 3_600_000_000_000) by (nonlinear_arith);
    }
    if n * 1000 <= u64::MAX {
        reveal_strlit("000ms");
        let t = d + "000ms"@;
        let num = d.push('0').push('0').push('0');
        assert(t =~= num.push('m').push('s'));
        assert(t.take(t.len() - 2) =~= num);
        lemma_decimal_push(d, '0');
        lemma_decimal_push(d.push('0'), '0');
        lemma_decimal_push(d.push('0').push('0'), '0');
        assert forall|i: int| 0 <= i < num.len() implies is_digit(#[trigger] num[i]) by {
            if i < k {
                assert(num[i] == d[i]);
            }
        }
        assert((n * 1000) * 1_000_000 == n * 1_000_000_000) by (nonlinear_arith);
    }
}

/// A range written `lo-hi` in decimal, with `1 <= lo <= hi`, denotes every port
/// from `lo` to `hi`, both ends included, and no other.
pub proof fn lemma_range_text(lo: u16, hi: u16)
    requires
        1 <= lo <= hi,
    ensures
        spec_ports(decimal_text(lo as nat) + "-"@ + decimal_text(hi as nat)) == Ok::<
            Set<u16>,
            ParseFailure,
        >(Set::new(|p: u16| lo <= p && p <= hi)),
{
    reveal_strlit("-");
    let a = decimal_text(lo as nat);
    let b = decimal_text(hi as nat);
    lemma_decimal_text_value(lo as nat);
    lemma_decimal_text_value(hi as nat);
    let t = a + "-"@ + b;
    let k = a.len() as int;
    assert(t[k] == '-');
    assert forall|i: int| 0 <= i < t.len() && i != k implies is_digit(#[trigger] t[i]) by {
        if i < k {
            assert(t[i] == a[i]);
        } else {
            assert(t[i] == b[i - k - 1]);
        }
    }
    assert forall|i: int| 0 <= i < t.len() implies t[i] != ',' && !is_white_space(
        #[trigger] t[i],
    ) by {
        if i != k {
            assert(is_digit(t[i]));
        }
    }
    assert(is_first_dash(t, k));
    let k0 = choose|j: int| is_first_dash(t, j);
    assert(k0 == k) by {
        if k0 < k {
            assert(is_digit(t[k0]));
        }
        if k0 > k {
            assert(t[k] != '-');
        }
    }
    assert(t.take(k) =~= a);
    assert(t.skip(k + 1) =~= b);
    assert(port_range(lo, hi) =~= Set::new(|p: u16| lo <= p && p <= hi));
    lemma_split_extend(t, 0, t.len() as int);
    assert(t.take(t.len() as int) =~= t);
    assert(t.subrange(0, t.len() as int) =~= t);
    lemma_items_push(Seq::empty(), t);
    assert(Seq::<Seq<char>>::empty().push(t) == split_items(t));
    assert(Set::<u16>::empty().union(port_range(lo, hi)) =~= port_range(lo, hi));
}

/// A number of milliseconds `n` reads as exactly `n` million nanoseconds when
/// `n >= 1`, and as the zero fault when `n` is 0.
pub proof fn lemma_millis_text(n: u64)
    ensures
        n >= 1 ==> duration_spec(decimal_text(n as nat) + "ms"@) == Ok::<nat, DurationFault>(
            (n as nat) * 1_000_000,
        ),
        n == 0 ==> duration_spec(decimal_text(n as nat) + "ms"@) == Err::<nat, DurationFault>(
            DurationFault::Zero,
        ),
{
    reveal_strlit("ms");
    let d = decimal_text(n as nat);
    lemma_decimal_text_value(n as nat);
    let t = d + "ms"@;
    let m = t.len();
    assert(t[m - 2] == 'm' && t[m - 1] == 's');
    assert(t.take(m - 2) =~= d);
}

} // verus!
