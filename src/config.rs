//! Comparison of INI-style configuration documents.
//!
//! A document is a sequence of sections, each with an optional name (`None`
//! is the global section) and a sequence of `key = value` properties. Where a
//! section name or a key occurs more than once, its first occurrence is the
//! one that counts.

use vstd::prelude::*;
use vstd::seq_lib::lemma_no_dup_in_concat;

verus! {

/// The view of an optional string.
pub open spec fn opt_view(o: Option<String>) -> Option<Seq<char>> {
    match o {
        Some(s) => Some(s@),
        None => None,
    }
}

/// A parameter as plain values: section, property, value.
pub type ParamView = (Option<Seq<char>>, Seq<char>, Seq<char>);

/// A section as plain values: its name and its properties in order.
pub type SectionView = (Option<Seq<char>>, Seq<(Seq<char>, Seq<char>)>);

/// One property of one section, with its value. Parameters order by
/// section, then property, then value.
#[derive(Debug, Clone, PartialEq, Eq, PartialOrd, Ord)]
pub struct IniParameter {
    section: Option<String>,
    property: String,
    value: String,
}

impl View for IniParameter {
    type V = ParamView;

    closed spec fn view(&self) -> ParamView {
        (opt_view(self.section), self.property@, self.value@)
    }
}

/// The differences between a baseline document and a candidate document.
#[derive(Debug, Clone, PartialEq)]
pub struct IniCompare {
    pub updated: Vec<(IniParameter, IniParameter)>,
    pub added: Vec<IniParameter>,
    pub deleted: Vec<IniParameter>,
}

/// A named group of properties.
#[derive(Debug, Clone)]
pub struct IniSection {
    pub name: Option<String>,
    pub properties: Vec<(String, String)>,
}

/// A configuration document: its sections in order.
#[derive(Debug, Clone)]
pub struct IniDocument {
    pub sections: Vec<IniSection>,
}

/// Why a configuration operation failed.
#[derive(Debug, Clone, Copy, PartialEq, Eq, Structural)]
pub enum ConfigError {
    /// A document could not be read or does not parse.
    Load,
    /// The target document could not be read or written while patching.
    FileAccess,
}

impl View for IniSection {
    type V = SectionView;

    open spec fn view(&self) -> SectionView {
        (opt_view(self.name), self.properties@.map_values(|kv: (String, String)| (kv.0@, kv.1@)))
    }
}

impl View for IniDocument {
    type V = Seq<SectionView>;

    open spec fn view(&self) -> Seq<SectionView> {
        self.sections@.map_values(|s: IniSection| s@)
    }
}

/// Section `i` is the first one with its name.
pub open spec fn first_section(d: Seq<SectionView>, i: int) -> bool {
    &&& 0 <= i < d.len()
    &&& forall|j: int| 0 <= j < i ==> #[trigger] d[j].0 != d[i].0
}

/// Property `m` is the first one with its key.
pub open spec fn first_key(props: Seq<(Seq<char>, Seq<char>)>, m: int) -> bool {
    &&& 0 <= m < props.len()
    &&& forall|j: int| 0 <= j < m ==> #[trigger] props[j].0 != props[m].0
}

/// Property `m` of section `i` is one that counts.
pub open spec fn entry_at(d: Seq<SectionView>, i: int, m: int) -> bool {
    first_section(d, i) && first_key(d[i].1, m)
}

/// The parameter at property `m` of section `i`.
pub open spec fn param_at(d: Seq<SectionView>, i: int, m: int) -> ParamView {
    (d[i].0, d[i].1[m].0, d[i].1[m].1)
}

/// The document gives the section and property of `p` the value of `p`.
pub open spec fn has_entry(d: Seq<SectionView>, p: ParamView) -> bool {
    exists|i: int, m: int| #[trigger] entry_at(d, i, m) && param_at(d, i, m) == p
}

/// The document has property `k` in section `s`.
pub open spec fn has_property(d: Seq<SectionView>, s: Option<Seq<char>>, k: Seq<char>) -> bool {
    exists|i: int, m: int| #[trigger] entry_at(d, i, m) && d[i].0 == s && d[i].1[m].0 == k
}

/// The entries of section `i` among its first `m` properties that `other`
/// lacks, in order.
pub open spec fn missing_in_section(
    x: Seq<SectionView>,
    other: Seq<SectionView>,
    i: int,
    m: nat,
) -> Seq<ParamView>
    decreases m,
{
    if m == 0 {
        Seq::empty()
    } else {
        let prev = missing_in_section(x, other, i, (m - 1) as nat);
        if entry_at(x, i, m - 1) && !has_property(other, x[i].0, x[i].1[m - 1].0) {
            prev.push(param_at(x, i, m - 1))
        } else {
            prev
        }
    }
}

/// The entries of the first `n` sections of `x` that `other` lacks, in order.
pub open spec fn missing_upto(x: Seq<SectionView>, other: Seq<SectionView>, n: nat) -> Seq<
    ParamView,
>
    decreases n,
{
    if n == 0 {
        Seq::empty()
    } else {
        missing_upto(x, other, (n - 1) as nat) + missing_in_section(
            x,
            other,
            n - 1,
            x[n - 1].1.len(),
        )
    }
}


/// The value that `d` gives property `k` of section `s`, where it has one.
pub open spec fn value_in(d: Seq<SectionView>, s: Option<Seq<char>>, k: Seq<char>) -> Seq<char> {
    choose|v: Seq<char>| has_entry(d, (s, k, v))
}

/// The pairs (baseline entry, candidate entry) of section `i` of `b`, among its
/// first `m` properties, whose property `a` holds with another value.
pub open spec fn changed_in_section(
    a: Seq<SectionView>,
    b: Seq<SectionView>,
    i: int,
    m: nat,
) -> Seq<(ParamView, ParamView)>
    decreases m,
{
    if m == 0 {
        Seq::empty()
    } else {
        let prev = changed_in_section(a, b, i, (m - 1) as nat);
        let p = param_at(b, i, m - 1);
        if entry_at(b, i, m - 1) && has_property(a, p.0, p.1) && value_in(a, p.0, p.1) != p.2 {
            prev.push(((p.0, p.1, value_in(a, p.0, p.1)), p))
        } else {
            prev
        }
    }
}

/// The changed pairs of the first `n` sections of `b`, in order.
pub open spec fn changed_upto(a: Seq<SectionView>, b: Seq<SectionView>, n: nat) -> Seq<
    (ParamView, ParamView),
>
    decreases n,
{
    if n == 0 {
        Seq::empty()
    } else {
        changed_upto(a, b, (n - 1) as nat) + changed_in_section(a, b, n - 1, b[n - 1].1.len())
    }
}

/// The views of a sequence of parameters.
pub open spec fn params_view(s: Seq<IniParameter>) -> Seq<ParamView> {
    s.map_values(|p: IniParameter| p@)
}

/// The views of a sequence of parameter pairs.
pub open spec fn pairs_view(s: Seq<(IniParameter, IniParameter)>) -> Seq<(ParamView, ParamView)> {
    s.map_values(|u: (IniParameter, IniParameter)| (u.0@, u.1@))
}

/// `r` is the comparison of baseline `a` with candidate `b`: each of its three
/// lists holds, once each and in any order, exactly the entries that belong there.
pub open spec fn is_comparison(a: Seq<SectionView>, b: Seq<SectionView>, r: IniCompare) -> bool {
    &&& params_view(r.added@).no_duplicates()
    &&& params_view(r.deleted@).no_duplicates()
    &&& pairs_view(r.updated@).no_duplicates()
    &&& forall|p: ParamView|
        #[trigger] params_view(r.added@).contains(p) <==> has_entry(b, p) && !has_property(a, p.0, p.1)
    &&& forall|p: ParamView|
        #[trigger] params_view(r.deleted@).contains(p) <==> has_entry(a, p) && !has_property(b, p.0, p.1)
    &&& forall|u: (ParamView, ParamView)| #[trigger]
        pairs_view(r.updated@).contains(u) <==> {
            &&& u.0.0 == u.1.0
            &&& u.0.1 == u.1.1
            &&& u.0.2 != u.1.2
            &&& has_entry(a, u.0)
            &&& has_entry(b, u.1)
        }
}

fn opt_string_eq(a: &Option<String>, b: &Option<String>) -> (r: bool)
    ensures
        r == (opt_view(*a) == opt_view(*b)),
{
    match (a, b) {
        (Some(x), Some(y)) => x.eq(y),
        (None, None) => true,
        _ => false,
    }
}

fn clone_opt_string(a: &Option<String>) -> (r: Option<String>)
    ensures
        opt_view(r) == opt_view(*a),
{
    match a {
        Some(x) => Some(x.clone()),
        None => None,
    }
}

/// The index of the first section of `d` named `name`.
fn find_section(d: &IniDocument, name: &Option<String>) -> (r: Option<usize>)
    ensures
        match r {
            Some(i) => first_section(d@, i as int) && d@[i as int].0 == opt_view(*name),
            None => forall|i: int| 0 <= i < d@.len() ==> #[trigger] d@[i].0 != opt_view(*name),
        },
{
    let mut i: usize = 0;
    while i < d.sections.len()
        invariant
            i <= d@.len(),
            d@.len() == d.sections@.len(),
            forall|j: int| 0 <= j < i ==> #[trigger] d@[j].0 != opt_view(*name),
        decreases d@.len() - i,
    {
        if opt_string_eq(&d.sections[i].name, name) {
            return Some(i);
        }
        i = i + 1;
    }
    None
}

/// The index of the first property of `props` whose key is `key`.
fn find_key(props: &Vec<(String, String)>, key: &String) -> (r: Option<usize>)
    ensures
        ({
            let pv = props@.map_values(|kv: (String, String)| (kv.0@, kv.1@));
            match r {
                Some(m) => first_key(pv, m as int) && pv[m as int].0 == key@,
                None => forall|m: int| 0 <= m < pv.len() ==> #[trigger] pv[m].0 != key@,
            }
        }),
{
    let ghost pv = props@.map_values(|kv: (String, String)| (kv.0@, kv.1@));
    let mut m: usize = 0;
    while m < props.len()
        invariant
            m <= pv.len(),
            pv == props@.map_values(|kv: (String, String)| (kv.0@, kv.1@)),
            forall|j: int| 0 <= j < m ==> #[trigger] pv[j].0 != key@,
        decreases pv.len() - m,
    {
        if props[m].0.eq(key) {
            return Some(m);
        }
        m = m + 1;
    }
    None
}

/// Two counted entries with the same section and key are the same entry.
proof fn lemma_entry_unique(d: Seq<SectionView>, i1: int, m1: int, i2: int, m2: int)
    requires
        entry_at(d, i1, m1),
        entry_at(d, i2, m2),
        d[i1].0 == d[i2].0,
        d[i1].1[m1].0 == d[i2].1[m2].0,
    ensures
        i1 == i2,
        m1 == m2,
{
    if i1 < i2 {
        assert(d[i1].0 != d[i2].0);
    } else if i2 < i1 {
        assert(d[i2].0 != d[i1].0);
    }
    if m1 < m2 {
        assert(d[i1].1[m1].0 != d[i1].1[m2].0);
    } else if m2 < m1 {
        assert(d[i1].1[m2].0 != d[i1].1[m1].0);
    }
}

/// Looks up property `key` of section `name` in `d`: the indices of the
/// section and of the property that count.
fn lookup(d: &IniDocument, name: &Option<String>, key: &String) -> (r: Option<(usize, usize)>)
    ensures
        match r {
            Some((i, m)) => entry_at(d@, i as int, m as int) && d@[i as int].0 == opt_view(*name)
                && d@[i as int].1[m as int].0 == key@,
            None => !has_property(d@, opt_view(*name), key@),
        },
{
    match find_section(d, name) {
        None => {
            assert(!has_property(d@, opt_view(*name), key@)) by {
                if has_property(d@, opt_view(*name), key@) {
                    let (i, m) = choose|i: int, m: int|
                        #[trigger] entry_at(d@, i, m) && d@[i].0 == opt_view(*name) && d@[i].1[m].0
                            == key@;
                    assert(d@[i].0 != opt_view(*name));
                }
            }
            None
        },
        Some(i) => {
            assert(d@[i as int] == d.sections@[i as int]@);
            match find_key(&d.sections[i].properties, key) {
                Some(m) => Some((i, m)),
                None => {
                    assert(!has_property(d@, opt_view(*name), key@)) by {
                        if has_property(d@, opt_view(*name), key@) {
                            let (i2, m2) = choose|i2: int, m2: int|
                                #[trigger] entry_at(d@, i2, m2) && d@[i2].0 == opt_view(*name)
                                    && d@[i2].1[m2].0 == key@;
                            if i2 < i {
                                assert(d@[i2].0 != d@[i as int].0);
                            } else if i < i2 {
                                assert(d@[i as int].0 != d@[i2].0);
                            }
                            assert(d@[i as int].1[m2].0 != key@);
                        }
                    }
                    None
                },
            }
        },
    }
}


proof fn lemma_push_contains<A>(s: Seq<A>, p: A, q: A)
    ensures
        s.push(p).contains(q) <==> (s.contains(q) || q == p),
{
    if s.contains(q) {
        let k = choose|k: int| 0 <= k < s.len() && s[k] == q;
        assert(s.push(p)[k] == q);
    }
    if q == p {
        assert(s.push(p)[s.len() as int] == q);
    }
    if s.push(p).contains(q) {
        let k = choose|k: int| 0 <= k < s.len() + 1 && s.push(p)[k] == q;
        if k < s.len() {
            assert(s[k] == q);
        }
    }
}

proof fn lemma_concat_contains<A>(s: Seq<A>, t: Seq<A>, q: A)
    ensures
        (s + t).contains(q) <==> (s.contains(q) || t.contains(q)),
{
    if s.contains(q) {
        let k = choose|k: int| 0 <= k < s.len() && s[k] == q;
        assert((s + t)[k] == q);
    }
    if t.contains(q) {
        let k = choose|k: int| 0 <= k < t.len() && t[k] == q;
        assert((s + t)[s.len() + k] == q);
    }
    if (s + t).contains(q) {
        let k = choose|k: int| 0 <= k < s.len() + t.len() && (s + t)[k] == q;
        if k < s.len() {
            assert(s[k] == q);
        } else {
            assert(t[k - s.len()] == q);
        }
    }
}

proof fn lemma_push_no_dup<A>(s: Seq<A>, p: A)
    requires
        s.no_duplicates(),
        !s.contains(p),
    ensures
        s.push(p).no_duplicates(),
{
    let r = s.push(p);
    assert forall|i: int, j: int| 0 <= i < r.len() && 0 <= j < r.len() && i != j implies r[i]
        != r[j] by {
        if i < s.len() && j == s.len() {
            assert(s[i] != p);
        } else if j < s.len() && i == s.len() {
            assert(s[j] != p);
        } else if i < s.len() && j < s.len() {
            assert(s[i] != s[j]);
        }
    }
}

/// A document gives a section's property at most one value.
proof fn lemma_value_unique(d: Seq<SectionView>, p1: ParamView, p2: ParamView)
    requires
        has_entry(d, p1),
        has_entry(d, p2),
        p1.0 == p2.0,
        p1.1 == p2.1,
    ensures
        p1.2 == p2.2,
{
    let (i1, m1) = choose|i: int, m: int| #[trigger] entry_at(d, i, m) && param_at(d, i, m) == p1;
    let (i2, m2) = choose|i: int, m: int| #[trigger] entry_at(d, i, m) && param_at(d, i, m) == p2;
    lemma_entry_unique(d, i1, m1, i2, m2);
}

/// Where a property is present, `value_in` is its value.
proof fn lemma_value_in(d: Seq<SectionView>, s: Option<Seq<char>>, k: Seq<char>)
    requires
        has_property(d, s, k),
    ensures
        has_entry(d, (s, k, value_in(d, s, k))),
{
    let (i, m) = choose|i: int, m: int| #[trigger] entry_at(d, i, m) && d[i].0 == s && d[i].1[m].0 == k;
    assert(has_entry(d, param_at(d, i, m)));
}

proof fn lemma_missing_in_section(x: Seq<SectionView>, o: Seq<SectionView>, i: int, m: nat)
    requires
        0 <= i < x.len(),
        m <= x[i].1.len(),
    ensures
        missing_in_section(x, o, i, m).no_duplicates(),
        missing_in_section(x, o, i, m).len() > 0 ==> first_section(x, i),
        forall|q: ParamView| #[trigger]
            missing_in_section(x, o, i, m).contains(q) ==> {
                &&& has_entry(x, q)
                &&& q.0 == x[i].0
                &&& !has_property(o, q.0, q.1)
                &&& exists|mm: int| 0 <= mm < m && #[trigger] x[i].1[mm].0 == q.1
            },
        forall|mm: int|
            0 <= mm < m && #[trigger] entry_at(x, i, mm) && !has_property(o, x[i].0, x[i].1[mm].0)
                ==> missing_in_section(x, o, i, m).contains(param_at(x, i, mm)),
    decreases m,
{
    if m > 0 {
        let k = m - 1;
        lemma_missing_in_section(x, o, i, k as nat);
        let prev = missing_in_section(x, o, i, k as nat);
        let r = missing_in_section(x, o, i, m);
        if entry_at(x, i, k) && !has_property(o, x[i].0, x[i].1[k].0) {
            let p = param_at(x, i, k);
            assert(r == prev.push(p));
            assert(has_entry(x, p));
            if prev.contains(p) {
                let mm = choose|mm: int| 0 <= mm < k && #[trigger] x[i].1[mm].0 == p.1;
                assert(x[i].1[mm].0 != x[i].1[k].0);
            }
            lemma_push_no_dup(prev, p);
            assert forall|q: ParamView| #[trigger] r.contains(q) implies {
                &&& has_entry(x, q)
                &&& q.0 == x[i].0
                &&& !has_property(o, q.0, q.1)
                &&& exists|mm: int| 0 <= mm < m && #[trigger] x[i].1[mm].0 == q.1
            } by {
                lemma_push_contains(prev, p, q);
                if q == p {
                    assert(x[i].1[k].0 == q.1);
                } else {
                    assert(prev.contains(q));
                }
            }
            assert forall|mm: int|
                0 <= mm < m && #[trigger] entry_at(x, i, mm) && !has_property(o, x[i].0, x[i].1[mm].0)
                    implies r.contains(param_at(x, i, mm)) by {
                lemma_push_contains(prev, p, param_at(x, i, mm));
            }
        } else {
            assert(r == prev);
        }
    }
}

proof fn lemma_missing_upto(x: Seq<SectionView>, o: Seq<SectionView>, n: nat)
    requires
        n <= x.len(),
    ensures
        missing_upto(x, o, n).no_duplicates(),
        forall|q: ParamView| #[trigger]
            missing_upto(x, o, n).contains(q) ==> {
                &&& has_entry(x, q)
                &&& !has_property(o, q.0, q.1)
                &&& exists|j: int| 0 <= j < n && #[trigger] x[j].0 == q.0
            },
        forall|i: int, mm: int|
            0 <= i < n && #[trigger] entry_at(x, i, mm) && !has_property(o, x[i].0, x[i].1[mm].0)
                ==> missing_upto(x, o, n).contains(param_at(x, i, mm)),
    decreases n,
{
    if n > 0 {
        let i = n - 1;
        lemma_missing_upto(x, o, i as nat);
        lemma_missing_in_section(x, o, i, x[i].1.len());
        let prev = missing_upto(x, o, i as nat);
        let sec = missing_in_section(x, o, i, x[i].1.len());
        assert forall|a: int, b: int| 0 <= a < prev.len() && 0 <= b < sec.len() implies prev[a]
            != sec[b] by {
            assert(prev.contains(prev[a]));
            assert(sec.contains(sec[b]));
            let j = choose|j: int| 0 <= j < i && #[trigger] x[j].0 == prev[a].0;
            assert(x[j].0 != x[i].0);
        }
        lemma_no_dup_in_concat(prev, sec);
        assert forall|q: ParamView| #[trigger] missing_upto(x, o, n).contains(q) implies {
            &&& has_entry(x, q)
            &&& !has_property(o, q.0, q.1)
            &&& exists|j: int| 0 <= j < n && #[trigger] x[j].0 == q.0
        } by {
            lemma_concat_contains(prev, sec, q);
            if sec.contains(q) {
                assert(x[i].0 == q.0);
            }
        }
        assert forall|i2: int, mm: int|
            0 <= i2 < n && #[trigger] entry_at(x, i2, mm) && !has_property(o, x[i2].0, x[i2].1[mm].0)
                implies missing_upto(x, o, n).contains(param_at(x, i2, mm)) by {
            lemma_concat_contains(prev, sec, param_at(x, i2, mm));
        }
    }
}

proof fn lemma_changed_in_section(a: Seq<SectionView>, b: Seq<SectionView>, i: int, m: nat)
    requires
        0 <= i < b.len(),
        m <= b[i].1.len(),
    ensures
        changed_in_section(a, b, i, m).no_duplicates(),
        changed_in_section(a, b, i, m).len() > 0 ==> first_section(b, i),
        forall|u: (ParamView, ParamView)| #[trigger]
            changed_in_section(a, b, i, m).contains(u) ==> {
                &&& u.0.0 == u.1.0
                &&& u.0.1 == u.1.1
                &&& u.0.2 != u.1.2
                &&& has_entry(a, u.0)
                &&& has_entry(b, u.1)
                &&& u.1.0 == b[i].0
                &&& exists|mm: int| 0 <= mm < m && #[trigger] b[i].1[mm].0 == u.1.1
            },
        forall|mm: int|
            0 <= mm < m && #[trigger] entry_at(b, i, mm) && has_property(a, b[i].0, b[i].1[mm].0)
                && value_in(a, b[i].0, b[i].1[mm].0) != b[i].1[mm].1
                ==> changed_in_section(a, b, i, m).contains(
                (
                    (b[i].0, b[i].1[mm].0, value_in(a, b[i].0, b[i].1[mm].0)),
                    param_at(b, i, mm),
                ),
            ),
    decreases m,
{
    if m > 0 {
        let k = m - 1;
        lemma_changed_in_section(a, b, i, k as nat);
        let prev = changed_in_section(a, b, i, k as nat);
        let r = changed_in_section(a, b, i, m);
        let p = param_at(b, i, k);
        if entry_at(b, i, k) && has_property(a, p.0, p.1) && value_in(a, p.0, p.1) != p.2 {
            let e = ((p.0, p.1, value_in(a, p.0, p.1)), p);
            assert(r == prev.push(e));
            assert(has_entry(b, p));
            lemma_value_in(a, p.0, p.1);
            if prev.contains(e) {
                let mm = choose|mm: int| 0 <= mm < k && #[trigger] b[i].1[mm].0 == p.1;
                assert(b[i].1[mm].0 != b[i].1[k].0);
            }
            lemma_push_no_dup(prev, e);
            assert forall|u: (ParamView, ParamView)| #[trigger] r.contains(u) implies {
                &&& u.0.0 == u.1.0
                &&& u.0.1 == u.1.1
                &&& u.0.2 != u.1.2
                &&& has_entry(a, u.0)
                &&& has_entry(b, u.1)
                &&& u.1.0 == b[i].0
                &&& exists|mm: int| 0 <= mm < m && #[trigger] b[i].1[mm].0 == u.1.1
            } by {
                lemma_push_contains(prev, e, u);
                if u == e {
                    assert(b[i].1[k].0 == u.1.1);
                } else {
                    assert(prev.contains(u));
                }
            }
            assert forall|mm: int|
                0 <= mm < m && #[trigger] entry_at(b, i, mm) && has_property(
                    a,
                    b[i].0,
                    b[i].1[mm].0,
                ) && value_in(a, b[i].0, b[i].1[mm].0) != b[i].1[mm].1 implies r.contains(
                (
                    (b[i].0, b[i].1[mm].0, value_in(a, b[i].0, b[i].1[mm].0)),
                    param_at(b, i, mm),
                ),
            ) by {
                lemma_push_contains(
                    prev,
                    e,
                    (
                        (b[i].0, b[i].1[mm].0, value_in(a, b[i].0, b[i].1[mm].0)),
                        param_at(b, i, mm),
                    ),
                );
            }
        } else {
            assert(r == prev);
        }
    }
}

proof fn lemma_changed_upto(a: Seq<SectionView>, b: Seq<SectionView>, n: nat)
    requires
        n <= b.len(),
    ensures
        changed_upto(a, b, n).no_duplicates(),
        forall|u: (ParamView, ParamView)| #[trigger]
            changed_upto(a, b, n).contains(u) ==> {
                &&& u.0.0 == u.1.0
                &&& u.0.1 == u.1.1
                &&& u.0.2 != u.1.2
                &&& has_entry(a, u.0)
                &&& has_entry(b, u.1)
                &&& exists|j: int| 0 <= j < n && #[trigger] b[j].0 == u.1.0
            },
        forall|i: int, mm: int|
            0 <= i < n && #[trigger] entry_at(b, i, mm) && has_property(a, b[i].0, b[i].1[mm].0)
                && value_in(a, b[i].0, b[i].1[mm].0) != b[i].1[mm].1
                ==> changed_upto(a, b, n).contains(
                (
                    (b[i].0, b[i].1[mm].0, value_in(a, b[i].0, b[i].1[mm].0)),
                    param_at(b, i, mm),
                ),
            ),
    decreases n,
{
    if n > 0 {
        let i = n - 1;
        lemma_changed_upto(a, b, i as nat);
        lemma_changed_in_section(a, b, i, b[i].1.len());
        let prev = changed_upto(a, b, i as nat);
        let sec = changed_in_section(a, b, i, b[i].1.len());
        assert forall|x: int, y: int| 0 <= x < prev.len() && 0 <= y < sec.len() implies prev[x]
            != sec[y] by {
            assert(prev.contains(prev[x]));
            assert(sec.contains(sec[y]));
            let j = choose|j: int| 0 <= j < i && #[trigger] b[j].0 == prev[x].1.0;
            assert(b[j].0 != b[i].0);
        }
        lemma_no_dup_in_concat(prev, sec);
        assert forall|u: (ParamView, ParamView)| #[trigger] changed_upto(a, b, n).contains(u) implies {
            &&& u.0.0 == u.1.0
            &&& u.0.1 == u.1.1
            &&& u.0.2 != u.1.2
            &&& has_entry(a, u.0)
            &&& has_entry(b, u.1)
            &&& exists|j: int| 0 <= j < n && #[trigger] b[j].0 == u.1.0
        } by {
            lemma_concat_contains(prev, sec, u);
            if sec.contains(u) {
                assert(b[i].0 == u.1.0);
            }
        }
        assert forall|i2: int, mm: int|
            0 <= i2 < n && #[trigger] entry_at(b, i2, mm) && has_property(a, b[i2].0, b[i2].1[mm].0)
                && value_in(a, b[i2].0, b[i2].1[mm].0) != b[i2].1[mm].1 implies changed_upto(
            a,
            b,
            n,
        ).contains(
            ((b[i2].0, b[i2].1[mm].0, value_in(a, b[i2].0, b[i2].1[mm].0)), param_at(b, i2, mm)),
        ) by {
            lemma_concat_contains(
                prev,
                sec,
                ((b[i2].0, b[i2].1[mm].0, value_in(a, b[i2].0, b[i2].1[mm].0)), param_at(b, i2, mm)),
            );
        }
    }
}

/// Whether section `i` is the first one with its name.
fn is_first_section(d: &IniDocument, i: usize) -> (r: bool)
    requires
        i < d@.len(),
    ensures
        r == first_section(d@, i as int),
{
    assert(d@[i as int] == d.sections@[i as int]@);
    match find_section(d, &d.sections[i].name) {
        Some(j) => {
            if j > i {
                assert(d@[i as int].0 != d@[j as int].0);
            } else if j < i {
                assert(d@[j as int].0 == d@[i as int].0);
            }
            j == i
        },
        None => {
            assert(d@[i as int].0 != opt_view(d.sections@[i as int].name));
            false
        },
    }
}

/// Whether property `m` is the first one with its key.
fn is_first_key(props: &Vec<(String, String)>, m: usize) -> (r: bool)
    requires
        m < props@.len(),
    ensures
        r == first_key(props@.map_values(|kv: (String, String)| (kv.0@, kv.1@)), m as int),
{
    let ghost pv = props@.map_values(|kv: (String, String)| (kv.0@, kv.1@));
    match find_key(props, &props[m].0) {
        Some(j) => {
            if j > m {
                assert(pv[m as int].0 != pv[j as int].0);
            }
            j == m
        },
        None => {
            assert(pv[m as int].0 != props@[m as int].0@);
            false
        },
    }
}

/// The parameter at property `m` of section `i`.
fn make_param(d: &IniDocument, i: usize, m: usize) -> (r: IniParameter)
    requires
        i < d@.len(),
        m < d@[i as int].1.len(),
    ensures
        r@ == param_at(d@, i as int, m as int),
{
    let sec = &d.sections[i];
    assert(d@[i as int] == sec@);
    IniParameter {
        section: clone_opt_string(&sec.name),
        property: sec.properties[m].0.clone(),
        value: sec.properties[m].1.clone(),
    }
}

/// The counted entries of `x` whose property `other` lacks, in document order.
fn collect_missing(x: &IniDocument, other: &IniDocument) -> (r: Vec<IniParameter>)
    ensures
        params_view(r@) == missing_upto(x@, other@, x@.len()),
{
    let mut out: Vec<IniParameter> = Vec::new();
    let mut i: usize = 0;
    while i < x.sections.len()
        invariant
            i <= x@.len(),
            x@.len() == x.sections@.len(),
            params_view(out@) == missing_upto(x@, other@, i as nat),
        decreases x@.len() - i,
    {
        let sec = &x.sections[i];
        assert(x@[i as int] == sec@);
        let first = is_first_section(x, i);
        let mut m: usize = 0;
        while m < sec.properties.len()
            invariant
                i < x@.len(),
                x@.len() == x.sections@.len(),
                sec == x.sections@[i as int],
                x@[i as int] == sec@,
                first == first_section(x@, i as int),
                m <= sec.properties@.len(),
                params_view(out@) == missing_upto(x@, other@, i as nat) + missing_in_section(
                    x@,
                    other@,
                    i as int,
                    m as nat,
                ),
            decreases sec.properties@.len() - m,
        {
            let ghost before = params_view(out@);
            let first_k = is_first_key(&sec.properties, m);
            if first && first_k {
                let key = &sec.properties[m].0;
                if lookup(other, &sec.name, key).is_none() {
                    let p = make_param(x, i, m);
                    out.push(p);
                    assert(params_view(out@) =~= before.push(p@));
                }
            }
            m = m + 1;
        }
        i = i + 1;
    }
    out
}

/// The changed pairs of `b` against `a`, in the order of `b`.
fn collect_changed(a: &IniDocument, b: &IniDocument) -> (r: Vec<(IniParameter, IniParameter)>)
    ensures
        pairs_view(r@) == changed_upto(a@, b@, b@.len()),
{
    let mut out: Vec<(IniParameter, IniParameter)> = Vec::new();
    let mut i: usize = 0;
    while i < b.sections.len()
        invariant
            i <= b@.len(),
            b@.len() == b.sections@.len(),
            pairs_view(out@) == changed_upto(a@, b@, i as nat),
        decreases b@.len() - i,
    {
        let sec = &b.sections[i];
        assert(b@[i as int] == sec@);
        let first = is_first_section(b, i);
        let mut m: usize = 0;
        while m < sec.properties.len()
            invariant
                i < b@.len(),
                b@.len() == b.sections@.len(),
                sec == b.sections@[i as int],
                b@[i as int] == sec@,
                first == first_section(b@, i as int),
                m <= sec.properties@.len(),
                pairs_view(out@) == changed_upto(a@, b@, i as nat) + changed_in_section(
                    a@,
                    b@,
                    i as int,
                    m as nat,
                ),
            decreases sec.properties@.len() - m,
        {
            let ghost before = pairs_view(out@);
            let ghost p = param_at(b@, i as int, m as int);
            let first_k = is_first_key(&sec.properties, m);
            if first && first_k {
                let key = &sec.properties[m].0;
                match lookup(a, &sec.name, key) {
                    None => {},
                    Some((ia, ma)) => {
                        let pa = make_param(a, ia, ma);
                        let pb = make_param(b, i, m);
                        proof {
                            assert(has_entry(a@, pa@));
                            let v = value_in(a@, p.0, p.1);
                            let (i2, m2) = choose|i2: int, m2: int|
                                #[trigger] entry_at(a@, i2, m2) && param_at(a@, i2, m2) == (
                                    p.0,
                                    p.1,
                                    v,
                                );
                            lemma_entry_unique(a@, i2, m2, ia as int, ma as int);
                        }
                        if !pa.value.eq(&pb.value) {
                            out.push((pa, pb));
                            assert(pairs_view(out@) =~= before.push((pa@, pb@)));
                        }
                    },
                }
            }
            m = m + 1;
        }
        i = i + 1;
    }
    out
}

impl IniParameter {
    /// A parameter: property `property` of section `section` holds `value`.
    pub fn new(section: Option<String>, property: String, value: String) -> (r: IniParameter)
        ensures
            r@ == (opt_view(section), property@, value@),
    {
        IniParameter { section, property, value }
    }

    pub fn section(&self) -> (r: &Option<String>)
        ensures
            opt_view(*r) == self@.0,
    {
        &self.section
    }

    pub fn property(&self) -> (r: &String)
        ensures
            r@ == self@.1,
    {
        &self.property
    }

    pub fn value(&self) -> (r: &String)
        ensures
            r@ == self@.2,
    {
        &self.value
    }
}

impl IniCompare {
    /// A comparison with no differences.
    pub fn new() -> (r: IniCompare)
        ensures
            r.added@.len() == 0,
            r.deleted@.len() == 0,
            r.updated@.len() == 0,
    {
        IniCompare { updated: Vec::new(), added: Vec::new(), deleted: Vec::new() }
    }

    /// The added parameters as plain values.
    pub open spec fn added_view(&self) -> Seq<ParamView> {
        params_view(self.added@)
    }

    /// The deleted parameters as plain values.
    pub open spec fn deleted_view(&self) -> Seq<ParamView> {
        params_view(self.deleted@)
    }

    /// The updated pairs as plain values.
    pub open spec fn updated_view(&self) -> Seq<(ParamView, ParamView)> {
        pairs_view(self.updated@)
    }
}

/// Compares baseline `a` with candidate `b`: the properties that only `b` has
/// (added, with the value of `b`), those that only `a` has (deleted, with the
/// value of `a`), and those that both have with different values (updated, as
/// a pair of the entry of `a` and that of `b`). A section that only one
/// document has contributes all of its properties.
pub fn compare(a: &IniDocument, b: &IniDocument) -> (r: IniCompare)
    ensures
        is_comparison(a@, b@, r),
{
    let added = collect_missing(b, a);
    let deleted = collect_missing(a, b);
    let updated = collect_changed(a, b);
    proof {
        lemma_missing_upto(b@, a@, b@.len());
        lemma_missing_upto(a@, b@, a@.len());
        lemma_changed_upto(a@, b@, b@.len());
        assert forall|p: ParamView| #[trigger]
            params_view(added@).contains(p) <==> has_entry(b@, p) && !has_property(a@, p.0, p.1) by {
            if has_entry(b@, p) {
                let (i, m) = choose|i: int, m: int| #[trigger]
                    entry_at(b@, i, m) && param_at(b@, i, m) == p;
            }
        }
        assert forall|p: ParamView| #[trigger]
            params_view(deleted@).contains(p) <==> has_entry(a@, p) && !has_property(b@, p.0, p.1) by {
            if has_entry(a@, p) {
                let (i, m) = choose|i: int, m: int| #[trigger]
                    entry_at(a@, i, m) && param_at(a@, i, m) == p;
            }
        }
        assert forall|u: (ParamView, ParamView)| #[trigger]
            pairs_view(updated@).contains(u) <==> {
                &&& u.0.0 == u.1.0
                &&& u.0.1 == u.1.1
                &&& u.0.2 != u.1.2
                &&& has_entry(a@, u.0)
                &&& has_entry(b@, u.1)
            } by {
            if u.0.0 == u.1.0 && u.0.1 == u.1.1 && u.0.2 != u.1.2 && has_entry(a@, u.0) && has_entry(
                b@,
                u.1,
            ) {
                let (i, m) = choose|i: int, m: int| #[trigger]
                    entry_at(b@, i, m) && param_at(b@, i, m) == u.1;
                let (ia, ma) = choose|i: int, m: int| #[trigger]
                    entry_at(a@, i, m) && param_at(a@, i, m) == u.0;
                assert(has_property(a@, u.0.0, u.0.1));
                lemma_value_in(a@, u.0.0, u.0.1);
                lemma_value_unique(a@, u.0, (u.0.0, u.0.1, value_in(a@, u.0.0, u.0.1)));
            }
        }
    }
    IniCompare { updated, added, deleted }
}

/// Parses INI text: `Some` with its sections, in order, where it parses.
pub uninterp spec fn ini_sections_of(text: Seq<char>) -> Option<Seq<SectionView>>;

#[verifier::external_type_specification]
#[verifier::external_body]
pub struct ExIniParseError(ini::ParseError);

/// Relies on `ini::Ini::load_from_str` (default options): the sections of the
/// text, the general one first, each with its properties, in file order.
#[verifier::external_body]
fn load_ini(text: &str) -> (r: Result<IniDocument, ini::ParseError>)
    ensures
        match r {
            Ok(d) => ini_sections_of(text@) == Some(d@),
            Err(_) => ini_sections_of(text@) is None,
        },
{
    ini::Ini::load_from_str(text).map(|doc| IniDocument {
        sections: doc.iter().map(|(name, props)| IniSection {
            name: name.map(|n| n.to_string()),
            properties: props.iter().map(|(k, v)| (k.to_string(), v.to_string())).collect(),
        }).collect(),
    })
}

impl IniDocument {
    /// Parses INI text.
    pub fn parse(text: &str) -> (r: Result<IniDocument, ConfigError>)
        ensures
            match r {
                Ok(d) => ini_sections_of(text@) == Some(d@),
                Err(e) => ini_sections_of(text@) is None && e == ConfigError::Load,
            },
    {
        match load_ini(text) {
            Ok(d) => Ok(d),
            Err(_) => Err(ConfigError::Load),
        }
    }
}

/// Compares the INI text `a` (baseline) with the INI text `b` (candidate).
/// Fails with `Load` exactly where either text does not parse.
pub fn ini_compare(a: &str, b: &str) -> (r: Result<IniCompare, ConfigError>)
    ensures
        match r {
            Ok(c) => ini_sections_of(a@) is Some && ini_sections_of(b@) is Some && is_comparison(
                ini_sections_of(a@)->Some_0,
                ini_sections_of(b@)->Some_0,
                c,
            ),
            Err(e) => e == ConfigError::Load && (ini_sections_of(a@) is None || ini_sections_of(
                b@,
            ) is None),
        },
{
    let da = IniDocument::parse(a)?;
    let db = IniDocument::parse(b)?;
    Ok(compare(&da, &db))
}

/// Some added parameter has section `s` and property `k`.
pub open spec fn in_added(r: IniCompare, s: Option<Seq<char>>, k: Seq<char>) -> bool {
    exists|v: Seq<char>| #[trigger] r.added_view().contains((s, k, v))
}

/// Some deleted parameter has section `s` and property `k`.
pub open spec fn in_deleted(r: IniCompare, s: Option<Seq<char>>, k: Seq<char>) -> bool {
    exists|v: Seq<char>| #[trigger] r.deleted_view().contains((s, k, v))
}

/// Some updated pair has section `s` and property `k`.
pub open spec fn in_updated(r: IniCompare, s: Option<Seq<char>>, k: Seq<char>) -> bool {
    exists|u: (ParamView, ParamView)| #[trigger]
        r.updated_view().contains(u) && u.0.0 == s && u.0.1 == k
}

/// Comparing a document with itself finds no added, deleted or updated property.
pub proof fn law_compare_with_itself(d: Seq<SectionView>, r: IniCompare)
    requires
        is_comparison(d, d, r),
    ensures
        r.added_view().len() == 0,
        r.deleted_view().len() == 0,
        r.updated_view().len() == 0,
{
    if r.added_view().len() > 0 {
        let p = r.added_view()[0];
        assert(r.added_view().contains(p));
        let (i, m) = choose|i: int, m: int| #[trigger] entry_at(d, i, m) && param_at(d, i, m) == p;
    }
    if r.deleted_view().len() > 0 {
        let p = r.deleted_view()[0];
        assert(r.deleted_view().contains(p));
        let (i, m) = choose|i: int, m: int| #[trigger] entry_at(d, i, m) && param_at(d, i, m) == p;
    }
    if r.updated_view().len() > 0 {
        let u = r.updated_view()[0];
        assert(r.updated_view().contains(u));
        lemma_value_unique(d, u.0, u.1);
    }
}

/// A property that either document has lands in at most one of added,
/// deleted and updated, and in none exactly where both documents give it the
/// same value.
pub proof fn law_partition(
    a: Seq<SectionView>,
    b: Seq<SectionView>,
    r: IniCompare,
    s: Option<Seq<char>>,
    k: Seq<char>,
)
    requires
        is_comparison(a, b, r),
        has_property(a, s, k) || has_property(b, s, k),
    ensures
        !(in_added(r, s, k) && in_deleted(r, s, k)),
        !(in_added(r, s, k) && in_updated(r, s, k)),
        !(in_deleted(r, s, k) && in_updated(r, s, k)),
        (!in_added(r, s, k) && !in_deleted(r, s, k) && !in_updated(r, s, k)) <==> (exists|
            v: Seq<char>,
        | has_entry(a, (s, k, v)) && has_entry(b, (s, k, v))),
{
    if in_added(r, s, k) {
        let v = choose|v: Seq<char>| #[trigger] r.added_view().contains((s, k, v));
        assert(!has_property(a, s, k));
    }
    if in_deleted(r, s, k) {
        let v = choose|v: Seq<char>| #[trigger] r.deleted_view().contains((s, k, v));
        assert(!has_property(b, s, k));
    }
    if in_updated(r, s, k) {
        let u = choose|u: (ParamView, ParamView)| #[trigger]
            r.updated_view().contains(u) && u.0.0 == s && u.0.1 == k;
        let (i, m) = choose|i: int, m: int| #[trigger] entry_at(a, i, m) && param_at(a, i, m) == u.0;
        let (i2, m2) = choose|i: int, m: int| #[trigger] entry_at(b, i, m) && param_at(b, i, m) == u.1;
        assert(has_property(a, s, k));
        assert(has_property(b, s, k));
        if exists|v: Seq<char>| has_entry(a, (s, k, v)) && has_entry(b, (s, k, v)) {
            let v = choose|v: Seq<char>| has_entry(a, (s, k, v)) && has_entry(b, (s, k, v));
            lemma_value_unique(a, u.0, (s, k, v));
            lemma_value_unique(b, u.1, (s, k, v));
        }
    }
    if exists|v: Seq<char>| has_entry(a, (s, k, v)) && has_entry(b, (s, k, v)) {
        let v = choose|v: Seq<char>| has_entry(a, (s, k, v)) && has_entry(b, (s, k, v));
        let (i, m) = choose|i: int, m: int| #[trigger] entry_at(a, i, m) && param_at(a, i, m) == (s, k, v);
        let (i2, m2) = choose|i: int, m: int| #[trigger] entry_at(b, i, m) && param_at(b, i, m) == (s, k, v);
        assert(has_property(a, s, k));
        assert(has_property(b, s, k));
    } else {
        if has_property(a, s, k) {
            lemma_value_in(a, s, k);
        }
        if has_property(b, s, k) {
            lemma_value_in(b, s, k);
        }
        if has_property(a, s, k) && !has_property(b, s, k) {
            assert(r.deleted_view().contains((s, k, value_in(a, s, k))));
        } else if !has_property(a, s, k) && has_property(b, s, k) {
            assert(r.added_view().contains((s, k, value_in(b, s, k))));
        } else {
            let u = ((s, k, value_in(a, s, k)), (s, k, value_in(b, s, k)));
            assert(r.updated_view().contains(u));
        }
    }
}

/// Every property of a section that only the candidate has is added, with the
/// candidate's value, and nothing of that section is deleted or updated.
pub proof fn law_new_section_is_added(
    a: Seq<SectionView>,
    b: Seq<SectionView>,
    r: IniCompare,
    p: ParamView,
)
    requires
        is_comparison(a, b, r),
        forall|i: int| 0 <= i < a.len() ==> #[trigger] a[i].0 != p.0,
        has_entry(b, p),
    ensures
        r.added_view().contains(p),
        forall|q: ParamView| #[trigger] r.deleted_view().contains(q) ==> q.0 != p.0,
        forall|u: (ParamView, ParamView)| #[trigger] r.updated_view().contains(u) ==> u.0.0 != p.0
            && u.1.0 != p.0,
{
    assert(!has_property(a, p.0, p.1));
    assert forall|q: ParamView| #[trigger] r.deleted_view().contains(q) implies q.0 != p.0 by {
        let (i, m) = choose|i: int, m: int| #[trigger] entry_at(a, i, m) && param_at(a, i, m) == q;
    }
    assert forall|u: (ParamView, ParamView)| #[trigger] r.updated_view().contains(u) implies u.0.0
        != p.0 && u.1.0 != p.0 by {
        let (i, m) = choose|i: int, m: int| #[trigger] entry_at(a, i, m) && param_at(a, i, m) == u.0;
    }
}

/// An updated pair keeps its section and property and changes its value.
pub proof fn law_updates_change_values_only(
    a: Seq<SectionView>,
    b: Seq<SectionView>,
    r: IniCompare,
    u: (ParamView, ParamView),
)
    requires
        is_comparison(a, b, r),
        r.updated_view().contains(u),
    ensures
        u.0.0 == u.1.0,
        u.0.1 == u.1.1,
        u.0.2 != u.1.2,
{
}

} // verus!
