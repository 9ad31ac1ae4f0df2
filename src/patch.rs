//! Reverting a candidate configuration text to baseline values.
//!
//! Patching is textual: for each updated pair whose property is not
//! protected, every occurrence of `property = new value` in the whole text
//! (whatever its section) becomes `property = old value`. Text written in
//! another form (other spacing around `=`) is left as it is. Being textual,
//! a `property = value` line that is equal in two sections is reverted in
//! both; in exchange the text keeps its comments and layout untouched.

use vstd::prelude::*;
use crate::config::{IniCompare, ParamView};

verus! {

/// `from` occurs in `s` at position `j`.
pub open spec fn occurs_at(s: Seq<char>, from: Seq<char>, j: int) -> bool {
    0 <= j && j + from.len() <= s.len() && s.subrange(j, j + from.len()) == from
}

/// `s` with each occurrence of `from`, scanning from the left and without
/// overlaps, replaced by `to`. An empty `from` matches before each character
/// and at the end.
pub open spec fn replace_all(s: Seq<char>, from: Seq<char>, to: Seq<char>) -> Seq<char>
    decreases s.len(),
{
    if from.len() == 0 {
        if s.len() == 0 {
            to
        } else {
            to + seq![s[0]] + replace_all(s.drop_first(), from, to)
        }
    } else if s.len() < from.len() {
        s
    } else if s.subrange(0, from.len() as int) == from {
        to + replace_all(s.subrange(from.len() as int, s.len() as int), from, to)
    } else {
        seq![s[0]] + replace_all(s.drop_first(), from, to)
    }
}

/// The text `property = value` of a parameter.
pub open spec fn literal(p: ParamView) -> Seq<char> {
    p.1 + seq![' ', '=', ' '] + p.2
}

/// `text` after reverting, in order, each updated pair whose property is not
/// protected.
pub open spec fn patch_text(
    text: Seq<char>,
    updated: Seq<(ParamView, ParamView)>,
    protected: Seq<Seq<char>>,
) -> Seq<char>
    decreases updated.len(),
{
    if updated.len() == 0 {
        text
    } else {
        let t = patch_text(text, updated.drop_last(), protected);
        let u = updated.last();
        if protected.contains(u.1.1) {
            t
        } else {
            replace_all(t, literal(u.1), literal(u.0))
        }
    }
}

/// The characters of `s`.
pub(crate) fn chars_of(s: &str) -> (r: Vec<char>)
    ensures
        r@ == s@,
{
    let n = s.unicode_len();
    let mut out: Vec<char> = Vec::new();
    let mut i: usize = 0;
    while i < n
        invariant
            n == s@.len(),
            i <= n,
            out@ == s@.subrange(0, i as int),
        decreases n - i,
    {
        out.push(s.get_char(i));
        i = i + 1;
        assert(out@ =~= s@.subrange(0, i as int));
    }
    assert(out@ =~= s@);
    out
}

/// Appends the characters of `src` to `dst`.
pub(crate) fn extend(dst: &mut Vec<char>, src: &Vec<char>)
    ensures
        final(dst)@ == old(dst)@ + src@,
{
    let mut i: usize = 0;
    while i < src.len()
        invariant
            i <= src@.len(),
            dst@ == old(dst)@ + src@.subrange(0, i as int),
        decreases src@.len() - i,
    {
        dst.push(src[i]);
        i = i + 1;
        assert(dst@ =~= old(dst)@ + src@.subrange(0, i as int));
    }
    assert(src@.subrange(0, src@.len() as int) =~= src@);
}

/// The characters of `property = value` for a parameter's property and value.
fn literal_chars(property: &String, value: &String) -> (r: Vec<char>)
    ensures
        r@ == property@ + seq![' ', '=', ' '] + value@,
{
    let mut out = chars_of(property.as_str());
    out.push(' ');
    out.push('=');
    out.push(' ');
    let v = chars_of(value.as_str());
    extend(&mut out, &v);
    assert(out@ =~= property@ + seq![' ', '=', ' '] + value@);
    out
}

/// Whether `from` occurs in `s` at position `i`.
fn matches_at(s: &Vec<char>, from: &Vec<char>, i: usize) -> (r: bool)
    requires
        i + from@.len() <= s@.len(),
    ensures
        r == (s@.subrange(i as int, i + from@.len()) == from@),
{
    let sl = s.len();
    let mut k: usize = 0;
    while k < from.len()
        invariant
            sl == s@.len(),
            i + from@.len() <= s@.len(),
            k <= from@.len(),
            forall|j: int| 0 <= j < k ==> s@[i + j] == from@[j],
        decreases from@.len() - k,
    {
        if s[i + k] != from[k] {
            assert(s@.subrange(i as int, i + from@.len())[k as int] != from@[k as int]);
            return false;
        }
        k = k + 1;
    }
    assert(s@.subrange(i as int, i + from@.len()) =~= from@);
    true
}

/// Puts `to` before each character of `s` and at its end.
fn interleave_chars(s: &Vec<char>, to: &Vec<char>) -> (r: Vec<char>)
    ensures
        r@ == replace_all(s@, Seq::<char>::empty(), to@),
{
    let ghost e = Seq::<char>::empty();
    let n = s.len();
    let mut out: Vec<char> = Vec::new();
    let mut i: usize = 0;
    assert(s@.subrange(0, n as int) =~= s@);
    assert(out@ + replace_all(s@, e, to@) =~= replace_all(s@, e, to@));
    while i < n
        invariant
            n == s@.len(),
            i <= n,
            e == Seq::<char>::empty(),
            out@ + replace_all(s@.subrange(i as int, n as int), e, to@) == replace_all(s@, e, to@),
        decreases n - i,
    {
        let ghost rest = s@.subrange(i as int, n as int);
        let ghost before = out@;
        assert(rest.drop_first() =~= s@.subrange(i + 1, n as int));
        assert(rest.len() > 0);
        assert(e.len() == 0);
        assert(rest[0] == s@[i as int]);
        assert(replace_all(rest, e, to@) == to@ + seq![rest[0]] + replace_all(rest.drop_first(), e, to@));
        extend(&mut out, to);
        out.push(s[i]);
        i = i + 1;
        assert(before + replace_all(rest, e, to@) =~= out@ + replace_all(
            s@.subrange(i as int, n as int),
            e,
            to@,
        ));
    }
    assert(s@.subrange(n as int, n as int) =~= e);
    extend(&mut out, to);
    out
}

/// Replaces each occurrence of `from` in `s`, from the left, by `to`.
pub(crate) fn replace_chars(s: &Vec<char>, from: &Vec<char>, to: &Vec<char>) -> (r: Vec<char>)
    ensures
        r@ == replace_all(s@, from@, to@),
{
    if from.len() == 0 {
        assert(from@ =~= Seq::<char>::empty());
        return interleave_chars(s, to);
    }
    let n = s.len();
    let mut out: Vec<char> = Vec::new();
    let mut i: usize = 0;
    assert(s@.subrange(0, n as int) =~= s@);
    assert(out@ + s@ =~= s@);
    while i < n
        invariant
            n == s@.len(),
            from@.len() > 0,
            i <= n,
            out@ + replace_all(s@.subrange(i as int, n as int), from@, to@) == replace_all(
                s@,
                from@,
                to@,
            ),
        decreases n - i,
    {
        let ghost rest = s@.subrange(i as int, n as int);
        let ghost before = out@;
        if n - i >= from.len() && matches_at(s, from, i) {
            assert(rest.subrange(0, from@.len() as int) =~= s@.subrange(i as int, i + from@.len()));
            assert(rest.subrange(from@.len() as int, rest.len() as int) =~= s@.subrange(
                i + from@.len(),
                n as int,
            ));
            extend(&mut out, to);
            i = i + from.len();
            assert(before + replace_all(rest, from@, to@) =~= out@ + replace_all(
                s@.subrange(i as int, n as int),
                from@,
                to@,
            ));
        } else {
            proof {
                if n - i >= from@.len() {
                    assert(rest.subrange(0, from@.len() as int) =~= s@.subrange(
                        i as int,
                        i + from@.len(),
                    ));
                }
            }
            assert(rest.drop_first() =~= s@.subrange(i + 1, n as int));
            out.push(s[i]);
            i = i + 1;
            proof {
                if rest.len() < from@.len() {
                    assert(replace_all(rest.drop_first(), from@, to@) == rest.drop_first());
                    assert(seq![rest[0]] + rest.drop_first() =~= rest);
                }
            }
            assert(before + replace_all(rest, from@, to@) =~= out@ + replace_all(
                s@.subrange(i as int, n as int),
                from@,
                to@,
            ));
        }
    }
    assert(s@.subrange(n as int, n as int) =~= Seq::<char>::empty());
    assert(out@ + Seq::<char>::empty() =~= out@);
    out
}

/// A string of the characters `s`.
pub(crate) fn string_of(s: &Vec<char>) -> (r: String)
    ensures
        r@ == s@,
{
    let mut out = String::new();
    let mut i: usize = 0;
    while i < s.len()
        invariant
            i <= s@.len(),
            out@ == s@.subrange(0, i as int),
        decreases s@.len() - i,
    {
        push_char(&mut out, s[i]);
        i = i + 1;
        assert(out@ =~= s@.subrange(0, i as int));
    }
    assert(out@ =~= s@);
    out
}

/// Relies on `String::push`: the character is appended at the end.
#[verifier::external_body]
pub(crate) fn push_char(s: &mut String, c: char)
    ensures
        final(s)@ == old(s)@.push(c),
{
    s.push(c);
}

/// Whether `name` is one of `names`.
fn contains_name(names: &Vec<String>, name: &String) -> (r: bool)
    ensures
        r == names@.map_values(|p: String| p@).contains(name@),
{
    let ghost nv = names@.map_values(|p: String| p@);
    let mut i: usize = 0;
    while i < names.len()
        invariant
            i <= names@.len(),
            nv == names@.map_values(|p: String| p@),
            forall|j: int| 0 <= j < i ==> nv[j] != name@,
        decreases names@.len() - i,
    {
        if names[i].eq(name) {
            assert(nv[i as int] == name@);
            return true;
        }
        i = i + 1;
    }
    false
}

/// Reverts in `text` each updated pair of `comparison` whose property is not in
/// `protected`: every `property = new value` becomes `property = old value`.
/// Added and deleted properties are left alone.
pub fn apply_patch(text: &str, comparison: &IniCompare, protected: &Vec<String>) -> (r: String)
    ensures
        r@ == patch_text(
            text@,
            comparison.updated_view(),
            protected@.map_values(|p: String| p@),
        ),
{
    let ghost updated = comparison.updated_view();
    let ghost prot = protected@.map_values(|p: String| p@);
    let mut cur = chars_of(text);
    let mut j: usize = 0;
    while j < comparison.updated.len()
        invariant
            j <= updated.len(),
            updated == comparison.updated_view(),
            updated.len() == comparison.updated@.len(),
            prot == protected@.map_values(|p: String| p@),
            cur@ == patch_text(text@, updated.subrange(0, j as int), prot),
        decreases updated.len() - j,
    {
        let pair = &comparison.updated[j];
        assert(updated[j as int] == (pair.0@, pair.1@));
        assert(updated.subrange(0, j + 1).drop_last() =~= updated.subrange(0, j as int));
        if !contains_name(protected, pair.1.property()) {
            let from = literal_chars(pair.1.property(), pair.1.value());
            let to = literal_chars(pair.0.property(), pair.0.value());
            cur = replace_chars(&cur, &from, &to);
        }
        j = j + 1;
    }
    assert(updated.subrange(0, updated.len() as int) =~= updated);
    string_of(&cur)
}

/// The properties whose candidate value is kept by `ini_update_text`.
pub fn default_protected_properties() -> (r: Vec<String>)
    ensures
        r@.map_values(|p: String| p@) == seq!["config_file_version"@],
{
    let mut r: Vec<String> = Vec::new();
    r.push(String::from_str("config_file_version"));
    assert(r@.map_values(|p: String| p@) =~= seq!["config_file_version"@]);
    r
}

/// Reverts `text` with the updated pairs of `comparison`, keeping the
/// candidate value of the default protected properties.
pub fn ini_update_text(text: &str, comparison: &IniCompare) -> (r: String)
    ensures
        r@ == patch_text(text@, comparison.updated_view(), seq!["config_file_version"@]),
{
    let protected = default_protected_properties();
    apply_patch(text, comparison, &protected)
}

/// Where `from` occurs nowhere in `s`, replacing leaves `s` as it is.
proof fn lemma_replace_absent(s: Seq<char>, from: Seq<char>, to: Seq<char>)
    requires
        from.len() > 0,
        forall|j: int| !#[trigger] occurs_at(s, from, j),
    ensures
        replace_all(s, from, to) == s,
    decreases s.len(),
{
    if s.len() >= from.len() {
        assert(!occurs_at(s, from, 0));
        let t = s.drop_first();
        assert forall|j: int| !#[trigger] occurs_at(t, from, j) by {
            if occurs_at(t, from, j) {
                assert(s.subrange(j + 1, j + 1 + from.len()) =~= t.subrange(j, j + from.len()));
                assert(occurs_at(s, from, j + 1));
            }
        }
        lemma_replace_absent(t, from, to);
        assert(seq![s[0]] + t =~= s);
    }
}

/// Where `from` occurs in `pre + from + post` only after `pre`, replacing puts
/// `to` in its place.
proof fn lemma_replace_single(pre: Seq<char>, from: Seq<char>, post: Seq<char>, to: Seq<char>)
    requires
        from.len() > 0,
        forall|j: int| #[trigger] occurs_at(pre + from + post, from, j) ==> j == pre.len(),
    ensures
        replace_all(pre + from + post, from, to) == pre + to + post,
    decreases pre.len(),
{
    let s = pre + from + post;
    if pre.len() == 0 {
        assert(s.subrange(0, from.len() as int) =~= from);
        assert(s.subrange(from.len() as int, s.len() as int) =~= post);
        assert forall|j: int| !#[trigger] occurs_at(post, from, j) by {
            if occurs_at(post, from, j) {
                assert(s.subrange(from.len() + j, from.len() + j + from.len()) =~= post.subrange(
                    j,
                    j + from.len(),
                ));
                assert(occurs_at(s, from, from.len() + j));
            }
        }
        lemma_replace_absent(post, from, to);
        assert(pre + to + post =~= to + post);
    } else {
        assert(!occurs_at(s, from, 0));
        let pre2 = pre.drop_first();
        assert(s.drop_first() =~= pre2 + from + post);
        assert forall|j: int| #[trigger] occurs_at(pre2 + from + post, from, j) implies j
            == pre2.len() by {
            assert(s.subrange(j + 1, j + 1 + from.len()) =~= (pre2 + from + post).subrange(
                j,
                j + from.len(),
            ));
            assert(occurs_at(s, from, j + 1));
        }
        lemma_replace_single(pre2, from, post, to);
        assert(seq![s[0]] + (pre2 + to + post) =~= pre + to + post);
    }
}

/// Pairs whose property is protected change nothing: patching with all the
/// pairs gives the text that patching with the unprotected ones alone gives.
pub proof fn law_protected_pairs_are_kept(
    text: Seq<char>,
    updated: Seq<(ParamView, ParamView)>,
    protected: Seq<Seq<char>>,
)
    ensures
        patch_text(text, updated, protected) == patch_text(
            text,
            updated.filter(|u: (ParamView, ParamView)| !protected.contains(u.1.1)),
            protected,
        ),
    decreases updated.len(),
{
    let keep = |u: (ParamView, ParamView)| !protected.contains(u.1.1);
    if updated.len() > 0 {
        law_protected_pairs_are_kept(text, updated.drop_last(), protected);
        let f = updated.drop_last().filter(keep);
        updated.drop_last().lemma_filter_push(updated.last(), keep);
        assert(updated.drop_last().push(updated.last()) =~= updated);
        if keep(updated.last()) {
            assert(updated.filter(keep) == f.push(updated.last()));
            assert(f.push(updated.last()).drop_last() =~= f);
        } else {
            assert(updated.filter(keep) == f);
        }
    }
}

/// Where every updated pair is protected, the text comes back unchanged: each
/// `property = new value` it holds stays.
pub proof fn law_all_protected_keeps_text(
    text: Seq<char>,
    updated: Seq<(ParamView, ParamView)>,
    protected: Seq<Seq<char>>,
)
    requires
        forall|i: int| 0 <= i < updated.len() ==> protected.contains(#[trigger] updated[i].1.1),
    ensures
        patch_text(text, updated, protected) == text,
    decreases updated.len(),
{
    if updated.len() > 0 {
        assert(protected.contains(updated[updated.len() - 1].1.1));
        law_all_protected_keeps_text(text, updated.drop_last(), protected);
    }
}

/// For an unprotected pair whose `property = new value` occurs exactly once in
/// the text, patching puts `property = old value` in its place.
pub proof fn law_unprotected_pair_reverts(
    pre: Seq<char>,
    post: Seq<char>,
    u: (ParamView, ParamView),
    protected: Seq<Seq<char>>,
)
    requires
        !protected.contains(u.1.1),
        forall|j: int| #[trigger]
            occurs_at(pre + literal(u.1) + post, literal(u.1), j) ==> j == pre.len(),
    ensures
        patch_text(pre + literal(u.1) + post, seq![u], protected) == pre + literal(u.0) + post,
{
    let text = pre + literal(u.1) + post;
    assert(seq![u].drop_last() =~= Seq::<(ParamView, ParamView)>::empty());
    assert(patch_text(text, Seq::<(ParamView, ParamView)>::empty(), protected) == text);
    lemma_replace_single(pre, literal(u.1), post, literal(u.0));
}

} // verus!
