//! Parsing the `DEBUG` pattern list and matching namespaces against patterns.
use vstd::prelude::*;
use crate::text::{push_string, has_prefix, is_unicode_whitespace, is_whitespace, push_char, starts_with, str_eq};

verus! {

/// Characters that separate the entries of a pattern list.
pub open spec fn is_separator(c: char) -> bool {
    c == ',' || is_unicode_whitespace(c)
}

/// The fields of `s` between separators, empty ones included (what
/// `str::split` yields): `k` separators give `k + 1` fields.
pub open spec fn fields(s: Seq<char>) -> Seq<Seq<char>>
    decreases s.len(),
{
    if s.len() == 0 {
        seq![Seq::<char>::empty()]
    } else {
        let f = fields(s.drop_last());
        if is_separator(s.last()) {
            f.push(Seq::<char>::empty())
        } else {
            f.update(f.len() - 1, f.last().push(s.last()))
        }
    }
}

/// A non-empty field that does not start with `-` is an inclusion.
pub open spec fn is_inclusion(f: Seq<char>) -> bool {
    f.len() > 0 && f[0] != '-'
}

/// A field that starts with `-` is an exclusion of the rest of the field.
pub open spec fn is_exclusion(f: Seq<char>) -> bool {
    f.len() > 0 && f[0] == '-'
}

/// The inclusions among `fs`, in order.
pub open spec fn inclusions(fs: Seq<Seq<char>>) -> Seq<Seq<char>>
    decreases fs.len(),
{
    if fs.len() == 0 {
        Seq::empty()
    } else {
        let r = inclusions(fs.drop_last());
        if is_inclusion(fs.last()) { r.push(fs.last()) } else { r }
    }
}

/// The excluded patterns among `fs` (without their `-`), in order.
pub open spec fn exclusions(fs: Seq<Seq<char>>) -> Seq<Seq<char>>
    decreases fs.len(),
{
    if fs.len() == 0 {
        Seq::empty()
    } else {
        let r = exclusions(fs.drop_last());
        if is_exclusion(fs.last()) { r.push(fs.last().drop_first()) } else { r }
    }
}

/// Whether namespace `name` matches `pattern`: `*` matches everything,
/// `prefix*` matches names that start with `prefix`, anything else matches
/// only itself.
pub open spec fn pattern_match(pattern: Seq<char>, name: Seq<char>) -> bool {
    if pattern == seq!['*'] {
        true
    } else if pattern.len() > 0 && pattern.last() == '*' {
        has_prefix(name, pattern.drop_last())
    } else {
        pattern == name
    }
}

/// Some pattern of `patterns` matches `name`.
pub open spec fn any_match(patterns: Seq<Seq<char>>, name: Seq<char>) -> bool {
    exists|i: int| 0 <= i < patterns.len() && pattern_match(#[trigger] patterns[i], name)
}

/// `*` matches every namespace, the empty one included.
pub proof fn lemma_star_matches_everything(name: Seq<char>)
    ensures
        pattern_match(seq!['*'], name),
{
}

/// `prefix*` matches exactly the namespaces that start with `prefix`.
pub proof fn lemma_prefix_pattern(prefix: Seq<char>, name: Seq<char>)
    ensures
        pattern_match(prefix.push('*'), name) == has_prefix(name, prefix),
{
    let p = prefix.push('*');
    assert(p.drop_last() =~= prefix);
    if p == seq!['*'] {
        assert(prefix.len() == 0);
        assert(name.subrange(0, 0) =~= prefix);
    }
}

/// A pattern that does not end in `*` matches only the namespace equal to it.
pub proof fn lemma_exact_pattern(pattern: Seq<char>, name: Seq<char>)
    requires
        pattern.len() == 0 || pattern.last() != '*',
    ensures
        pattern_match(pattern, name) == (pattern == name),
{
}

/// Whether `name` matches `pattern` (see [`pattern_match`]).
pub fn pattern_matches(pattern: &str, name: &str) -> (r: bool)
    ensures
        r == pattern_match(pattern@, name@),
{
    let n = pattern.unicode_len();
    if n == 1 && pattern.get_char(0) == '*' {
        assert(pattern@ =~= seq!['*']);
        return true;
    }
    if n > 0 && pattern.get_char(n - 1) == '*' {
        let prefix = pattern.substring_char(0, n - 1);
        assert(prefix@ =~= pattern@.drop_last());
        return starts_with(name, prefix);
    }
    str_eq(pattern, name)
}

/// Some pattern of `patterns` matches `name`.
pub fn matches_any(patterns: &Vec<String>, name: &str) -> (r: bool)
    ensures
        r == any_match(patterns.deep_view(), name@),
{
    let mut i: usize = 0;
    while i < patterns.len()
        invariant
            i <= patterns.len(),
            forall|k: int| 0 <= k < i ==> !pattern_match(#[trigger] patterns.deep_view()[k], name@),
        decreases patterns.len() - i,
    {
        if pattern_matches(patterns[i].as_str(), name) {
            assert(pattern_match(patterns.deep_view()[i as int], name@));
            return true;
        }
        i = i + 1;
    }
    false
}

proof fn lemma_fields_nonempty(s: Seq<char>)
    ensures
        fields(s).len() >= 1,
    decreases s.len(),
{
    if s.len() > 0 {
        lemma_fields_nonempty(s.drop_last());
    }
}

/// Files `field` under the inclusions or the exclusions.
fn classify_field(field: String, includes: &mut Vec<String>, excludes: &mut Vec<String>)
    ensures
        final(includes).deep_view() == (if is_inclusion(field@) { old(includes).deep_view().push(field@) } else { old(includes).deep_view() }),
        final(excludes).deep_view() == (if is_exclusion(field@) { old(excludes).deep_view().push(field@.drop_first()) } else { old(excludes).deep_view() }),
{
    let n = field.as_str().unicode_len();
    if n == 0 {
        return;
    }
    if field.as_str().get_char(0) == '-' {
        let rest = field.as_str().substring_char(1, n);
        assert(rest@ =~= field@.drop_first());
        push_string(excludes, String::from_str(rest));
    } else {
        push_string(includes, field);
    }
}

/// Splits a `DEBUG` value at commas and whitespace into inclusion patterns
/// and exclusion patterns (those written with a leading `-`, returned
/// without it). Empty entries are skipped; order is kept.
pub fn parse_debug_patterns(env: &str) -> (r: (Vec<String>, Vec<String>))
    ensures
        r.0.deep_view() == inclusions(fields(env@)),
        r.1.deep_view() == exclusions(fields(env@)),
{
    let mut includes: Vec<String> = Vec::new();
    let mut excludes: Vec<String> = Vec::new();
    let mut current = String::new();
    let n = env.unicode_len();
    let mut i: usize = 0;
    assert(env@.subrange(0, 0) =~= Seq::<char>::empty());
    while i < n
        invariant
            n == env@.len(),
            i <= n,
            fields(env@.subrange(0, i as int)).len() >= 1,
            current@ == fields(env@.subrange(0, i as int)).last(),
            includes.deep_view() == inclusions(fields(env@.subrange(0, i as int)).drop_last()),
            excludes.deep_view() == exclusions(fields(env@.subrange(0, i as int)).drop_last()),
        decreases n - i,
    {
        let c = env.get_char(i);
        let ghost prev = env@.subrange(0, i as int);
        let ghost next = env@.subrange(0, i + 1);
        assert(next.drop_last() =~= prev);
        assert(next.last() == c);
        proof {
            lemma_fields_nonempty(prev);
        }
        if c == ',' || is_whitespace(c) {
            let field = current;
            current = String::new();
            assert(fields(next).drop_last() =~= fields(prev));
            assert(fields(prev) =~= fields(prev).drop_last().push(field@));
            classify_field(field, &mut includes, &mut excludes);
        } else {
            push_char(&mut current, c);
            assert(fields(next).drop_last() =~= fields(prev).drop_last());
        }
        i = i + 1;
    }
    assert(env@.subrange(0, n as int) =~= env@);
    let ghost fs = fields(env@);
    assert(fs =~= fs.drop_last().push(current@));
    classify_field(current, &mut includes, &mut excludes);
    (includes, excludes)
}

} // verus!
