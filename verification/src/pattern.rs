//! Wildcard search patterns.
//!
//! A pattern uses `*` as a multi-character wildcard. It is split on the
//! asterisks into literal parts; a name matches when it starts with the
//! first part, ends with the last part, and contains every interior part
//! (empty parts impose no condition). A pattern without `*` demands the
//! exact name, and the empty pattern matches everything.

use vstd::prelude::*;

use crate::chars::str_chars;

verus! {

/// The literal parts of a pattern: the pieces between the asterisks, in
/// order. There is always at least one part; `n` asterisks give `n + 1`
/// parts.
pub open spec fn split_star(s: Seq<char>) -> Seq<Seq<char>>
    decreases s.len(),
{
    if s.len() == 0 {
        seq![Seq::<char>::empty()]
    } else if s[0] == '*' {
        seq![Seq::<char>::empty()] + split_star(s.drop_first())
    } else {
        let rest = split_star(s.drop_first());
        seq![seq![s[0]] + rest[0]] + rest.drop_first()
    }
}

pub proof fn lemma_split_star_len(s: Seq<char>)
    ensures
        split_star(s).len() >= 1,
    decreases s.len(),
{
    if s.len() != 0 {
        lemma_split_star_len(s.drop_first());
    }
}

/// Appending one character extends the last part, or opens a fresh empty
/// part when the character is the wildcard.
pub proof fn lemma_split_star_push(s: Seq<char>, c: char)
    ensures
        c == '*' ==> split_star(s.push(c)) =~~= split_star(s).push(Seq::<char>::empty()),
        c != '*' ==> split_star(s.push(c)) =~~= split_star(s).drop_last().push(
            split_star(s).last().push(c),
        ),
    decreases s.len(),
{
    lemma_split_star_len(s);
    if s.len() == 0 {
        assert(s.push(c).drop_first() =~= Seq::<char>::empty());
        assert(split_star(Seq::<char>::empty()) =~~= seq![Seq::<char>::empty()]);
        if c != '*' {
            assert(split_star(s.push(c)) =~~= seq![seq![c]]);
            assert(split_star(s).drop_last().push(split_star(s).last().push(c)) =~~= seq![
                seq![c],
            ]);
        }
    } else {
        let t = s.drop_first();
        lemma_split_star_len(t);
        lemma_split_star_push(t, c);
        assert(s.push(c).drop_first() =~= t.push(c));
        assert(s.push(c)[0] == s[0]);
        let r = split_star(t);
        let rp = split_star(t.push(c));
        if s[0] == '*' {
            assert(split_star(s) =~~= seq![Seq::<char>::empty()] + r);
            assert(split_star(s.push(c)) =~~= seq![Seq::<char>::empty()] + rp);
            if c == '*' {
                assert(seq![Seq::<char>::empty()] + r.push(Seq::<char>::empty()) =~~= (seq![
                    Seq::<char>::empty(),
                ] + r).push(Seq::<char>::empty()));
            } else {
                assert(seq![Seq::<char>::empty()] + r.drop_last().push(r.last().push(c)) =~~= (
                seq![Seq::<char>::empty()] + r).drop_last().push(
                    (seq![Seq::<char>::empty()] + r).last().push(c),
                ));
            }
        } else {
            assert(split_star(s) =~~= seq![seq![s[0]] + r[0]] + r.drop_first());
            assert(split_star(s.push(c)) =~~= seq![seq![s[0]] + rp[0]] + rp.drop_first());
            if c == '*' {
                assert(rp =~~= r.push(Seq::<char>::empty()));
                assert(rp[0] == r[0]);
                assert(seq![seq![s[0]] + r[0]] + r.push(Seq::<char>::empty()).drop_first() =~~= (
                seq![seq![s[0]] + r[0]] + r.drop_first()).push(Seq::<char>::empty()));
            } else {
                assert(rp =~~= r.drop_last().push(r.last().push(c)));
                if r.len() == 1 {
                    assert(rp[0] == r[0].push(c));
                    assert(split_star(s.push(c)) =~~= seq![seq![s[0]] + r[0].push(c)]);
                    assert(split_star(s).drop_last().push(split_star(s).last().push(c)) =~~= seq![
                        (seq![s[0]] + r[0]).push(c),
                    ]);
                    assert(seq![s[0]] + r[0].push(c) =~= (seq![s[0]] + r[0]).push(c));
                } else {
                    assert(rp[0] == r[0]);
                    assert(split_star(s.push(c)) =~~= split_star(s).drop_last().push(
                        split_star(s).last().push(c),
                    ));
                }
            }
        }
    }
}

/// `p` stands at the front of `name`.
pub open spec fn has_prefix(name: Seq<char>, p: Seq<char>) -> bool {
    p.len() <= name.len() && name.subrange(0, p.len() as int) == p
}

/// `p` stands at the end of `name`.
pub open spec fn has_suffix(name: Seq<char>, p: Seq<char>) -> bool {
    p.len() <= name.len() && name.subrange(name.len() - p.len(), name.len() as int) == p
}

/// `p` stands somewhere inside `name`.
pub open spec fn contains_seq(name: Seq<char>, p: Seq<char>) -> bool {
    exists|k: int| 0 <= k <= name.len() - p.len() && #[trigger] name.subrange(k, k + p.len()) == p
}

/// What the parts of a pattern demand of a name. A single part is the
/// whole pattern and demands the exact name; several parts demand the
/// first as a prefix, the last as a suffix, and every nonempty interior
/// part somewhere inside.
pub open spec fn parts_match(parts: Seq<Seq<char>>, name: Seq<char>) -> bool
    recommends
        parts.len() >= 1,
{
    if parts.len() == 1 {
        name == parts[0]
    } else {
        (parts[0].len() == 0 || has_prefix(name, parts[0])) && (parts.last().len() == 0
            || has_suffix(name, parts.last())) && (forall|i: int|
            1 <= i < parts.len() - 1 && parts[i].len() > 0 ==> contains_seq(name, parts[i]))
    }
}

/// Whether a name satisfies a wildcard pattern; the empty pattern matches
/// every name.
pub open spec fn pattern_matches(pattern: Seq<char>, name: Seq<char>) -> bool {
    pattern.len() == 0 || parts_match(split_star(pattern), name)
}

/// The contents of executable parts, as a sequence of character sequences.
pub open spec fn part_views(parts: Seq<Vec<char>>) -> Seq<Seq<char>> {
    parts.map_values(|p: Vec<char>| p@)
}

/// A pattern without wildcards splits into itself alone.
pub proof fn lemma_split_star_single(s: Seq<char>)
    ensures
        split_star(s).len() == 1 ==> split_star(s)[0] == s,
    decreases s.len(),
{
    if s.len() == 0 {
        assert(split_star(s)[0] =~= s);
    } else if s[0] == '*' {
        lemma_split_star_len(s.drop_first());
    } else {
        let rest = split_star(s.drop_first());
        lemma_split_star_len(s.drop_first());
        lemma_split_star_single(s.drop_first());
        if split_star(s).len() == 1 {
            assert(rest.len() == 1);
            assert(split_star(s)[0] =~= s);
        }
    }
}

/// Splits a pattern into its literal parts.
pub fn split_chars(pattern: &Vec<char>) -> (parts: Vec<Vec<char>>)
    ensures
        part_views(parts@) == split_star(pattern@),
        parts.len() >= 1,
{
    let mut done: Vec<Vec<char>> = Vec::new();
    let mut cur: Vec<char> = Vec::new();
    let mut i: usize = 0;
    proof {
        assert(pattern@.subrange(0, 0) =~= Seq::<char>::empty());
        assert(split_star(Seq::<char>::empty()) =~~= part_views(done@) + seq![cur@]);
    }
    while i < pattern.len()
        invariant
            i <= pattern.len(),
            split_star(pattern@.subrange(0, i as int)) =~~= part_views(done@) + seq![cur@],
        decreases pattern.len() - i,
    {
        let ghost prefix = pattern@.subrange(0, i as int);
        let c = pattern[i];
        proof {
            lemma_split_star_push(prefix, c);
            assert(pattern@.subrange(0, i + 1 as int) =~= prefix.push(c));
        }
        if c == '*' {
            let ghost prev_parts = part_views(done@);
            let finished = cur;
            cur = Vec::new();
            done.push(finished);
            proof {
                assert(part_views(done@) =~~= prev_parts.push(finished@));
            }
        } else {
            cur.push(c);
        }
        proof {
            assert(split_star(pattern@.subrange(0, i + 1 as int)) =~~= part_views(done@)
                + seq![cur@]);
        }
        i = i + 1;
    }
    let ghost prev_parts = part_views(done@);
    done.push(cur);
    proof {
        assert(part_views(done@) =~~= prev_parts.push(cur@));
        assert(pattern@.subrange(0, pattern@.len() as int) =~= pattern@);
        assert(part_views(done@) =~~= split_star(pattern@));
    }
    done
}

/// Checks that `p` occurs in `name` at position `k`.
fn matches_at(name: &Vec<char>, p: &Vec<char>, k: usize) -> (r: bool)
    requires
        k + p.len() <= name.len(),
    ensures
        r == (name@.subrange(k as int, k + p@.len()) == p@),
{
    let mut i: usize = 0;
    while i < p.len()
        invariant
            i <= p.len(),
            k + p.len() <= name.len(),
            forall|j: int| 0 <= j < i ==> name@[k + j] == p@[j],
        decreases p.len() - i,
    {
        if name[k + i] != p[i] {
            proof {
                assert(name@.subrange(k as int, k + p@.len())[i as int] != p@[i as int]);
            }
            return false;
        }
        i = i + 1;
    }
    proof {
        assert(name@.subrange(k as int, k + p@.len()) =~= p@);
    }
    true
}

/// Checks that `name` starts with `p`.
fn starts_with_part(name: &Vec<char>, p: &Vec<char>) -> (r: bool)
    ensures
        r == has_prefix(name@, p@),
{
    if p.len() > name.len() {
        return false;
    }
    matches_at(name, p, 0)
}

/// Checks that `name` ends with `p`.
fn ends_with_part(name: &Vec<char>, p: &Vec<char>) -> (r: bool)
    ensures
        r == has_suffix(name@, p@),
{
    if p.len() > name.len() {
        return false;
    }
    matches_at(name, p, name.len() - p.len())
}

/// Checks that `name` contains `p`.
fn contains_part(name: &Vec<char>, p: &Vec<char>) -> (r: bool)
    ensures
        r == contains_seq(name@, p@),
{
    if p.len() == 0 {
        proof {
            assert(contains_seq(name@, p@)) by {
                assert(name@.subrange(0, 0 + p@.len() as int) =~= p@);
            }
        }
        return true;
    }
    if p.len() > name.len() {
        return false;
    }
    let last = name.len() - p.len();
    let mut k: usize = 0;
    while k <= last
        invariant
            k <= last + 1,
            last == name.len() - p.len(),
            1 <= p.len() <= name.len(),
            forall|j: int| 0 <= j < k ==> #[trigger] name@.subrange(j, j + p@.len()) != p@,
        decreases last - k + 1,
    {
        if matches_at(name, p, k) {
            return true;
        }
        k = k + 1;
    }
    false
}

/// Evaluates the demands of the parts against a name.
fn matches_parts(parts: &Vec<Vec<char>>, name: &Vec<char>) -> (r: bool)
    requires
        parts.len() >= 1,
    ensures
        r == parts_match(part_views(parts@), name@),
{
    if parts.len() == 1 {
        return crate::chars::eq_chars(name, &parts[0]);
    }
    let first = &parts[0];
    if first.len() > 0 && !starts_with_part(name, first) {
        return false;
    }
    let last_part = &parts[parts.len() - 1];
    if last_part.len() > 0 && !ends_with_part(name, last_part) {
        return false;
    }
    let mut i: usize = 1;
    while i < parts.len() - 1
        invariant
            1 <= i <= parts.len() - 1,
            parts.len() >= 2,
            forall|j: int|
                1 <= j < i && part_views(parts@)[j].len() > 0 ==> contains_seq(
                    name@,
                    part_views(parts@)[j],
                ),
        decreases parts.len() - 1 - i,
    {
        let p = &parts[i];
        if p.len() > 0 && !contains_part(name, p) {
            proof {
                assert(part_views(parts@)[i as int].len() > 0 && !contains_seq(
                    name@,
                    part_views(parts@)[i as int],
                ));
            }
            return false;
        }
        i = i + 1;
    }
    true
}

/// Decides whether a name satisfies a wildcard search pattern.
pub fn name_matches(pattern: &str, name: &str) -> (r: bool)
    ensures
        r == pattern_matches(pattern@, name@),
{
    let pchars = str_chars(pattern);
    if pchars.len() == 0 {
        return true;
    }
    let nchars = str_chars(name);
    let parts = split_chars(&pchars);
    matches_parts(&parts, &nchars)
}

proof fn lemma_split_star_no_star(s: Seq<char>)
    requires
        forall|i: int| 0 <= i < s.len() ==> s[i] != '*',
    ensures
        split_star(s).len() == 1,
    decreases s.len(),
{
    if s.len() > 0 {
        assert(forall|i: int|
            0 <= i < s.drop_first().len() ==> (#[trigger] s.drop_first()[i]) == s[i + 1]);
        lemma_split_star_no_star(s.drop_first());
        lemma_split_star_len(s.drop_first());
    }
}

/// Law: a nonempty pattern without a wildcard demands the exact name,
/// nothing less and nothing more.
pub proof fn lemma_exact_pattern(pattern: Seq<char>, name: Seq<char>)
    requires
        pattern.len() > 0,
        forall|i: int| 0 <= i < pattern.len() ==> pattern[i] != '*',
    ensures
        pattern_matches(pattern, name) == (name == pattern),
{
    lemma_split_star_no_star(pattern);
    lemma_split_star_single(pattern);
}

/// A pattern of asterisks alone (the empty pattern among them): it
/// constrains nothing.
pub open spec fn all_star(pattern: Seq<char>) -> bool {
    forall|i: int| 0 <= i < pattern.len() ==> pattern[i] == '*'
}

/// Checks whether a pattern consists of asterisks alone.
pub fn is_all_star(pattern: &str) -> (r: bool)
    ensures
        r == all_star(pattern@),
{
    let len = pattern.unicode_len();
    let mut i: usize = 0;
    while i < len
        invariant
            i <= len,
            len == pattern@.len(),
            forall|j: int| 0 <= j < i ==> pattern@[j] == '*',
        decreases len - i,
    {
        if pattern.get_char(i) != '*' {
            return false;
        }
        i = i + 1;
    }
    true
}

/// Law: the empty pattern, and a pattern made of asterisks alone, match
/// every name.
pub proof fn lemma_all_star_matches_every_name(pattern: Seq<char>, name: Seq<char>)
    requires
        all_star(pattern),
    ensures
        pattern_matches(pattern, name),
{
    if pattern.len() > 0 {
        lemma_split_star_all_empty(pattern);
        let parts = split_star(pattern);
        assert(parts.len() == pattern.len() + 1);
        assert(parts[0].len() == 0);
        assert(parts.last().len() == 0);
    }
}

proof fn lemma_split_star_all_empty(pattern: Seq<char>)
    requires
        forall|i: int| 0 <= i < pattern.len() ==> pattern[i] == '*',
    ensures
        split_star(pattern).len() == pattern.len() + 1,
        forall|i: int|
            0 <= i < split_star(pattern).len() ==> split_star(pattern)[i].len() == 0,
    decreases pattern.len(),
{
    if pattern.len() > 0 {
        assert(forall|i: int|
            0 <= i < pattern.drop_first().len() ==> pattern.drop_first()[i] == '*');
        lemma_split_star_all_empty(pattern.drop_first());
    }
}

} // verus!
