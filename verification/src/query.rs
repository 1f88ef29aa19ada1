//! Construction of backend query text.
//!
//! A wildcard pattern is translated into a `WHERE` clause for the store's
//! query language. Every literal value is escaped (single quotes are
//! doubled) before it is embedded, so user input never reaches the query
//! text unescaped.

use vstd::prelude::*;

use crate::chars::{chars_to_string, str_chars};
use crate::pattern::{lemma_split_star_single, part_views, split_chars, split_star};

verus! {

/// A literal value as it may be embedded in query text: every single
/// quote doubled.
pub open spec fn escaped(s: Seq<char>) -> Seq<char>
    decreases s.len(),
{
    if s.len() == 0 {
        Seq::<char>::empty()
    } else if s[0] == '\'' {
        seq!['\'', '\''] + escaped(s.drop_first())
    } else {
        seq![s[0]] + escaped(s.drop_first())
    }
}

proof fn lemma_escaped_push(s: Seq<char>, c: char)
    ensures
        escaped(s.push(c)) =~= escaped(s) + (if c == '\'' {
            seq!['\'', '\'']
        } else {
            seq![c]
        }),
    decreases s.len(),
{
    if s.len() == 0 {
        assert(s.push(c).drop_first() =~= Seq::<char>::empty());
        assert(escaped(Seq::<char>::empty()) =~= Seq::<char>::empty());
    } else {
        lemma_escaped_push(s.drop_first(), c);
        assert(s.push(c).drop_first() =~= s.drop_first().push(c));
        assert(s.push(c)[0] == s[0]);
    }
}

/// Escapes a vector of characters for embedding in query text.
fn escape_chars(v: &Vec<char>) -> (r: Vec<char>)
    ensures
        r@ == escaped(v@),
{
    let mut r: Vec<char> = Vec::new();
    let mut i: usize = 0;
    proof {
        assert(v@.subrange(0, 0) =~= Seq::<char>::empty());
    }
    while i < v.len()
        invariant
            i <= v.len(),
            r@ == escaped(v@.subrange(0, i as int)),
        decreases v.len() - i,
    {
        let ghost pre = v@.subrange(0, i as int);
        let c = v[i];
        proof {
            lemma_escaped_push(pre, c);
            assert(v@.subrange(0, i + 1 as int) =~= pre.push(c));
        }
        if c == '\'' {
            r.push('\'');
            r.push('\'');
        } else {
            r.push(c);
        }
        i = i + 1;
    }
    proof {
        assert(v@.subrange(0, v@.len() as int) =~= v@);
    }
    r
}

/// Doubles every single quote in a literal value, the minimal escaping
/// the query language requires.
pub fn escape_string(s: String) -> (r: String)
    ensures
        r@ == escaped(s@),
{
    let v = str_chars(s.as_str());
    let esc = escape_chars(&v);
    chars_to_string(&esc)
}

/// The clause that demands the exact name.
pub open spec fn exact_clause(pattern: Seq<char>) -> Seq<char> {
    "WHERE name = '"@ + escaped(pattern) + "'"@
}

/// The condition that the name start with `p`.
pub open spec fn starts_cond(p: Seq<char>) -> Seq<char> {
    "string::starts_with(name, '"@ + escaped(p) + "')"@
}

/// The condition that the name end with `p`.
pub open spec fn ends_cond(p: Seq<char>) -> Seq<char> {
    "string::ends_with(name, '"@ + escaped(p) + "')"@
}

/// The condition that the name contain `p`.
pub open spec fn contains_cond(p: Seq<char>) -> Seq<char> {
    "string::contains(name, '"@ + escaped(p) + "')"@
}

/// One `contains` condition for every nonempty part, in order.
pub open spec fn interior_conds(parts: Seq<Seq<char>>) -> Seq<Seq<char>>
    decreases parts.len(),
{
    if parts.len() == 0 {
        Seq::<Seq<char>>::empty()
    } else {
        interior_conds(parts.drop_last()) + (if parts.last().len() == 0 {
            Seq::<Seq<char>>::empty()
        } else {
            seq![contains_cond(parts.last())]
        })
    }
}

/// The conditions of a wildcard pattern: a prefix condition from the
/// first part, a suffix condition from the last, and a containment
/// condition from each nonempty interior part.
pub open spec fn conditions_of(parts: Seq<Seq<char>>) -> Seq<Seq<char>>
    recommends
        parts.len() >= 2,
{
    (if parts[0].len() > 0 {
        seq![starts_cond(parts[0])]
    } else {
        Seq::<Seq<char>>::empty()
    }) + (if parts.last().len() > 0 {
        seq![ends_cond(parts.last())]
    } else {
        Seq::<Seq<char>>::empty()
    }) + interior_conds(parts.subrange(1, parts.len() - 1))
}

/// Conditions joined with ` AND `.
pub open spec fn join_and(cs: Seq<Seq<char>>) -> Seq<char>
    decreases cs.len(),
{
    if cs.len() == 0 {
        Seq::<char>::empty()
    } else if cs.len() == 1 {
        cs[0]
    } else {
        join_and(cs.drop_last()) + " AND "@ + cs.last()
    }
}

/// The `WHERE` clause a search pattern translates to: empty for the
/// empty pattern, an exact-match clause for a pattern without wildcards,
/// and otherwise the conjunction of its parts' conditions — empty again
/// when every part is empty.
pub open spec fn where_clause(pattern: Seq<char>) -> Seq<char> {
    if pattern.len() == 0 {
        Seq::<char>::empty()
    } else {
        let parts = split_star(pattern);
        if parts.len() == 1 {
            exact_clause(pattern)
        } else {
            let cs = conditions_of(parts);
            if cs.len() == 0 {
                Seq::<char>::empty()
            } else {
                "WHERE "@ + join_and(cs)
            }
        }
    }
}

/// Appends the contents of `src` to `dst`.
pub(crate) fn push_seq(dst: &mut Vec<char>, src: &Vec<char>)
    ensures
        final(dst)@ == old(dst)@ + src@,
{
    let mut i: usize = 0;
    while i < src.len()
        invariant
            i <= src.len(),
            dst@ == old(dst)@ + src@.subrange(0, i as int),
        decreases src.len() - i,
    {
        dst.push(src[i]);
        proof {
            assert(old(dst)@ + src@.subrange(0, i + 1 as int) =~= (old(dst)@ + src@.subrange(
                0,
                i as int,
            )).push(src@[i as int]));
        }
        i = i + 1;
    }
    proof {
        assert(dst@ =~= old(dst)@ + src@);
        assert(src@.subrange(0, src@.len() as int) =~= src@);
    }
}

/// Builds the condition text for one part.
fn build_cond(opening: &str, p: &Vec<char>) -> (r: Vec<char>)
    ensures
        r@ == opening@ + escaped(p@) + "')"@,
{
    let mut out = str_chars(opening);
    let esc = escape_chars(p);
    push_seq(&mut out, &esc);
    let closing = str_chars("')");
    push_seq(&mut out, &closing);
    out
}

/// Translates a search pattern into the `WHERE` clause of the store's
/// query language; the empty clause means no filter.
pub fn build_search_query(search: String) -> (r: String)
    ensures
        r@ == where_clause(search@),
{
    let pchars = str_chars(search.as_str());
    if pchars.len() == 0 {
        return String::new();
    }
    let parts = split_chars(&pchars);
    let ghost parts_spec = split_star(search@);
    if parts.len() == 1 {
        proof {
            lemma_split_star_single(search@);
            assert(part_views(parts@)[0] == search@);
        }
        let mut out = str_chars("WHERE name = '");
        let esc = escape_chars(&parts[0]);
        push_seq(&mut out, &esc);
        let quote = str_chars("'");
        push_seq(&mut out, &quote);
        proof {
            assert(out@ =~= exact_clause(search@));
        }
        return chars_to_string(&out);
    }
    let mut conds: Vec<Vec<char>> = Vec::new();
    if parts[0].len() > 0 {
        let c = build_cond("string::starts_with(name, '", &parts[0]);
        conds.push(c);
    }
    let last_index = parts.len() - 1;
    if parts[last_index].len() > 0 {
        let c = build_cond("string::ends_with(name, '", &parts[last_index]);
        conds.push(c);
    }
    let ghost head_conds = part_views(conds@);
    proof {
        assert(parts_spec.subrange(1, 1) =~= Seq::<Seq<char>>::empty());
        assert(head_conds =~~= (if parts_spec[0].len() > 0 {
            seq![starts_cond(parts_spec[0])]
        } else {
            Seq::<Seq<char>>::empty()
        }) + (if parts_spec.last().len() > 0 {
            seq![ends_cond(parts_spec.last())]
        } else {
            Seq::<Seq<char>>::empty()
        }));
    }
    let mut i: usize = 1;
    while i < parts.len() - 1
        invariant
            1 <= i <= parts.len() - 1,
            parts.len() >= 2,
            parts.len() == parts_spec.len(),
            part_views(parts@) == parts_spec,
            part_views(conds@) =~~= head_conds + interior_conds(parts_spec.subrange(1, i as int)),
        decreases parts.len() - 1 - i,
    {
        let ghost sofar = parts_spec.subrange(1, i as int);
        proof {
            assert(parts_spec.subrange(1, i + 1 as int).drop_last() =~= sofar);
            assert(parts_spec.subrange(1, i + 1 as int).last() == parts_spec[i as int]);
        }
        if parts[i].len() > 0 {
            let ghost prev = part_views(conds@);
            let c = build_cond("string::contains(name, '", &parts[i]);
            conds.push(c);
            proof {
                assert(part_views(conds@) =~~= prev.push(contains_cond(parts_spec[i as int])));
            }
        }
        proof {
            assert(part_views(conds@) =~~= head_conds + interior_conds(
                parts_spec.subrange(1, i + 1 as int),
            ));
        }
        i = i + 1;
    }
    proof {
        assert(parts_spec.subrange(1, parts_spec.len() - 1) =~~= parts_spec.subrange(
            1,
            i as int,
        ));
        assert(part_views(conds@) =~~= conditions_of(parts_spec));
    }
    if conds.len() == 0 {
        return String::new();
    }
    let mut out = str_chars("WHERE ");
    push_seq(&mut out, &conds[0]);
    let ghost cs = part_views(conds@);
    proof {
        assert(cs.subrange(0, 1) =~~= seq![cs[0]]);
        assert(join_and(cs.subrange(0, 1)) == cs[0]);
    }
    let mut j: usize = 1;
    while j < conds.len()
        invariant
            1 <= j <= conds.len(),
            cs == part_views(conds@),
            cs.len() == conds.len(),
            out@ == "WHERE "@ + join_and(cs.subrange(0, j as int)),
        decreases conds.len() - j,
    {
        let sep = str_chars(" AND ");
        push_seq(&mut out, &sep);
        push_seq(&mut out, &conds[j]);
        proof {
            assert(cs.subrange(0, j + 1 as int).drop_last() =~~= cs.subrange(0, j as int));
            assert(cs.subrange(0, j + 1 as int).last() == cs[j as int]);
            assert(out@ =~= "WHERE "@ + join_and(cs.subrange(0, j + 1 as int)));
        }
        j = j + 1;
    }
    proof {
        assert(cs.subrange(0, cs.len() as int) =~~= cs);
        assert(out@ == "WHERE "@ + join_and(cs));
    }
    chars_to_string(&out)
}

/// The `WHERE` clause a pattern translates to for posts: posts are kept
/// whose tag list holds a tag whose name satisfies the pattern; an empty
/// name clause again means no filter.
pub open spec fn post_where_clause(pattern: Seq<char>) -> Seq<char> {
    if where_clause(pattern).len() == 0 {
        Seq::<char>::empty()
    } else {
        "WHERE tags CONTAINSANY (SELECT VALUE custom_id FROM tag "@ + where_clause(pattern)
            + ")"@
    }
}

/// Translates a search pattern into the `WHERE` clause that selects the
/// posts carrying at least one tag whose name satisfies the pattern.
pub fn build_post_search_query(search: String) -> (r: String)
    ensures
        r@ == post_where_clause(search@),
{
    let ghost pattern = search@;
    let inner = build_search_query(search);
    if inner.as_str().unicode_len() == 0 {
        return String::new();
    }
    let mut out = str_chars("WHERE tags CONTAINSANY (SELECT VALUE custom_id FROM tag ");
    let inner_chars = str_chars(inner.as_str());
    push_seq(&mut out, &inner_chars);
    let closing = str_chars(")");
    push_seq(&mut out, &closing);
    chars_to_string(&out)
}

/// The full tag listing query: the optional filter clause between the
/// selection and the ordering, ordered by use count descending and
/// windowed by the bound limit and offset.
pub open spec fn tag_list_query(search: Option<Seq<char>>) -> Seq<char> {
    let base = "SELECT * FROM tag"@;
    let suffix = " ORDER BY use_count DESC LIMIT $limit START $offset"@;
    match search {
        None => base + suffix,
        Some(p) => if where_clause(p).len() == 0 {
            base + suffix
        } else {
            base + " "@ + where_clause(p) + suffix
        },
    }
}

/// Builds the tag listing query text for an optional search pattern.
pub fn build_tag_list_query(search: Option<String>) -> (r: String)
    ensures
        r@ == tag_list_query(crate::store::search_view(search)),
{
    let mut out = str_chars("SELECT * FROM tag");
    match search {
        None => (),
        Some(p) => {
            let clause = build_search_query(p);
            if clause.as_str().unicode_len() > 0 {
                let space = str_chars(" ");
                push_seq(&mut out, &space);
                let clause_chars = str_chars(clause.as_str());
                push_seq(&mut out, &clause_chars);
            }
        },
    }
    let suffix = str_chars(" ORDER BY use_count DESC LIMIT $limit START $offset");
    push_seq(&mut out, &suffix);
    chars_to_string(&out)
}

/// The full post listing query: as for tags, but ordered by id
/// descending, newest first.
pub open spec fn post_list_query(search: Option<Seq<char>>) -> Seq<char> {
    let base = "SELECT * FROM post"@;
    let suffix = " ORDER BY custom_id DESC LIMIT $limit START $offset"@;
    match search {
        None => base + suffix,
        Some(p) => if post_where_clause(p).len() == 0 {
            base + suffix
        } else {
            base + " "@ + post_where_clause(p) + suffix
        },
    }
}

/// Builds the post listing query text for an optional search pattern.
pub fn build_post_list_query(search: Option<String>) -> (r: String)
    ensures
        r@ == post_list_query(crate::store::search_view(search)),
{
    let mut out = str_chars("SELECT * FROM post");
    match search {
        None => (),
        Some(p) => {
            let clause = build_post_search_query(p);
            if clause.as_str().unicode_len() > 0 {
                let space = str_chars(" ");
                push_seq(&mut out, &space);
                let clause_chars = str_chars(clause.as_str());
                push_seq(&mut out, &clause_chars);
            }
        },
    }
    let suffix = str_chars(" ORDER BY custom_id DESC LIMIT $limit START $offset");
    push_seq(&mut out, &suffix);
    chars_to_string(&out)
}

/// The record offset a 1-based page binds to the listing query;
/// page one starts at offset zero.
pub fn page_offset(page: u32, per_page: u32) -> (r: u64)
    requires
        page >= 1,
    ensures
        r == (page - 1) * per_page,
{
    assert(((page - 1) as u64) * (per_page as u64) <= u64::MAX) by (nonlinear_arith)
        requires
            page >= 1,
    ;
    ((page - 1) as u64) * (per_page as u64)
}

} // verus!
