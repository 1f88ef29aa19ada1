//! The tag record and the rule for valid tag names.

use vstd::prelude::*;

verus! {

/// A character that a tag name may contain: a lowercase ASCII letter, a
/// digit, or one of the symbols `(`, `)`, `'`, `_`, `-`, `:`.
pub open spec fn valid_name_char(c: char) -> bool {
    ('a' <= c && c <= 'z') || ('0' <= c && c <= '9') || c == '(' || c == ')' || c == '\''
        || c == '_' || c == '-' || c == ':'
}

/// A valid tag name is nonempty and holds valid characters only: no
/// uppercase letters, no whitespace, nothing outside the restricted class.
pub open spec fn valid_tag_name(s: Seq<char>) -> bool {
    s.len() > 0 && forall|i: int| 0 <= i < s.len() ==> valid_name_char(s[i])
}

/// Decides whether a tag name lies in the restricted character class
/// `[a-z0-9():'_-]`.
pub fn is_snake_case(s: &str) -> (r: bool)
    ensures
        r == valid_tag_name(s@),
{
    let len = s.unicode_len();
    if len == 0 {
        return false;
    }
    let mut i: usize = 0;
    while i < len
        invariant
            0 <= i <= len,
            len == s@.len(),
            forall|j: int| 0 <= j < i ==> valid_name_char(s@[j]),
        decreases len - i,
    {
        let c = s.get_char(i);
        let ok = ('a' <= c && c <= 'z') || ('0' <= c && c <= '9') || c == '(' || c == ')'
            || c == '\'' || c == '_' || c == '-' || c == ':';
        if !ok {
            return false;
        }
        i = i + 1;
    }
    true
}

/// A tag row as the store keeps it.
#[derive(Debug, PartialEq)]
pub struct Tag {
    pub custom_id: u64,
    pub name: String,
    pub description: String,
    pub is_alias: Option<u64>,
    pub category: u8,
    pub implications: Vec<u64>,
    pub use_count: u64,
}

/// The mathematical value of a tag row.
pub struct TagView {
    pub custom_id: u64,
    pub name: Seq<char>,
    pub description: Seq<char>,
    pub is_alias: Option<u64>,
    pub category: u8,
    pub implications: Seq<u64>,
    pub use_count: u64,
}

impl View for Tag {
    type V = TagView;

    open spec fn view(&self) -> TagView {
        TagView {
            custom_id: self.custom_id,
            name: self.name@,
            description: self.description@,
            is_alias: self.is_alias,
            category: self.category,
            implications: self.implications@,
            use_count: self.use_count,
        }
    }
}

impl Clone for Tag {
    fn clone(&self) -> (r: Tag)
        ensures
            r@ == self@,
    {
        Tag {
            custom_id: self.custom_id,
            name: self.name.clone(),
            description: self.description.clone(),
            is_alias: self.is_alias,
            category: self.category,
            implications: clone_ids(&self.implications),
            use_count: self.use_count,
        }
    }
}

/// Copies a vector of record ids.
pub(crate) fn clone_ids(v: &Vec<u64>) -> (r: Vec<u64>)
    ensures
        r@ == v@,
{
    let mut r: Vec<u64> = Vec::new();
    let mut i: usize = 0;
    while i < v.len()
        invariant
            0 <= i <= v.len(),
            r@ == v@.subrange(0, i as int),
        decreases v.len() - i,
    {
        r.push(v[i]);
        proof {
            assert(r@ =~= v@.subrange(0, i + 1 as int));
        }
        i = i + 1;
    }
    proof {
        assert(r@ =~= v@);
    }
    r
}

impl Tag {
    /// A fresh tag row: the id is left at zero until the allocator hands one
    /// out, and a new tag starts with no uses.
    pub fn new(
        name: String,
        description: String,
        is_alias: Option<u64>,
        category: u8,
        implications: Vec<u64>,
    ) -> (r: Tag)
        ensures
            r@.custom_id == 0,
            r@.name == name@,
            r@.description == description@,
            r@.is_alias == is_alias,
            r@.category == category,
            r@.implications == implications@,
            r@.use_count == 0,
    {
        Tag { custom_id: 0, name, description, is_alias, category, implications, use_count: 0 }
    }
}

impl Default for Tag {
    /// The placeholder tag that an empty form starts from.
    fn default() -> (r: Tag)
        ensures
            r@.custom_id == 0,
            r@.name == "newtag"@,
            r@.description == Seq::<char>::empty(),
            r@.is_alias == Option::<u64>::None,
            r@.category == 1,
            r@.implications == Seq::<u64>::empty(),
            r@.use_count == 0,
    {
        Tag {
            custom_id: 0,
            name: "newtag".to_owned(),
            description: String::new(),
            is_alias: None,
            category: 1,
            implications: Vec::new(),
            use_count: 0,
        }
    }
}

} // verus!
