//! The backing store: the `tag` and `post` collections and the
//! singleton id counter, with the repository operations over them.
//!
//! The store enforces the invariants the schema declares: ids are
//! unique and never exceed the counter, tag names are unique, and post
//! content digests are unique.

use vstd::prelude::*;

use crate::order::{lemma_insert_desc_at, sort_desc};
use crate::pattern::{all_star, is_all_star, name_matches, pattern_matches};
use crate::post::{Post, PostCreateError, PostSearchError, PostView};
use crate::tag::{is_snake_case, valid_tag_name, Tag, TagView};

verus! {

/// Why a tag operation failed.
#[derive(Debug, PartialEq)]
pub enum TagError {
    /// The name falls outside the restricted character class.
    InvalidName,
    /// A tag with the same name already exists; its id is carried.
    DuplicateName { existing_id: u64 },
    /// The page or the page size is zero.
    InvalidPagination,
    /// The id counter cannot hand out another id.
    AllocationError,
}

/// The values of the tag rows.
pub open spec fn tag_views(s: Seq<Tag>) -> Seq<TagView> {
    s.map_values(|t: Tag| t@)
}

/// The values of the post rows.
pub open spec fn post_views(s: Seq<Post>) -> Seq<PostView> {
    s.map_values(|p: Post| p@)
}

/// The mathematical value of the store: both collections and the
/// counter, plus which schemas have been declared.
pub struct StoreView {
    pub tags: Seq<TagView>,
    pub posts: Seq<PostView>,
    pub last_id: Option<u64>,
    pub tag_schema: bool,
    pub post_schema: bool,
}

/// The backing store.
pub struct Store {
    tags: Vec<Tag>,
    posts: Vec<Post>,
    last_id: Option<u64>,
    tag_schema: bool,
    post_schema: bool,
}

impl View for Store {
    type V = StoreView;

    closed spec fn view(&self) -> StoreView {
        StoreView {
            tags: tag_views(self.tags@),
            posts: post_views(self.posts@),
            last_id: self.last_id,
            tag_schema: self.tag_schema,
            post_schema: self.post_schema,
        }
    }
}

/// An id the counter has handed out: positive and no larger than the
/// counter's last value.
pub open spec fn id_bounded(id: u64, last: Option<u64>) -> bool {
    match last {
        Some(l) => 1 <= id && id <= l,
        None => false,
    }
}

/// The store's invariant: unique tag ids and names, unique post ids
/// and content digests, and every id covered by the counter.
pub open spec fn inv(v: StoreView) -> bool {
    &&& forall|i: int, j: int|
        #![trigger v.tags[i], v.tags[j]]
        0 <= i < j < v.tags.len() ==> v.tags[i].custom_id != v.tags[j].custom_id
    &&& forall|i: int, j: int|
        #![trigger v.tags[i], v.tags[j]]
        0 <= i < j < v.tags.len() ==> v.tags[i].name != v.tags[j].name
    &&& forall|i: int| 0 <= i < v.tags.len() ==> id_bounded((#[trigger] v.tags[i]).custom_id, v.last_id)
    &&& forall|i: int, j: int|
        #![trigger v.posts[i], v.posts[j]]
        0 <= i < j < v.posts.len() ==> v.posts[i].custom_id != v.posts[j].custom_id
    &&& forall|i: int, j: int|
        #![trigger v.posts[i], v.posts[j]]
        0 <= i < j < v.posts.len() ==> v.posts[i].sha256_hash != v.posts[j].sha256_hash
    &&& forall|i: int|
        0 <= i < v.posts.len() ==> id_bounded((#[trigger] v.posts[i]).custom_id, v.last_id)
}

/// The id the counter hands out next.
pub open spec fn next_id_of(before: Option<u64>) -> u64 {
    match before {
        None => 1,
        Some(l) => (l + 1) as u64,
    }
}

/// One allocation: the counter record is created at one or atomically
/// incremented, and the new value is the id handed out.
pub open spec fn alloc_step(before: Option<u64>, id: u64, after: Option<u64>) -> bool {
    match before {
        None => id == 1 && after == Some(1u64),
        Some(l) => l < u64::MAX && id == l + 1 && after == Some(id),
    }
}

/// Law: ids strictly increase in allocation order — two successive
/// allocations never hand out the same id, and the later one is the
/// larger.
pub proof fn lemma_ids_strictly_increase(
    before: Option<u64>,
    id1: u64,
    mid: Option<u64>,
    id2: u64,
    after: Option<u64>,
)
    requires
        alloc_step(before, id1, mid),
        alloc_step(mid, id2, after),
    ensures
        id2 > id1,
{
}

/// The first tag with the given id, if any.
pub open spec fn find_tag_by_id(s: Seq<TagView>, id: u64) -> Option<TagView>
    decreases s.len(),
{
    if s.len() == 0 {
        None
    } else if s[0].custom_id == id {
        Some(s[0])
    } else {
        find_tag_by_id(s.drop_first(), id)
    }
}

/// The first tag with the given name, if any.
pub open spec fn find_tag_by_name(s: Seq<TagView>, name: Seq<char>) -> Option<TagView>
    decreases s.len(),
{
    if s.len() == 0 {
        None
    } else if s[0].name == name {
        Some(s[0])
    } else {
        find_tag_by_name(s.drop_first(), name)
    }
}

proof fn lemma_find_id_from(s: Seq<TagView>, id: u64, i: int)
    requires
        0 <= i <= s.len(),
        forall|j: int| 0 <= j < i ==> (#[trigger] s[j]).custom_id != id,
    ensures
        find_tag_by_id(s, id) == find_tag_by_id(s.subrange(i, s.len() as int), id),
    decreases i,
{
    if i == 0 {
        assert(s.subrange(0, s.len() as int) =~= s);
    } else {
        lemma_find_id_from(s, id, i - 1);
        assert(s.subrange(i - 1, s.len() as int).drop_first() =~= s.subrange(i, s.len() as int));
        assert(s.subrange(i - 1, s.len() as int)[0] == s[i - 1]);
    }
}

proof fn lemma_find_name_from(s: Seq<TagView>, name: Seq<char>, i: int)
    requires
        0 <= i <= s.len(),
        forall|j: int| 0 <= j < i ==> (#[trigger] s[j]).name != name,
    ensures
        find_tag_by_name(s, name) == find_tag_by_name(s.subrange(i, s.len() as int), name),
    decreases i,
{
    if i == 0 {
        assert(s.subrange(0, s.len() as int) =~= s);
    } else {
        lemma_find_name_from(s, name, i - 1);
        assert(s.subrange(i - 1, s.len() as int).drop_first() =~= s.subrange(i, s.len() as int));
        assert(s.subrange(i - 1, s.len() as int)[0] == s[i - 1]);
    }
}

proof fn lemma_find_name_none(s: Seq<TagView>, name: Seq<char>)
    ensures
        (find_tag_by_name(s, name) is None) <==> (forall|i: int|
            0 <= i < s.len() ==> (#[trigger] s[i]).name != name),
    decreases s.len(),
{
    if s.len() > 0 {
        lemma_find_name_none(s.drop_first(), name);
        assert(forall|i: int|
            0 <= i < s.drop_first().len() ==> (#[trigger] s.drop_first()[i]) == s[i + 1]);
        if s[0].name != name && (forall|i: int|
            0 <= i < s.drop_first().len() ==> (#[trigger] s.drop_first()[i]).name != name) {
            assert(forall|i: int| 1 <= i < s.len() ==> (#[trigger] s[i]).name != name) by {
                assert(forall|i: int|
                    1 <= i < s.len() ==> (#[trigger] s[i]) == s.drop_first()[i - 1]);
            }
        }
    }
}

/// Law: once a tag is created in a store that had no tag of its name
/// or id, it is found under both — unchanged — whatever else the store
/// already held.
pub proof fn lemma_created_tag_found(tags: Seq<TagView>, row: TagView)
    requires
        find_tag_by_name(tags, row.name) is None,
        find_tag_by_id(tags, row.custom_id) is None,
    ensures
        find_tag_by_name(tags.push(row), row.name) == Some(row),
        find_tag_by_id(tags.push(row), row.custom_id) == Some(row),
    decreases tags.len(),
{
    if tags.len() == 0 {
        assert(tags.push(row)[0] == row);
    } else {
        assert(tags.push(row)[0] == tags[0]);
        assert(tags.push(row).drop_first() =~= tags.drop_first().push(row));
        lemma_created_tag_found(tags.drop_first(), row);
    }
}

impl Store {
    /// The store's invariant holds.
    pub open spec fn wf(self) -> bool {
        inv(self@)
    }

    /// An empty store: no rows, no counter record, no schema declared.
    pub fn new() -> (r: Store)
        ensures
            r.wf(),
            r@.tags == Seq::<TagView>::empty(),
            r@.posts == Seq::<PostView>::empty(),
            r@.last_id is None,
            !r@.tag_schema,
            !r@.post_schema,
    {
        let r = Store {
            tags: Vec::new(),
            posts: Vec::new(),
            last_id: None,
            tag_schema: false,
            post_schema: false,
        };
        proof {
            assert(r@.tags =~= Seq::<TagView>::empty());
            assert(r@.posts =~= Seq::<PostView>::empty());
        }
        r
    }

    /// Declares the tag collection and its constraints. Idempotent:
    /// the rows and the counter are untouched, so a store already
    /// carrying the schema is left exactly as it is.
    pub fn define_tag_table(&mut self) -> (r: Result<(), TagError>)
        requires
            old(self).wf(),
        ensures
            final(self).wf(),
            r is Ok,
            final(self)@ == (StoreView { tag_schema: true, ..old(self)@ }),
    {
        self.tag_schema = true;
        Ok(())
    }

    /// Declares the post collection and its constraints; idempotent in
    /// the same way.
    pub fn define_post_table(&mut self) -> (r: Result<(), TagError>)
        requires
            old(self).wf(),
        ensures
            final(self).wf(),
            r is Ok,
            final(self)@ == (StoreView { post_schema: true, ..old(self)@ }),
    {
        self.post_schema = true;
        Ok(())
    }

    /// Hands out the next id: the counter record is created at one on
    /// first use, otherwise atomically incremented, and the new value
    /// is returned. No two allocations return the same id, and the id
    /// is larger than every id any row holds.
    pub fn get_next_id(&mut self) -> (r: Result<u64, TagError>)
        requires
            old(self).wf(),
        ensures
            final(self).wf(),
            final(self)@.tags == old(self)@.tags,
            final(self)@.posts == old(self)@.posts,
            final(self)@.tag_schema == old(self)@.tag_schema,
            final(self)@.post_schema == old(self)@.post_schema,
            match r {
                Ok(id) => alloc_step(old(self)@.last_id, id, final(self)@.last_id) && (forall|
                    i: int,
                |
                    0 <= i < old(self)@.tags.len() ==> (#[trigger] old(self)@.tags[i]).custom_id
                        < id) && (forall|i: int|
                    0 <= i < old(self)@.posts.len() ==> (#[trigger] old(self)@.posts[i]).custom_id
                        < id),
                Err(e) => e == TagError::AllocationError && old(self)@.last_id == Some(u64::MAX)
                    && final(self)@ == old(self)@,
            },
    {
        match self.last_id {
            None => {
                self.last_id = Some(1);
                Ok(1)
            },
            Some(l) => {
                if l == u64::MAX {
                    Err(TagError::AllocationError)
                } else {
                    self.last_id = Some(l + 1);
                    Ok(l + 1)
                }
            },
        }
    }

    /// Looks a tag up by its id; absence is not an error.
    pub fn get_tag_by_id(&self, custom_id: u64) -> (r: Result<Option<Tag>, TagError>)
        ensures
            match r {
                Ok(opt) => match opt {
                    Some(t) => find_tag_by_id(self@.tags, custom_id) == Some(t@),
                    None => find_tag_by_id(self@.tags, custom_id) is None,
                },
                Err(_) => false,
            },
    {
        let mut i: usize = 0;
        while i < self.tags.len()
            invariant
                i <= self.tags@.len(),
                forall|j: int|
                    0 <= j < i ==> (#[trigger] tag_views(self.tags@)[j]).custom_id != custom_id,
            decreases self.tags@.len() - i,
        {
            let t = &self.tags[i];
            if t.custom_id == custom_id {
                proof {
                    lemma_find_id_from(tag_views(self.tags@), custom_id, i as int);
                    assert(tag_views(self.tags@).subrange(i as int, self.tags@.len() as int)[0]
                        == tag_views(self.tags@)[i as int]);
                }
                return Ok(Some(t.clone()));
            }
            i = i + 1;
        }
        proof {
            lemma_find_id_from(tag_views(self.tags@), custom_id, self.tags@.len() as int);
            assert(tag_views(self.tags@).subrange(
                self.tags@.len() as int,
                self.tags@.len() as int,
            ) =~= Seq::<TagView>::empty());
        }
        Ok(None)
    }

    /// Looks a tag up by its name; absence is not an error.
    pub fn get_tag_by_name(&self, name: &str) -> (r: Result<Option<Tag>, TagError>)
        ensures
            match r {
                Ok(opt) => match opt {
                    Some(t) => find_tag_by_name(self@.tags, name@) == Some(t@),
                    None => find_tag_by_name(self@.tags, name@) is None,
                },
                Err(_) => false,
            },
    {
        let mut i: usize = 0;
        while i < self.tags.len()
            invariant
                i <= self.tags@.len(),
                forall|j: int| 0 <= j < i ==> (#[trigger] tag_views(self.tags@)[j]).name != name@,
            decreases self.tags@.len() - i,
        {
            let t = &self.tags[i];
            if crate::chars::str_eq(t.name.as_str(), name) {
                proof {
                    lemma_find_name_from(tag_views(self.tags@), name@, i as int);
                    assert(tag_views(self.tags@).subrange(i as int, self.tags@.len() as int)[0]
                        == tag_views(self.tags@)[i as int]);
                }
                return Ok(Some(t.clone()));
            }
            i = i + 1;
        }
        proof {
            lemma_find_name_from(tag_views(self.tags@), name@, self.tags@.len() as int);
            assert(tag_views(self.tags@).subrange(
                self.tags@.len() as int,
                self.tags@.len() as int,
            ) =~= Seq::<TagView>::empty());
        }
        Ok(None)
    }

    /// Creates a tag: the name is validated against the restricted
    /// character class, the schema is ensured, a fresh id is allocated,
    /// and the row is inserted — unless a tag of the same name already
    /// exists, which is a conflict that carries the existing id. The
    /// row is stored with the fresh id in place and with no uses: the
    /// use count belongs to the store and grows only as posts
    /// referencing the tag are created.
    pub fn add_new_tag(&mut self, tag: &Tag) -> (r: Result<u64, TagError>)
        requires
            old(self).wf(),
        ensures
            final(self).wf(),
            match r {
                Ok(id) => {
                    &&& valid_tag_name(tag@.name)
                    &&& find_tag_by_name(old(self)@.tags, tag@.name) is None
                    &&& alloc_step(old(self)@.last_id, id, final(self)@.last_id)
                    &&& final(self)@.tags == old(self)@.tags.push(
                        (TagView { custom_id: id, use_count: 0, ..tag@ }),
                    )
                    &&& final(self)@.posts == old(self)@.posts
                    &&& final(self)@.tag_schema
                    &&& final(self)@.post_schema == old(self)@.post_schema
                },
                Err(e) => match e {
                    TagError::InvalidName => {
                        &&& !valid_tag_name(tag@.name)
                        &&& final(self)@ == old(self)@
                    },
                    TagError::DuplicateName { existing_id } => {
                        &&& valid_tag_name(tag@.name)
                        &&& match find_tag_by_name(old(self)@.tags, tag@.name) {
                            Some(t) => t.custom_id == existing_id,
                            None => false,
                        }
                        &&& alloc_step(
                            old(self)@.last_id,
                            next_id_of(old(self)@.last_id),
                            final(self)@.last_id,
                        )
                        &&& final(self)@.tags == old(self)@.tags
                        &&& final(self)@.posts == old(self)@.posts
                        &&& final(self)@.tag_schema
                    },
                    TagError::AllocationError => {
                        &&& valid_tag_name(tag@.name)
                        &&& old(self)@.last_id == Some(u64::MAX)
                        &&& final(self)@ == (StoreView { tag_schema: true, ..old(self)@ })
                    },
                    TagError::InvalidPagination => false,
                },
            },
    {
        if !is_snake_case(tag.name.as_str()) {
            return Err(TagError::InvalidName);
        }
        match self.define_tag_table() {
            Ok(()) => (),
            Err(e) => {
                return Err(e);
            },
        }
        let id = match self.get_next_id() {
            Ok(id) => id,
            Err(e) => {
                return Err(e);
            },
        };
        match self.get_tag_by_name(tag.name.as_str()) {
            Ok(Some(existing)) => {
                return Err(TagError::DuplicateName { existing_id: existing.custom_id });
            },
            Ok(None) => (),
            Err(e) => {
                return Err(e);
            },
        }
        let mut row = tag.clone();
        row.custom_id = id;
        row.use_count = 0;
        let ghost pre_tags = tag_views(self.tags@);
        self.tags.push(row);
        proof {
            let row_v = TagView { custom_id: id, use_count: 0, ..tag@ };
            assert(tag_views(self.tags@) =~= pre_tags.push(row_v));
            let vold = old(self)@;
            let vnew = self@;
            assert(pre_tags == vold.tags);
            lemma_find_name_none(vold.tags, tag@.name);
            assert(forall|i: int|
                0 <= i < vold.tags.len() ==> (#[trigger] vnew.tags[i]) == vold.tags[i]);
            assert(vnew.tags[vold.tags.len() as int] == row_v);
            assert(vnew.last_id == Some(id));
            assert(forall|i: int|
                0 <= i < vold.tags.len() ==> (#[trigger] vold.tags[i]).custom_id < id);
            assert(inv(vnew));
        }
        Ok(id)
    }
}

/// The sort key of a tag listing: its use count.
pub open spec fn tag_key() -> spec_fn(TagView) -> u64 {
    |t: TagView| t.use_count
}

/// The sort key of a post listing: its id, so newer posts come first.
pub open spec fn post_key() -> spec_fn(PostView) -> u64 {
    |p: PostView| p.custom_id
}

/// Whether a tag satisfies an optional search pattern.
pub open spec fn matches_search(t: TagView, q: Option<Seq<char>>) -> bool {
    match q {
        None => true,
        Some(p) => pattern_matches(p, t.name),
    }
}

/// The tag rows that satisfy the search, in store order.
pub open spec fn filter_tags(s: Seq<TagView>, q: Option<Seq<char>>) -> Seq<TagView>
    decreases s.len(),
{
    if s.len() == 0 {
        Seq::<TagView>::empty()
    } else {
        filter_tags(s.drop_last(), q) + (if matches_search(s.last(), q) {
            seq![s.last()]
        } else {
            Seq::<TagView>::empty()
        })
    }
}

/// The value of an optional search string.
pub open spec fn search_view(s: Option<String>) -> Option<Seq<char>> {
    match s {
        Some(p) => Some(p@),
        None => None,
    }
}

/// `i`, but at most `n`.
pub open spec fn clamp(i: int, n: int) -> int {
    if i <= n {
        i
    } else {
        n
    }
}

/// The window of a 1-based page: records from offset
/// `(page - 1) * per_page` on, at most `per_page` of them, clamped to
/// the end of the listing.
pub open spec fn page_slice<T>(s: Seq<T>, page: u32, per_page: u32) -> Seq<T>
    recommends
        page >= 1,
{
    s.subrange(
        clamp((page - 1) * per_page, s.len() as int),
        clamp(page * per_page, s.len() as int),
    )
}

/// Law: pages tile the listing. The first page starts at the first
/// record; each page is followed seamlessly by the next, the two
/// covering one contiguous window with nothing lost between them; and
/// a page past the end is empty, not an error.
pub proof fn lemma_pages_partition<T>(s: Seq<T>, page: u32, per_page: u32)
    requires
        1 <= page,
        page < u32::MAX,
    ensures
        page_slice(s, page, per_page) + page_slice(s, (page + 1) as u32, per_page)
            == s.subrange(
            clamp((page - 1) * per_page, s.len() as int),
            clamp((page + 1) * per_page, s.len() as int),
        ),
        (page - 1) * per_page >= s.len() ==> page_slice(s, page, per_page)
            == Seq::<T>::empty(),
        page == 1 ==> clamp((page - 1) * per_page, s.len() as int) == 0,
{
    let n = s.len() as int;
    let lo = clamp((page - 1) * per_page, n);
    let mid = clamp(page * per_page, n);
    let hi = clamp((page + 1) * per_page, n);
    assert((page - 1) * per_page <= page * per_page <= (page + 1) * per_page) by (nonlinear_arith)
        requires
            1 <= page,
            page < u32::MAX,
    ;
    assert(s.subrange(lo, mid) + s.subrange(mid, hi) =~= s.subrange(lo, hi));
    if (page - 1) * per_page >= s.len() {
        assert(page_slice(s, page, per_page) =~= Seq::<T>::empty());
    }
    if page == 1 {
        assert((page - 1) * per_page == 0) by (nonlinear_arith)
            requires
                page == 1,
        ;
    }
}

impl Store {
    /// Orders tag rows by use count, most used first; rows of equal
    /// use count keep their store order.
    fn sort_tags_by_use(v: Vec<Tag>) -> (r: Vec<Tag>)
        ensures
            tag_views(r@) == sort_desc(tag_views(v@), tag_key()),
    {
        let mut out: Vec<Tag> = Vec::new();
        let mut i: usize = 0;
        proof {
            assert(tag_views(v@).subrange(0, 0) =~= Seq::<TagView>::empty());
        }
        while i < v.len()
            invariant
                i <= v@.len(),
                tag_views(out@) == sort_desc(tag_views(v@).subrange(0, i as int), tag_key()),
            decreases v@.len() - i,
        {
            let x = v[i].clone();
            let mut j: usize = 0;
            while j < out.len() && out[j].use_count >= x.use_count
                invariant
                    j <= out@.len(),
                    x@ == v@[i as int]@,
                    forall|t: int|
                        0 <= t < j ==> (#[trigger] tag_views(out@)[t]).use_count >= x@.use_count,
                decreases out@.len() - j,
            {
                j = j + 1;
            }
            proof {
                lemma_insert_desc_at(tag_views(out@), x@, tag_key(), j as int);
                assert(tag_views(v@).subrange(0, i + 1 as int).drop_last() =~= tag_views(
                    v@,
                ).subrange(0, i as int));
                assert(tag_views(v@).subrange(0, i + 1 as int).last() == v@[i as int]@);
            }
            out.insert(j, x);
            proof {
                assert(tag_views(out@) =~= sort_desc(
                    tag_views(v@).subrange(0, i + 1 as int),
                    tag_key(),
                ));
            }
            i = i + 1;
        }
        proof {
            assert(tag_views(v@).subrange(0, v@.len() as int) =~= tag_views(v@));
        }
        out
    }

    /// Lists tags: the rows that satisfy the search pattern, ordered
    /// by use count descending, windowed to the requested 1-based
    /// page. A page past the end is an empty listing, not an error; a
    /// zero page or page size is refused as invalid pagination.
    pub fn get_paginated_tags(&self, page: u32, per_page: u32, search: Option<String>) -> (r:
        Result<Vec<Tag>, TagError>)
        ensures
            match r {
                Ok(rows) => page >= 1 && per_page >= 1 && tag_views(rows@) == page_slice(
                    sort_desc(filter_tags(self@.tags, search_view(search)), tag_key()),
                    page,
                    per_page,
                ),
                Err(e) => e == TagError::InvalidPagination && (page == 0 || per_page == 0),
            },
    {
        if page == 0 || per_page == 0 {
            return Err(TagError::InvalidPagination);
        }
        let ghost q = search_view(search);
        let mut matched: Vec<Tag> = Vec::new();
        let mut i: usize = 0;
        proof {
            assert(tag_views(self.tags@).subrange(0, 0) =~= Seq::<TagView>::empty());
        }
        while i < self.tags.len()
            invariant
                i <= self.tags@.len(),
                q == search_view(search),
                tag_views(matched@) == filter_tags(
                    tag_views(self.tags@).subrange(0, i as int),
                    q,
                ),
            decreases self.tags@.len() - i,
        {
            let t = &self.tags[i];
            let keep = match &search {
                Some(p) => name_matches(p.as_str(), t.name.as_str()),
                None => true,
            };
            proof {
                assert(keep == matches_search(tag_views(self.tags@)[i as int], q));
                assert(tag_views(self.tags@).subrange(0, i + 1 as int).drop_last() =~= tag_views(
                    self.tags@,
                ).subrange(0, i as int));
                assert(tag_views(self.tags@).subrange(0, i + 1 as int).last() == tag_views(
                    self.tags@,
                )[i as int]);
            }
            if keep {
                matched.push(t.clone());
            }
            proof {
                assert(tag_views(matched@) =~= filter_tags(
                    tag_views(self.tags@).subrange(0, i + 1 as int),
                    q,
                ));
            }
            i = i + 1;
        }
        proof {
            assert(tag_views(self.tags@).subrange(0, self.tags@.len() as int) =~= tag_views(
                self.tags@,
            ));
        }
        let sorted = Store::sort_tags_by_use(matched);
        let ghost listing = sort_desc(filter_tags(self@.tags, q), tag_key());
        let len = sorted.len();
        assert(((page - 1) as u64) * (per_page as u64) <= u64::MAX) by (nonlinear_arith)
            requires
                page >= 1,
        ;
        let off64: u64 = ((page - 1) as u64) * (per_page as u64);
        let lo: usize = if off64 < len as u64 {
            off64 as usize
        } else {
            len
        };
        let hi64: u64 = if off64 <= u64::MAX - per_page as u64 {
            off64 + per_page as u64
        } else {
            u64::MAX
        };
        let hi: usize = if hi64 < len as u64 {
            hi64 as usize
        } else {
            len
        };
        proof {
            assert(off64 == (page - 1) * per_page);
            assert(page * per_page == (page - 1) * per_page + per_page) by (nonlinear_arith);
            assert(lo as int == clamp((page - 1) * per_page, listing.len() as int));
            assert(hi as int == clamp(page * per_page, listing.len() as int));
        }
        let mut out: Vec<Tag> = Vec::new();
        let mut k: usize = lo;
        proof {
            assert(tag_views(out@) =~= tag_views(sorted@).subrange(lo as int, lo as int));
        }
        while k < hi
            invariant
                lo <= k <= hi,
                hi <= sorted@.len(),
                tag_views(sorted@) == listing,
                tag_views(out@) == tag_views(sorted@).subrange(lo as int, k as int),
            decreases hi - k,
        {
            let ghost pre_out = tag_views(out@);
            out.push(sorted[k].clone());
            proof {
                assert(tag_views(out@) =~= pre_out.push(tag_views(sorted@)[k as int]));
                assert(tag_views(sorted@).subrange(lo as int, k + 1 as int) =~= tag_views(
                    sorted@,
                ).subrange(lo as int, k as int).push(tag_views(sorted@)[k as int]));
            }
            k = k + 1;
        }
        proof {
            assert(tag_views(out@) == page_slice(listing, page, per_page));
        }
        Ok(out)
    }
}

/// The first post with the given id, if any.
pub open spec fn find_post_by_id(s: Seq<PostView>, id: u64) -> Option<PostView>
    decreases s.len(),
{
    if s.len() == 0 {
        None
    } else if s[0].custom_id == id {
        Some(s[0])
    } else {
        find_post_by_id(s.drop_first(), id)
    }
}

proof fn lemma_find_post_from(s: Seq<PostView>, id: u64, i: int)
    requires
        0 <= i <= s.len(),
        forall|j: int| 0 <= j < i ==> (#[trigger] s[j]).custom_id != id,
    ensures
        find_post_by_id(s, id) == find_post_by_id(s.subrange(i, s.len() as int), id),
    decreases i,
{
    if i == 0 {
        assert(s.subrange(0, s.len() as int) =~= s);
    } else {
        lemma_find_post_from(s, id, i - 1);
        assert(s.subrange(i - 1, s.len() as int).drop_first() =~= s.subrange(i, s.len() as int));
        assert(s.subrange(i - 1, s.len() as int)[0] == s[i - 1]);
    }
}

/// The ids of the posts carrying the given content digest, in store
/// order.
pub open spec fn posts_with_hash(s: Seq<PostView>, h: Seq<u8>) -> Seq<u64>
    decreases s.len(),
{
    if s.len() == 0 {
        Seq::<u64>::empty()
    } else {
        posts_with_hash(s.drop_last(), h) + (if s.last().sha256_hash == h {
            seq![s.last().custom_id]
        } else {
            Seq::<u64>::empty()
        })
    }
}

proof fn lemma_posts_with_hash_none(s: Seq<PostView>, h: Seq<u8>)
    ensures
        (posts_with_hash(s, h).len() == 0) <==> (forall|i: int|
            0 <= i < s.len() ==> (#[trigger] s[i]).sha256_hash != h),
    decreases s.len(),
{
    if s.len() > 0 {
        let t = s.drop_last();
        lemma_posts_with_hash_none(t, h);
        assert(forall|i: int| 0 <= i < t.len() ==> (#[trigger] t[i]) == s[i]);
        if s.last().sha256_hash == h {
            assert(posts_with_hash(s, h).len() > 0);
            assert((#[trigger] s[s.len() - 1]).sha256_hash == h);
        } else {
            assert(posts_with_hash(s, h) =~= posts_with_hash(t, h));
            if posts_with_hash(t, h).len() == 0 {
                assert(forall|i: int|
                    0 <= i < s.len() ==> (#[trigger] s[i]).sha256_hash != h) by {
                    assert(forall|i: int| 0 <= i < t.len() ==> (#[trigger] s[i]) == t[i]);
                    assert(forall|i: int| 0 <= i < t.len() ==> (#[trigger] t[i]).sha256_hash != h);
                    assert(s[s.len() - 1] == s.last());
                }
            } else {
                let w = choose|i: int| 0 <= i < t.len() && (#[trigger] t[i]).sha256_hash == h;
                assert(s[w].sha256_hash == h);
            }
        }
    }
}

/// A use count one higher, held at the type's top bound.
pub open spec fn inc_count(c: u64) -> u64 {
    if c < u64::MAX {
        (c + 1) as u64
    } else {
        c
    }
}

/// A use count one lower, held at zero. A count of zero can meet a
/// deletion only when the post referenced a tag that was created after
/// it, which the store does not rule out.
pub open spec fn dec_count(c: u64) -> u64 {
    if c > 0 {
        (c - 1) as u64
    } else {
        0
    }
}

/// The tag with its use count raised when the reference list names it.
pub open spec fn bumped_tag(t: TagView, refs: Seq<u64>) -> TagView {
    if refs.contains(t.custom_id) {
        TagView { use_count: inc_count(t.use_count), ..t }
    } else {
        t
    }
}

/// The tag rows after a post carrying `refs` is created: each
/// referenced tag's use count is one higher.
pub open spec fn bump_use_counts(tags: Seq<TagView>, refs: Seq<u64>) -> Seq<TagView> {
    tags.map_values(|t: TagView| bumped_tag(t, refs))
}

/// The tag with its use count lowered when the reference list names it.
pub open spec fn dropped_tag(t: TagView, refs: Seq<u64>) -> TagView {
    if refs.contains(t.custom_id) {
        TagView { use_count: dec_count(t.use_count), ..t }
    } else {
        t
    }
}

/// The tag rows after a post carrying `refs` is deleted: each
/// referenced tag's use count is one lower.
pub open spec fn drop_use_counts(tags: Seq<TagView>, refs: Seq<u64>) -> Seq<TagView> {
    tags.map_values(|t: TagView| dropped_tag(t, refs))
}

/// Whether a post satisfies an optional search pattern: a pattern of
/// asterisks alone (or no pattern) keeps every post; any other pattern
/// keeps the posts carrying at least one tag whose name satisfies it.
pub open spec fn post_matches(tags: Seq<TagView>, p: PostView, q: Option<Seq<char>>) -> bool {
    match q {
        None => true,
        Some(pat) => all_star(pat) || exists|i: int|
            0 <= i < tags.len() && pattern_matches(pat, (#[trigger] tags[i]).name)
                && p.tags.contains(tags[i].custom_id),
    }
}

/// The post rows that satisfy the search, in store order.
pub open spec fn filter_posts(
    tags: Seq<TagView>,
    posts: Seq<PostView>,
    q: Option<Seq<char>>,
) -> Seq<PostView>
    decreases posts.len(),
{
    if posts.len() == 0 {
        Seq::<PostView>::empty()
    } else {
        filter_posts(tags, posts.drop_last(), q) + (if post_matches(tags, posts.last(), q) {
            seq![posts.last()]
        } else {
            Seq::<PostView>::empty()
        })
    }
}

/// The post rows without the given id, in store order.
pub open spec fn remove_post_views(s: Seq<PostView>, id: u64) -> Seq<PostView>
    decreases s.len(),
{
    if s.len() == 0 {
        Seq::<PostView>::empty()
    } else {
        remove_post_views(s.drop_last(), id) + (if s.last().custom_id == id {
            Seq::<PostView>::empty()
        } else {
            seq![s.last()]
        })
    }
}

proof fn lemma_remove_post_absent(s: Seq<PostView>, id: u64)
    requires
        forall|i: int| 0 <= i < s.len() ==> (#[trigger] s[i]).custom_id != id,
    ensures
        remove_post_views(s, id) == s,
    decreases s.len(),
{
    if s.len() > 0 {
        assert(forall|i: int|
            0 <= i < s.len() - 1 ==> (#[trigger] s.drop_last()[i]) == s[i]);
        lemma_remove_post_absent(s.drop_last(), id);
        assert(remove_post_views(s, id) =~= s);
    } else {
        assert(remove_post_views(s, id) =~= s);
    }
}

proof fn lemma_remove_post_at(s: Seq<PostView>, id: u64, i: int)
    requires
        0 <= i < s.len(),
        s[i].custom_id == id,
        forall|j: int| 0 <= j < s.len() && j != i ==> (#[trigger] s[j]).custom_id != id,
    ensures
        remove_post_views(s, id) == s.remove(i),
    decreases s.len(),
{
    if i == s.len() - 1 {
        assert(forall|j: int|
            0 <= j < s.len() - 1 ==> (#[trigger] s.drop_last()[j]) == s[j]);
        lemma_remove_post_absent(s.drop_last(), id);
        assert(remove_post_views(s, id) =~= s.remove(i));
    } else {
        assert(forall|j: int|
            0 <= j < s.len() - 1 ==> (#[trigger] s.drop_last()[j]) == s[j]);
        lemma_remove_post_at(s.drop_last(), id, i);
        assert(s.last().custom_id != id);
        assert(remove_post_views(s, id) =~= s.remove(i));
    }
}

fn ids_contain(v: &Vec<u64>, id: u64) -> (r: bool)
    ensures
        r == v@.contains(id),
{
    let mut i: usize = 0;
    while i < v.len()
        invariant
            i <= v@.len(),
            forall|j: int| 0 <= j < i ==> v@[j] != id,
        decreases v@.len() - i,
    {
        if v[i] == id {
            return true;
        }
        i = i + 1;
    }
    proof {
        assert(!v@.contains(id));
    }
    false
}

impl Store {
    /// Checks one post against an optional search pattern.
    fn post_matches_exec(&self, p: &Post, search: &Option<String>) -> (r: bool)
        ensures
            r == post_matches(self@.tags, p@, search_view(*search)),
    {
        match search {
            None => true,
            Some(pat) => {
                if is_all_star(pat.as_str()) {
                    return true;
                }
                let mut i: usize = 0;
                while i < self.tags.len()
                    invariant
                        i <= self.tags@.len(),
                        search_view(*search) == Some(pat@),
                        forall|j: int|
                            0 <= j < i ==> !(pattern_matches(
                                pat@,
                                (#[trigger] tag_views(self.tags@)[j]).name,
                            ) && p@.tags.contains(tag_views(self.tags@)[j].custom_id)),
                    decreases self.tags@.len() - i,
                {
                    let t = &self.tags[i];
                    if name_matches(pat.as_str(), t.name.as_str()) && ids_contain(
                        &p.tags,
                        t.custom_id,
                    ) {
                        proof {
                            assert(pattern_matches(
                                pat@,
                                (#[trigger] tag_views(self.tags@)[i as int]).name,
                            ) && p@.tags.contains(tag_views(self.tags@)[i as int].custom_id));
                        }
                        return true;
                    }
                    i = i + 1;
                }
                false
            },
        }
    }

    /// Orders post rows by id, newest first; the ids are unique, so
    /// the order is total.
    fn sort_posts_by_id(v: Vec<Post>) -> (r: Vec<Post>)
        ensures
            post_views(r@) == sort_desc(post_views(v@), post_key()),
    {
        let mut out: Vec<Post> = Vec::new();
        let mut i: usize = 0;
        proof {
            assert(post_views(v@).subrange(0, 0) =~= Seq::<PostView>::empty());
        }
        while i < v.len()
            invariant
                i <= v@.len(),
                post_views(out@) == sort_desc(post_views(v@).subrange(0, i as int), post_key()),
            decreases v@.len() - i,
        {
            let x = v[i].clone();
            let mut j: usize = 0;
            while j < out.len() && out[j].custom_id >= x.custom_id
                invariant
                    j <= out@.len(),
                    x@ == v@[i as int]@,
                    forall|t: int|
                        0 <= t < j ==> (#[trigger] post_views(out@)[t]).custom_id
                            >= x@.custom_id,
                decreases out@.len() - j,
            {
                j = j + 1;
            }
            proof {
                lemma_insert_desc_at(post_views(out@), x@, post_key(), j as int);
                assert(post_views(v@).subrange(0, i + 1 as int).drop_last() =~= post_views(
                    v@,
                ).subrange(0, i as int));
                assert(post_views(v@).subrange(0, i + 1 as int).last() == v@[i as int]@);
            }
            out.insert(j, x);
            proof {
                assert(post_views(out@) =~= sort_desc(
                    post_views(v@).subrange(0, i + 1 as int),
                    post_key(),
                ));
            }
            i = i + 1;
        }
        proof {
            assert(post_views(v@).subrange(0, v@.len() as int) =~= post_views(v@));
        }
        out
    }

    /// Looks a post up by its id; absence is not an error.
    pub fn get_post_by_id(&self, custom_id: u64) -> (r: Result<Option<Post>, PostSearchError>)
        ensures
            match r {
                Ok(opt) => match opt {
                    Some(p) => find_post_by_id(self@.posts, custom_id) == Some(p@),
                    None => find_post_by_id(self@.posts, custom_id) is None,
                },
                Err(_) => false,
            },
    {
        let mut i: usize = 0;
        while i < self.posts.len()
            invariant
                i <= self.posts@.len(),
                forall|j: int|
                    0 <= j < i ==> (#[trigger] post_views(self.posts@)[j]).custom_id != custom_id,
            decreases self.posts@.len() - i,
        {
            let p = &self.posts[i];
            if p.custom_id == custom_id {
                proof {
                    lemma_find_post_from(post_views(self.posts@), custom_id, i as int);
                    assert(post_views(self.posts@).subrange(i as int, self.posts@.len() as int)[0]
                        == post_views(self.posts@)[i as int]);
                }
                return Ok(Some(p.clone()));
            }
            i = i + 1;
        }
        proof {
            lemma_find_post_from(post_views(self.posts@), custom_id, self.posts@.len() as int);
            assert(post_views(self.posts@).subrange(
                self.posts@.len() as int,
                self.posts@.len() as int,
            ) =~= Seq::<PostView>::empty());
        }
        Ok(None)
    }

    /// Raises the use count of every tag the reference list names;
    /// nothing else changes.
    fn bump_tag_counts(&mut self, refs: &Vec<u64>)
        requires
            old(self).wf(),
        ensures
            final(self).wf(),
            final(self)@.tags == bump_use_counts(old(self)@.tags, refs@),
            final(self)@.posts == old(self)@.posts,
            final(self)@.last_id == old(self)@.last_id,
            final(self)@.tag_schema == old(self)@.tag_schema,
            final(self)@.post_schema == old(self)@.post_schema,
    {
        let mut j: usize = 0;
        while j < self.tags.len()
            invariant
                j <= self.tags@.len(),
                self.tags@.len() == old(self).tags@.len(),
                self.posts@ == old(self).posts@,
                self.last_id == old(self).last_id,
                self.tag_schema == old(self).tag_schema,
                self.post_schema == old(self).post_schema,
                old(self).wf(),
                forall|t: int|
                    0 <= t < j ==> (#[trigger] tag_views(self.tags@)[t]) == bumped_tag(
                        tag_views(old(self).tags@)[t],
                        refs@,
                    ),
                forall|t: int|
                    j <= t < self.tags@.len() ==> (#[trigger] tag_views(self.tags@)[t])
                        == tag_views(old(self).tags@)[t],
            decreases self.tags@.len() - j,
        {
            let referenced = ids_contain(refs, self.tags[j].custom_id);
            let ghost pre = tag_views(self.tags@);
            if referenced {
                let mut t = self.tags[j].clone();
                proof {
                    assert(t@ == pre[j as int]);
                }
                if t.use_count < u64::MAX {
                    t.use_count = t.use_count + 1;
                }
                let ghost tv = t@;
                self.tags.set(j, t);
                proof {
                    assert(tag_views(self.tags@) =~= pre.update(j as int, tv));
                }
            }
            proof {
                assert(forall|x: int|
                    0 <= x < pre.len() && x != j ==> (#[trigger] tag_views(self.tags@)[x])
                        == pre[x]);
                assert(tag_views(self.tags@)[j as int] == bumped_tag(
                    tag_views(old(self).tags@)[j as int],
                    refs@,
                ));
            }
            j = j + 1;
        }
        proof {
            let vold = old(self)@;
            let vnew = self@;
            assert(vnew.tags =~= bump_use_counts(vold.tags, refs@));
            assert(forall|t: int|
                0 <= t < vnew.tags.len() ==> (#[trigger] vnew.tags[t]).custom_id
                    == vold.tags[t].custom_id && vnew.tags[t].name == vold.tags[t].name);
            assert(inv(vnew));
        }
    }

    /// Lowers the use count of every tag the reference list names;
    /// nothing else changes.
    fn drop_tag_counts(&mut self, refs: &Vec<u64>)
        requires
            old(self).wf(),
        ensures
            final(self).wf(),
            final(self)@.tags == drop_use_counts(old(self)@.tags, refs@),
            final(self)@.posts == old(self)@.posts,
            final(self)@.last_id == old(self)@.last_id,
            final(self)@.tag_schema == old(self)@.tag_schema,
            final(self)@.post_schema == old(self)@.post_schema,
    {
        let mut j: usize = 0;
        while j < self.tags.len()
            invariant
                j <= self.tags@.len(),
                self.tags@.len() == old(self).tags@.len(),
                self.posts@ == old(self).posts@,
                self.last_id == old(self).last_id,
                self.tag_schema == old(self).tag_schema,
                self.post_schema == old(self).post_schema,
                old(self).wf(),
                forall|t: int|
                    0 <= t < j ==> (#[trigger] tag_views(self.tags@)[t]) == dropped_tag(
                        tag_views(old(self).tags@)[t],
                        refs@,
                    ),
                forall|t: int|
                    j <= t < self.tags@.len() ==> (#[trigger] tag_views(self.tags@)[t])
                        == tag_views(old(self).tags@)[t],
            decreases self.tags@.len() - j,
        {
            let referenced = ids_contain(refs, self.tags[j].custom_id);
            let ghost pre = tag_views(self.tags@);
            if referenced {
                let mut t = self.tags[j].clone();
                proof {
                    assert(t@ == pre[j as int]);
                }
                if t.use_count > 0 {
                    t.use_count = t.use_count - 1;
                }
                let ghost tv = t@;
                self.tags.set(j, t);
                proof {
                    assert(tag_views(self.tags@) =~= pre.update(j as int, tv));
                }
            }
            proof {
                assert(forall|x: int|
                    0 <= x < pre.len() && x != j ==> (#[trigger] tag_views(self.tags@)[x])
                        == pre[x]);
                assert(tag_views(self.tags@)[j as int] == dropped_tag(
                    tag_views(old(self).tags@)[j as int],
                    refs@,
                ));
            }
            j = j + 1;
        }
        proof {
            let vold = old(self)@;
            let vnew = self@;
            assert(vnew.tags =~= drop_use_counts(vold.tags, refs@));
            assert(forall|t: int|
                0 <= t < vnew.tags.len() ==> (#[trigger] vnew.tags[t]).custom_id
                    == vold.tags[t].custom_id && vnew.tags[t].name == vold.tags[t].name);
            assert(inv(vnew));
        }
    }

    /// Creates a post: the schema is ensured and the content digest is
    /// checked first — when posts with the same digest exist, their
    /// ids come back as the duplicate error and nothing is inserted or
    /// allocated. Otherwise a fresh id is allocated, the row is
    /// inserted as given with that id, and the use count of every tag
    /// the post references is raised by one; the created row is
    /// returned.
    pub fn add_new_post(&mut self, post: &Post) -> (r: Result<Option<Post>, PostCreateError>)
        requires
            old(self).wf(),
            old(self)@.last_id != Some(u64::MAX),
        ensures
            final(self).wf(),
            final(self)@.tag_schema == old(self)@.tag_schema,
            final(self)@.post_schema,
            match r {
                Ok(opt) => match opt {
                    Some(created) => {
                        &&& posts_with_hash(old(self)@.posts, post@.sha256_hash)
                            == Seq::<u64>::empty()
                        &&& created@ == (PostView {
                            custom_id: next_id_of(old(self)@.last_id),
                            ..post@
                        })
                        &&& alloc_step(
                            old(self)@.last_id,
                            created@.custom_id,
                            final(self)@.last_id,
                        )
                        &&& final(self)@.posts == old(self)@.posts.push(created@)
                        &&& final(self)@.tags == bump_use_counts(old(self)@.tags, post@.tags)
                    },
                    None => false,
                },
                Err(e) => match e {
                    PostCreateError::DuplicatePostsFound(ids) => {
                        &&& ids@ == posts_with_hash(old(self)@.posts, post@.sha256_hash)
                        &&& ids@.len() > 0
                        &&& final(self)@.posts == old(self)@.posts
                        &&& final(self)@.tags == old(self)@.tags
                        &&& final(self)@.last_id == old(self)@.last_id
                    },
                    PostCreateError::InvalidFileType => false,
                },
            },
    {
        match self.define_post_table() {
            Ok(()) => (),
            Err(_) => (),
        }
        let ghost pv = post_views(self.posts@);
        let mut dup_ids: Vec<u64> = Vec::new();
        let mut i: usize = 0;
        proof {
            assert(pv.subrange(0, 0) =~= Seq::<PostView>::empty());
            assert(dup_ids@ =~= posts_with_hash(pv.subrange(0, 0), post@.sha256_hash));
        }
        while i < self.posts.len()
            invariant
                i <= self.posts@.len(),
                pv == post_views(self.posts@),
                dup_ids@ == posts_with_hash(pv.subrange(0, i as int), post@.sha256_hash),
            decreases self.posts@.len() - i,
        {
            let row = &self.posts[i];
            let same = crate::chars::bytes32_eq(&row.sha256_hash, &post.sha256_hash);
            proof {
                assert(pv.subrange(0, i + 1 as int).drop_last() =~= pv.subrange(0, i as int));
                assert(pv.subrange(0, i + 1 as int).last() == pv[i as int]);
            }
            if same {
                dup_ids.push(row.custom_id);
            }
            proof {
                assert(dup_ids@ =~= posts_with_hash(
                    pv.subrange(0, i + 1 as int),
                    post@.sha256_hash,
                ));
            }
            i = i + 1;
        }
        proof {
            assert(pv.subrange(0, pv.len() as int) =~= pv);
        }
        if dup_ids.len() > 0 {
            return Err(PostCreateError::DuplicatePostsFound(dup_ids));
        }
        let id = match self.get_next_id() {
            Ok(id) => id,
            Err(_) => {
                proof {
                    assert(false);
                }
                return Err(PostCreateError::InvalidFileType);
            },
        };
        let mut row = post.clone();
        row.custom_id = id;
        let ghost pre_posts = post_views(self.posts@);
        self.posts.push(row);
        let created = self.posts[self.posts.len() - 1].clone();
        proof {
            let created_v = PostView { custom_id: id, ..post@ };
            assert(post_views(self.posts@) =~= pre_posts.push(created_v));
            let vold = old(self)@;
            let vnew = self@;
            lemma_posts_with_hash_none(vold.posts, post@.sha256_hash);
            assert(forall|k: int|
                0 <= k < vold.posts.len() ==> (#[trigger] vnew.posts[k]) == vold.posts[k]);
            assert(vnew.posts[vold.posts.len() as int] == created_v);
            assert(vnew.last_id == Some(id));
            assert(forall|k: int|
                0 <= k < vold.posts.len() ==> (#[trigger] vold.posts[k]).custom_id < id);
            assert(inv(vnew));
        }
        self.bump_tag_counts(&created.tags);
        proof {
            assert(created@.tags == post@.tags);
        }
        Ok(Some(created))
    }

    /// Deletes the post with the given id and lowers the use count of
    /// every tag it referenced; deleting an absent id changes nothing
    /// and is not an error.
    pub fn remove_post(&mut self, custom_id: u64) -> (r: Result<(), PostSearchError>)
        requires
            old(self).wf(),
        ensures
            final(self).wf(),
            r is Ok,
            final(self)@.posts == remove_post_views(old(self)@.posts, custom_id),
            final(self)@.tags == (match find_post_by_id(old(self)@.posts, custom_id) {
                Some(p) => drop_use_counts(old(self)@.tags, p.tags),
                None => old(self)@.tags,
            }),
            final(self)@.last_id == old(self)@.last_id,
            final(self)@.tag_schema == old(self)@.tag_schema,
            final(self)@.post_schema == old(self)@.post_schema,
    {
        let ghost pv = post_views(self.posts@);
        let mut i: usize = 0;
        while i < self.posts.len()
            invariant
                *self == *old(self),
                old(self).wf(),
                i <= self.posts@.len(),
                pv == post_views(self.posts@),
                forall|j: int| 0 <= j < i ==> (#[trigger] pv[j]).custom_id != custom_id,
            decreases self.posts@.len() - i,
        {
            let p = &self.posts[i];
            if p.custom_id == custom_id {
                let refs = crate::tag::clone_ids(&p.tags);
                proof {
                    assert(inv(self@));
                    assert(self@.posts == pv);
                    assert(pv[i as int].custom_id == custom_id);
                    assert(refs@ == pv[i as int].tags);
                    assert(forall|j: int|
                        0 <= j < pv.len() && j != i ==> (#[trigger] pv[j]).custom_id
                            != custom_id) by {
                        assert(forall|j: int|
                            0 <= j < pv.len() && j != i ==> pv[i as int] != (#[trigger] pv[j]));
                    }
                    lemma_remove_post_at(pv, custom_id, i as int);
                    lemma_find_post_from(pv, custom_id, i as int);
                    assert(pv.subrange(i as int, pv.len() as int)[0] == pv[i as int]);
                    assert(find_post_by_id(pv, custom_id) == Some(pv[i as int]));
                }
                self.posts.remove(i);
                proof {
                    assert(post_views(self.posts@) =~= pv.remove(i as int));
                    let vold = old(self)@;
                    let vnew = self@;
                    assert(vnew.tags == vold.tags);
                    assert(forall|x: int|
                        0 <= x < i ==> (#[trigger] vnew.posts[x]) == pv[x]);
                    assert(forall|x: int|
                        i <= x < vnew.posts.len() ==> (#[trigger] vnew.posts[x]) == pv[x + 1]);
                    assert(inv(vnew));
                }
                self.drop_tag_counts(&refs);
                return Ok(());
            }
            i = i + 1;
        }
        proof {
            lemma_remove_post_absent(pv, custom_id);
            lemma_find_post_from(pv, custom_id, pv.len() as int);
            assert(pv.subrange(pv.len() as int, pv.len() as int) =~= Seq::<PostView>::empty());
        }
        Ok(())
    }

    /// Lists posts: the rows that satisfy the search pattern, newest
    /// first, windowed to the requested 1-based page. A page past the
    /// end is an empty listing, not an error; a zero page or page size
    /// is refused as an invalid query.
    pub fn get_paginated_posts(&self, page: u32, per_page: u32, search: Option<String>) -> (r:
        Result<Vec<Post>, PostSearchError>)
        ensures
            match r {
                Ok(rows) => page >= 1 && per_page >= 1 && post_views(rows@) == page_slice(
                    sort_desc(
                        filter_posts(self@.tags, self@.posts, search_view(search)),
                        post_key(),
                    ),
                    page,
                    per_page,
                ),
                Err(e) => e == PostSearchError::InvalidQuery && (page == 0 || per_page == 0),
            },
    {
        if page == 0 || per_page == 0 {
            return Err(PostSearchError::InvalidQuery);
        }
        let ghost q = search_view(search);
        let mut matched: Vec<Post> = Vec::new();
        let mut i: usize = 0;
        proof {
            assert(post_views(self.posts@).subrange(0, 0) =~= Seq::<PostView>::empty());
        }
        while i < self.posts.len()
            invariant
                i <= self.posts@.len(),
                q == search_view(search),
                post_views(matched@) == filter_posts(
                    self@.tags,
                    post_views(self.posts@).subrange(0, i as int),
                    q,
                ),
            decreases self.posts@.len() - i,
        {
            let p = &self.posts[i];
            let keep = self.post_matches_exec(p, &search);
            proof {
                assert(keep == post_matches(self@.tags, post_views(self.posts@)[i as int], q));
                assert(post_views(self.posts@).subrange(0, i + 1 as int).drop_last()
                    =~= post_views(self.posts@).subrange(0, i as int));
                assert(post_views(self.posts@).subrange(0, i + 1 as int).last() == post_views(
                    self.posts@,
                )[i as int]);
            }
            if keep {
                matched.push(p.clone());
            }
            proof {
                assert(post_views(matched@) =~= filter_posts(
                    self@.tags,
                    post_views(self.posts@).subrange(0, i + 1 as int),
                    q,
                ));
            }
            i = i + 1;
        }
        proof {
            assert(post_views(self.posts@).subrange(0, self.posts@.len() as int) =~= post_views(
                self.posts@,
            ));
        }
        let sorted = Store::sort_posts_by_id(matched);
        let ghost listing = sort_desc(filter_posts(self@.tags, self@.posts, q), post_key());
        let len = sorted.len();
        assert(((page - 1) as u64) * (per_page as u64) <= u64::MAX) by (nonlinear_arith)
            requires
                page >= 1,
        ;
        let off64: u64 = ((page - 1) as u64) * (per_page as u64);
        let lo: usize = if off64 < len as u64 {
            off64 as usize
        } else {
            len
        };
        let hi64: u64 = if off64 <= u64::MAX - per_page as u64 {
            off64 + per_page as u64
        } else {
            u64::MAX
        };
        let hi: usize = if hi64 < len as u64 {
            hi64 as usize
        } else {
            len
        };
        proof {
            assert(off64 == (page - 1) * per_page);
            assert(page * per_page == (page - 1) * per_page + per_page) by (nonlinear_arith);
            assert(lo as int == clamp((page - 1) * per_page, listing.len() as int));
            assert(hi as int == clamp(page * per_page, listing.len() as int));
        }
        let mut out: Vec<Post> = Vec::new();
        let mut k: usize = lo;
        proof {
            assert(post_views(out@) =~= post_views(sorted@).subrange(lo as int, lo as int));
        }
        while k < hi
            invariant
                lo <= k <= hi,
                hi <= sorted@.len(),
                post_views(sorted@) == listing,
                post_views(out@) == post_views(sorted@).subrange(lo as int, k as int),
            decreases hi - k,
        {
            let ghost pre_out = post_views(out@);
            out.push(sorted[k].clone());
            proof {
                assert(post_views(out@) =~= pre_out.push(post_views(sorted@)[k as int]));
                assert(post_views(sorted@).subrange(lo as int, k + 1 as int) =~= post_views(
                    sorted@,
                ).subrange(lo as int, k as int).push(post_views(sorted@)[k as int]));
            }
            k = k + 1;
        }
        proof {
            assert(post_views(out@) == page_slice(listing, page, per_page));
        }
        Ok(out)
    }
}

} // verus!
