use maerbooru::post::{Post, PostCreateError, PostSearchError, PostType, Safety};
use maerbooru::store::{Store, TagError};
use maerbooru::tag::Tag;

fn tag_named(name: &str) -> Tag {
    Tag {
        custom_id: 0,
        name: String::from(name),
        description: String::new(),
        is_alias: None,
        category: 0,
        implications: vec![],
        use_count: 0,
    }
}

fn post_with_hash(byte: u8, tags: Vec<u64>) -> Post {
    let mut sha = [0u8; 32];
    sha[0] = byte;
    Post {
        custom_id: 0,
        image_height: 100,
        image_width: 100,
        mime: String::from("image/png"),
        post_type: PostType::Image,
        safety: Safety::Safe,
        sha256_hash: sha,
        md5_hash: [0u8; 16],
        source: String::new(),
        uploaded: 0,
        uploader_id: 1,
        tags,
        relations: vec![],
    }
}

#[test]
fn duplicate_tag_name_is_a_conflict() {
    let mut db = Store::new();
    let first_id = db.add_new_tag(&tag_named("lain")).unwrap();

    let second = db.add_new_tag(&tag_named("lain"));
    assert_eq!(
        second,
        Err(TagError::DuplicateName {
            existing_id: first_id
        })
    );

    let found = db.get_tag_by_name("lain").unwrap().unwrap();
    assert_eq!(found.custom_id, first_id);
    assert_eq!(found.name, "lain");
}

#[test]
fn invalid_tag_name_kinds() {
    let mut db = Store::new();
    assert_eq!(
        db.add_new_tag(&tag_named("UPPERCASEISWRONG")),
        Err(TagError::InvalidName)
    );
    assert_eq!(
        db.add_new_tag(&tag_named("wrong name")),
        Err(TagError::InvalidName)
    );
    assert_eq!(db.add_new_tag(&tag_named("")), Err(TagError::InvalidName));
    assert!(db.add_new_tag(&tag_named("this_is_(not-so-wrong:uwu)")).is_ok());
}

#[test]
fn ids_are_unique_and_increasing() {
    let mut db = Store::new();
    let mut last: u64 = 0;
    for i in 0..20u32 {
        let id = db.add_new_tag(&tag_named(&format!("tag{}", i))).unwrap();
        assert!(id > last, "each allocation must hand out a larger id");
        last = id;
    }
}

#[test]
fn allocation_survives_a_conflict() {
    let mut db = Store::new();
    let a = db.add_new_tag(&tag_named("one")).unwrap();
    let _ = db.add_new_tag(&tag_named("one"));
    let b = db.add_new_tag(&tag_named("two")).unwrap();
    assert!(b > a);
    assert_ne!(a, b);
}

#[test]
fn pagination_round_trip() {
    let mut db = Store::new();
    let mut tag_ids: Vec<u64> = vec![];
    for i in 0..100u32 {
        let id = db.add_new_tag(&tag_named(&format!("tag{}", i))).unwrap();
        tag_ids.push(id);
    }
    // The k-th tag ends up referenced by k posts, so the use counts
    // run from 0 to 99.
    for j in 1..100usize {
        let refs: Vec<u64> = tag_ids[j..].to_vec();
        db.add_new_post(&post_with_hash(j as u8, refs)).unwrap();
    }

    let page1 = db.get_paginated_tags(1, 40, None).unwrap();
    let page2 = db.get_paginated_tags(2, 40, None).unwrap();
    let page3 = db.get_paginated_tags(3, 40, None).unwrap();
    let page4 = db.get_paginated_tags(4, 40, None).unwrap();

    assert_eq!(page1.len(), 40);
    assert_eq!(page2.len(), 40);
    assert_eq!(page3.len(), 20);
    assert_eq!(page4.len(), 0);

    assert_eq!(page1[0].use_count, 99);
    assert_eq!(page1[39].use_count, 60);
    assert_eq!(page2[0].use_count, 59);
    assert_eq!(page2[39].use_count, 20);
    assert_eq!(page3[0].use_count, 19);
    assert_eq!(page3[19].use_count, 0);

    let mut seen: Vec<u64> = vec![];
    for t in page1.iter().chain(page2.iter()).chain(page3.iter()) {
        seen.push(t.use_count);
    }
    for w in seen.windows(2) {
        assert!(w[0] > w[1], "use counts must strictly descend here");
    }
}

#[test]
fn pagination_is_stable_for_equal_counts() {
    let mut db = Store::new();
    let a = db.add_new_tag(&tag_named("first")).unwrap();
    let b = db.add_new_tag(&tag_named("second")).unwrap();
    let rows = db.get_paginated_tags(1, 10, None).unwrap();
    assert_eq!(rows.len(), 2);
    assert_eq!(rows[0].custom_id, a, "equal counts keep store order");
    assert_eq!(rows[1].custom_id, b);
}

#[test]
fn pagination_rejects_zero_arguments() {
    let db = Store::new();
    assert_eq!(
        db.get_paginated_tags(0, 10, None),
        Err(TagError::InvalidPagination)
    );
    assert_eq!(
        db.get_paginated_tags(1, 0, None),
        Err(TagError::InvalidPagination)
    );
}

#[test]
fn tag_search_filters_the_listing() {
    let mut db = Store::new();
    db.add_new_tag(&tag_named("lainverse")).unwrap();
    db.add_new_tag(&tag_named("xlain")).unwrap();
    db.add_new_tag(&tag_named("magicalgirls")).unwrap();

    let rows = db
        .get_paginated_tags(1, 10, Some(String::from("lain*")))
        .unwrap();
    assert_eq!(rows.len(), 1);
    assert_eq!(rows[0].name, "lainverse");

    let all = db
        .get_paginated_tags(1, 10, Some(String::from("**")))
        .unwrap();
    assert_eq!(all.len(), 3);
}

#[test]
fn duplicate_post_digest_is_reported_with_ids() {
    let mut db = Store::new();
    let created = db.add_new_post(&post_with_hash(7, vec![])).unwrap().unwrap();

    let second = db.add_new_post(&post_with_hash(7, vec![]));
    assert_eq!(
        second,
        Err(PostCreateError::DuplicatePostsFound(vec![created.custom_id]))
    );

    let other = db.add_new_post(&post_with_hash(8, vec![]));
    assert!(other.is_ok());
}

#[test]
fn post_found_and_removed_by_id() {
    let mut db = Store::new();
    let created = db.add_new_post(&post_with_hash(1, vec![])).unwrap().unwrap();
    let found = db.get_post_by_id(created.custom_id).unwrap().unwrap();
    assert_eq!(found, created);

    db.remove_post(created.custom_id).unwrap();
    assert!(db.get_post_by_id(created.custom_id).unwrap().is_none());

    db.remove_post(created.custom_id).unwrap();
}

#[test]
fn post_listing_is_newest_first_and_searchable_by_tag() {
    let mut db = Store::new();
    let lain_id = db.add_new_tag(&tag_named("lainverse")).unwrap();
    let girls_id = db.add_new_tag(&tag_named("magicalgirls")).unwrap();

    let p1 = db
        .add_new_post(&post_with_hash(1, vec![lain_id]))
        .unwrap()
        .unwrap();
    let p2 = db
        .add_new_post(&post_with_hash(2, vec![girls_id]))
        .unwrap()
        .unwrap();
    let p3 = db
        .add_new_post(&post_with_hash(3, vec![lain_id, girls_id]))
        .unwrap()
        .unwrap();

    let all = db.get_paginated_posts(1, 10, None).unwrap();
    assert_eq!(all.len(), 3);
    assert_eq!(all[0].custom_id, p3.custom_id);
    assert_eq!(all[1].custom_id, p2.custom_id);
    assert_eq!(all[2].custom_id, p1.custom_id);

    let lain_posts = db
        .get_paginated_posts(1, 10, Some(String::from("lain*")))
        .unwrap();
    assert_eq!(lain_posts.len(), 2);
    assert_eq!(lain_posts[0].custom_id, p3.custom_id);
    assert_eq!(lain_posts[1].custom_id, p1.custom_id);

    assert_eq!(
        db.get_paginated_posts(0, 10, None),
        Err(PostSearchError::InvalidQuery)
    );
    assert_eq!(
        db.get_paginated_posts(1, 0, None),
        Err(PostSearchError::InvalidQuery)
    );
}

#[test]
fn created_tag_starts_unused() {
    let mut db = Store::new();
    let mut tag = tag_named("fresh");
    tag.use_count = 7;
    tag.custom_id = 42;
    let id = db.add_new_tag(&tag).unwrap();
    assert_eq!(id, 1, "the given id is ignored, a fresh one is allocated");
    let stored = db.get_tag_by_id(id).unwrap().unwrap();
    assert_eq!(stored.use_count, 0, "a created tag has no uses yet");
}

#[test]
fn use_counts_follow_posts() {
    let mut db = Store::new();
    let lain_id = db.add_new_tag(&tag_named("lainverse")).unwrap();
    let girls_id = db.add_new_tag(&tag_named("magicalgirls")).unwrap();

    let p1 = db
        .add_new_post(&post_with_hash(1, vec![lain_id]))
        .unwrap()
        .unwrap();
    db.add_new_post(&post_with_hash(2, vec![lain_id, girls_id]))
        .unwrap()
        .unwrap();

    assert_eq!(db.get_tag_by_id(lain_id).unwrap().unwrap().use_count, 2);
    assert_eq!(db.get_tag_by_id(girls_id).unwrap().unwrap().use_count, 1);

    db.remove_post(p1.custom_id).unwrap();
    assert_eq!(db.get_tag_by_id(lain_id).unwrap().unwrap().use_count, 1);
    assert_eq!(db.get_tag_by_id(girls_id).unwrap().unwrap().use_count, 1);
}

#[test]
fn empty_store_finds_and_lists_nothing() {
    let db = Store::new();
    assert!(db.get_tag_by_id(1).unwrap().is_none());
    assert!(db.get_tag_by_name("anything").unwrap().is_none());
    assert!(db.get_post_by_id(1).unwrap().is_none());
    assert_eq!(db.get_paginated_tags(1, 10, None).unwrap(), vec![]);
    assert_eq!(db.get_paginated_posts(1, 10, None).unwrap(), vec![]);
}

#[test]
fn schema_declarations_are_idempotent() {
    let mut db = Store::new();
    db.define_tag_table().unwrap();
    db.define_tag_table().unwrap();
    db.define_post_table().unwrap();
    db.define_post_table().unwrap();
    let id = db.add_new_tag(&tag_named("tag")).unwrap();
    assert_eq!(id, 1);
}

#[test]
fn schema_texts_declare_the_collections() {
    let tag_schema = maerbooru::schema::tag_schema();
    assert!(tag_schema.starts_with("DEFINE TABLE tag SCHEMAFULL;"));
    assert!(tag_schema.contains("DEFINE INDEX name_unique ON TABLE tag FIELDS name UNIQUE;"));
    let post_schema = maerbooru::schema::post_schema();
    assert!(post_schema.starts_with("DEFINE TABLE post SCHEMAFULL;"));
    assert!(post_schema.contains("DEFINE INDEX post_custom_id ON post FIELDS custom_id UNIQUE;"));
}

#[test]
fn fresh_tag_shapes() {
    let t = Tag::new(
        String::from("name"),
        String::from("desc"),
        Some(3),
        2,
        vec![1, 2],
    );
    assert_eq!(t.custom_id, 0);
    assert_eq!(t.use_count, 0);
    assert_eq!(t.name, "name");
    assert_eq!(t.description, "desc");
    assert_eq!(t.is_alias, Some(3));
    assert_eq!(t.category, 2);
    assert_eq!(t.implications, vec![1, 2]);

    let d = Tag::default();
    assert_eq!(d.name, "newtag");
    assert_eq!(d.category, 1);
    assert_eq!(d.custom_id, 0);
    assert_eq!(d.use_count, 0);
    assert!(d.implications.is_empty());
    assert!(d.is_alias.is_none());
}
