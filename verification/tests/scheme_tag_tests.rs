use maerbooru::store::Store;
use maerbooru::tag::Tag;

#[test]
fn tag_create_and_find_tag_by_id() {
    let mut db = Store::new();

    db.define_tag_table().unwrap();

    let tag = Tag {
        custom_id: 0,
        name: String::from("test_tag"),
        description: String::from("what the fuck??"),
        is_alias: None,
        use_count: 0,
        category: 0,
        implications: vec![],
    };

    let new_tag_id = db.add_new_tag(&tag).unwrap();

    let found_tag = db
        .get_tag_by_id(new_tag_id)
        .unwrap()
        .expect("tag should exist by now");

    assert_eq!(
        Tag {
            custom_id: found_tag.custom_id,
            ..tag
        },
        found_tag
    );
}

#[test]
fn tag_create_and_find_tag_by_name() {
    let mut db = Store::new();

    db.define_tag_table().unwrap();

    let tag = Tag {
        custom_id: 0,
        name: String::from("test_tag"),
        description: String::from("what the fuck??"),
        is_alias: None,
        use_count: 0,
        category: 0,
        implications: vec![],
    };

    let _ = db.add_new_tag(&tag).unwrap();

    let found_tag = db
        .get_tag_by_name("test_tag")
        .unwrap()
        .expect("tag should exist by now");

    assert_eq!(
        Tag {
            custom_id: found_tag.custom_id,
            ..tag
        },
        found_tag
    );
}
