//! The schema declarations of the two collections.
//!
//! The declarations are idempotent in the backing store: declaring a
//! collection that already exists leaves it as it is, so they are safe
//! to run on every write path.

use vstd::prelude::*;

verus! {

/// The declaration text of the tag collection: its fields, and the
/// uniqueness of `custom_id` and of `name`.
pub fn tag_schema() -> (r: String)
    ensures
        r@
            == "DEFINE TABLE tag SCHEMAFULL;\nDEFINE FIELD custom_id ON TABLE tag TYPE number;\nDEFINE FIELD name ON TABLE tag TYPE string;\nDEFINE FIELD description ON TABLE tag TYPE string;\nDEFINE FIELD is_alias ON TABLE tag TYPE option<number>;\nDEFINE FIELD category ON TABLE tag TYPE number;\nDEFINE FIELD implications ON TABLE tag TYPE array;\nDEFINE FIELD use_count ON TABLE tag TYPE number;\nDEFINE INDEX custom_id ON TABLE tag FIELDS custom_id UNIQUE;\nDEFINE INDEX name_unique ON TABLE tag FIELDS name UNIQUE;"@,
{
    "DEFINE TABLE tag SCHEMAFULL;\nDEFINE FIELD custom_id ON TABLE tag TYPE number;\nDEFINE FIELD name ON TABLE tag TYPE string;\nDEFINE FIELD description ON TABLE tag TYPE string;\nDEFINE FIELD is_alias ON TABLE tag TYPE option<number>;\nDEFINE FIELD category ON TABLE tag TYPE number;\nDEFINE FIELD implications ON TABLE tag TYPE array;\nDEFINE FIELD use_count ON TABLE tag TYPE number;\nDEFINE INDEX custom_id ON TABLE tag FIELDS custom_id UNIQUE;\nDEFINE INDEX name_unique ON TABLE tag FIELDS name UNIQUE;".to_owned()
}

/// The declaration text of the post collection: its fields, and the
/// uniqueness of `custom_id`.
pub fn post_schema() -> (r: String)
    ensures
        r@
            == "DEFINE TABLE post SCHEMAFULL;\nDEFINE FIELD custom_id ON post TYPE number;\nDEFINE FIELD image_height ON post TYPE number;\nDEFINE FIELD image_width ON post TYPE number;\nDEFINE FIELD mime ON post TYPE string;\nDEFINE FIELD post_type ON post TYPE string ASSERT $value IN ['Image', 'Video'];\nDEFINE FIELD safety ON post TYPE string ASSERT $value IN ['Safe', 'Sketchy', 'Unsafe'];\nDEFINE FIELD sha256_hash ON post TYPE array;\nDEFINE FIELD md5_hash ON post TYPE array;\nDEFINE FIELD source ON post TYPE string;\nDEFINE FIELD uploaded ON post TYPE datetime;\nDEFINE FIELD uploader_id ON post TYPE number;\nDEFINE FIELD tags ON post TYPE array;\nDEFINE FIELD relations ON post TYPE array;\nDEFINE INDEX post_custom_id ON post FIELDS custom_id UNIQUE;"@,
{
    "DEFINE TABLE post SCHEMAFULL;\nDEFINE FIELD custom_id ON post TYPE number;\nDEFINE FIELD image_height ON post TYPE number;\nDEFINE FIELD image_width ON post TYPE number;\nDEFINE FIELD mime ON post TYPE string;\nDEFINE FIELD post_type ON post TYPE string ASSERT $value IN ['Image', 'Video'];\nDEFINE FIELD safety ON post TYPE string ASSERT $value IN ['Safe', 'Sketchy', 'Unsafe'];\nDEFINE FIELD sha256_hash ON post TYPE array;\nDEFINE FIELD md5_hash ON post TYPE array;\nDEFINE FIELD source ON post TYPE string;\nDEFINE FIELD uploaded ON post TYPE datetime;\nDEFINE FIELD uploader_id ON post TYPE number;\nDEFINE FIELD tags ON post TYPE array;\nDEFINE FIELD relations ON post TYPE array;\nDEFINE INDEX post_custom_id ON post FIELDS custom_id UNIQUE;".to_owned()
}

} // verus!
