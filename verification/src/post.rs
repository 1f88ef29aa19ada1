//! The post record and its error kinds.

use vstd::prelude::*;

verus! {

/// How safe a post is for general viewing.
#[derive(Clone, Copy, Debug, PartialEq, Eq, Structural)]
pub enum Safety {
    Safe,
    Sketchy,
    Unsafe,
}

/// The kind of media a post holds.
#[derive(Clone, Copy, Debug, PartialEq, Eq, Structural)]
pub enum PostType {
    Image,
    Video,
}

/// A post row as the store keeps it. The media type is kept as its MIME
/// text, the upload instant as seconds of the Unix epoch.
#[derive(Debug, PartialEq)]
pub struct Post {
    pub custom_id: u64,
    pub image_height: u32,
    pub image_width: u32,
    pub mime: String,
    pub post_type: PostType,
    pub safety: Safety,
    pub sha256_hash: [u8; 32],
    pub md5_hash: [u8; 16],
    pub source: String,
    pub uploaded: i64,
    pub uploader_id: u32,
    pub tags: Vec<u64>,
    pub relations: Vec<u64>,
}

/// The mathematical value of a post row.
pub struct PostView {
    pub custom_id: u64,
    pub image_height: u32,
    pub image_width: u32,
    pub mime: Seq<char>,
    pub post_type: PostType,
    pub safety: Safety,
    pub sha256_hash: Seq<u8>,
    pub md5_hash: Seq<u8>,
    pub source: Seq<char>,
    pub uploaded: i64,
    pub uploader_id: u32,
    pub tags: Seq<u64>,
    pub relations: Seq<u64>,
}

impl View for Post {
    type V = PostView;

    open spec fn view(&self) -> PostView {
        PostView {
            custom_id: self.custom_id,
            image_height: self.image_height,
            image_width: self.image_width,
            mime: self.mime@,
            post_type: self.post_type,
            safety: self.safety,
            sha256_hash: self.sha256_hash@,
            md5_hash: self.md5_hash@,
            source: self.source@,
            uploaded: self.uploaded,
            uploader_id: self.uploader_id,
            tags: self.tags@,
            relations: self.relations@,
        }
    }
}

impl Clone for Post {
    fn clone(&self) -> (r: Post)
        ensures
            r@ == self@,
    {
        Post {
            custom_id: self.custom_id,
            image_height: self.image_height,
            image_width: self.image_width,
            mime: self.mime.clone(),
            post_type: self.post_type,
            safety: self.safety,
            sha256_hash: self.sha256_hash,
            md5_hash: self.md5_hash,
            source: self.source.clone(),
            uploaded: self.uploaded,
            uploader_id: self.uploader_id,
            tags: crate::tag::clone_ids(&self.tags),
            relations: crate::tag::clone_ids(&self.relations),
        }
    }
}

/// Why creating a post was refused.
#[derive(Debug, PartialEq)]
pub enum PostCreateError {
    /// Posts with the same content digest already exist; their ids are
    /// carried so the caller can decide what to do with them.
    DuplicatePostsFound(Vec<u64>),
    /// The file is not one of the accepted image types.
    InvalidFileType,
}

/// Why searching posts failed.
#[derive(Debug, PartialEq)]
pub enum PostSearchError {
    NoSuchPosts,
    InvalidQuery,
}

} // verus!
