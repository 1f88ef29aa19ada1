use maerbooru::post::PostCreateError;
use maerbooru::upload::{hash_bytes_vec, storage_name, Upload, UploadStore};

const ABC_SHA256_HEX: &str = "ba7816bf8f01cfea414140de5dae2223b00361a396177a9cb410ff61f20015ad";

#[test]
fn digest_is_over_the_chunk_concatenation() {
    let whole = hash_bytes_vec(&vec![b"abc".to_vec()]);
    let chunked = hash_bytes_vec(&vec![b"a".to_vec(), b"bc".to_vec()]);
    assert_eq!(whole, chunked);
    assert_eq!(whole[0], 0xba);
    assert_eq!(whole[1], 0x78);
    assert_eq!(whole[31], 0xad);
}

#[test]
fn storage_path_is_digest_and_lowercased_extension() {
    let chunks = vec![b"abc".to_vec()];
    let path = storage_name("a.PNG", &chunks).unwrap();
    assert_eq!(path, format!("{}.png", ABC_SHA256_HEX));

    let same = storage_name("other_name.png", &chunks).unwrap();
    assert_eq!(path, same);

    let again = storage_name("a.PNG", &chunks).unwrap();
    assert_eq!(path, again);

    assert!(storage_name("evil.exe", &chunks).is_none());
    assert!(storage_name("noextension", &chunks).is_none());
    assert!(storage_name(".png", &chunks).is_none());
}

#[test]
fn rejected_extension_writes_nothing() {
    let mut dir = UploadStore::new();
    let r = dir.ingest_file("evil.exe", &vec![b"abc".to_vec()]);
    assert_eq!(r, Err(PostCreateError::InvalidFileType));
    assert_eq!(dir.file_count(), 0);
}

#[test]
fn mixed_case_extension_is_accepted_and_normalized() {
    let mut dir = UploadStore::new();
    let n = dir.ingest_file("a.PNG", &vec![b"abc".to_vec()]).unwrap();
    assert_eq!(n, 3);
    assert_eq!(dir.file_count(), 1);
    let path = format!("{}.png", ABC_SHA256_HEX);
    let stored = dir.stored_content(&path).expect("artifact should exist");
    assert_eq!(stored.as_slice(), b"abc");
}

#[test]
fn ingest_is_idempotent() {
    let mut dir = UploadStore::new();
    let first = dir.ingest_file("one.png", &vec![b"abc".to_vec()]).unwrap();
    let second = dir.ingest_file("two.PNG", &vec![b"ab".to_vec(), b"c".to_vec()]).unwrap();
    assert_eq!(first, 3);
    assert_eq!(second, 3);
    assert_eq!(dir.file_count(), 1, "identical content collapses to one artifact");

    let other = dir.ingest_file("three.png", &vec![b"xyz".to_vec()]).unwrap();
    assert_eq!(other, 3);
    assert_eq!(dir.file_count(), 2);
}

#[test]
fn submission_accumulates_byte_counts() {
    let mut dir = UploadStore::new();
    let uploads = vec![
        Upload {
            file_name: String::from("a.png"),
            chunks: vec![b"abc".to_vec()],
        },
        Upload {
            file_name: String::from("b.jpeg"),
            chunks: vec![b"defgh".to_vec()],
        },
    ];
    let total = dir.upload_post(&uploads).unwrap();
    assert_eq!(total, 8);
    assert_eq!(dir.file_count(), 2);
}

#[test]
fn submission_stops_at_the_first_refused_file() {
    let mut dir = UploadStore::new();
    let uploads = vec![
        Upload {
            file_name: String::from("a.png"),
            chunks: vec![b"abc".to_vec()],
        },
        Upload {
            file_name: String::from("evil.exe"),
            chunks: vec![b"defgh".to_vec()],
        },
        Upload {
            file_name: String::from("c.webp"),
            chunks: vec![b"ijk".to_vec()],
        },
    ];
    let r = dir.upload_post(&uploads);
    assert_eq!(r, Err(PostCreateError::InvalidFileType));
    assert_eq!(dir.file_count(), 1, "files before the refused one remain");
}

#[test]
fn empty_content_hashes_to_the_empty_digest() {
    let mut dir = UploadStore::new();
    let n = dir.ingest_file("empty.jpg", &vec![]).unwrap();
    assert_eq!(n, 0);
    let path = "e3b0c44298fc1c149afbf4c8996fb92427ae41e4649b934ca495991b7852b855.jpg";
    let stored = dir.stored_content(path).expect("artifact should exist");
    assert!(stored.is_empty());
}
