//! Content-addressed file ingestion.
//!
//! An uploaded file is accepted only under an image extension; its bytes
//! are hashed, and the artifact is stored under the path
//! `<hex-lowercase-digest>.<lowercased-extension>`, so identical content
//! always lands on the identical path.

use vstd::prelude::*;

use sha2::Digest;

use crate::chars::{chars_to_string, str_chars};
use crate::post::PostCreateError;

verus! {

/// What the SHA-256 digest of a byte sequence is. The digest is a pure
/// function of the bytes; its value is fixed by the hash function.
pub uninterp spec fn sha256_of(bytes: Seq<u8>) -> Seq<u8>;

/// Relies on sha2's `Sha256::digest`: the 32-byte SHA-256 digest of the
/// input, a function of the input bytes alone.
#[verifier::external_body]
fn sha256_digest(bytes: &Vec<u8>) -> (r: [u8; 32])
    ensures
        r@ == sha256_of(bytes@),
{
    sha2::Sha256::digest(bytes.as_slice()).into()
}

/// The lowercase hexadecimal digit of a value below sixteen.
pub open spec fn hex_char(n: u8) -> char
    recommends
        n < 16,
{
    if n == 0 {
        '0'
    } else if n == 1 {
        '1'
    } else if n == 2 {
        '2'
    } else if n == 3 {
        '3'
    } else if n == 4 {
        '4'
    } else if n == 5 {
        '5'
    } else if n == 6 {
        '6'
    } else if n == 7 {
        '7'
    } else if n == 8 {
        '8'
    } else if n == 9 {
        '9'
    } else if n == 10 {
        'a'
    } else if n == 11 {
        'b'
    } else if n == 12 {
        'c'
    } else if n == 13 {
        'd'
    } else if n == 14 {
        'e'
    } else {
        'f'
    }
}

/// The lowercase hexadecimal text of a byte sequence, two digits per
/// byte, in order.
pub open spec fn hex_of(bytes: Seq<u8>) -> Seq<char>
    decreases bytes.len(),
{
    if bytes.len() == 0 {
        Seq::<char>::empty()
    } else {
        hex_of(bytes.drop_last()) + seq![
            hex_char(bytes.last() / 16),
            hex_char(bytes.last() % 16),
        ]
    }
}

fn hex_digit(n: u8) -> (c: char)
    requires
        n < 16,
    ensures
        c == hex_char(n),
{
    if n == 0 {
        '0'
    } else if n == 1 {
        '1'
    } else if n == 2 {
        '2'
    } else if n == 3 {
        '3'
    } else if n == 4 {
        '4'
    } else if n == 5 {
        '5'
    } else if n == 6 {
        '6'
    } else if n == 7 {
        '7'
    } else if n == 8 {
        '8'
    } else if n == 9 {
        '9'
    } else if n == 10 {
        'a'
    } else if n == 11 {
        'b'
    } else if n == 12 {
        'c'
    } else if n == 13 {
        'd'
    } else if n == 14 {
        'e'
    } else {
        'f'
    }
}

/// Writes a digest as lowercase hexadecimal text.
fn to_hex(bytes: &[u8; 32]) -> (r: Vec<char>)
    ensures
        r@ == hex_of(bytes@),
{
    let mut r: Vec<char> = Vec::new();
    let mut i: usize = 0;
    proof {
        assert(bytes@.subrange(0, 0) =~= Seq::<u8>::empty());
    }
    while i < 32
        invariant
            i <= 32,
            bytes@.len() == 32,
            r@ == hex_of(bytes@.subrange(0, i as int)),
        decreases 32 - i,
    {
        let b = bytes[i];
        r.push(hex_digit(b / 16));
        r.push(hex_digit(b % 16));
        proof {
            assert(bytes@.subrange(0, i + 1 as int).drop_last() =~= bytes@.subrange(0, i as int));
            assert(bytes@.subrange(0, i + 1 as int).last() == bytes@[i as int]);
            assert(r@ =~= hex_of(bytes@.subrange(0, i + 1 as int)));
        }
        i = i + 1;
    }
    proof {
        assert(bytes@.subrange(0, 32) =~= bytes@);
    }
    r
}

/// The contents of a chunk list, as a sequence of byte sequences.
pub open spec fn byte_views(chunks: Seq<Vec<u8>>) -> Seq<Seq<u8>> {
    chunks.map_values(|c: Vec<u8>| c@)
}

/// Concatenates the chunks of a streamed upload in arrival order.
fn concat_chunks(chunks: &Vec<Vec<u8>>) -> (r: Vec<u8>)
    ensures
        r@ == byte_views(chunks@).flatten(),
{
    let mut r: Vec<u8> = Vec::new();
    let mut i: usize = 0;
    proof {
        assert(byte_views(chunks@).subrange(0, 0) =~= Seq::<Seq<u8>>::empty());
    }
    while i < chunks.len()
        invariant
            i <= chunks.len(),
            r@ == byte_views(chunks@).subrange(0, i as int).flatten_alt(),
        decreases chunks.len() - i,
    {
        let chunk = &chunks[i];
        let mut j: usize = 0;
        while j < chunk.len()
            invariant
                j <= chunk.len(),
                chunk@ == chunks@[i as int]@,
                i < chunks.len(),
                r@ == byte_views(chunks@).subrange(0, i as int).flatten_alt() + chunk@.subrange(
                    0,
                    j as int,
                ),
            decreases chunk.len() - j,
        {
            r.push(chunk[j]);
            proof {
                assert(chunk@.subrange(0, j + 1 as int) =~= chunk@.subrange(0, j as int).push(
                    chunk@[j as int],
                ));
                assert(r@ =~= byte_views(chunks@).subrange(0, i as int).flatten_alt()
                    + chunk@.subrange(0, j + 1 as int));
            }
            j = j + 1;
        }
        proof {
            assert(chunk@.subrange(0, chunk@.len() as int) =~= chunk@);
            assert(byte_views(chunks@).subrange(0, i + 1 as int).drop_last() =~= byte_views(
                chunks@,
            ).subrange(0, i as int));
            assert(byte_views(chunks@).subrange(0, i + 1 as int).last() == chunk@);
            assert(r@ =~= byte_views(chunks@).subrange(0, i + 1 as int).flatten_alt());
        }
        i = i + 1;
    }
    proof {
        assert(byte_views(chunks@).subrange(0, chunks@.len() as int) =~= byte_views(chunks@));
        byte_views(chunks@).lemma_flatten_and_flatten_alt_are_equivalent();
    }
    r
}

/// Hashes a streamed upload: the digest of the concatenation of its
/// chunks in arrival order.
pub fn hash_bytes_vec(chunks: &Vec<Vec<u8>>) -> (r: [u8; 32])
    ensures
        r@ == sha256_of(byte_views(chunks@).flatten()),
{
    let whole = concat_chunks(chunks);
    sha256_digest(&whole)
}

/// The ASCII lowercase form of a character; anything but an uppercase
/// ASCII letter is left as it is.
pub open spec fn lower_char(c: char) -> char {
    if c == 'A' {
        'a'
    } else if c == 'B' {
        'b'
    } else if c == 'C' {
        'c'
    } else if c == 'D' {
        'd'
    } else if c == 'E' {
        'e'
    } else if c == 'F' {
        'f'
    } else if c == 'G' {
        'g'
    } else if c == 'H' {
        'h'
    } else if c == 'I' {
        'i'
    } else if c == 'J' {
        'j'
    } else if c == 'K' {
        'k'
    } else if c == 'L' {
        'l'
    } else if c == 'M' {
        'm'
    } else if c == 'N' {
        'n'
    } else if c == 'O' {
        'o'
    } else if c == 'P' {
        'p'
    } else if c == 'Q' {
        'q'
    } else if c == 'R' {
        'r'
    } else if c == 'S' {
        's'
    } else if c == 'T' {
        't'
    } else if c == 'U' {
        'u'
    } else if c == 'V' {
        'v'
    } else if c == 'W' {
        'w'
    } else if c == 'X' {
        'x'
    } else if c == 'Y' {
        'y'
    } else if c == 'Z' {
        'z'
    } else {
        c
    }
}

/// The ASCII lowercase form of a character sequence.
pub open spec fn lower(s: Seq<char>) -> Seq<char> {
    s.map_values(|c: char| lower_char(c))
}

fn lower_char_exec(c: char) -> (r: char)
    ensures
        r == lower_char(c),
{
    match c {
        'A' => 'a',
        'B' => 'b',
        'C' => 'c',
        'D' => 'd',
        'E' => 'e',
        'F' => 'f',
        'G' => 'g',
        'H' => 'h',
        'I' => 'i',
        'J' => 'j',
        'K' => 'k',
        'L' => 'l',
        'M' => 'm',
        'N' => 'n',
        'O' => 'o',
        'P' => 'p',
        'Q' => 'q',
        'R' => 'r',
        'S' => 's',
        'T' => 't',
        'U' => 'u',
        'V' => 'v',
        'W' => 'w',
        'X' => 'x',
        'Y' => 'y',
        'Z' => 'z',
        _ => c,
    }
}

/// Lowercases a vector of characters.
fn lower_chars(v: &Vec<char>) -> (r: Vec<char>)
    ensures
        r@ == lower(v@),
{
    let mut r: Vec<char> = Vec::new();
    let mut i: usize = 0;
    while i < v.len()
        invariant
            i <= v.len(),
            r@ == lower(v@.subrange(0, i as int)),
        decreases v.len() - i,
    {
        r.push(lower_char_exec(v[i]));
        proof {
            assert(r@ =~= lower(v@.subrange(0, i + 1 as int)));
        }
        i = i + 1;
    }
    proof {
        assert(r@ =~= lower(v@));
    }
    r
}

/// The position of the last dot of a file name, or a negative value
/// when there is none.
pub open spec fn last_dot(name: Seq<char>) -> int
    decreases name.len(),
{
    if name.len() == 0 {
        -1
    } else if name.last() == '.' {
        name.len() - 1
    } else {
        last_dot(name.drop_last())
    }
}

/// The extension of a file name: what follows the last dot, provided
/// that dot is neither missing nor the very first character. A name
/// without a usable extension yields the empty sequence, which no
/// accepted extension equals.
pub open spec fn ext_of(name: Seq<char>) -> Seq<char> {
    if last_dot(name) >= 1 {
        name.subrange(last_dot(name) + 1, name.len() as int)
    } else {
        Seq::<char>::empty()
    }
}

proof fn lemma_last_dot_bounds(name: Seq<char>)
    ensures
        -1 <= last_dot(name) < name.len(),
    decreases name.len(),
{
    if name.len() > 0 && name.last() != '.' {
        lemma_last_dot_bounds(name.drop_last());
    }
}

/// Extracts the extension of a file name.
pub fn extension_of(name: &Vec<char>) -> (r: Vec<char>)
    ensures
        r@ == ext_of(name@),
{
    let mut i: usize = name.len();
    proof {
        assert(name@.subrange(0, name@.len() as int) =~= name@);
    }
    while i > 0
        invariant
            i <= name.len(),
            last_dot(name@) == last_dot(name@.subrange(0, i as int)),
        decreases i,
    {
        if name[i - 1] == '.' {
            proof {
                assert(name@.subrange(0, i as int).last() == '.');
                assert(last_dot(name@) == i - 1);
            }
            if i >= 2 {
                let mut r: Vec<char> = Vec::new();
                let mut k: usize = i;
                while k < name.len()
                    invariant
                        i <= k <= name.len(),
                        r@ == name@.subrange(i as int, k as int),
                    decreases name.len() - k,
                {
                    r.push(name[k]);
                    proof {
                        assert(r@ =~= name@.subrange(i as int, k + 1 as int));
                    }
                    k = k + 1;
                }
                return r;
            } else {
                return Vec::new();
            }
        }
        proof {
            assert(name@.subrange(0, i as int).last() == name@[i - 1]);
            assert(name@.subrange(0, i as int).drop_last() =~= name@.subrange(0, i - 1));
        }
        i = i - 1;
    }
    proof {
        assert(name@.subrange(0, 0) =~= Seq::<char>::empty());
    }
    Vec::new()
}

/// Whether an extension, compared after lowercasing, is one of the
/// accepted image types.
pub open spec fn accepted_extension(ext: Seq<char>) -> bool {
    lower(ext) == "png"@ || lower(ext) == "webp"@ || lower(ext) == "avif"@ || lower(ext)
        == "jpg"@ || lower(ext) == "jpeg"@
}

/// Checks an extension against the accepted image types.
pub fn is_accepted_extension(ext: &Vec<char>) -> (r: bool)
    ensures
        r == accepted_extension(ext@),
{
    let low = lower_chars(ext);
    let png = str_chars("png");
    if crate::chars::eq_chars(&low, &png) {
        return true;
    }
    let webp = str_chars("webp");
    if crate::chars::eq_chars(&low, &webp) {
        return true;
    }
    let avif = str_chars("avif");
    if crate::chars::eq_chars(&low, &avif) {
        return true;
    }
    let jpg = str_chars("jpg");
    if crate::chars::eq_chars(&low, &jpg) {
        return true;
    }
    let jpeg = str_chars("jpeg");
    if crate::chars::eq_chars(&low, &jpeg) {
        return true;
    }
    false
}

/// The storage path of a file, relative to the upload root: the
/// lowercase hexadecimal digest of its content, a dot, and its
/// lowercased extension.
pub open spec fn storage_path(content: Seq<u8>, ext: Seq<char>) -> Seq<char> {
    hex_of(sha256_of(content)) + "."@ + lower(ext)
}

/// Law: the derived storage path depends on the content bytes and the
/// extension alone; files of equal bytes land on the same path whatever
/// their names, as long as the names carry the same extension.
pub proof fn lemma_deterministic_path(name1: Seq<char>, name2: Seq<char>, content: Seq<u8>)
    requires
        ext_of(name1) == ext_of(name2),
    ensures
        storage_path(content, ext_of(name1)) == storage_path(content, ext_of(name2)),
{
}

/// Derives the storage path of an upload from its declared file name
/// and its content chunks; nothing is derived for a refused extension.
pub fn storage_name(file_name: &str, chunks: &Vec<Vec<u8>>) -> (r: Option<String>)
    ensures
        match r {
            Some(p) => accepted_extension(ext_of(file_name@)) && p@ == storage_path(
                byte_views(chunks@).flatten(),
                ext_of(file_name@),
            ),
            None => !accepted_extension(ext_of(file_name@)),
        },
{
    let name = str_chars(file_name);
    let ext = extension_of(&name);
    if !is_accepted_extension(&ext) {
        return None;
    }
    let digest = hash_bytes_vec(chunks);
    let mut path = to_hex(&digest);
    let dot = str_chars(".");
    crate::query::push_seq(&mut path, &dot);
    let low = lower_chars(&ext);
    crate::query::push_seq(&mut path, &low);
    Some(chars_to_string(&path))
}

/// One artifact of the upload directory.
pub struct StoredFile {
    pub path: String,
    pub content: Vec<u8>,
}

/// One file of a multi-part submission: its declared name and its
/// content as a sequence of byte chunks.
pub struct Upload {
    pub file_name: String,
    pub chunks: Vec<Vec<u8>>,
}

/// The mathematical value of an upload.
pub struct UploadView {
    pub file_name: Seq<char>,
    pub chunks: Seq<Seq<u8>>,
}

impl View for Upload {
    type V = UploadView;

    open spec fn view(&self) -> UploadView {
        UploadView { file_name: self.file_name@, chunks: byte_views(self.chunks@) }
    }
}

/// The values of a submission's uploads.
pub open spec fn upload_views(us: Seq<Upload>) -> Seq<UploadView> {
    us.map_values(|u: Upload| u@)
}

/// The artifacts as a map from path to content; a later artifact with
/// the same path supersedes an earlier one.
pub open spec fn files_map(s: Seq<StoredFile>) -> Map<Seq<char>, Seq<u8>>
    decreases s.len(),
{
    if s.len() == 0 {
        Map::<Seq<char>, Seq<u8>>::empty()
    } else {
        files_map(s.drop_last()).insert(s.last().path@, s.last().content@)
    }
}

/// Some artifact of `s` lies at path `p`.
pub open spec fn has_path(s: Seq<StoredFile>, p: Seq<char>) -> bool {
    exists|i: int| 0 <= i < s.len() && (#[trigger] s[i].path@) == p
}

/// No two artifacts share a path.
pub open spec fn distinct_paths(s: Seq<StoredFile>) -> bool {
    forall|a: int, b: int|
        #![trigger s[a].path@, s[b].path@]
        0 <= a < b < s.len() ==> s[a].path@ != s[b].path@
}

proof fn lemma_files_map_has_path(s: Seq<StoredFile>, p: Seq<char>)
    ensures
        files_map(s).contains_key(p) <==> has_path(s, p),
    decreases s.len(),
{
    if s.len() > 0 {
        lemma_files_map_has_path(s.drop_last(), p);
        if has_path(s.drop_last(), p) {
            let i = choose|i: int|
                0 <= i < s.drop_last().len() && (#[trigger] s.drop_last()[i].path@) == p;
            assert(s[i].path@ == p);
        }
        if has_path(s, p) && s.last().path@ != p {
            let i = choose|i: int| 0 <= i < s.len() && (#[trigger] s[i].path@) == p;
            assert(s.drop_last()[i].path@ == p);
        }
    }
}

proof fn lemma_files_map_update(s: Seq<StoredFile>, i: int, f: StoredFile)
    requires
        0 <= i < s.len(),
        s[i].path@ == f.path@,
        distinct_paths(s),
    ensures
        files_map(s.update(i, f)) == files_map(s).insert(f.path@, f.content@),
    decreases s.len(),
{
    if i == s.len() - 1 {
        assert(s.update(i, f).drop_last() =~= s.drop_last());
        assert(files_map(s.update(i, f)) =~= files_map(s).insert(f.path@, f.content@));
    } else {
        assert(distinct_paths(s.drop_last())) by {
            assert(forall|a: int, b: int|
                #![trigger s.drop_last()[a].path@, s.drop_last()[b].path@]
                0 <= a < b < s.drop_last().len() ==> s.drop_last()[a].path@ == s[a].path@
                    && s.drop_last()[b].path@ == s[b].path@);
        }
        assert(s.drop_last()[i] == s[i]);
        lemma_files_map_update(s.drop_last(), i, f);
        assert(s.update(i, f).drop_last() =~= s.drop_last().update(i, f));
        assert(s.update(i, f).last() == s.last());
        assert(s.last().path@ != f.path@);
        assert(files_map(s.update(i, f)) =~= files_map(s).insert(f.path@, f.content@));
    }
}

/// The upload directory: a flat set of content-addressed artifacts.
pub struct UploadStore {
    files: Vec<StoredFile>,
}

impl View for UploadStore {
    type V = Map<Seq<char>, Seq<u8>>;

    closed spec fn view(&self) -> Map<Seq<char>, Seq<u8>> {
        files_map(self.files@)
    }
}

impl UploadStore {
    /// Each artifact lies at its own path.
    pub closed spec fn wf(self) -> bool {
        distinct_paths(self.files@)
    }

    /// How many artifacts the directory holds.
    pub closed spec fn count(self) -> nat {
        self.files@.len()
    }

    /// An empty upload directory.
    pub fn new() -> (r: UploadStore)
        ensures
            r.wf(),
            r@ == Map::<Seq<char>, Seq<u8>>::empty(),
            r.count() == 0,
    {
        let r = UploadStore { files: Vec::new() };
        proof {
            assert(r@ =~= Map::<Seq<char>, Seq<u8>>::empty());
        }
        r
    }

    /// The number of stored artifacts.
    pub fn file_count(&self) -> (n: usize)
        ensures
            n == self.count(),
    {
        self.files.len()
    }

    /// The content stored at a path, if any.
    pub fn stored_content(&self, path: &str) -> (r: Option<&Vec<u8>>)
        requires
            self.wf(),
        ensures
            match r {
                Some(c) => self@.contains_key(path@) && c@ == self@[path@],
                None => !self@.contains_key(path@),
            },
    {
        proof {
            lemma_files_map_has_path(self.files@, path@);
        }
        let mut i: usize = 0;
        while i < self.files.len()
            invariant
                self.wf(),
                i <= self.files@.len(),
                forall|j: int| 0 <= j < i ==> (#[trigger] self.files@[j].path@) != path@,
            decreases self.files@.len() - i,
        {
            let f = &self.files[i];
            if crate::chars::str_eq(f.path.as_str(), path) {
                proof {
                    lemma_stored_at(self.files@, i as int);
                    lemma_files_map_has_path(self.files@, path@);
                }
                return Some(&f.content);
            }
            i = i + 1;
        }
        proof {
            assert(!has_path(self.files@, path@));
        }
        None
    }

    /// Stores an artifact: the one at the same path is replaced, else
    /// the artifact is added.
    fn put_file(&mut self, file: StoredFile)
        requires
            old(self).wf(),
        ensures
            final(self).wf(),
            final(self)@ == old(self)@.insert(file.path@, file.content@),
            old(self)@.contains_key(file.path@) ==> final(self).count() == old(self).count(),
            !old(self)@.contains_key(file.path@) ==> final(self).count() == old(self).count()
                + 1,
    {
        proof {
            lemma_files_map_has_path(old(self).files@, file.path@);
        }
        let mut i: usize = 0;
        while i < self.files.len()
            invariant
                self.files@ == old(self).files@,
                old(self).wf(),
                i <= self.files@.len(),
                forall|j: int| 0 <= j < i ==> (#[trigger] self.files@[j].path@) != file.path@,
            decreases self.files@.len() - i,
        {
            let same = {
                let f = &self.files[i];
                crate::chars::str_eq(f.path.as_str(), file.path.as_str())
            };
            if same {
                let ghost pre = self.files@;
                proof {
                    assert(has_path(pre, file.path@));
                    lemma_files_map_has_path(pre, file.path@);
                    lemma_files_map_update(pre, i as int, file);
                }
                self.files.set(i, file);
                proof {
                    assert(forall|x: int|
                        0 <= x < self.files@.len() ==> (#[trigger] self.files@[x].path@)
                            == pre[x].path@);
                    assert(distinct_paths(self.files@));
                }
                return ;
            }
            i = i + 1;
        }
        let ghost pre = self.files@;
        proof {
            assert(!has_path(pre, file.path@));
            lemma_files_map_has_path(pre, file.path@);
        }
        self.files.push(file);
        proof {
            assert(self.files@.drop_last() =~= pre);
            assert(self.files@.last() == file);
            assert(distinct_paths(self.files@)) by {
                assert(forall|x: int|
                    0 <= x < pre.len() ==> (#[trigger] self.files@[x].path@) == pre[x].path@);
                assert(self.files@[pre.len() as int].path@ == file.path@);
            }
        }
    }
}

impl UploadStore {
    /// Ingests one file: rejected before anything is stored when the
    /// declared name has no accepted image extension; otherwise the
    /// content is written to its content-derived path — overwriting an
    /// identical artifact, never adding a second one — and the byte
    /// count is returned.
    pub fn ingest_file(&mut self, file_name: &str, chunks: &Vec<Vec<u8>>) -> (r: Result<
        usize,
        PostCreateError,
    >)
        requires
            old(self).wf(),
        ensures
            final(self).wf(),
            match r {
                Ok(n) => accepted_extension(ext_of(file_name@)) && n == byte_views(
                    chunks@,
                ).flatten().len() && final(self)@ == old(self)@.insert(
                    storage_path(byte_views(chunks@).flatten(), ext_of(file_name@)),
                    byte_views(chunks@).flatten(),
                ),
                Err(e) => e == PostCreateError::InvalidFileType && !accepted_extension(
                    ext_of(file_name@),
                ) && final(self)@ == old(self)@ && final(self).count() == old(self).count(),
            },
            r is Ok && old(self)@.contains_key(
                storage_path(byte_views(chunks@).flatten(), ext_of(file_name@)),
            ) ==> final(self).count() == old(self).count(),
            r is Ok && !old(self)@.contains_key(
                storage_path(byte_views(chunks@).flatten(), ext_of(file_name@)),
            ) ==> final(self).count() == old(self).count() + 1,
    {
        let name = str_chars(file_name);
        let ext = extension_of(&name);
        if !is_accepted_extension(&ext) {
            return Err(PostCreateError::InvalidFileType);
        }
        let content = concat_chunks(chunks);
        let digest = sha256_digest(&content);
        let mut path = to_hex(&digest);
        let dot = str_chars(".");
        crate::query::push_seq(&mut path, &dot);
        let low = lower_chars(&ext);
        crate::query::push_seq(&mut path, &low);
        let n = content.len();
        let file = StoredFile { path: chars_to_string(&path), content };
        self.put_file(file);
        Ok(n)
    }

    /// Ingests the files of one multi-part submission in order and
    /// returns the total byte count. The first file with a refused
    /// extension stops the submission with `InvalidFileType`; the files
    /// before it remain stored.
    pub fn upload_post(&mut self, uploads: &Vec<Upload>) -> (r: Result<usize, PostCreateError>)
        requires
            old(self).wf(),
            total_bytes(upload_views(uploads@)) <= usize::MAX,
        ensures
            final(self).wf(),
            final(self)@ == ingest_all(old(self)@, upload_views(uploads@)),
            all_accepted(upload_views(uploads@)) <==> r is Ok,
            r matches Ok(n) ==> n == total_bytes(upload_views(uploads@)),
            r is Err ==> r == Err::<usize, PostCreateError>(PostCreateError::InvalidFileType),
    {
        let ghost us = upload_views(uploads@);
        let mut count: usize = 0;
        let mut i: usize = 0;
        proof {
            assert(us.subrange(0, 0) =~= Seq::<UploadView>::empty());
        }
        while i < uploads.len()
            invariant
                self.wf(),
                i <= uploads@.len(),
                us == upload_views(uploads@),
                us.len() == uploads@.len(),
                total_bytes(us) <= usize::MAX,
                forall|j: int|
                    0 <= j < i ==> accepted_extension(ext_of(#[trigger] us[j].file_name)),
                self@ == ingest_all(old(self)@, us.subrange(0, i as int)),
                count == total_bytes(us.subrange(0, i as int)),
            decreases uploads@.len() - i,
        {
            let u = &uploads[i];
            let ghost sofar = us.subrange(0, i as int);
            proof {
                assert(us.subrange(0, i + 1 as int).drop_last() =~= sofar);
                assert(us.subrange(0, i + 1 as int).last() == us[i as int]);
                lemma_total_bytes_prefix(us, i + 1 as int);
            }
            match self.ingest_file(u.file_name.as_str(), &u.chunks) {
                Ok(n) => {
                    proof {
                        lemma_ingest_all_push(old(self)@, sofar, us[i as int]);
                        assert(sofar.push(us[i as int]) =~= us.subrange(0, i + 1 as int));
                    }
                    count = count + n;
                    i = i + 1;
                },
                Err(e) => {
                    proof {
                        assert(us[i as int].file_name == u.file_name@);
                        assert(!accepted_extension(ext_of(us[i as int].file_name)));
                        lemma_ingest_all_stops(old(self)@, us, i as int);
                    }
                    return Err(e);
                },
            }
        }
        proof {
            assert(us.subrange(0, us.len() as int) =~= us);
        }
        Ok(count)
    }
}

/// Every upload of the submission carries an accepted extension.
pub open spec fn all_accepted(us: Seq<UploadView>) -> bool {
    forall|j: int| 0 <= j < us.len() ==> accepted_extension(ext_of(#[trigger] us[j].file_name))
}

/// The total byte count of a submission.
pub open spec fn total_bytes(us: Seq<UploadView>) -> nat
    decreases us.len(),
{
    if us.len() == 0 {
        0
    } else {
        total_bytes(us.drop_last()) + us.last().chunks.flatten().len()
    }
}

/// What a submission leaves in the upload directory: each file's
/// content at its content-derived path, in order, stopping at the first
/// refused extension.
pub open spec fn ingest_all(m: Map<Seq<char>, Seq<u8>>, us: Seq<UploadView>) -> Map<
    Seq<char>,
    Seq<u8>,
>
    decreases us.len(),
{
    if us.len() == 0 {
        m
    } else if accepted_extension(ext_of(us[0].file_name)) {
        ingest_all(
            m.insert(
                storage_path(us[0].chunks.flatten(), ext_of(us[0].file_name)),
                us[0].chunks.flatten(),
            ),
            us.drop_first(),
        )
    } else {
        m
    }
}

proof fn lemma_total_bytes_prefix(us: Seq<UploadView>, i: int)
    requires
        0 <= i <= us.len(),
    ensures
        total_bytes(us.subrange(0, i)) <= total_bytes(us),
    decreases us.len() - i,
{
    if i < us.len() {
        lemma_total_bytes_prefix(us, i + 1);
        assert(us.subrange(0, i + 1).drop_last() =~= us.subrange(0, i));
    } else {
        assert(us.subrange(0, i) =~= us);
    }
}

proof fn lemma_ingest_all_push(m: Map<Seq<char>, Seq<u8>>, us: Seq<UploadView>, u: UploadView)
    requires
        all_accepted(us),
        accepted_extension(ext_of(u.file_name)),
    ensures
        ingest_all(m, us.push(u)) == ingest_all(m, us).insert(
            storage_path(u.chunks.flatten(), ext_of(u.file_name)),
            u.chunks.flatten(),
        ),
    decreases us.len(),
{
    if us.len() == 0 {
        assert(us.push(u)[0] == u);
        assert(us.push(u).drop_first() =~= Seq::<UploadView>::empty());
        assert(ingest_all(m, us.push(u)) == ingest_all(
            m.insert(storage_path(u.chunks.flatten(), ext_of(u.file_name)), u.chunks.flatten()),
            Seq::<UploadView>::empty(),
        ));
        assert(ingest_all(m, us) == m);
    } else {
        assert(us.push(u)[0] == us[0]);
        assert(accepted_extension(ext_of(us[0].file_name)));
        assert(us.push(u).drop_first() =~= us.drop_first().push(u));
        assert(all_accepted(us.drop_first())) by {
            assert(forall|j: int|
                0 <= j < us.drop_first().len() ==> (#[trigger] us.drop_first()[j]) == us[j + 1]);
        }
        let m2 = m.insert(
            storage_path(us[0].chunks.flatten(), ext_of(us[0].file_name)),
            us[0].chunks.flatten(),
        );
        lemma_ingest_all_push(m2, us.drop_first(), u);
        assert(ingest_all(m, us) == ingest_all(m2, us.drop_first()));
        assert(ingest_all(m, us.push(u)) == ingest_all(m2, us.drop_first().push(u)));
    }
}

proof fn lemma_ingest_all_stops(m: Map<Seq<char>, Seq<u8>>, us: Seq<UploadView>, i: int)
    requires
        0 <= i < us.len(),
        !accepted_extension(ext_of(us[i].file_name)),
        forall|j: int| 0 <= j < i ==> accepted_extension(ext_of(#[trigger] us[j].file_name)),
    ensures
        ingest_all(m, us) == ingest_all(m, us.subrange(0, i)),
    decreases us.len(),
{
    if i == 0 {
        assert(us.subrange(0, 0) =~= Seq::<UploadView>::empty());
    } else {
        let m2 = m.insert(
            storage_path(us[0].chunks.flatten(), ext_of(us[0].file_name)),
            us[0].chunks.flatten(),
        );
        assert(forall|j: int|
            0 <= j < us.drop_first().len() ==> (#[trigger] us.drop_first()[j]) == us[j + 1]);
        lemma_ingest_all_stops(m2, us.drop_first(), i - 1);
        assert(us.subrange(0, i)[0] == us[0]);
        assert(us.subrange(0, i).drop_first() =~= us.drop_first().subrange(0, i - 1));
    }
}

/// Law: ingesting the same byte content twice — under any file names
/// that carry the same extension — leaves exactly the artifact that one
/// ingestion leaves: the second write lands on the same path with the
/// same content and changes nothing.
pub proof fn lemma_ingest_idempotent(
    m: Map<Seq<char>, Seq<u8>>,
    content: Seq<u8>,
    ext: Seq<char>,
)
    ensures
        m.insert(storage_path(content, ext), content).insert(storage_path(content, ext), content)
            == m.insert(storage_path(content, ext), content),
{
    assert(m.insert(storage_path(content, ext), content).insert(
        storage_path(content, ext),
        content,
    ) =~= m.insert(storage_path(content, ext), content));
}

proof fn lemma_stored_at(s: Seq<StoredFile>, i: int)
    requires
        0 <= i < s.len(),
        distinct_paths(s),
    ensures
        files_map(s).contains_key(s[i].path@),
        files_map(s)[s[i].path@] == s[i].content@,
    decreases s.len(),
{
    if i < s.len() - 1 {
        assert(distinct_paths(s.drop_last())) by {
            assert(forall|a: int, b: int|
                #![trigger s.drop_last()[a].path@, s.drop_last()[b].path@]
                0 <= a < b < s.drop_last().len() ==> s.drop_last()[a].path@ == s[a].path@
                    && s.drop_last()[b].path@ == s[b].path@);
        }
        assert(s.drop_last()[i] == s[i]);
        lemma_stored_at(s.drop_last(), i);
        assert(s.last().path@ != s[i].path@);
    }
}

} // verus!
