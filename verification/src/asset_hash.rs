//! SHA-256 digests of packaged model files: an incremental hasher whose
//! view is what it absorbed, the lower-case hex rendering that manifests declare, and the
//! framing of a directory package (its files in path order, each written as
//! its relative path, a NUL byte, then its contents).

use vstd::prelude::*;
use vstd::string::StringSliceAdditionalSpecFns;
use sha2::Digest;
use crate::bytes::{byte_order, spec_byte_order, ByteOrder};
use crate::candidate::{first_index, is_first, lemma_first_index};
use crate::manifest_text::{digit, digit_char};
use crate::text::string_push;

verus! {

#[verifier::external_type_specification]
#[verifier::external_body]
pub struct ExSha256(sha2::Sha256);

/// The SHA-256 digest (32 bytes) of `data`, as FIPS 180-4 defines it.
pub uninterp spec fn spec_sha256(data: Seq<u8>) -> Seq<u8>;

/// The bytes a `sha2::Sha256` hasher has absorbed since it was created, in
/// order.
pub uninterp spec fn sha256_absorbed(h: sha2::Sha256) -> Seq<u8>;

/// `sha2::Sha256::new` (`Digest::new`): a hasher that has absorbed nothing.
#[verifier::external_body]
fn sha256_new() -> (h: sha2::Sha256)
    ensures
        sha256_absorbed(h) == Seq::<u8>::empty(),
{
    sha2::Sha256::new()
}

/// `Digest::update` on a `sha2::Sha256`: absorbs `chunk` after what the
/// hasher absorbed before.
#[verifier::external_body]
fn sha256_update(h: &mut sha2::Sha256, chunk: &[u8])
    ensures
        sha256_absorbed(*final(h)) == sha256_absorbed(*old(h)) + chunk@,
{
    h.update(chunk)
}

/// `Digest::finalize` on a `sha2::Sha256`: the SHA-256 digest of every
/// byte the hasher absorbed, in order.
#[verifier::external_body]
fn sha256_finalize(h: sha2::Sha256) -> (d: Vec<u8>)
    ensures
        d@ == spec_sha256(sha256_absorbed(h)),
{
    h.finalize().to_vec()
}

/// An incremental SHA-256 hasher; its view is every byte it absorbed.
pub struct AssetHasher {
    inner: sha2::Sha256,
}

impl View for AssetHasher {
    type V = Seq<u8>;

    closed spec fn view(&self) -> Seq<u8> {
        sha256_absorbed(self.inner)
    }
}

/// `b` as lower-case hexadecimal, two digits per byte.
pub open spec fn hex_lower(b: Seq<u8>) -> Seq<char>
    decreases b.len(),
{
    if b.len() == 0 {
        Seq::empty()
    } else {
        hex_lower(b.drop_last()) + seq![digit_char((b.last() / 16) as nat), digit_char((b.last() % 16) as nat)]
    }
}

/// A packaged file as the package digest frames it: its relative path, a
/// NUL byte, then its contents.
pub open spec fn package_frame(relative: Seq<u8>, contents: Seq<u8>) -> Seq<u8> {
    relative + seq![0u8] + contents
}

/// The bytes a package digest covers: the frames of its files, in order.
pub open spec fn package_stream(files: Seq<(Seq<u8>, Seq<u8>)>) -> Seq<u8>
    decreases files.len(),
{
    if files.len() == 0 {
        Seq::empty()
    } else {
        package_stream(files.drop_last()) + package_frame(files.last().0, files.last().1)
    }
}

impl AssetHasher {
    /// A hasher that has been fed nothing.
    pub fn new() -> (h: Self)
        ensures
            h@ == Seq::<u8>::empty(),
    {
        AssetHasher { inner: sha256_new() }
    }

    /// Feeds `chunk` after what came before.
    pub fn update(&mut self, chunk: &[u8])
        ensures
            final(self)@ == old(self)@ + chunk@,
    {
        sha256_update(&mut self.inner, chunk);
    }

    /// Starts a packaged file: feeds its relative path, then a NUL byte.
    pub fn begin_package_file(&mut self, relative: &str)
        ensures
            final(self)@ == old(self)@ + relative.spec_bytes() + seq![0u8],
    {
        self.update(relative.as_bytes());
        let nul: [u8; 1] = [0u8];
        self.update(nul.as_slice());
        proof {
            assert(nul@ =~= seq![0u8]);
        }
    }

    /// The digest of everything fed.
    pub fn finalize(self) -> (d: Vec<u8>)
        ensures
            d@ == spec_sha256(self@),
    {
        sha256_finalize(self.inner)
    }

    /// The digest of everything fed, as lower-case hexadecimal.
    pub fn hex_digest(self) -> (s: String)
        ensures
            s@ == hex_lower(spec_sha256(self@)),
    {
        let d = self.finalize();
        sha256_hex(d.as_slice())
    }
}

/// `d` as lower-case hexadecimal, two digits per byte (as `{:x}` renders a
/// digest).
pub fn sha256_hex(d: &[u8]) -> (s: String)
    ensures
        s@ == hex_lower(d@),
{
    let mut s = String::new();
    let mut i: usize = 0;
    while i < d.len()
        invariant
            i <= d@.len(),
            s@ == hex_lower(d@.take(i as int)),
        decreases d@.len() - i,
    {
        let b = d[i];
        string_push(&mut s, digit((b / 16) as u64));
        string_push(&mut s, digit((b % 16) as u64));
        proof {
            let t = d@.take(i + 1);
            assert(t.drop_last() =~= d@.take(i as int));
            assert(t.last() == b);
        }
        i = i + 1;
    }
    proof {
        assert(d@.take(i as int) =~= d@);
    }
    s
}

/// The UTF-8 bytes of a relative path.
pub open spec fn path_bytes(s: String) -> Seq<u8> {
    vstd::utf8::encode_utf8(s@)
}

/// The file comes after a file with path `key`.
pub open spec fn path_after<T>(key: Seq<u8>) -> spec_fn((String, T)) -> bool {
    |x: (String, T)| spec_byte_order(path_bytes(x.0), key) == ByteOrder::Greater
}

/// `x` joins a path-sorted list just before the first file whose path is
/// greater (after every file with an equal or smaller path).
pub open spec fn insert_by_path<T>(sorted: Seq<(String, T)>, x: (String, T)) -> Seq<(String, T)> {
    sorted.insert(first_index(sorted, path_after::<T>(path_bytes(x.0))), x)
}

/// `files` sorted by relative path, stably (insertion in order).
pub open spec fn sorted_by_path<T>(files: Seq<(String, T)>) -> Seq<(String, T)>
    decreases files.len(),
{
    if files.len() == 0 {
        Seq::empty()
    } else {
        insert_by_path(sorted_by_path(files.drop_last()), files.last())
    }
}

fn path_position<T>(files: &Vec<(String, T)>, end: usize, key: &String) -> (p: usize)
    requires
        end <= files@.len(),
    ensures
        p as int == first_index(files@.take(end as int), path_after::<T>(path_bytes(*key))),
        p <= end,
{
    let ghost s = files@.take(end as int);
    let ghost f = path_after::<T>(path_bytes(*key));
    let mut i: usize = 0;
    while i < end
        invariant
            end <= files@.len(),
            s == files@.take(end as int),
            f == path_after::<T>(path_bytes(*key)),
            i <= end,
            forall|j: int| 0 <= j < i ==> !(#[trigger] f(s[j])),
        decreases end - i,
    {
        let o = byte_order(files[i].0.as_str().as_bytes(), key.as_str().as_bytes());
        if o == ByteOrder::Greater {
            proof {
                assert(s[i as int] == files@[i as int]);
                lemma_first_index(s, f, i as int);
            }
            return i;
        }
        assert(s[i as int] == files@[i as int]);
        i = i + 1;
    }
    proof {
        lemma_first_index(s, f, i as int);
    }
    i
}

/// Puts a package's files in the order its digest covers them: sorted by
/// relative path, stably ([`sorted_by_path`]).
pub fn sort_package_files<T>(files: &mut Vec<(String, T)>)
    ensures
        final(files)@ == sorted_by_path(old(files)@),
{
    let ghost orig = files@;
    let n = files.len();
    let mut i: usize = 0;
    proof {
        assert(orig.take(0) =~= Seq::<(String, T)>::empty());
        assert(files@ =~= sorted_by_path(orig.take(0)) + orig.skip(0));
    }
    while i < n
        invariant
            n == orig.len(),
            i <= n,
            files@.len() == n,
            files@ == sorted_by_path(orig.take(i as int)) + orig.skip(i as int),
        decreases n - i,
    {
        let ghost sorted = sorted_by_path(orig.take(i as int));
        proof {
            lemma_sorted_len(orig.take(i as int));
            assert(files@[i as int] == orig[i as int]);
        }
        let x = files.remove(i);
        proof {
            assert(files@ =~= sorted + orig.skip(i + 1));
            assert(files@.take(i as int) =~= sorted);
        }
        let p = path_position(files, i, &x.0);
        files.insert(p, x);
        proof {
            let t = orig.take(i + 1);
            assert(t.drop_last() =~= orig.take(i as int));
            assert(t.last() == orig[i as int]);
            assert(sorted_by_path(t) == insert_by_path(sorted, orig[i as int]));
            assert(files@ =~= sorted.insert(p as int, x) + orig.skip(i + 1));
        }
        i = i + 1;
    }
    proof {
        assert(orig.take(n as int) =~= orig);
        assert(orig.skip(n as int) =~= Seq::<(String, T)>::empty());
        assert(files@ =~= sorted_by_path(orig));
    }
}

/// A package held in memory, as its digest frames it: each file's path
/// bytes and contents.
pub open spec fn package_frames(files: Seq<(String, Vec<u8>)>) -> Seq<(Seq<u8>, Seq<u8>)> {
    files.map_values(|f: (String, Vec<u8>)| (path_bytes(f.0), f.1@))
}

/// The digest of a package whose files are held in memory: sorts them by
/// relative path ([`sort_package_files`]), then hashes each file's frame in
/// that order, and renders the digest as lower-case hexadecimal.
pub fn package_digest_hex(files: &mut Vec<(String, Vec<u8>)>) -> (s: String)
    ensures
        final(files)@ == sorted_by_path(old(files)@),
        s@ == hex_lower(spec_sha256(package_stream(package_frames(final(files)@)))),
{
    sort_package_files(files);
    let mut h = AssetHasher::new();
    let mut i: usize = 0;
    proof {
        assert(package_frames(files@.take(0)) =~= Seq::<(Seq<u8>, Seq<u8>)>::empty());
    }
    while i < files.len()
        invariant
            i <= files@.len(),
            h@ == package_stream(package_frames(files@.take(i as int))),
        decreases files@.len() - i,
    {
        h.begin_package_file(files[i].0.as_str());
        h.update(files[i].1.as_slice());
        proof {
            let t = files@.take(i + 1);
            assert(t.drop_last() =~= files@.take(i as int));
            assert(package_frames(t).drop_last() =~= package_frames(files@.take(i as int)));
            assert(package_frames(t).last() == (path_bytes(files@[i as int].0), files@[i as int].1@));
            assert(h@ =~= package_stream(package_frames(t)));
        }
        i = i + 1;
    }
    proof {
        assert(files@.take(i as int) =~= files@);
    }
    h.hex_digest()
}

proof fn lemma_sorted_len<T>(files: Seq<(String, T)>)
    ensures
        sorted_by_path(files).len() == files.len(),
    decreases files.len(),
{
    if files.len() > 0 {
        lemma_sorted_len(files.drop_last());
        crate::personal::lemma_first_index_exists(
            sorted_by_path(files.drop_last()),
            path_after::<T>(path_bytes(files.last().0)),
        );
    }
}

} // verus!
