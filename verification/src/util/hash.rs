//! Content hashes: BLAKE3 for the store, SHA-256 for repository checksums,
//! both written as lowercase hexadecimal.
use vstd::prelude::*;
use vstd::string::StrSliceExecFns;
use vstd::utf8::encode_utf8;
use sha2::Digest;
use crate::error::SpmError;
use crate::package::store::has_parent_component;
use crate::text::push_str;

verus! {

/// The BLAKE3 hash of `data`, by name.
pub uninterp spec fn blake3_digest(data: Seq<u8>) -> Seq<u8>;

/// The SHA-256 hash of `data`, by name.
pub uninterp spec fn sha256_digest(data: Seq<u8>) -> Seq<u8>;

/// `blake3::hash`: the 32-byte (`OUT_LEN`) BLAKE3 hash of `data`, a
/// function of `data` alone.
#[verifier::external_body]
fn blake3_bytes(data: &[u8]) -> (r: Vec<u8>)
    ensures
        r@ == blake3_digest(data@),
        r@.len() == 32,
{
    blake3::hash(data).as_bytes().to_vec()
}

/// `Sha256::digest` of `sha2`: the 32-byte SHA-256 hash of `data`, a
/// function of `data` alone.
#[verifier::external_body]
fn sha256_bytes(data: &[u8]) -> (r: Vec<u8>)
    ensures
        r@ == sha256_digest(data@),
        r@.len() == 32,
{
    sha2::Sha256::digest(data).as_slice().to_vec()
}

/// The lowercase hexadecimal digit of `d` (below 16).
pub open spec fn hex_digit(d: int) -> char {
    if d < 10 {
        (48 + d) as char
    } else {
        (87 + d) as char
    }
}

/// Each byte as two lowercase hexadecimal digits, high half first.
pub open spec fn hex_text(b: Seq<u8>) -> Seq<char>
    decreases b.len(),
{
    if b.len() == 0 {
        Seq::empty()
    } else {
        hex_text(b.drop_last()) + seq![hex_digit((b.last() / 16) as int), hex_digit((b.last() % 16) as int)]
    }
}

pub proof fn lemma_hex_len(b: Seq<u8>)
    ensures
        hex_text(b).len() == 2 * b.len(),
    decreases b.len(),
{
    if b.len() > 0 {
        lemma_hex_len(b.drop_last());
    }
}

fn hex_char(d: u8) -> (c: char)
    requires
        d < 16,
    ensures
        c == hex_digit(d as int),
{
    if d < 10 {
        (d + 48) as char
    } else {
        (d + 87) as char
    }
}

/// `bytes` in lowercase hexadecimal.
pub fn hex_encode(bytes: &[u8]) -> (r: String)
    ensures
        r@ == hex_text(bytes@),
{
    let mut r = String::new();
    let mut i: usize = 0;
    while i < bytes.len()
        invariant
            i <= bytes@.len(),
            r@ == hex_text(bytes@.take(i as int)),
        decreases bytes.len() - i,
    {
        let b = bytes[i];
        r.push(hex_char(b / 16));
        r.push(hex_char(b % 16));
        proof {
            let t = bytes@.take(i + 1);
            assert(t.drop_last() =~= bytes@.take(i as int));
            assert(t.last() == b);
        }
        i += 1;
    }
    proof {
        assert(bytes@.take(bytes@.len() as int) =~= bytes@);
    }
    r
}

/// The BLAKE3 hash of `data` in hexadecimal (64 characters).
pub fn hash_bytes(data: &[u8]) -> (r: String)
    ensures
        r@ == hex_text(blake3_digest(data@)),
        r@.len() == 64,
{
    let d = blake3_bytes(data);
    proof {
        lemma_hex_len(d@);
    }
    hex_encode(d.as_slice())
}

/// The SHA-256 hash of `data` in hexadecimal (64 characters).
pub fn sha256_hex(data: &[u8]) -> (r: String)
    ensures
        r@ == hex_text(sha256_digest(data@)),
        r@.len() == 64,
{
    let d = sha256_bytes(data);
    proof {
        lemma_hex_len(d@);
    }
    hex_encode(d.as_slice())
}

// ---------------------------------------------------------------------------
// Directories
// ---------------------------------------------------------------------------

/// The bytes a directory's hash covers: for each entry, in order, its path
/// relative to the directory, then its content (for a symbolic link, the
/// link's target).
pub open spec fn dir_stream(entries: Seq<(Seq<char>, Seq<u8>)>) -> Seq<u8>
    decreases entries.len(),
{
    if entries.len() == 0 {
        Seq::empty()
    } else {
        dir_stream(entries.drop_last()) + encode_utf8(entries.last().0) + entries.last().1
    }
}

pub open spec fn dir_entries_view(v: Seq<(String, Vec<u8>)>) -> Seq<(Seq<char>, Seq<u8>)> {
    v.map_values(|e: (String, Vec<u8>)| (e.0@, e.1@))
}

pub open spec fn dir_traversal_text(rel: Seq<char>) -> Seq<char> {
    "Path traversal detected: '"@ + rel + seq!['\'']
}

/// The first entry whose relative path climbs out of the directory.
pub open spec fn first_climbing(entries: Seq<(Seq<char>, Seq<u8>)>, i: int) -> bool {
    &&& 0 <= i < entries.len()
    &&& has_parent_component(entries[i].0)
    &&& forall|j: int| 0 <= j < i ==> !has_parent_component(#[trigger] entries[j].0)
}

/// The hash of a directory from its entries (files and symbolic links, by
/// path relative to it, sorted by name).  BLAKE3 hashes data fed in parts
/// as it hashes the parts joined, so this is the hash of `dir_stream`.  An
/// entry whose path has a `..` component refuses the directory.
pub fn hash_dir_entries(entries: &Vec<(String, Vec<u8>)>) -> (r: Result<String, SpmError>)
    ensures
        match r {
            Ok(h) => (forall|j: int| 0 <= j < entries@.len() ==> !has_parent_component(#[trigger] entries@[j].0@))
                && h@ == hex_text(blake3_digest(dir_stream(dir_entries_view(entries@)))),
            Err(e) => exists|i: int| first_climbing(dir_entries_view(entries@), i) && (e matches SpmError::Io(m)
                && m@ == dir_traversal_text(entries@[i].0@)),
        },
{
    let ghost ev = dir_entries_view(entries@);
    let mut stream: Vec<u8> = Vec::new();
    let mut i: usize = 0;
    proof {
        assert(ev.take(0) =~= Seq::<(Seq<char>, Seq<u8>)>::empty());
    }
    while i < entries.len()
        invariant
            i <= entries@.len(),
            ev == dir_entries_view(entries@),
            stream@ == dir_stream(ev.take(i as int)),
            forall|j: int| 0 <= j < i ==> !has_parent_component(#[trigger] entries@[j].0@),
        decreases entries.len() - i,
    {
        if crate::package::store::sanitize_relative(entries[i].0.as_str()).is_err() {
            let mut m = String::new();
            push_str(&mut m, "Path traversal detected: '");
            push_str(&mut m, entries[i].0.as_str());
            m.push('\'');
            proof {
                assert(m@ =~= dir_traversal_text(entries@[i as int].0@));
                assert(ev[i as int].0 == entries@[i as int].0@);
                assert forall|j: int| 0 <= j < i implies !has_parent_component(#[trigger] ev[j].0) by {
                    assert(ev[j].0 == entries@[j].0@);
                }
                assert(first_climbing(ev, i as int));
            }
            return Err(SpmError::Io(m));
        }
        let rel = entries[i].0.as_str().as_bytes_vec();
        let mut k: usize = 0;
        let ghost before = stream@;
        while k < rel.len()
            invariant
                k <= rel@.len(),
                stream@ == before + rel@.take(k as int),
            decreases rel.len() - k,
        {
            stream.push(rel[k]);
            proof {
                assert(rel@.take(k + 1) =~= rel@.take(k as int).push(rel@[k as int]));
            }
            k += 1;
        }
        let ghost mid = stream@;
        let data = &entries[i].1;
        let mut k: usize = 0;
        while k < data.len()
            invariant
                k <= data@.len(),
                stream@ == mid + data@.take(k as int),
            decreases data.len() - k,
        {
            stream.push(data[k]);
            proof {
                assert(data@.take(k + 1) =~= data@.take(k as int).push(data@[k as int]));
            }
            k += 1;
        }
        proof {
            assert(rel@.take(rel@.len() as int) =~= rel@);
            assert(data@.take(data@.len() as int) =~= data@);
            let t = ev.take(i + 1);
            assert(t.drop_last() =~= ev.take(i as int));
            assert(t.last() == (entries@[i as int].0@, entries@[i as int].1@));
            assert(stream@ =~= dir_stream(ev.take(i as int)) + encode_utf8(entries@[i as int].0@) + entries@[i as int].1@);
        }
        i += 1;
    }
    proof {
        assert(ev.take(ev.len() as int) =~= ev);
    }
    let d = blake3_bytes(stream.as_slice());
    Ok(hex_encode(d.as_slice()))
}

} // verus!
