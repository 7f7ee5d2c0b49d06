//! Digest computation: a closed set of algorithms, the digest of a byte
//! string through the outside hash crates, lowercase hex rendering, and the
//! manifest-line fragment `"<hex-digest>  <path>\n"`.
use vstd::prelude::*;

verus! {

/// The set of digest algorithms the engine recognizes.
#[derive(Clone, Copy, Debug, PartialEq, Eq, Structural)]
pub enum Algorithm {
    Sha1,
    Md5,
    Sha224,
    Sha256,
    Sha384,
    Sha512,
}

/// What `md5::Md5` computes of a byte string.
pub uninterp spec fn md5_of(data: Seq<u8>) -> Seq<u8>;

/// What `sha1::Sha1` computes of a byte string.
pub uninterp spec fn sha1_of(data: Seq<u8>) -> Seq<u8>;

/// What `sha2::Sha224` computes of a byte string.
pub uninterp spec fn sha224_of(data: Seq<u8>) -> Seq<u8>;

/// What `sha2::Sha256` computes of a byte string.
pub uninterp spec fn sha256_of(data: Seq<u8>) -> Seq<u8>;

/// What `sha2::Sha384` computes of a byte string.
pub uninterp spec fn sha384_of(data: Seq<u8>) -> Seq<u8>;

/// What `sha2::Sha512` computes of a byte string.
pub uninterp spec fn sha512_of(data: Seq<u8>) -> Seq<u8>;

/// Relies on `md5::Md5` through `digest::Digest::digest`: the digest is a
/// function of the input bytes alone and is 16 bytes long.
#[verifier::external_body]
fn md5_bytes(data: &[u8]) -> (r: Vec<u8>)
    ensures
        r@ == md5_of(data@),
        r@.len() == 16,
{
    <md5::Md5 as digest::Digest>::digest(data).to_vec()
}

/// Relies on `sha1::Sha1` through `digest::Digest::digest`: the digest is a
/// function of the input bytes alone and is 20 bytes long.
#[verifier::external_body]
fn sha1_bytes(data: &[u8]) -> (r: Vec<u8>)
    ensures
        r@ == sha1_of(data@),
        r@.len() == 20,
{
    <sha1::Sha1 as digest::Digest>::digest(data).to_vec()
}

/// Relies on `sha2::Sha224` through `digest::Digest::digest`: the digest is
/// a function of the input bytes alone and is 28 bytes long.
#[verifier::external_body]
fn sha224_bytes(data: &[u8]) -> (r: Vec<u8>)
    ensures
        r@ == sha224_of(data@),
        r@.len() == 28,
{
    <sha2::Sha224 as digest::Digest>::digest(data).to_vec()
}

/// Relies on `sha2::Sha256` through `digest::Digest::digest`: the digest is
/// a function of the input bytes alone and is 32 bytes long.
#[verifier::external_body]
fn sha256_bytes(data: &[u8]) -> (r: Vec<u8>)
    ensures
        r@ == sha256_of(data@),
        r@.len() == 32,
{
    <sha2::Sha256 as digest::Digest>::digest(data).to_vec()
}

/// Relies on `sha2::Sha384` through `digest::Digest::digest`: the digest is
/// a function of the input bytes alone and is 48 bytes long.
#[verifier::external_body]
fn sha384_bytes(data: &[u8]) -> (r: Vec<u8>)
    ensures
        r@ == sha384_of(data@),
        r@.len() == 48,
{
    <sha2::Sha384 as digest::Digest>::digest(data).to_vec()
}

/// Relies on `sha2::Sha512` through `digest::Digest::digest`: the digest is
/// a function of the input bytes alone and is 64 bytes long.
#[verifier::external_body]
fn sha512_bytes(data: &[u8]) -> (r: Vec<u8>)
    ensures
        r@ == sha512_of(data@),
        r@.len() == 64,
{
    <sha2::Sha512 as digest::Digest>::digest(data).to_vec()
}

impl Algorithm {
    /// Number of bytes in a digest produced by this algorithm.
    pub open spec fn spec_output_len(&self) -> nat {
        match self {
            Algorithm::Sha1 => 20,
            Algorithm::Md5 => 16,
            Algorithm::Sha224 => 28,
            Algorithm::Sha256 => 32,
            Algorithm::Sha384 => 48,
            Algorithm::Sha512 => 64,
        }
    }

    pub fn output_len(&self) -> (n: usize)
        ensures
            n == self.spec_output_len(),
    {
        match self {
            Algorithm::Sha1 => 20,
            Algorithm::Md5 => 16,
            Algorithm::Sha224 => 28,
            Algorithm::Sha256 => 32,
            Algorithm::Sha384 => 48,
            Algorithm::Sha512 => 64,
        }
    }

    /// Number of hexadecimal characters in the rendered digest.
    pub fn hex_width(&self) -> (n: usize)
        ensures
            n == 2 * self.spec_output_len(),
    {
        match self {
            Algorithm::Sha1 => 40,
            Algorithm::Md5 => 32,
            Algorithm::Sha224 => 56,
            Algorithm::Sha256 => 64,
            Algorithm::Sha384 => 96,
            Algorithm::Sha512 => 128,
        }
    }

    /// The algorithm a configuration name selects, if it is recognized.
    pub open spec fn spec_from_name(name: Seq<char>) -> Option<Algorithm> {
        if name == "sha1"@ {
            Some(Algorithm::Sha1)
        } else if name == "md5"@ {
            Some(Algorithm::Md5)
        } else if name == "sha224"@ {
            Some(Algorithm::Sha224)
        } else if name == "sha256"@ {
            Some(Algorithm::Sha256)
        } else if name == "sha384"@ {
            Some(Algorithm::Sha384)
        } else if name == "sha512"@ {
            Some(Algorithm::Sha512)
        } else {
            None
        }
    }

    pub fn from_name(name: &str) -> (r: Option<Algorithm>)
        ensures
            r == Algorithm::spec_from_name(name@),
    {
        if crate::text::str_eq(name, "sha1") {
            Some(Algorithm::Sha1)
        } else if crate::text::str_eq(name, "md5") {
            Some(Algorithm::Md5)
        } else if crate::text::str_eq(name, "sha224") {
            Some(Algorithm::Sha224)
        } else if crate::text::str_eq(name, "sha256") {
            Some(Algorithm::Sha256)
        } else if crate::text::str_eq(name, "sha384") {
            Some(Algorithm::Sha384)
        } else if crate::text::str_eq(name, "sha512") {
            Some(Algorithm::Sha512)
        } else {
            None
        }
    }
}

/// The digest that the selected algorithm assigns to a byte string.
pub open spec fn spec_digest_of(alg: Algorithm, data: Seq<u8>) -> Seq<u8> {
    match alg {
        Algorithm::Sha1 => sha1_of(data),
        Algorithm::Md5 => md5_of(data),
        Algorithm::Sha224 => sha224_of(data),
        Algorithm::Sha256 => sha256_of(data),
        Algorithm::Sha384 => sha384_of(data),
        Algorithm::Sha512 => sha512_of(data),
    }
}

/// The lowercase hexadecimal digit for a value below 16.
pub open spec fn spec_hex_digit(n: u8) -> char {
    if n < 10 {
        (('0' as u8) + n) as char
    } else {
        (('a' as u8) + (n - 10)) as char
    }
}

/// Lowercase hex encoding: two digits for each byte, high nibble first.
pub open spec fn spec_hex_encode(data: Seq<u8>) -> Seq<char> {
    Seq::new(
        2 * data.len(),
        |i: int|
            if i % 2 == 0 {
                spec_hex_digit(data[i / 2] / 16)
            } else {
                spec_hex_digit(data[i / 2] % 16)
            },
    )
}

/// Relies on `hex::encode`: lowercase output, two hex digits for each input
/// byte, high nibble first.
#[verifier::external_body]
fn hex_lower(data: &Vec<u8>) -> (r: String)
    ensures
        r@ == spec_hex_encode(data@),
{
    hex::encode(data.as_slice())
}

/// The digest of a byte string under the selected algorithm, computed by
/// the outside hash crates.
pub fn compute_digest(alg: Algorithm, data: &Vec<u8>) -> (r: Vec<u8>)
    ensures
        r@ == spec_digest_of(alg, data@),
        r@.len() == alg.spec_output_len(),
{
    match alg {
        Algorithm::Sha1 => sha1_bytes(data.as_slice()),
        Algorithm::Md5 => md5_bytes(data.as_slice()),
        Algorithm::Sha224 => sha224_bytes(data.as_slice()),
        Algorithm::Sha256 => sha256_bytes(data.as_slice()),
        Algorithm::Sha384 => sha384_bytes(data.as_slice()),
        Algorithm::Sha512 => sha512_bytes(data.as_slice()),
    }
}

/// The manifest-line fragment for a file's bytes: the lowercase hex digest,
/// two spaces, the path, and a newline.
pub open spec fn spec_fragment(alg: Algorithm, data: Seq<u8>, path: Seq<char>) -> Seq<char> {
    spec_hex_encode(spec_digest_of(alg, data)) + "  "@ + path + "\n"@
}

/// Renders the manifest-line fragment for a file whose full contents are
/// `data`.
pub fn hash_content(alg: Algorithm, data: &Vec<u8>, path: &str) -> (r: String)
    ensures
        r@ == spec_fragment(alg, data@, path@),
{
    let digest = compute_digest(alg, data);
    let mut line = hex_lower(&digest);
    line.append("  ");
    line.append(path);
    line.append("\n");
    line
}

/// The failure of one hashing task: the cause, and the path it struck.
#[derive(Debug)]
pub struct HashError {
    pub source: String,
    pub path: String,
}

impl HashError {
    pub fn new(source: String, path: String) -> (e: HashError)
        ensures
            e.source == source,
            e.path == path,
    {
        HashError { source, path }
    }

    /// The error rendered as `"<cause>: <path>"`.
    pub fn message(&self) -> (r: String)
        ensures
            r@ == self.source@ + ": "@ + self.path@,
    {
        let mut m = self.source.clone();
        m.append(": ");
        m.append(self.path.as_str());
        m
    }
}

} // verus!
