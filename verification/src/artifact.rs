use vstd::prelude::*;

use crate::errors::CustomErrors;
use crate::registry::ResolvedSet;

verus! {

/// What the SHA-1 function returns for a byte sequence.
pub uninterp spec fn sha1_of(b: Seq<u8>) -> Seq<u8>;

/// Relies on `sha1::Sha1` through the `Digest` interface: the digest is a
/// function of the input bytes alone, and is 20 bytes long.
#[verifier::external_body]
fn sha1_digest(data: &Vec<u8>) -> (r: Vec<u8>)
    ensures
        r@ == sha1_of(data@),
        r@.len() == 20,
{
    <sha1::Sha1 as sha1::Digest>::digest(data.as_slice()).to_vec()
}

/// The lowercase hex digit for a value below sixteen.
pub open spec fn hex_digit(n: int) -> char {
    if n == 0 {
        '0'
    } else if n == 1 {
        '1'
    } else if n == 2 {
        '2'
    } else if n == 3 {
        '3'
    } else if n == 4 {
        '4'
    } else if n == 5 {
        '5'
    } else if n == 6 {
        '6'
    } else if n == 7 {
        '7'
    } else if n == 8 {
        '8'
    } else if n == 9 {
        '9'
    } else if n == 10 {
        'a'
    } else if n == 11 {
        'b'
    } else if n == 12 {
        'c'
    } else if n == 13 {
        'd'
    } else if n == 14 {
        'e'
    } else {
        'f'
    }
}

/// The lowercase hex encoding of a byte sequence: two digits per byte, high
/// nibble first.
pub open spec fn hex_of(b: Seq<u8>) -> Seq<char> {
    Seq::new(
        b.len() * 2,
        |i: int|
            if i % 2 == 0 {
                hex_digit(b[i / 2] as int / 16)
            } else {
                hex_digit(b[i / 2] as int % 16)
            },
    )
}

/// Relies on `base16ct::lower::encode_string`: the lowercase hex encoding
/// of the input bytes, two digits per byte, high nibble first. The length
/// bound keeps the doubled length representable, which the encoder demands.
#[verifier::external_body]
fn hex_lower(data: &Vec<u8>) -> (r: String)
    requires
        data@.len() * 2 <= usize::MAX,
    ensures
        r@ == hex_of(data@),
{
    base16ct::lower::encode_string(data.as_slice())
}

/// Whether two characters are equal up to ASCII case.
pub open spec fn char_eq_ci(a: char, b: char) -> bool {
    ||| a == b
    ||| ('A' <= a && a <= 'Z' && (b as int) == (a as int) + 32)
    ||| ('A' <= b && b <= 'Z' && (a as int) == (b as int) + 32)
}

/// Whether two character sequences are equal up to ASCII case.
pub open spec fn seq_eq_ci(a: Seq<char>, b: Seq<char>) -> bool {
    a.len() == b.len() && forall|i: int| 0 <= i < a.len() ==> char_eq_ci(#[trigger] a[i], b[i])
}

/// Whether `a` and `b` are equal up to ASCII case.
fn str_eq_ci(a: &str, b: &str) -> (r: bool)
    ensures
        r == seq_eq_ci(a@, b@),
{
    let na = a.unicode_len();
    let nb = b.unicode_len();
    if na != nb {
        return false;
    }
    let mut i: usize = 0;
    while i < na
        invariant
            0 <= i <= na,
            na == a@.len(),
            na == b@.len(),
            forall|k: int| 0 <= k < i ==> char_eq_ci(#[trigger] a@[k], b@[k]),
        decreases na - i,
    {
        let x = a.get_char(i);
        let y = b.get_char(i);
        let eq = x == y || ('A' <= x && x <= 'Z' && (y as u32) == (x as u32) + 32) || ('A' <= y && y
            <= 'Z' && (x as u32) == (y as u32) + 32);
        if !eq {
            assert(!char_eq_ci(a@[i as int], b@[i as int]));
            return false;
        }
        i += 1;
    }
    true
}

/// Whether the stored bytes are the ones the integrity digest promises:
/// their SHA-1 digest, written as lowercase hex, equals the expected digest
/// up to ASCII case. The fetcher keeps an already-stored file, with no new
/// retrieval, exactly when this holds; otherwise the file is fetched again
/// and overwritten.
pub fn stored_digest_matches(data: &Vec<u8>, expected: &str) -> (r: bool)
    ensures
        r == seq_eq_ci(hex_of(sha1_of(data@)), expected@),
{
    let digest = sha1_digest(data);
    let hexs = hex_lower(&digest);
    str_eq_ci(hexs.as_str(), expected)
}

/// What the last path segment of a parsed location is.
pub uninterp spec fn url_last_path_segment(s: Seq<char>) -> Option<Seq<char>>;

/// Relies on `url::Url::parse` and `url::Url::path_segments`: the last
/// path segment of the parsed location, a function of the text alone;
/// failure means the text does not parse as an absolute location or the
/// location cannot have path segments. The error carries the reported
/// message.
#[verifier::external_body]
fn last_path_segment(url: &str) -> (r: Result<String, String>)
    ensures
        r matches Ok(f) ==> url_last_path_segment(url@) == Some(f@),
        r matches Err(_) ==> url_last_path_segment(url@) is None,
{
    let parsed = match url::Url::parse(url) {
        Ok(u) => u,
        Err(e) => return Err(e.to_string()),
    };
    let segments = match parsed.path_segments() {
        Some(s) => s,
        None => return Err(format!("no path segments in {}", url)),
    };
    match segments.last() {
        Some(f) => Ok(f.to_string()),
        None => Err(format!("no last path segment in {}", url)),
    }
}

/// The name under which a fetched archive is stored: the last path segment
/// of its tarball location. A location without one is a failure of the
/// general kind.
pub fn tarball_filename(url: &str) -> (r: Result<String, CustomErrors>)
    ensures
        r matches Ok(f) ==> url_last_path_segment(url@) == Some(f@),
        r matches Err(e) ==> url_last_path_segment(url@) is None && e matches CustomErrors::Global(
            _,
        ),
{
    match last_path_segment(url) {
        Ok(f) => Ok(f),
        Err(m) => Err(CustomErrors::Global(m)),
    }
}

/// One archive retrieval: the package name and resolved version it belongs
/// to, the expected integrity digest, and the tarball location.
#[derive(Debug, Clone, PartialEq, Eq)]
pub struct DownloadTask {
    pub name: String,
    pub version: String,
    pub shasum: String,
    pub tarball: String,
}

/// One download task per `(name, version)` item of a final resolved set,
/// in order, carrying that entry's digest and tarball location.
pub fn download_tasks(set: &ResolvedSet) -> (r: Vec<DownloadTask>)
    ensures
        r@.len() == set@.len(),
        forall|k: int|
            0 <= k < r@.len() ==> ((#[trigger] r@[k]).name@ == set@[k].0 && r@[k].version@
                == set@[k].1 && r@[k].shasum@ == set@[k].2.dist.shasum && r@[k].tarball@
                == set@[k].2.dist.tarball),
{
    let ghost sv = set@;
    let n = set.items.len();
    let mut out: Vec<DownloadTask> = Vec::new();
    let mut i: usize = 0;
    while i < n
        invariant
            0 <= i <= n,
            n == set.items@.len(),
            sv == set@,
            out@.len() == i,
            forall|k: int|
                0 <= k < i ==> ((#[trigger] out@[k]).name@ == sv[k].0 && out@[k].version@
                    == sv[k].1 && out@[k].shasum@ == sv[k].2.dist.shasum && out@[k].tarball@
                    == sv[k].2.dist.tarball),
        decreases n - i,
    {
        proof {
            assert(sv[i as int] == (set.items@[i as int].0@, set.items@[i as int].1@,
            set.items@[i as int].2@));
        }
        let item = &set.items[i];
        out.push(
            DownloadTask {
                name: item.0.clone(),
                version: item.1.clone(),
                shasum: item.2.dist.shasum.clone(),
                tarball: item.2.dist.tarball.clone(),
            },
        );
        i += 1;
    }
    out
}

} // verus!
