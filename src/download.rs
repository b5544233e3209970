//! Where release archives and their checksums are fetched from, and how a
//! downloaded archive is checked.
use vstd::prelude::*;

use crate::catalog::NodeVersion;
use crate::config::Config;
use crate::text::{lower_of, lowercase, str_eq};

verus! {

/// The OS part of an archive name for an operating system as
/// `std::env::consts::OS` names it.
pub open spec fn os_label(os: Seq<char>) -> Seq<char> {
    if os == "macos"@ {
        "darwin"@
    } else {
        os
    }
}

/// The archive file name of a release for a platform: a zip on Windows, a
/// gzipped tarball elsewhere.
pub open spec fn archive_name(version: Seq<char>, os: Seq<char>, arch: Seq<char>) -> Seq<char> {
    if os == "windows"@ {
        "node-"@ + version + "-win-"@ + arch + ".zip"@
    } else {
        "node-"@ + version + "-"@ + os_label(os) + "-"@ + arch + ".tar.gz"@
    }
}

pub open spec fn download_url(mirror: Seq<char>, version: Seq<char>, os: Seq<char>, arch: Seq<char>) -> Seq<
    char,
> {
    mirror + "/"@ + version + "/"@ + archive_name(version, os, arch)
}

/// The archive's file name for the configured platform.
pub fn get_archive_name(version: &str, config: &Config) -> (r: String)
    ensures
        r@ == archive_name(version@, config.os@, config.arch@),
{
    proof {
        reveal_strlit("windows");
        reveal_strlit("macos");
        reveal_strlit("darwin");
        reveal_strlit("node-");
        reveal_strlit("-win-");
        reveal_strlit(".zip");
        reveal_strlit("-");
        reveal_strlit(".tar.gz");
    }
    let mut s = String::from_str("node-");
    s.append(version);
    if str_eq(config.os.as_str(), "windows") {
        s.append("-win-");
        s.append(config.arch.as_str());
        s.append(".zip");
    } else {
        s.append("-");
        if str_eq(config.os.as_str(), "macos") {
            s.append("darwin");
        } else {
            s.append(config.os.as_str());
        }
        s.append("-");
        s.append(config.arch.as_str());
        s.append(".tar.gz");
    }
    s
}

/// The URL of a release's archive for the configured platform.
pub fn get_download_url(version: &NodeVersion, config: &Config) -> (r: String)
    ensures
        r@ == download_url(config.node_mirror@, version.version@, config.os@, config.arch@),
{
    proof {
        reveal_strlit("/");
    }
    let name = get_archive_name(version.version.as_str(), config);
    let mut s = config.node_mirror.clone();
    s.append("/");
    s.append(version.version.as_str());
    s.append("/");
    s.append(name.as_str());
    s
}

/// The URL of a release's checksum list.
pub fn get_checksum_url(version: &str, config: &Config) -> (r: String)
    ensures
        r@ == config.node_mirror@ + "/"@ + version@ + "/SHASUMS256.txt"@,
{
    proof {
        reveal_strlit("/");
        reveal_strlit("/SHASUMS256.txt");
    }
    let mut s = config.node_mirror.clone();
    s.append("/");
    s.append(version);
    s.append("/SHASUMS256.txt");
    s
}

/// The SHA-256 digest of the bytes in lowercase hexadecimal.
pub uninterp spec fn sha256_hex_of(data: Seq<u8>) -> Seq<char>;

/// Relies on `sha2::Sha256::digest` and the `LowerHex` form of its output:
/// 32 bytes, written as 64 hexadecimal digits.
#[verifier::external_body]
fn sha256_hex(data: &[u8]) -> (r: String)
    ensures
        r@ == sha256_hex_of(data@),
        r@.len() == 64,
{
    format!("{:x}", <sha2::Sha256 as sha2::Digest>::digest(data))
}

/// A downloaded archive whose digest is not the published one.
#[derive(Debug, Clone, PartialEq, Eq)]
pub struct ChecksumMismatch {
    pub expected: String,
    pub actual: String,
}

/// Whether two hexadecimal digests are the same, regardless of case.
pub fn checksums_match(actual: &str, expected: &str) -> (r: bool)
    ensures
        r == (lower_of(actual@) == lower_of(expected@)),
{
    let a = lowercase(actual);
    let e = lowercase(expected);
    str_eq(a.as_str(), e.as_str())
}

/// The SHA-256 digest of the bytes, in lowercase hexadecimal.
pub fn calculate_checksum(data: &[u8]) -> (r: String)
    ensures
        r@ == sha256_hex_of(data@),
        r@.len() == 64,
{
    sha256_hex(data)
}

/// Checks an archive's bytes against the published digest, regardless of
/// case.
pub fn verify_checksum(data: &[u8], expected: &str) -> (r: Result<(), ChecksumMismatch>)
    ensures
        r is Ok <==> lower_of(sha256_hex_of(data@)) == lower_of(expected@),
        r is Err ==> r->Err_0.expected@ == expected@ && r->Err_0.actual@ == sha256_hex_of(data@),
{
    let actual = sha256_hex(data);
    if checksums_match(actual.as_str(), expected) {
        Ok(())
    } else {
        Err(ChecksumMismatch { expected: String::from_str(expected), actual })
    }
}

} // verus!
