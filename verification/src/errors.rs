use vstd::prelude::*;

verus! {

/// Which part of the range grammar a failed parse stopped in.
///
/// A range-syntax error reports the unconsumed remainder together with one of
/// these labels, so a caller can tell whether the operator token, the
/// version-number portion, the prerelease portion, or the grouping around
/// `||` was at fault.
#[derive(Debug, Clone, Copy, PartialEq, Eq, Structural)]
pub enum ParseContext {
    /// The operator token was not one of `<`, `<=`, `>`, `>=`, `=`, `~`, `^`.
    RangeOperator,
    /// The `major[.minor[.patch]]` portion could not be read.
    VersionNumber,
    /// The prerelease portion after `-` is not a valid prerelease string.
    Prerelease,
    /// A `||` with no comparator before it, or a trailing `||` with no
    /// comparator after it.
    EmptyGroup,
}

/// The error taxonomy of the whole library.
///
/// The variants cover range-syntax errors, catalogue-version parse errors,
/// package-specifier errors, metadata fetch and decode failures, filesystem
/// failures, version-resolution failures, and a general variant used for
/// malformed tarball locations and other one-off failures. Variants that can
/// only arise at the I/O edge (client construction, fetching, decoding,
/// filesystem) are constructed by the surrounding program, not by the
/// library itself.
#[derive(Debug, Clone, PartialEq, Eq)]
pub enum CustomErrors {
    /// A version range could not be parsed: the unconsumed remainder and the
    /// sub-grammar that failed.
    VersionParse { remainder: String, context: ParseContext },
    /// A version string in a package's catalogue was rejected by the semver
    /// grammar; carries the reported message.
    CatalogueParse(String),
    /// A package specifier string could not be split into name and range.
    PackageSplit(String),
    /// A manifest file could not be read or decoded.
    PackageJsonParse(String),
    /// The HTTP client could not be constructed.
    HttpClient(String),
    /// A header value for the HTTP client could not be parsed.
    HttpHeaderParse(String),
    /// A package's metadata document could not be fetched.
    PackageManifestFetch(String),
    /// A response body could not be decoded; carries the expected format and
    /// the reported message.
    BodyParse(String, String),
    /// A directory or file operation failed.
    Fs(String),
    /// No version of the named package satisfies the request.
    Version(String),
    /// Any other failure, such as a tarball location without path segments.
    Global(String),
}

} // verus!
