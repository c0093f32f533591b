//! Faults that abort a repository's manifest resolution.

use vstd::prelude::*;

verus! {

/// A fault detected while resolving a repository's manifests. Transport
/// failures never reach this type: a failing registry call aborts resolution
/// before its results are processed. Every variant carries the digest it was
/// detected on.
///
/// Protocol faults (data-consistency violations, never silently dropped):
/// - `MissingDigest`: a requested digest for which the registry returned no
///   manifest. A partial batch response is treated as a hard error rather
///   than skipped, so that data loss cannot be masked.
/// - `UnrequestedDigest`: the registry returned a digest that was never
///   requested.
/// - `UnexpectedMediaType`: a resolved manifest whose media type is not one
///   of the recognized kinds.
/// - `ListWithinList`: a manifest list's child resolved to another list;
///   lists nest at most one level.
///
/// Parse faults (malformed JSON):
/// - `InvalidManifest`: manifest text that does not parse as an image
///   manifest.
/// - `InvalidIndex`: manifest text that does not parse as an image index.
#[derive(Debug, PartialEq, Eq)]
pub enum ResolveError {
    MissingDigest(String),
    UnrequestedDigest(String),
    UnexpectedMediaType(String),
    ListWithinList(String),
    InvalidManifest(String),
    InvalidIndex(String),
}

#[verifier::ext_equal]
pub ghost enum ResolveErrorView {
    MissingDigest(Seq<char>),
    UnrequestedDigest(Seq<char>),
    UnexpectedMediaType(Seq<char>),
    ListWithinList(Seq<char>),
    InvalidManifest(Seq<char>),
    InvalidIndex(Seq<char>),
}

impl View for ResolveError {
    type V = ResolveErrorView;

    open spec fn view(&self) -> ResolveErrorView {
        match self {
            ResolveError::MissingDigest(d) => ResolveErrorView::MissingDigest(d@),
            ResolveError::UnrequestedDigest(d) => ResolveErrorView::UnrequestedDigest(d@),
            ResolveError::UnexpectedMediaType(d) => ResolveErrorView::UnexpectedMediaType(d@),
            ResolveError::ListWithinList(d) => ResolveErrorView::ListWithinList(d@),
            ResolveError::InvalidManifest(d) => ResolveErrorView::InvalidManifest(d@),
            ResolveError::InvalidIndex(d) => ResolveErrorView::InvalidIndex(d@),
        }
    }
}

pub open spec fn spec_is_protocol(e: ResolveErrorView) -> bool {
    match e {
        ResolveErrorView::MissingDigest(_) => true,
        ResolveErrorView::UnrequestedDigest(_) => true,
        ResolveErrorView::UnexpectedMediaType(_) => true,
        ResolveErrorView::ListWithinList(_) => true,
        ResolveErrorView::InvalidManifest(_) => false,
        ResolveErrorView::InvalidIndex(_) => false,
    }
}

impl ResolveError {
    /// Whether this fault is a data-consistency (protocol) fault, as opposed
    /// to a parse fault.
    pub fn is_protocol(&self) -> (r: bool)
        ensures
            r == spec_is_protocol(self@),
    {
        match self {
            ResolveError::MissingDigest(_) => true,
            ResolveError::UnrequestedDigest(_) => true,
            ResolveError::UnexpectedMediaType(_) => true,
            ResolveError::ListWithinList(_) => true,
            ResolveError::InvalidManifest(_) => false,
            ResolveError::InvalidIndex(_) => false,
        }
    }

    /// The digest the fault was detected on.
    pub fn digest(&self) -> (r: &String)
        ensures
            self@ == ResolveErrorView::MissingDigest(r@) || self@
                == ResolveErrorView::UnrequestedDigest(r@) || self@
                == ResolveErrorView::UnexpectedMediaType(r@) || self@
                == ResolveErrorView::ListWithinList(r@) || self@
                == ResolveErrorView::InvalidManifest(r@) || self@
                == ResolveErrorView::InvalidIndex(r@),
    {
        match self {
            ResolveError::MissingDigest(d) => d,
            ResolveError::UnrequestedDigest(d) => d,
            ResolveError::UnexpectedMediaType(d) => d,
            ResolveError::ListWithinList(d) => d,
            ResolveError::InvalidManifest(d) => d,
            ResolveError::InvalidIndex(d) => d,
        }
    }
}

/// An include or exclude glob pattern that could not be compiled. Carries the
/// offending pattern.
#[derive(Debug, PartialEq, Eq)]
pub struct PatternError {
    pub pattern: String,
}

} // verus!
