//! Manifest media types, descriptors, and raw batch results.

use vstd::prelude::*;

verus! {

/// The kind of a manifest, as told by its media type: a single-architecture
/// image manifest, or a manifest list (image index) referencing several
/// per-platform manifests.
#[derive(Debug, Clone, Copy, PartialEq, Eq, Hash, Structural)]
pub enum ManifestType {
    Image,
    List,
}

/// The classification a media type string receives: the two OCI and the two
/// Docker media types are recognized, everything else is not.
pub open spec fn spec_manifest_type_of(s: Seq<char>) -> Option<ManifestType> {
    if s == "application/vnd.oci.image.manifest.v1+json"@
        || s == "application/vnd.docker.distribution.manifest.v2+json"@ {
        Some(ManifestType::Image)
    } else if s == "application/vnd.oci.image.index.v1+json"@
        || s == "application/vnd.docker.distribution.manifest.list.v2+json"@ {
        Some(ManifestType::List)
    } else {
        None
    }
}

impl ManifestType {
    /// Classifies a manifest media type string; `None` for a media type that
    /// is not one of the two recognized kinds.
    pub fn from_str(s: &str) -> (r: Option<ManifestType>)
        ensures
            r == spec_manifest_type_of(s@),
    {
        let o: String = s.to_owned();
        if o == "application/vnd.oci.image.manifest.v1+json".to_owned()
            || o == "application/vnd.docker.distribution.manifest.v2+json".to_owned() {
            Some(ManifestType::Image)
        } else if o == "application/vnd.oci.image.index.v1+json".to_owned()
            || o == "application/vnd.docker.distribution.manifest.list.v2+json".to_owned() {
            Some(ManifestType::List)
        } else {
            None
        }
    }
}

/// The target platform a descriptor may be annotated with.
#[derive(Debug)]
pub struct Platform {
    pub architecture: String,
    pub os: String,
}

#[verifier::ext_equal]
pub ghost struct PlatformView {
    pub architecture: Seq<char>,
    pub os: Seq<char>,
}

impl View for Platform {
    type V = PlatformView;

    open spec fn view(&self) -> PlatformView {
        PlatformView { architecture: self.architecture@, os: self.os@ }
    }
}

impl Clone for Platform {
    fn clone(&self) -> (r: Self)
        ensures
            r@ == self@,
    {
        Platform { architecture: self.architecture.clone(), os: self.os.clone() }
    }
}

/// A reference to a child manifest inside a manifest list: digest, media type
/// and size, optionally annotated with the target platform.
#[derive(Debug)]
pub struct Descriptor {
    pub digest: String,
    pub media_type: String,
    pub size: u64,
    pub platform: Option<Platform>,
}

#[verifier::ext_equal]
pub ghost struct DescriptorView {
    pub digest: Seq<char>,
    pub media_type: Seq<char>,
    pub size: u64,
    pub platform: Option<PlatformView>,
}

impl View for Descriptor {
    type V = DescriptorView;

    open spec fn view(&self) -> DescriptorView {
        DescriptorView {
            digest: self.digest@,
            media_type: self.media_type@,
            size: self.size,
            platform: match self.platform {
                Some(p) => Some(p@),
                None => None,
            },
        }
    }
}

impl Clone for Descriptor {
    fn clone(&self) -> (r: Self)
        ensures
            r@ == self@,
    {
        Descriptor {
            digest: self.digest.clone(),
            media_type: self.media_type.clone(),
            size: self.size,
            platform: match &self.platform {
                Some(p) => Some(p.clone()),
                None => None,
            },
        }
    }
}

/// Raw manifest content returned by one batch retrieval, before
/// classification: the digest it was requested under, the manifest text, and
/// the media type the registry reported.
#[derive(Debug)]
pub struct ResolvedManifest {
    pub digest: String,
    pub manifest: String,
    pub media_type: String,
}

#[verifier::ext_equal]
pub ghost struct ResolvedManifestView {
    pub digest: Seq<char>,
    pub manifest: Seq<char>,
    pub media_type: Seq<char>,
}

impl View for ResolvedManifest {
    type V = ResolvedManifestView;

    open spec fn view(&self) -> ResolvedManifestView {
        ResolvedManifestView {
            digest: self.digest@,
            manifest: self.manifest@,
            media_type: self.media_type@,
        }
    }
}

impl Clone for ResolvedManifest {
    fn clone(&self) -> (r: Self)
        ensures
            r@ == self@,
    {
        ResolvedManifest {
            digest: self.digest.clone(),
            manifest: self.manifest.clone(),
            media_type: self.media_type.clone(),
        }
    }
}

} // verus!
