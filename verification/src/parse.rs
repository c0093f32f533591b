//! The trusted boundary to manifest JSON parsing. The library never parses
//! manifest text itself: whether a text is a well-formed image manifest, and
//! which descriptors an image index lists, are functions of the text alone,
//! computed by the parser crates and given names here that the resolution
//! contracts are stated over.

use vstd::prelude::*;
use crate::manifest::{Descriptor, DescriptorView, Platform};

verus! {

/// Whether a text parses as a single-architecture image manifest. The name
/// stands for the parse outcome of `serde_json` deserializing the text into
/// `oci_spec::image::ImageManifest`; it depends on the text alone.
pub uninterp spec fn image_manifest_ok(s: Seq<char>) -> bool;

/// The descriptor list of an image index, or `None` when the text does not
/// parse as one. The name stands for the outcome of `serde_json`
/// deserializing the text into `oci_spec::image::ImageIndex` and reading its
/// `manifests` entries; it depends on the text alone.
pub uninterp spec fn index_manifests(s: Seq<char>) -> Option<Seq<DescriptorView>>;

/// Relies on `serde_json::from_str::<oci_spec::image::ImageManifest>`:
/// whether manifest text is well-formed image-manifest JSON.
#[verifier::external_body]
pub(crate) fn check_image_manifest(text: &str) -> (r: bool)
    ensures
        r == image_manifest_ok(text@),
{
    serde_json::from_str::<oci_spec::image::ImageManifest>(text).is_ok()
}

/// Relies on `serde_json::from_str::<oci_spec::image::ImageIndex>` and the
/// `oci_spec` accessors of its descriptors (digest, media type, size,
/// platform architecture and os), copied here field by field.
#[verifier::external_body]
pub(crate) fn parse_index_descriptors(text: &str) -> (r: Option<Vec<Descriptor>>)
    ensures
        r is Some <==> index_manifests(text@) is Some,
        r is Some ==> r.unwrap()@.map_values(|d: Descriptor| d@) == index_manifests(
            text@,
        ).unwrap(),
{
    let idx: oci_spec::image::ImageIndex = match serde_json::from_str(text) {
        Ok(v) => v,
        Err(_) => return None,
    };
    Some(idx.manifests().iter().map(|d| Descriptor {
        digest: String::from(AsRef::<str>::as_ref(d.digest())),
        media_type: d.media_type().to_string(),
        size: d.size(),
        platform: d.platform().as_ref().map(|p| Platform {
            architecture: p.architecture().to_string(),
            os: p.os().to_string(),
        }),
    }).collect())
}

} // verus!
