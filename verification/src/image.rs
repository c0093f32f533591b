//! Discovered images and the records resolution emits.

use vstd::prelude::*;
use crate::manifest::{
    Descriptor, DescriptorView, ManifestType, spec_manifest_type_of,
};

verus! {

/// One entry of a page of image details, as the registry reports it:
/// every field it may omit is optional. Timestamps are epoch seconds.
#[derive(Debug)]
pub struct ImageDetail {
    pub repository_name: Option<String>,
    pub image_digest: Option<String>,
    pub image_manifest_media_type: Option<String>,
    pub image_tags: Option<Vec<String>>,
    pub image_pushed_at: Option<i64>,
    pub last_recorded_pull_time: Option<i64>,
}

#[verifier::ext_equal]
pub ghost struct ImageDetailView {
    pub repository_name: Option<Seq<char>>,
    pub image_digest: Option<Seq<char>>,
    pub image_manifest_media_type: Option<Seq<char>>,
    pub image_tags: Option<Seq<Seq<char>>>,
    pub image_pushed_at: Option<i64>,
    pub last_recorded_pull_time: Option<i64>,
}

impl View for ImageDetail {
    type V = ImageDetailView;

    open spec fn view(&self) -> ImageDetailView {
        ImageDetailView {
            repository_name: match self.repository_name {
                Some(s) => Some(s@),
                None => None,
            },
            image_digest: match self.image_digest {
                Some(s) => Some(s@),
                None => None,
            },
            image_manifest_media_type: match self.image_manifest_media_type {
                Some(s) => Some(s@),
                None => None,
            },
            image_tags: match self.image_tags {
                Some(v) => Some(v@.map_values(|s: String| s@)),
                None => None,
            },
            image_pushed_at: self.image_pushed_at,
            last_recorded_pull_time: self.last_recorded_pull_time,
        }
    }
}

/// An image discovered in a repository, immutable once discovered: its
/// repository, its manifest digest (the content hash the registry addresses
/// the manifest by), the recognized kind of its manifest, its tags (possibly
/// none), its push timestamp, and the time it was last pulled, if recorded.
/// Timestamps are epoch seconds.
#[derive(Debug)]
pub struct RepositoryImage {
    pub repository_name: String,
    pub manifest_digest: String,
    pub manifest_type: ManifestType,
    pub image_tags: Vec<String>,
    pub image_pushed_at: i64,
    pub last_recorded_pull_time: Option<i64>,
}

#[verifier::ext_equal]
pub ghost struct RepositoryImageView {
    pub repository_name: Seq<char>,
    pub manifest_digest: Seq<char>,
    pub manifest_type: ManifestType,
    pub image_tags: Seq<Seq<char>>,
    pub image_pushed_at: i64,
    pub last_recorded_pull_time: Option<i64>,
}

impl View for RepositoryImage {
    type V = RepositoryImageView;

    open spec fn view(&self) -> RepositoryImageView {
        RepositoryImageView {
            repository_name: self.repository_name@,
            manifest_digest: self.manifest_digest@,
            manifest_type: self.manifest_type,
            image_tags: self.image_tags@.map_values(|s: String| s@),
            image_pushed_at: self.image_pushed_at,
            last_recorded_pull_time: self.last_recorded_pull_time,
        }
    }
}

impl Clone for RepositoryImage {
    fn clone(&self) -> (r: Self)
        ensures
            r@ == self@,
    {
        let r = RepositoryImage {
            repository_name: self.repository_name.clone(),
            manifest_digest: self.manifest_digest.clone(),
            manifest_type: self.manifest_type,
            image_tags: self.image_tags.clone(),
            image_pushed_at: self.image_pushed_at,
            last_recorded_pull_time: self.last_recorded_pull_time,
        };
        proof {
            assert(r.image_tags@.map_values(|s: String| s@) =~= self.image_tags@.map_values(
                |s: String| s@,
            ));
            assert(r@ =~= self@);
        }
        r
    }
}

/// What `RepositoryImage::from_image_detail` returns: `Some` exactly when the
/// detail's manifest media type is recognized and the repository name, digest
/// and push timestamp are all present; tags default to none.
pub open spec fn spec_from_image_detail(d: ImageDetailView) -> Option<RepositoryImageView> {
    match d.image_manifest_media_type {
        None => None,
        Some(media) => match spec_manifest_type_of(media) {
            None => None,
            Some(t) => match (d.repository_name, d.image_digest, d.image_pushed_at) {
                (Some(name), Some(digest), Some(pushed)) => Some(
                    RepositoryImageView {
                        repository_name: name,
                        manifest_digest: digest,
                        manifest_type: t,
                        image_tags: match d.image_tags {
                            Some(tags) => tags,
                            None => Seq::empty(),
                        },
                        image_pushed_at: pushed,
                        last_recorded_pull_time: d.last_recorded_pull_time,
                    },
                ),
                _ => None,
            },
        },
    }
}

impl RepositoryImage {
    /// Normalizes one registry image detail; `None` drops an entry whose
    /// manifest media type is unrecognized or that lacks a repository name,
    /// a digest or a push timestamp.
    pub fn from_image_detail(detail: ImageDetail) -> (r: Option<RepositoryImage>)
        ensures
            r is Some <==> spec_from_image_detail(detail@) is Some,
            r is Some ==> r.unwrap()@ == spec_from_image_detail(detail@).unwrap(),
    {
        let ghost dv = detail@;
        let media = match detail.image_manifest_media_type {
            Some(m) => m,
            None => { return None; },
        };
        let manifest_type = match ManifestType::from_str(media.as_str()) {
            Some(t) => t,
            None => { return None; },
        };
        let repository_name = match detail.repository_name {
            Some(v) => v,
            None => { return None; },
        };
        let manifest_digest = match detail.image_digest {
            Some(v) => v,
            None => { return None; },
        };
        let image_pushed_at = match detail.image_pushed_at {
            Some(v) => v,
            None => { return None; },
        };
        let image_tags = match detail.image_tags {
            Some(v) => v,
            None => Vec::new(),
        };
        let r = RepositoryImage {
            repository_name,
            manifest_digest,
            manifest_type,
            image_tags,
            image_pushed_at,
            last_recorded_pull_time: detail.last_recorded_pull_time,
        };
        proof {
            assert(spec_from_image_detail(dv) is Some);
            assert(r@.image_tags =~= spec_from_image_detail(dv).unwrap().image_tags);
            assert(r@ =~= spec_from_image_detail(dv).unwrap());
        }
        Some(r)
    }
}

/// What discovery keeps of a page run: the details normalized in order, the
/// unrecognized and incomplete ones dropped.
pub open spec fn spec_discovered_images(details: Seq<ImageDetailView>) -> Seq<RepositoryImageView> {
    details.filter_map(|d: ImageDetailView| spec_from_image_detail(d))
}

/// Normalizes a full listing of image details into `RepositoryImage`
/// records, keeping only entries with a recognized manifest media type and
/// all required fields. An empty listing yields an empty result.
pub fn filter_image_details(details: Vec<ImageDetail>) -> (r: Vec<RepositoryImage>)
    ensures
        r@.map_values(|i: RepositoryImage| i@) == spec_discovered_images(
            details@.map_values(|d: ImageDetail| d@),
        ),
{
    let ghost dv = details@.map_values(|d: ImageDetail| d@);
    let mut rest = details;
    let mut r: Vec<RepositoryImage> = Vec::new();
    proof {
        assert(rest@.map_values(|d: ImageDetail| d@) =~= dv.skip(0));
        assert(r@.map_values(|im: RepositoryImage| im@) =~= dv.take(0).filter_map(|x: ImageDetailView| spec_from_image_detail(x)));
    }
    while rest.len() > 0
        invariant
            rest@.len() <= dv.len(),
            rest@.map_values(|d: ImageDetail| d@) =~= dv.skip(dv.len() - rest@.len()),
            r@.map_values(|im: RepositoryImage| im@) =~= dv.take(
                dv.len() - rest@.len(),
            ).filter_map(|x: ImageDetailView| spec_from_image_detail(x)),
        decreases rest@.len(),
    {
        let ghost i = dv.len() - rest@.len();
        let ghost old_rest = rest@;
        let d = rest.remove(0);
        proof {
            broadcast use vstd::seq_lib::group_seq_properties;

            assert(old_rest.map_values(|x: ImageDetail| x@)[0] == dv.skip(i)[0]);
            assert(d@ == dv[i]);
            assert(rest@ =~= old_rest.skip(1));
            let rv = rest@.map_values(|x: ImageDetail| x@);
            assert forall|j: int| 0 <= j < rv.len() implies #[trigger] rv[j] == dv.skip(i + 1)[j]
                by {
                assert(rest@[j] == old_rest[j + 1]);
                assert(old_rest.map_values(|x: ImageDetail| x@)[j + 1] == dv.skip(i)[j + 1]);
            }
            assert(rest@.map_values(|x: ImageDetail| x@) =~= dv.skip(i + 1));
            dv.lemma_filter_map_take_succ(|x: ImageDetailView| spec_from_image_detail(x), i);
        }
        match RepositoryImage::from_image_detail(d) {
            Some(im) => {
                proof {
                    assert(spec_from_image_detail(dv[i]) == Some(im@));
                }
                r.push(im);
                proof {
                    assert(r@.map_values(|x: RepositoryImage| x@) =~= dv.take(i + 1).filter_map(
                        |x: ImageDetailView| spec_from_image_detail(x),
                    ));
                }
            },
            None => {
                proof {
                    assert(spec_from_image_detail(dv[i]) is None);
                    assert(r@.map_values(|x: RepositoryImage| x@) =~= dv.take(i + 1).filter_map(
                        |x: ImageDetailView| spec_from_image_detail(x),
                    ));
                }
            },
        }
    }
    proof {
        assert(dv.take(dv.len() as int) =~= dv);
    }
    r
}

/// One resolved manifest attached to a record: the raw manifest text, and
/// the descriptor it originated from when the image's manifest was a list.
#[derive(Debug)]
pub struct ImageManifestWithDescriptor {
    pub manifest: String,
    pub descriptor: Option<Descriptor>,
}

#[verifier::ext_equal]
pub ghost struct ImageManifestWithDescriptorView {
    pub manifest: Seq<char>,
    pub descriptor: Option<DescriptorView>,
}

impl View for ImageManifestWithDescriptor {
    type V = ImageManifestWithDescriptorView;

    open spec fn view(&self) -> ImageManifestWithDescriptorView {
        ImageManifestWithDescriptorView {
            manifest: self.manifest@,
            descriptor: match self.descriptor {
                Some(d) => Some(d@),
                None => None,
            },
        }
    }
}

/// The terminal record resolution emits: one image together with the ordered
/// manifests it resolved to.
#[derive(Debug)]
pub struct ImageWithManifests {
    pub image: RepositoryImage,
    pub manifests: Vec<ImageManifestWithDescriptor>,
}

#[verifier::ext_equal]
pub ghost struct ImageWithManifestsView {
    pub image: RepositoryImageView,
    pub manifests: Seq<ImageManifestWithDescriptorView>,
}

impl View for ImageWithManifests {
    type V = ImageWithManifestsView;

    open spec fn view(&self) -> ImageWithManifestsView {
        ImageWithManifestsView {
            image: self.image@,
            manifests: self.manifests@.map_values(|m: ImageManifestWithDescriptor| m@),
        }
    }
}

} // verus!
