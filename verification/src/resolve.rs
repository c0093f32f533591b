//! The manifest resolver: the two-phase, deduplicated, chunked,
//! concurrency-bounded resolution of a repository's images into concrete
//! manifests. Everything here is pure: the registry calls themselves are
//! issued by the caller, which plans them with `plan_phase1` / `plan_phase2`
//! and a `BatchScheduler`, gathers each phase's raw results after its
//! bounded fan-out drains, and hands them back to `process_phase1` /
//! `process_phase2`.

use vstd::prelude::*;
use crate::batch::{
    chunk_views, contains_string, dedup_digests, chunk_digests, spec_dedup, string_views,
};
use crate::error::{ResolveError, ResolveErrorView};
use crate::image::{
    ImageManifestWithDescriptor, ImageManifestWithDescriptorView, ImageWithManifests,
    ImageWithManifestsView, RepositoryImage, RepositoryImageView,
};
use crate::manifest::{
    Descriptor, DescriptorView, ManifestType, ResolvedManifest, ResolvedManifestView,
    spec_manifest_type_of,
};
use crate::parse::{check_image_manifest, image_manifest_ok, index_manifests,
    parse_index_descriptors};

verus! {

/// The bounds of one repository's resolution: how many digests one batch
/// call may carry, and how many chunk calls may be in flight at once.
pub struct ResolveConfig {
    pub chunk_size: usize,
    pub concurrency: usize,
}

impl ResolveConfig {
    pub open spec fn wf(&self) -> bool {
        self.chunk_size >= 1 && self.concurrency >= 1
    }

    /// The default bounds: batches of 100 digests, 10 calls in flight.
    pub fn new() -> (r: Self)
        ensures
            r.wf(),
            r.chunk_size == 100,
            r.concurrency == 10,
    {
        ResolveConfig { chunk_size: 100, concurrency: 10 }
    }

    /// The default chunk bound with a chosen concurrency bound.
    pub fn new_with_concurrency(concurrency: usize) -> (r: Self)
        requires
            concurrency >= 1,
        ensures
            r.wf(),
            r.chunk_size == 100,
            r.concurrency == concurrency,
    {
        ResolveConfig { chunk_size: 100, concurrency }
    }

    /// Explicit bounds.
    pub fn new_with_config(chunk_size: usize, concurrency: usize) -> (r: Self)
        requires
            chunk_size >= 1,
            concurrency >= 1,
        ensures
            r.wf(),
            r.chunk_size == chunk_size,
            r.concurrency == concurrency,
    {
        ResolveConfig { chunk_size, concurrency }
    }
}

/// An image whose manifest was a list, waiting for phase 2: the owning
/// image and the descriptors its index lists, in index order.
#[derive(Debug)]
pub struct DeferredExpansion {
    pub image: RepositoryImage,
    pub descriptors: Vec<Descriptor>,
}

#[verifier::ext_equal]
pub ghost struct DeferredExpansionView {
    pub image: RepositoryImageView,
    pub descriptors: Seq<DescriptorView>,
}

impl View for DeferredExpansion {
    type V = DeferredExpansionView;

    open spec fn view(&self) -> DeferredExpansionView {
        DeferredExpansionView {
            image: self.image@,
            descriptors: self.descriptors@.map_values(|d: Descriptor| d@),
        }
    }
}

pub open spec fn image_views(s: Seq<RepositoryImage>) -> Seq<RepositoryImageView> {
    s.map_values(|i: RepositoryImage| i@)
}

pub open spec fn result_views(s: Seq<ResolvedManifest>) -> Seq<ResolvedManifestView> {
    s.map_values(|r: ResolvedManifest| r@)
}

pub open spec fn record_views(s: Seq<ImageWithManifests>) -> Seq<ImageWithManifestsView> {
    s.map_values(|r: ImageWithManifests| r@)
}

pub open spec fn deferred_views(s: Seq<DeferredExpansion>) -> Seq<DeferredExpansionView> {
    s.map_values(|d: DeferredExpansion| d@)
}

/// The digests phase 1 must resolve: one per image, in image order.
pub open spec fn spec_image_digests(images: Seq<RepositoryImageView>) -> Seq<Seq<char>> {
    images.map_values(|im: RepositoryImageView| im.manifest_digest)
}

/// The digests phase 2 must resolve: every deferred image's descriptor
/// digests, concatenated in deferral order.
pub open spec fn spec_deferred_digests(deferred: Seq<DeferredExpansionView>) -> Seq<Seq<char>> {
    deferred.map_values(
        |d: DeferredExpansionView| d.descriptors.map_values(|x: DescriptorView| x.digest),
    ).flatten()
}

/// The images owning a digest: all images whose manifest digest equals it,
/// in image order. Many images (or one image under many tags) may share one
/// digest; its manifest attaches to all of them.
pub open spec fn spec_owners(images: Seq<RepositoryImageView>, digest: Seq<char>) -> Seq<
    RepositoryImageView,
> {
    images.filter(|im: RepositoryImageView| im.manifest_digest == digest)
}

/// The record a directly-resolved image yields: the single manifest text,
/// with no originating descriptor.
pub open spec fn spec_direct_record(im: RepositoryImageView, text: Seq<char>) -> ImageWithManifestsView {
    ImageWithManifestsView {
        image: im,
        manifests: seq![ImageManifestWithDescriptorView { manifest: text, descriptor: None }],
    }
}

/// Whether every image's digest has some result: a requested digest the
/// registry stayed silent on is a protocol fault, not a silent skip.
pub open spec fn spec_all_digests_resolved(
    images: Seq<RepositoryImageView>,
    results: Seq<ResolvedManifestView>,
) -> bool {
    forall|i: int|
        0 <= i < images.len() ==> exists|j: int|
            0 <= j < results.len() && #[trigger] results[j].digest == (
            #[trigger] images[i]).manifest_digest
}

/// Phase 1 classification of the (deduplicated) batch results, in result
/// order. Per result: a digest no image owns and an unrecognized media type
/// are protocol faults, never silent skips; an image manifest must parse
/// and yields one complete record per owning image; a list must parse as an
/// index and defers one expansion per owning image to phase 2.
pub open spec fn spec_phase1(
    images: Seq<RepositoryImageView>,
    results: Seq<ResolvedManifestView>,
) -> Result<(Seq<ImageWithManifestsView>, Seq<DeferredExpansionView>), ResolveErrorView>
    decreases results.len(),
{
    if results.len() == 0 {
        Ok((Seq::empty(), Seq::empty()))
    } else {
        match spec_phase1(images, results.drop_last()) {
            Err(e) => Err(e),
            Ok(acc) => {
                let r = results.last();
                let owners = spec_owners(images, r.digest);
                if owners.len() == 0 {
                    Err(ResolveErrorView::UnrequestedDigest(r.digest))
                } else {
                    match spec_manifest_type_of(r.media_type) {
                        None => Err(ResolveErrorView::UnexpectedMediaType(r.digest)),
                        Some(ManifestType::Image) => if image_manifest_ok(r.manifest) {
                            Ok(
                                (
                                    acc.0 + owners.map_values(
                                        |im: RepositoryImageView| spec_direct_record(
                                            im,
                                            r.manifest,
                                        ),
                                    ),
                                    acc.1,
                                ),
                            )
                        } else {
                            Err(ResolveErrorView::InvalidManifest(r.digest))
                        },
                        Some(ManifestType::List) => match index_manifests(r.manifest) {
                            Some(ds) => Ok(
                                (
                                    acc.0,
                                    acc.1 + owners.map_values(
                                        |im: RepositoryImageView| DeferredExpansionView {
                                            image: im,
                                            descriptors: ds,
                                        },
                                    ),
                                ),
                            ),
                            None => Err(ResolveErrorView::InvalidIndex(r.digest)),
                        },
                    }
                }
            },
        }
    }
}

/// The digests of a repository's images, in image order.
fn image_digests(images: &Vec<RepositoryImage>) -> (r: Vec<String>)
    ensures
        string_views(r@) == spec_image_digests(image_views(images@)),
{
    let mut r: Vec<String> = Vec::new();
    let mut i: usize = 0;
    proof {
        assert(string_views(r@) =~= spec_image_digests(image_views(images@)).take(0));
    }
    while i < images.len()
        invariant
            i <= images.len(),
            string_views(r@) == spec_image_digests(image_views(images@)).take(i as int),
        decreases images.len() - i,
    {
        let ghost prev = string_views(r@);
        r.push(images[i].manifest_digest.clone());
        proof {
            let all = spec_image_digests(image_views(images@));
            assert(string_views(r@) =~= prev.push(all[i as int]));
            assert(string_views(r@) =~= all.take(i + 1));
        }
        i += 1;
    }
    proof {
        let all = spec_image_digests(image_views(images@));
        assert(all.take(all.len() as int) =~= all);
    }
    r
}

/// The phase-1 batches for a repository's images: the images' distinct
/// digests in first-appearance order, chunked by the configured bound.
pub fn plan_phase1(images: &Vec<RepositoryImage>, config: &ResolveConfig) -> (r: Vec<Vec<String>>)
    requires
        config.wf(),
    ensures
        chunk_views(r@).flatten() == spec_dedup(spec_image_digests(image_views(images@))),
        forall|j: int|
            0 <= j < r@.len() ==> 1 <= #[trigger] chunk_views(r@)[j].len() <= config.chunk_size,
        forall|j: int|
            0 <= j < r@.len() - 1 ==> #[trigger] chunk_views(r@)[j].len() == config.chunk_size,
{
    let digests = image_digests(images);
    let distinct = dedup_digests(&digests);
    chunk_digests(&distinct, config.chunk_size)
}

/// The images that own a digest, in image order.
fn owners_of(images: &Vec<RepositoryImage>, digest: &String) -> (r: Vec<RepositoryImage>)
    ensures
        image_views(r@) == spec_owners(image_views(images@), digest@),
{
    let ghost iv = image_views(images@);
    let ghost pred = |im: RepositoryImageView| im.manifest_digest == digest@;
    let mut r: Vec<RepositoryImage> = Vec::new();
    let mut i: usize = 0;
    proof {
        reveal(Seq::filter);
        assert(image_views(r@) =~= iv.take(0).filter(pred));
    }
    while i < images.len()
        invariant
            i <= images.len(),
            iv == image_views(images@),
            images@.len() == iv.len(),
            pred == (|im: RepositoryImageView| im.manifest_digest == digest@),
            image_views(r@) == iv.take(i as int).filter(pred),
        decreases images.len() - i,
    {
        let ghost prev = image_views(r@);
        proof {
            reveal(Seq::filter);
            assert(iv.take(i + 1).drop_last() =~= iv.take(i as int));
            assert(iv.take(i + 1).last() == iv[i as int]);
        }
        if images[i].manifest_digest == *digest {
            r.push(images[i].clone());
            proof {
                assert(image_views(r@) =~= prev.push(iv[i as int]));
                assert(pred(iv[i as int]));
                assert(image_views(r@) =~= iv.take(i + 1).filter(pred));
            }
        } else {
            proof {
                assert(!pred(iv[i as int]));
                assert(image_views(r@) =~= iv.take(i + 1).filter(pred));
            }
        }
        i += 1;
    }
    proof {
        assert(iv.take(iv.len() as int) =~= iv);
    }
    r
}

/// Whether some result carries the digest.
fn has_result_for(results: &Vec<ResolvedManifest>, digest: &String) -> (r: bool)
    ensures
        r == exists|j: int|
            0 <= j < results@.len() && #[trigger] result_views(results@)[j].digest == digest@,
{
    let mut j: usize = 0;
    while j < results.len()
        invariant
            j <= results.len(),
            forall|m: int| 0 <= m < j ==> #[trigger] result_views(results@)[m].digest != digest@,
        decreases results.len() - j,
    {
        if results[j].digest == *digest {
            proof {
                assert(result_views(results@)[j as int].digest == digest@);
            }
            return true;
        }
        j += 1;
    }
    false
}

/// Whether a result list already holds this digest/manifest/media-type
/// triple.
fn contains_result(v: &Vec<ResolvedManifest>, x: &ResolvedManifest) -> (r: bool)
    ensures
        r == result_views(v@).contains(x@),
{
    let mut j: usize = 0;
    while j < v.len()
        invariant
            j <= v.len(),
            forall|m: int| 0 <= m < j ==> result_views(v@)[m] != x@,
        decreases v.len() - j,
    {
        if v[j].digest == x.digest && v[j].manifest == x.manifest && v[j].media_type
            == x.media_type {
            proof {
                assert(result_views(v@)[j as int] =~= x@);
            }
            return true;
        }
        j += 1;
    }
    false
}

/// The raw results of a phase with duplicate triples dropped: a registry may
/// legally return the same digest, manifest and media type more than once,
/// and the duplicate must not be processed twice.
pub fn dedup_results(results: &Vec<ResolvedManifest>) -> (r: Vec<ResolvedManifest>)
    ensures
        result_views(r@) == spec_dedup(result_views(results@)),
{
    let ghost inp = result_views(results@);
    let mut r: Vec<ResolvedManifest> = Vec::new();
    let mut i: usize = 0;
    proof {
        assert(result_views(r@) =~= spec_dedup(inp.take(0)));
    }
    while i < results.len()
        invariant
            i <= results.len(),
            inp == result_views(results@),
            results@.len() == inp.len(),
            result_views(r@) == spec_dedup(inp.take(i as int)),
        decreases results.len() - i,
    {
        let ghost prev = result_views(r@);
        let hit = contains_result(&r, &results[i]);
        proof {
            assert(inp.take(i + 1).drop_last() =~= inp.take(i as int));
            assert(inp.take(i + 1).last() == inp[i as int]);
        }
        if !hit {
            r.push(results[i].clone());
            proof {
                assert(result_views(r@) =~= prev.push(inp[i as int]));
                assert(result_views(r@) =~= spec_dedup(inp.take(i + 1)));
            }
        } else {
            proof {
                assert(result_views(r@) =~= spec_dedup(inp.take(i + 1)));
            }
        }
        i += 1;
    }
    proof {
        assert(inp.take(inp.len() as int) =~= inp);
    }
    r
}

/// A copy of a descriptor list.
fn clone_descriptors(v: &Vec<Descriptor>) -> (r: Vec<Descriptor>)
    ensures
        r@.map_values(|d: Descriptor| d@) == v@.map_values(|d: Descriptor| d@),
{
    let mut r: Vec<Descriptor> = Vec::new();
    let mut i: usize = 0;
    proof {
        assert(r@.map_values(|d: Descriptor| d@) =~= v@.map_values(|d: Descriptor| d@).take(0));
    }
    while i < v.len()
        invariant
            i <= v.len(),
            r@.map_values(|d: Descriptor| d@) == v@.map_values(|d: Descriptor| d@).take(i as int),
        decreases v.len() - i,
    {
        let ghost prev = r@.map_values(|d: Descriptor| d@);
        r.push(v[i].clone());
        proof {
            let all = v@.map_values(|d: Descriptor| d@);
            assert(r@.map_values(|d: Descriptor| d@) =~= prev.push(all[i as int]));
            assert(r@.map_values(|d: Descriptor| d@) =~= all.take(i + 1));
        }
        i += 1;
    }
    proof {
        let all = v@.map_values(|d: Descriptor| d@);
        assert(all.take(all.len() as int) =~= all);
    }
    r
}

/// Appends one completed record per owning image, all carrying the same
/// directly-resolved manifest text.
fn push_direct_records(
    recs: &mut Vec<ImageWithManifests>,
    owners: &Vec<RepositoryImage>,
    text: &String,
)
    ensures
        record_views(final(recs)@) == record_views(old(recs)@) + image_views(owners@).map_values(
            |im: RepositoryImageView| spec_direct_record(im, text@),
        ),
{
    let ghost target = image_views(owners@).map_values(
        |im: RepositoryImageView| spec_direct_record(im, text@),
    );
    let ghost base = record_views(recs@);
    let mut k: usize = 0;
    proof {
        assert(record_views(recs@) =~= base + target.take(0));
    }
    while k < owners.len()
        invariant
            k <= owners@.len(),
            owners@.len() == target.len(),
            target == image_views(owners@).map_values(
                |im: RepositoryImageView| spec_direct_record(im, text@),
            ),
            record_views(recs@) == base + target.take(k as int),
        decreases owners@.len() - k,
    {
        let ghost prev = record_views(recs@);
        let mut mv: Vec<ImageManifestWithDescriptor> = Vec::new();
        mv.push(ImageManifestWithDescriptor { manifest: text.clone(), descriptor: None });
        let rec = ImageWithManifests { image: owners[k].clone(), manifests: mv };
        proof {
            assert(rec@.manifests =~= seq![
                ImageManifestWithDescriptorView { manifest: text@, descriptor: None },
            ]);
            assert(rec@ =~= target[k as int]);
        }
        recs.push(rec);
        proof {
            assert(record_views(recs@) =~= prev.push(target[k as int]));
            assert(record_views(recs@) =~= base + target.take(k + 1));
        }
        k += 1;
    }
    proof {
        assert(target.take(target.len() as int) =~= target);
    }
}

/// Defers one expansion per owning image, all carrying the same descriptor
/// list.
fn push_deferred(
    defs: &mut Vec<DeferredExpansion>,
    owners: &Vec<RepositoryImage>,
    descriptors: &Vec<Descriptor>,
)
    ensures
        deferred_views(final(defs)@) == deferred_views(old(defs)@) + image_views(
            owners@,
        ).map_values(
            |im: RepositoryImageView| DeferredExpansionView {
                image: im,
                descriptors: descriptors@.map_values(|d: Descriptor| d@),
            },
        ),
{
    let ghost target = image_views(owners@).map_values(
        |im: RepositoryImageView| DeferredExpansionView {
            image: im,
            descriptors: descriptors@.map_values(|d: Descriptor| d@),
        },
    );
    let ghost base = deferred_views(defs@);
    let mut k: usize = 0;
    proof {
        assert(deferred_views(defs@) =~= base + target.take(0));
    }
    while k < owners.len()
        invariant
            k <= owners@.len(),
            owners@.len() == target.len(),
            target == image_views(owners@).map_values(
                |im: RepositoryImageView| DeferredExpansionView {
                    image: im,
                    descriptors: descriptors@.map_values(|d: Descriptor| d@),
                },
            ),
            deferred_views(defs@) == base + target.take(k as int),
        decreases owners@.len() - k,
    {
        let ghost prev = deferred_views(defs@);
        let def = DeferredExpansion {
            image: owners[k].clone(),
            descriptors: clone_descriptors(descriptors),
        };
        proof {
            assert(def@ =~= target[k as int]);
        }
        defs.push(def);
        proof {
            assert(deferred_views(defs@) =~= prev.push(target[k as int]));
            assert(deferred_views(defs@) =~= base + target.take(k + 1));
        }
        k += 1;
    }
    proof {
        assert(target.take(target.len() as int) =~= target);
    }
}

/// An error already reached stays, whatever results follow.
pub proof fn lemma_phase1_err_persists(
    images: Seq<RepositoryImageView>,
    results: Seq<ResolvedManifestView>,
    i: int,
    j: int,
)
    requires
        0 <= i <= j <= results.len(),
        spec_phase1(images, results.take(i)) is Err,
    ensures
        spec_phase1(images, results.take(j)) == spec_phase1(images, results.take(i)),
    decreases j - i,
{
    if j > i {
        lemma_phase1_err_persists(images, results, i, j - 1);
        assert(results.take(j).drop_last() =~= results.take(j - 1));
    }
}

pub open spec fn entry_views(s: Seq<ImageManifestWithDescriptor>) -> Seq<
    ImageManifestWithDescriptorView,
> {
    s.map_values(|e: ImageManifestWithDescriptor| e@)
}

/// The first result carrying a digest, if any: duplicate digests in a batch
/// answer are resolved in favour of the earliest.
pub open spec fn spec_find_result(
    results: Seq<ResolvedManifestView>,
    digest: Seq<char>,
) -> Option<ResolvedManifestView>
    decreases results.len(),
{
    if results.len() == 0 {
        None
    } else if results.first().digest == digest {
        Some(results.first())
    } else {
        spec_find_result(results.drop_first(), digest)
    }
}

pub proof fn lemma_find_result_first(results: Seq<ResolvedManifestView>, digest: Seq<char>, j: int)
    requires
        0 <= j < results.len(),
        forall|m: int| 0 <= m < j ==> (#[trigger] results[m]).digest != digest,
        results[j].digest == digest,
    ensures
        spec_find_result(results, digest) == Some(results[j]),
    decreases j,
{
    if j == 0 {
    } else {
        assert(results.first().digest != digest);
        let rest = results.drop_first();
        assert forall|m: int| 0 <= m < j - 1 implies (#[trigger] rest[m]).digest != digest by {
            assert(rest[m] == results[m + 1]);
        }
        assert(rest[j - 1] == results[j]);
        lemma_find_result_first(rest, digest, j - 1);
    }
}

pub proof fn lemma_find_result_none(results: Seq<ResolvedManifestView>, digest: Seq<char>)
    requires
        forall|m: int| 0 <= m < results.len() ==> (#[trigger] results[m]).digest != digest,
    ensures
        spec_find_result(results, digest) is None,
    decreases results.len(),
{
    if results.len() > 0 {
        let rest = results.drop_first();
        assert forall|m: int| 0 <= m < rest.len() implies (#[trigger] rest[m]).digest != digest by {
            assert(rest[m] == results[m + 1]);
        }
        lemma_find_result_none(rest, digest);
    }
}

/// The index of the first result carrying the digest.
fn find_result(results: &Vec<ResolvedManifest>, digest: &String) -> (r: Option<usize>)
    ensures
        r is Some ==> 0 <= r.unwrap() < results@.len() && spec_find_result(
            result_views(results@),
            digest@,
        ) == Some(result_views(results@)[r.unwrap() as int]),
        r is None ==> spec_find_result(result_views(results@), digest@) is None,
{
    let ghost rv = result_views(results@);
    let mut j: usize = 0;
    while j < results.len()
        invariant
            j <= results.len(),
            rv == result_views(results@),
            results@.len() == rv.len(),
            forall|m: int| 0 <= m < j ==> (#[trigger] rv[m]).digest != digest@,
        decreases results.len() - j,
    {
        if results[j].digest == *digest {
            proof {
                assert(rv[j as int].digest == digest@);
                lemma_find_result_first(rv, digest@, j as int);
            }
            return Some(j);
        }
        j += 1;
    }
    proof {
        lemma_find_result_none(rv, digest@);
    }
    None
}

/// Phase 2 expansion of one deferred image's descriptors, in descriptor
/// order. Per descriptor: its digest must have been answered; the child
/// must classify as a single image manifest and parse — a child that
/// classifies as another list, or whose media type is unrecognized, is a
/// protocol fault, never a silent skip.
pub open spec fn spec_entries(
    descriptors: Seq<DescriptorView>,
    results: Seq<ResolvedManifestView>,
) -> Result<Seq<ImageManifestWithDescriptorView>, ResolveErrorView>
    decreases descriptors.len(),
{
    if descriptors.len() == 0 {
        Ok(Seq::empty())
    } else {
        match spec_entries(descriptors.drop_last(), results) {
            Err(e) => Err(e),
            Ok(acc) => {
                let d = descriptors.last();
                match spec_find_result(results, d.digest) {
                    None => Err(ResolveErrorView::MissingDigest(d.digest)),
                    Some(r) => match spec_manifest_type_of(r.media_type) {
                        None => Err(ResolveErrorView::UnexpectedMediaType(d.digest)),
                        Some(ManifestType::Image) => if image_manifest_ok(r.manifest) {
                            Ok(
                                acc.push(
                                    ImageManifestWithDescriptorView {
                                        manifest: r.manifest,
                                        descriptor: Some(d),
                                    },
                                ),
                            )
                        } else {
                            Err(ResolveErrorView::InvalidManifest(d.digest))
                        },
                        Some(ManifestType::List) => Err(ResolveErrorView::ListWithinList(d.digest)),
                    },
                }
            },
        }
    }
}

/// Phase 2 over all deferred images, in deferral order: one record per
/// deferred image, its entries tagged by their originating descriptors.
pub open spec fn spec_phase2(
    deferred: Seq<DeferredExpansionView>,
    results: Seq<ResolvedManifestView>,
) -> Result<Seq<ImageWithManifestsView>, ResolveErrorView>
    decreases deferred.len(),
{
    if deferred.len() == 0 {
        Ok(Seq::empty())
    } else {
        match spec_phase2(deferred.drop_last(), results) {
            Err(e) => Err(e),
            Ok(acc) => match spec_entries(deferred.last().descriptors, results) {
                Err(e) => Err(e),
                Ok(entries) => Ok(
                    acc.push(
                        ImageWithManifestsView { image: deferred.last().image, manifests: entries },
                    ),
                ),
            },
        }
    }
}

pub proof fn lemma_entries_err_persists(
    descriptors: Seq<DescriptorView>,
    results: Seq<ResolvedManifestView>,
    i: int,
    j: int,
)
    requires
        0 <= i <= j <= descriptors.len(),
        spec_entries(descriptors.take(i), results) is Err,
    ensures
        spec_entries(descriptors.take(j), results) == spec_entries(descriptors.take(i), results),
    decreases j - i,
{
    if j > i {
        lemma_entries_err_persists(descriptors, results, i, j - 1);
        assert(descriptors.take(j).drop_last() =~= descriptors.take(j - 1));
    }
}

pub proof fn lemma_phase2_err_persists(
    deferred: Seq<DeferredExpansionView>,
    results: Seq<ResolvedManifestView>,
    i: int,
    j: int,
)
    requires
        0 <= i <= j <= deferred.len(),
        spec_phase2(deferred.take(i), results) is Err,
    ensures
        spec_phase2(deferred.take(j), results) == spec_phase2(deferred.take(i), results),
    decreases j - i,
{
    if j > i {
        lemma_phase2_err_persists(deferred, results, i, j - 1);
        assert(deferred.take(j).drop_last() =~= deferred.take(j - 1));
    }
}

/// A fault on one descriptor is the fault of the whole expansion.
proof fn lemma_entries_step_err(
    descriptors: Seq<DescriptorView>,
    results: Seq<ResolvedManifestView>,
    k: int,
    e: ResolveErrorView,
)
    requires
        0 <= k < descriptors.len(),
        spec_entries(descriptors.take(k + 1), results) == Err::<
            Seq<ImageManifestWithDescriptorView>,
            ResolveErrorView,
        >(e),
    ensures
        spec_entries(descriptors, results) == Err::<
            Seq<ImageManifestWithDescriptorView>,
            ResolveErrorView,
        >(e),
{
    lemma_entries_err_persists(descriptors, results, k + 1, descriptors.len() as int);
    assert(descriptors.take(descriptors.len() as int) =~= descriptors);
}

/// A fault on one deferred image is the fault of the whole phase.
proof fn lemma_phase2_step_err(
    deferred: Seq<DeferredExpansionView>,
    results: Seq<ResolvedManifestView>,
    di: int,
    prev: Seq<ImageWithManifestsView>,
    e: ResolveErrorView,
)
    requires
        0 <= di < deferred.len(),
        spec_phase2(deferred.take(di), results) == Ok::<_, ResolveErrorView>(prev),
        spec_entries(deferred[di].descriptors, results) == Err::<
            Seq<ImageManifestWithDescriptorView>,
            ResolveErrorView,
        >(e),
    ensures
        spec_phase2(deferred, results) == Err::<Seq<ImageWithManifestsView>, ResolveErrorView>(e),
{
    assert(deferred.take(di + 1).drop_last() =~= deferred.take(di));
    assert(deferred.take(di + 1).last() == deferred[di]);
    assert(spec_phase2(deferred.take(di + 1), results) == Err::<
        Seq<ImageWithManifestsView>,
        ResolveErrorView,
    >(e));
    lemma_phase2_err_persists(deferred, results, di + 1, deferred.len() as int);
    assert(deferred.take(deferred.len() as int) =~= deferred);
}

/// Whether every result's digest was requested: one the registry volunteers
/// unasked is a consistency fault.
pub open spec fn spec_all_results_requested(
    requested: Seq<Seq<char>>,
    results: Seq<ResolvedManifestView>,
) -> bool {
    forall|j: int|
        0 <= j < results.len() ==> requested.contains((#[trigger] results[j]).digest)
}

/// What an unrequested-digest fault reports: a digest some result carries
/// and nothing requested.
pub open spec fn spec_unrequested_error(
    requested: Seq<Seq<char>>,
    results: Seq<ResolvedManifestView>,
    e: ResolveErrorView,
) -> bool {
    match e {
        ResolveErrorView::UnrequestedDigest(d) => (exists|j: int|
            0 <= j < results.len() && (#[trigger] results[j]).digest == d)
            && !requested.contains(d),
        _ => false,
    }
}

/// Law: a deferred image whose descriptors all resolve to parseable image
/// manifests expands into exactly as many entries as it has descriptors,
/// each carrying the manifest its digest resolved to and tagged with its
/// originating descriptor.
pub proof fn lemma_list_expansion(
    descriptors: Seq<DescriptorView>,
    results: Seq<ResolvedManifestView>,
)
    requires
        forall|i: int|
            0 <= i < descriptors.len() ==> spec_find_result(
                results,
                (#[trigger] descriptors[i]).digest,
            ) is Some,
        forall|i: int|
            0 <= i < descriptors.len() ==> spec_manifest_type_of(
                spec_find_result(results, (#[trigger] descriptors[i]).digest).unwrap().media_type,
            ) == Some(ManifestType::Image),
        forall|i: int|
            0 <= i < descriptors.len() ==> image_manifest_ok(
                spec_find_result(results, (#[trigger] descriptors[i]).digest).unwrap().manifest,
            ),
    ensures
        spec_entries(descriptors, results) is Ok,
        spec_entries(descriptors, results)->Ok_0.len() == descriptors.len(),
        forall|i: int|
            0 <= i < descriptors.len() ==> #[trigger] spec_entries(descriptors, results)->Ok_0[i]
                == (ImageManifestWithDescriptorView {
                manifest: spec_find_result(results, descriptors[i].digest).unwrap().manifest,
                descriptor: Some(descriptors[i]),
            }),
    decreases descriptors.len(),
{
    if descriptors.len() > 0 {
        let prefix = descriptors.drop_last();
        assert forall|i: int| 0 <= i < prefix.len() implies spec_find_result(
            results,
            (#[trigger] prefix[i]).digest,
        ) is Some && spec_manifest_type_of(
            spec_find_result(results, prefix[i].digest).unwrap().media_type,
        ) == Some(ManifestType::Image) && image_manifest_ok(
            spec_find_result(results, prefix[i].digest).unwrap().manifest,
        ) by {
            assert(prefix[i] == descriptors[i]);
        }
        lemma_list_expansion(prefix, results);
        assert(descriptors[descriptors.len() - 1] == descriptors.last());
    }
}

/// Law: a descriptor that resolved to another manifest list never passes
/// silently: where an expansion succeeded, no descriptor's child had
/// classified as a list.
pub proof fn lemma_no_list_within_list(
    descriptors: Seq<DescriptorView>,
    results: Seq<ResolvedManifestView>,
    i: int,
)
    requires
        spec_entries(descriptors, results) is Ok,
        0 <= i < descriptors.len(),
        spec_find_result(results, descriptors[i].digest) is Some,
    ensures
        spec_manifest_type_of(spec_find_result(results, descriptors[i].digest).unwrap().media_type)
            != Some(ManifestType::List),
    decreases descriptors.len(),
{
    let prefix = descriptors.drop_last();
    if i == descriptors.len() - 1 {
        assert(spec_entries(prefix, results) is Ok);
    } else {
        assert(spec_entries(prefix, results) is Ok);
        assert(prefix[i] == descriptors[i]);
        lemma_no_list_within_list(prefix, results, i);
    }
}

/// Law: a successful phase 2 yields exactly one record per deferred image,
/// in deferral order, each carrying its image.
pub proof fn lemma_phase2_record_count(
    deferred: Seq<DeferredExpansionView>,
    results: Seq<ResolvedManifestView>,
)
    requires
        spec_phase2(deferred, results) is Ok,
    ensures
        spec_phase2(deferred, results)->Ok_0.len() == deferred.len(),
        forall|i: int|
            0 <= i < deferred.len() ==> (#[trigger] spec_phase2(deferred, results)->Ok_0[i]).image
                == deferred[i].image,
    decreases deferred.len(),
{
    if deferred.len() > 0 {
        let prefix = deferred.drop_last();
        assert(spec_phase2(prefix, results) is Ok);
        lemma_phase2_record_count(prefix, results);
        assert forall|i: int| 0 <= i < deferred.len() implies (#[trigger] spec_phase2(
            deferred,
            results,
        )->Ok_0[i]).image == deferred[i].image by {
            if i < deferred.len() - 1 {
                assert(prefix[i] == deferred[i]);
            }
        }
    }
}

/// Law (dedup): the one manifest resolved for a digest serves every image
/// sharing that digest: where phase 1 succeeded and a result classified as
/// an image manifest, the output holds, for each image owning the result's
/// digest, that image's record with that manifest.
pub proof fn lemma_manifest_attaches_to_all(
    images: Seq<RepositoryImageView>,
    results: Seq<ResolvedManifestView>,
    j: int,
)
    requires
        spec_phase1(images, results) is Ok,
        0 <= j < results.len(),
        spec_manifest_type_of(results[j].media_type) == Some(ManifestType::Image),
    ensures
        forall|i: int|
            0 <= i < images.len() && (#[trigger] images[i]).manifest_digest == results[j].digest
                ==> spec_phase1(images, results)->Ok_0.0.contains(
                spec_direct_record(images[i], results[j].manifest),
            ),
    decreases results.len(),
{
    let prefix = results.drop_last();
    assert(spec_phase1(images, prefix) is Ok);
    let acc = spec_phase1(images, prefix)->Ok_0;
    let out = spec_phase1(images, results)->Ok_0;
    if j == results.len() - 1 {
        let r = results.last();
        let owners = spec_owners(images, r.digest);
        let block = owners.map_values(
            |im: RepositoryImageView| spec_direct_record(im, r.manifest),
        );
        assert(out.0 == acc.0 + block);
        assert forall|i: int|
            0 <= i < images.len() && (#[trigger] images[i]).manifest_digest
                == results[j].digest implies out.0.contains(
            spec_direct_record(images[i], results[j].manifest),
        ) by {
            images.lemma_filter_contains(
                |im: RepositoryImageView| im.manifest_digest == r.digest,
                i,
            );
            let w = choose|w: int| 0 <= w < owners.len() && owners[w] == images[i];
            assert(block[w] == spec_direct_record(images[i], r.manifest));
            assert(out.0[acc.0.len() + w] == spec_direct_record(images[i], r.manifest));
        }
    } else {
        assert(prefix[j] == results[j]);
        lemma_manifest_attaches_to_all(images, prefix, j);
        assert forall|i: int|
            0 <= i < images.len() && (#[trigger] images[i]).manifest_digest
                == results[j].digest implies out.0.contains(
            spec_direct_record(images[i], results[j].manifest),
        ) by {
            let rec = spec_direct_record(images[i], results[j].manifest);
            assert(acc.0.contains(rec));
            let w = choose|w: int| 0 <= w < acc.0.len() && acc.0[w] == rec;
            assert(out.0.len() >= acc.0.len());
            assert(out.0[w] == rec);
        }
    }
}

/// The digests of a result list, in result order.
pub open spec fn result_digests(results: Seq<ResolvedManifestView>) -> Seq<Seq<char>> {
    results.map_values(|r: ResolvedManifestView| r.digest)
}

/// The images whose digest one of the given digests answers.
pub open spec fn spec_covered(images: Seq<RepositoryImageView>, digests: Seq<Seq<char>>) -> Seq<
    RepositoryImageView,
> {
    images.filter(|im: RepositoryImageView| digests.contains(im.manifest_digest))
}

proof fn lemma_covered_empty(images: Seq<RepositoryImageView>)
    ensures
        spec_covered(images, Seq::empty()).len() == 0,
    decreases images.len(),
{
    reveal(Seq::filter);
    if images.len() > 0 {
        lemma_covered_empty(images.drop_last());
    }
}

proof fn lemma_covered_split(images: Seq<RepositoryImageView>, ds: Seq<Seq<char>>, d: Seq<char>)
    requires
        !ds.contains(d),
    ensures
        spec_covered(images, ds.push(d)).len() == spec_covered(images, ds).len() + spec_owners(
            images,
            d,
        ).len(),
    decreases images.len(),
{
    reveal(Seq::filter);
    if images.len() > 0 {
        lemma_covered_split(images.drop_last(), ds, d);
        let last = images.last();
        assert forall|x: Seq<char>| #[trigger]
            ds.push(d).contains(x) implies ds.contains(x) || x == d by {
            let w = choose|w: int| 0 <= w < ds.push(d).len() && ds.push(d)[w] == x;
            if w < ds.len() {
                assert(ds[w] == x);
            }
        }
        if ds.contains(last.manifest_digest) {
            assert(ds.push(d)[choose|w: int|
                0 <= w < ds.len() && ds[w] == last.manifest_digest] == last.manifest_digest);
            assert(ds.push(d).contains(last.manifest_digest));
        } else if last.manifest_digest == d {
            assert(ds.push(d)[ds.len() as int] == d);
            assert(ds.push(d).contains(last.manifest_digest));
        }
    }
}

proof fn lemma_covered_all(images: Seq<RepositoryImageView>, ds: Seq<Seq<char>>)
    requires
        forall|i: int| 0 <= i < images.len() ==> ds.contains((#[trigger] images[i]).manifest_digest),
    ensures
        spec_covered(images, ds).len() == images.len(),
    decreases images.len(),
{
    reveal(Seq::filter);
    if images.len() > 0 {
        assert forall|i: int| 0 <= i < images.drop_last().len() implies ds.contains(
            (#[trigger] images.drop_last()[i]).manifest_digest,
        ) by {
            assert(images.drop_last()[i] == images[i]);
        }
        lemma_covered_all(images.drop_last(), ds);
        assert(images[images.len() - 1] == images.last());
    }
}

/// Law (counting, one phase): a successful phase 1 whose results carry
/// pairwise-distinct digests emits or defers exactly one item per image
/// those digests cover.
pub proof fn lemma_phase1_count(
    images: Seq<RepositoryImageView>,
    results: Seq<ResolvedManifestView>,
)
    requires
        spec_phase1(images, results) is Ok,
        result_digests(results).no_duplicates(),
    ensures
        spec_phase1(images, results)->Ok_0.0.len() + spec_phase1(images, results)->Ok_0.1.len()
            == spec_covered(images, result_digests(results)).len(),
    decreases results.len(),
{
    reveal(Seq::filter);
    if results.len() == 0 {
        assert(result_digests(results) =~= Seq::<Seq<char>>::empty());
        lemma_covered_empty(images);
    } else {
        let prefix = results.drop_last();
        let r = results.last();
        assert(spec_phase1(images, prefix) is Ok);
        assert(result_digests(prefix) =~= result_digests(results).drop_last());
        assert(result_digests(prefix).no_duplicates()) by {
            assert forall|a: int, b: int|
                0 <= a < b < result_digests(prefix).len() implies result_digests(prefix)[a]
                != result_digests(prefix)[b] by {
                assert(result_digests(results)[a] == result_digests(prefix)[a]);
                assert(result_digests(results)[b] == result_digests(prefix)[b]);
            }
        }
        lemma_phase1_count(images, prefix);
        assert(!result_digests(prefix).contains(r.digest)) by {
            if result_digests(prefix).contains(r.digest) {
                let w = choose|w: int|
                    0 <= w < result_digests(prefix).len() && result_digests(prefix)[w] == r.digest;
                assert(result_digests(results)[w] == r.digest);
                assert(result_digests(results)[results.len() - 1] == r.digest);
            }
        }
        lemma_covered_split(images, result_digests(prefix), r.digest);
        assert(result_digests(results) =~= result_digests(prefix).push(r.digest));
        let owners = spec_owners(images, r.digest);
        match spec_manifest_type_of(r.media_type) {
            None => {
                assert(false);
            },
            Some(ManifestType::Image) => {
                assert(spec_phase1(images, results)->Ok_0.0.len() == spec_phase1(
                    images,
                    prefix,
                )->Ok_0.0.len() + owners.len());
            },
            Some(ManifestType::List) => {
                assert(spec_phase1(images, results)->Ok_0.1.len() == spec_phase1(
                    images,
                    prefix,
                )->Ok_0.1.len() + owners.len());
            },
        }
    }
}

/// Law: over an image set with pairwise-distinct digests — one entry per
/// distinct (repository, digest) pair, as discovery guarantees within one
/// repository — a resolution in which phase 1 succeeded on results covering
/// every digest, the digests pairwise distinct, and phase 2 succeeded on
/// the deferred lists, emits exactly one record per image.
pub proof fn lemma_emitted_record_count(
    images: Seq<RepositoryImageView>,
    results1: Seq<ResolvedManifestView>,
    results2: Seq<ResolvedManifestView>,
)
    requires
        spec_image_digests(images).no_duplicates(),
        spec_all_digests_resolved(images, results1),
        result_digests(results1).no_duplicates(),
        spec_phase1(images, results1) is Ok,
        spec_phase2(spec_phase1(images, results1)->Ok_0.1, results2) is Ok,
    ensures
        spec_phase1(images, results1)->Ok_0.0.len() + spec_phase2(
            spec_phase1(images, results1)->Ok_0.1,
            results2,
        )->Ok_0.len() == images.len(),
{
    lemma_phase1_count(images, results1);
    assert forall|i: int| 0 <= i < images.len() implies result_digests(results1).contains(
        (#[trigger] images[i]).manifest_digest,
    ) by {
        let j = choose|j: int|
            0 <= j < results1.len() && #[trigger] results1[j].digest
                == images[i].manifest_digest;
        assert(result_digests(results1)[j] == images[i].manifest_digest);
    }
    lemma_covered_all(images, result_digests(results1));
    lemma_phase2_record_count(spec_phase1(images, results1)->Ok_0.1, results2);
}

/// What a missing-digest fault reports: a digest some image owns and no
/// result carries.
pub open spec fn spec_missing_error(
    images: Seq<RepositoryImageView>,
    results: Seq<ResolvedManifestView>,
    e: ResolveErrorView,
) -> bool {
    match e {
        ResolveErrorView::MissingDigest(d) => (exists|i: int|
            0 <= i < images.len() && (#[trigger] images[i]).manifest_digest == d) && (forall|
            j: int,
        |
            0 <= j < results.len() ==> (#[trigger] results[j]).digest != d),
        _ => false,
    }
}

/// Classifies one phase's worth of raw batch results for a repository's
/// images, after the phase-1 fan-out has fully drained. The digest of every
/// image must be answered, the results are deduplicated, and each one is
/// classified as `spec_phase1` says: completed records for image manifests
/// (one per owning image), deferred expansions for manifest lists, a fault
/// for everything the protocol forbids.
pub fn process_phase1(images: &Vec<RepositoryImage>, results: &Vec<ResolvedManifest>) -> (r:
    Result<(Vec<ImageWithManifests>, Vec<DeferredExpansion>), ResolveError>)
    ensures
        r is Ok <==> (spec_all_digests_resolved(image_views(images@), result_views(results@))
            && spec_phase1(
            image_views(images@),
            spec_dedup(result_views(results@)),
        ) is Ok),
        r is Ok ==> record_views(r->Ok_0.0@) == spec_phase1(
            image_views(images@),
            spec_dedup(result_views(results@)),
        )->Ok_0.0,
        r is Ok ==> deferred_views(r->Ok_0.1@) == spec_phase1(
            image_views(images@),
            spec_dedup(result_views(results@)),
        )->Ok_0.1,
        !spec_all_digests_resolved(image_views(images@), result_views(results@)) ==> (r is Err
            && spec_missing_error(
            image_views(images@),
            result_views(results@),
            r->Err_0@,
        )),
        (spec_all_digests_resolved(image_views(images@), result_views(results@)) && spec_phase1(
            image_views(images@),
            spec_dedup(result_views(results@)),
        ) is Err) ==> (r is Err && r->Err_0@ == spec_phase1(
            image_views(images@),
            spec_dedup(result_views(results@)),
        )->Err_0),
{
    let ghost iv = image_views(images@);
    let ghost rv0 = result_views(results@);
    let mut c: usize = 0;
    while c < images.len()
        invariant
            c <= images.len(),
            iv == image_views(images@),
            rv0 == result_views(results@),
            images@.len() == iv.len(),
            forall|i: int|
                0 <= i < c ==> exists|j: int|
                    0 <= j < rv0.len() && #[trigger] rv0[j].digest == (
                    #[trigger] iv[i]).manifest_digest,
        decreases images.len() - c,
    {
        if !has_result_for(results, &images[c].manifest_digest) {
            proof {
                assert(iv[c as int].manifest_digest == images@[c as int].manifest_digest@);
                assert(!spec_all_digests_resolved(iv, rv0));
            }
            return Err(ResolveError::MissingDigest(images[c].manifest_digest.clone()));
        }
        c += 1;
    }
    proof {
        assert(spec_all_digests_resolved(iv, rv0));
    }
    let deduped = dedup_results(results);
    let ghost rv = spec_dedup(rv0);
    let mut recs: Vec<ImageWithManifests> = Vec::new();
    let mut defs: Vec<DeferredExpansion> = Vec::new();
    let mut i: usize = 0;
    proof {
        assert(rv.take(0) =~= Seq::<ResolvedManifestView>::empty());
        assert(record_views(recs@) =~= Seq::<ImageWithManifestsView>::empty());
        assert(deferred_views(defs@) =~= Seq::<DeferredExpansionView>::empty());
    }
    while i < deduped.len()
        invariant
            i <= deduped@.len(),
            iv == image_views(images@),
            rv0 == result_views(results@),
            rv == spec_dedup(rv0),
            rv == result_views(deduped@),
            deduped@.len() == rv.len(),
            spec_all_digests_resolved(iv, rv0),
            spec_phase1(iv, rv.take(i as int)) == Ok::<_, ResolveErrorView>(
                (record_views(recs@), deferred_views(defs@)),
            ),
        decreases deduped@.len() - i,
    {
        let ghost prev_recs = record_views(recs@);
        let ghost prev_defs = deferred_views(defs@);
        proof {
            assert(rv.take(i + 1).drop_last() =~= rv.take(i as int));
            assert(rv.take(i + 1).last() == rv[i as int]);
            assert(deduped@[i as int]@ == rv[i as int]);
        }
        let owners = owners_of(images, &deduped[i].digest);
        if owners.len() == 0 {
            proof {
                assert(image_views(owners@).len() == 0);
                assert(spec_phase1(iv, rv.take(i + 1)) == Err::<
                    (Seq<ImageWithManifestsView>, Seq<DeferredExpansionView>),
                    _,
                >(ResolveErrorView::UnrequestedDigest(rv[i as int].digest)));
                lemma_phase1_err_persists(iv, rv, i + 1, rv.len() as int);
                assert(rv.take(rv.len() as int) =~= rv);
            }
            return Err(ResolveError::UnrequestedDigest(deduped[i].digest.clone()));
        }
        match ManifestType::from_str(deduped[i].media_type.as_str()) {
            None => {
                proof {
                    lemma_phase1_err_persists(iv, rv, i + 1, rv.len() as int);
                    assert(rv.take(rv.len() as int) =~= rv);
                }
                return Err(ResolveError::UnexpectedMediaType(deduped[i].digest.clone()));
            },
            Some(ManifestType::Image) => {
                if check_image_manifest(deduped[i].manifest.as_str()) {
                    push_direct_records(&mut recs, &owners, &deduped[i].manifest);
                    proof {
                        assert(record_views(recs@) == prev_recs + spec_owners(
                            iv,
                            rv[i as int].digest,
                        ).map_values(
                            |im: RepositoryImageView| spec_direct_record(
                                im,
                                rv[i as int].manifest,
                            ),
                        ));
                        assert(spec_phase1(iv, rv.take(i + 1)) == Ok::<_, ResolveErrorView>(
                            (record_views(recs@), deferred_views(defs@)),
                        ));
                    }
                } else {
                    proof {
                        lemma_phase1_err_persists(iv, rv, i + 1, rv.len() as int);
                        assert(rv.take(rv.len() as int) =~= rv);
                    }
                    return Err(ResolveError::InvalidManifest(deduped[i].digest.clone()));
                }
            },
            Some(ManifestType::List) => {
                match parse_index_descriptors(deduped[i].manifest.as_str()) {
                    Some(ds) => {
                        proof {
                            assert(ds@.map_values(|d: Descriptor| d@) == index_manifests(
                                rv[i as int].manifest,
                            ).unwrap());
                        }
                        push_deferred(&mut defs, &owners, &ds);
                        proof {
                            assert(deferred_views(defs@) == prev_defs + spec_owners(
                                iv,
                                rv[i as int].digest,
                            ).map_values(
                                |im: RepositoryImageView| DeferredExpansionView {
                                    image: im,
                                    descriptors: index_manifests(rv[i as int].manifest).unwrap(),
                                },
                            ));
                            assert(spec_phase1(iv, rv.take(i + 1)) == Ok::<_, ResolveErrorView>(
                                (record_views(recs@), deferred_views(defs@)),
                            ));
                        }
                    },
                    None => {
                        proof {
                            lemma_phase1_err_persists(iv, rv, i + 1, rv.len() as int);
                            assert(rv.take(rv.len() as int) =~= rv);
                        }
                        return Err(ResolveError::InvalidIndex(deduped[i].digest.clone()));
                    },
                }
            },
        }
        i += 1;
    }
    proof {
        assert(rv.take(rv.len() as int) =~= rv);
    }
    Ok((recs, defs))
}

/// Every deferred image's descriptor digests, concatenated in deferral
/// order: the combined request set of phase 2.
fn deferred_digest_list(deferred: &Vec<DeferredExpansion>) -> (r: Vec<String>)
    ensures
        string_views(r@) == spec_deferred_digests(deferred_views(deferred@)),
{
    let ghost dv = deferred_views(deferred@);
    let ghost f = |d: DeferredExpansionView| d.descriptors.map_values(|x: DescriptorView| x.digest);
    let mut r: Vec<String> = Vec::new();
    let mut i: usize = 0;
    proof {
        assert(dv.take(0).map_values(f) =~= Seq::<Seq<Seq<char>>>::empty());
        assert(string_views(r@) =~= dv.take(0).map_values(f).flatten());
    }
    while i < deferred.len()
        invariant
            i <= deferred.len(),
            dv == deferred_views(deferred@),
            deferred@.len() == dv.len(),
            string_views(r@) == dv.take(i as int).map_values(
                |d: DeferredExpansionView| d.descriptors.map_values(|x: DescriptorView| x.digest),
            ).flatten(),
        decreases deferred.len() - i,
    {
        let ghost base = string_views(r@);
        let ghost inner = dv[i as int].descriptors.map_values(|x: DescriptorView| x.digest);
        let mut k: usize = 0;
        proof {
            assert(string_views(r@) =~= base + inner.take(0));
        }
        while k < deferred[i].descriptors.len()
            invariant
                0 <= i < deferred.len(),
                k <= deferred@[i as int].descriptors@.len(),
                dv == deferred_views(deferred@),
                deferred@.len() == dv.len(),
                inner == dv[i as int].descriptors.map_values(|x: DescriptorView| x.digest),
                deferred@[i as int].descriptors@.len() == inner.len(),
                string_views(r@) == base + inner.take(k as int),
            decreases deferred@[i as int].descriptors@.len() - k,
        {
            let ghost prev = string_views(r@);
            r.push(deferred[i].descriptors[k].digest.clone());
            proof {
                assert(deferred@[i as int]@ == dv[i as int]);
                assert(dv[i as int].descriptors[k as int]
                    == deferred@[i as int].descriptors@[k as int]@);
                assert(string_views(r@) =~= prev.push(inner[k as int]));
                assert(string_views(r@) =~= base + inner.take(k + 1));
            }
            k += 1;
        }
        proof {
            let fmap = |d: DeferredExpansionView| d.descriptors.map_values(
                |x: DescriptorView| x.digest,
            );
            assert(inner.take(inner.len() as int) =~= inner);
            assert(string_views(r@) == base + inner);
            assert(dv.take(i + 1).map_values(fmap) =~= dv.take(i as int).map_values(fmap).push(
                inner,
            ));
            dv.take(i as int).map_values(fmap).lemma_flatten_push(inner);
            assert(string_views(r@) =~= dv.take(i + 1).map_values(fmap).flatten());
        }
        i += 1;
    }
    proof {
        assert(dv.take(dv.len() as int) =~= dv);
    }
    r
}

/// The phase-2 batches for the deferred expansions phase 1 produced: the
/// distinct descriptor digests over all deferred images, merged into one
/// request set in first-appearance order and chunked by the configured
/// bound.
pub fn plan_phase2(deferred: &Vec<DeferredExpansion>, config: &ResolveConfig) -> (r: Vec<
    Vec<String>,
>)
    requires
        config.wf(),
    ensures
        chunk_views(r@).flatten() == spec_dedup(
            spec_deferred_digests(deferred_views(deferred@)),
        ),
        forall|j: int|
            0 <= j < r@.len() ==> 1 <= #[trigger] chunk_views(r@)[j].len() <= config.chunk_size,
        forall|j: int|
            0 <= j < r@.len() - 1 ==> #[trigger] chunk_views(r@)[j].len() == config.chunk_size,
{
    let digests = deferred_digest_list(deferred);
    let distinct = dedup_digests(&digests);
    chunk_digests(&distinct, config.chunk_size)
}

/// Expands the deferred manifest lists with one phase's worth of raw batch
/// results, after the phase-2 fan-out has fully drained. Every returned
/// digest must have been requested, the results are deduplicated, and each
/// deferred image yields one record whose entries follow `spec_entries`:
/// one per descriptor whose child is an image manifest, tagged with that
/// descriptor; a child list or a missing or malformed child is a fault.
pub fn process_phase2(deferred: &Vec<DeferredExpansion>, results: &Vec<ResolvedManifest>) -> (r:
    Result<Vec<ImageWithManifests>, ResolveError>)
    ensures
        r is Ok <==> (spec_all_results_requested(
            spec_deferred_digests(deferred_views(deferred@)),
            result_views(results@),
        ) && spec_phase2(
            deferred_views(deferred@),
            spec_dedup(result_views(results@)),
        ) is Ok),
        r is Ok ==> record_views(r->Ok_0@) == spec_phase2(
            deferred_views(deferred@),
            spec_dedup(result_views(results@)),
        )->Ok_0,
        !spec_all_results_requested(
            spec_deferred_digests(deferred_views(deferred@)),
            result_views(results@),
        ) ==> (r is Err && spec_unrequested_error(
            spec_deferred_digests(deferred_views(deferred@)),
            result_views(results@),
            r->Err_0@,
        )),
        (spec_all_results_requested(
            spec_deferred_digests(deferred_views(deferred@)),
            result_views(results@),
        ) && spec_phase2(deferred_views(deferred@), spec_dedup(result_views(results@))) is Err)
            ==> (r is Err && r->Err_0@ == spec_phase2(
            deferred_views(deferred@),
            spec_dedup(result_views(results@)),
        )->Err_0),
{
    let ghost dv = deferred_views(deferred@);
    let ghost rv0 = result_views(results@);
    let ghost reqs = spec_deferred_digests(dv);
    let requested = deferred_digest_list(deferred);
    let mut c: usize = 0;
    while c < results.len()
        invariant
            c <= results.len(),
            dv == deferred_views(deferred@),
            rv0 == result_views(results@),
            results@.len() == rv0.len(),
            reqs == spec_deferred_digests(dv),
            string_views(requested@) == reqs,
            forall|j: int| 0 <= j < c ==> reqs.contains((#[trigger] rv0[j]).digest),
        decreases results.len() - c,
    {
        if !contains_string(&requested, &results[c].digest) {
            proof {
                assert(rv0[c as int].digest == results@[c as int].digest@);
                assert(!spec_all_results_requested(reqs, rv0));
            }
            return Err(ResolveError::UnrequestedDigest(results[c].digest.clone()));
        }
        c += 1;
    }
    proof {
        assert(spec_all_results_requested(reqs, rv0));
    }
    let deduped = dedup_results(results);
    let ghost rv = spec_dedup(rv0);
    let mut recs: Vec<ImageWithManifests> = Vec::new();
    let mut di: usize = 0;
    proof {
        assert(dv.take(0) =~= Seq::<DeferredExpansionView>::empty());
        assert(record_views(recs@) =~= Seq::<ImageWithManifestsView>::empty());
    }
    while di < deferred.len()
        invariant
            di <= deferred@.len(),
            dv == deferred_views(deferred@),
            rv0 == result_views(results@),
            rv == spec_dedup(rv0),
            rv == result_views(deduped@),
            deduped@.len() == rv.len(),
            reqs == spec_deferred_digests(dv),
            deferred@.len() == dv.len(),
            spec_all_results_requested(reqs, rv0),
            spec_phase2(dv.take(di as int), rv) == Ok::<_, ResolveErrorView>(record_views(recs@)),
        decreases deferred@.len() - di,
    {
        let ghost prev_recs = record_views(recs@);
        let ghost dsv = dv[di as int].descriptors;
        proof {
            assert(dv.take(di + 1).drop_last() =~= dv.take(di as int));
            assert(dv.take(di + 1).last() == dv[di as int]);
            assert(deferred@[di as int]@ == dv[di as int]);
        }
        let mut entries: Vec<ImageManifestWithDescriptor> = Vec::new();
        let mut k: usize = 0;
        proof {
            assert(dsv.take(0) =~= Seq::<DescriptorView>::empty());
            assert(entry_views(entries@) =~= Seq::<ImageManifestWithDescriptorView>::empty());
        }
        while k < deferred[di].descriptors.len()
            invariant
                0 <= di < deferred@.len(),
                k <= deferred@[di as int].descriptors@.len(),
                dv == deferred_views(deferred@),
                deferred@.len() == dv.len(),
                dsv == dv[di as int].descriptors,
                deferred@[di as int].descriptors@.len() == dsv.len(),
                rv0 == result_views(results@),
                rv == spec_dedup(rv0),
                rv == result_views(deduped@),
                deduped@.len() == rv.len(),
                reqs == spec_deferred_digests(dv),
                spec_all_results_requested(reqs, rv0),
                spec_phase2(dv.take(di as int), rv) == Ok::<_, ResolveErrorView>(prev_recs),
                prev_recs == record_views(recs@),
                spec_entries(dsv.take(k as int), rv) == Ok::<_, ResolveErrorView>(
                    entry_views(entries@),
                ),
            decreases deferred@[di as int].descriptors@.len() - k,
        {
            let ghost prev_entries = entry_views(entries@);
            proof {
                assert(dsv.take(k + 1).drop_last() =~= dsv.take(k as int));
                assert(dsv.take(k + 1).last() == dsv[k as int]);
                assert(deferred@[di as int].descriptors@[k as int]@ == dsv[k as int]);
            }
            match find_result(&deduped, &deferred[di].descriptors[k].digest) {
                None => {
                    proof {
                        let e = ResolveErrorView::MissingDigest(dsv[k as int].digest);
                        assert(dsv.take(k + 1).last() == dsv[k as int]);
                        assert(dsv.take(k + 1).drop_last() =~= dsv.take(k as int));
                        assert(spec_entries(dsv.take(k + 1), rv) == Err::<
                            Seq<ImageManifestWithDescriptorView>,
                            ResolveErrorView,
                        >(e));
                        lemma_entries_step_err(dsv, rv, k as int, e);
                        lemma_phase2_step_err(dv, rv, di as int, prev_recs, e);
                    }
                    return Err(
                        ResolveError::MissingDigest(deferred[di].descriptors[k].digest.clone()),
                    );
                },
                Some(idx) => {
                    let ghost found = spec_find_result(rv, dsv[k as int].digest).unwrap();
                    proof {
                        assert(deduped@[idx as int]@ == rv[idx as int]);
                        assert(found == rv[idx as int]);
                    }
                    match ManifestType::from_str(deduped[idx].media_type.as_str()) {
                        None => {
                            proof {
                                let e = ResolveErrorView::UnexpectedMediaType(
                                    dsv[k as int].digest,
                                );
                                assert(dsv.take(k + 1).last() == dsv[k as int]);
                                assert(dsv.take(k + 1).drop_last() =~= dsv.take(k as int));
                                assert(spec_entries(dsv.take(k + 1), rv) == Err::<
                                    Seq<ImageManifestWithDescriptorView>,
                                    ResolveErrorView,
                                >(e));
                                lemma_entries_step_err(dsv, rv, k as int, e);
                                lemma_phase2_step_err(dv, rv, di as int, prev_recs, e);
                            }
                            return Err(
                                ResolveError::UnexpectedMediaType(
                                    deferred[di].descriptors[k].digest.clone(),
                                ),
                            );
                        },
                        Some(ManifestType::Image) => {
                            if check_image_manifest(deduped[idx].manifest.as_str()) {
                                let entry = ImageManifestWithDescriptor {
                                    manifest: deduped[idx].manifest.clone(),
                                    descriptor: Some(deferred[di].descriptors[k].clone()),
                                };
                                proof {
                                    assert(entry@ =~= ImageManifestWithDescriptorView {
                                        manifest: found.manifest,
                                        descriptor: Some(dsv[k as int]),
                                    });
                                }
                                entries.push(entry);
                                proof {
                                    assert(entry_views(entries@) =~= prev_entries.push(
                                        ImageManifestWithDescriptorView {
                                            manifest: found.manifest,
                                            descriptor: Some(dsv[k as int]),
                                        },
                                    ));
                                    assert(spec_entries(dsv.take(k + 1), rv) == Ok::<
                                        _,
                                        ResolveErrorView,
                                    >(entry_views(entries@)));
                                }
                            } else {
                                proof {
                                    let e = ResolveErrorView::InvalidManifest(
                                        dsv[k as int].digest,
                                    );
                                    assert(dsv.take(k + 1).last() == dsv[k as int]);
                                    assert(dsv.take(k + 1).drop_last() =~= dsv.take(k as int));
                                    assert(spec_entries(dsv.take(k + 1), rv) == Err::<
                                        Seq<ImageManifestWithDescriptorView>,
                                        ResolveErrorView,
                                    >(e));
                                    lemma_entries_step_err(dsv, rv, k as int, e);
                                    lemma_phase2_step_err(dv, rv, di as int, prev_recs, e);
                                }
                                return Err(
                                    ResolveError::InvalidManifest(
                                        deferred[di].descriptors[k].digest.clone(),
                                    ),
                                );
                            }
                        },
                        Some(ManifestType::List) => {
                            proof {
                                let e = ResolveErrorView::ListWithinList(dsv[k as int].digest);
                                assert(dsv.take(k + 1).last() == dsv[k as int]);
                                assert(dsv.take(k + 1).drop_last() =~= dsv.take(k as int));
                                assert(spec_entries(dsv.take(k + 1), rv) == Err::<
                                    Seq<ImageManifestWithDescriptorView>,
                                    ResolveErrorView,
                                >(e));
                                lemma_entries_step_err(dsv, rv, k as int, e);
                                lemma_phase2_step_err(dv, rv, di as int, prev_recs, e);
                            }
                            return Err(
                                ResolveError::ListWithinList(
                                    deferred[di].descriptors[k].digest.clone(),
                                ),
                            );
                        },
                    }
                },
            }
            k += 1;
        }
        proof {
            assert(dsv.take(dsv.len() as int) =~= dsv);
            assert(spec_entries(dsv, rv) == Ok::<_, ResolveErrorView>(entry_views(entries@)));
        }
        let rec = ImageWithManifests { image: deferred[di].image.clone(), manifests: entries };
        proof {
            assert(rec@ =~= ImageWithManifestsView {
                image: dv[di as int].image,
                manifests: spec_entries(dsv, rv)->Ok_0,
            });
        }
        recs.push(rec);
        proof {
            assert(record_views(recs@) =~= prev_recs.push(rec@));
            assert(spec_phase2(dv.take(di + 1), rv) == Ok::<_, ResolveErrorView>(
                record_views(recs@),
            ));
        }
        di += 1;
    }
    proof {
        assert(dv.take(dv.len() as int) =~= dv);
    }
    Ok(recs)
}

} // verus!
