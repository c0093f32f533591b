use ecr_inventory::batch::BatchScheduler;
use ecr_inventory::error::ResolveError;
use ecr_inventory::image::{filter_image_details, ImageDetail, RepositoryImage};
use ecr_inventory::manifest::{ManifestType, ResolvedManifest};
use ecr_inventory::resolve::{
    plan_phase1, plan_phase2, process_phase1, process_phase2, ResolveConfig,
};

const OCI_IMAGE: &str = "application/vnd.oci.image.manifest.v1+json";
const OCI_INDEX: &str = "application/vnd.oci.image.index.v1+json";
const DOCKER_IMAGE: &str = "application/vnd.docker.distribution.manifest.v2+json";
const DOCKER_LIST: &str = "application/vnd.docker.distribution.manifest.list.v2+json";

fn digest(c: char) -> String {
    let mut s = String::from("sha256:");
    for _ in 0..64 {
        s.push(c);
    }
    s
}

fn image(repo: &str, dg: &str, t: ManifestType) -> RepositoryImage {
    RepositoryImage {
        repository_name: repo.to_string(),
        manifest_digest: dg.to_string(),
        manifest_type: t,
        image_tags: vec!["latest".to_string()],
        image_pushed_at: 1_700_000_000,
        last_recorded_pull_time: None,
    }
}

fn manifest_json() -> String {
    let body = "{\"schemaVersion\":2,\"config\":{\"mediaType\":\"application/vnd.oci.image.config.v1+json\",\"digest\":\"CONFIG\",\"size\":7023},\"layers\":[{\"mediaType\":\"application/vnd.oci.image.layer.v1.tar+gzip\",\"digest\":\"LAYER\",\"size\":32654}]}";
    body.replace("CONFIG", &digest('c')).replace("LAYER", &digest('d'))
}

fn index_json(d3: &str, d4: &str) -> String {
    let body = "{\"schemaVersion\":2,\"manifests\":[{\"mediaType\":\"MEDIA\",\"digest\":\"D3\",\"size\":7143,\"platform\":{\"architecture\":\"amd64\",\"os\":\"linux\"}},{\"mediaType\":\"MEDIA\",\"digest\":\"D4\",\"size\":7144,\"platform\":{\"architecture\":\"arm64\",\"os\":\"linux\"}}]}";
    body.replace("MEDIA", OCI_IMAGE).replace("D3", d3).replace("D4", d4)
}

fn result(dg: &str, manifest: &str, media: &str) -> ResolvedManifest {
    ResolvedManifest {
        digest: dg.to_string(),
        manifest: manifest.to_string(),
        media_type: media.to_string(),
    }
}

#[test]
fn media_type_classification() {
    assert_eq!(ManifestType::from_str(OCI_IMAGE), Some(ManifestType::Image));
    assert_eq!(ManifestType::from_str(DOCKER_IMAGE), Some(ManifestType::Image));
    assert_eq!(ManifestType::from_str(OCI_INDEX), Some(ManifestType::List));
    assert_eq!(ManifestType::from_str(DOCKER_LIST), Some(ManifestType::List));
    assert_eq!(ManifestType::from_str("text/plain"), None);
    assert_eq!(ManifestType::from_str(""), None);
}

fn detail(media: Option<&str>) -> ImageDetail {
    ImageDetail {
        repository_name: Some("repo".to_string()),
        image_digest: Some(digest('1')),
        image_manifest_media_type: media.map(|m| m.to_string()),
        image_tags: Some(vec!["v1".to_string()]),
        image_pushed_at: Some(1_700_000_000),
        last_recorded_pull_time: Some(1_700_000_500),
    }
}

#[test]
fn from_image_detail_normalizes() {
    let got = RepositoryImage::from_image_detail(detail(Some(OCI_IMAGE))).unwrap();
    assert_eq!(got.repository_name, "repo");
    assert_eq!(got.manifest_digest, digest('1'));
    assert_eq!(got.manifest_type, ManifestType::Image);
    assert_eq!(got.image_tags, vec!["v1".to_string()]);
    assert_eq!(got.image_pushed_at, 1_700_000_000);
    assert_eq!(got.last_recorded_pull_time, Some(1_700_000_500));
}

#[test]
fn from_image_detail_drops_unrecognized() {
    assert!(RepositoryImage::from_image_detail(detail(None)).is_none());
    assert!(RepositoryImage::from_image_detail(detail(Some("text/plain"))).is_none());
    let mut d = detail(Some(OCI_IMAGE));
    d.image_digest = None;
    assert!(RepositoryImage::from_image_detail(d).is_none());
    let mut d = detail(Some(OCI_INDEX));
    d.image_tags = None;
    let got = RepositoryImage::from_image_detail(d).unwrap();
    assert_eq!(got.manifest_type, ManifestType::List);
    assert!(got.image_tags.is_empty());
}

#[test]
fn discovery_keeps_only_recognized() {
    let details = vec![detail(Some(OCI_IMAGE)), detail(Some("text/plain")), detail(None)];
    let images = filter_image_details(details);
    assert_eq!(images.len(), 1);
    assert_eq!(images[0].manifest_type, ManifestType::Image);
}

#[test]
fn chunking_five_digests_by_two() {
    let images: Vec<RepositoryImage> = ['1', '2', '3', '4', '5']
        .iter()
        .map(|c| image("repo", &digest(*c), ManifestType::Image))
        .collect();
    let config = ResolveConfig::new_with_config(2, 3);
    let batches = plan_phase1(&images, &config);
    assert_eq!(batches.len(), 3);
    assert_eq!(batches[0].len(), 2);
    assert_eq!(batches[1].len(), 2);
    assert_eq!(batches[2].len(), 1);
    assert_eq!(batches[0], vec![digest('1'), digest('2')]);
    assert_eq!(batches[2], vec![digest('5')]);
}

#[test]
fn dedup_shared_digest_single_request() {
    let images = vec![
        image("repo", &digest('1'), ManifestType::Image),
        image("repo", &digest('1'), ManifestType::Image),
        image("repo", &digest('1'), ManifestType::Image),
    ];
    let config = ResolveConfig::new();
    let batches = plan_phase1(&images, &config);
    assert_eq!(batches.len(), 1);
    assert_eq!(batches[0], vec![digest('1')]);
}

#[test]
fn scheduler_bounds_in_flight() {
    let chunks: Vec<Vec<String>> = (0..10).map(|i| vec![format!("chunk{i}")]).collect();
    let mut sched = BatchScheduler::new(chunks, 3);
    let mut in_flight = 0usize;
    let mut started = 0usize;
    let mut max_observed = 0usize;
    while !sched.is_done() {
        while let Some(_chunk) = sched.start_next() {
            in_flight += 1;
            started += 1;
            if in_flight > max_observed {
                max_observed = in_flight;
            }
        }
        assert!(in_flight <= 3);
        sched.complete_one();
        in_flight -= 1;
    }
    assert_eq!(started, 10);
    assert_eq!(max_observed, 3);
}

#[test]
fn phase1_direct_resolution() {
    let images = vec![image("repo", &digest('1'), ManifestType::Image)];
    let results = vec![result(&digest('1'), &manifest_json(), OCI_IMAGE)];
    let (records, deferred) = process_phase1(&images, &results).unwrap();
    assert!(deferred.is_empty());
    assert_eq!(records.len(), 1);
    assert_eq!(records[0].image.manifest_digest, digest('1'));
    assert_eq!(records[0].manifests.len(), 1);
    assert_eq!(records[0].manifests[0].manifest, manifest_json());
    assert!(records[0].manifests[0].descriptor.is_none());
}

#[test]
fn phase1_manifest_attaches_to_all_owners() {
    let mut a = image("repo", &digest('1'), ManifestType::Image);
    a.image_tags = vec!["one".to_string()];
    let mut b = image("repo", &digest('1'), ManifestType::Image);
    b.image_tags = vec!["two".to_string()];
    let images = vec![a, b];
    let results = vec![result(&digest('1'), &manifest_json(), OCI_IMAGE)];
    let (records, _) = process_phase1(&images, &results).unwrap();
    assert_eq!(records.len(), 2);
    assert_eq!(records[0].image.image_tags, vec!["one".to_string()]);
    assert_eq!(records[1].image.image_tags, vec!["two".to_string()]);
    assert_eq!(records[0].manifests[0].manifest, manifest_json());
    assert_eq!(records[1].manifests[0].manifest, manifest_json());
}

#[test]
fn phase1_duplicate_results_processed_once() {
    let images = vec![image("repo", &digest('1'), ManifestType::Image)];
    let r = result(&digest('1'), &manifest_json(), OCI_IMAGE);
    let results = vec![r.clone(), r];
    let (records, _) = process_phase1(&images, &results).unwrap();
    assert_eq!(records.len(), 1);
}

#[test]
fn phase1_missing_digest_is_error() {
    let images = vec![
        image("repo", &digest('1'), ManifestType::Image),
        image("repo", &digest('2'), ManifestType::Image),
    ];
    let results = vec![result(&digest('1'), &manifest_json(), OCI_IMAGE)];
    let err = process_phase1(&images, &results).unwrap_err();
    assert_eq!(err, ResolveError::MissingDigest(digest('2')));
    assert_eq!(err.digest(), &digest('2'));
    assert!(err.is_protocol());
}

#[test]
fn phase1_unrequested_digest_is_error() {
    let images = vec![image("repo", &digest('1'), ManifestType::Image)];
    let results = vec![
        result(&digest('1'), &manifest_json(), OCI_IMAGE),
        result(&digest('9'), &manifest_json(), OCI_IMAGE),
    ];
    let err = process_phase1(&images, &results).unwrap_err();
    assert_eq!(err, ResolveError::UnrequestedDigest(digest('9')));
    assert!(err.is_protocol());
}

#[test]
fn phase1_malformed_manifest_is_error() {
    let images = vec![image("repo", &digest('1'), ManifestType::Image)];
    let results = vec![result(&digest('1'), "{not json", OCI_IMAGE)];
    let err = process_phase1(&images, &results).unwrap_err();
    assert_eq!(err, ResolveError::InvalidManifest(digest('1')));
    assert!(!err.is_protocol());
}

#[test]
fn phase1_malformed_index_is_error() {
    let images = vec![image("repo", &digest('2'), ManifestType::List)];
    let results = vec![result(&digest('2'), "{\"schemaVersion\":2}", OCI_INDEX)];
    let err = process_phase1(&images, &results).unwrap_err();
    assert_eq!(err, ResolveError::InvalidIndex(digest('2')));
}

#[test]
fn list_expansion_end_to_end() {
    let d1 = digest('1');
    let d2 = digest('2');
    let d3 = digest('3');
    let d4 = digest('4');
    let images = vec![
        image("repo", &d1, ManifestType::Image),
        image("repo", &d2, ManifestType::List),
    ];
    let phase1_results = vec![
        result(&d1, &manifest_json(), OCI_IMAGE),
        result(&d2, &index_json(&d3, &d4), OCI_INDEX),
    ];
    let (records, deferred) = process_phase1(&images, &phase1_results).unwrap();
    assert_eq!(records.len(), 1);
    assert_eq!(records[0].image.manifest_digest, d1);
    assert_eq!(deferred.len(), 1);
    assert_eq!(deferred[0].image.manifest_digest, d2);
    assert_eq!(deferred[0].descriptors.len(), 2);
    assert_eq!(deferred[0].descriptors[0].digest, d3);
    assert_eq!(deferred[0].descriptors[0].media_type, OCI_IMAGE);
    assert_eq!(deferred[0].descriptors[0].size, 7143);
    let p0 = deferred[0].descriptors[0].platform.as_ref().unwrap();
    assert_eq!(p0.architecture, "amd64");
    assert_eq!(p0.os, "linux");
    assert_eq!(deferred[0].descriptors[1].digest, d4);
    assert_eq!(
        deferred[0].descriptors[1].platform.as_ref().unwrap().architecture,
        "arm64"
    );

    let config = ResolveConfig::new();
    let batches = plan_phase2(&deferred, &config);
    assert_eq!(batches.len(), 1);
    assert_eq!(batches[0], vec![d3.clone(), d4.clone()]);

    let phase2_results = vec![
        result(&d3, &manifest_json(), OCI_IMAGE),
        result(&d4, &manifest_json(), DOCKER_IMAGE),
    ];
    let expanded = process_phase2(&deferred, &phase2_results).unwrap();
    assert_eq!(expanded.len(), 1);
    assert_eq!(expanded[0].image.manifest_digest, d2);
    assert_eq!(expanded[0].manifests.len(), 2);
    assert_eq!(expanded[0].manifests[0].descriptor.as_ref().unwrap().digest, d3);
    assert_eq!(expanded[0].manifests[1].descriptor.as_ref().unwrap().digest, d4);
    assert_eq!(expanded[0].manifests[0].manifest, manifest_json());

    // One emitted record per image of the repository.
    assert_eq!(records.len() + expanded.len(), images.len());
}

#[test]
fn list_within_list_is_protocol_error() {
    let d2 = digest('2');
    let d3 = digest('3');
    let d4 = digest('4');
    let images = vec![image("repo", &d2, ManifestType::List)];
    let phase1_results = vec![result(&d2, &index_json(&d3, &d4), OCI_INDEX)];
    let (_, deferred) = process_phase1(&images, &phase1_results).unwrap();
    let phase2_results = vec![
        result(&d3, &index_json(&digest('5'), &digest('6')), OCI_INDEX),
        result(&d4, &manifest_json(), OCI_IMAGE),
    ];
    let err = process_phase2(&deferred, &phase2_results).unwrap_err();
    assert_eq!(err, ResolveError::ListWithinList(d3));
    assert!(err.is_protocol());
}

#[test]
fn phase2_missing_child_is_error() {
    let d2 = digest('2');
    let d3 = digest('3');
    let d4 = digest('4');
    let images = vec![image("repo", &d2, ManifestType::List)];
    let (_, deferred) =
        process_phase1(&images, &vec![result(&d2, &index_json(&d3, &d4), OCI_INDEX)]).unwrap();
    let phase2_results = vec![result(&d3, &manifest_json(), OCI_IMAGE)];
    let err = process_phase2(&deferred, &phase2_results).unwrap_err();
    assert_eq!(err, ResolveError::MissingDigest(d4));
}

#[test]
fn phase2_merges_shared_child_digests() {
    // Two manifest lists referencing the same child digest produce one
    // merged request for it, and the child manifest attaches to both.
    let da = digest('a');
    let db = digest('b');
    let d3 = digest('3');
    let d4 = digest('4');
    let images = vec![
        image("repo", &da, ManifestType::List),
        image("repo", &db, ManifestType::List),
    ];
    let phase1_results = vec![
        result(&da, &index_json(&d3, &d4), OCI_INDEX),
        result(&db, &index_json(&d3, &d4), OCI_INDEX),
    ];
    let (records, deferred) = process_phase1(&images, &phase1_results).unwrap();
    assert!(records.is_empty());
    assert_eq!(deferred.len(), 2);

    let config = ResolveConfig::new();
    let batches = plan_phase2(&deferred, &config);
    assert_eq!(batches.len(), 1);
    assert_eq!(batches[0], vec![d3.clone(), d4.clone()]);

    let phase2_results = vec![
        result(&d3, &manifest_json(), OCI_IMAGE),
        result(&d4, &manifest_json(), OCI_IMAGE),
    ];
    let expanded = process_phase2(&deferred, &phase2_results).unwrap();
    assert_eq!(expanded.len(), 2);
    assert_eq!(expanded[0].image.manifest_digest, da);
    assert_eq!(expanded[1].image.manifest_digest, db);
    assert_eq!(expanded[0].manifests.len(), 2);
    assert_eq!(expanded[1].manifests.len(), 2);
}

#[test]
fn phase1_unexpected_media_type_is_protocol_error() {
    let images = vec![image("repo", &digest('1'), ManifestType::Image)];
    let results = vec![result(&digest('1'), &manifest_json(), "application/octet-stream")];
    let err = process_phase1(&images, &results).unwrap_err();
    assert_eq!(err, ResolveError::UnexpectedMediaType(digest('1')));
    assert!(err.is_protocol());
}

#[test]
fn phase2_unexpected_child_media_type_is_protocol_error() {
    let d2 = digest('2');
    let d3 = digest('3');
    let d4 = digest('4');
    let images = vec![image("repo", &d2, ManifestType::List)];
    let (_, deferred) =
        process_phase1(&images, &vec![result(&d2, &index_json(&d3, &d4), OCI_INDEX)]).unwrap();
    let phase2_results = vec![
        result(&d3, &manifest_json(), "application/octet-stream"),
        result(&d4, &manifest_json(), OCI_IMAGE),
    ];
    let err = process_phase2(&deferred, &phase2_results).unwrap_err();
    assert_eq!(err, ResolveError::UnexpectedMediaType(d3));
    assert!(err.is_protocol());
}
