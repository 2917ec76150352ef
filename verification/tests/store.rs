use refline::cache::PixelBuffer;
use refline::reference::{
    filter_image_paths, is_image_path, PersistedFolder, RefStore, Reference, SourceFolder,
};

fn refs(paths: &[&str]) -> Vec<Reference> {
    paths.iter().map(|p| Reference::new(String::from(*p))).collect()
}

fn sample_store() -> RefStore {
    // A: safe-for-work with 2 references, B: not safe with 3, C: safe with 1.
    let mut store = RefStore::new();
    store.push_folder(String::from("/a"), true, refs(&["/a/1.jpg", "/a/2.jpg"]));
    store.push_folder(
        String::from("/b"),
        false,
        refs(&["/b/1.png", "/b/2.png", "/b/3.png"]),
    );
    store.push_folder(String::from("/c"), true, refs(&["/c/1.webp"]));
    store
}

#[test]
fn count_is_sum_over_passing_folders() {
    let store = sample_store();
    assert_eq!(store.reference_count(false), 6);
    assert_eq!(store.reference_count(true), 3);
}

#[test]
fn count_of_empty_store_is_zero() {
    let store = RefStore::new();
    assert_eq!(store.reference_count(false), 0);
    assert_eq!(store.reference_count(true), 0);
}

#[test]
fn flattened_indexing_reproduces_children_in_order() {
    let store = sample_store();
    let all: Vec<&str> = (0..store.reference_count(false))
        .map(|i| store.get_reference(i, false).unwrap().path.as_str())
        .collect();
    assert_eq!(
        all,
        ["/a/1.jpg", "/a/2.jpg", "/b/1.png", "/b/2.png", "/b/3.png", "/c/1.webp"]
    );
    let sfw: Vec<&str> = (0..store.reference_count(true))
        .map(|i| store.get_reference(i, true).unwrap().path.as_str())
        .collect();
    assert_eq!(sfw, ["/a/1.jpg", "/a/2.jpg", "/c/1.webp"]);
}

#[test]
fn out_of_range_index_gives_none() {
    let store = sample_store();
    assert!(store.get_reference(6, false).is_none());
    assert!(store.get_reference(3, true).is_none());
    assert!(RefStore::new().get_reference(0, false).is_none());
}

#[test]
fn add_folder_is_idempotent_by_path() {
    let mut store = RefStore::new();
    store.push_folder(String::from("/a"), true, refs(&["/a/1.jpg"]));
    assert_eq!(store.source_folders.len(), 1);
    store.push_folder(String::from("/a"), false, refs(&["/a/other.png"]));
    assert_eq!(store.source_folders.len(), 1);
    // The first registration is the one that stays.
    assert!(store.source_folders[0].is_sfw);
    assert_eq!(store.source_folders[0].children.len(), 1);
}

#[test]
fn push_folders_deduplicates_within_batch() {
    let mut store = RefStore::new();
    store.push_folders(
        vec![
            (String::from("/x"), refs(&["/x/1.jpg"])),
            (String::from("/y"), refs(&["/y/1.jpg", "/y/2.jpg"])),
            (String::from("/x"), refs(&["/x/ignored.jpg"])),
        ],
        true,
    );
    assert_eq!(store.source_folders.len(), 2);
    assert_eq!(store.reference_count(false), 3);
}

#[test]
fn remove_folder_removes_first_match_and_ignores_absent() {
    let mut store = sample_store();
    store.remove_folder(&String::from("/b"));
    assert_eq!(store.source_folders.len(), 2);
    assert_eq!(store.source_folders[0].path, "/a");
    assert_eq!(store.source_folders[1].path, "/c");
    store.remove_folder(&String::from("/missing"));
    assert_eq!(store.source_folders.len(), 2);
}

#[test]
fn set_sfw_source_reclassifies_only_the_named_folder() {
    let mut store = sample_store();
    store.set_sfw_source(&String::from("/b"), true);
    assert!(store.source_folders[1].is_sfw);
    assert_eq!(store.reference_count(true), 6);
    store.set_sfw_source(&String::from("/a"), false);
    assert_eq!(store.reference_count(true), 4);
    // An absent path changes nothing.
    store.set_sfw_source(&String::from("/missing"), false);
    assert_eq!(store.reference_count(true), 4);
}

#[test]
fn sync_replaces_children_in_registration_order() {
    let mut store = sample_store();
    store.sync_with_source_folders(vec![
        refs(&["/a/new.jpg"]),
        refs(&[]),
        refs(&["/c/1.webp", "/c/2.webp"]),
    ]);
    assert_eq!(store.source_folders.len(), 3);
    assert_eq!(store.source_folders[0].children.len(), 1);
    assert_eq!(store.source_folders[1].children.len(), 0);
    assert_eq!(store.source_folders[2].children.len(), 2);
    assert_eq!(store.reference_count(false), 3);
    assert_eq!(store.get_reference(0, false).unwrap().path, "/a/new.jpg");
}

#[test]
fn persist_round_trip_keeps_order_and_empties_children() {
    let mut store = RefStore::new();
    store.push_folder(String::from("/a"), true, refs(&["/a/1.jpg"]));
    store.push_folder(String::from("/b"), false, refs(&["/b/1.png"]));
    let persisted = store.to_persisted();
    assert_eq!(persisted.len(), 2);
    let loaded = RefStore::from_persisted(&persisted);
    assert_eq!(loaded.source_folders.len(), 2);
    assert_eq!(loaded.source_folders[0].path, "/a");
    assert!(loaded.source_folders[0].is_sfw);
    assert_eq!(loaded.source_folders[1].path, "/b");
    assert!(!loaded.source_folders[1].is_sfw);
    // Children stay empty until a resync re-derives them.
    assert_eq!(loaded.source_folders[0].children.len(), 0);
    assert_eq!(loaded.source_folders[1].children.len(), 0);
    let mut resynced = loaded;
    resynced.sync_with_source_folders(vec![refs(&["/a/1.jpg"]), refs(&["/b/1.png"])]);
    assert_eq!(resynced.reference_count(false), 2);
}

#[test]
fn from_persisted_keeps_first_of_duplicated_paths() {
    let list = vec![
        PersistedFolder { path: String::from("/a"), is_sfw: true },
        PersistedFolder { path: String::from("/a"), is_sfw: false },
        PersistedFolder { path: String::from("/b"), is_sfw: false },
    ];
    let loaded = RefStore::from_persisted(&list);
    assert_eq!(loaded.source_folders.len(), 2);
    assert_eq!(loaded.source_folders[0].path, "/a");
    assert!(loaded.source_folders[0].is_sfw);
    assert_eq!(loaded.source_folders[1].path, "/b");
}

#[test]
fn image_extensions_match_case_insensitively() {
    assert!(is_image_path("/refs/a.jpg"));
    assert!(is_image_path("/refs/a.JPG"));
    assert!(is_image_path("/refs/b.PnG"));
    assert!(is_image_path("/refs/c.webp"));
    assert!(is_image_path("/refs/c.WEBP"));
    assert!(is_image_path("plain.jpg"));
}

#[test]
fn non_image_paths_are_rejected() {
    assert!(!is_image_path("/refs/a.gif"));
    assert!(!is_image_path("/refs/a.jpeg"));
    assert!(!is_image_path("/refs/noext"));
    assert!(!is_image_path("/refs/.jpg"));
    assert!(!is_image_path("a.jpg/c"));
    assert!(!is_image_path("/refs/trailing."));
    assert!(!is_image_path("/refs/a.tar.gz"));
    assert!(!is_image_path(""));
    assert!(!is_image_path("/refs/"));
}

#[test]
fn filter_keeps_images_in_listing_order() {
    let listing = vec![
        String::from("/r/1.jpg"),
        String::from("/r/readme.txt"),
        String::from("/r/2.PNG"),
        String::from("/r/sub/3.webp"),
        String::from("/r/.hidden"),
    ];
    let kept = filter_image_paths(&listing);
    let paths: Vec<&str> = kept.iter().map(|r| r.path.as_str()).collect();
    assert_eq!(paths, ["/r/1.jpg", "/r/2.PNG", "/r/sub/3.webp"]);
}

#[test]
fn references_and_folders_compare_by_path_alone() {
    let a = Reference::new(String::from("/p/1.jpg"));
    let b = Reference::new(String::from("/p/1.jpg"));
    let c = Reference::new(String::from("/p/2.jpg"));
    assert!(a == b);
    assert!(a != c);
    let f = SourceFolder { path: String::from("/p"), is_sfw: true, children: vec![a] };
    let g = SourceFolder { path: String::from("/p"), is_sfw: false, children: vec![] };
    let h = SourceFolder { path: String::from("/q"), is_sfw: true, children: vec![] };
    // Classification and contents do not enter a folder's identity.
    assert!(f == g);
    assert!(f != h);
}

#[test]
fn cache_misses_then_hits_and_overwrites() {
    let mut store = RefStore::new();
    let path = String::from("/a/1.jpg");
    assert!(store.ref_data.get(&path).is_none());
    store.insert_loaded(path.clone(), PixelBuffer { width: 2, height: 1, data: vec![0; 8] });
    let hit = store.ref_data.get(&path).unwrap();
    assert_eq!(hit.width, 2);
    assert_eq!(hit.height, 1);
    assert_eq!(hit.data.len(), 8);
    // The insert is idempotent and the last writer wins.
    store.insert_loaded(path.clone(), PixelBuffer { width: 1, height: 1, data: vec![7; 4] });
    let hit = store.ref_data.get(&path).unwrap();
    assert_eq!(hit.width, 1);
    assert_eq!(hit.data, vec![7; 4]);
    assert!(store.ref_data.get(&String::from("/other")).is_none());
}
