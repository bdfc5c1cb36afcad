use wrangler::content_key::{components, remove_hash_from_path, starts_with_subset};
use wrangler::key_set::{subset_keys, KeySet};
use wrangler::manifest::{patch_manifest, AssetManifest};
use wrangler::reconcile::{filter_files, keys_to_delete, local_keys, reconcile, KeyValuePair};
use wrangler::sync::sync;

fn pair(key: &str, value: &str) -> KeyValuePair {
    KeyValuePair {
        key: key.to_string(),
        value: value.to_string(),
        expiration_ttl: None,
        expiration: None,
        base64: None,
    }
}

fn key_set(keys: &[&str]) -> KeySet {
    let mut set = KeySet::new();
    for k in keys {
        set.insert(k.to_string());
    }
    set
}

fn sorted(mut v: Vec<String>) -> Vec<String> {
    v.sort();
    v
}

fn check_kv_pairs_equality(expected: Vec<KeyValuePair>, actual: Vec<KeyValuePair>) {
    assert_eq!(expected.len(), actual.len());
    for (idx, pair) in expected.into_iter().enumerate() {
        assert_eq!(pair.key, actual[idx].key);
        assert_eq!(pair.value, actual[idx].value);
    }
}

// Keys of "/a" and "/b" under "/", hashed from the values "old" and "new".
const KEY_A_OLD: &str = "a.cba06b5736";
const KEY_B_OLD: &str = "b.cba06b5736";
const KEY_B_NEW: &str = "b.11507a0e2f";

#[test]
fn it_can_filter_preexisting_files() {
    // Old values found on remote
    let exclude_keys = key_set(&[KEY_A_OLD, KEY_B_OLD]);

    // local files (with b updated) to upload
    let pairs_to_upload = vec![
        KeyValuePair {
            key: KEY_A_OLD.to_string(),
            value: "old".to_string(),
            expiration_ttl: None,
            expiration: None,
            base64: None,
        },
        KeyValuePair {
            key: KEY_B_NEW.to_string(),
            value: "new".to_string(),
            expiration_ttl: None,
            expiration: None,
            base64: None,
        },
    ];

    let expected = vec![KeyValuePair {
        key: KEY_B_NEW.to_string(),
        value: "new".to_string(),
        expiration_ttl: None,
        expiration: None,
        base64: None,
    }];
    let actual = filter_files(pairs_to_upload, &exclude_keys, "");
    check_kv_pairs_equality(expected, actual);
}

#[test]
fn changed_file_is_uploaded_and_its_old_key_deleted() {
    let remote = key_set(&[KEY_A_OLD, KEY_B_OLD]);
    let pairs = vec![pair(KEY_A_OLD, "old"), pair(KEY_B_NEW, "new")];
    let (to_upload, to_delete, manifest) = sync(pairs, &remote, AssetManifest::new(), None);
    check_kv_pairs_equality(vec![pair(KEY_B_NEW, "new")], to_upload);
    assert_eq!(to_delete, vec![KEY_B_OLD.to_string()]);
    assert_eq!(manifest.len(), 0);
}

#[test]
fn subset_sync_leaves_other_paths_alone() {
    let remote = key_set(&["css/site.aaa.css", "js/app.bbb.js", "css/old.ccc.css"]);
    let pairs = vec![
        pair("css/site.ddd.css", "new css"),
        pair("js/app.eee.js", "new js"),
        pair("css/keep.fff.css", "kept"),
    ];
    let (to_upload, to_delete, _) =
        sync(pairs, &remote, AssetManifest::new(), Some("css/".to_string()));
    check_kv_pairs_equality(
        vec![pair("css/site.ddd.css", "new css"), pair("css/keep.fff.css", "kept")],
        to_upload,
    );
    assert_eq!(
        sorted(to_delete),
        vec!["css/old.ccc.css".to_string(), "css/site.aaa.css".to_string()]
    );
}

#[test]
fn update_inside_subset_is_add_and_remove() {
    let remote = key_set(&["img/logo.111.png", "index.222.html"]);
    let remote_subset = subset_keys(&remote, "img");
    let pairs = vec![pair("img/logo.333.png", "new logo"), pair("index.222.html", "page")];
    let (to_upload, to_delete) = reconcile(pairs, &remote_subset, "img");
    check_kv_pairs_equality(vec![pair("img/logo.333.png", "new logo")], to_upload);
    assert_eq!(to_delete, vec!["img/logo.111.png".to_string()]);
}

#[test]
fn known_key_is_skipped_whatever_its_value() {
    let remote = key_set(&[KEY_A_OLD]);
    let pairs = vec![pair(KEY_A_OLD, "a different value")];
    let actual = filter_files(pairs, &remote, "");
    assert!(actual.is_empty());
}

#[test]
fn empty_subset_keeps_every_key() {
    let keys = key_set(&["a", "b/c", ""]);
    let all = subset_keys(&keys, "");
    assert_eq!(all.to_vec(), keys.to_vec());
    let some = subset_keys(&keys, "b");
    assert_eq!(some.to_vec(), vec!["b/c".to_string()]);
}

#[test]
fn reconcile_twice_gives_the_same_plan() {
    let remote = key_set(&["x.1.txt", "y.2.txt", "z.3.txt"]);
    let pairs = vec![pair("x.1.txt", "x"), pair("y.9.txt", "y"), pair("w.4.txt", "w")];
    let (up1, del1) = reconcile(pairs.clone(), &remote, "");
    let (up2, del2) = reconcile(pairs, &remote, "");
    check_kv_pairs_equality(up1.clone(), up2);
    assert_eq!(del1, del2);
    assert_eq!(up1.len(), 2);
    assert_eq!(del1, vec!["y.2.txt".to_string(), "z.3.txt".to_string()]);
}

#[test]
fn nothing_to_do_when_everything_is_known() {
    let remote = key_set(&[KEY_A_OLD]);
    let local = vec![pair(KEY_A_OLD, "old")];
    let (up, del) = reconcile(local, &remote, "");
    assert!(up.is_empty());
    assert!(del.is_empty());
    let (up, del) = reconcile(Vec::new(), &KeySet::new(), "");
    assert!(up.is_empty());
    assert!(del.is_empty());
}

#[test]
fn delete_set_is_remote_minus_local() {
    let remote = key_set(&["p.1", "q.2", "r.3"]);
    let local = local_keys(&vec![pair("q.2", "q"), pair("s.4", "s"), pair("q.2", "q")]);
    assert_eq!(local.len(), 2);
    assert_eq!(keys_to_delete(&remote, &local), vec!["p.1".to_string(), "r.3".to_string()]);
}

#[test]
fn manifest_outside_subset_takes_remote_key() {
    let mut manifest = AssetManifest::new();
    manifest.insert("js/app.js".to_string(), "js/app.stale.js".to_string());
    manifest.insert("css/site.css".to_string(), "css/site.old.css".to_string());
    manifest.insert("img/none.png".to_string(), "img/none.zzz.png".to_string());
    let remote = key_set(&["css/site.new.css", "js/app.live.js", "js/app.other.js"]);
    patch_manifest(&mut manifest, &remote, "css");
    assert_eq!(manifest.get(&"js/app.js".to_string()), Some("js/app.live.js".to_string()));
    assert_eq!(manifest.get(&"css/site.css".to_string()), Some("css/site.old.css".to_string()));
    assert_eq!(manifest.get(&"img/none.png".to_string()), Some("img/none.zzz.png".to_string()));
    assert_eq!(manifest.len(), 3);
}

#[test]
fn manifest_is_untouched_by_a_full_sync() {
    let mut manifest = AssetManifest::new();
    manifest.insert("app.js".to_string(), "app.old.js".to_string());
    let remote = key_set(&["app.new.js"]);
    let (_, _, manifest) = sync(Vec::new(), &remote, manifest, None);
    assert_eq!(manifest.get(&"app.js".to_string()), Some("app.old.js".to_string()));
}

#[test]
fn manifest_insert_replaces_a_path() {
    let mut manifest = AssetManifest::new();
    manifest.insert("a".to_string(), "a.1".to_string());
    manifest.insert("a".to_string(), "a.2".to_string());
    assert_eq!(manifest.len(), 1);
    assert_eq!(manifest.get(&"a".to_string()), Some("a.2".to_string()));
    assert_eq!(manifest.get(&"b".to_string()), None);
    assert_eq!(manifest.to_vec(), vec![("a".to_string(), "a.2".to_string())]);
}

#[test]
fn key_set_holds_each_key_once() {
    let mut set = KeySet::new();
    set.insert("k".to_string());
    set.insert("k".to_string());
    set.insert("j".to_string());
    assert_eq!(set.len(), 2);
    assert!(set.contains(&"k".to_string()));
    assert!(!set.contains(&"x".to_string()));
}

#[test]
fn hash_is_removed_from_keys() {
    assert_eq!(remove_hash_from_path("dir/name.abc123.css"), Some("dir/name.css".to_string()));
    assert_eq!(remove_hash_from_path("dir/name.abc123"), Some("dir/name".to_string()));
    assert_eq!(remove_hash_from_path("a.b.c.d"), Some("a.b.d".to_string()));
    assert_eq!(remove_hash_from_path("dir.x/name"), None);
    assert_eq!(remove_hash_from_path("name"), None);
    assert_eq!(remove_hash_from_path(KEY_B_NEW), Some("b".to_string()));
}

#[test]
fn subset_is_a_prefix_test() {
    assert!(starts_with_subset("css/site.css", "css"));
    assert!(starts_with_subset("css/site.css", ""));
    assert!(starts_with_subset("css", "css"));
    assert!(!starts_with_subset("cs", "css"));
    assert!(!starts_with_subset("js/app.js", "css"));
}

#[test]
fn subset_matches_whole_path_components() {
    assert!(!starts_with_subset("publicity/b.h2", "public"));
    assert!(starts_with_subset("public/a.h1", "public"));
    assert!(starts_with_subset("a//b/x.1.js", "a/b"));
    assert!(starts_with_subset("css", "css/"));
    assert!(starts_with_subset("a/./b/c", "a/b"));
    assert!(!starts_with_subset("./a", "a"));
    assert!(!starts_with_subset("/a", "a"));
    assert!(starts_with_subset("/a/b", "/a"));
}

#[test]
fn path_components_drop_empty_and_dot_pieces() {
    assert_eq!(components("a//b/./c/"), vec!["a".to_string(), "b".to_string(), "c".to_string()]);
    assert_eq!(components("./a"), vec![".".to_string(), "a".to_string()]);
    assert_eq!(components("/a"), vec!["/".to_string(), "a".to_string()]);
    assert!(components("").is_empty());
}

#[test]
fn subset_keys_keeps_only_keys_under_the_subset_path() {
    let keys = key_set(&["public/a.h1", "publicity/b.h2", "other/c.h3"]);
    assert_eq!(subset_keys(&keys, "public").to_vec(), vec!["public/a.h1".to_string()]);
}

#[test]
fn sibling_directory_is_outside_the_subset() {
    let remote = key_set(&["publicity/old.h0"]);
    let pairs = vec![pair("publicity/b.h2", "b"), pair("public/a.h1", "a")];
    let (to_upload, to_delete, _) =
        sync(pairs, &remote, AssetManifest::new(), Some("public".to_string()));
    check_kv_pairs_equality(vec![pair("public/a.h1", "a")], to_upload);
    assert!(to_delete.is_empty());
}

#[test]
fn manifest_scope_follows_path_components() {
    let mut manifest = AssetManifest::new();
    manifest.insert("css".to_string(), "css.0".to_string());
    manifest.insert("publicity/a.js".to_string(), "publicity/a.0.js".to_string());
    let remote = key_set(&["css.1", "publicity/a.1.js"]);
    patch_manifest(&mut manifest, &remote, "css/");
    assert_eq!(manifest.get(&"css".to_string()), Some("css.0".to_string()));
    patch_manifest(&mut manifest, &remote, "public");
    assert_eq!(manifest.get(&"publicity/a.js".to_string()), Some("publicity/a.1.js".to_string()));
}
