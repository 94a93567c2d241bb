use restic_interfacer::pattern::MyGlob;
use restic_interfacer::selection::{FileSelection, WalkStep};
use restic_interfacer::target::{BackupFileSelectionType, BackupTarget, TargetError};
use serde_json::Value;

fn some(paths: &[&str]) -> Vec<Option<String>> {
    paths.iter().map(|p| Some(p.to_string())).collect()
}

fn strings(v: &[&str]) -> Vec<String> {
    v.iter().map(|s| s.to_string()).collect()
}

fn data_target(exclusion: &str) -> BackupTarget {
    BackupTarget::new_from_string(some(&["/data"]), strings(&[exclusion]), vec![]).unwrap()
}

fn classify(t: &BackupTarget, path: &str) -> BackupFileSelectionType {
    t.check_path_is_in_backup(Some(path.to_string()), &some(&["/data"])).unwrap()
}

fn walk(sel: &mut FileSelection, entries: &[(&str, bool)]) -> Vec<WalkStep> {
    entries.iter().map(|(p, d)| sel.visit(p, *d)).collect()
}

fn data_tree() -> Vec<(&'static str, bool)> {
    vec![
        ("/data", true),
        ("/data/a.txt", false),
        ("/data/cache", true),
        ("/data/sub", true),
        ("/data/sub/cache", true),
    ]
}

fn to_json(t: &BackupTarget) -> String {
    let list = |v: Vec<String>| Value::Array(v.into_iter().map(Value::String).collect());
    let mut m = serde_json::Map::new();
    m.insert("folders".to_string(), list(t.folders.clone()));
    m.insert("exclusions".to_string(), list(t.exclusions.iter().map(|e| e.serialize()).collect()));
    m.insert("tags".to_string(), list(t.tags.clone()));
    serde_json::to_string(&Value::Object(m)).unwrap()
}

fn from_json(text: &str) -> BackupTarget {
    let v: Value = serde_json::from_str(text).unwrap();
    let list = |k: &str| -> Vec<String> {
        v[k].as_array().unwrap().iter().map(|s| s.as_str().unwrap().to_string()).collect()
    };
    let folders = list("folders").into_iter().map(Some).collect();
    BackupTarget::new_from_string(folders, list("exclusions"), list("tags")).unwrap()
}

#[test]
fn check_serialize_deserialize() {
    let backup_tar = BackupTarget::new_from_string(
        some(&["/mnt/d/", "/mnt/c/Windows/"]),
        vec!["system32".to_owned()],
        vec!["abc".to_owned()],
    )
    .unwrap();
    let out_tar = from_json(&to_json(&backup_tar));
    assert_eq!(backup_tar, out_tar);
}

#[test]
fn relative_pattern_matches_at_any_depth() {
    let p = MyGlob::parse("cache/").unwrap();
    assert_eq!(p.glob(), "**/cache");
    assert_eq!(p.serialize(), "cache");
}

#[test]
fn absolute_pattern_stays_rooted() {
    let p = MyGlob::parse("/data/cache//").unwrap();
    assert_eq!(p.glob(), "/data/cache");
    assert_eq!(p.serialize(), "/data/cache");
}

#[test]
fn pattern_round_trip() {
    for raw in ["cache", "/data/cache", "*.tmp/", "a/**/b", "", "/", "///"] {
        let p = MyGlob::parse(raw).unwrap();
        let q = MyGlob::parse(&p.serialize()).unwrap();
        assert_eq!(p.glob(), q.glob());
    }
}

#[test]
fn malformed_pattern_is_refused() {
    assert!(MyGlob::parse("[abc").is_err());
    let r = BackupTarget::new_from_string(some(&["/data"]), strings(&["ok", "{a,b"]), vec![]);
    assert_eq!(r.err(), Some(TargetError::PatternSyntaxError));
}

#[test]
fn unresolved_folder_fails() {
    let r = BackupTarget::new(vec![None], vec![], vec![]);
    assert_eq!(r.err(), Some(TargetError::PathResolutionError));
}

#[test]
fn nonexistent_folder_fails() {
    let resolved = std::path::Path::new("/nonexistent")
        .canonicalize()
        .ok()
        .map(|p| p.to_string_lossy().into_owned());
    let r = BackupTarget::new(vec![resolved], vec![], vec![]);
    assert_eq!(r.err(), Some(TargetError::PathResolutionError));
}

#[test]
fn folder_error_comes_before_pattern_error() {
    let r = BackupTarget::new_from_string(vec![Some("/a".to_string()), None], strings(&["[x"]), vec![]);
    assert_eq!(r.err(), Some(TargetError::PathResolutionError));
}

#[test]
fn add_folder_appends_and_tolerates_overlap() {
    let mut t = data_target("cache");
    assert!(t.add_folder(Some("/data/sub".to_string())).is_ok());
    assert!(t.add_folder(Some("/data".to_string())).is_ok());
    assert_eq!(t.folders, strings(&["/data", "/data/sub", "/data"]));
    assert_eq!(t.add_folder(None), Err(TargetError::PathResolutionError));
    assert_eq!(t.folders.len(), 3);
}

#[test]
fn classify_scenario() {
    let t = data_target("cache");
    assert_eq!(classify(&t, "/data/cache/x.bin"), BackupFileSelectionType::Excluded);
    assert_eq!(classify(&t, "/data/sub/cache/y.bin"), BackupFileSelectionType::Excluded);
    assert_eq!(classify(&t, "/data/a.txt"), BackupFileSelectionType::Included);
    assert_eq!(classify(&t, "/data"), BackupFileSelectionType::Included);
    assert_eq!(classify(&t, "/"), BackupFileSelectionType::Contains);
    assert_eq!(classify(&t, "/other"), BackupFileSelectionType::Irrelevant);
}

#[test]
fn no_exclusions_includes_everything_inside() {
    let t = BackupTarget::new(some(&["/data"]), vec![], vec![]).unwrap();
    assert_eq!(classify(&t, "/data/cache/x.bin"), BackupFileSelectionType::Included);
    assert_eq!(classify(&t, "/data/a/b/c"), BackupFileSelectionType::Included);
}

#[test]
fn sibling_with_common_prefix_is_irrelevant() {
    let t = data_target("cache");
    assert_eq!(classify(&t, "/database"), BackupFileSelectionType::Irrelevant);
}

#[test]
fn deleted_folder_does_not_contain() {
    let t = data_target("cache");
    let r = t.check_path_is_in_backup(Some("/".to_string()), &vec![None]).unwrap();
    assert_eq!(r, BackupFileSelectionType::Irrelevant);
}

#[test]
fn unresolved_query_fails() {
    let t = data_target("cache");
    let r = t.check_path_is_in_backup(None, &some(&["/data"]));
    assert_eq!(r.err(), Some(TargetError::PathResolutionError));
}

#[test]
fn rooted_pattern_excludes_only_its_place() {
    let t = data_target("/data/cache");
    assert_eq!(classify(&t, "/data/cache"), BackupFileSelectionType::Excluded);
    assert_eq!(classify(&t, "/data/cache/x.bin"), BackupFileSelectionType::Excluded);
    assert_eq!(classify(&t, "/data/sub/cache"), BackupFileSelectionType::Included);
    let mut sel = t.start_selection().unwrap();
    let steps = walk(&mut sel, &data_tree());
    assert_eq!(steps[2], WalkStep::Prune);
    assert_eq!(steps[4], WalkStep::Keep);
    assert!(sel.contains("/data/sub/cache"));
}

#[test]
fn selection_scenario() {
    let t = data_target("cache");
    let mut sel = t.start_selection().unwrap();
    let steps = walk(&mut sel, &data_tree());
    assert_eq!(
        steps,
        vec![WalkStep::Keep, WalkStep::Keep, WalkStep::Prune, WalkStep::Keep, WalkStep::Prune]
    );
    assert_eq!(sel.count(), 3);
    for p in ["/data", "/data/a.txt", "/data/sub"] {
        assert!(sel.contains(p));
    }
    assert!(!sel.contains("/data/cache"));
    assert!(!sel.contains("/data/sub/cache"));
}

#[test]
fn selection_is_the_same_when_walked_again() {
    let t = data_target("cache");
    let mut sel = t.start_selection().unwrap();
    walk(&mut sel, &data_tree());
    walk(&mut sel, &data_tree());
    assert_eq!(sel.count(), 3);
    let mut other = t.start_selection().unwrap();
    walk(&mut other, &data_tree());
    assert_eq!(other.count(), sel.count());
}

#[test]
fn nothing_beneath_a_pruned_directory() {
    let t = data_target("cache");
    let mut sel = t.start_selection().unwrap();
    let steps = walk(
        &mut sel,
        &[("/data", true), ("/data/cache", true), ("/data/cache/keep.txt", false), ("/data/cache/d", true)],
    );
    assert_eq!(steps, vec![WalkStep::Keep, WalkStep::Prune, WalkStep::Skip, WalkStep::Prune]);
    assert!(!sel.contains("/data/cache/keep.txt"));
    assert_eq!(sel.count(), 1);
}

#[test]
fn matching_file_is_skipped() {
    let t = data_target("*.tmp");
    let mut sel = t.start_selection().unwrap();
    let steps = walk(&mut sel, &[("/data", true), ("/data/x.tmp", false), ("/data/y.txt", false)]);
    assert_eq!(steps, vec![WalkStep::Keep, WalkStep::Skip, WalkStep::Keep]);
    assert_eq!(sel.count(), 2);
}

#[test]
fn globset_holds_every_exclusion() {
    let t = BackupTarget::new_from_string(some(&["/data"]), strings(&["a", "/b"]), vec![]).unwrap();
    let set = t.get_exclusions_as_globset().unwrap();
    assert_eq!(set.len(), 2);
    assert!(set.is_match("/x/a"));
    assert!(set.is_match("/b"));
    assert!(!set.is_match("/x/b"));
}

#[test]
fn patterns_compare_by_stored_form() {
    let written = MyGlob::parse("cache//").unwrap().serialize();
    assert!(MyGlob::parse("cache").unwrap() == MyGlob::parse(&written).unwrap());
    assert!(MyGlob::parse("cache").unwrap() != MyGlob::parse("/cache").unwrap());
}

#[test]
fn default_target_is_empty() {
    let t = BackupTarget::default();
    assert!(t.folders.is_empty() && t.exclusions.is_empty() && t.tags.is_empty());
}

#[test]
fn root_pattern_is_written_as_root() {
    let p = MyGlob::parse("/").unwrap();
    assert_eq!(p.glob(), "");
    assert_eq!(p.serialize(), "/");
    assert!(MyGlob::parse(&p.serialize()).unwrap() == p);
}

#[test]
fn star_stays_within_one_component() {
    let t = data_target("a*b");
    assert_eq!(classify(&t, "/data/x/a/y/b"), BackupFileSelectionType::Included);
    assert_eq!(classify(&t, "/data/x/aZb"), BackupFileSelectionType::Excluded);
    let set = t.get_exclusions_as_globset().unwrap();
    assert!(!set.is_match("/x/a/y/b"));
    assert!(set.is_match("/x/a_b"));
}

#[test]
fn empty_exclusions_build() {
    let t = BackupTarget::new(some(&["/data"]), vec![], vec![]).unwrap();
    assert_eq!(t.get_exclusions_as_globset().unwrap().len(), 0);
    assert!(t.start_selection().is_ok());
}

#[test]
fn selection_lists_its_paths() {
    let t = data_target("cache");
    let mut sel = t.start_selection().unwrap();
    walk(&mut sel, &data_tree());
    walk(&mut sel, &data_tree());
    assert_eq!(sel.paths(), &strings(&["/data", "/data/a.txt", "/data/sub"]));
}

#[test]
fn targets_compare_by_contents() {
    let a = data_target("cache");
    let b = data_target("cache/");
    let c = data_target("/cache");
    assert!(a == b);
    assert!(a != c);
    let mut d = data_target("cache");
    d.add_folder(Some("/more".to_string())).unwrap();
    assert!(a != d);
}
