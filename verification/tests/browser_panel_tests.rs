use sova_desktop::browser_panel::SampleBrowserPanel;
use sova_desktop::sample_scan::{DirEntryInfo, RootListing};
use sova_desktop::sample_tree::{TreeLine, TreeLineKind};

fn file(name: &str) -> DirEntryInfo {
    DirEntryInfo { name: name.to_string(), is_dir: false, is_file: true, contents: None }
}

fn listing(path: &str, entries: Vec<DirEntryInfo>) -> RootListing {
    RootListing { path: path.to_string(), entries: Some(entries) }
}

fn sample(folder: &str, label: &str) -> TreeLine {
    TreeLine {
        depth: 1,
        kind: TreeLineKind::File,
        label: label.to_string(),
        folder: folder.to_string(),
        index: 0,
        is_default: false,
    }
}

#[test]
fn new_panel_is_closed_and_empty() {
    let p = SampleBrowserPanel::new();
    assert!(!p.open);
    assert!(!p.detached);
    assert!(p.state.is_none());
    assert!(p.last_paths.is_empty());
    assert!(p.preview_key.is_none());
    assert!(p.pending_key.is_none());
}

#[test]
fn paths_changed_detects_folders_and_default() {
    let mut p = SampleBrowserPanel::new();
    assert!(!p.paths_changed(&None, &vec![]));
    assert!(p.paths_changed(&None, &vec!["/a".to_string()]));
    assert!(p.paths_changed(&Some("/d".to_string()), &vec![]));
    p.reset_library(
        Some("/d".to_string()),
        vec!["/a".to_string()],
        Some(listing("d", vec![file("x.wav")])),
        vec![listing("a", vec![file("y.wav")])],
    );
    assert!(!p.paths_changed(&Some("/d".to_string()), &vec!["/a".to_string()]));
    assert!(p.paths_changed(&None, &vec!["/a".to_string()]));
    assert!(p.paths_changed(&Some("/d".to_string()), &vec!["/b".to_string()]));
    assert!(p.paths_changed(&Some("/d".to_string()), &vec!["/a".to_string(), "/b".to_string()]));
}

#[test]
fn reset_library_without_folders_has_no_browser() {
    let mut p = SampleBrowserPanel::new();
    p.preview_ready("a:kick.wav".to_string());
    p.reset_library(None, vec![], None, vec![]);
    assert!(p.state.is_none());
    assert!(p.preview_key.is_none());
}

#[test]
fn reset_library_builds_browser_and_drops_preview() {
    let mut p = SampleBrowserPanel::new();
    p.open = true;
    p.preview_ready("a:kick.wav".to_string());
    p.reset_library(
        None,
        vec!["/a".to_string()],
        None,
        vec![listing("a", vec![file("kick.wav")])],
    );
    assert!(p.open);
    assert!(p.preview_key.is_none());
    let state = p.state.as_ref().expect("browser");
    let labels: Vec<String> = state.entries().iter().map(|l| l.label.clone()).collect();
    assert_eq!(labels, vec!["kick.wav".to_string()]);
    assert_eq!(p.last_paths, vec!["/a".to_string()]);
}

#[test]
fn preview_key_joins_folder_and_name() {
    let key = SampleBrowserPanel::preview_key_of(&sample("drums", "hat.ogg"));
    assert_eq!(key, "drums:hat.ogg");
}

#[test]
fn preview_is_not_decoded_twice() {
    let mut p = SampleBrowserPanel::new();
    let key = "drums:hat.ogg".to_string();
    assert!(p.needs_preview(&key));
    p.mark_pending(key.clone());
    assert!(!p.needs_preview(&key));
    assert!(p.needs_preview(&"drums:kick.wav".to_string()));
    p.preview_ready(key.clone());
    assert!(p.pending_key.is_none());
    assert_eq!(p.preview_key.as_deref(), Some("drums:hat.ogg"));
    assert!(!p.needs_preview(&key));
}

#[test]
fn folders_are_compared_as_paths() {
    let mut p = SampleBrowserPanel::new();
    p.reset_library(
        Some("/d/".to_string()),
        vec!["a/".to_string(), "x//y".to_string()],
        Some(listing("/d/", vec![file("x.wav")])),
        vec![listing("a/", vec![file("y.wav")]), listing("x//y", vec![])],
    );
    assert!(!p.paths_changed(&Some("/d".to_string()), &vec!["a".to_string(), "x/y".to_string()]));
    assert!(p.paths_changed(&Some("/d".to_string()), &vec!["x/y".to_string(), "a".to_string()]));
    assert!(p.paths_changed(&Some("/e".to_string()), &vec!["a".to_string(), "x/y".to_string()]));
}
