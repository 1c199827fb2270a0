use sova_desktop::sample_scan::{
    is_audio_file, root_label, resolve_sample_path, DirEntryInfo, ProbeEntry, RootListing, RootProbe,
    SampleLocation,
};
use sova_desktop::sample_tree::{
    BrowserKeys, SampleBrowserState, SampleNode, SampleTree, TreeLine, TreeLineKind,
};

fn file(name: &str) -> DirEntryInfo {
    DirEntryInfo { name: name.to_string(), is_dir: false, is_file: true, contents: None }
}

fn dir(name: &str, contents: Vec<DirEntryInfo>) -> DirEntryInfo {
    DirEntryInfo { name: name.to_string(), is_dir: true, is_file: false, contents: Some(contents) }
}

fn library() -> Vec<DirEntryInfo> {
    vec![
        file("snare.WAV"),
        dir("Kicks", vec![file("k2.wav"), file("notes.txt"), file("K1.flac")]),
        dir("empty", vec![file("readme.md")]),
        file("b.mp3"),
        file("cover.png"),
        dir("drums", vec![file("hat.ogg")]),
    ]
}

fn labels(lines: &[TreeLine]) -> Vec<String> {
    lines.iter().map(|l| l.label.clone()).collect()
}

fn no_keys() -> BrowserKeys {
    BrowserKeys {
        escape: false,
        up: false,
        down: false,
        page_up: false,
        page_down: false,
        activate: false,
        left: false,
        slash: false,
        ctrl: false,
    }
}

#[test]
fn audio_names_are_recognised_case_aside() {
    assert!(is_audio_file("kick.WAV"));
    assert!(is_audio_file("pad.aiff"));
    assert!(is_audio_file("x.aif"));
    assert!(!is_audio_file("notes.txt"));
    // the extension is matched as a suffix, without its dot
    assert!(is_audio_file("wav"));
    assert!(is_audio_file("slowav"));
}

#[test]
fn a_single_user_folder_lists_its_contents_as_roots() {
    let user = vec![RootListing { path: "mine".to_string(), entries: Some(library()) }];
    let tree = SampleTree::from_paths_with_default(None, user);
    let lines = tree.visible_entries();
    // folders holding samples first (sorted case aside), then the samples
    assert_eq!(labels(&lines), vec!["drums", "Kicks", "b.mp3", "snare.WAV"]);
    assert!(matches!(lines[0].kind, TreeLineKind::Folder { expanded: false }));
    assert!(matches!(lines[2].kind, TreeLineKind::File));
}

#[test]
fn with_a_default_folder_each_user_folder_is_a_root() {
    let default = RootListing { path: "default".to_string(), entries: Some(vec![file("a.wav")]) };
    let user = vec![
        RootListing { path: "mine".to_string(), entries: Some(library()) },
        RootListing { path: "gone".to_string(), entries: None },
    ];
    let tree = SampleTree::from_paths_with_default(Some(default), user);
    let lines = tree.visible_entries();
    assert_eq!(labels(&lines), vec!["default", "mine"]);
    assert!(lines[0].is_default);
    assert!(!lines[1].is_default);
    assert!(matches!(lines[1].kind, TreeLineKind::Root { expanded: false }));
}

#[test]
fn expanding_a_folder_shows_its_sorted_samples_and_collapsing_hides_them() {
    let user = vec![RootListing { path: "mine".to_string(), entries: Some(library()) }];
    let mut state = SampleBrowserState::new(None, user);
    state.move_down(1, 30);
    assert_eq!(state.cursor, 1);
    state.toggle_expand();
    assert_eq!(labels(state.entries()), vec!["drums", "Kicks", "K1.flac", "k2.wav", "b.mp3", "snare.WAV"]);
    let line = &state.entries()[3];
    assert_eq!(line.folder, "Kicks");
    assert_eq!(line.index, 1);
    assert_eq!(line.depth, 1);
    state.move_down(2, 30);
    assert_eq!(state.current_entry().unwrap().label, "k2.wav");
    // collapsing on a sample goes to its folder and closes it
    state.collapse_at_cursor();
    assert_eq!(state.cursor, 1);
    assert_eq!(labels(state.entries()), vec!["drums", "Kicks", "b.mp3", "snare.WAV"]);
}

#[test]
fn toggling_twice_restores_the_lines() {
    let user = vec![RootListing { path: "mine".to_string(), entries: Some(library()) }];
    let mut state = SampleBrowserState::new(None, user);
    let before = labels(state.entries());
    state.toggle_expand();
    assert_ne!(labels(state.entries()), before);
    state.toggle_expand();
    assert_eq!(labels(state.entries()), before);
}

#[test]
fn moving_stops_at_the_ends_and_scrolls() {
    let user = vec![RootListing { path: "mine".to_string(), entries: Some(library()) }];
    let mut state = SampleBrowserState::new(None, user);
    state.move_down(10, 2);
    assert_eq!(state.cursor, 3);
    assert_eq!(state.scroll_offset, 2);
    state.move_up(1);
    assert_eq!(state.cursor, 2);
    assert_eq!(state.scroll_offset, 2);
    state.move_up(5);
    assert_eq!(state.cursor, 0);
    assert_eq!(state.scroll_offset, 0);
}

#[test]
fn a_search_shows_the_matching_folders_best_first() {
    let user = vec![RootListing { path: "mine".to_string(), entries: Some(library()) }];
    let mut state = SampleBrowserState::new(None, user);
    assert_eq!(state.search_candidates(), vec!["drums".to_string(), "Kicks".to_string()]);
    state.search_query = "k".to_string();
    state.update_search(&[Some(3), Some(9)]);
    assert_eq!(labels(state.entries()), vec!["Kicks", "drums"]);
    state.clear_search();
    assert!(state.search_query.is_empty());
    assert_eq!(labels(state.entries()), vec!["drums", "Kicks", "b.mp3", "snare.WAV"]);
}

#[test]
fn browser_keys_move_open_and_focus_the_search() {
    let user = vec![RootListing { path: "mine".to_string(), entries: Some(library()) }];
    let mut state = SampleBrowserState::new(None, user);
    let mut k = no_keys();
    k.down = true;
    k.ctrl = true;
    k.activate = true;
    assert_eq!(state.handle_keys(&k, false, true, false), (true, false));
    assert_eq!(state.cursor, 3);
    let mut k = no_keys();
    k.slash = true;
    k.up = true;
    assert_eq!(state.handle_keys(&k, false, true, false), (false, true));
    assert_eq!(state.cursor, 2);
    // another widget has the focus: nothing happens
    let mut k = no_keys();
    k.up = true;
    assert_eq!(state.handle_keys(&k, false, true, true), (false, false));
    assert_eq!(state.cursor, 2);
}

#[test]
fn a_sample_is_found_in_its_folder_of_the_first_library_having_it() {
    let entry = TreeLine {
        depth: 1,
        kind: TreeLineKind::File,
        label: "k2.wav".to_string(),
        folder: "Kicks".to_string(),
        index: 1,
        is_default: false,
    };
    let probes = vec![
        RootProbe { direct_file: false, entries: None },
        RootProbe {
            direct_file: false,
            entries: Some(vec![
                ProbeEntry { name: "Kicks".to_string(), type_known: true, is_dir: false, has_file: true },
                ProbeEntry { name: "Kicks".to_string(), type_known: true, is_dir: true, has_file: true },
            ]),
        },
    ];
    assert_eq!(resolve_sample_path(&probes, &entry), Some(SampleLocation::InFolder { root: 1, entry: 1 }));
    let folder_line = TreeLine { kind: TreeLineKind::Folder { expanded: true }, ..entry.clone() };
    assert_eq!(resolve_sample_path(&probes, &folder_line), None);
}

#[test]
fn a_top_level_sample_is_found_right_in_the_library_and_unknown_types_stop_the_search() {
    let entry = TreeLine {
        depth: 0,
        kind: TreeLineKind::File,
        label: "b.mp3".to_string(),
        folder: String::new(),
        index: 0,
        is_default: false,
    };
    let probes = vec![RootProbe { direct_file: true, entries: None }];
    assert_eq!(resolve_sample_path(&probes, &entry), Some(SampleLocation::Direct { root: 0 }));
    let in_folder = TreeLine { folder: "Kicks".to_string(), ..entry.clone() };
    let probes = vec![RootProbe {
        direct_file: true,
        entries: Some(vec![
            ProbeEntry { name: "x".to_string(), type_known: false, is_dir: true, has_file: true },
            ProbeEntry { name: "Kicks".to_string(), type_known: true, is_dir: true, has_file: true },
        ]),
    }];
    assert_eq!(resolve_sample_path(&probes, &in_folder), None);
}

#[test]
fn nodes_report_their_label_and_expansion() {
    let mut n = SampleNode::Folder { name: "f".to_string(), children: vec![], expanded: false };
    assert!(n.is_expandable());
    n.set_expanded(true);
    assert!(n.expanded());
    assert_eq!(n.label(), "f");
    let mut f = SampleNode::File { name: "a.wav".to_string() };
    f.set_expanded(true);
    assert!(!f.expanded());
    assert!(!f.is_expandable());
}

#[test]
fn a_library_root_is_labelled_by_its_last_path_component() {
    assert_eq!(root_label("/music/drums"), "drums");
    assert_eq!(root_label("/music/drums/"), "drums");
    assert_eq!(root_label("kit"), "kit");
    assert_eq!(root_label("/"), "/");
    assert_eq!(root_label("/music/.."), "/music/..");
    let default = RootListing { path: "/home/me/samples".to_string(), entries: Some(vec![file("a.wav")]) };
    let user = vec![RootListing { path: "/data/kits/".to_string(), entries: Some(library()) }];
    let tree = SampleTree::from_paths_with_default(Some(default), user);
    assert_eq!(labels(&tree.visible_entries()), vec!["samples".to_string(), "kits".to_string()]);
}

#[test]
fn clicks_and_scrolling_set_the_cursor_and_the_offset() {
    let user = vec![RootListing { path: "mine".to_string(), entries: Some(library()) }];
    let mut state = SampleBrowserState::new(None, user);
    state.set_cursor(2);
    state.set_scroll_offset(1);
    state.set_search_query("kick".to_string());
    assert_eq!(state.cursor(), 2);
    assert_eq!(state.scroll_offset, 1);
    assert_eq!(state.search_query, "kick");
    assert_eq!(state.current_entry().unwrap().label, state.entries()[2].label);
}
