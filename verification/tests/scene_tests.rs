use sova_desktop::scene_nav::{
    ContextItem, ContextTarget, FrameSource, KeyOutcome, LineFlag, LineSource, NavKeys, Overlay,
    PendingDestructive, SceneCommand, SceneNav, SceneShape, SceneState, SequencerInlineField,
    TileText, ViewMode,
};

fn shape(lines: &[usize]) -> SceneShape {
    SceneShape {
        lines: lines.iter().map(|&n| vec![true; n]).collect(),
        prelude_len: 0,
        tiles: lines
            .iter()
            .map(|&n| (0..n).map(|f| TileText { duration: format!("{}.5", f), repetitions: f + 1 }).collect())
            .collect(),
    }
}

fn keys() -> NavKeys {
    NavKeys {
        wake: false,
        up: false,
        down: false,
        left: false,
        right: false,
        shift: false,
        delete: false,
        cmd_d: false,
        cmd_shift_d: false,
        shift_i: false,
        cmd_shift_i: false,
        shift_j: false,
        shift_k: false,
        shift_e: false,
        e: false,
        r: false,
        comma: false,
        p: false,
        enter: false,
        i: false,
        escape: false,
        ctrl_a: false,
        ctrl_delete: false,
        alt_h: false,
        alt_l: false,
        f: false,
        o: false,
        shift_o: false,
        shift_s: false,
        m: false,
        x: false,
        b: false,
        c: false,
        d: false,
        a: false,
        s: false,
        t: false,
        y: false,
        z: false,
    }
}

fn at(li: usize, fi: usize, view: ViewMode) -> SceneNav {
    let mut nav = SceneNav::new();
    nav.view_mode = view;
    let mut out = Vec::new();
    nav.navigate_to_frame((li, fi), false, &mut out);
    nav
}

#[test]
fn a_new_panel_selects_nothing() {
    let nav = SceneNav::new();
    assert_eq!(nav.state, SceneState::Empty);
    assert!(nav.selection.is_empty());
    assert_eq!(nav.view_mode, ViewMode::Sequencer);
    assert!(nav.state.cursor().is_none());
}

#[test]
fn navigating_selects_the_frame_and_reports_the_cursor_when_connected() {
    let mut nav = SceneNav::new();
    let mut out = Vec::new();
    nav.navigate_to_frame((1, 2), true, &mut out);
    assert_eq!(nav.state, SceneState::NavigatingFrame { cursor: (1, 2) });
    assert_eq!(nav.selection, vec![(1, 2)]);
    assert_eq!(nav.anchor, Some((1, 2)));
    assert_eq!(out, vec![SceneCommand::CursorPosition { line: 1, frame: 2 }]);
    let mut out = Vec::new();
    nav.navigate_to_frame((0, 0), false, &mut out);
    assert!(out.is_empty());
}

#[test]
fn without_a_cursor_a_navigation_key_goes_to_the_first_frame() {
    let mut nav = SceneNav::new();
    let mut out = Vec::new();
    let mut k = keys();
    k.wake = true;
    let a = nav.handle_keyboard(&k, Some(&shape(&[2])), false, &mut out);
    assert_eq!(a, KeyOutcome::Navigate { pos: (0, 0) });
    assert_eq!(nav.state, SceneState::NavigatingFrame { cursor: (0, 0) });
}

#[test]
fn arrows_move_along_the_line_then_across_lines_in_the_sequencer() {
    let sh = shape(&[3, 1]);
    let mut nav = at(0, 2, ViewMode::Sequencer);
    let mut out = Vec::new();
    let mut k = keys();
    k.left = true;
    assert_eq!(nav.handle_keyboard(&k, Some(&sh), false, &mut out), KeyOutcome::Navigate { pos: (0, 1) });
    let mut k = keys();
    k.down = true;
    // down goes to the next line, keeping the frame inside it
    assert_eq!(nav.handle_keyboard(&k, Some(&sh), false, &mut out), KeyOutcome::Navigate { pos: (1, 0) });
    assert_eq!(nav.state.cursor(), Some((1, 0)));
    // at the last line down does nothing
    assert_eq!(nav.handle_keyboard(&k, Some(&sh), false, &mut out), KeyOutcome::Nothing);
}

#[test]
fn shift_arrows_extend_the_selection_along_the_line() {
    let sh = shape(&[4]);
    let mut nav = at(0, 1, ViewMode::Stack);
    let mut out = Vec::new();
    let mut k = keys();
    k.down = true;
    k.shift = true;
    assert_eq!(nav.handle_keyboard(&k, Some(&sh), false, &mut out), KeyOutcome::Extend { pos: (0, 2) });
    assert_eq!(nav.handle_keyboard(&k, Some(&sh), false, &mut out), KeyOutcome::Extend { pos: (0, 3) });
    assert_eq!(nav.selection, vec![(0, 1), (0, 2), (0, 3)]);
    assert_eq!(nav.anchor, Some((0, 1)));
}

#[test]
fn a_cursor_outside_the_scene_is_brought_back_first() {
    let sh = shape(&[2, 3]);
    let mut nav = at(5, 9, ViewMode::Sequencer);
    let mut out = Vec::new();
    let a = nav.handle_keyboard(&keys(), Some(&sh), true, &mut out);
    assert_eq!(a, KeyOutcome::Nothing);
    assert_eq!(nav.state.cursor(), Some((1, 2)));
    assert_eq!(out, vec![SceneCommand::CursorPosition { line: 1, frame: 2 }]);
}

#[test]
fn enter_edits_and_escape_in_the_stack_view_deselects() {
    let sh = shape(&[2]);
    let mut nav = at(0, 1, ViewMode::Stack);
    let mut out = Vec::new();
    let mut k = keys();
    k.enter = true;
    assert_eq!(nav.handle_keyboard(&k, Some(&sh), false, &mut out), KeyOutcome::EditFrame);
    assert_eq!(nav.state, SceneState::EditingFrame { cursor: (0, 1) });
    assert_eq!(out, vec![SceneCommand::FocusFrameEditor { line: 0, frame: 1 }]);
    let mut out = Vec::new();
    nav.exit_edit_mode(&mut out);
    assert_eq!(nav.state, SceneState::NavigatingFrame { cursor: (0, 1) });
    let mut k = keys();
    k.escape = true;
    assert_eq!(nav.handle_keyboard(&k, Some(&sh), false, &mut out), KeyOutcome::Deselect);
    assert_eq!(nav.state, SceneState::Empty);
}

#[test]
fn keys_insert_frames_and_lines() {
    let sh = shape(&[2, 2]);
    let mut nav = at(0, 1, ViewMode::Stack);
    let mut out = Vec::new();
    let mut k = keys();
    k.shift_i = true;
    assert_eq!(nav.handle_keyboard(&k, Some(&sh), false, &mut out), KeyOutcome::InsertFrame { at: 2 });
    assert_eq!(out, vec![SceneCommand::AddFrame { line: 0, index: 2, source: FrameSource::NewFrame }]);
    assert!(nav.open_picker_on_cursor);
    assert_eq!(nav.state.cursor(), Some((0, 2)));
    let mut out = Vec::new();
    let mut k = keys();
    k.o = true;
    assert_eq!(nav.handle_keyboard(&k, Some(&sh), false, &mut out), KeyOutcome::AddLine { at: 1 });
    assert_eq!(out, vec![SceneCommand::AddLine { index: 1, source: LineSource::Blank }]);
    assert_eq!(nav.state.cursor(), Some((1, 0)));
}

#[test]
fn line_keys_toggle_flags_and_enable_all_frames() {
    let mut sh = shape(&[3]);
    sh.lines[0] = vec![false, false, false];
    let mut nav = at(0, 0, ViewMode::Sequencer);
    let mut out = Vec::new();
    let mut k = keys();
    k.r = true;
    assert_eq!(
        nav.handle_keyboard(&k, Some(&sh), false, &mut out),
        KeyOutcome::ToggleFlag { flag: LineFlag::Looping }
    );
    let mut k = keys();
    k.shift_e = true;
    nav.handle_keyboard(&k, Some(&sh), false, &mut out);
    assert_eq!(
        out,
        vec![
            SceneCommand::ToggleLineFlag { line: 0, flag: LineFlag::Looping },
            SceneCommand::SetFramesEnabled { line: 0, updates: vec![(0, true), (1, true), (2, true)] },
        ]
    );
}

#[test]
fn sequencer_t_and_y_edit_a_tile_inline() {
    let sh = shape(&[2]);
    let mut nav = at(0, 1, ViewMode::Sequencer);
    let mut out = Vec::new();
    let mut k = keys();
    k.y = true;
    assert_eq!(
        nav.handle_keyboard(&k, Some(&sh), false, &mut out),
        KeyOutcome::InlineEdit { field: SequencerInlineField::Repetitions }
    );
    let edit = nav.sequencer_inline_edit.as_ref().unwrap();
    assert_eq!(edit.target, (0, 1));
    assert_eq!(edit.buffer, "2");
    assert!(edit.request_focus);
    // committing a readable count sends it and ends the edit
    let mut out = Vec::new();
    assert!(nav.commit_inline_repetitions(0, 1, &mut out));
    assert_eq!(out, vec![SceneCommand::SetRepetitions { line: 0, index: 1, repetitions: 2 }]);
    assert!(nav.sequencer_inline_edit.is_none());
    // a duration edit starts from the tile's duration text
    let mut k = keys();
    k.t = true;
    nav.handle_keyboard(&k, Some(&sh), false, &mut out);
    assert_eq!(nav.sequencer_inline_edit.as_ref().unwrap().buffer, "1.5");
    assert!(!nav.commit_inline_repetitions(0, 1, &mut out));
}

#[test]
fn an_unreadable_repetitions_edit_stays_open() {
    let mut nav = at(0, 0, ViewMode::Sequencer);
    nav.begin_sequencer_inline_edit((0, 0), SequencerInlineField::Repetitions, "x".to_string());
    let mut out = Vec::new();
    assert!(!nav.commit_inline_repetitions(0, 0, &mut out));
    assert!(out.is_empty());
    nav.sequencer_inline_edit.as_mut().unwrap().request_focus = false;
    nav.refocus_inline_edit();
    assert!(nav.sequencer_inline_edit.as_ref().unwrap().request_focus);
}

#[test]
fn delete_asks_before_removing_the_selection() {
    let sh = shape(&[3]);
    let mut nav = at(0, 1, ViewMode::Stack);
    let mut out = Vec::new();
    let mut k = keys();
    k.delete = true;
    assert_eq!(nav.handle_keyboard(&k, Some(&sh), false, &mut out), KeyOutcome::RemoveFrames);
    assert_eq!(nav.overlay, Overlay::ConfirmDialog { action: PendingDestructive::RemoveFrames(vec![(0, 1)]) });
    assert_eq!(out, vec![SceneCommand::ConfirmRemoveFrames { count: 1 }]);
}

#[test]
fn copy_and_paste_after_insert_the_copies_and_select_them() {
    let sh = shape(&[4]);
    let mut nav = at(0, 0, ViewMode::Stack);
    nav.extend_selection((0, 1));
    let mut out = Vec::new();
    assert_eq!(nav.handle_clipboard(true, false, false, Some(&sh), false, &mut out), Some(2));
    assert_eq!(
        out,
        vec![
            SceneCommand::ClearClipboard,
            SceneCommand::CopyToClipboard { line: 0, frame: 0 },
            SceneCommand::CopyToClipboard { line: 0, frame: 1 },
        ]
    );
    let mut out = Vec::new();
    nav.handle_clipboard(false, true, false, Some(&sh), false, &mut out);
    assert_eq!(
        out,
        vec![
            SceneCommand::AddFrame { line: 0, index: 2, source: FrameSource::Clipboard { index: 0 } },
            SceneCommand::AddFrame { line: 0, index: 3, source: FrameSource::Clipboard { index: 1 } },
        ]
    );
    assert_eq!(nav.selection, vec![(0, 2), (0, 3)]);
    assert_eq!(nav.state.cursor(), Some((0, 3)));
}

#[test]
fn cut_removes_the_highest_frames_first() {
    let sh = shape(&[4]);
    let mut nav = at(0, 1, ViewMode::Sequencer);
    nav.extend_selection((0, 3));
    let mut out = Vec::new();
    nav.cut_selection(Some(&sh), &mut out);
    assert_eq!(out[4..].to_vec(), vec![
        SceneCommand::RemoveFrame { line: 0, index: 3 },
        SceneCommand::RemoveFrame { line: 0, index: 2 },
        SceneCommand::RemoveFrame { line: 0, index: 1 },
    ]);
    assert_eq!(nav.clipboard_len, 3);
    assert_eq!(nav.state, SceneState::Empty);
}

#[test]
fn paste_in_the_sequencer_overwrites_up_to_the_end_of_the_line() {
    let sh = shape(&[3]);
    let mut nav = at(0, 2, ViewMode::Sequencer);
    nav.clipboard_len = 2;
    let mut out = Vec::new();
    nav.paste_replace(0, 2, Some(&sh), false, &mut out);
    assert_eq!(out, vec![SceneCommand::ReplaceFrames { line: 0, first: 2, count: 1 }]);
    assert_eq!(nav.selection, vec![(0, 2)]);
}

#[test]
fn moving_a_block_down_swaps_it_with_the_next_frame() {
    let sh = shape(&[4]);
    let mut nav = at(0, 0, ViewMode::Stack);
    nav.extend_selection((0, 1));
    let mut out = Vec::new();
    nav.move_frames_vertical(1, Some(&sh), false, &mut out);
    assert_eq!(out, vec![
        SceneCommand::RemoveFrame { line: 0, index: 2 },
        SceneCommand::AddFrame { line: 0, index: 0, source: FrameSource::SceneFrame { line: 0, frame: 2 } },
    ]);
    assert_eq!(nav.selection, vec![(0, 1), (0, 2)]);
    assert_eq!(nav.anchor, Some((0, 1)));
    assert_eq!(nav.state.cursor(), Some((0, 2)));
    // at the end of the line nothing moves
    let mut out = Vec::new();
    nav.extend_selection((0, 3));
    let before = nav.selection.clone();
    nav.move_frames_vertical(1, Some(&sh), false, &mut out);
    assert!(out.is_empty());
    assert_eq!(nav.selection, before);
}

#[test]
fn moving_a_block_down_then_up_gives_back_the_selection_and_cursor() {
    let sh = shape(&[5]);
    let mut nav = at(0, 1, ViewMode::Stack);
    nav.extend_selection((0, 2));
    let sel = nav.selection.clone();
    let anchor = nav.anchor;
    let cursor = nav.state.cursor();
    let mut out = Vec::new();
    nav.move_frames_vertical(1, Some(&sh), true, &mut out);
    nav.move_frames_vertical(-1, Some(&sh), true, &mut out);
    assert_eq!(nav.selection, sel);
    assert_eq!(nav.anchor, anchor);
    assert_eq!(nav.state.cursor(), cursor);
    assert_eq!(out, vec![
        SceneCommand::RemoveFrame { line: 0, index: 3 },
        SceneCommand::AddFrame { line: 0, index: 1, source: FrameSource::SceneFrame { line: 0, frame: 3 } },
        SceneCommand::CursorPosition { line: 0, frame: 3 },
        SceneCommand::RemoveFrame { line: 0, index: 1 },
        SceneCommand::AddFrame { line: 0, index: 3, source: FrameSource::SceneFrame { line: 0, frame: 1 } },
        SceneCommand::CursorPosition { line: 0, frame: 2 },
    ]);
}

#[test]
fn moving_a_line_left_carries_the_cursor_and_selection() {
    let sh = shape(&[1, 2, 1]);
    let mut nav = at(1, 1, ViewMode::Sequencer);
    let mut out = Vec::new();
    nav.move_line_horizontal(1, -1, Some(&sh), false, &mut out);
    assert_eq!(out, vec![
        SceneCommand::RemoveLine { index: 1 },
        SceneCommand::AddLine { index: 0, source: LineSource::SceneLine { line: 1 } },
    ]);
    assert_eq!(nav.state.cursor(), Some((0, 1)));
    assert_eq!(nav.selection, vec![(0, 1)]);
    assert_eq!(nav.anchor, Some((0, 1)));
}

#[test]
fn moving_a_line_left_then_back_gives_back_the_cursor() {
    let sh = shape(&[1, 2, 1]);
    let mut nav = at(1, 1, ViewMode::Sequencer);
    let mut out = Vec::new();
    nav.move_line_horizontal(1, -1, Some(&sh), false, &mut out);
    nav.move_line_horizontal(0, 1, Some(&sh), false, &mut out);
    assert_eq!(nav.state.cursor(), Some((1, 1)));
    assert_eq!(nav.selection, vec![(1, 1)]);
    assert_eq!(nav.anchor, Some((1, 1)));
    assert_eq!(out, vec![
        SceneCommand::RemoveLine { index: 1 },
        SceneCommand::AddLine { index: 0, source: LineSource::SceneLine { line: 1 } },
        SceneCommand::RemoveLine { index: 0 },
        SceneCommand::AddLine { index: 1, source: LineSource::SceneLine { line: 0 } },
    ]);
}

#[test]
fn after_removing_frames_the_cursor_goes_to_the_nearest_remaining_one() {
    let sh = shape(&[4, 2]);
    let nav = at(0, 1, ViewMode::Stack);
    // frames 1 and 2 of line 0 go: frame 3 remains and moves to index 1
    assert_eq!(nav.next_frame_after_removal(&sh, &[(0, 1), (0, 2)]), Some((0, 1)));
    // the whole line goes: first frame of the next line
    assert_eq!(nav.next_frame_after_removal(&sh, &[(0, 0), (0, 1), (0, 2), (0, 3)]), Some((1, 0)));
    assert_eq!(nav.next_frame_after_line_removal(&sh, 0), Some((0, 0)));
    assert_eq!(nav.next_frame_after_line_removal(&shape(&[1, 0]), 0), None);
}

#[test]
fn the_context_menu_of_a_cell_offers_moves_only_where_there_is_room() {
    let sh = shape(&[3]);
    let nav = at(0, 0, ViewMode::Sequencer);
    let entries = nav.context_menu_entries(ContextTarget::Cell(0, 0), Some(&sh));
    let up = entries.iter().find(|e| e.item == ContextItem::MoveUp).unwrap();
    let down = entries.iter().find(|e| e.item == ContextItem::MoveDown).unwrap();
    let paste = entries.iter().find(|e| e.item == ContextItem::Paste).unwrap();
    assert!(!up.enabled);
    assert!(down.enabled);
    assert!(!paste.enabled);
    assert!(entries.iter().any(|e| e.item == ContextItem::InsertFrameBefore));
    let header = nav.context_menu_entries(ContextTarget::Header(0), Some(&sh));
    assert_eq!(header.len(), 9);
    assert!(!header.iter().find(|e| e.item == ContextItem::MoveRight).unwrap().enabled);
}

#[test]
fn choosing_a_context_item_acts_and_closes_the_menu() {
    let sh = shape(&[3]);
    let mut nav = at(0, 1, ViewMode::Sequencer);
    nav.open_context_menu(ContextTarget::Cell(0, 1));
    let mut out = Vec::new();
    nav.choose_context_item(ContextTarget::Cell(0, 1), ContextItem::SetStartFrame, Some(&sh), false, &mut out);
    assert_eq!(out, vec![SceneCommand::SetLineStart { line: 0, frame: 1 }]);
    assert_eq!(nav.overlay, Overlay::Hidden);
    nav.open_context_menu(ContextTarget::Header(0));
    let mut out = Vec::new();
    nav.choose_context_item(ContextTarget::Header(0), ContextItem::RemoveLine, Some(&sh), false, &mut out);
    assert_eq!(nav.overlay, Overlay::ConfirmDialog { action: PendingDestructive::RemoveLine(0) });
    assert_eq!(out, vec![SceneCommand::ConfirmRemoveLine { line: 0 }]);
}

#[test]
fn the_prelude_keys_move_between_scripts_and_down_to_the_scene() {
    let mut sh = shape(&[1]);
    sh.prelude_len = 2;
    let mut nav = SceneNav::new();
    nav.prelude_count = 2;
    nav.navigate_to_prelude(0);
    let mut out = Vec::new();
    let mut k = keys();
    k.right = true;
    assert_eq!(nav.handle_keyboard(&k, Some(&sh), false, &mut out), KeyOutcome::SelectPrelude { index: 1 });
    let mut k = keys();
    k.cmd_d = true;
    assert_eq!(nav.handle_keyboard(&k, Some(&sh), false, &mut out), KeyOutcome::DuplicatePrelude { index: 1 });
    assert_eq!(out, vec![SceneCommand::DuplicatePrelude { index: 1 }]);
    let mut k = keys();
    k.down = true;
    assert_eq!(nav.handle_keyboard(&k, Some(&sh), false, &mut out), KeyOutcome::Navigate { pos: (0, 0) });
}

#[test]
fn the_keyboard_goes_to_overlays_first() {
    let mut nav = SceneNav::new();
    nav.open_context_menu(ContextTarget::Header(0));
    assert_eq!(
        nav.active_keyboard_context(true, true),
        sova_desktop::scene_nav::KeyboardContext::Overlay
    );
}

#[test]
fn confirming_a_frame_removal_removes_highest_first_and_moves_on() {
    let sh = shape(&[4]);
    let mut nav = at(0, 1, ViewMode::Stack);
    nav.extend_selection((0, 2));
    let mut out = Vec::new();
    nav.request_remove_frames(nav.selection.clone(), &mut out);
    let mut out = Vec::new();
    nav.resolve_confirm(sova_desktop::scene_nav::ConfirmResult::Confirmed, &sh, false, &mut out);
    assert_eq!(out, vec![
        SceneCommand::RemoveFrame { line: 0, index: 2 },
        SceneCommand::RemoveFrame { line: 0, index: 1 },
    ]);
    assert_eq!(nav.overlay, Overlay::Hidden);
    // frame 3 remains after the cursor and becomes frame 1
    assert_eq!(nav.state, SceneState::NavigatingFrame { cursor: (0, 1) });
}

#[test]
fn confirming_a_line_removal_goes_to_the_next_line_and_cancelling_keeps_everything() {
    let sh = shape(&[1, 0, 2]);
    let mut nav = at(0, 0, ViewMode::Sequencer);
    let mut out = Vec::new();
    nav.request_remove_line(0, &mut out);
    let mut out = Vec::new();
    nav.resolve_confirm(sova_desktop::scene_nav::ConfirmResult::Cancelled, &sh, false, &mut out);
    assert!(out.is_empty());
    assert_eq!(nav.overlay, Overlay::Hidden);
    nav.request_remove_line(0, &mut out);
    let mut out = Vec::new();
    nav.resolve_confirm(sova_desktop::scene_nav::ConfirmResult::Confirmed, &sh, false, &mut out);
    assert_eq!(out, vec![SceneCommand::RemoveLine { index: 0 }]);
    // line 2 is the next non-empty line; it moves up to index 1
    assert_eq!(nav.state, SceneState::NavigatingFrame { cursor: (1, 0) });
}

#[test]
fn a_context_menu_survives_its_first_frame_then_closes_on_escape() {
    let mut nav = SceneNav::new();
    nav.open_context_menu(ContextTarget::Cell(0, 0));
    nav.dismiss_context_menu(true, true);
    assert_eq!(nav.overlay, Overlay::ContextMenu { target: ContextTarget::Cell(0, 0), just_opened: false });
    nav.dismiss_context_menu(false, false);
    assert!(matches!(nav.overlay, Overlay::ContextMenu { .. }));
    nav.dismiss_context_menu(false, true);
    assert_eq!(nav.overlay, Overlay::Hidden);
}

#[test]
fn escape_leaves_edit_mode_and_the_server_hears_of_editing_changes() {
    let mut nav = at(0, 1, ViewMode::Stack);
    let mut out = Vec::new();
    nav.follow_editor_focus(Some((0, 1)), false, &mut out);
    assert_eq!(nav.state, SceneState::EditingFrame { cursor: (0, 1) });
    let mut out = Vec::new();
    nav.track_editing(&mut out);
    assert_eq!(out, vec![SceneCommand::StartedEditing { line: 0, frame: 1 }]);
    let mut out = Vec::new();
    // a focused widget keeps the raw escape away from the editor
    assert!(!nav.escape_editing(false, true, true, false, &mut out));
    assert!(nav.state.is_editing());
    assert!(nav.escape_editing(false, true, false, false, &mut out));
    assert_eq!(nav.state, SceneState::NavigatingFrame { cursor: (0, 1) });
    assert!(nav.scroll_to_cursor);
    let mut out = Vec::new();
    nav.track_editing(&mut out);
    assert_eq!(out, vec![SceneCommand::StoppedEditing { line: 0, frame: 1 }]);
}

#[test]
fn a_focused_frame_that_left_the_scene_is_dropped() {
    let mut nav = SceneNav::new();
    nav.enter_focus_mode((3, 0));
    nav.drop_stale_focus(&shape(&[1]));
    assert_eq!(nav.state, SceneState::Empty);
}

#[test]
fn command_arrows_in_the_editor_move_to_the_neighbouring_frame() {
    let mut nav = at(0, 1, ViewMode::Sequencer);
    let mut out = Vec::new();
    assert_eq!(nav.editor_panel_keys(0, 1, 3, true, true, false, false, true, &mut out), Some(SequencerInlineField::Repetitions));
    assert_eq!(nav.state, SceneState::EditingFrame { cursor: (0, 0) });
    assert_eq!(out, vec![SceneCommand::FocusFrameEditor { line: 0, frame: 0 }]);
    let mut out = Vec::new();
    assert_eq!(nav.editor_panel_keys(0, 2, 3, true, false, true, true, false, &mut out), Some(SequencerInlineField::Duration));
    assert!(out.is_empty());
    assert_eq!(nav.state, SceneState::EditingFrame { cursor: (0, 0) });
    assert_eq!(nav.editor_panel_keys(0, 0, 3, false, false, true, true, false, &mut out), None);
    assert!(out.is_empty());
}

#[test]
fn clicking_cells_moves_selects_and_opens_the_menu() {
    let mut nav = at(0, 0, ViewMode::Stack);
    let mut out = Vec::new();
    nav.click_cell((0, 2), true, false, &mut out);
    assert_eq!(nav.selection, vec![(0, 0), (0, 1), (0, 2)]);
    assert!(out.is_empty());
    nav.secondary_click_cell((0, 1), true, &mut out);
    assert_eq!(nav.selection, vec![(0, 0), (0, 1), (0, 2)]);
    assert_eq!(nav.state.cursor(), Some((0, 1)));
    assert_eq!(nav.overlay, Overlay::ContextMenu { target: ContextTarget::Cell(0, 1), just_opened: true });
    assert_eq!(out, vec![SceneCommand::CursorPosition { line: 0, frame: 1 }]);
    let mut out = Vec::new();
    nav.click_cell((1, 0), true, true, &mut out);
    assert_eq!(nav.selection, vec![(1, 0)]);
    assert_eq!(nav.anchor, Some((1, 0)));
    assert_eq!(nav.state.cursor(), Some((1, 0)));
    assert_eq!(out, vec![SceneCommand::CursorPosition { line: 1, frame: 0 }]);
}
