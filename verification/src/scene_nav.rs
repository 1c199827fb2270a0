use vstd::prelude::*;

use crate::sequencer::parse_inline_repetitions;
use crate::text::{decimal, decimal_string};

verus! {

/// How the scene is laid out: lines as columns (sequencer) or stacked.
#[derive(Clone, Copy, PartialEq, Eq, Structural, Debug)]
pub enum ViewMode {
    Sequencer,
    Stack,
}

/// Which panels are shown.
pub struct PanelVisibility {
    pub sidebar: bool,
    pub devices: bool,
    pub scope: bool,
    pub spectrum: bool,
    pub vu_meter: bool,
    pub scope_bar: bool,
    pub logs: bool,
    pub debug: bool,
}

/// Primary navigation/editing state of the scene panel. Positions are (line, frame).
#[derive(Clone, Copy, PartialEq, Eq, Debug)]
pub enum SceneState {
    /// Nothing selected.
    Empty,
    /// A frame is selected and the navigation keys are active.
    NavigatingFrame { cursor: (usize, usize) },
    /// A prelude script is selected.
    NavigatingPrelude { index: usize },
    /// The frame editor has the focus.
    EditingFrame { cursor: (usize, usize) },
    /// The prelude editor has the focus.
    EditingPrelude { index: usize },
    /// Stack mode only: one frame fills the panel.
    FocusedFrame { frame: (usize, usize) },
}

impl SceneState {
    pub fn is_editing(&self) -> (r: bool)
        ensures
            r == (*self is EditingFrame || *self is EditingPrelude),
    {
        matches!(self, SceneState::EditingFrame { .. } | SceneState::EditingPrelude { .. })
    }

    pub fn shows_sequencer_grid(&self) -> (r: bool)
        ensures
            r == (*self is Empty || *self is NavigatingFrame || *self is NavigatingPrelude),
    {
        matches!(
            self,
            SceneState::Empty | SceneState::NavigatingFrame { .. } | SceneState::NavigatingPrelude {
                ..
            }
        )
    }

    pub fn cursor(&self) -> (r: Option<(usize, usize)>)
        ensures
            r == state_cursor(*self),
    {
        match self {
            SceneState::NavigatingFrame { cursor } => Some(*cursor),
            SceneState::EditingFrame { cursor } => Some(*cursor),
            _ => None,
        }
    }

    pub fn selected_prelude(&self) -> (r: Option<usize>)
        ensures
            r == match *self {
                SceneState::NavigatingPrelude { index } => Some(index),
                SceneState::EditingPrelude { index } => Some(index),
                _ => None,
            },
    {
        match self {
            SceneState::NavigatingPrelude { index } => Some(*index),
            SceneState::EditingPrelude { index } => Some(*index),
            _ => None,
        }
    }

    pub fn focused_frame(&self) -> (r: Option<(usize, usize)>)
        ensures
            r == match *self {
                SceneState::FocusedFrame { frame } => Some(frame),
                _ => None,
            },
    {
        match self {
            SceneState::FocusedFrame { frame } => Some(*frame),
            _ => None,
        }
    }
}

/// The frame cursor of a state, when it has one.
pub open spec fn state_cursor(s: SceneState) -> Option<(usize, usize)> {
    match s {
        SceneState::NavigatingFrame { cursor } => Some(cursor),
        SceneState::EditingFrame { cursor } => Some(cursor),
        _ => None,
    }
}


/// Which number a sequencer tile edits inline.
#[derive(Clone, Copy, PartialEq, Eq, Structural, Debug)]
pub enum SequencerInlineField {
    Duration,
    Repetitions,
}

/// What a context menu was opened on.
#[derive(Clone, Copy, Debug, PartialEq, Eq)]
pub enum ContextTarget {
    Cell(usize, usize),
    Header(usize),
}

/// A destructive action awaiting confirmation.
#[derive(Clone, Debug, PartialEq, Eq)]
pub enum PendingDestructive {
    RemoveLine(usize),
    RemoveFrames(Vec<(usize, usize)>),
}

/// Modal overlay layered on top of any [`SceneState`].
#[derive(Clone, Debug, PartialEq, Eq)]
pub enum Overlay {
    Hidden,
    ContextMenu { target: ContextTarget, just_opened: bool },
    ConfirmDialog { action: PendingDestructive },
}

/// Which part of the scene panel owns keyboard input.
#[derive(Clone, Copy, PartialEq, Eq, Structural, Debug)]
pub enum KeyboardContext {
    Overlay,
    LangPicker,
    WidgetFocused,
    Editing,
    Navigating,
}

/// The sequencer tile being edited inline: which number, the typed text, and whether the
/// text field is to take the focus.
#[derive(Debug, PartialEq, Eq)]
pub struct InlineEdit {
    pub target: (usize, usize),
    pub field: SequencerInlineField,
    pub buffer: String,
    pub request_focus: bool,
}

/// Where a frame that is added comes from.
#[derive(Clone, Copy, Debug, PartialEq, Eq)]
pub enum FrameSource {
    /// A fresh empty frame in the default language.
    NewFrame,
    /// A copy of the frame at this position of the scene.
    SceneFrame { line: usize, frame: usize },
    /// A copy of this clipboard entry.
    Clipboard { index: usize },
}

/// Where a line that is added comes from.
#[derive(Clone, Copy, Debug, PartialEq, Eq)]
pub enum LineSource {
    /// A new line with one frame.
    Blank,
    /// A copy of this line of the scene.
    SceneLine { line: usize },
}

/// A boolean setting of a line.
#[derive(Clone, Copy, Debug, PartialEq, Eq)]
pub enum LineFlag {
    Looping,
    Trailing,
    Manual,
}

/// What the scene panel asks the rest of the application to do.
#[derive(Clone, Debug, PartialEq, Eq)]
pub enum SceneCommand {
    /// Tell the server where the cursor is.
    CursorPosition { line: usize, frame: usize },
    AddFrame { line: usize, index: usize, source: FrameSource },
    RemoveFrame { line: usize, index: usize },
    /// Overwrite frames `first..first + count` of the line with clipboard entries
    /// `0..count`, in one update.
    ReplaceFrames { line: usize, first: usize, count: usize },
    /// Replace the frame's script by an empty one in the same language.
    ClearFrameScript { line: usize, index: usize },
    SetFrameEnabled { line: usize, index: usize, enabled: bool },
    /// Set how many times a frame repeats.
    SetRepetitions { line: usize, index: usize, repetitions: usize },
    /// Set the enabled flags of several frames of a line at once: (frame, enabled) pairs.
    SetFramesEnabled { line: usize, updates: Vec<(usize, bool)> },
    AddLine { index: usize, source: LineSource },
    RemoveLine { index: usize },
    ToggleLineFlag { line: usize, flag: LineFlag },
    /// Make the line start playing at this frame.
    SetLineStart { line: usize, frame: usize },
    /// Make the line stop playing after this frame.
    SetLineEnd { line: usize, frame: usize },
    /// Play the whole line again.
    ClearLineRange { line: usize },
    RunSnippet { line: usize, frame: usize },
    ClearClipboard,
    CopyToClipboard { line: usize, frame: usize },
    RemovePrelude { index: usize },
    DuplicatePrelude { index: usize },
    /// Ask to confirm removing a line.
    ConfirmRemoveLine { line: usize },
    /// Ask to confirm removing this many frames.
    ConfirmRemoveFrames { count: usize },
    /// Give the keyboard focus to the editor of a frame.
    FocusFrameEditor { line: usize, frame: usize },
    /// Give the keyboard focus to the editor of a prelude script.
    FocusPreludeEditor { index: usize },
    /// Close the language pickers of all inline editors.
    CloseLangPickers,
    /// Tell the server this user started editing a frame.
    StartedEditing { line: usize, frame: usize },
    /// Tell the server this user stopped editing a frame.
    StoppedEditing { line: usize, frame: usize },
}

/// What a sequencer tile shows of its frame: its duration, as the window code writes it,
/// and its repetition count.
pub struct TileText {
    pub duration: String,
    pub repetitions: usize,
}

/// What the scene panel reads of the scene: for each line, whether each frame is enabled;
/// how many prelude scripts there are; and, line by line, what the tiles show.
pub struct SceneShape {
    pub lines: Vec<Vec<bool>>,
    pub prelude_len: usize,
    pub tiles: Vec<Vec<TileText>>,
}

/// The text an inline edit of `field` on tile (li, fi) starts from (empty when the tile is
/// not described).
pub open spec fn prefill(sh: SceneShape, li: usize, fi: usize, field: SequencerInlineField) -> Seq<
    char,
> {
    if li < sh.tiles@.len() && fi < sh.tiles@[li as int]@.len() {
        let t = sh.tiles@[li as int]@[fi as int];
        match field {
            SequencerInlineField::Duration => t.duration@,
            SequencerInlineField::Repetitions => decimal(t.repetitions as nat),
        }
    } else {
        Seq::empty()
    }
}

/// The navigation and selection state of the scene panel.
pub struct SceneNav {
    pub state: SceneState,
    pub overlay: Overlay,
    /// Where a shift-extended selection starts.
    pub anchor: Option<(usize, usize)>,
    /// The selected frames, in increasing (line, frame) order, each once.
    pub selection: Vec<(usize, usize)>,
    /// How many frames the clipboard holds.
    pub clipboard_len: usize,
    pub scroll_to_cursor: bool,
    /// How many prelude scripts the panel shows.
    pub prelude_count: usize,
    pub open_picker_on_cursor: bool,
    pub view_mode: ViewMode,
    pub pending_mutation_flashes: Vec<(usize, usize)>,
    pub pending_compilation_flashes: Vec<((usize, usize), bool)>,
    pub sequencer_inline_edit: Option<InlineEdit>,
    pub sequencer_line_speed_focus: Option<usize>,
    /// The frame whose editor the server was last told about.
    pub prev_editing: Option<(usize, usize)>,
}

/// Strict (line, frame) order.
pub open spec fn pos_lt(a: (usize, usize), b: (usize, usize)) -> bool {
    a.0 < b.0 || (a.0 == b.0 && a.1 < b.1)
}

/// Increasing without repetition.
pub open spec fn sorted_set(s: Seq<(usize, usize)>) -> bool {
    forall|i: int, j: int| 0 <= i < j < s.len() ==> pos_lt(#[trigger] s[i], #[trigger] s[j])
}

/// The inline edit after moving to `pos`: dropped when it edits another tile.
pub open spec fn inline_kept_at(e: Option<InlineEdit>, pos: (usize, usize)) -> Option<InlineEdit> {
    match e {
        Some(x) => if x.target != pos {
            None
        } else {
            Some(x)
        },
        None => None,
    }
}

/// The line speed focus after moving to line `li`: dropped when it is on another line.
pub open spec fn speed_kept_at(f: Option<usize>, li: usize) -> Option<usize> {
    match f {
        Some(l) => if l != li {
            None
        } else {
            Some(l)
        },
        None => None,
    }
}

/// The state after moving the cursor to `pos`: the frame cursor moves in navigation and
/// edit states; other states become navigation on `pos`.
pub open spec fn moved_state(s: SceneState, pos: (usize, usize)) -> SceneState {
    match s {
        SceneState::EditingFrame { .. } => SceneState::EditingFrame { cursor: pos },
        _ => SceneState::NavigatingFrame { cursor: pos },
    }
}

/// The commands that report a cursor move to the server (only when connected).
pub open spec fn cursor_report(pos: (usize, usize), connected: bool) -> Seq<SceneCommand> {
    if connected {
        seq![SceneCommand::CursorPosition { line: pos.0, frame: pos.1 }]
    } else {
        Seq::empty()
    }
}


/// `n` is `o` after navigating to the frame at `pos`.
pub open spec fn nav_navigated(o: SceneNav, n: SceneNav, pos: (usize, usize)) -> bool {
    &&& n.selection@ == seq![pos]
    &&& n == (SceneNav {
        state: SceneState::NavigatingFrame { cursor: pos },
        selection: n.selection,
        anchor: Some(pos),
        scroll_to_cursor: true,
        sequencer_inline_edit: inline_kept_at(o.sequencer_inline_edit, pos),
        sequencer_line_speed_focus: speed_kept_at(o.sequencer_line_speed_focus, pos.0),
        ..o
    })
}

/// `o` after moving the cursor to `pos`, the selection unchanged.
pub open spec fn after_move(o: SceneNav, pos: (usize, usize)) -> SceneNav {
    SceneNav {
        state: moved_state(o.state, pos),
        scroll_to_cursor: true,
        sequencer_inline_edit: inline_kept_at(o.sequencer_inline_edit, pos),
        ..o
    }
}

/// `n` is `o` after moving the cursor to `pos`, the selection unchanged.
pub open spec fn nav_moved(o: SceneNav, n: SceneNav, pos: (usize, usize)) -> bool {
    n == after_move(o, pos)
}

/// `n` is `o` after selecting prelude script `index`.
pub open spec fn nav_prelude(o: SceneNav, n: SceneNav, index: usize) -> bool {
    &&& n.selection@.len() == 0
    &&& n == (SceneNav {
        state: SceneState::NavigatingPrelude { index },
        selection: n.selection,
        anchor: None,
        sequencer_inline_edit: None,
        sequencer_line_speed_focus: None,
        ..o
    })
}

/// `n` is `o` after entering edit mode on the frame at `pos`.
pub open spec fn nav_frame_edit(o: SceneNav, n: SceneNav, pos: (usize, usize)) -> bool {
    &&& n.selection@ == seq![pos]
    &&& n == (SceneNav {
        state: SceneState::EditingFrame { cursor: pos },
        selection: n.selection,
        anchor: Some(pos),
        sequencer_inline_edit: None,
        sequencer_line_speed_focus: None,
        ..o
    })
}

/// `n` is `o` after entering edit mode on prelude script `index`.
pub open spec fn nav_prelude_edit(o: SceneNav, n: SceneNav, index: usize) -> bool {
    n == (SceneNav {
        state: SceneState::EditingPrelude { index },
        sequencer_inline_edit: None,
        sequencer_line_speed_focus: None,
        ..o
    })
}

/// `n` is `o` after focusing the frame at `pos`.
pub open spec fn nav_focused(o: SceneNav, n: SceneNav, pos: (usize, usize)) -> bool {
    n == (SceneNav {
        state: SceneState::FocusedFrame { frame: pos },
        sequencer_inline_edit: None,
        sequencer_line_speed_focus: None,
        ..o
    })
}

/// `n` is `o` after returning to the empty state.
pub open spec fn nav_deselected(o: SceneNav, n: SceneNav) -> bool {
    &&& n.selection@.len() == 0
    &&& n == (SceneNav {
        state: SceneState::Empty,
        selection: n.selection,
        anchor: None,
        sequencer_inline_edit: None,
        sequencer_line_speed_focus: None,
        ..o
    })
}

impl SceneNav {
    pub open spec fn wf(&self) -> bool {
        sorted_set(self.selection@)
    }

    /// A panel with nothing selected, in sequencer view, with the prelude collapsed.
    pub fn new() -> (r: Self)
        ensures
            r.wf(),
            r.state == SceneState::Empty,
            r.overlay is Hidden,
            r.anchor is None,
            r.selection@.len() == 0,
            r.clipboard_len == 0,
            !r.scroll_to_cursor,
            r.prelude_count == 0,
            !r.open_picker_on_cursor,
            r.view_mode == ViewMode::Sequencer,
            r.pending_mutation_flashes@.len() == 0,
            r.pending_compilation_flashes@.len() == 0,
            r.sequencer_inline_edit is None,
            r.sequencer_line_speed_focus is None,
            r.prev_editing is None,
    {
        SceneNav {
            state: SceneState::Empty,
            overlay: Overlay::Hidden,
            anchor: None,
            selection: Vec::new(),
            clipboard_len: 0,
            scroll_to_cursor: false,
            prelude_count: 0,
            open_picker_on_cursor: false,
            view_mode: ViewMode::Sequencer,
            pending_mutation_flashes: Vec::new(),
            pending_compilation_flashes: Vec::new(),
            sequencer_inline_edit: None,
            sequencer_line_speed_focus: None,
            prev_editing: None,
        }
    }

    /// A freshly inserted frame gets its language picker opened in stack view.
    pub fn should_auto_open_picker_after_insert(&self) -> (r: bool)
        ensures
            r == (self.view_mode == ViewMode::Stack),
    {
        match self.view_mode {
            ViewMode::Stack => true,
            ViewMode::Sequencer => false,
        }
    }

    pub fn clear_sequencer_inline_edit(&mut self)
        ensures
            *final(self) == (SceneNav { sequencer_inline_edit: None, ..*old(self) }),
    {
        self.sequencer_inline_edit = None;
    }

    pub fn clear_sequencer_line_speed_focus(&mut self)
        ensures
            *final(self) == (SceneNav { sequencer_line_speed_focus: None, ..*old(self) }),
    {
        self.sequencer_line_speed_focus = None;
    }

    /// Drops the inline edits that depend on per-frame editor state.
    pub fn clear_frame_states(&mut self)
        ensures
            *final(self) == (SceneNav {
                sequencer_inline_edit: None,
                sequencer_line_speed_focus: None,
                ..*old(self)
            }),
    {
        self.clear_sequencer_inline_edit();
        self.clear_sequencer_line_speed_focus();
    }

    /// Starts editing the duration or repetitions of the tile at `pos` from `prefill`,
    /// asking for the focus.
    pub fn begin_sequencer_inline_edit(
        &mut self,
        pos: (usize, usize),
        field: SequencerInlineField,
        prefill: String,
    )
        ensures
            final(self).sequencer_inline_edit matches Some(e) && e.target == pos && e.field == field
                && e.buffer@ == prefill@ && e.request_focus,
            *final(self) == (SceneNav {
                sequencer_inline_edit: final(self).sequencer_inline_edit,
                scroll_to_cursor: true,
                ..*old(self)
            }),
    {
        self.sequencer_inline_edit = Some(
            InlineEdit { target: pos, field, buffer: prefill, request_focus: true },
        );
        self.scroll_to_cursor = true;
    }

    /// Gives the focus to the speed field of line `li`.
    pub fn begin_sequencer_line_speed_focus(&mut self, li: usize)
        ensures
            *final(self) == (SceneNav {
                sequencer_line_speed_focus: Some(li),
                scroll_to_cursor: true,
                ..*old(self)
            }),
    {
        self.sequencer_line_speed_focus = Some(li);
        self.scroll_to_cursor = true;
    }

    /// Opens the context menu on `target`.
    pub fn open_context_menu(&mut self, target: ContextTarget)
        ensures
            *final(self) == (SceneNav {
                overlay: Overlay::ContextMenu { target, just_opened: true },
                ..*old(self)
            }),
    {
        self.overlay = Overlay::ContextMenu { target, just_opened: true };
    }

    /// Places the cursor on a frame, in navigation mode, with that frame alone selected.
    pub fn navigate_to_frame(&mut self, pos: (usize, usize), connected: bool, out: &mut Vec<SceneCommand>)
        ensures
            final(self).wf(),
            nav_navigated(*old(self), *final(self), pos),
            final(out)@ == old(out)@ + cursor_report(pos, connected),
    {
        if let Some(edit) = &self.sequencer_inline_edit {
            if edit.target.0 != pos.0 || edit.target.1 != pos.1 {
                self.clear_sequencer_inline_edit();
            }
        }
        if let Some(li) = self.sequencer_line_speed_focus {
            if li != pos.0 {
                self.clear_sequencer_line_speed_focus();
            }
        }
        self.state = SceneState::NavigatingFrame { cursor: pos };
        self.selection = Vec::new();
        self.selection.push(pos);
        self.anchor = Some(pos);
        self.scroll_to_cursor = true;
        if connected {
            out.push(SceneCommand::CursorPosition { line: pos.0, frame: pos.1 });
        }
        proof {
            assert(self.selection@ =~= seq![pos]);
            assert(out@ =~= old(out)@ + cursor_report(pos, connected));
        }
    }

    /// Moves the cursor without touching the selection.
    pub fn move_cursor(&mut self, pos: (usize, usize), connected: bool, out: &mut Vec<SceneCommand>)
        ensures
            nav_moved(*old(self), *final(self), pos),
            final(out)@ == old(out)@ + cursor_report(pos, connected),
    {
        if let Some(edit) = &self.sequencer_inline_edit {
            if edit.target.0 != pos.0 || edit.target.1 != pos.1 {
                self.clear_sequencer_inline_edit();
            }
        }
        match self.state {
            SceneState::EditingFrame { .. } => {
                self.state = SceneState::EditingFrame { cursor: pos };
            },
            _ => {
                self.state = SceneState::NavigatingFrame { cursor: pos };
            },
        }
        self.scroll_to_cursor = true;
        if connected {
            out.push(SceneCommand::CursorPosition { line: pos.0, frame: pos.1 });
        }
        proof {
            assert(out@ =~= old(out)@ + cursor_report(pos, connected));
        }
    }

    /// Selects prelude script `index`.
    pub fn navigate_to_prelude(&mut self, index: usize)
        ensures
            final(self).wf(),
            nav_prelude(*old(self), *final(self), index),
    {
        self.clear_sequencer_inline_edit();
        self.clear_sequencer_line_speed_focus();
        self.state = SceneState::NavigatingPrelude { index };
        self.selection = Vec::new();
        self.anchor = None;
    }

    /// Enters edit mode on the frame at `pos`.
    pub fn enter_frame_edit(&mut self, pos: (usize, usize), out: &mut Vec<SceneCommand>)
        ensures
            final(self).wf(),
            nav_frame_edit(*old(self), *final(self), pos),
            final(out)@ == old(out)@.push(SceneCommand::FocusFrameEditor { line: pos.0, frame: pos.1 }),
    {
        self.clear_sequencer_inline_edit();
        self.clear_sequencer_line_speed_focus();
        self.state = SceneState::EditingFrame { cursor: pos };
        self.selection = Vec::new();
        self.selection.push(pos);
        self.anchor = Some(pos);
        out.push(SceneCommand::FocusFrameEditor { line: pos.0, frame: pos.1 });
        proof {
            assert(self.selection@ =~= seq![pos]);
        }
    }

    /// Enters edit mode on prelude script `index`.
    pub fn enter_prelude_edit(&mut self, index: usize, out: &mut Vec<SceneCommand>)
        ensures
            nav_prelude_edit(*old(self), *final(self), index),
            final(out)@ == old(out)@.push(SceneCommand::FocusPreludeEditor { index }),
    {
        self.clear_sequencer_inline_edit();
        self.clear_sequencer_line_speed_focus();
        self.state = SceneState::EditingPrelude { index };
        out.push(SceneCommand::FocusPreludeEditor { index });
    }

    /// Leaves edit mode for navigation on the same frame or prelude script.
    pub fn exit_edit_mode(&mut self, out: &mut Vec<SceneCommand>)
        requires
            old(self).wf(),
        ensures
            final(self).wf(),
            final(out)@ == old(out)@.push(SceneCommand::CloseLangPickers),
            left_edit(*old(self), *final(self)),
    {
        self.clear_sequencer_inline_edit();
        self.clear_sequencer_line_speed_focus();
        self.open_picker_on_cursor = false;
        out.push(SceneCommand::CloseLangPickers);
        match self.state {
            SceneState::EditingFrame { cursor } => {
                self.state = SceneState::NavigatingFrame { cursor };
                self.selection = Vec::new();
                self.selection.push(cursor);
                self.anchor = Some(cursor);
                self.scroll_to_cursor = true;
                proof {
                    assert(self.selection@ =~= seq![cursor]);
                }
            },
            SceneState::EditingPrelude { index } => {
                self.state = SceneState::NavigatingPrelude { index };
            },
            _ => {},
        }
    }

    /// Stack view only: makes the frame at `pos` fill the panel.
    pub fn enter_focus_mode(&mut self, pos: (usize, usize))
        ensures
            nav_focused(*old(self), *final(self), pos),
    {
        self.clear_sequencer_inline_edit();
        self.clear_sequencer_line_speed_focus();
        self.state = SceneState::FocusedFrame { frame: pos };
    }

    /// Leaves focus mode for navigation on the focused frame.
    pub fn exit_focus_mode(&mut self, connected: bool, out: &mut Vec<SceneCommand>)
        requires
            old(self).wf(),
        ensures
            final(self).wf(),
            match old(self).state {
                SceneState::FocusedFrame { frame } => {
                    &&& nav_navigated(
                        SceneNav {
                            sequencer_inline_edit: None,
                            sequencer_line_speed_focus: None,
                            ..*old(self)
                        },
                        *final(self),
                        frame,
                    )
                    &&& final(out)@ == old(out)@ + cursor_report(frame, connected)
                },
                _ => {
                    &&& *final(self) == (SceneNav {
                        sequencer_inline_edit: None,
                        sequencer_line_speed_focus: None,
                        ..*old(self)
                    })
                    &&& final(out)@ == old(out)@
                },
            },
    {
        self.clear_sequencer_inline_edit();
        self.clear_sequencer_line_speed_focus();
        if let SceneState::FocusedFrame { frame } = self.state {
            self.navigate_to_frame(frame, connected, out);
        }
    }

    /// Returns to the empty state, with nothing selected.
    pub fn deselect_all(&mut self)
        ensures
            final(self).wf(),
            nav_deselected(*old(self), *final(self)),
    {
        self.clear_sequencer_inline_edit();
        self.clear_sequencer_line_speed_focus();
        self.state = SceneState::Empty;
        self.selection = Vec::new();
        self.anchor = None;
    }

    /// Asks to confirm removing line `li`.
    pub fn request_remove_line(&mut self, li: usize, out: &mut Vec<SceneCommand>)
        ensures
            *final(self) == (SceneNav {
                overlay: Overlay::ConfirmDialog { action: PendingDestructive::RemoveLine(li) },
                ..*old(self)
            }),
            final(out)@ == old(out)@.push(SceneCommand::ConfirmRemoveLine { line: li }),
    {
        self.overlay = Overlay::ConfirmDialog { action: PendingDestructive::RemoveLine(li) };
        out.push(SceneCommand::ConfirmRemoveLine { line: li });
    }

    /// Asks to confirm removing `frames`.
    pub fn request_remove_frames(&mut self, frames: Vec<(usize, usize)>, out: &mut Vec<SceneCommand>)
        ensures
            final(self).overlay matches Overlay::ConfirmDialog {
                action: PendingDestructive::RemoveFrames(f),
            } && f@ == frames@,
            *final(self) == (SceneNav { overlay: final(self).overlay, ..*old(self) }),
            final(out)@ == old(out)@.push(
                SceneCommand::ConfirmRemoveFrames { count: frames@.len() as usize },
            ),
    {
        let count = frames.len();
        self.overlay = Overlay::ConfirmDialog { action: PendingDestructive::RemoveFrames(frames) };
        out.push(SceneCommand::ConfirmRemoveFrames { count });
    }

    /// Which handler owns the keyboard: an open overlay first, then an open language picker,
    /// then a focused widget or inline edit, then the editors, else navigation.
    pub fn active_keyboard_context(&self, any_lang_picker_open: bool, widget_focused: bool) -> (r:
        KeyboardContext)
        ensures
            r == if !(self.overlay is Hidden) {
                KeyboardContext::Overlay
            } else if any_lang_picker_open {
                KeyboardContext::LangPicker
            } else if self.sequencer_inline_edit is Some || self.sequencer_line_speed_focus is Some
                || widget_focused {
                KeyboardContext::WidgetFocused
            } else if self.state is EditingFrame || self.state is EditingPrelude {
                KeyboardContext::Editing
            } else {
                KeyboardContext::Navigating
            },
    {
        if matches!(self.overlay, Overlay::ConfirmDialog { .. } | Overlay::ContextMenu { .. }) {
            return KeyboardContext::Overlay;
        }
        if any_lang_picker_open {
            return KeyboardContext::LangPicker;
        }
        if self.sequencer_inline_edit.is_some() || self.sequencer_line_speed_focus.is_some() {
            return KeyboardContext::WidgetFocused;
        }
        if widget_focused {
            return KeyboardContext::WidgetFocused;
        }
        if self.state.is_editing() {
            return KeyboardContext::Editing;
        }
        KeyboardContext::Navigating
    }
}


/// Number of frames of line `li` (0 for a line that does not exist).
pub open spec fn line_len(sh: SceneShape, li: int) -> int {
    if 0 <= li < sh.lines@.len() {
        sh.lines@[li]@.len() as int
    } else {
        0
    }
}

/// The scene has a frame at `pos`.
pub open spec fn has_frame(sh: SceneShape, pos: (usize, usize)) -> bool {
    pos.0 < sh.lines@.len() && pos.1 < sh.lines@[pos.0 as int]@.len()
}

/// The first `k` in `lo..hi` with `p(k)`.
pub open spec fn find_up(p: spec_fn(int) -> bool, lo: int, hi: int) -> Option<int>
    decreases hi - lo,
{
    if lo >= hi {
        None
    } else if p(lo) {
        Some(lo)
    } else {
        find_up(p, lo + 1, hi)
    }
}

/// The last `k` in `lo..hi` with `p(k)`.
pub open spec fn find_down(p: spec_fn(int) -> bool, lo: int, hi: int) -> Option<int>
    decreases hi - lo,
{
    if lo >= hi {
        None
    } else if p(hi - 1) {
        Some(hi - 1)
    } else {
        find_down(p, lo, hi - 1)
    }
}

/// The positions (line `li`, frames `a..=b`).
pub open spec fn range_sel(li: usize, a: usize, b: usize) -> Seq<(usize, usize)> {
    Seq::new((b - a + 1) as nat, |k: int| (li, (a + k) as usize))
}

/// How many entries of `r` lie on line `li` before frame `fi`.
pub open spec fn count_before(r: Seq<(usize, usize)>, li: usize, fi: usize) -> nat
    decreases r.len(),
{
    if r.len() == 0 {
        0
    } else {
        count_before(r.drop_last(), li, fi) + if r.last().0 == li && r.last().1 < fi {
            1nat
        } else {
            0nat
        }
    }
}

/// Where frame (li, fi) ends up once the frames `r` before it on its line are gone.
pub open spec fn translate(r: Seq<(usize, usize)>, li: usize, fi: usize) -> (usize, usize) {
    (li, if count_before(r, li, fi) <= fi { (fi - count_before(r, li, fi)) as usize } else { 0 })
}

/// Frame `fi` of line `li` is not among the removed ones.
pub open spec fn kept(r: Seq<(usize, usize)>, li: int) -> spec_fn(int) -> bool {
    |fi: int| !r.contains((li as usize, fi as usize))
}

/// The first frame of line `li` that is not removed.
pub open spec fn first_remaining(sh: SceneShape, r: Seq<(usize, usize)>, li: int) -> Option<int> {
    find_up(kept(r, li), 0, line_len(sh, li))
}

/// Where the cursor goes after the frames `r` are removed: the nearest remaining frame of
/// the preferred line (the cursor's, else that of the first removed frame), first forward
/// then backward; else the first remaining frame of a following line, then of a previous
/// line; translated to account for the removed frames before it.
pub open spec fn next_after_removal(st: SceneState, sh: SceneShape, r: Seq<(usize, usize)>) -> Option<
    (usize, usize),
> {
    let p = match state_cursor(st) {
        Some(c) => c,
        None => if r.len() > 0 {
            r[0]
        } else {
            (0, 0)
        },
    };
    let li = p.0 as int;
    let nl = sh.lines@.len() as int;
    let up = find_up(kept(r, li), p.1 as int, line_len(sh, li));
    let down = find_down(kept(r, li), 0, p.1 as int);
    let later = find_up(|l: int| first_remaining(sh, r, l) is Some, li + 1, nl);
    let earlier = find_down(|l: int| first_remaining(sh, r, l) is Some, 0, li);
    if li < nl && up is Some {
        Some(translate(r, p.0, up->0 as usize))
    } else if li < nl && down is Some {
        Some(translate(r, p.0, down->0 as usize))
    } else if later is Some {
        let l = later->0;
        Some(translate(r, l as usize, first_remaining(sh, r, l)->0 as usize))
    } else if earlier is Some {
        let l = earlier->0;
        Some(translate(r, l as usize, first_remaining(sh, r, l)->0 as usize))
    } else {
        None
    }
}

proof fn lemma_find_up(p: spec_fn(int) -> bool, lo: int, hi: int)
    ensures
        match find_up(p, lo, hi) {
            Some(x) => lo <= x < hi && p(x) && forall|y: int| lo <= y < x ==> !#[trigger] p(y),
            None => forall|y: int| lo <= y < hi ==> !#[trigger] p(y),
        },
    decreases hi - lo,
{
    if lo < hi && !p(lo) {
        lemma_find_up(p, lo + 1, hi);
    }
}

proof fn lemma_find_down(p: spec_fn(int) -> bool, lo: int, hi: int)
    ensures
        match find_down(p, lo, hi) {
            Some(x) => lo <= x < hi && p(x) && forall|y: int| x < y < hi ==> !#[trigger] p(y),
            None => forall|y: int| lo <= y < hi ==> !#[trigger] p(y),
        },
    decreases hi - lo,
{
    if lo < hi && !p(hi - 1) {
        lemma_find_down(p, lo, hi - 1);
    }
}

/// The place the cursor is preferred near once frames `r` are removed: the cursor, else the
/// first removed frame.
pub open spec fn preferred_pos(st: SceneState, r: Seq<(usize, usize)>) -> (usize, usize) {
    match state_cursor(st) {
        Some(c) => c,
        None => if r.len() > 0 {
            r[0]
        } else {
            (0, 0)
        },
    }
}

/// Frame `f` of line `l` is among the removed frames `r`.
pub open spec fn removed_at(r: Seq<(usize, usize)>, l: int, f: int) -> bool {
    r.contains((l as usize, f as usize))
}

/// Where the cursor goes once the frames `r` are removed, with `p` the preferred place (the
/// cursor, else the first removed frame). When the preferred line still has a frame left,
/// the cursor stays on that line: on the nearest remaining frame at or after `p` if there
/// is one, else on the nearest frame before `p` that is not removed; renumbered for the
/// removed frames before it. Nothing is chosen only when no frame of the scene is left; and
/// when none is left, nothing is chosen unless the preferred frame lay past its line's end.
pub proof fn lemma_next_after_removal(st: SceneState, sh: SceneShape, r: Seq<(usize, usize)>)
    ensures
        ({
            let p = preferred_pos(st, r);
            let li = p.0 as int;
            (li < sh.lines@.len() && exists|f: int|
                0 <= f < line_len(sh, li) && !#[trigger] removed_at(r, li, f)) ==> exists|g: int|
                {
                    &&& 0 <= g
                    &&& !#[trigger] removed_at(r, li, g)
                    &&& next_after_removal(st, sh, r) == Some(translate(r, p.0, g as usize))
                    &&& if exists|f: int|
                        p.1 <= f < line_len(sh, li) && !#[trigger] removed_at(r, li, f) {
                        &&& p.1 <= g < line_len(sh, li)
                        &&& forall|f: int| p.1 <= f < g ==> #[trigger] removed_at(r, li, f)
                    } else {
                        &&& g < p.1
                        &&& forall|f: int| g < f < p.1 ==> #[trigger] removed_at(r, li, f)
                    }
                }
        }),
        next_after_removal(st, sh, r) is None ==> forall|l: int, f: int|
            0 <= l < sh.lines@.len() && 0 <= f < line_len(sh, l) ==> #[trigger] removed_at(r, l, f),
        (forall|l: int, f: int|
            0 <= l < sh.lines@.len() && 0 <= f < line_len(sh, l) ==> #[trigger] removed_at(r, l, f))
            && (preferred_pos(st, r).0 >= sh.lines@.len() || preferred_pos(st, r).1 <= line_len(
            sh,
            preferred_pos(st, r).0 as int,
        )) ==> next_after_removal(st, sh, r) is None,
{
    let p = match state_cursor(st) {
        Some(c) => c,
        None => if r.len() > 0 {
            r[0]
        } else {
            (0, 0)
        },
    };
    let li = p.0 as int;
    let nl = sh.lines@.len() as int;
    let len = line_len(sh, li);
    let k = kept(r, li);
    assert forall|f: int| #[trigger] k(f) == !removed_at(r, li, f) by {}
    lemma_find_up(k, p.1 as int, len);
    lemma_find_down(k, 0, p.1 as int);
    let has_rem = |l: int| first_remaining(sh, r, l) is Some;
    lemma_find_up(has_rem, li + 1, nl);
    lemma_find_down(has_rem, 0, li);
    assert forall|l: int| 0 <= l < nl && !#[trigger] has_rem(l) implies forall|f: int|
        0 <= f < line_len(sh, l) ==> #[trigger] removed_at(r, l, f) by {
        let kl = kept(r, l);
        lemma_find_up(kl, 0, line_len(sh, l));
        assert forall|f: int| 0 <= f < line_len(sh, l) implies #[trigger] removed_at(r, l, f) by {
            assert(!kl(f));
        }
    }
    assert forall|l: int| 0 <= l < nl && #[trigger] has_rem(l) implies exists|f: int|
        0 <= f < line_len(sh, l) && !#[trigger] removed_at(r, l, f) by {
        let kl = kept(r, l);
        lemma_find_up(kl, 0, line_len(sh, l));
        let f = first_remaining(sh, r, l)->0;
        assert(kl(f));
        assert(0 <= f < line_len(sh, l) && !removed_at(r, l, f));
    }
    assert forall|l: int| nl <= l && !(0 <= l < nl) implies !#[trigger] has_rem(l) by {
        assert(line_len(sh, l) == 0);
    }
    let res = next_after_removal(st, sh, r);
    if li < nl && exists|f: int| 0 <= f < len && !#[trigger] removed_at(r, li, f) {
        let f0 = choose|f: int| 0 <= f < len && !#[trigger] removed_at(r, li, f);
        if exists|f: int| p.1 <= f < len && !#[trigger] removed_at(r, li, f) {
            let f1 = choose|f: int| p.1 <= f < len && !#[trigger] removed_at(r, li, f);
            assert(k(f1));
            let g = find_up(k, p.1 as int, len)->0;
            assert(!removed_at(r, li, g));
            assert(res == Some(translate(r, p.0, g as usize)));
            assert forall|f: int| p.1 <= f < g implies #[trigger] removed_at(r, li, f) by {
                assert(!k(f));
            }
        } else {
            if find_up(k, p.1 as int, len) is Some {
                let g = find_up(k, p.1 as int, len)->0;
                assert(!removed_at(r, li, g));
            }
            assert(k(f0));
            assert(f0 < p.1);
            let g = find_down(k, 0, p.1 as int)->0;
            assert(!removed_at(r, li, g));
            assert(res == Some(translate(r, p.0, g as usize)));
            assert forall|f: int| g < f < p.1 implies #[trigger] removed_at(r, li, f) by {
                assert(!k(f));
            }
        }
    }
    if res is None {
        assert forall|l: int, f: int| 0 <= l < nl && 0 <= f < line_len(sh, l) implies #[trigger] removed_at(
            r,
            l,
            f,
        ) by {
            if l > li {
                assert(!has_rem(l));
            } else if l < li {
                assert(!has_rem(l));
            } else {
                if !removed_at(r, l, f) {
                    assert(k(f));
                }
            }
        }
    }
    if (forall|l: int, f: int|
        0 <= l < nl && 0 <= f < line_len(sh, l) ==> #[trigger] removed_at(r, l, f)) && (li >= nl
        || p.1 <= len) {
        assert forall|l: int| 0 <= l < nl implies !#[trigger] has_rem(l) by {
            if has_rem(l) {
                let f = choose|f: int| 0 <= f < line_len(sh, l) && !#[trigger] removed_at(r, l, f);
            }
        }
        assert(find_up(has_rem, li + 1, nl) is None);
        assert(find_down(has_rem, 0, li) is None) by {
            if find_down(has_rem, 0, li) is Some {
                let x = find_down(has_rem, 0, li)->0;
                assert(has_rem(x));
            }
        }
        if li < nl {
            assert forall|f: int| 0 <= f < len implies !#[trigger] k(f) by {
                assert(removed_at(r, li, f));
            }
            assert(find_up(k, p.1 as int, len) is None);
            assert(find_down(k, 0, p.1 as int) is None) by {
                if find_down(k, 0, p.1 as int) is Some {
                    let x = find_down(k, 0, p.1 as int)->0;
                    assert(k(x));
                    assert(removed_at(r, li, x));
                }
            }
        }
    }
}

/// Where the cursor goes after line `removed` is removed: the first frame of the next
/// non-empty line (which moves up by one), else of the previous non-empty line.
pub open spec fn next_after_line_removal(sh: SceneShape, removed: int) -> Option<(usize, usize)> {
    let nl = sh.lines@.len() as int;
    let nonempty = |l: int| line_len(sh, l) > 0;
    let later = find_up(nonempty, removed + 1, nl);
    let earlier = find_down(nonempty, 0, removed);
    if later is Some {
        Some(((later->0 - 1) as usize, 0))
    } else if earlier is Some {
        Some((earlier->0 as usize, 0))
    } else {
        None
    }
}

fn contains_pos(r: &[(usize, usize)], p: (usize, usize)) -> (b: bool)
    ensures
        b == r@.contains(p),
{
    let mut i: usize = 0;
    while i < r.len()
        invariant
            i <= r@.len(),
            forall|k: int| 0 <= k < i ==> r@[k] != p,
        decreases r@.len() - i,
    {
        if r[i].0 == p.0 && r[i].1 == p.1 {
            proof {
                assert(r@[i as int] == p);
            }
            return true;
        }
        i += 1;
    }
    false
}

fn count_removed_before(r: &[(usize, usize)], li: usize, fi: usize) -> (n: usize)
    ensures
        n == count_before(r@, li, fi),
{
    let mut n: usize = 0;
    let mut i: usize = 0;
    while i < r.len()
        invariant
            i <= r@.len(),
            n == count_before(r@.take(i as int), li, fi),
            n <= i,
        decreases r@.len() - i,
    {
        proof {
            assert(r@.take(i as int + 1).drop_last() =~= r@.take(i as int));
        }
        if r[i].0 == li && r[i].1 < fi {
            n += 1;
        }
        i += 1;
    }
    proof {
        assert(r@.take(i as int) =~= r@);
    }
    n
}

fn translate_exec(r: &[(usize, usize)], li: usize, fi: usize) -> (t: (usize, usize))
    ensures
        t == translate(r@, li, fi),
{
    let n = count_removed_before(r, li, fi);
    (li, fi.saturating_sub(n))
}

impl SceneShape {
    /// The text an inline edit of `field` on tile (li, fi) starts from (see [`prefill`]).
    pub fn prefill_text(&self, li: usize, fi: usize, field: SequencerInlineField) -> (r: String)
        ensures
            r@ == prefill(*self, li, fi, field),
    {
        if li < self.tiles.len() && fi < self.tiles[li].len() {
            let t = &self.tiles[li][fi];
            match field {
                SequencerInlineField::Duration => t.duration.clone(),
                SequencerInlineField::Repetitions => decimal_string(t.repetitions),
            }
        } else {
            String::new()
        }
    }

    /// Number of frames of line `li` (0 for a line that does not exist).
    pub fn line_len(&self, li: usize) -> (n: usize)
        ensures
            n == line_len(*self, li as int),
    {
        if li < self.lines.len() {
            self.lines[li].len()
        } else {
            0
        }
    }
}

/// The first frame of line `li` that is not among `removed`.
pub fn first_remaining_frame_in_line(scene: &SceneShape, li: usize, removed: &[(usize, usize)]) -> (r:
    Option<(usize, usize)>)
    ensures
        r == match first_remaining(*scene, removed@, li as int) {
            Some(f) => Some((li, f as usize)),
            None => None,
        },
{
    let n = scene.line_len(li);
    let mut f: usize = 0;
    while f < n
        invariant
            n == line_len(*scene, li as int),
            f <= n,
            find_up(kept(removed@, li as int), 0, n as int) == find_up(
                kept(removed@, li as int),
                f as int,
                n as int,
            ),
        decreases n - f,
    {
        if !contains_pos(removed, (li, f)) {
            return Some((li, f));
        }
        f += 1;
    }
    None
}

impl SceneNav {
    /// Where the cursor should go once the frames `removed` are gone (see
    /// [`next_after_removal`]).
    #[verifier::loop_isolation(false)]
    pub fn next_frame_after_removal(&self, scene: &SceneShape, removed: &[(usize, usize)]) -> (r:
        Option<(usize, usize)>)
        ensures
            r == next_after_removal(self.state, *scene, removed@),
    {
        let preferred = match self.state.cursor() {
            Some(c) => c,
            None => if removed.len() > 0 {
                removed[0]
            } else {
                (0, 0)
            },
        };
        let ghost li = preferred.0 as int;
        let nl = scene.lines.len();
        if preferred.0 < nl {
            let len = scene.line_len(preferred.0);
            let mut f = preferred.1;
            while f < len
                invariant
                    len == line_len(*scene, li),
                    preferred.1 <= f,
                    find_up(kept(removed@, li), preferred.1 as int, len as int) == find_up(
                        kept(removed@, li),
                        f as int,
                        len as int,
                    ),
                decreases len - f,
            {
                let c = contains_pos(removed, (preferred.0, f));
                proof {
                    assert(kept(removed@, li)(f as int) == !c);
                    assert(find_up(kept(removed@, li), f as int, len as int) == if !c {
                        Some(f as int)
                    } else {
                        find_up(kept(removed@, li), f as int + 1, len as int)
                    });
                }
                if !c {
                    return Some(translate_exec(removed, preferred.0, f));
                }
                f += 1;
            }
            let mut f = preferred.1;
            while f > 0
                invariant
                    f <= preferred.1,
                    find_down(kept(removed@, li), 0, preferred.1 as int) == find_down(
                        kept(removed@, li),
                        0,
                        f as int,
                    ),
                decreases f,
            {
                let c = contains_pos(removed, (preferred.0, f - 1));
                proof {
                    assert(kept(removed@, li)(f - 1) == !c);
                    assert(find_down(kept(removed@, li), 0, f as int) == if !c {
                        Some(f - 1)
                    } else {
                        find_down(kept(removed@, li), 0, f - 1)
                    });
                }
                if !c {
                    return Some(translate_exec(removed, preferred.0, f - 1));
                }
                f -= 1;
            }
        }
        let ghost later_p = |l: int| first_remaining(*scene, removed@, l) is Some;
        if preferred.0 < nl {
            let mut l = preferred.0 + 1;
            while l < nl
                invariant
                    preferred.0 < l <= nl,
                    nl == scene.lines@.len(),
                    find_up(later_p, li + 1, nl as int) == find_up(later_p, l as int, nl as int),
                    later_p == (|l: int| first_remaining(*scene, removed@, l) is Some),
                decreases nl - l,
            {
                let fr = first_remaining_frame_in_line(scene, l, removed);
                proof {
                    assert(later_p(l as int) == fr is Some);
                    assert(find_up(later_p, l as int, nl as int) == if fr is Some {
                        Some(l as int)
                    } else {
                        find_up(later_p, l as int + 1, nl as int)
                    });
                }
                if let Some(pos) = fr {
                    return Some(translate_exec(removed, pos.0, pos.1));
                }
                l += 1;
            }
        } else {
            proof {
                assert(find_up(later_p, li + 1, nl as int) is None);
            }
        }
        let mut l = preferred.0;
        while l > 0
            invariant
                l <= preferred.0,
                find_down(later_p, 0, li) == find_down(later_p, 0, l as int),
                later_p == (|l: int| first_remaining(*scene, removed@, l) is Some),
            decreases l,
        {
            let fr = first_remaining_frame_in_line(scene, l - 1, removed);
            proof {
                assert(later_p(l - 1) == fr is Some);
                assert(find_down(later_p, 0, l as int) == if fr is Some {
                    Some(l - 1)
                } else {
                    find_down(later_p, 0, l - 1)
                });
            }
            if let Some(pos) = fr {
                return Some(translate_exec(removed, pos.0, pos.1));
            }
            l -= 1;
        }
        None
    }

    /// Where the cursor should go once line `removed_li` is gone (see
    /// [`next_after_line_removal`]).
    #[verifier::loop_isolation(false)]
    pub fn next_frame_after_line_removal(&self, scene: &SceneShape, removed_li: usize) -> (r: Option<
        (usize, usize),
    >)
        requires
            removed_li < usize::MAX,
        ensures
            r == next_after_line_removal(*scene, removed_li as int),
    {
        let ghost nonempty = |l: int| line_len(*scene, l) > 0;
        let nl = scene.lines.len();
        let mut l = removed_li + 1;
        while l < nl
            invariant
                removed_li < l,
                nl == scene.lines@.len(),
                nonempty == (|l: int| line_len(*scene, l) > 0),
                find_up(nonempty, removed_li + 1, nl as int) == find_up(nonempty, l as int, nl as int),
            decreases nl - l,
        {
            let n = scene.line_len(l);
            proof {
                assert(nonempty(l as int) == (n > 0));
                assert(find_up(nonempty, l as int, nl as int) == if n > 0 {
                    Some(l as int)
                } else {
                    find_up(nonempty, l as int + 1, nl as int)
                });
            }
            if n > 0 {
                return Some((l - 1, 0));
            }
            l += 1;
        }
        let mut l = removed_li;
        while l > 0
            invariant
                l <= removed_li,
                nonempty == (|l: int| line_len(*scene, l) > 0),
                find_down(nonempty, 0, removed_li as int) == find_down(nonempty, 0, l as int),
            decreases l,
        {
            let n = scene.line_len(l - 1);
            proof {
                assert(nonempty(l - 1) == (n > 0));
                assert(find_down(nonempty, 0, l as int) == if n > 0 {
                    Some(l - 1)
                } else {
                    find_down(nonempty, 0, l - 1)
                });
            }
            if n > 0 {
                return Some((l - 1, 0));
            }
            l -= 1;
        }
        None
    }
}


/// The (frame, enabled) updates that toggle a whole line: when every frame is disabled they
/// all get enabled; otherwise the enabled ones get disabled.
pub open spec fn enable_updates(line: Seq<bool>, target: bool) -> Seq<(usize, bool)>
    decreases line.len(),
{
    if line.len() == 0 {
        Seq::empty()
    } else {
        enable_updates(line.drop_last(), target) + if line.last() != target {
            seq![((line.len() - 1) as usize, target)]
        } else {
            Seq::empty()
        }
    }
}

pub open spec fn all_disabled(line: Seq<bool>) -> bool {
    forall|i: int| 0 <= i < line.len() ==> !line[i]
}

/// The updates [`SceneNav::toggle_line_enabled`] sends for a line.
pub fn line_enable_updates(line: &Vec<bool>) -> (r: Vec<(usize, bool)>)
    ensures
        r@ == enable_updates(line@, all_disabled(line@)),
{
    if line.len() == 0 {
        return Vec::new();
    }
    let mut target = true;
    let mut i: usize = 0;
    while i < line.len()
        invariant
            i <= line@.len(),
            target == (forall|k: int| 0 <= k < i ==> !line@[k]),
        decreases line@.len() - i,
    {
        if line[i] {
            target = false;
        }
        i += 1;
    }
    let mut out: Vec<(usize, bool)> = Vec::new();
    let mut j: usize = 0;
    while j < line.len()
        invariant
            j <= line@.len(),
            target == all_disabled(line@),
            out@ == enable_updates(line@.take(j as int), target),
        decreases line@.len() - j,
    {
        proof {
            assert(line@.take(j as int + 1).drop_last() =~= line@.take(j as int));
        }
        if line[j] != target {
            out.push((j, target));
            proof {
                assert(out@ =~= enable_updates(line@.take(j as int), target) + seq![(j, target)]);
            }
        } else {
            proof {
                assert(out@ =~= enable_updates(line@.take(j as int), target) + Seq::<
                    (usize, bool),
                >::empty());
            }
        }
        j += 1;
    }
    proof {
        assert(line@.take(j as int) =~= line@);
    }
    out
}

/// The selected positions where the scene has a frame, in selection order.
pub open spec fn existing(sel: Seq<(usize, usize)>, sh: SceneShape) -> Seq<(usize, usize)> {
    sel.filter(|p: (usize, usize)| has_frame(sh, p))
}

/// The commands that put the frames at `ps` on the clipboard.
pub open spec fn clipboard_copy(ps: Seq<(usize, usize)>) -> Seq<SceneCommand> {
    seq![SceneCommand::ClearClipboard] + ps.map_values(
        |p: (usize, usize)| SceneCommand::CopyToClipboard { line: p.0, frame: p.1 },
    )
}

/// Inserts `x` into `t` after every position whose frame index is at least that of `x`,
/// looking from the back.
pub open spec fn insert_frame_desc(t: Seq<(usize, usize)>, x: (usize, usize)) -> Seq<(usize, usize)>
    decreases t.len(),
{
    if t.len() == 0 || t.last().1 >= x.1 {
        t.push(x)
    } else {
        insert_frame_desc(t.drop_last(), x).push(t.last())
    }
}

/// `s` sorted by decreasing frame index, equal ones keeping their order.
pub open spec fn sort_frame_desc(s: Seq<(usize, usize)>) -> Seq<(usize, usize)>
    decreases s.len(),
{
    if s.len() == 0 {
        Seq::empty()
    } else {
        insert_frame_desc(sort_frame_desc(s.drop_last()), s.last())
    }
}

proof fn lemma_insert_frame_split(t: Seq<(usize, usize)>, x: (usize, usize), j: int)
    requires
        0 <= j <= t.len(),
        forall|i: int| j <= i < t.len() ==> #[trigger] t[i].1 < x.1,
    ensures
        insert_frame_desc(t, x) == insert_frame_desc(t.take(j), x) + t.skip(j),
    decreases t.len() - j,
{
    if j < t.len() {
        let dl = t.drop_last();
        lemma_insert_frame_split(dl, x, j);
        assert(dl.take(j) =~= t.take(j));
        assert(t.skip(j) =~= dl.skip(j).push(t.last()));
        assert(insert_frame_desc(t, x) =~= insert_frame_desc(t.take(j), x) + t.skip(j));
    } else {
        assert(t.take(j) =~= t);
        assert(insert_frame_desc(t, x) + t.skip(j) =~= insert_frame_desc(t, x));
    }
}

/// `s` sorted by decreasing frame index, keeping the order of equal ones (see
/// [`sort_frame_desc`]).
fn sort_by_frame_desc(s: &Vec<(usize, usize)>) -> (r: Vec<(usize, usize)>)
    ensures
        r@ == sort_frame_desc(s@),
{
    let mut out: Vec<(usize, usize)> = Vec::new();
    let mut k: usize = 0;
    while k < s.len()
        invariant
            k <= s@.len(),
            out@ == sort_frame_desc(s@.take(k as int)),
        decreases s@.len() - k,
    {
        proof {
            assert(s@.take(k as int + 1).drop_last() =~= s@.take(k as int));
        }
        let x = s[k];
        let ghost t = out@;
        let mut j = out.len();
        while j > 0 && out[j - 1].1 < x.1
            invariant
                j <= out@.len(),
                out@ == t,
                forall|i: int| j <= i < t.len() ==> #[trigger] t[i].1 < x.1,
            decreases j,
        {
            j -= 1;
        }
        proof {
            lemma_insert_frame_split(t, x, j as int);
            if j > 0 {
                assert(t.take(j as int).last() == t[j - 1]);
            }
            assert(insert_frame_desc(t.take(j as int), x) == t.take(j as int).push(x));
        }
        out.insert(j, x);
        proof {
            assert(out@ =~= t.take(j as int).push(x) + t.skip(j as int));
        }
        k += 1;
    }
    proof {
        assert(s@.take(k as int) =~= s@);
    }
    out
}

/// Inserts `x` into a set kept as an increasing sequence.
fn insert_sorted(v: &mut Vec<(usize, usize)>, x: (usize, usize))
    requires
        sorted_set(old(v)@),
    ensures
        sorted_set(final(v)@),
        final(v)@.to_set() == old(v)@.to_set().insert(x),
{
    let mut j: usize = 0;
    while j < v.len() && (v[j].0 < x.0 || (v[j].0 == x.0 && v[j].1 < x.1))
        invariant
            j <= v@.len(),
            v@ == old(v)@,
            sorted_set(v@),
            forall|i: int| 0 <= i < j ==> pos_lt(#[trigger] v@[i], x),
        decreases v@.len() - j,
    {
        j += 1;
    }
    if j < v.len() && v[j].0 == x.0 && v[j].1 == x.1 {
        proof {
            assert(v@[j as int] == x);
            assert(v@.to_set() =~= v@.to_set().insert(x));
        }
        return;
    }
    let ghost t = v@;
    v.insert(j, x);
    proof {
        assert(v@ =~= t.take(j as int).push(x) + t.skip(j as int));
        assert forall|a: int, b: int| 0 <= a < b < v@.len() implies pos_lt(
            #[trigger] v@[a],
            #[trigger] v@[b],
        ) by {
            if b < j {
                assert(v@[a] == t[a] && v@[b] == t[b]);
            } else if b == j {
                assert(v@[a] == t[a]);
            } else if a == j {
                assert(v@[b] == t[b - 1]);
                assert(!pos_lt(t[j as int], x));
                assert(t[j as int] != x);
                if b - 1 > j {
                    assert(pos_lt(t[j as int], t[b - 1]));
                }
            } else if a < j {
                assert(v@[a] == t[a] && v@[b] == t[b - 1]);
            } else {
                assert(v@[a] == t[a - 1] && v@[b] == t[b - 1]);
            }
        }
        assert forall|y: (usize, usize)| v@.to_set().contains(y) <==> t.to_set().insert(x).contains(
            y,
        ) by {
            if v@.contains(y) {
                let k = choose|k: int| 0 <= k < v@.len() && v@[k] == y;
                if k < j {
                    assert(t[k] == y);
                } else if k > j {
                    assert(t[k - 1] == y);
                }
            }
            if t.contains(y) {
                let k = choose|k: int| 0 <= k < t.len() && t[k] == y;
                if k < j {
                    assert(v@[k] == y);
                } else {
                    assert(v@[k + 1] == y);
                }
            }
            if y == x {
                assert(v@[j as int] == x);
            }
        }
        assert(v@.to_set() =~= t.to_set().insert(x));
    }
}


/// `n` is `o` after shift-extending the selection to `target`: from the anchor to `target`
/// on the anchor's line, the navigation cursor following; nothing without an anchor on
/// that line.
pub open spec fn extended(o: SceneNav, n: SceneNav, target: (usize, usize)) -> bool {
    match o.anchor {
        Some(a) => if a.0 == target.0 {
            let lo = if a.1 <= target.1 {
                a.1
            } else {
                target.1
            };
            let hi = if a.1 <= target.1 {
                target.1
            } else {
                a.1
            };
            &&& n.selection@ == range_sel(target.0, lo, hi)
            &&& n == (SceneNav {
                selection: n.selection,
                state: if o.state is NavigatingFrame {
                    SceneState::NavigatingFrame { cursor: target }
                } else {
                    o.state
                },
                ..o
            })
        } else {
            n == o
        },
        None => n == o,
    }
}

/// The commands `after` are `before` and the one update that toggles line `li` (see
/// [`enable_updates`]), or just `before` when the line is missing or nothing changes.
pub open spec fn line_enable_sent(
    sh: SceneShape,
    li: usize,
    before: Seq<SceneCommand>,
    after: Seq<SceneCommand>,
) -> bool {
    if li < sh.lines@.len() && enable_updates(
        sh.lines@[li as int]@,
        all_disabled(sh.lines@[li as int]@),
    ).len() > 0 {
        &&& after.len() == before.len() + 1
        &&& after.take(before.len() as int) == before
        &&& after.last() matches SceneCommand::SetFramesEnabled { line, updates } && line == li
            && updates@ == enable_updates(
            sh.lines@[li as int]@,
            all_disabled(sh.lines@[li as int]@),
        )
    } else {
        after == before
    }
}

/// `n`, and the commands `after` that follow `before`, are what duplicating the selected
/// frames from `o` gives: the frames of the selection that `sh` has are copied right after
/// the last selected one, on the line of the first selected one ((li, fi) when nothing is
/// selected); the cursor moves onto the last copy and the copies become the selection.
pub open spec fn duplicated(
    o: SceneNav,
    n: SceneNav,
    li: usize,
    fi: usize,
    sh: SceneShape,
    connected: bool,
    before: Seq<SceneCommand>,
    after: Seq<SceneCommand>,
) -> bool {
    let sel = o.selection@;
    let sel_li = if sel.len() > 0 {
        sel[0].0
    } else {
        li
    };
    let last_fi = if sel.len() > 0 {
        sel.last().1
    } else {
        fi
    };
    let frames = existing(sel, sh);
    let k = frames.len();
    let newpos = (sel_li, (last_fi + k) as usize);
    &&& after == before + copy_adds(sel_li, (last_fi + 1) as usize, frames)
        + cursor_report(newpos, connected)
    &&& nav_moved_selecting(
        o,
        n,
        newpos,
        if k == 0 {
            Seq::empty()
        } else {
            range_sel(sel_li, (last_fi + 1) as usize, (last_fi + k) as usize)
        },
        Some((sel_li, (last_fi + 1) as usize)),
    )
}


/// `n`, and the commands `after` that follow `before`, are what bringing the panel back to
/// a sensible state after frames were removed gives from `o`: the edit, focus or navigation
/// state moves to `next`; with no frame left, nothing is selected.
pub open spec fn restored(
    o: SceneNav,
    n: SceneNav,
    next: Option<(usize, usize)>,
    connected: bool,
    before: Seq<SceneCommand>,
    after: Seq<SceneCommand>,
) -> bool {
    match next {
        Some(pos) => match o.state {
            SceneState::EditingFrame { .. } => nav_frame_edit(o, n, pos) && after == before.push(
                SceneCommand::FocusFrameEditor { line: pos.0, frame: pos.1 },
            ),
            SceneState::FocusedFrame { .. } => nav_focused(o, n, pos) && after == before,
            _ => nav_navigated(o, n, pos) && after == before + cursor_report(pos, connected),
        },
        None => nav_deselected(o, n) && after == before,
    }
}

/// The selection positions, with line `li` renamed `new_li`.
pub open spec fn remap_line(p: (usize, usize), li: usize, new_li: usize) -> (usize, usize) {
    if p.0 == li {
        (new_li, p.1)
    } else {
        p
    }
}

/// Moving the selected block one place later in `sh` computes no position past the machine
/// limit: the frame after the block, and, when the block moves, the cursor and the anchor
/// one place further on.
pub open spec fn later_fits(o: SceneNav, sh: SceneShape) -> bool {
    let sel = o.selection@;
    sel.len() > 0 && one_line(sel) ==> {
        &&& sel.last().1 < usize::MAX
        &&& sel.last().1 + 1 < line_len(sh, sel[0].0 as int) ==> {
            &&& (state_cursor(o.state) matches Some(c) ==> c.1 < usize::MAX)
            &&& (o.anchor matches Some(a) ==> a.1 < usize::MAX)
        }
    }
}

/// Duplicating the selection (or, with nothing selected, frame `fi`) in `sh` computes no
/// position past the machine limit: the copies go right after the last selected frame.
pub open spec fn dup_fits(o: SceneNav, fi: usize, sh: SceneShape) -> bool {
    let sel = o.selection@;
    let last_fi = if sel.len() > 0 {
        sel.last().1
    } else {
        fi
    };
    &&& last_fi < usize::MAX
    &&& last_fi + existing(sel, sh).len() <= usize::MAX
}

impl SceneNav {
    /// Puts the panel back in a sensible state after frames were removed: the edit, focus
    /// or navigation state moves to `next`; with no frame left, nothing is selected.
    pub fn restore_scene_state_after_frame_removal(
        &mut self,
        next: Option<(usize, usize)>,
        connected: bool,
        out: &mut Vec<SceneCommand>,
    )
        requires
            old(self).wf(),
        ensures
            final(self).wf(),
            restored(*old(self), *final(self), next, connected, old(out)@, final(out)@),
    {
        match next {
            Some(pos) => match self.state {
                SceneState::EditingFrame { .. } => self.enter_frame_edit(pos, out),
                SceneState::FocusedFrame { .. } => self.enter_focus_mode(pos),
                _ => self.navigate_to_frame(pos, connected, out),
            },
            None => self.deselect_all(),
        }
    }

    /// Shift-extends the selection from the anchor to `target` on the anchor's line; the
    /// navigation cursor follows. Nothing happens without an anchor on that line.
    pub fn extend_selection(&mut self, target: (usize, usize))
        requires
            old(self).wf(),
        ensures
            final(self).wf(),
            extended(*old(self), *final(self), target),
    {
        let (anchor_li, anchor_fi) = match self.anchor {
            Some(a) => a,
            None => return,
        };
        let (li, fi) = target;
        if li != anchor_li {
            return;
        }
        let start = if anchor_fi <= fi {
            anchor_fi
        } else {
            fi
        };
        let end = if anchor_fi <= fi {
            fi
        } else {
            anchor_fi
        };
        let mut sel: Vec<(usize, usize)> = Vec::new();
        sel.push((li, start));
        let mut f = start;
        while f < end
            invariant
                start <= f <= end,
                sel@ == range_sel(li, start, f),
            decreases end - f,
        {
            f += 1;
            sel.push((li, f));
            proof {
                assert(sel@ =~= range_sel(li, start, f));
            }
        }
        proof {
            assert(sel@ =~= range_sel(li, start, end));
            assert(sorted_set(sel@));
        }
        self.selection = sel;
        if let SceneState::NavigatingFrame { .. } = self.state {
            self.state = SceneState::NavigatingFrame { cursor: target };
        }
    }

    /// Drops the inline tile edit unless the sequencer still shows its tile under the cursor.
    pub fn sync_sequencer_inline_edit(&mut self, scene: &SceneShape)
        ensures
            *final(self) == (SceneNav {
                sequencer_inline_edit: match old(self).sequencer_inline_edit {
                    Some(e) => if old(self).view_mode == ViewMode::Sequencer && old(self).state
                        == (SceneState::NavigatingFrame { cursor: e.target }) && has_frame(
                        *scene,
                        e.target,
                    ) {
                        Some(e)
                    } else {
                        None
                    },
                    None => None,
                },
                ..*old(self)
            }),
    {
        let target = match &self.sequencer_inline_edit {
            Some(edit) => edit.target,
            None => return,
        };
        let on_cursor = match self.state {
            SceneState::NavigatingFrame { cursor } => cursor.0 == target.0 && cursor.1 == target.1,
            _ => false,
        };
        let keep = self.view_mode == ViewMode::Sequencer && on_cursor && target.0
            < scene.lines.len() && target.1 < scene.lines[target.0].len();
        if !keep {
            self.clear_sequencer_inline_edit();
        }
    }

    /// Drops the line speed focus unless the sequencer still shows that line.
    pub fn sync_sequencer_line_speed_focus(&mut self, scene: &SceneShape)
        ensures
            *final(self) == (SceneNav {
                sequencer_line_speed_focus: match old(self).sequencer_line_speed_focus {
                    Some(li) => if old(self).view_mode == ViewMode::Sequencer && li
                        < scene.lines@.len() {
                        Some(li)
                    } else {
                        None
                    },
                    None => None,
                },
                ..*old(self)
            }),
    {
        let li = match self.sequencer_line_speed_focus {
            Some(li) => li,
            None => return,
        };
        let keep = self.view_mode == ViewMode::Sequencer && li < scene.lines.len();
        if !keep {
            self.clear_sequencer_line_speed_focus();
        }
    }

    /// Flips the enabled flag of the frame at (li, fi), if the scene has it.
    pub fn toggle_enabled(&self, li: usize, fi: usize, scene: Option<&SceneShape>, out: &mut Vec<
        SceneCommand,
    >)
        ensures
            final(out)@ == old(out)@ + match scene {
                Some(sh) => if has_frame(*sh, (li, fi)) {
                    seq![
                        SceneCommand::SetFrameEnabled {
                            line: li,
                            index: fi,
                            enabled: !sh.lines@[li as int]@[fi as int],
                        },
                    ]
                } else {
                    Seq::empty()
                },
                None => Seq::empty(),
            },
    {
        if let Some(sh) = scene {
            if li < sh.lines.len() && fi < sh.lines[li].len() {
                let enabled = sh.lines[li][fi];
                out.push(SceneCommand::SetFrameEnabled { line: li, index: fi, enabled: !enabled });
                return;
            }
        }
        proof {
            assert(out@ =~= old(out)@ + Seq::<SceneCommand>::empty());
        }
    }

    /// Enables every frame of line `li` when all are disabled, else disables the enabled
    /// ones, in one update (nothing is sent when nothing changes).
    pub fn toggle_line_enabled(&self, li: usize, scene: Option<&SceneShape>, out: &mut Vec<
        SceneCommand,
    >)
        ensures
            match scene {
                Some(sh) => line_enable_sent(*sh, li, old(out)@, final(out)@),
                None => final(out)@ == old(out)@,
            },
    {
        if let Some(sh) = scene {
            if li < sh.lines.len() {
                let updates = line_enable_updates(&sh.lines[li]);
                if updates.len() > 0 {
                    out.push(SceneCommand::SetFramesEnabled { line: li, updates });
                    proof {
                        assert(out@.take(old(out)@.len() as int) =~= old(out)@);
                    }
                }
            }
        }
    }

    /// Flips a flag of line `li`, if the scene has that line.
    pub fn toggle_line_field(&self, li: usize, flag: LineFlag, scene: Option<&SceneShape>, out: &mut Vec<
        SceneCommand,
    >)
        ensures
            final(out)@ == old(out)@ + match scene {
                Some(sh) => if li < sh.lines@.len() {
                    seq![SceneCommand::ToggleLineFlag { line: li, flag }]
                } else {
                    Seq::empty()
                },
                None => Seq::empty(),
            },
    {
        if let Some(sh) = scene {
            if li < sh.lines.len() {
                out.push(SceneCommand::ToggleLineFlag { line: li, flag });
                return;
            }
        }
        proof {
            assert(out@ =~= old(out)@ + Seq::<SceneCommand>::empty());
        }
    }

    /// The selected positions where the scene has a frame, in selection order.
    fn existing_selection(&self, sh: &SceneShape) -> (r: Vec<(usize, usize)>)
        ensures
            r@ == existing(self.selection@, *sh),
    {
        let mut r: Vec<(usize, usize)> = Vec::new();
        let mut i: usize = 0;
        while i < self.selection.len()
            invariant
                i <= self.selection@.len(),
                r@ == existing(self.selection@.take(i as int), *sh),
            decreases self.selection@.len() - i,
        {
            let p = self.selection[i];
            proof {
                let t = self.selection@.take(i as int + 1);
                assert(t.drop_last() =~= self.selection@.take(i as int));
                reveal_with_fuel(Seq::filter, 1);
                assert(t.filter(|p: (usize, usize)| has_frame(*sh, p)) == t.drop_last().filter(
                    |p: (usize, usize)| has_frame(*sh, p),
                ) + if has_frame(*sh, t.last()) {
                    seq![t.last()]
                } else {
                    Seq::empty()
                });
            }
            if p.0 < sh.lines.len() && p.1 < sh.lines[p.0].len() {
                r.push(p);
                proof {
                    assert(r@ =~= existing(self.selection@.take(i as int), *sh) + seq![p]);
                }
            } else {
                proof {
                    assert(r@ =~= existing(self.selection@.take(i as int), *sh) + Seq::<
                        (usize, usize),
                    >::empty());
                }
            }
            i += 1;
        }
        proof {
            assert(self.selection@.take(i as int) =~= self.selection@);
        }
        r
    }

    /// Puts the selected frames the scene has on the clipboard (nothing without a scene).
    pub fn copy_selection(&mut self, scene: Option<&SceneShape>, out: &mut Vec<SceneCommand>)
        ensures
            copied_done(*old(self), *final(self), scene, old(out)@, final(out)@),
    {
        let sh = match scene {
            Some(sh) => sh,
            None => return,
        };
        let frames = self.existing_selection(sh);
        out.push(SceneCommand::ClearClipboard);
        let ghost base = out@;
        let mut i: usize = 0;
        while i < frames.len()
            invariant
                i <= frames@.len(),
                out@ == base + frames@.take(i as int).map_values(
                    |p: (usize, usize)| SceneCommand::CopyToClipboard { line: p.0, frame: p.1 },
                ),
            decreases frames@.len() - i,
        {
            out.push(SceneCommand::CopyToClipboard { line: frames[i].0, frame: frames[i].1 });
            proof {
                assert(frames@.take(i as int + 1).map_values(
                    |p: (usize, usize)| SceneCommand::CopyToClipboard { line: p.0, frame: p.1 },
                ) =~= frames@.take(i as int).map_values(
                    |p: (usize, usize)| SceneCommand::CopyToClipboard { line: p.0, frame: p.1 },
                ).push(SceneCommand::CopyToClipboard { line: frames@[i as int].0, frame: frames@[i as int].1 }));
            }
            i += 1;
        }
        proof {
            assert(frames@.take(i as int) =~= frames@);
            assert(out@ =~= old(out)@ + clipboard_copy(frames@));
        }
        self.clipboard_len = frames.len();
    }
}



/// `n`, and the commands `after` that follow `before`, are what copying the selection of
/// `o` gives: the selected frames the scene has go to the clipboard (nothing happens
/// without a scene).
pub open spec fn copied_done(
    o: SceneNav,
    n: SceneNav,
    scene: Option<&SceneShape>,
    before: Seq<SceneCommand>,
    after: Seq<SceneCommand>,
) -> bool {
    match scene {
        Some(sh) => {
            &&& n == (SceneNav {
                clipboard_len: existing(o.selection@, *sh).len() as usize,
                ..o
            })
            &&& after == before + clipboard_copy(existing(o.selection@, *sh))
        },
        None => n == o && after == before,
    }
}

/// `n`, and the commands `after` that follow `before`, are what cutting the selection of
/// `o` gives: it is copied, its frames are removed (highest frame index first) and nothing
/// stays selected.
pub open spec fn cut_done(
    o: SceneNav,
    n: SceneNav,
    scene: Option<&SceneShape>,
    before: Seq<SceneCommand>,
    after: Seq<SceneCommand>,
) -> bool {
    let copied = match scene {
        Some(sh) => clipboard_copy(existing(o.selection@, *sh)),
        None => Seq::empty(),
    };
    let clip = match scene {
        Some(sh) => existing(o.selection@, *sh).len() as usize,
        None => o.clipboard_len,
    };
    &&& after == before + copied + sort_frame_desc(o.selection@).map_values(
        |p: (usize, usize)| SceneCommand::RemoveFrame { line: p.0, index: p.1 },
    )
    &&& nav_deselected(SceneNav { clipboard_len: clip, ..o }, n)
}

/// Frames added at (line `li`, `start + k`) for `k < n`, copied from clipboard entry `k`.
pub open spec fn clipboard_adds(li: usize, start: usize, n: nat) -> Seq<SceneCommand> {
    Seq::new(
        n,
        |k: int|
            SceneCommand::AddFrame {
                line: li,
                index: (start + k) as usize,
                source: FrameSource::Clipboard { index: k as usize },
            },
    )
}

/// Frames added at (line `li`, `start + k`), copied from the scene frames at `from[k]`.
pub open spec fn copy_adds(li: usize, start: usize, from: Seq<(usize, usize)>) -> Seq<SceneCommand> {
    Seq::new(
        from.len(),
        |k: int|
            SceneCommand::AddFrame {
                line: li,
                index: (start + k) as usize,
                source: FrameSource::SceneFrame { line: from[k].0, frame: from[k].1 },
            },
    )
}

/// `n` is `o` after the cursor moved to `pos` and the selection became `sel` with `anchor`.
pub open spec fn nav_moved_selecting(
    o: SceneNav,
    n: SceneNav,
    pos: (usize, usize),
    sel: Seq<(usize, usize)>,
    anchor: Option<(usize, usize)>,
) -> bool {
    &&& n.selection@ == sel
    &&& n == (SceneNav {
        state: moved_state(o.state, pos),
        scroll_to_cursor: true,
        sequencer_inline_edit: inline_kept_at(o.sequencer_inline_edit, pos),
        selection: n.selection,
        anchor,
        ..o
    })
}

/// All selected positions lie on one line.
pub open spec fn one_line(sel: Seq<(usize, usize)>) -> bool {
    forall|i: int| 0 <= i < sel.len() ==> (#[trigger] sel[i]).0 == sel[0].0
}

impl SceneNav {
    /// Copies the selection to the clipboard, removes the selected frames (highest frame
    /// index first) and clears the selection.
    pub fn cut_selection(&mut self, scene: Option<&SceneShape>, out: &mut Vec<SceneCommand>)
        requires
            old(self).wf(),
        ensures
            final(self).wf(),
            cut_done(*old(self), *final(self), scene, old(out)@, final(out)@),
    {
        self.copy_selection(scene, out);
        let to_remove = sort_by_frame_desc(&self.selection);
        let ghost base = out@;
        let mut i: usize = 0;
        while i < to_remove.len()
            invariant
                i <= to_remove@.len(),
                out@ == base + to_remove@.take(i as int).map_values(
                    |p: (usize, usize)| SceneCommand::RemoveFrame { line: p.0, index: p.1 },
                ),
            decreases to_remove@.len() - i,
        {
            out.push(SceneCommand::RemoveFrame { line: to_remove[i].0, index: to_remove[i].1 });
            proof {
                assert(to_remove@.take(i as int + 1).map_values(
                    |p: (usize, usize)| SceneCommand::RemoveFrame { line: p.0, index: p.1 },
                ) =~= to_remove@.take(i as int).map_values(
                    |p: (usize, usize)| SceneCommand::RemoveFrame { line: p.0, index: p.1 },
                ).push(SceneCommand::RemoveFrame { line: to_remove@[i as int].0, index: to_remove@[i as int].1 }));
            }
            i += 1;
        }
        proof {
            assert(to_remove@.take(i as int) =~= to_remove@);
        }
        self.deselect_all();
    }

    /// Inserts the clipboard after (li, fi), moves the cursor onto the last inserted frame
    /// and selects the inserted frames.
    pub fn paste_after(&mut self, li: usize, fi: usize, connected: bool, out: &mut Vec<SceneCommand>)
        requires
            old(self).wf(),
            old(self).clipboard_len > 0 ==> fi + old(self).clipboard_len <= usize::MAX,
        ensures
            final(self).wf(),
            ({
                let n = old(self).clipboard_len;
                if n == 0 {
                    *final(self) == *old(self) && final(out)@ == old(out)@
                } else {
                    &&& final(out)@ == old(out)@ + clipboard_adds(li, (fi + 1) as usize, n as nat)
                        + cursor_report((li, (fi + n) as usize), connected)
                    &&& nav_moved_selecting(
                        *old(self),
                        *final(self),
                        (li, (fi + n) as usize),
                        range_sel(li, (fi + 1) as usize, (fi + n) as usize),
                        Some((li, (fi + 1) as usize)),
                    )
                }
            }),
    {
        let count = self.clipboard_len;
        if count == 0 {
            return;
        }
        let ghost base = out@;
        let mut o: usize = 0;
        while o < count
            invariant
                o <= count,
                fi + count <= usize::MAX,
                out@ == base + clipboard_adds(li, (fi + 1) as usize, o as nat),
            decreases count - o,
        {
            out.push(
                SceneCommand::AddFrame {
                    line: li,
                    index: fi + 1 + o,
                    source: FrameSource::Clipboard { index: o },
                },
            );
            proof {
                assert(out@ =~= base + clipboard_adds(li, (fi + 1) as usize, (o + 1) as nat));
            }
            o += 1;
        }
        self.move_cursor((li, fi + count), connected, out);
        let mut sel: Vec<(usize, usize)> = Vec::new();
        let mut k: usize = 0;
        while k < count
            invariant
                k <= count,
                fi + count <= usize::MAX,
                sel@ == Seq::new(k as nat, |j: int| (li, (fi + 1 + j) as usize)),
            decreases count - k,
        {
            sel.push((li, fi + 1 + k));
            proof {
                assert(sel@ =~= Seq::new((k + 1) as nat, |j: int| (li, (fi + 1 + j) as usize)));
            }
            k += 1;
        }
        proof {
            assert(sel@ =~= range_sel(li, (fi + 1) as usize, (fi + count) as usize));
        }
        self.selection = sel;
        self.anchor = Some((li, fi + 1));
    }

    /// Overwrites the frames from (li, fi) on with the clipboard, as far as the line goes,
    /// moves the cursor onto the last overwritten frame and selects the overwritten frames.
    pub fn paste_replace(
        &mut self,
        li: usize,
        fi: usize,
        scene: Option<&SceneShape>,
        connected: bool,
        out: &mut Vec<SceneCommand>,
    )
        requires
            old(self).wf(),
        ensures
            final(self).wf(),
            ({
                let count = replace_count(old(self).clipboard_len, li, fi, scene);
                if count == 0 {
                    *final(self) == *old(self) && final(out)@ == old(out)@
                } else {
                    let last = (li, (fi + count - 1) as usize);
                    &&& final(out)@ == old(out)@ + seq![
                        SceneCommand::ReplaceFrames { line: li, first: fi, count: count as usize },
                    ] + cursor_report(last, connected)
                    &&& nav_moved_selecting(
                        *old(self),
                        *final(self),
                        last,
                        range_sel(li, fi, last.1),
                        Some((li, fi)),
                    )
                }
            }),
    {
        if self.clipboard_len == 0 {
            return;
        }
        let sh = match scene {
            Some(sh) => sh,
            None => return,
        };
        let line_len = sh.line_len(li);
        if fi >= line_len {
            return;
        }
        let room = line_len - fi;
        let count = if self.clipboard_len <= room {
            self.clipboard_len
        } else {
            room
        };
        out.push(SceneCommand::ReplaceFrames { line: li, first: fi, count });
        let last = fi + count - 1;
        self.move_cursor((li, last), connected, out);
        let mut sel: Vec<(usize, usize)> = Vec::new();
        sel.push((li, fi));
        let mut f = fi;
        while f < last
            invariant
                fi <= f <= last,
                sel@ == range_sel(li, fi, f),
            decreases last - f,
        {
            f += 1;
            sel.push((li, f));
            proof {
                assert(sel@ =~= range_sel(li, fi, f));
            }
        }
        proof {
            assert(sorted_set(sel@));
        }
        self.selection = sel;
        self.anchor = Some((li, fi));
    }

    /// Copies the selected frames the scene has right after the last selected one, on the
    /// line of the first selected one; the cursor moves onto the last copy, and the copies
    /// become the selection.
    pub fn duplicate_selected_frames(
        &mut self,
        li: usize,
        fi: usize,
        scene: &SceneShape,
        connected: bool,
        out: &mut Vec<SceneCommand>,
    )
        requires
            old(self).wf(),
            dup_fits(*old(self), fi, *scene),
        ensures
            final(self).wf(),
            duplicated(*old(self), *final(self), li, fi, *scene, connected, old(out)@, final(out)@),
    {
        let ghost sel = self.selection@;
        let n_sel = self.selection.len();
        let sel_li = if n_sel > 0 {
            self.selection[0].0
        } else {
            li
        };
        let last_fi = if n_sel > 0 {
            self.selection[n_sel - 1].1
        } else {
            fi
        };
        let frames = self.existing_selection(scene);
        proof {
            reveal_with_fuel(Seq::filter, 1);
            sel.filter_lemma(|p: (usize, usize)| has_frame(*scene, p));
            assert(frames@.len() <= sel.len());
        }
        let n = frames.len();
        let ghost base = out@;
        let mut o: usize = 0;
        while o < n
            invariant
                o <= n,
                n == frames@.len(),
                last_fi + n <= usize::MAX,
                out@ == base + copy_adds(sel_li, (last_fi + 1) as usize, frames@.take(o as int)),
            decreases n - o,
        {
            out.push(
                SceneCommand::AddFrame {
                    line: sel_li,
                    index: last_fi + 1 + o,
                    source: FrameSource::SceneFrame { line: frames[o].0, frame: frames[o].1 },
                },
            );
            proof {
                assert(out@ =~= base + copy_adds(
                    sel_li,
                    (last_fi + 1) as usize,
                    frames@.take(o as int + 1),
                ));
            }
            o += 1;
        }
        proof {
            assert(frames@.take(o as int) =~= frames@);
        }
        self.move_cursor((sel_li, last_fi + n), connected, out);
        let mut new_sel: Vec<(usize, usize)> = Vec::new();
        let mut k: usize = 0;
        while k < n
            invariant
                k <= n,
                last_fi + n <= usize::MAX,
                new_sel@ == Seq::new(k as nat, |j: int| (sel_li, (last_fi + 1 + j) as usize)),
            decreases n - k,
        {
            new_sel.push((sel_li, last_fi + 1 + k));
            proof {
                assert(new_sel@ =~= Seq::new(
                    (k + 1) as nat,
                    |j: int| (sel_li, (last_fi + 1 + j) as usize),
                ));
            }
            k += 1;
        }
        proof {
            if n == 0 {
                assert(new_sel@ =~= Seq::<(usize, usize)>::empty());
            } else {
                assert(new_sel@ =~= range_sel(sel_li, (last_fi + 1) as usize, (last_fi + n) as usize));
            }
        }
        self.selection = new_sel;
        self.anchor = Some((sel_li, last_fi + 1));
    }

    /// Empties the script of every selected frame the scene has.
    pub fn clear_selected_frames(&self, scene: &SceneShape, out: &mut Vec<SceneCommand>)
        ensures
            final(out)@ == old(out)@ + existing(self.selection@, *scene).map_values(
                |p: (usize, usize)| SceneCommand::ClearFrameScript { line: p.0, index: p.1 },
            ),
    {
        let frames = self.existing_selection(scene);
        let ghost base = out@;
        let mut i: usize = 0;
        while i < frames.len()
            invariant
                i <= frames@.len(),
                out@ == base + frames@.take(i as int).map_values(
                    |p: (usize, usize)| SceneCommand::ClearFrameScript { line: p.0, index: p.1 },
                ),
            decreases frames@.len() - i,
        {
            out.push(SceneCommand::ClearFrameScript { line: frames[i].0, index: frames[i].1 });
            proof {
                assert(frames@.take(i as int + 1).map_values(
                    |p: (usize, usize)| SceneCommand::ClearFrameScript { line: p.0, index: p.1 },
                ) =~= frames@.take(i as int).map_values(
                    |p: (usize, usize)| SceneCommand::ClearFrameScript { line: p.0, index: p.1 },
                ).push(SceneCommand::ClearFrameScript { line: frames@[i as int].0, index: frames@[i as int].1 }));
            }
            i += 1;
        }
        proof {
            assert(frames@.take(i as int) =~= frames@);
        }
    }
}


/// `n`, and the commands `after` that follow `before`, are what moving the selected block
/// of frames one place later (or earlier) in the scene `sh` gives from `o`: the frame just
/// after (before) the block is taken out and put back before (after) it, and the
/// selection, the cursor and the anchor follow the block. Nothing happens with a selection
/// that is empty or spread over several lines, or at the edge of the line.
pub open spec fn frames_moved(
    o: SceneNav,
    n: SceneNav,
    later: bool,
    sh: SceneShape,
    connected: bool,
    before: Seq<SceneCommand>,
    after: Seq<SceneCommand>,
) -> bool {
    let sel = o.selection@;
    let unchanged = n == o && after == before;
    if sel.len() == 0 || !one_line(sel) {
        unchanged
    } else {
        let li = sel[0].0;
        let lo = sel[0].1;
        let hi = sel.last().1;
        if (!later && lo == 0) || (later && hi + 1 >= line_len(sh, li as int)) {
            unchanged
        } else {
            let src = if later {
                (hi + 1) as usize
            } else {
                (lo - 1) as usize
            };
            let dest = if later {
                lo
            } else {
                hi
            };
            let swap = if has_frame(sh, (li, src)) {
                seq![
                    SceneCommand::RemoveFrame { line: li, index: src },
                    SceneCommand::AddFrame {
                        line: li,
                        index: dest,
                        source: FrameSource::SceneFrame { line: li, frame: src },
                    },
                ]
            } else {
                Seq::empty()
            };
            let base = SceneNav {
                anchor: anchor_shifted(o.anchor, later),
                selection: n.selection,
                ..o
            };
            &&& n.selection@ == if later {
                range_sel(li, (lo + 1) as usize, (hi + 1) as usize)
            } else {
                range_sel(li, (lo - 1) as usize, (hi - 1) as usize)
            }
            &&& match state_cursor(o.state) {
                Some(c) => n == after_move(base, shifted(c, later))
                    && after == before + swap + cursor_report(
                    shifted(c, later),
                    connected,
                ),
                None => n == base && after == before + swap,
            }
        }
    }
}

/// Moving a block of frames one place later and then one place back earlier gives back the
/// selection, the cursor and the anchor; only the scroll request and an inline edit away
/// from the cursor's new place can differ.
pub proof fn lemma_move_later_then_back(
    o: SceneNav,
    n: SceneNav,
    m: SceneNav,
    li: usize,
    lo: usize,
    hi: usize,
    sh: SceneShape,
    sh2: SceneShape,
    connected: bool,
    b0: Seq<SceneCommand>,
    b1: Seq<SceneCommand>,
    b2: Seq<SceneCommand>,
)
    requires
        later_fits(o, sh),
        lo <= hi,
        o.selection@ == range_sel(li, lo, hi),
        hi + 1 < line_len(sh, li as int),
        frames_moved(o, n, true, sh, connected, b0, b1),
        frames_moved(n, m, false, sh2, connected, b1, b2),
    ensures
        m.selection@ == o.selection@,
        m == (SceneNav {
            selection: m.selection,
            scroll_to_cursor: m.scroll_to_cursor,
            sequencer_inline_edit: m.sequencer_inline_edit,
            ..o
        }),
{
    let sel = o.selection@;
    assert(sel[0] == (li, lo));
    assert(sel.last() == (li, hi));
    assert(one_line(sel));
    let sel1 = n.selection@;
    assert(sel1 =~= range_sel(li, (lo + 1) as usize, (hi + 1) as usize));
    assert(sel1[0] == (li, (lo + 1) as usize));
    assert(sel1.last() == (li, (hi + 1) as usize));
    assert(one_line(sel1));
    assert(m.selection@ =~= range_sel(li, lo, hi));
    match o.anchor {
        Some(a) => {
            assert(a.1 < usize::MAX);
            assert(shifted(shifted(a, true), false) == a);
        },
        None => {},
    }
    match state_cursor(o.state) {
        Some(c) => {
            assert(c.1 < usize::MAX);
            assert(shifted(shifted(c, true), false) == c);
            assert(state_cursor(n.state) == Some(shifted(c, true)));
            match o.state {
                SceneState::EditingFrame { .. } => {},
                _ => {},
            }
        },
        None => {},
    }
}

/// `n`, and the commands `after` that follow `before`, are what moving line `li` of the
/// scene `sh` one place to the left (or right) gives from `o`, when there is room: the line
/// is removed and added back at its new place, and the cursor (when on that line), the
/// anchor and the selection follow it.
pub open spec fn line_moved(
    o: SceneNav,
    n: SceneNav,
    li: usize,
    left: bool,
    sh: SceneShape,
    connected: bool,
    before: Seq<SceneCommand>,
    after: Seq<SceneCommand>,
) -> bool {
    let unchanged = n == o && after == before;
    let nl = sh.lines@.len();
    if (left && li == 0) || (!left && li + 1 >= nl) {
        unchanged
    } else {
        let new_li = if left {
            (li - 1) as usize
        } else {
            (li + 1) as usize
        };
        let cmds = if li < nl {
            seq![
                SceneCommand::RemoveLine { index: li },
                SceneCommand::AddLine {
                    index: new_li,
                    source: LineSource::SceneLine { line: li },
                },
            ]
        } else {
            Seq::empty()
        };
        let base = SceneNav {
            anchor: anchor_remapped(o.anchor, li, new_li),
            selection: n.selection,
            ..o
        };
        &&& n.selection@.to_set() == o.selection@.to_set().map(
            |p: (usize, usize)| remap_line(p, li, new_li),
        )
        &&& match state_cursor(o.state) {
            Some(c) => if c.0 == li {
                n == after_move(base, (new_li, c.1))
                    && after == before + cmds + cursor_report(
                    (new_li, c.1),
                    connected,
                )
            } else {
                n == base && after == before + cmds
            },
            None => n == base && after == before + cmds,
        }
    }
}

/// Moving line `li` one place to the left and then moving it back to the right gives back
/// the selection, the cursor and the anchor, when none of them lies on the line the two
/// moves jump over; only the scroll request and an inline edit away from the cursor's new
/// place can differ.
pub proof fn lemma_line_left_then_back(
    o: SceneNav,
    n: SceneNav,
    m: SceneNav,
    li: usize,
    sh: SceneShape,
    sh2: SceneShape,
    connected: bool,
    b0: Seq<SceneCommand>,
    b1: Seq<SceneCommand>,
    b2: Seq<SceneCommand>,
)
    requires
        0 < li < sh2.lines@.len(),
        forall|i: int| 0 <= i < o.selection@.len() ==> (#[trigger] o.selection@[i]).0 != li - 1,
        o.anchor matches Some(a) ==> a.0 != li - 1,
        state_cursor(o.state) matches Some(c) ==> c.0 != li - 1,
        line_moved(o, n, li, true, sh, connected, b0, b1),
        line_moved(n, m, (li - 1) as usize, false, sh2, connected, b1, b2),
    ensures
        m.selection@.to_set() == o.selection@.to_set(),
        m == (SceneNav {
            selection: m.selection,
            scroll_to_cursor: m.scroll_to_cursor,
            sequencer_inline_edit: m.sequencer_inline_edit,
            ..o
        }),
{
    let nl = (li - 1) as usize;
    let s0 = o.selection@.to_set();
    let s1 = n.selection@.to_set();
    let s2 = m.selection@.to_set();
    assert(s1 == s0.map(|p: (usize, usize)| remap_line(p, li, nl)));
    assert(s2 == s1.map(|p: (usize, usize)| remap_line(p, nl, li)));
    assert forall|p: (usize, usize)| s2.contains(p) <==> s0.contains(p) by {
        if s0.contains(p) {
            let i = choose|i: int| 0 <= i < o.selection@.len() && o.selection@[i] == p;
            assert(o.selection@[i].0 != nl);
            assert(s1.contains(remap_line(p, li, nl)));
            assert(remap_line(remap_line(p, li, nl), nl, li) == p);
        }
        if s2.contains(p) {
            let q = choose|q: (usize, usize)| s1.contains(q) && remap_line(q, nl, li) == p;
            let r = choose|r: (usize, usize)| s0.contains(r) && remap_line(r, li, nl) == q;
            let i = choose|i: int| 0 <= i < o.selection@.len() && o.selection@[i] == r;
            assert(o.selection@[i].0 != nl);
            assert(remap_line(remap_line(r, li, nl), nl, li) == r);
        }
    }
    assert(s2 =~= s0);
    match o.anchor {
        Some(a) => {
            assert(remap_line(remap_line(a, li, nl), nl, li) == a);
        },
        None => {},
    }
    match state_cursor(o.state) {
        Some(c) => {
            match o.state {
                SceneState::EditingFrame { .. } => {},
                _ => {},
            }
        },
        None => {},
    }
}

/// `p` moved one frame later, or one frame earlier (never before the first frame).
pub open spec fn shifted(p: (usize, usize), later: bool) -> (usize, usize) {
    if later {
        (p.0, (p.1 + 1) as usize)
    } else {
        (p.0, if p.1 > 0 {
            (p.1 - 1) as usize
        } else {
            0
        })
    }
}

fn shifted_exec(p: (usize, usize), later: bool) -> (r: (usize, usize))
    requires
        later ==> p.1 < usize::MAX,
    ensures
        r == shifted(p, later),
{
    if later {
        (p.0, p.1 + 1)
    } else {
        (p.0, p.1.saturating_sub(1))
    }
}

/// The positions of line `li` from frame `a` to frame `b`, in order.
fn frame_range(li: usize, a: usize, b: usize) -> (r: Vec<(usize, usize)>)
    requires
        a <= b,
    ensures
        r@ == range_sel(li, a, b),
        sorted_set(r@),
{
    let mut sel: Vec<(usize, usize)> = Vec::new();
    sel.push((li, a));
    let mut f = a;
    while f < b
        invariant
            a <= f <= b,
            sel@ == range_sel(li, a, f),
        decreases b - f,
    {
        f += 1;
        sel.push((li, f));
        proof {
            assert(sel@ =~= range_sel(li, a, f));
        }
    }
    sel
}

/// The anchor moved one frame later or earlier.
pub open spec fn anchor_shifted(a: Option<(usize, usize)>, later: bool) -> Option<(usize, usize)> {
    match a {
        Some(p) => Some(shifted(p, later)),
        None => None,
    }
}

/// The anchor with line `li` renamed `new_li`.
pub open spec fn anchor_remapped(a: Option<(usize, usize)>, li: usize, new_li: usize) -> Option<
    (usize, usize),
> {
    match a {
        Some(p) => Some(remap_line(p, li, new_li)),
        None => None,
    }
}

proof fn lemma_take_to_set(s: Seq<(usize, usize)>, i: int)
    requires
        0 <= i < s.len(),
    ensures
        s.take(i + 1).to_set() == s.take(i).to_set().insert(s[i]),
{
    assert forall|y: (usize, usize)| s.take(i + 1).to_set().contains(y) <==> s.take(
        i,
    ).to_set().insert(s[i]).contains(y) by {
        if s.take(i + 1).contains(y) {
            let t1 = s.take(i + 1);
            let k = choose|k: int| 0 <= k < t1.len() && #[trigger] t1[k] == y;
            if k < i {
                assert(s.take(i)[k] == y);
            }
        }
        if s.take(i).contains(y) {
            let t0 = s.take(i);
            let k = choose|k: int| 0 <= k < t0.len() && #[trigger] t0[k] == y;
            assert(s.take(i + 1)[k] == y);
        }
        if y == s[i] {
            assert(s.take(i + 1)[i] == y);
        }
    }
    assert(s.take(i + 1).to_set() =~= s.take(i).to_set().insert(s[i]));
}

impl SceneNav {
    /// Moves the selected frames of one line one place earlier (`direction < 0`) or later:
    /// the frame just before (after) the block is taken out and put back after (before) it.
    /// The selection, the cursor and the anchor follow the block. Nothing happens without a
    /// scene, with a selection spread over several lines, or at the edge of the line. The
    /// selection is kept sorted, so its first and last entries hold the block's lowest and
    /// highest frames.
    pub fn move_frames_vertical(
        &mut self,
        direction: i32,
        scene: Option<&SceneShape>,
        connected: bool,
        out: &mut Vec<SceneCommand>,
    )
        requires
            old(self).wf(),
            direction >= 0 ==> (scene matches Some(sh) ==> later_fits(*old(self), *sh)),
        ensures
            final(self).wf(),
            match scene {
                None => *final(self) == *old(self) && final(out)@ == old(out)@,
                Some(sh) => frames_moved(
                    *old(self),
                    *final(self),
                    direction >= 0,
                    *sh,
                    connected,
                    old(out)@,
                    final(out)@,
                ),
            },
    {
        let sh = match scene {
            Some(sh) => sh,
            None => return,
        };
        let n = self.selection.len();
        if n == 0 {
            return;
        }
        let sel_li = self.selection[0].0;
        let mut k: usize = 0;
        while k < n
            invariant
                k <= n,
                n == self.selection@.len(),
                sel_li == self.selection@[0].0,
                forall|j: int| 0 <= j < k ==> (#[trigger] self.selection@[j]).0 == sel_li,
                *self == *old(self),
                out@ == old(out)@,
                old(self).wf(),
            decreases n - k,
        {
            if self.selection[k].0 != sel_li {
                return;
            }
            k += 1;
        }
        let min_fi = self.selection[0].1;
        let max_fi = self.selection[n - 1].1;
        proof {
            if n > 1 {
                assert(pos_lt(self.selection@[0], self.selection@[n - 1]));
            }
        }
        let len = sh.line_len(sel_li);
        let later = direction >= 0;
        if !later && min_fi == 0 {
            return;
        }
        if later && max_fi + 1 >= len {
            return;
        }
        let src = if later {
            max_fi + 1
        } else {
            min_fi - 1
        };
        let dest = if later {
            min_fi
        } else {
            max_fi
        };
        let ghost before = out@;
        if sel_li < sh.lines.len() && src < sh.lines[sel_li].len() {
            out.push(SceneCommand::RemoveFrame { line: sel_li, index: src });
            out.push(
                SceneCommand::AddFrame {
                    line: sel_li,
                    index: dest,
                    source: FrameSource::SceneFrame { line: sel_li, frame: src },
                },
            );
        }
        let ghost mid_out = out@;
        let sel = if later {
            frame_range(sel_li, min_fi + 1, max_fi + 1)
        } else {
            frame_range(sel_li, min_fi - 1, max_fi - 1)
        };
        self.selection = sel;
        if let Some(c) = self.state.cursor() {
            let p = shifted_exec(c, later);
            self.move_cursor(p, connected, out);
        }
        self.anchor = match self.anchor {
            Some(a) => Some(shifted_exec(a, later)),
            None => None,
        };
        proof {
            if sel_li < sh.lines@.len() && src < sh.lines@[sel_li as int]@.len() {
                assert(mid_out =~= before + seq![
                    SceneCommand::RemoveFrame { line: sel_li, index: src },
                    SceneCommand::AddFrame {
                        line: sel_li,
                        index: dest,
                        source: FrameSource::SceneFrame { line: sel_li, frame: src },
                    },
                ]);
            } else {
                assert(mid_out =~= before + Seq::<SceneCommand>::empty());
            }
            if state_cursor(old(self).state) is None {
                assert(out@ == mid_out);
            }
        }
    }

    /// Moves line `li` one place to the left (`direction < 0`) or right, if there is room:
    /// the line is removed and added back at its new place. The cursor (when on that line),
    /// the anchor and the selection follow it. Nothing happens without a scene.
    pub fn move_line_horizontal(
        &mut self,
        li: usize,
        direction: i32,
        scene: Option<&SceneShape>,
        connected: bool,
        out: &mut Vec<SceneCommand>,
    )
        requires
            old(self).wf(),
        ensures
            final(self).wf(),
            match scene {
                None => *final(self) == *old(self) && final(out)@ == old(out)@,
                Some(sh) => line_moved(
                    *old(self),
                    *final(self),
                    li,
                    direction < 0,
                    *sh,
                    connected,
                    old(out)@,
                    final(out)@,
                ),
            },
    {
        let sh = match scene {
            Some(sh) => sh,
            None => return,
        };
        let nl = sh.lines.len();
        let new_li = if direction < 0 {
            if li == 0 {
                return;
            }
            li - 1
        } else {
            if nl == 0 || li >= nl - 1 {
                return;
            }
            li + 1
        };
        let ghost before = out@;
        if li < nl {
            out.push(SceneCommand::RemoveLine { index: li });
            out.push(
                SceneCommand::AddLine { index: new_li, source: LineSource::SceneLine { line: li } },
            );
        }
        let ghost mid_out = out@;
        if let Some(c) = self.state.cursor() {
            if c.0 == li {
                self.move_cursor((new_li, c.1), connected, out);
            }
        }
        self.anchor = match self.anchor {
            Some(a) => Some(
                if a.0 == li {
                    (new_li, a.1)
                } else {
                    a
                },
            ),
            None => None,
        };
        let ghost old_sel = self.selection@;
        let ghost f = |p: (usize, usize)| remap_line(p, li, new_li);
        let mut sel: Vec<(usize, usize)> = Vec::new();
        let mut i: usize = 0;
        while i < self.selection.len()
            invariant
                i <= old_sel.len(),
                self.selection@ == old_sel,
                sorted_set(sel@),
                f == (|p: (usize, usize)| remap_line(p, li, new_li)),
                sel@.to_set() == old_sel.take(i as int).to_set().map(f),
            decreases old_sel.len() - i,
        {
            let p = self.selection[i];
            let q = if p.0 == li {
                (new_li, p.1)
            } else {
                p
            };
            let ghost prev = sel@.to_set();
            insert_sorted(&mut sel, q);
            proof {
                lemma_take_to_set(old_sel, i as int);
                let t = old_sel.take(i as int).to_set();
                assert forall|y: (usize, usize)| t.insert(p).map(f).contains(y) <==> t.map(
                    f,
                ).insert(f(p)).contains(y) by {
                    if t.insert(p).map(f).contains(y) {
                        let x = choose|x: (usize, usize)| t.insert(p).contains(x) && y == f(x);
                        if x != p {
                            assert(t.contains(x));
                        }
                    }
                    if t.map(f).contains(y) && y != f(p) {
                        let x = choose|x: (usize, usize)| t.contains(x) && y == f(x);
                        assert(t.insert(p).contains(x));
                    }
                    if y == f(p) {
                        assert(t.insert(p).contains(p));
                    }
                }
                assert(t.insert(p).map(f) =~= t.map(f).insert(f(p)));
            }
            i += 1;
        }
        proof {
            assert(old_sel.take(i as int) =~= old_sel);
        }
        self.selection = sel;
        proof {
            if li < nl {
                assert(mid_out =~= before + seq![
                    SceneCommand::RemoveLine { index: li },
                    SceneCommand::AddLine { index: new_li, source: LineSource::SceneLine { line: li } },
                ]);
            } else {
                assert(mid_out =~= before + Seq::<SceneCommand>::empty());
            }
        }
    }
}


/// How many frames pasting over the frames from (li, fi) on overwrites: the clipboard's
/// length, cut at the end of the line (none without a scene).
pub open spec fn replace_count(clip: usize, li: usize, fi: usize, scene: Option<&SceneShape>) -> int {
    let n = clip as int;
    let len = match scene {
        Some(sh) => line_len(*sh, li as int),
        None => 0,
    };
    if n == 0 || scene is None || fi >= len {
        0
    } else if n <= len - fi {
        n
    } else {
        len - fi
    }
}

/// `n`, and the commands `after` that follow `before`, are what pasting the clipboard of
/// `o` after (li, fi) gives.
pub open spec fn pasted_after(
    o: SceneNav,
    n: SceneNav,
    li: usize,
    fi: usize,
    connected: bool,
    before: Seq<SceneCommand>,
    after: Seq<SceneCommand>,
) -> bool {
    let k = o.clipboard_len;
    &&& after == before + clipboard_adds(li, (fi + 1) as usize, k as nat) + cursor_report(
        (li, (fi + k) as usize),
        connected,
    )
    &&& nav_moved_selecting(
        o,
        n,
        (li, (fi + k) as usize),
        range_sel(li, (fi + 1) as usize, (fi + k) as usize),
        Some((li, (fi + 1) as usize)),
    )
}

/// `n`, and the commands `after` that follow `before`, are what pasting the clipboard of
/// `o` (whose selection is `osel`) over the frames from (li, fi) on gives.
pub open spec fn pasted_over(
    o: SceneNav,
    osel: Seq<(usize, usize)>,
    n: SceneNav,
    li: usize,
    fi: usize,
    scene: Option<&SceneShape>,
    connected: bool,
    before: Seq<SceneCommand>,
    after: Seq<SceneCommand>,
) -> bool {
    let count = replace_count(o.clipboard_len, li, fi, scene);
    if count == 0 {
        &&& n.selection@ == osel
        &&& n == (SceneNav { selection: n.selection, ..o })
        &&& after == before
    } else {
        let last = (li, (fi + count - 1) as usize);
        &&& after == before + seq![
            SceneCommand::ReplaceFrames { line: li, first: fi, count: count as usize },
        ] + cursor_report(last, connected)
        &&& nav_moved_selecting(o, n, last, range_sel(li, fi, last.1), Some((li, fi)))
    }
}


/// How many frames the clipboard holds after the copy or cut keys of one frame: what the
/// scene has of the selection when it is taken, otherwise what it held.
pub open spec fn clip_after(o: SceneNav, copy: bool, cut: bool, scene: Option<&SceneShape>) -> usize {
    let sel = o.selection@;
    if (cut || copy) && sel.len() > 0 && scene is Some {
        existing(sel, *scene->0).len() as usize
    } else {
        o.clipboard_len
    }
}

/// Pasting after the cursor in the stack view computes no position past the machine limit:
/// the copies go right after the cursor's frame.
pub open spec fn clipboard_fits(
    o: SceneNav,
    copy: bool,
    paste: bool,
    cut: bool,
    scene: Option<&SceneShape>,
) -> bool {
    let clip = clip_after(o, copy, cut, scene);
    paste && clip > 0 && o.view_mode == ViewMode::Stack ==> (state_cursor(o.state) matches Some(c)
        ==> c.1 + clip <= usize::MAX)
}

impl SceneNav {
    /// Applies the clipboard events of one frame while a frame has the cursor: a cut (else a
    /// copy) of a non-empty selection, then a paste of a non-empty clipboard, over the
    /// frames from the cursor on in the sequencer view and after the cursor in the stack
    /// view. Returns the clipboard's new length after a cut or copy, for the text put on
    /// the system clipboard.
    pub fn handle_clipboard(
        &mut self,
        copy: bool,
        paste: bool,
        cut: bool,
        scene: Option<&SceneShape>,
        connected: bool,
        out: &mut Vec<SceneCommand>,
    ) -> (r: Option<usize>)
        requires
            old(self).wf(),
            clipboard_fits(*old(self), copy, paste, cut, scene),
        ensures
            final(self).wf(),
            match state_cursor(old(self).state) {
                None => *final(self) == *old(self) && final(out)@ == old(out)@ && r is None,
                Some(c) => {
                    let o = *old(self);
                    let sel = o.selection@;
                    let cutting = cut && sel.len() > 0;
                    let taking = cutting || (copy && sel.len() > 0);
                    let got = match scene {
                        Some(sh) => existing(sel, *sh),
                        None => Seq::empty(),
                    };
                    let clip = if taking && scene is Some {
                        got.len() as usize
                    } else {
                        o.clipboard_len
                    };
                    let copied = if taking && scene is Some {
                        clipboard_copy(got)
                    } else {
                        Seq::empty()
                    };
                    let removed = if cutting {
                        sort_frame_desc(sel).map_values(
                            |p: (usize, usize)| SceneCommand::RemoveFrame { line: p.0, index: p.1 },
                        )
                    } else {
                        Seq::empty()
                    };
                    let mid = if cutting {
                        SceneNav {
                            clipboard_len: clip,
                            state: SceneState::Empty,
                            anchor: None,
                            sequencer_inline_edit: None,
                            sequencer_line_speed_focus: None,
                            ..o
                        }
                    } else {
                        SceneNav { clipboard_len: clip, ..o }
                    };
                    let mid_sel = if cutting {
                        Seq::empty()
                    } else {
                        sel
                    };
                    let first = old(out)@ + copied + removed;
                    &&& r == if taking {
                        Some(clip)
                    } else {
                        None
                    }
                    &&& if paste && clip > 0 {
                        if o.view_mode == ViewMode::Sequencer {
                            pasted_over(
                                mid,
                                mid_sel,
                                *final(self),
                                c.0,
                                c.1,
                                scene,
                                connected,
                                first,
                                final(out)@,
                            )
                        } else {
                            pasted_after(mid, *final(self), c.0, c.1, connected, first, final(out)@)
                        }
                    } else {
                        &&& final(self).selection@ == mid_sel
                        &&& *final(self) == (SceneNav { selection: final(self).selection, ..mid })
                        &&& final(out)@ == first
                    }
                },
            },
    {
        let (li, fi) = match self.state.cursor() {
            Some(c) => c,
            None => return None,
        };
        let ghost o = *self;
        let ghost sel = self.selection@;
        proof {
            if let Some(sh) = scene {
                reveal_with_fuel(Seq::filter, 1);
                sel.filter_lemma(|p: (usize, usize)| has_frame(*sh, p));
            }
        }
        let mut r: Option<usize> = None;
        let ghost before = out@;
        if cut && self.selection.len() > 0 {
            self.cut_selection(scene, out);
            proof {
                assert(self.selection@ =~= Seq::<(usize, usize)>::empty());
            }
            r = Some(self.clipboard_len);
        } else if copy && self.selection.len() > 0 {
            self.copy_selection(scene, out);
            proof {
                if scene is None {
                    assert(out@ == before + Seq::<SceneCommand>::empty() + Seq::<SceneCommand>::empty());
                } else {
                    assert(out@ == before + clipboard_copy(existing(sel, *scene->0)) + Seq::<SceneCommand>::empty());
                }
            }
            r = Some(self.clipboard_len);
        } else {
            proof {
                assert(out@ == before + Seq::<SceneCommand>::empty() + Seq::<SceneCommand>::empty());
            }
        }
        if paste && self.clipboard_len > 0 {
            match self.view_mode {
                ViewMode::Sequencer => self.paste_replace(li, fi, scene, connected, out),
                ViewMode::Stack => self.paste_after(li, fi, connected, out),
            }
        }
        r
    }
}


/// The keys pressed in one frame, as the scene panel reads them. `wake` is any of arrow
/// down, arrow right, `j` or `l`, whatever the modifiers; the other letter fields are the
/// key with no modifier, `shift_*` with shift alone, `cmd_*` with the command modifier (and
/// without shift unless named), `alt_*` with alt, and `ctrl_*` with the command modifier.
/// The arrows also answer to `k`, `j`, `h` and `l` with no modifier; `delete` is Delete or
/// Backspace; `enter` is Enter without command or control.
#[derive(Clone, Copy, Debug)]
pub struct NavKeys {
    pub wake: bool,
    pub up: bool,
    pub down: bool,
    pub left: bool,
    pub right: bool,
    pub shift: bool,
    pub delete: bool,
    pub cmd_d: bool,
    pub cmd_shift_d: bool,
    pub shift_i: bool,
    pub cmd_shift_i: bool,
    pub shift_j: bool,
    pub shift_k: bool,
    pub shift_e: bool,
    pub e: bool,
    pub r: bool,
    pub comma: bool,
    pub p: bool,
    pub enter: bool,
    pub i: bool,
    pub escape: bool,
    pub ctrl_a: bool,
    pub ctrl_delete: bool,
    pub alt_h: bool,
    pub alt_l: bool,
    pub f: bool,
    pub o: bool,
    pub shift_o: bool,
    pub shift_s: bool,
    pub m: bool,
    pub x: bool,
    pub b: bool,
    pub c: bool,
    pub d: bool,
    pub a: bool,
    pub s: bool,
    pub t: bool,
    pub y: bool,
    pub z: bool,
}

/// What the keys of one frame made the scene panel do.
#[derive(Clone, Copy, Debug, PartialEq, Eq)]
pub enum KeyOutcome {
    Nothing,
    Navigate { pos: (usize, usize) },
    Extend { pos: (usize, usize) },
    SelectPrelude { index: usize },
    EditFrame,
    EditPrelude { index: usize },
    RemovePrelude { index: usize },
    DuplicatePrelude { index: usize },
    Deselect,
    EnterFocus,
    InlineEdit { field: SequencerInlineField },
    LineSpeed,
    MoveFrames { later: bool },
    MoveLine { left: bool },
    RemoveFrames,
    Duplicate,
    CopyLine,
    InsertFrame { at: usize },
    ToggleLineEnabled,
    ToggleEnabled,
    ToggleFlag { flag: LineFlag },
    AddLine { at: usize },
    ClearFrames,
    RunSnippet,
    SelectLine,
    RemoveLine,
}


/// `n`, and the commands `after` that follow `before`, are what inserting a new frame at
/// (li, at) gives from `o`: the cursor goes onto it, and its language picker opens in the
/// stack view.
pub open spec fn frame_inserted(
    o: SceneNav,
    n: SceneNav,
    li: usize,
    at: usize,
    connected: bool,
    before: Seq<SceneCommand>,
    after: Seq<SceneCommand>,
) -> bool {
    &&& n.open_picker_on_cursor == (o.view_mode == ViewMode::Stack)
    &&& nav_navigated(o, SceneNav { open_picker_on_cursor: o.open_picker_on_cursor, ..n }, (li, at))
    &&& after == before.push(
        SceneCommand::AddFrame { line: li, index: at, source: FrameSource::NewFrame },
    ) + cursor_report((li, at), connected)
}

/// `n`, and the commands `after` that follow `before`, are what inserting a blank line at
/// `at` gives from `o`: the cursor goes onto its first frame; with `picker`, the language
/// picker opens there in the stack view.
pub open spec fn line_inserted(
    o: SceneNav,
    n: SceneNav,
    at: usize,
    picker: bool,
    connected: bool,
    before: Seq<SceneCommand>,
    after: Seq<SceneCommand>,
) -> bool {
    &&& n.open_picker_on_cursor == if picker {
        o.view_mode == ViewMode::Stack
    } else {
        o.open_picker_on_cursor
    }
    &&& nav_navigated(o, SceneNav { open_picker_on_cursor: o.open_picker_on_cursor, ..n }, (at, 0))
    &&& after == before.push(SceneCommand::AddLine { index: at, source: LineSource::Blank })
        + cursor_report((at, 0), connected)
}

/// `fi` kept inside a line of `len` frames (0 for an empty line).
pub open spec fn clamp_fi(fi: usize, len: int) -> usize {
    if len == 0 {
        0
    } else if fi < len - 1 {
        fi
    } else {
        (len - 1) as usize
    }
}

/// A move along the line: shift extends the selection, else the cursor navigates.
pub open spec fn stepped(shift: bool, pos: (usize, usize)) -> KeyOutcome {
    if shift {
        KeyOutcome::Extend { pos }
    } else {
        KeyOutcome::Navigate { pos }
    }
}

/// Where the arrow keys take the cursor at (li, fi): along the line first, then to the
/// neighbouring lines (keeping the frame index inside them), and from the first line of
/// the sequencer up to the prelude. The sequencer lays lines out as columns, so left/right
/// change the line there and up/down the frame; the stack view is the other way round.
pub open spec fn motion(o: SceneNav, k: NavKeys, sh: SceneShape, li: usize, fi: usize) -> Option<
    KeyOutcome,
> {
    let seq_view = o.view_mode == ViewMode::Sequencer;
    let frame_prev = if seq_view {
        k.left
    } else {
        k.up
    };
    let frame_next = if seq_view {
        k.right
    } else {
        k.down
    };
    let line_prev = if seq_view {
        k.up
    } else {
        k.left
    };
    let line_next = if seq_view {
        k.down
    } else {
        k.right
    };
    let len = line_len(sh, li as int);
    let nl = sh.lines@.len();
    if frame_prev && fi > 0 {
        Some(stepped(k.shift, (li, (fi - 1) as usize)))
    } else if frame_next && fi + 1 < len {
        Some(stepped(k.shift, (li, (fi + 1) as usize)))
    } else if line_prev && li > 0 {
        Some(
            KeyOutcome::Navigate {
                pos: ((li - 1) as usize, clamp_fi(fi, line_len(sh, li - 1))),
            },
        )
    } else if line_prev && li == 0 && seq_view && o.prelude_count > 0 {
        Some(KeyOutcome::SelectPrelude { index: 0 })
    } else if line_next && li + 1 < nl {
        Some(
            KeyOutcome::Navigate {
                pos: ((li + 1) as usize, clamp_fi(fi, line_len(sh, li + 1))),
            },
        )
    } else {
        None
    }
}

/// What the keys `k` do with the cursor on (li, fi) of the scene `sh`, in priority order.
pub open spec fn nav_key_action(o: SceneNav, k: NavKeys, sh: SceneShape, li: usize, fi: usize) -> KeyOutcome {
    let seq_view = o.view_mode == ViewMode::Sequencer;
    let len = line_len(sh, li as int);
    let has_sel = o.selection@.len() > 0;
    if (k.enter || (!seq_view && k.i)) && len > 0 {
        KeyOutcome::EditFrame
    } else if k.escape {
        if seq_view && len > 0 {
            KeyOutcome::EditFrame
        } else {
            KeyOutcome::Deselect
        }
    } else if k.f && !seq_view && len > 0 {
        KeyOutcome::EnterFocus
    } else if seq_view && (k.t || k.y) {
        if has_frame(sh, (li, fi)) {
            KeyOutcome::InlineEdit {
                field: if k.t {
                    SequencerInlineField::Duration
                } else {
                    SequencerInlineField::Repetitions
                },
            }
        } else {
            KeyOutcome::Nothing
        }
    } else if seq_view && k.shift_s {
        KeyOutcome::LineSpeed
    } else if k.shift_j && has_sel {
        KeyOutcome::MoveFrames { later: true }
    } else if k.shift_k && has_sel {
        KeyOutcome::MoveFrames { later: false }
    } else if k.alt_h {
        KeyOutcome::MoveLine { left: true }
    } else if k.alt_l {
        KeyOutcome::MoveLine { left: false }
    } else if motion(o, k, sh, li, fi) is Some {
        motion(o, k, sh, li, fi)->0
    } else if k.delete && !k.ctrl_delete {
        if has_sel {
            KeyOutcome::RemoveFrames
        } else {
            KeyOutcome::Nothing
        }
    } else if k.cmd_d || (seq_view && k.d) {
        KeyOutcome::Duplicate
    } else if k.cmd_shift_d {
        KeyOutcome::CopyLine
    } else if k.shift_i || (seq_view && k.i) {
        KeyOutcome::InsertFrame { at: (fi + 1) as usize }
    } else if k.cmd_shift_i || (seq_view && k.b) {
        KeyOutcome::InsertFrame { at: fi }
    } else if k.shift_e {
        KeyOutcome::ToggleLineEnabled
    } else if k.e {
        KeyOutcome::ToggleEnabled
    } else if k.r {
        KeyOutcome::ToggleFlag { flag: LineFlag::Looping }
    } else if k.comma {
        KeyOutcome::ToggleFlag { flag: LineFlag::Trailing }
    } else if k.m {
        KeyOutcome::ToggleFlag { flag: LineFlag::Manual }
    } else if k.o {
        KeyOutcome::AddLine { at: (li + 1) as usize }
    } else if k.shift_o || (seq_view && k.a) {
        KeyOutcome::AddLine { at: li }
    } else if seq_view && k.s {
        KeyOutcome::CopyLine
    } else if k.x || (seq_view && k.c) {
        KeyOutcome::ClearFrames
    } else if k.p {
        if has_frame(sh, (li, fi)) {
            KeyOutcome::RunSnippet
        } else {
            KeyOutcome::Nothing
        }
    } else if k.ctrl_a {
        KeyOutcome::SelectLine
    } else if k.ctrl_delete || (seq_view && k.z) {
        KeyOutcome::RemoveLine
    } else {
        KeyOutcome::Nothing
    }
}

/// `n`, and the commands `after` that follow `before`, are what the outcome `a` does from
/// `o` with the cursor on (li, fi) of the scene `sh`.
pub open spec fn key_effect(
    o: SceneNav,
    n: SceneNav,
    a: KeyOutcome,
    li: usize,
    fi: usize,
    sh: SceneShape,
    connected: bool,
    before: Seq<SceneCommand>,
    after: Seq<SceneCommand>,
) -> bool {
    match a {
        KeyOutcome::Nothing => n == o && after == before,
        KeyOutcome::Navigate { pos } => nav_navigated(o, n, pos) && after == before
            + cursor_report(pos, connected),
        KeyOutcome::Extend { pos } => extended(after_move(o, pos), n, pos) && after == before
            + cursor_report(pos, connected),
        KeyOutcome::SelectPrelude { index } => nav_prelude(o, n, index) && after == before,
        KeyOutcome::EditFrame => nav_frame_edit(o, n, (li, fi)) && after == before.push(
            SceneCommand::FocusFrameEditor { line: li, frame: fi },
        ),
        KeyOutcome::EditPrelude { index } => nav_prelude_edit(o, n, index) && after
            == before.push(SceneCommand::FocusPreludeEditor { index }),
        KeyOutcome::RemovePrelude { index } => {
            &&& after == before.push(SceneCommand::RemovePrelude { index })
            &&& if o.prelude_count <= 1 {
                nav_deselected(o, n)
            } else if index + 1 >= o.prelude_count {
                nav_prelude(o, n, if index > 0 {
                    (index - 1) as usize
                } else {
                    0
                })
            } else {
                n == o
            }
        },
        KeyOutcome::DuplicatePrelude { index } => after == before.push(
            SceneCommand::DuplicatePrelude { index },
        ) && nav_prelude(o, n, (index + 1) as usize),
        KeyOutcome::Deselect => nav_deselected(o, n) && after == before,
        KeyOutcome::EnterFocus => nav_focused(o, n, (li, fi)) && after == before,
        KeyOutcome::InlineEdit { field } => {
            &&& n.sequencer_inline_edit matches Some(e) && e.target == (li, fi) && e.field == field
                && e.buffer@ == prefill(sh, li, fi, field) && e.request_focus
            &&& n == (SceneNav {
                sequencer_inline_edit: n.sequencer_inline_edit,
                scroll_to_cursor: true,
                ..o
            })
            &&& after == before
        },
        KeyOutcome::LineSpeed => n == (SceneNav {
            sequencer_line_speed_focus: Some(li),
            scroll_to_cursor: true,
            ..o
        }) && after == before,
        KeyOutcome::MoveFrames { later } => {
            &&& n.pending_mutation_flashes@ == o.pending_mutation_flashes@ + n.selection@
            &&& frames_moved(
                o,
                SceneNav { pending_mutation_flashes: o.pending_mutation_flashes, ..n },
                later,
                sh,
                connected,
                before,
                after,
            )
        },
        KeyOutcome::MoveLine { left } => line_moved(o, n, li, left, sh, connected, before, after),
        KeyOutcome::RemoveFrames => {
            &&& n.overlay matches Overlay::ConfirmDialog {
                action: PendingDestructive::RemoveFrames(f),
            } && f@ == o.selection@
            &&& n == (SceneNav { overlay: n.overlay, ..o })
            &&& after == before.push(
                SceneCommand::ConfirmRemoveFrames { count: o.selection@.len() as usize },
            )
        },
        KeyOutcome::Duplicate => duplicated(o, n, li, fi, sh, connected, before, after),
        KeyOutcome::CopyLine => n == o && after == before + if li < sh.lines@.len() {
            seq![
                SceneCommand::AddLine {
                    index: (li + 1) as usize,
                    source: LineSource::SceneLine { line: li },
                },
            ]
        } else {
            Seq::empty()
        },
        KeyOutcome::InsertFrame { at } => frame_inserted(o, n, li, at, connected, before, after),
        KeyOutcome::ToggleLineEnabled => n == o && line_enable_sent(sh, li, before, after),
        KeyOutcome::ToggleEnabled => n == o && after == before + if has_frame(sh, (li, fi)) {
            seq![
                SceneCommand::SetFrameEnabled {
                    line: li,
                    index: fi,
                    enabled: !sh.lines@[li as int]@[fi as int],
                },
            ]
        } else {
            Seq::empty()
        },
        KeyOutcome::ToggleFlag { flag } => n == o && after == before + if li < sh.lines@.len() {
            seq![SceneCommand::ToggleLineFlag { line: li, flag }]
        } else {
            Seq::empty()
        },
        KeyOutcome::AddLine { at } => line_inserted(o, n, at, false, connected, before, after),
        KeyOutcome::ClearFrames => n == o && after == before + existing(o.selection@, sh).map_values(
            |p: (usize, usize)| SceneCommand::ClearFrameScript { line: p.0, index: p.1 },
        ),
        KeyOutcome::RunSnippet => {
            &&& n.pending_compilation_flashes@ == o.pending_compilation_flashes@.push(
                ((li, fi), true),
            )
            &&& n == (SceneNav { pending_compilation_flashes: n.pending_compilation_flashes, ..o })
            &&& after == before.push(SceneCommand::RunSnippet { line: li, frame: fi })
        },
        KeyOutcome::SelectLine => {
            &&& n.selection@ == Seq::new(
                line_len(sh, li as int) as nat,
                |f: int| (li, f as usize),
            )
            &&& n == (SceneNav { selection: n.selection, ..o })
            &&& after == before
        },
        KeyOutcome::RemoveLine => n == (SceneNav {
            overlay: Overlay::ConfirmDialog { action: PendingDestructive::RemoveLine(li) },
            ..o
        }) && after == before.push(SceneCommand::ConfirmRemoveLine { line: li }),
    }
}


/// The prelude script a state has selected, when it has one.
pub open spec fn state_prelude(s: SceneState) -> Option<usize> {
    match s {
        SceneState::NavigatingPrelude { index } => Some(index),
        SceneState::EditingPrelude { index } => Some(index),
        _ => None,
    }
}

/// What the keys `k` do while prelude script `idx` is selected: with no prelude shown the
/// cursor goes to the first frame; otherwise (with `idx` kept inside the prelude) escape or
/// enter edit the script, delete removes it and command-d duplicates it (when the scene has
/// it), down goes to the first frame, left and right select the neighbouring scripts.
pub open spec fn prelude_key_action(o: SceneNav, k: NavKeys, sh: SceneShape, idx: usize) -> KeyOutcome {
    let count = o.prelude_count;
    if count == 0 {
        KeyOutcome::Navigate { pos: (0, 0) }
    } else {
        let i = if idx < count - 1 {
            idx
        } else {
            (count - 1) as usize
        };
        if k.escape || k.enter {
            KeyOutcome::EditPrelude { index: i }
        } else if k.delete {
            if i < sh.prelude_len {
                KeyOutcome::RemovePrelude { index: i }
            } else {
                KeyOutcome::Nothing
            }
        } else if k.cmd_d {
            if i < sh.prelude_len {
                KeyOutcome::DuplicatePrelude { index: i }
            } else {
                KeyOutcome::Nothing
            }
        } else if k.down && sh.lines@.len() > 0 && sh.lines@[0]@.len() > 0 {
            KeyOutcome::Navigate { pos: (0, 0) }
        } else if k.left && i > 0 {
            KeyOutcome::SelectPrelude { index: (i - 1) as usize }
        } else if k.right && i + 1 < count {
            KeyOutcome::SelectPrelude { index: (i + 1) as usize }
        } else {
            KeyOutcome::Nothing
        }
    }
}

/// Doing outcome `a` with the cursor on frame `fi` computes no position past the machine
/// limit (see [`later_fits`] and [`dup_fits`]); the other outcomes work on positions of
/// the scene.
pub open spec fn key_fits(o: SceneNav, a: KeyOutcome, fi: usize, sh: SceneShape) -> bool {
    match a {
        KeyOutcome::MoveFrames { later } => later ==> later_fits(o, sh),
        KeyOutcome::Duplicate => dup_fits(o, fi, sh),
        _ => true,
    }
}

/// The keys `k` of one frame, on the scene `sh`, compute no position past the machine
/// limit: the outcome they pick, once the cursor is brought inside the scene, fits (see
/// [`key_fits`]).
pub open spec fn keyboard_fits(o: SceneNav, k: NavKeys, sh: SceneShape) -> bool {
    let nl = sh.lines@.len();
    match state_prelude(o.state) {
        Some(_) => true,
        None => match state_cursor(o.state) {
            None => true,
            Some(c) => if nl == 0 {
                true
            } else {
                let li = if c.0 < nl - 1 {
                    c.0
                } else {
                    (nl - 1) as usize
                };
                let fi = clamp_fi(c.1, line_len(sh, li as int));
                let mid = if li != c.0 || fi != c.1 {
                    after_move(o, (li, fi))
                } else {
                    o
                };
                key_fits(mid, nav_key_action(mid, k, sh, li, fi), fi, sh)
            },
        },
    }
}

/// `n`, the outcome `a` and the commands `after` that follow `before` are what the keys `k`
/// of one frame do from `o` in the scene `sh`. With a prelude script selected the prelude
/// keys apply. Without a cursor, a navigation key puts it on the first frame. With a cursor,
/// an empty scene clears the selection; otherwise the cursor is first brought back inside
/// the scene (a cursor move), then the keys apply at that place.
pub open spec fn keyboard_effect(
    o: SceneNav,
    n: SceneNav,
    a: KeyOutcome,
    k: NavKeys,
    sh: SceneShape,
    connected: bool,
    before: Seq<SceneCommand>,
    after: Seq<SceneCommand>,
) -> bool {
    let nl = sh.lines@.len();
    match state_prelude(o.state) {
        Some(idx) => a == prelude_key_action(o, k, sh, idx) && key_effect(
            o,
            n,
            a,
            0,
            0,
            sh,
            connected,
            before,
            after,
        ),
        None => match state_cursor(o.state) {
            None => if k.wake && nl > 0 {
                a == (KeyOutcome::Navigate { pos: (0, 0) }) && nav_navigated(o, n, (0, 0))
                    && after == before + cursor_report((0, 0), connected)
            } else {
                a is Nothing && n == o && after == before
            },
            Some(c) => if nl == 0 {
                a is Deselect && nav_deselected(o, n) && after == before
            } else {
                let li = if c.0 < nl - 1 {
                    c.0
                } else {
                    (nl - 1) as usize
                };
                let fi = clamp_fi(c.1, line_len(sh, li as int));
                let moved = li != c.0 || fi != c.1;
                let mid = if moved {
                    after_move(o, (li, fi))
                } else {
                    o
                };
                let mid_out = if moved {
                    before + cursor_report((li, fi), connected)
                } else {
                    before
                };
                a == nav_key_action(mid, k, sh, li, fi) && key_effect(
                    mid,
                    n,
                    a,
                    li,
                    fi,
                    sh,
                    connected,
                    mid_out,
                    after,
                )
            },
        },
    }
}

fn clamp_frame(fi: usize, len: usize) -> (r: usize)
    ensures
        r == clamp_fi(fi, len as int),
{
    if len == 0 {
        0
    } else if fi < len - 1 {
        fi
    } else {
        len - 1
    }
}

fn copy_positions(v: &Vec<(usize, usize)>) -> (r: Vec<(usize, usize)>)
    ensures
        r@ == v@,
{
    let mut r: Vec<(usize, usize)> = Vec::new();
    let mut i: usize = 0;
    while i < v.len()
        invariant
            i <= v@.len(),
            r@ == v@.take(i as int),
        decreases v@.len() - i,
    {
        r.push(v[i]);
        proof {
            assert(r@ =~= v@.take(i as int + 1));
        }
        i += 1;
    }
    proof {
        assert(v@.take(i as int) =~= v@);
    }
    r
}

impl SceneNav {
    fn nav_motion(&self, k: &NavKeys, sh: &SceneShape, li: usize, fi: usize) -> (r: Option<
        KeyOutcome,
    >)
        requires
            li < sh.lines@.len(),
        ensures
            r == motion(*self, *k, *sh, li, fi),
    {
        let seq_view = self.view_mode == ViewMode::Sequencer;
        let frame_prev = if seq_view {
            k.left
        } else {
            k.up
        };
        let frame_next = if seq_view {
            k.right
        } else {
            k.down
        };
        let line_prev = if seq_view {
            k.up
        } else {
            k.left
        };
        let line_next = if seq_view {
            k.down
        } else {
            k.right
        };
        let len = sh.line_len(li);
        let nl = sh.lines.len();
        if frame_prev && fi > 0 {
            let pos = (li, fi - 1);
            Some(
                if k.shift {
                    KeyOutcome::Extend { pos }
                } else {
                    KeyOutcome::Navigate { pos }
                },
            )
        } else if frame_next && fi < len && fi + 1 < len {
            let pos = (li, fi + 1);
            Some(
                if k.shift {
                    KeyOutcome::Extend { pos }
                } else {
                    KeyOutcome::Navigate { pos }
                },
            )
        } else if line_prev && li > 0 {
            Some(KeyOutcome::Navigate { pos: (li - 1, clamp_frame(fi, sh.line_len(li - 1))) })
        } else if line_prev && li == 0 && seq_view && self.prelude_count > 0 {
            Some(KeyOutcome::SelectPrelude { index: 0 })
        } else if line_next && li + 1 < nl {
            Some(KeyOutcome::Navigate { pos: (li + 1, clamp_frame(fi, sh.line_len(li + 1))) })
        } else {
            None
        }
    }

    fn decide_nav_key(&self, k: &NavKeys, sh: &SceneShape, li: usize, fi: usize) -> (r: KeyOutcome)
        requires
            li < sh.lines@.len(),
            fi < usize::MAX,
        ensures
            r == nav_key_action(*self, *k, *sh, li, fi),
    {
        let seq_view = self.view_mode == ViewMode::Sequencer;
        let len = sh.line_len(li);
        let nl = sh.lines.len();
        let has_sel = self.selection.len() > 0;
        let has_frame = fi < len;
        if (k.enter || (!seq_view && k.i)) && len > 0 {
            return KeyOutcome::EditFrame;
        }
        if k.escape {
            return if seq_view && len > 0 {
                KeyOutcome::EditFrame
            } else {
                KeyOutcome::Deselect
            };
        }
        if k.f && !seq_view && len > 0 {
            return KeyOutcome::EnterFocus;
        }
        if seq_view && (k.t || k.y) {
            return if has_frame {
                KeyOutcome::InlineEdit {
                    field: if k.t {
                        SequencerInlineField::Duration
                    } else {
                        SequencerInlineField::Repetitions
                    },
                }
            } else {
                KeyOutcome::Nothing
            };
        }
        if seq_view && k.shift_s {
            return KeyOutcome::LineSpeed;
        }
        if k.shift_j && has_sel {
            return KeyOutcome::MoveFrames { later: true };
        }
        if k.shift_k && has_sel {
            return KeyOutcome::MoveFrames { later: false };
        }
        if k.alt_h {
            return KeyOutcome::MoveLine { left: true };
        }
        if k.alt_l {
            return KeyOutcome::MoveLine { left: false };
        }
        if let Some(m) = self.nav_motion(k, sh, li, fi) {
            return m;
        }
        if k.delete && !k.ctrl_delete {
            return if has_sel {
                KeyOutcome::RemoveFrames
            } else {
                KeyOutcome::Nothing
            };
        }
        if k.cmd_d || (seq_view && k.d) {
            return KeyOutcome::Duplicate;
        }
        if k.cmd_shift_d {
            return KeyOutcome::CopyLine;
        }
        if k.shift_i || (seq_view && k.i) {
            return KeyOutcome::InsertFrame { at: fi + 1 };
        }
        if k.cmd_shift_i || (seq_view && k.b) {
            return KeyOutcome::InsertFrame { at: fi };
        }
        if k.shift_e {
            return KeyOutcome::ToggleLineEnabled;
        }
        if k.e {
            return KeyOutcome::ToggleEnabled;
        }
        if k.r {
            return KeyOutcome::ToggleFlag { flag: LineFlag::Looping };
        }
        if k.comma {
            return KeyOutcome::ToggleFlag { flag: LineFlag::Trailing };
        }
        if k.m {
            return KeyOutcome::ToggleFlag { flag: LineFlag::Manual };
        }
        if k.o {
            return KeyOutcome::AddLine { at: li + 1 };
        }
        if k.shift_o || (seq_view && k.a) {
            return KeyOutcome::AddLine { at: li };
        }
        if seq_view && k.s {
            return KeyOutcome::CopyLine;
        }
        if k.x || (seq_view && k.c) {
            return KeyOutcome::ClearFrames;
        }
        if k.p {
            return if has_frame {
                KeyOutcome::RunSnippet
            } else {
                KeyOutcome::Nothing
            };
        }
        if k.ctrl_a {
            return KeyOutcome::SelectLine;
        }
        if k.ctrl_delete || (seq_view && k.z) {
            return KeyOutcome::RemoveLine;
        }
        KeyOutcome::Nothing
    }

    fn decide_prelude_key(&self, k: &NavKeys, sh: &SceneShape, idx: usize) -> (r: KeyOutcome)
        ensures
            r == prelude_key_action(*self, *k, *sh, idx),
    {
        let count = self.prelude_count;
        if count == 0 {
            return KeyOutcome::Navigate { pos: (0, 0) };
        }
        let i = if idx < count - 1 {
            idx
        } else {
            count - 1
        };
        if k.escape || k.enter {
            return KeyOutcome::EditPrelude { index: i };
        }
        if k.delete {
            return if i < sh.prelude_len {
                KeyOutcome::RemovePrelude { index: i }
            } else {
                KeyOutcome::Nothing
            };
        }
        if k.cmd_d {
            return if i < sh.prelude_len {
                KeyOutcome::DuplicatePrelude { index: i }
            } else {
                KeyOutcome::Nothing
            };
        }
        if k.down && sh.lines.len() > 0 && sh.lines[0].len() > 0 {
            return KeyOutcome::Navigate { pos: (0, 0) };
        }
        if k.left && i > 0 {
            return KeyOutcome::SelectPrelude { index: i - 1 };
        }
        if k.right && i + 1 < count {
            return KeyOutcome::SelectPrelude { index: i + 1 };
        }
        KeyOutcome::Nothing
    }
}


impl SceneNav {
    /// Does what the outcome `a` stands for, with the cursor on (li, fi).
    fn perform_key(
        &mut self,
        a: KeyOutcome,
        li: usize,
        fi: usize,
        sh: &SceneShape,
        connected: bool,
        out: &mut Vec<SceneCommand>,
    )
        requires
            old(self).wf(),
            key_fits(*old(self), a, fi, *sh),
            li < usize::MAX,
            fi < usize::MAX,
            a matches KeyOutcome::DuplicatePrelude { index } ==> index < usize::MAX,
        ensures
            final(self).wf(),
            key_effect(*old(self), *final(self), a, li, fi, *sh, connected, old(out)@, final(out)@),
    {
        match a {
            KeyOutcome::Nothing => {},
            KeyOutcome::Navigate { pos } => self.navigate_to_frame(pos, connected, out),
            KeyOutcome::Extend { pos } => {
                self.move_cursor(pos, connected, out);
                self.extend_selection(pos);
            },
            KeyOutcome::SelectPrelude { index } => self.navigate_to_prelude(index),
            KeyOutcome::EditFrame => self.enter_frame_edit((li, fi), out),
            KeyOutcome::EditPrelude { index } => self.enter_prelude_edit(index, out),
            KeyOutcome::RemovePrelude { index } => {
                out.push(SceneCommand::RemovePrelude { index });
                if self.prelude_count <= 1 {
                    self.deselect_all();
                } else if index >= self.prelude_count - 1 {
                    self.navigate_to_prelude(index.saturating_sub(1));
                }
            },
            KeyOutcome::DuplicatePrelude { index } => {
                out.push(SceneCommand::DuplicatePrelude { index });
                self.navigate_to_prelude(index + 1);
            },
            KeyOutcome::Deselect => self.deselect_all(),
            KeyOutcome::EnterFocus => self.enter_focus_mode((li, fi)),
            KeyOutcome::InlineEdit { field } => {
                let text = sh.prefill_text(li, fi, field);
                self.begin_sequencer_inline_edit((li, fi), field, text);
            },
            KeyOutcome::LineSpeed => self.begin_sequencer_line_speed_focus(li),
            KeyOutcome::MoveFrames { later } => {
                let direction: i32 = if later {
                    1
                } else {
                    -1
                };
                self.move_frames_vertical(direction, Some(sh), connected, out);
                let ghost moved = *self;
                let mut i: usize = 0;
                while i < self.selection.len()
                    invariant
                        i <= self.selection@.len(),
                        self.selection == moved.selection,
                        *self == (SceneNav {
                            pending_mutation_flashes: self.pending_mutation_flashes,
                            ..moved
                        }),
                        self.pending_mutation_flashes@ == moved.pending_mutation_flashes@
                            + moved.selection@.take(i as int),
                    decreases self.selection@.len() - i,
                {
                    let p = self.selection[i];
                    self.pending_mutation_flashes.push(p);
                    proof {
                        assert(moved.selection@.take(i as int + 1) =~= moved.selection@.take(
                            i as int,
                        ).push(p));
                    }
                    i += 1;
                }
                proof {
                    assert(moved.selection@.take(i as int) =~= moved.selection@);
                }
            },
            KeyOutcome::MoveLine { left } => {
                let direction: i32 = if left {
                    -1
                } else {
                    1
                };
                self.move_line_horizontal(li, direction, Some(sh), connected, out);
            },
            KeyOutcome::RemoveFrames => {
                let frames = copy_positions(&self.selection);
                self.request_remove_frames(frames, out);
            },
            KeyOutcome::Duplicate => self.duplicate_selected_frames(li, fi, sh, connected, out),
            KeyOutcome::CopyLine => {
                if li < sh.lines.len() {
                    let c = SceneCommand::AddLine {
                        index: li + 1,
                        source: LineSource::SceneLine { line: li },
                    };
                    out.push(c);
                    proof {
                        assert(out@ =~= old(out)@ + seq![c]);
                    }
                } else {
                    proof {
                        assert(out@ =~= old(out)@ + Seq::<SceneCommand>::empty());
                    }
                }
            },
            KeyOutcome::InsertFrame { at } => {
                out.push(SceneCommand::AddFrame { line: li, index: at, source: FrameSource::NewFrame });
                self.navigate_to_frame((li, at), connected, out);
                self.open_picker_on_cursor = self.should_auto_open_picker_after_insert();
            },
            KeyOutcome::ToggleLineEnabled => self.toggle_line_enabled(li, Some(sh), out),
            KeyOutcome::ToggleEnabled => self.toggle_enabled(li, fi, Some(sh), out),
            KeyOutcome::ToggleFlag { flag } => self.toggle_line_field(li, flag, Some(sh), out),
            KeyOutcome::AddLine { at } => {
                out.push(SceneCommand::AddLine { index: at, source: LineSource::Blank });
                self.navigate_to_frame((at, 0), connected, out);
            },
            KeyOutcome::ClearFrames => self.clear_selected_frames(sh, out),
            KeyOutcome::RunSnippet => {
                out.push(SceneCommand::RunSnippet { line: li, frame: fi });
                self.pending_compilation_flashes.push(((li, fi), true));
            },
            KeyOutcome::SelectLine => {
                let len = sh.line_len(li);
                let mut sel: Vec<(usize, usize)> = Vec::new();
                let mut f: usize = 0;
                while f < len
                    invariant
                        f <= len,
                        sel@ == Seq::new(f as nat, |j: int| (li, j as usize)),
                    decreases len - f,
                {
                    sel.push((li, f));
                    proof {
                        assert(sel@ =~= Seq::new((f + 1) as nat, |j: int| (li, j as usize)));
                    }
                    f += 1;
                }
                self.selection = sel;
            },
            KeyOutcome::RemoveLine => self.request_remove_line(li, out),
        }
    }

    /// Handles the navigation keys of one frame (see [`keyboard_effect`]) and says what they
    /// did. The commands go to `out`; nothing happens without a scene.
    pub fn handle_keyboard(
        &mut self,
        keys: &NavKeys,
        scene: Option<&SceneShape>,
        connected: bool,
        out: &mut Vec<SceneCommand>,
    ) -> (a: KeyOutcome)
        requires
            old(self).wf(),
            scene matches Some(sh) ==> keyboard_fits(*old(self), *keys, *sh),
        ensures
            final(self).wf(),
            match scene {
                None => a is Nothing && *final(self) == *old(self) && final(out)@ == old(out)@,
                Some(sh) => keyboard_effect(
                    *old(self),
                    *final(self),
                    a,
                    *keys,
                    *sh,
                    connected,
                    old(out)@,
                    final(out)@,
                ),
            },
    {
        let sh = match scene {
            Some(sh) => sh,
            None => return KeyOutcome::Nothing,
        };
        let nl = sh.lines.len();
        if let Some(idx) = self.state.selected_prelude() {
            let a = self.decide_prelude_key(keys, sh, idx);
            self.perform_key(a, 0, 0, sh, connected, out);
            return a;
        }
        let (orig_li, orig_fi) = match self.state.cursor() {
            Some(c) => c,
            None => {
                if keys.wake && nl > 0 {
                    self.navigate_to_frame((0, 0), connected, out);
                    return KeyOutcome::Navigate { pos: (0, 0) };
                }
                return KeyOutcome::Nothing;
            },
        };
        if nl == 0 {
            self.deselect_all();
            return KeyOutcome::Deselect;
        }
        let li = if orig_li < nl - 1 {
            orig_li
        } else {
            nl - 1
        };
        let fi = clamp_frame(orig_fi, sh.line_len(li));
        if li != orig_li || fi != orig_fi {
            self.move_cursor((li, fi), connected, out);
        }
        let a = self.decide_nav_key(keys, sh, li, fi);
        self.perform_key(a, li, fi, sh, connected, out);
        a
    }
}


/// An entry of the scene panel's context menu.
#[derive(Clone, Copy, PartialEq, Eq, Structural, Debug)]
pub enum ContextItem {
    Cut,
    Copy,
    Paste,
    InsertFrameBefore,
    InsertFrameAfter,
    DuplicateFrames,
    MoveUp,
    MoveDown,
    ToggleEnabled,
    SetStartFrame,
    SetEndFrame,
    RemoveFrames,
    InsertLineBefore,
    InsertLineAfter,
    DuplicateLine,
    MoveLeft,
    MoveRight,
    ToggleLooping,
    ToggleTrailing,
    ClearFrameRange,
    RemoveLine,
}

/// A context menu entry and whether it can be chosen.
#[derive(Clone, Copy, Debug, PartialEq, Eq)]
pub struct MenuEntry {
    pub item: ContextItem,
    pub enabled: bool,
}

/// The lowest frame index of a non-empty list of positions.
pub open spec fn min_frame(s: Seq<(usize, usize)>) -> usize
    decreases s.len(),
{
    if s.len() <= 1 {
        s[0].1
    } else if s.last().1 < min_frame(s.drop_last()) {
        s.last().1
    } else {
        min_frame(s.drop_last())
    }
}

/// The highest frame index of a non-empty list of positions.
pub open spec fn max_frame(s: Seq<(usize, usize)>) -> usize
    decreases s.len(),
{
    if s.len() <= 1 {
        s[0].1
    } else if s.last().1 > max_frame(s.drop_last()) {
        s.last().1
    } else {
        max_frame(s.drop_last())
    }
}

pub open spec fn entry(item: ContextItem, enabled: bool) -> MenuEntry {
    MenuEntry { item, enabled }
}

/// The context menu of a cell or a line header. On a cell: moving the selection up needs a
/// frame before its lowest frame, moving it down a frame after its highest one (the cell's
/// own frame stands for an empty selection); pasting needs a non-empty clipboard; inserting
/// a single frame is offered only for at most one selected frame. On a header: moving the
/// line needs a line on that side.
pub open spec fn context_entries(o: SceneNav, target: ContextTarget, scene: Option<&SceneShape>) -> Seq<
    MenuEntry,
> {
    match target {
        ContextTarget::Cell(li, fi) => {
            let sel = o.selection@;
            let len = match scene {
                Some(sh) => line_len(*sh, li as int),
                None => 0,
            };
            let lo = if sel.len() > 0 {
                min_frame(sel)
            } else {
                fi
            };
            let hi = if sel.len() > 0 {
                max_frame(sel)
            } else {
                fi
            };
            seq![
                entry(ContextItem::Cut, true),
                entry(ContextItem::Copy, true),
                entry(ContextItem::Paste, o.clipboard_len > 0),
            ] + if sel.len() > 1 {
                Seq::empty()
            } else {
                seq![
                    entry(ContextItem::InsertFrameBefore, true),
                    entry(ContextItem::InsertFrameAfter, true),
                ]
            } + seq![
                entry(ContextItem::DuplicateFrames, true),
                entry(ContextItem::MoveUp, lo > 0),
                entry(ContextItem::MoveDown, hi + 1 < len),
                entry(ContextItem::ToggleEnabled, true),
                entry(ContextItem::SetStartFrame, true),
                entry(ContextItem::SetEndFrame, true),
                entry(ContextItem::RemoveFrames, true),
            ]
        },
        ContextTarget::Header(li) => {
            let nl = match scene {
                Some(sh) => sh.lines@.len() as int,
                None => 0,
            };
            seq![
                entry(ContextItem::InsertLineBefore, true),
                entry(ContextItem::InsertLineAfter, true),
                entry(ContextItem::DuplicateLine, true),
                entry(ContextItem::MoveLeft, li > 0),
                entry(ContextItem::MoveRight, li + 1 < nl),
                entry(ContextItem::ToggleLooping, true),
                entry(ContextItem::ToggleTrailing, true),
                entry(ContextItem::ClearFrameRange, true),
                entry(ContextItem::RemoveLine, true),
            ]
        },
    }
}

/// The scene has line `li`.
pub open spec fn has_line(scene: Option<&SceneShape>, li: usize) -> bool {
    match scene {
        Some(sh) => li < sh.lines@.len(),
        None => false,
    }
}

/// The command `c` when the scene has line `li`, else nothing.
pub open spec fn if_line(scene: Option<&SceneShape>, li: usize, c: SceneCommand) -> Seq<SceneCommand> {
    if has_line(scene, li) {
        seq![c]
    } else {
        Seq::empty()
    }
}

/// The commands that flip the enabled flag of each selected frame the scene has.
pub open spec fn toggle_cmds(sel: Seq<(usize, usize)>, sh: SceneShape) -> Seq<SceneCommand> {
    existing(sel, sh).map_values(
        |p: (usize, usize)|
            SceneCommand::SetFrameEnabled {
                line: p.0,
                index: p.1,
                enabled: !sh.lines@[p.0 as int]@[p.1 as int],
            },
    )
}

/// `n`, and the commands `after` that follow `before`, are what choosing `item` in the
/// context menu of `target` gives from `o`. Every entry but the removals closes the menu;
/// removing asks for a confirmation instead (removing an empty selection just closes the
/// menu). An item that does not belong to the target's menu does nothing.
pub open spec fn context_effect(
    o: SceneNav,
    n: SceneNav,
    target: ContextTarget,
    item: ContextItem,
    scene: Option<&SceneShape>,
    connected: bool,
    before: Seq<SceneCommand>,
    after: Seq<SceneCommand>,
) -> bool {
    let closed = SceneNav { overlay: o.overlay, ..n };
    let hides = n.overlay is Hidden;
    let sel = o.selection@;
    let same = closed == o;
    match target {
        ContextTarget::Cell(li, fi) => match item {
            ContextItem::Cut => hides && cut_done(o, closed, scene, before, after),
            ContextItem::Copy => hides && copied_done(o, closed, scene, before, after),
            ContextItem::Paste => hides && if o.view_mode == ViewMode::Sequencer {
                pasted_over(o, sel, closed, li, fi, scene, connected, before, after)
            } else if o.clipboard_len == 0 {
                same && after == before
            } else {
                pasted_after(o, closed, li, fi, connected, before, after)
            },
            ContextItem::InsertFrameBefore => hides && frame_inserted(
                o,
                closed,
                li,
                fi,
                connected,
                before,
                after,
            ),
            ContextItem::InsertFrameAfter => hides && frame_inserted(
                o,
                closed,
                li,
                (fi + 1) as usize,
                connected,
                before,
                after,
            ),
            ContextItem::DuplicateFrames => {
                let sel_li = if sel.len() > 0 {
                    sel[0].0
                } else {
                    li
                };
                let last_fi = if sel.len() > 0 {
                    sel.last().1
                } else {
                    fi
                };
                &&& hides && same
                &&& after == before + match scene {
                    Some(sh) => copy_adds(sel_li, (last_fi + 1) as usize, existing(sel, *sh)),
                    None => Seq::empty(),
                }
            },
            ContextItem::MoveUp => hides && match scene {
                Some(sh) => frames_moved(o, closed, false, *sh, connected, before, after),
                None => same && after == before,
            },
            ContextItem::MoveDown => hides && match scene {
                Some(sh) => frames_moved(o, closed, true, *sh, connected, before, after),
                None => same && after == before,
            },
            ContextItem::ToggleEnabled => hides && same && after == before + match scene {
                Some(sh) => toggle_cmds(sel, *sh),
                None => Seq::empty(),
            },
            ContextItem::SetStartFrame => hides && same && after == before + if_line(
                scene,
                li,
                SceneCommand::SetLineStart { line: li, frame: fi },
            ),
            ContextItem::SetEndFrame => hides && same && after == before + if_line(
                scene,
                li,
                SceneCommand::SetLineEnd { line: li, frame: fi },
            ),
            ContextItem::RemoveFrames => if sel.len() > 0 {
                &&& n.overlay matches Overlay::ConfirmDialog {
                    action: PendingDestructive::RemoveFrames(f),
                } && f@ == sel
                &&& same
                &&& after == before.push(
                    SceneCommand::ConfirmRemoveFrames { count: sel.len() as usize },
                )
            } else {
                hides && same && after == before
            },
            _ => n == o && after == before,
        },
        ContextTarget::Header(li) => match item {
            ContextItem::InsertLineBefore => hides && line_inserted(
                o,
                closed,
                li,
                true,
                connected,
                before,
                after,
            ),
            ContextItem::InsertLineAfter => hides && line_inserted(
                o,
                closed,
                (li + 1) as usize,
                true,
                connected,
                before,
                after,
            ),
            ContextItem::DuplicateLine => hides && same && after == before + if_line(
                scene,
                li,
                SceneCommand::AddLine {
                    index: (li + 1) as usize,
                    source: LineSource::SceneLine { line: li },
                },
            ),
            ContextItem::MoveLeft => hides && match scene {
                Some(sh) => line_moved(o, closed, li, true, *sh, connected, before, after),
                None => same && after == before,
            },
            ContextItem::MoveRight => hides && match scene {
                Some(sh) => line_moved(o, closed, li, false, *sh, connected, before, after),
                None => same && after == before,
            },
            ContextItem::ToggleLooping => hides && same && after == before + if_line(
                scene,
                li,
                SceneCommand::ToggleLineFlag { line: li, flag: LineFlag::Looping },
            ),
            ContextItem::ToggleTrailing => hides && same && after == before + if_line(
                scene,
                li,
                SceneCommand::ToggleLineFlag { line: li, flag: LineFlag::Trailing },
            ),
            ContextItem::ClearFrameRange => hides && same && after == before + if_line(
                scene,
                li,
                SceneCommand::ClearLineRange { line: li },
            ),
            ContextItem::RemoveLine => n == (SceneNav {
                overlay: Overlay::ConfirmDialog { action: PendingDestructive::RemoveLine(li) },
                ..o
            }) && after == before.push(SceneCommand::ConfirmRemoveLine { line: li }),
            _ => n == o && after == before,
        },
    }
}

/// Choosing `item` on `target` computes no position past the machine limit: a paste after
/// the cell, a frame inserted after it, copies put after the selection, a block moved one
/// place later, or a line inserted or copied after the header's line.
pub open spec fn context_fits(
    o: SceneNav,
    target: ContextTarget,
    item: ContextItem,
    scene: Option<&SceneShape>,
) -> bool {
    match target {
        ContextTarget::Cell(li, fi) => match item {
            ContextItem::Paste => o.view_mode == ViewMode::Stack && o.clipboard_len > 0 ==> fi
                + o.clipboard_len <= usize::MAX,
            ContextItem::InsertFrameAfter => fi < usize::MAX,
            ContextItem::DuplicateFrames => scene matches Some(sh) ==> {
                let sel = o.selection@;
                let last_fi = if sel.len() > 0 {
                    sel.last().1
                } else {
                    fi
                };
                last_fi + existing(sel, *sh).len() <= usize::MAX
            },
            ContextItem::MoveDown => scene matches Some(sh) ==> later_fits(o, *sh),
            _ => true,
        },
        ContextTarget::Header(li) => item == ContextItem::InsertLineAfter || item
            == ContextItem::DuplicateLine ==> li < usize::MAX,
    }
}


/// The lowest and highest frame indices of a non-empty list of positions.
fn frame_bounds(v: &Vec<(usize, usize)>) -> (r: (usize, usize))
    requires
        v@.len() > 0,
    ensures
        r == (min_frame(v@), max_frame(v@)),
{
    let mut lo = v[0].1;
    let mut hi = v[0].1;
    let mut i: usize = 1;
    while i < v.len()
        invariant
            1 <= i <= v@.len(),
            lo == min_frame(v@.take(i as int)),
            hi == max_frame(v@.take(i as int)),
        decreases v@.len() - i,
    {
        proof {
            assert(v@.take(i as int + 1).drop_last() =~= v@.take(i as int));
        }
        if v[i].1 < lo {
            lo = v[i].1;
        }
        if v[i].1 > hi {
            hi = v[i].1;
        }
        i += 1;
    }
    proof {
        assert(v@.take(i as int) =~= v@);
    }
    (lo, hi)
}

impl SceneNav {
    /// The entries of the context menu of `target` (see [`context_entries`]).
    pub fn context_menu_entries(&self, target: ContextTarget, scene: Option<&SceneShape>) -> (r: Vec<
        MenuEntry,
    >)
        ensures
            r@ == context_entries(*self, target, scene),
    {
        let mut v: Vec<MenuEntry> = Vec::new();
        match target {
            ContextTarget::Cell(li, fi) => {
                let len = match scene {
                    Some(sh) => sh.line_len(li),
                    None => 0,
                };
                let (lo, hi) = if self.selection.len() > 0 {
                    frame_bounds(&self.selection)
                } else {
                    (fi, fi)
                };
                v.push(MenuEntry { item: ContextItem::Cut, enabled: true });
                v.push(MenuEntry { item: ContextItem::Copy, enabled: true });
                v.push(MenuEntry { item: ContextItem::Paste, enabled: self.clipboard_len > 0 });
                if self.selection.len() <= 1 {
                    v.push(MenuEntry { item: ContextItem::InsertFrameBefore, enabled: true });
                    v.push(MenuEntry { item: ContextItem::InsertFrameAfter, enabled: true });
                }
                v.push(MenuEntry { item: ContextItem::DuplicateFrames, enabled: true });
                v.push(MenuEntry { item: ContextItem::MoveUp, enabled: lo > 0 });
                v.push(MenuEntry { item: ContextItem::MoveDown, enabled: hi < len && hi + 1 < len });
                v.push(MenuEntry { item: ContextItem::ToggleEnabled, enabled: true });
                v.push(MenuEntry { item: ContextItem::SetStartFrame, enabled: true });
                v.push(MenuEntry { item: ContextItem::SetEndFrame, enabled: true });
                v.push(MenuEntry { item: ContextItem::RemoveFrames, enabled: true });
                proof {
                    assert(v@ =~= context_entries(*self, target, scene));
                }
            },
            ContextTarget::Header(li) => {
                let nl = match scene {
                    Some(sh) => sh.lines.len(),
                    None => 0,
                };
                v.push(MenuEntry { item: ContextItem::InsertLineBefore, enabled: true });
                v.push(MenuEntry { item: ContextItem::InsertLineAfter, enabled: true });
                v.push(MenuEntry { item: ContextItem::DuplicateLine, enabled: true });
                v.push(MenuEntry { item: ContextItem::MoveLeft, enabled: li > 0 });
                v.push(MenuEntry { item: ContextItem::MoveRight, enabled: li < nl && li + 1 < nl });
                v.push(MenuEntry { item: ContextItem::ToggleLooping, enabled: true });
                v.push(MenuEntry { item: ContextItem::ToggleTrailing, enabled: true });
                v.push(MenuEntry { item: ContextItem::ClearFrameRange, enabled: true });
                v.push(MenuEntry { item: ContextItem::RemoveLine, enabled: true });
                proof {
                    assert(v@ =~= context_entries(*self, target, scene));
                }
            },
        }
        v
    }

    /// Sends `c` when the scene has line `li`.
    fn send_if_line(scene: Option<&SceneShape>, li: usize, c: SceneCommand, out: &mut Vec<SceneCommand>)
        ensures
            final(out)@ == old(out)@ + if_line(scene, li, c),
    {
        if let Some(sh) = scene {
            if li < sh.lines.len() {
                out.push(c);
                proof {
                    assert(out@ =~= old(out)@ + seq![c]);
                }
                return;
            }
        }
        proof {
            assert(out@ =~= old(out)@ + Seq::<SceneCommand>::empty());
        }
    }

    /// Does what choosing `item` in the context menu of `target` does (see
    /// [`context_effect`]).
    pub fn choose_context_item(
        &mut self,
        target: ContextTarget,
        item: ContextItem,
        scene: Option<&SceneShape>,
        connected: bool,
        out: &mut Vec<SceneCommand>,
    )
        requires
            old(self).wf(),
            context_fits(*old(self), target, item, scene),
        ensures
            final(self).wf(),
            context_effect(*old(self), *final(self), target, item, scene, connected, old(out)@, final(out)@),
    {
        let ghost o = *self;
        let ghost sel = self.selection@;
        let mut close = true;
        match target {
            ContextTarget::Cell(li, fi) => match item {
                ContextItem::Cut => self.cut_selection(scene, out),
                ContextItem::Copy => self.copy_selection(scene, out),
                ContextItem::Paste => {
                    match self.view_mode {
                        ViewMode::Sequencer => self.paste_replace(li, fi, scene, connected, out),
                        ViewMode::Stack => self.paste_after(li, fi, connected, out),
                    }
                },
                ContextItem::InsertFrameBefore => {
                    out.push(SceneCommand::AddFrame { line: li, index: fi, source: FrameSource::NewFrame });
                    self.navigate_to_frame((li, fi), connected, out);
                    self.open_picker_on_cursor = self.should_auto_open_picker_after_insert();
                },
                ContextItem::InsertFrameAfter => {
                    out.push(
                        SceneCommand::AddFrame { line: li, index: fi + 1, source: FrameSource::NewFrame },
                    );
                    self.navigate_to_frame((li, fi + 1), connected, out);
                    self.open_picker_on_cursor = self.should_auto_open_picker_after_insert();
                },
                ContextItem::DuplicateFrames => {
                    if let Some(sh) = scene {
                        let n_sel = self.selection.len();
                        let sel_li = if n_sel > 0 {
                            self.selection[0].0
                        } else {
                            li
                        };
                        let last_fi = if n_sel > 0 {
                            self.selection[n_sel - 1].1
                        } else {
                            fi
                        };
                        let frames = self.existing_selection(sh);
                        proof {
                            reveal_with_fuel(Seq::filter, 1);
                            sel.filter_lemma(|p: (usize, usize)| has_frame(*sh, p));
                        }
                        let n = frames.len();
                        let ghost base = out@;
                        let mut k: usize = 0;
                        while k < n
                            invariant
                                k <= n,
                                n == frames@.len(),
                                last_fi + n <= usize::MAX,
                                out@ == base + copy_adds(
                                    sel_li,
                                    (last_fi + 1) as usize,
                                    frames@.take(k as int),
                                ),
                            decreases n - k,
                        {
                            out.push(
                                SceneCommand::AddFrame {
                                    line: sel_li,
                                    index: last_fi + 1 + k,
                                    source: FrameSource::SceneFrame {
                                        line: frames[k].0,
                                        frame: frames[k].1,
                                    },
                                },
                            );
                            proof {
                                assert(out@ =~= base + copy_adds(
                                    sel_li,
                                    (last_fi + 1) as usize,
                                    frames@.take(k as int + 1),
                                ));
                            }
                            k += 1;
                        }
                        proof {
                            assert(frames@.take(k as int) =~= frames@);
                        }
                    } else {
                        proof {
                            assert(out@ =~= old(out)@ + Seq::<SceneCommand>::empty());
                        }
                    }
                },
                ContextItem::MoveUp => self.move_frames_vertical(-1, scene, connected, out),
                ContextItem::MoveDown => self.move_frames_vertical(1, scene, connected, out),
                ContextItem::ToggleEnabled => {
                    if let Some(sh) = scene {
                        let ghost base = out@;
                        let mut i: usize = 0;
                        while i < self.selection.len()
                            invariant
                                i <= sel.len(),
                                *self == o,
                                sel == self.selection@,
                                scene == Some(sh),
                                out@ == base + toggle_cmds(sel.take(i as int), *sh),
                            decreases sel.len() - i,
                        {
                            let p = self.selection[i];
                            proof {
                                let t = sel.take(i as int + 1);
                                assert(t.drop_last() =~= sel.take(i as int));
                                reveal_with_fuel(Seq::filter, 1);
                                assert(existing(t, *sh) == existing(t.drop_last(), *sh) + if has_frame(
                                    *sh,
                                    t.last(),
                                ) {
                                    seq![t.last()]
                                } else {
                                    Seq::empty()
                                });
                                assert(toggle_cmds(t, *sh) =~= toggle_cmds(t.drop_last(), *sh)
                                    + if has_frame(*sh, p) {
                                    seq![
                                        SceneCommand::SetFrameEnabled {
                                            line: p.0,
                                            index: p.1,
                                            enabled: !sh.lines@[p.0 as int]@[p.1 as int],
                                        },
                                    ]
                                } else {
                                    Seq::empty()
                                });
                            }
                            self.toggle_enabled(p.0, p.1, scene, out);
                            proof {
                                assert(out@ =~= base + toggle_cmds(sel.take(i as int + 1), *sh));
                            }
                            i += 1;
                        }
                        proof {
                            assert(sel.take(i as int) =~= sel);
                        }
                    } else {
                        proof {
                            assert(out@ =~= old(out)@ + Seq::<SceneCommand>::empty());
                        }
                    }
                },
                ContextItem::SetStartFrame => Self::send_if_line(
                    scene,
                    li,
                    SceneCommand::SetLineStart { line: li, frame: fi },
                    out,
                ),
                ContextItem::SetEndFrame => Self::send_if_line(
                    scene,
                    li,
                    SceneCommand::SetLineEnd { line: li, frame: fi },
                    out,
                ),
                ContextItem::RemoveFrames => {
                    if self.selection.len() > 0 {
                        let frames = copy_positions(&self.selection);
                        self.request_remove_frames(frames, out);
                        close = false;
                    }
                },
                _ => {
                    close = false;
                },
            },
            ContextTarget::Header(li) => match item {
                ContextItem::InsertLineBefore => {
                    out.push(SceneCommand::AddLine { index: li, source: LineSource::Blank });
                    self.navigate_to_frame((li, 0), connected, out);
                    self.open_picker_on_cursor = self.should_auto_open_picker_after_insert();
                },
                ContextItem::InsertLineAfter => {
                    out.push(SceneCommand::AddLine { index: li + 1, source: LineSource::Blank });
                    self.navigate_to_frame((li + 1, 0), connected, out);
                    self.open_picker_on_cursor = self.should_auto_open_picker_after_insert();
                },
                ContextItem::DuplicateLine => Self::send_if_line(
                    scene,
                    li,
                    SceneCommand::AddLine { index: li + 1, source: LineSource::SceneLine { line: li } },
                    out,
                ),
                ContextItem::MoveLeft => self.move_line_horizontal(li, -1, scene, connected, out),
                ContextItem::MoveRight => self.move_line_horizontal(li, 1, scene, connected, out),
                ContextItem::ToggleLooping => Self::send_if_line(
                    scene,
                    li,
                    SceneCommand::ToggleLineFlag { line: li, flag: LineFlag::Looping },
                    out,
                ),
                ContextItem::ToggleTrailing => Self::send_if_line(
                    scene,
                    li,
                    SceneCommand::ToggleLineFlag { line: li, flag: LineFlag::Trailing },
                    out,
                ),
                ContextItem::ClearFrameRange => Self::send_if_line(
                    scene,
                    li,
                    SceneCommand::ClearLineRange { line: li },
                    out,
                ),
                ContextItem::RemoveLine => {
                    self.request_remove_line(li, out);
                    close = false;
                },
                _ => {
                    close = false;
                },
            },
        }
        if close {
            self.overlay = Overlay::Hidden;
        }
    }
}


/// `n`, and the commands `after` that follow `before`, are what the editing keys of the
/// frame editor do from `o` with the editor on frame (li, fi) of a line of `len` frames:
/// while the editor owns the keys, command-left edits the frame before and command-right
/// the frame after, when there is one.
pub open spec fn editor_cycled(
    o: SceneNav,
    n: SceneNav,
    li: usize,
    fi: usize,
    len: usize,
    editing: bool,
    prev: bool,
    next: bool,
    before: Seq<SceneCommand>,
    after: Seq<SceneCommand>,
) -> bool {
    let target = if !editing {
        None
    } else if prev && fi > 0 {
        Some((li, (fi - 1) as usize))
    } else if next && fi + 1 < len {
        Some((li, (fi + 1) as usize))
    } else {
        None
    };
    match target {
        Some(pos) => nav_frame_edit(o, n, pos) && after == before.push(
            SceneCommand::FocusFrameEditor { line: pos.0, frame: pos.1 },
        ),
        None => n == o && after == before,
    }
}

impl SceneNav {
    /// Handles the editing keys of the frame editor on frame (li, fi) of a line of `len`
    /// frames (see [`editor_cycled`]), and says which header field of that frame command-T
    /// (duration) or command-R (repetitions) asks to focus, while the editor owns the keys.
    pub fn editor_panel_keys(
        &mut self,
        li: usize,
        fi: usize,
        len: usize,
        editing: bool,
        cycle_prev: bool,
        cycle_next: bool,
        open_duration: bool,
        open_repetitions: bool,
        out: &mut Vec<SceneCommand>,
    ) -> (r: Option<SequencerInlineField>)
        requires
            old(self).wf(),
            fi < len,
        ensures
            final(self).wf(),
            editor_cycled(*old(self), *final(self), li, fi, len, editing, cycle_prev, cycle_next, old(out)@, final(out)@),
            r == if editing && open_duration {
                Some(SequencerInlineField::Duration)
            } else if editing && open_repetitions {
                Some(SequencerInlineField::Repetitions)
            } else {
                None
            },
    {
        if !editing {
            return None;
        }
        if cycle_prev && fi > 0 {
            self.enter_frame_edit((li, fi - 1), out);
        } else if cycle_next && fi + 1 < len {
            self.enter_frame_edit((li, fi + 1), out);
        }
        if open_duration {
            Some(SequencerInlineField::Duration)
        } else if open_repetitions {
            Some(SequencerInlineField::Repetitions)
        } else {
            None
        }
    }
}

impl SceneNav {
    /// A click on the cell of frame `pos`: with shift, and the anchor on that frame's line,
    /// the selection extends to it (see [`extended`]); otherwise the cursor moves there, the
    /// frame alone is selected and the anchor set on it.
    pub fn click_cell(
        &mut self,
        pos: (usize, usize),
        shift: bool,
        connected: bool,
        out: &mut Vec<SceneCommand>,
    )
        requires
            old(self).wf(),
        ensures
            final(self).wf(),
            if shift && (old(self).anchor matches Some(a) && a.0 == pos.0) {
                extended(*old(self), *final(self), pos) && final(out)@ == old(out)@
            } else {
                nav_moved_selecting(*old(self), *final(self), pos, seq![pos], Some(pos))
                    && final(out)@ == old(out)@ + cursor_report(pos, connected)
            },
    {
        let on_line = match self.anchor {
            Some(a) => a.0 == pos.0,
            None => false,
        };
        if shift && on_line {
            self.extend_selection(pos);
        } else {
            self.move_cursor(pos, connected, out);
            let mut sel: Vec<(usize, usize)> = Vec::new();
            sel.push(pos);
            self.selection = sel;
            self.anchor = Some(pos);
            proof {
                assert(self.selection@ =~= seq![pos]);
            }
        }
    }

    /// A secondary click on the cell of frame `pos`: the cursor moves there, the frame alone
    /// is selected (anchoring there) unless it already was selected, and the context menu
    /// opens on the cell.
    pub fn secondary_click_cell(&mut self, pos: (usize, usize), connected: bool, out: &mut Vec<SceneCommand>)
        requires
            old(self).wf(),
        ensures
            final(self).wf(),
            final(out)@ == old(out)@ + cursor_report(pos, connected),
            if old(self).selection@.contains(pos) {
                *final(self) == (SceneNav {
                    overlay: Overlay::ContextMenu {
                        target: ContextTarget::Cell(pos.0, pos.1),
                        just_opened: true,
                    },
                    ..after_move(*old(self), pos)
                })
            } else {
                &&& final(self).selection@ == seq![pos]
                &&& *final(self) == (SceneNav {
                    overlay: Overlay::ContextMenu {
                        target: ContextTarget::Cell(pos.0, pos.1),
                        just_opened: true,
                    },
                    selection: final(self).selection,
                    anchor: Some(pos),
                    ..after_move(*old(self), pos)
                })
            },
    {
        let mut found = false;
        let mut i: usize = 0;
        while i < self.selection.len()
            invariant
                i <= self.selection@.len(),
                found <==> exists|k: int| 0 <= k < i && self.selection@[k] == pos,
            decreases self.selection@.len() - i,
        {
            if self.selection[i].0 == pos.0 && self.selection[i].1 == pos.1 {
                found = true;
            }
            i += 1;
        }
        proof {
            if found {
                let k = choose|k: int| 0 <= k < i && self.selection@[k] == pos;
                assert(self.selection@.contains(pos));
            }
            if self.selection@.contains(pos) {
                let k = choose|k: int| 0 <= k < self.selection@.len() && self.selection@[k] == pos;
                assert(found);
            }
        }
        self.move_cursor(pos, connected, out);
        if !found {
            let mut sel: Vec<(usize, usize)> = Vec::new();
            sel.push(pos);
            self.selection = sel;
            self.anchor = Some(pos);
            proof {
                assert(self.selection@ =~= seq![pos]);
            }
        }
        self.open_context_menu(ContextTarget::Cell(pos.0, pos.1));
    }
}

/// A key that moves the cursor onto another line moves it to the line just before or just
/// after, keeping its frame: the same frame when that line has it, else the line's last
/// frame (frame 0 when the line is empty).
pub proof fn lemma_line_move_keeps_frame(o: SceneNav, k: NavKeys, sh: SceneShape, li: usize, fi: usize)
    requires
        li < sh.lines@.len(),
    ensures
        match nav_key_action(o, k, sh, li, fi) {
            KeyOutcome::Navigate { pos } => pos.0 != li ==> {
                let len = sh.lines@[pos.0 as int]@.len();
                &&& pos.0 < sh.lines@.len()
                &&& pos.0 + 1 == li || pos.0 == li + 1
                &&& pos.1 == if fi < len {
                    fi as int
                } else if len > 0 {
                    len - 1
                } else {
                    0
                }
            },
            _ => true,
        },
{
    assert(sh.lines@.len() == sh.lines.len());
}

/// The arrow keys keep the cursor inside the scene: a cursor brought back inside a
/// non-empty scene and moved by the keys lands on one of its lines, on a frame of that line
/// unless the line is empty.
pub proof fn lemma_motion_stays_inside(o: SceneNav, k: NavKeys, sh: SceneShape, li: usize, fi: usize)
    requires
        li < sh.lines@.len(),
        fi == clamp_fi(fi, line_len(sh, li as int)),
    ensures
        match nav_key_action(o, k, sh, li, fi) {
            KeyOutcome::Navigate { pos } => pos.0 < sh.lines@.len() && (pos.1 < line_len(
                sh,
                pos.0 as int,
            ) || line_len(sh, pos.0 as int) == 0),
            KeyOutcome::Extend { pos } => pos.0 == li && pos.1 < line_len(sh, li as int),
            _ => true,
        },
{
    assert(sh.lines@.len() == sh.lines.len());
    let len = line_len(sh, li as int);
    assert(len == 0 ==> fi == 0);
    assert(len > 0 ==> fi < len);
    if li > 0 {
        lemma_clamp_inside(fi, line_len(sh, li - 1));
    }
    if li + 1 < sh.lines@.len() {
        lemma_clamp_inside(fi, line_len(sh, li + 1));
    }
    let seq_view = o.view_mode == ViewMode::Sequencer;
    let frame_prev = if seq_view {
        k.left
    } else {
        k.up
    };
    let frame_next = if seq_view {
        k.right
    } else {
        k.down
    };
    let line_prev = if seq_view {
        k.up
    } else {
        k.left
    };
    if frame_prev && fi > 0 {
        assert(motion(o, k, sh, li, fi) == Some(stepped(k.shift, (li, (fi - 1) as usize))));
    } else if frame_next && fi + 1 < len {
        assert(motion(o, k, sh, li, fi) == Some(stepped(k.shift, (li, (fi + 1) as usize))));
    } else if line_prev && li > 0 {
        let p = ((li - 1) as usize, clamp_fi(fi, line_len(sh, li - 1)));
        assert(motion(o, k, sh, li, fi) == Some(KeyOutcome::Navigate { pos: p }));
        assert(p.1 < line_len(sh, p.0 as int) || line_len(sh, p.0 as int) == 0);
    } else if line_prev && li == 0 && seq_view && o.prelude_count > 0 {
    } else if (if seq_view {
        k.down
    } else {
        k.right
    }) && li + 1 < sh.lines@.len() {
        let p = ((li + 1) as usize, clamp_fi(fi, line_len(sh, li + 1)));
        assert(motion(o, k, sh, li, fi) == Some(KeyOutcome::Navigate { pos: p }));
        assert(p.1 < line_len(sh, p.0 as int) || line_len(sh, p.0 as int) == 0);
    } else {
        assert(motion(o, k, sh, li, fi) is None);
    }
}

proof fn lemma_clamp_inside(fi: usize, len: int)
    requires
        0 <= len,
    ensures
        clamp_fi(fi, len) < len || len == 0,
{
}


impl SceneNav {
    /// Commits an inline repetitions edit of tile (li, fi): a readable count (see
    /// [`crate::sequencer::repetitions_of`]) is sent and the edit ends; otherwise nothing
    /// changes. Says whether it committed.
    pub fn commit_inline_repetitions(&mut self, li: usize, fi: usize, out: &mut Vec<SceneCommand>) -> (r:
        bool)
        ensures
            match old(self).sequencer_inline_edit {
                Some(e) => if e.target == (li, fi) && e.field == SequencerInlineField::Repetitions
                    && crate::sequencer::repetitions_of(e.buffer@) is Some {
                    &&& r
                    &&& *final(self) == (SceneNav { sequencer_inline_edit: None, ..*old(self) })
                    &&& final(out)@ == old(out)@.push(
                        SceneCommand::SetRepetitions {
                            line: li,
                            index: fi,
                            repetitions: crate::sequencer::repetitions_of(e.buffer@)->0 as usize,
                        },
                    )
                } else {
                    !r && *final(self) == *old(self) && final(out)@ == old(out)@
                },
                None => !r && *final(self) == *old(self) && final(out)@ == old(out)@,
            },
    {
        let reps = match &self.sequencer_inline_edit {
            Some(e) => {
                if e.target.0 != li || e.target.1 != fi {
                    return false;
                }
                match e.field {
                    SequencerInlineField::Repetitions => parse_inline_repetitions(e.buffer.as_str()),
                    SequencerInlineField::Duration => return false,
                }
            },
            None => return false,
        };
        match reps {
            Some(n) => {
                out.push(SceneCommand::SetRepetitions { line: li, index: fi, repetitions: n });
                self.clear_sequencer_inline_edit();
                true
            },
            None => false,
        }
    }

    /// Asks for the focus again for the inline edit in progress (after a refused commit).
    pub fn refocus_inline_edit(&mut self)
        ensures
            match old(self).sequencer_inline_edit {
                Some(e) => final(self).sequencer_inline_edit matches Some(f) && f.target == e.target
                    && f.field == e.field && f.buffer == e.buffer && f.request_focus,
                None => final(self).sequencer_inline_edit is None,
            },
            *final(self) == (SceneNav {
                sequencer_inline_edit: final(self).sequencer_inline_edit,
                ..*old(self)
            }),
    {
        let mut e = None;
        std::mem::swap(&mut e, &mut self.sequencer_inline_edit);
        self.sequencer_inline_edit = match e {
            Some(mut x) => {
                x.request_focus = true;
                Some(x)
            },
            None => None,
        };
    }
}


/// How the confirmation dialog was answered this frame.
#[derive(Clone, Copy, PartialEq, Eq, Structural, Debug)]
pub enum ConfirmResult {
    Waiting,
    Confirmed,
    Cancelled,
}

/// The frame being edited, if any.
pub open spec fn editing_frame(s: SceneState) -> Option<(usize, usize)> {
    match s {
        SceneState::EditingFrame { cursor } => Some(cursor),
        _ => None,
    }
}

impl SceneNav {
    /// Carries out the answer of the confirmation dialog: a confirmed line removal removes
    /// the line, a confirmed frame removal removes the frames (highest frame index first);
    /// either way the panel then moves to the nearest remaining frame (see
    /// [`SceneNav::restore_scene_state_after_frame_removal`]). Any answer closes the overlay.
    pub fn resolve_confirm(
        &mut self,
        result: ConfirmResult,
        scene: &SceneShape,
        connected: bool,
        out: &mut Vec<SceneCommand>,
    )
        requires
            old(self).wf(),
            old(self).overlay matches Overlay::ConfirmDialog {
                action: PendingDestructive::RemoveLine(li),
            } ==> li < usize::MAX,
        ensures
            final(self).wf(),
            ({
                let hidden = SceneNav { overlay: Overlay::Hidden, ..*old(self) };
                match result {
                    ConfirmResult::Waiting => *final(self) == *old(self)
                        && final(out)@ == old(out)@,
                    ConfirmResult::Cancelled => *final(self) == hidden && final(out)@ == old(out)@,
                    ConfirmResult::Confirmed => match old(self).overlay {
                        Overlay::ConfirmDialog { action: PendingDestructive::RemoveLine(li) } => restored(
                            hidden,
                            *final(self),
                            next_after_line_removal(*scene, li as int),
                            connected,
                            old(out)@.push(SceneCommand::RemoveLine { index: li }),
                            final(out)@,
                        ),
                        Overlay::ConfirmDialog { action: PendingDestructive::RemoveFrames(f) } => {
                            let r = sort_frame_desc(f@);
                            restored(
                                hidden,
                                *final(self),
                                next_after_removal(old(self).state, *scene, r),
                                connected,
                                old(out)@ + r.map_values(
                                    |p: (usize, usize)|
                                        SceneCommand::RemoveFrame { line: p.0, index: p.1 },
                                ),
                                final(out)@,
                            )
                        },
                        _ => *final(self) == hidden && final(out)@ == old(out)@,
                    },
                }
            }),
    {
        match result {
            ConfirmResult::Waiting => {},
            ConfirmResult::Cancelled => {
                self.overlay = Overlay::Hidden;
            },
            ConfirmResult::Confirmed => {
                let mut overlay = Overlay::Hidden;
                std::mem::swap(&mut overlay, &mut self.overlay);
                match overlay {
                    Overlay::ConfirmDialog { action } => match action {
                        PendingDestructive::RemoveLine(li) => {
                            let next = self.next_frame_after_line_removal(scene, li);
                            out.push(SceneCommand::RemoveLine { index: li });
                            self.restore_scene_state_after_frame_removal(next, connected, out);
                        },
                        PendingDestructive::RemoveFrames(frames) => {
                            let to_remove = sort_by_frame_desc(&frames);
                            let next = self.next_frame_after_removal(scene, to_remove.as_slice());
                            let ghost base = out@;
                            let mut i: usize = 0;
                            while i < to_remove.len()
                                invariant
                                    i <= to_remove@.len(),
                                    out@ == base + to_remove@.take(i as int).map_values(
                                        |p: (usize, usize)|
                                            SceneCommand::RemoveFrame { line: p.0, index: p.1 },
                                    ),
                                decreases to_remove@.len() - i,
                            {
                                out.push(
                                    SceneCommand::RemoveFrame {
                                        line: to_remove[i].0,
                                        index: to_remove[i].1,
                                    },
                                );
                                proof {
                                    assert(to_remove@.take(i as int + 1).map_values(
                                        |p: (usize, usize)|
                                            SceneCommand::RemoveFrame { line: p.0, index: p.1 },
                                    ) =~= to_remove@.take(i as int).map_values(
                                        |p: (usize, usize)|
                                            SceneCommand::RemoveFrame { line: p.0, index: p.1 },
                                    ).push(
                                        SceneCommand::RemoveFrame {
                                            line: to_remove@[i as int].0,
                                            index: to_remove@[i as int].1,
                                        },
                                    ));
                                }
                                i += 1;
                            }
                            proof {
                                assert(to_remove@.take(i as int) =~= to_remove@);
                            }
                            self.restore_scene_state_after_frame_removal(next, connected, out);
                        },
                    },
                    _ => {},
                }
            },
        }
    }

    /// Handles clicks and escape around an open context menu: the frame it opens in only
    /// clears its "just opened" mark; afterwards a click outside it or escape closes it.
    pub fn dismiss_context_menu(&mut self, clicked_outside: bool, escape: bool)
        ensures
            *final(self) == (SceneNav {
                overlay: match old(self).overlay {
                    Overlay::ContextMenu { target, just_opened } => if just_opened {
                        Overlay::ContextMenu { target, just_opened: false }
                    } else if clicked_outside || escape {
                        Overlay::Hidden
                    } else {
                        old(self).overlay
                    },
                    _ => old(self).overlay,
                },
                ..*old(self)
            }),
    {
        let (target, just_opened) = match &self.overlay {
            Overlay::ContextMenu { target, just_opened } => (*target, *just_opened),
            _ => return,
        };
        if just_opened {
            self.overlay = Overlay::ContextMenu { target, just_opened: false };
        } else if clicked_outside || escape {
            self.overlay = Overlay::Hidden;
        }
    }

    /// Leaves focus mode when the focused frame is no longer in the scene.
    pub fn drop_stale_focus(&mut self, scene: &SceneShape)
        ensures
            old(self).wf() ==> final(self).wf(),
            match old(self).state {
                SceneState::FocusedFrame { frame } => if !has_frame(*scene, frame) {
                    nav_deselected(*old(self), *final(self))
                } else {
                    *final(self) == *old(self)
                },
                _ => *final(self) == *old(self),
            },
    {
        if let SceneState::FocusedFrame { frame } = self.state {
            if frame.0 >= scene.lines.len() || frame.1 >= scene.lines[frame.0].len() {
                self.deselect_all();
            }
        }
    }

    /// Leaves edit mode on escape: when an editor reported escape, or when escape was
    /// pressed while editing with no widget focused, no overlay open and no language picker
    /// open. Says whether escape was used this frame.
    pub fn escape_editing(
        &mut self,
        editor_escaped: bool,
        raw_escape: bool,
        widget_focused: bool,
        lang_picker_open: bool,
        out: &mut Vec<SceneCommand>,
    ) -> (r: bool)
        requires
            old(self).wf(),
        ensures
            final(self).wf(),
            ({
                let editing = old(self).state is EditingFrame || old(self).state is EditingPrelude;
                let leaves = editing && (editor_escaped || (raw_escape && !widget_focused
                    && old(self).overlay is Hidden && !lang_picker_open));
                &&& r == (editor_escaped || leaves)
                &&& if leaves {
                    &&& final(self).scroll_to_cursor
                    &&& left_edit(
                        *old(self),
                        SceneNav {
                            scroll_to_cursor: old(self).state is EditingFrame
                                || old(self).scroll_to_cursor,
                            ..*final(self)
                        },
                    )
                    &&& final(out)@ == old(out)@.push(SceneCommand::CloseLangPickers)
                } else {
                    *final(self) == *old(self) && final(out)@ == old(out)@
                }
            }),
    {
        let mut escaped = editor_escaped;
        if escaped && self.state.is_editing() {
            self.exit_edit_mode(out);
            let ghost m = *self;
            self.scroll_to_cursor = true;
            proof {
                assert(left_edit(*old(self), m));
            }
            return true;
        }
        if self.state.is_editing() && !escaped {
            let no_modal = matches!(self.overlay, Overlay::Hidden) && !lang_picker_open;
            if raw_escape && !widget_focused && no_modal {
                self.exit_edit_mode(out);
                let ghost m = *self;
                self.scroll_to_cursor = true;
                escaped = true;
                proof {
                    assert(left_edit(*old(self), m));
                }
            }
        }
        escaped
    }

    /// Moves into edit mode on a frame whose editor took the focus by a click, unless it is
    /// already being edited or escape was used this frame.
    pub fn follow_editor_focus(
        &mut self,
        focused_editor: Option<(usize, usize)>,
        escaped: bool,
        out: &mut Vec<SceneCommand>,
    )
        ensures
            match focused_editor {
                Some(pos) => if !escaped && (state_cursor(old(self).state) != Some(pos) || !(
                old(self).state is EditingFrame || old(self).state is EditingPrelude)) {
                    &&& final(self).wf()
                    &&& nav_frame_edit(*old(self), *final(self), pos)
                    &&& final(out)@ == old(out)@.push(
                        SceneCommand::FocusFrameEditor { line: pos.0, frame: pos.1 },
                    )
                } else {
                    *final(self) == *old(self) && final(out)@ == old(out)@
                },
                None => *final(self) == *old(self) && final(out)@ == old(out)@,
            },
    {
        if escaped {
            return;
        }
        if let Some(pos) = focused_editor {
            let on_cursor = match self.state.cursor() {
                Some(c) => c.0 == pos.0 && c.1 == pos.1,
                None => false,
            };
            if !on_cursor || !self.state.is_editing() {
                self.enter_frame_edit(pos, out);
            }
        }
    }

    /// Tells the server when the frame being edited changes: it stopped editing the one
    /// before and started editing the new one.
    pub fn track_editing(&mut self, out: &mut Vec<SceneCommand>)
        ensures
            ({
                let cur = editing_frame(old(self).state);
                let prev = old(self).prev_editing;
                if cur != prev {
                    &&& *final(self) == (SceneNav { prev_editing: cur, ..*old(self) })
                    &&& final(out)@ == old(out)@ + match prev {
                        Some(p) => seq![SceneCommand::StoppedEditing { line: p.0, frame: p.1 }],
                        None => Seq::empty(),
                    } + match cur {
                        Some(c) => seq![SceneCommand::StartedEditing { line: c.0, frame: c.1 }],
                        None => Seq::empty(),
                    }
                } else {
                    *final(self) == *old(self) && final(out)@ == old(out)@
                }
            }),
    {
        let cur = match self.state {
            SceneState::EditingFrame { cursor } => Some(cursor),
            _ => None,
        };
        let same = match (cur, self.prev_editing) {
            (Some(a), Some(b)) => a.0 == b.0 && a.1 == b.1,
            (None, None) => true,
            _ => false,
        };
        if same {
            return;
        }
        let ghost base = out@;
        if let Some(p) = self.prev_editing {
            out.push(SceneCommand::StoppedEditing { line: p.0, frame: p.1 });
        }
        let ghost mid = out@;
        if let Some(c) = cur {
            out.push(SceneCommand::StartedEditing { line: c.0, frame: c.1 });
        }
        proof {
            let a = match old(self).prev_editing {
                Some(p) => seq![SceneCommand::StoppedEditing { line: p.0, frame: p.1 }],
                None => Seq::empty(),
            };
            let b = match cur {
                Some(c) => seq![SceneCommand::StartedEditing { line: c.0, frame: c.1 }],
                None => Seq::empty(),
            };
            assert(mid =~= base + a);
            assert(out@ =~= base + a + b);
        }
        self.prev_editing = cur;
    }
}

/// `m` is `o` after leaving edit mode (see [`SceneNav::exit_edit_mode`]).
pub open spec fn left_edit(o: SceneNav, m: SceneNav) -> bool {
    let base = SceneNav {
        sequencer_inline_edit: None,
        sequencer_line_speed_focus: None,
        open_picker_on_cursor: false,
        ..o
    };
    match o.state {
        SceneState::EditingFrame { cursor } => {
            &&& m.selection@ == seq![cursor]
            &&& m == (SceneNav {
                state: SceneState::NavigatingFrame { cursor },
                selection: m.selection,
                anchor: Some(cursor),
                scroll_to_cursor: true,
                ..base
            })
        },
        SceneState::EditingPrelude { index } => m == (SceneNav {
            state: SceneState::NavigatingPrelude { index },
            ..base
        }),
        _ => m == base,
    }
}

} // verus!
