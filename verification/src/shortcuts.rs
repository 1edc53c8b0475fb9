//! What the editor's keyboard shortcuts do, given what is selected.
//!
//! Which key press counts as which shortcut is the window toolkit's business;
//! given the shortcut, the operation it performs is decided here.
use vstd::prelude::*;

verus! {

/// The tab shown in the lower panel.
#[derive(Debug, Clone, Copy, PartialEq, Eq, Structural)]
pub enum LowerTab {
    PianoRoll,
    Graph,
    Automation,
    Plugins,
}

impl LowerTab {
    pub fn default() -> (t: LowerTab)
        ensures
            t == LowerTab::PianoRoll,
    {
        LowerTab::PianoRoll
    }
}

/// A recognised keyboard shortcut.
#[derive(Debug, Clone, Copy, PartialEq, Eq, Structural)]
pub enum ShortcutAction {
    TogglePlayStop,
    Stop,
    ToggleLoop,
    ToggleBrowser,
    Undo,
    Redo,
    Save,
    Open,
    Export,
    DeleteSelection,
    Copy,
    Paste,
    Duplicate,
    RenameTrack,
}

/// What is selected and what the clipboards hold.
#[derive(Debug, Clone, Copy, PartialEq, Eq, Structural)]
pub struct Selection {
    pub lower_tab: LowerTab,
    /// Some notes are selected, and the clip they belong to is known.
    pub notes: bool,
    pub clip: bool,
    pub node: bool,
    pub track: bool,
    pub note_clipboard: bool,
    pub clip_clipboard: bool,
}

/// The operation a shortcut performs.
#[derive(Debug, Clone, Copy, PartialEq, Eq, Structural)]
pub enum EditorOp {
    TogglePlayStop,
    Stop,
    ToggleLoop,
    ToggleBrowser,
    /// Undo, then drop selected notes that no longer exist.
    Undo,
    /// Redo, then drop selected notes that no longer exist.
    Redo,
    Save,
    Open,
    OpenExportDialog,
    CopyNotes,
    CopyClip,
    PasteNotes,
    PasteClip,
    /// Nothing to paste: the status line says so.
    NothingToPaste,
    DuplicateClip,
    /// Start renaming the selected track (if it still exists).
    RenameTrack,
    RemoveNotes,
    RemoveNode,
    RemoveClip,
    RemoveTrack,
    Nothing,
}

/// The operation of `action` under selection `s`: copy and delete act on
/// the selected notes in the piano roll first; paste takes the most recently
/// filled clipboard (filling one clears the other); delete then falls back
/// to the graph node (in the graph tab, or in the plugins tab with a node
/// selected), the clip, any selected node, and finally the track.
pub open spec fn spec_resolve(action: ShortcutAction, s: Selection) -> EditorOp {
    let notes_here = s.lower_tab == LowerTab::PianoRoll && s.notes;
    match action {
        ShortcutAction::TogglePlayStop => EditorOp::TogglePlayStop,
        ShortcutAction::Stop => EditorOp::Stop,
        ShortcutAction::ToggleLoop => EditorOp::ToggleLoop,
        ShortcutAction::ToggleBrowser => EditorOp::ToggleBrowser,
        ShortcutAction::Undo => EditorOp::Undo,
        ShortcutAction::Redo => EditorOp::Redo,
        ShortcutAction::Save => EditorOp::Save,
        ShortcutAction::Open => EditorOp::Open,
        ShortcutAction::Export => EditorOp::OpenExportDialog,
        ShortcutAction::Copy => if notes_here {
            EditorOp::CopyNotes
        } else if s.clip {
            EditorOp::CopyClip
        } else {
            EditorOp::Nothing
        },
        ShortcutAction::Paste => if s.note_clipboard {
            EditorOp::PasteNotes
        } else if s.clip_clipboard {
            EditorOp::PasteClip
        } else {
            EditorOp::NothingToPaste
        },
        ShortcutAction::Duplicate => if s.clip { EditorOp::DuplicateClip } else { EditorOp::Nothing },
        ShortcutAction::RenameTrack => if s.track { EditorOp::RenameTrack } else { EditorOp::Nothing },
        ShortcutAction::DeleteSelection => if notes_here {
            EditorOp::RemoveNotes
        } else if s.lower_tab == LowerTab::Graph {
            EditorOp::RemoveNode
        } else if s.node && s.lower_tab == LowerTab::Plugins {
            EditorOp::RemoveNode
        } else if s.clip {
            EditorOp::RemoveClip
        } else if s.node {
            EditorOp::RemoveNode
        } else if s.track {
            EditorOp::RemoveTrack
        } else {
            EditorOp::Nothing
        },
    }
}

pub fn resolve_shortcut(action: ShortcutAction, s: Selection) -> (op: EditorOp)
    ensures
        op == spec_resolve(action, s),
{
    let notes_here = s.lower_tab == LowerTab::PianoRoll && s.notes;
    match action {
        ShortcutAction::TogglePlayStop => EditorOp::TogglePlayStop,
        ShortcutAction::Stop => EditorOp::Stop,
        ShortcutAction::ToggleLoop => EditorOp::ToggleLoop,
        ShortcutAction::ToggleBrowser => EditorOp::ToggleBrowser,
        ShortcutAction::Undo => EditorOp::Undo,
        ShortcutAction::Redo => EditorOp::Redo,
        ShortcutAction::Save => EditorOp::Save,
        ShortcutAction::Open => EditorOp::Open,
        ShortcutAction::Export => EditorOp::OpenExportDialog,
        ShortcutAction::Copy => {
            if notes_here {
                EditorOp::CopyNotes
            } else if s.clip {
                EditorOp::CopyClip
            } else {
                EditorOp::Nothing
            }
        },
        ShortcutAction::Paste => {
            if s.note_clipboard {
                EditorOp::PasteNotes
            } else if s.clip_clipboard {
                EditorOp::PasteClip
            } else {
                EditorOp::NothingToPaste
            }
        },
        ShortcutAction::Duplicate => {
            if s.clip {
                EditorOp::DuplicateClip
            } else {
                EditorOp::Nothing
            }
        },
        ShortcutAction::RenameTrack => {
            if s.track {
                EditorOp::RenameTrack
            } else {
                EditorOp::Nothing
            }
        },
        ShortcutAction::DeleteSelection => {
            if notes_here {
                EditorOp::RemoveNotes
            } else if s.lower_tab == LowerTab::Graph {
                EditorOp::RemoveNode
            } else if s.node && s.lower_tab == LowerTab::Plugins {
                EditorOp::RemoveNode
            } else if s.clip {
                EditorOp::RemoveClip
            } else if s.node {
                EditorOp::RemoveNode
            } else if s.track {
                EditorOp::RemoveTrack
            } else {
                EditorOp::Nothing
            }
        },
    }
}

/// Shortcuts that do not act on the selection perform their own operation
/// whatever is selected: undo undoes, redo redoes, and so on. In particular
/// undo and redo never resolve to the same operation.
pub proof fn law_selection_free_shortcuts(s: Selection, t: Selection)
    ensures
        spec_resolve(ShortcutAction::Undo, s) == EditorOp::Undo,
        spec_resolve(ShortcutAction::Redo, s) == EditorOp::Redo,
        spec_resolve(ShortcutAction::TogglePlayStop, s) == EditorOp::TogglePlayStop,
        spec_resolve(ShortcutAction::Stop, s) == EditorOp::Stop,
        spec_resolve(ShortcutAction::ToggleLoop, s) == EditorOp::ToggleLoop,
        spec_resolve(ShortcutAction::ToggleBrowser, s) == EditorOp::ToggleBrowser,
        spec_resolve(ShortcutAction::Save, s) == EditorOp::Save,
        spec_resolve(ShortcutAction::Open, s) == EditorOp::Open,
        spec_resolve(ShortcutAction::Export, s) == EditorOp::OpenExportDialog,
        spec_resolve(ShortcutAction::Undo, s) != spec_resolve(ShortcutAction::Redo, t),
{
}

/// The selection-dependent shortcuts act on what is there: copy and delete
/// take the selected notes of the piano roll together; paste takes a
/// clipboard that holds something, the notes one first, and says when both
/// are empty; duplicate and copy of a clip need a selected clip, rename a
/// selected track; delete does nothing only when nothing is selected outside
/// the graph tab.
pub proof fn law_selection_shortcuts(s: Selection)
    ensures
        (spec_resolve(ShortcutAction::Copy, s) == EditorOp::CopyNotes)
            <==> (spec_resolve(ShortcutAction::DeleteSelection, s) == EditorOp::RemoveNotes),
        (spec_resolve(ShortcutAction::Copy, s) == EditorOp::CopyNotes) <==> (s.lower_tab == LowerTab::PianoRoll && s.notes),
        spec_resolve(ShortcutAction::Copy, s) == EditorOp::CopyClip ==> s.clip,
        spec_resolve(ShortcutAction::Copy, s) == EditorOp::CopyNotes || spec_resolve(ShortcutAction::Copy, s)
            == EditorOp::CopyClip || spec_resolve(ShortcutAction::Copy, s) == EditorOp::Nothing,
        (spec_resolve(ShortcutAction::Paste, s) == EditorOp::PasteNotes) <==> s.note_clipboard,
        (spec_resolve(ShortcutAction::Paste, s) == EditorOp::PasteClip) <==> (!s.note_clipboard && s.clip_clipboard),
        (spec_resolve(ShortcutAction::Paste, s) == EditorOp::NothingToPaste) <==> (!s.note_clipboard && !s.clip_clipboard),
        (spec_resolve(ShortcutAction::Duplicate, s) == EditorOp::DuplicateClip) <==> s.clip,
        spec_resolve(ShortcutAction::Duplicate, s) != EditorOp::DuplicateClip ==> spec_resolve(ShortcutAction::Duplicate, s)
            == EditorOp::Nothing,
        (spec_resolve(ShortcutAction::RenameTrack, s) == EditorOp::RenameTrack) <==> s.track,
        spec_resolve(ShortcutAction::RenameTrack, s) != EditorOp::RenameTrack ==> spec_resolve(ShortcutAction::RenameTrack, s)
            == EditorOp::Nothing,
        (spec_resolve(ShortcutAction::DeleteSelection, s) == EditorOp::Nothing) <==> (!(s.lower_tab == LowerTab::PianoRoll
            && s.notes) && s.lower_tab != LowerTab::Graph && !s.clip && !s.node && !s.track),
        s.lower_tab == LowerTab::Graph ==> spec_resolve(ShortcutAction::DeleteSelection, s) == EditorOp::RemoveNode,
{
}

} // verus!
