//! Which of the desktop's windows are open, and the confirmation asked
//! before a destructive action.
use vstd::prelude::*;

use crate::command_palette::WindowKind;

verus! {

/// The open/closed flag of each window. Only "About Me" starts open.
#[derive(Clone, Copy)]
pub struct WindowFlags {
    pub about_is_open: bool,
    pub calc_is_open: bool,
    pub events_is_open: bool,
    pub resume_is_open: bool,
    pub digital_garden_is_open: bool,
    pub projects_is_open: bool,
    pub canvas_is_open: bool,
    pub workouts_is_open: bool,
    pub binary_clock_is_open: bool,
    pub collections_is_open: bool,
    pub bezier_is_open: bool,
    pub palette_studio_is_open: bool,
    pub raycaster_is_open: bool,
    pub timestamp_converter_is_open: bool,
    pub wad_viewer_is_open: bool,
}

/// The flag of the window `kind`.
pub open spec fn flag(f: WindowFlags, kind: WindowKind) -> bool {
    match kind {
        WindowKind::About => f.about_is_open,
        WindowKind::Calculator => f.calc_is_open,
        WindowKind::Resume => f.resume_is_open,
        WindowKind::DigitalGarden => f.digital_garden_is_open,
        WindowKind::Projects => f.projects_is_open,
        WindowKind::Canvas => f.canvas_is_open,
        WindowKind::Workouts => f.workouts_is_open,
        WindowKind::Collections => f.collections_is_open,
        WindowKind::BinaryClock => f.binary_clock_is_open,
        WindowKind::Bezier => f.bezier_is_open,
        WindowKind::PaletteStudio => f.palette_studio_is_open,
        WindowKind::Raycaster => f.raycaster_is_open,
        WindowKind::WadViewer => f.wad_viewer_is_open,
        WindowKind::AppEvents => f.events_is_open,
    }
}

/// `new` is `old` with the flag of `kind` set to `v`, every other flag
/// (the timestamp converter's, which has no window kind, too) kept.
pub open spec fn updated(old: WindowFlags, new: WindowFlags, kind: WindowKind, v: bool) -> bool {
    &&& new.about_is_open == if kind == WindowKind::About {
        v
    } else {
        old.about_is_open
    }
    &&& new.calc_is_open == if kind == WindowKind::Calculator {
        v
    } else {
        old.calc_is_open
    }
    &&& new.resume_is_open == if kind == WindowKind::Resume {
        v
    } else {
        old.resume_is_open
    }
    &&& new.digital_garden_is_open == if kind == WindowKind::DigitalGarden {
        v
    } else {
        old.digital_garden_is_open
    }
    &&& new.projects_is_open == if kind == WindowKind::Projects {
        v
    } else {
        old.projects_is_open
    }
    &&& new.canvas_is_open == if kind == WindowKind::Canvas {
        v
    } else {
        old.canvas_is_open
    }
    &&& new.workouts_is_open == if kind == WindowKind::Workouts {
        v
    } else {
        old.workouts_is_open
    }
    &&& new.collections_is_open == if kind == WindowKind::Collections {
        v
    } else {
        old.collections_is_open
    }
    &&& new.binary_clock_is_open == if kind == WindowKind::BinaryClock {
        v
    } else {
        old.binary_clock_is_open
    }
    &&& new.bezier_is_open == if kind == WindowKind::Bezier {
        v
    } else {
        old.bezier_is_open
    }
    &&& new.palette_studio_is_open == if kind == WindowKind::PaletteStudio {
        v
    } else {
        old.palette_studio_is_open
    }
    &&& new.raycaster_is_open == if kind == WindowKind::Raycaster {
        v
    } else {
        old.raycaster_is_open
    }
    &&& new.wad_viewer_is_open == if kind == WindowKind::WadViewer {
        v
    } else {
        old.wad_viewer_is_open
    }
    &&& new.events_is_open == if kind == WindowKind::AppEvents {
        v
    } else {
        old.events_is_open
    }
    &&& new.timestamp_converter_is_open == old.timestamp_converter_is_open
}

impl Default for WindowFlags {
    /// "About Me" open, every other window closed.
    fn default() -> (f: Self)
        ensures
            f.about_is_open,
            !f.calc_is_open,
            !f.events_is_open,
            !f.resume_is_open,
            !f.digital_garden_is_open,
            !f.projects_is_open,
            !f.canvas_is_open,
            !f.workouts_is_open,
            !f.binary_clock_is_open,
            !f.collections_is_open,
            !f.bezier_is_open,
            !f.palette_studio_is_open,
            !f.raycaster_is_open,
            !f.timestamp_converter_is_open,
            !f.wad_viewer_is_open,
    {
        WindowFlags {
            about_is_open: true,
            calc_is_open: false,
            events_is_open: false,
            resume_is_open: false,
            digital_garden_is_open: false,
            projects_is_open: false,
            canvas_is_open: false,
            workouts_is_open: false,
            binary_clock_is_open: false,
            collections_is_open: false,
            bezier_is_open: false,
            palette_studio_is_open: false,
            raycaster_is_open: false,
            timestamp_converter_is_open: false,
            wad_viewer_is_open: false,
        }
    }
}

impl WindowFlags {
    /// Whether the window is open.
    pub fn is_open(&self, kind: WindowKind) -> (r: bool)
        ensures
            r == flag(*self, kind),
    {
        match kind {
            WindowKind::About => self.about_is_open,
            WindowKind::Calculator => self.calc_is_open,
            WindowKind::Resume => self.resume_is_open,
            WindowKind::DigitalGarden => self.digital_garden_is_open,
            WindowKind::Projects => self.projects_is_open,
            WindowKind::Canvas => self.canvas_is_open,
            WindowKind::Workouts => self.workouts_is_open,
            WindowKind::Collections => self.collections_is_open,
            WindowKind::BinaryClock => self.binary_clock_is_open,
            WindowKind::Bezier => self.bezier_is_open,
            WindowKind::PaletteStudio => self.palette_studio_is_open,
            WindowKind::Raycaster => self.raycaster_is_open,
            WindowKind::WadViewer => self.wad_viewer_is_open,
            WindowKind::AppEvents => self.events_is_open,
        }
    }

    /// These flags with the window's flag set to `v`.
    #[verifier::spinoff_prover]
    #[verifier::rlimit(100)]
    fn with(self, kind: WindowKind, v: bool) -> (r: Self)
        ensures
            updated(self, r, kind, v),
    {
        let mut r = self;
        match kind {
            WindowKind::About => {
                r.about_is_open = v;
            },
            WindowKind::Calculator => {
                r.calc_is_open = v;
            },
            WindowKind::Resume => {
                r.resume_is_open = v;
            },
            WindowKind::DigitalGarden => {
                r.digital_garden_is_open = v;
            },
            WindowKind::Projects => {
                r.projects_is_open = v;
            },
            WindowKind::Canvas => {
                r.canvas_is_open = v;
            },
            WindowKind::Workouts => {
                r.workouts_is_open = v;
            },
            WindowKind::Collections => {
                r.collections_is_open = v;
            },
            WindowKind::BinaryClock => {
                r.binary_clock_is_open = v;
            },
            WindowKind::Bezier => {
                r.bezier_is_open = v;
            },
            WindowKind::PaletteStudio => {
                r.palette_studio_is_open = v;
            },
            WindowKind::Raycaster => {
                r.raycaster_is_open = v;
            },
            WindowKind::WadViewer => {
                r.wad_viewer_is_open = v;
            },
            WindowKind::AppEvents => {
                r.events_is_open = v;
            },
        }
        r
    }

    /// Opens the window.
    pub fn set_window_open(&mut self, kind: WindowKind)
        ensures
            updated(*old(self), *final(self), kind, true),
    {
        *self = self.with(kind, true);
    }

    /// Opens the window if closed, closes it if open (a second press of
    /// its shortcut dismisses it).
    pub fn toggle_window_open(&mut self, kind: WindowKind)
        ensures
            updated(*old(self), *final(self), kind, !flag(*old(self), kind)),
    {
        let open = self.is_open(kind);
        *self = self.with(kind, !open);
    }
}

/// Opening or closing a window changes that window's flag only.
pub proof fn law_flag_touches_one_window(f: WindowFlags, g: WindowFlags, kind: WindowKind, v: bool, other: WindowKind)
    requires
        updated(f, g, kind, v),
    ensures
        flag(g, kind) == v,
        other != kind ==> flag(g, other) == flag(f, other),
{
}

/// Toggling a window twice leaves every flag as it was.
pub proof fn law_toggle_twice(f: WindowFlags, g: WindowFlags, h: WindowFlags, kind: WindowKind)
    requires
        updated(f, g, kind, !flag(f, kind)),
        updated(g, h, kind, !flag(g, kind)),
    ensures
        h == f,
{
}

// ---------- confirmations ----------

/// Destructive actions that are confirmed in a dialog before they run.
#[derive(Clone, Copy, Debug, PartialEq, Eq, Structural)]
pub enum PendingConfirm {
    ChangeNotesFolder,
    ResetEguiMemory,
}

/// The dialog's heading, its explanation and the confirm button's label.
pub open spec fn spec_confirm_texts(p: PendingConfirm) -> (Seq<char>, Seq<char>, Seq<char>) {
    match p {
        PendingConfirm::ChangeNotesFolder => (
            "Change notes folder?"@,
            "This drops the loaded directory, browse history, and graph state. The notes themselves are not modified."@,
            "Change folder"@,
        ),
        PendingConfirm::ResetEguiMemory => (
            "Reset egui memory?"@,
            "This clears scroll positions, window placements, and other per-widget UI state. Your data is not affected."@,
            "Reset memory"@,
        ),
    }
}

impl PendingConfirm {
    /// The dialog's heading, explanation and confirm label.
    pub fn texts(self) -> (r: (&'static str, &'static str, &'static str))
        ensures
            (r.0@, r.1@, r.2@) == spec_confirm_texts(self),
    {
        match self {
            PendingConfirm::ChangeNotesFolder => (
                "Change notes folder?",
                "This drops the loaded directory, browse history, and graph state. The notes themselves are not modified.",
                "Change folder",
            ),
            PendingConfirm::ResetEguiMemory => (
                "Reset egui memory?",
                "This clears scroll positions, window placements, and other per-widget UI state. Your data is not affected.",
                "Reset memory",
            ),
        }
    }
}

/// The answer to the confirmation dialog: the action to run now, if any,
/// and what is still waiting for an answer. Confirming runs the pending
/// action and closes the dialog; cancelling or dismissing closes it
/// without running anything; otherwise the question stays open.
pub fn answer_confirm(pending: Option<PendingConfirm>, confirmed: bool, dismissed: bool) -> (r: (
    Option<PendingConfirm>,
    Option<PendingConfirm>,
))
    ensures
        match pending {
            None => r == (None::<PendingConfirm>, None::<PendingConfirm>),
            Some(p) => if confirmed {
                r == (Some(p), None::<PendingConfirm>)
            } else if dismissed {
                r == (None::<PendingConfirm>, None::<PendingConfirm>)
            } else {
                r == (None::<PendingConfirm>, Some(p))
            },
        },
{
    match pending {
        None => (None, None),
        Some(p) => if confirmed {
            (Some(p), None)
        } else if dismissed {
            (None, None)
        } else {
            (None, Some(p))
        },
    }
}

} // verus!
