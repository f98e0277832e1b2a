//! The terminal modes of a pane, each a type of its own so that one cannot be
//! passed where another is meant.
use vstd::prelude::*;

verus! {

/// Bracketed paste (DEC 2004). It gates paste sanitisation.
#[derive(Copy, Clone, Debug, PartialEq, Eq, Structural)]
pub struct BracketedPaste {
    pub on: bool,
}

impl BracketedPaste {
    #[verifier::allow_in_spec]
    pub fn new(on: bool) -> BracketedPaste
        returns
            (BracketedPaste { on }),
    {
        BracketedPaste { on }
    }

    #[verifier::allow_in_spec]
    pub fn enabled(self) -> bool
        returns
            self.on,
    {
        self.on
    }
}

impl Default for BracketedPaste {
    fn default() -> (r: BracketedPaste)
        ensures
            !r.on,
    {
        BracketedPaste { on: false }
    }
}

/// Application cursor keys (DEC 1).
#[derive(Copy, Clone, Debug, PartialEq, Eq, Structural)]
pub struct CursorKeys {
    pub on: bool,
}

impl CursorKeys {
    #[verifier::allow_in_spec]
    pub fn new(on: bool) -> CursorKeys
        returns
            (CursorKeys { on }),
    {
        CursorKeys { on }
    }

    #[verifier::allow_in_spec]
    pub fn enabled(self) -> bool
        returns
            self.on,
    {
        self.on
    }
}

impl Default for CursorKeys {
    fn default() -> (r: CursorKeys)
        ensures
            !r.on,
    {
        CursorKeys { on: false }
    }
}

/// Focus reporting (DEC 1004).
#[derive(Copy, Clone, Debug, PartialEq, Eq, Structural)]
pub struct FocusReporting {
    pub on: bool,
}

impl FocusReporting {
    #[verifier::allow_in_spec]
    pub fn new(on: bool) -> FocusReporting
        returns
            (FocusReporting { on }),
    {
        FocusReporting { on }
    }

    #[verifier::allow_in_spec]
    pub fn enabled(self) -> bool
        returns
            self.on,
    {
        self.on
    }
}

impl Default for FocusReporting {
    fn default() -> (r: FocusReporting)
        ensures
            !r.on,
    {
        FocusReporting { on: false }
    }
}

/// Synchronized output (DEC 2026).
#[derive(Copy, Clone, Debug, PartialEq, Eq, Structural)]
pub struct SyncOutput {
    pub on: bool,
}

impl SyncOutput {
    #[verifier::allow_in_spec]
    pub fn new(on: bool) -> SyncOutput
        returns
            (SyncOutput { on }),
    {
        SyncOutput { on }
    }

    #[verifier::allow_in_spec]
    pub fn enabled(self) -> bool
        returns
            self.on,
    {
        self.on
    }
}

impl Default for SyncOutput {
    fn default() -> (r: SyncOutput)
        ensures
            !r.on,
    {
        SyncOutput { on: false }
    }
}

/// Extended mouse encoding (DEC 1006).
#[derive(Copy, Clone, Debug, PartialEq, Eq, Structural)]
pub struct MouseSgr {
    pub on: bool,
}

impl MouseSgr {
    #[verifier::allow_in_spec]
    pub fn new(on: bool) -> MouseSgr
        returns
            (MouseSgr { on }),
    {
        MouseSgr { on }
    }

    #[verifier::allow_in_spec]
    pub fn enabled(self) -> bool
        returns
            self.on,
    {
        self.on
    }
}

impl Default for MouseSgr {
    fn default() -> (r: MouseSgr)
        ensures
            !r.on,
    {
        MouseSgr { on: false }
    }
}

/// Cursor visibility (DEC 25).
#[derive(Copy, Clone, Debug, PartialEq, Eq, Structural)]
pub struct CursorVisible {
    pub on: bool,
}

impl CursorVisible {
    #[verifier::allow_in_spec]
    pub fn new(on: bool) -> CursorVisible
        returns
            (CursorVisible { on }),
    {
        CursorVisible { on }
    }

    #[verifier::allow_in_spec]
    pub fn enabled(self) -> bool
        returns
            self.on,
    {
        self.on
    }
}

impl Default for CursorVisible {
    fn default() -> (r: CursorVisible)
        ensures
            !r.on,
    {
        CursorVisible { on: false }
    }
}

/// Autowrap at the right margin (DEC 7).
#[derive(Copy, Clone, Debug, PartialEq, Eq, Structural)]
pub struct AutoWrap {
    pub on: bool,
}

impl AutoWrap {
    #[verifier::allow_in_spec]
    pub fn new(on: bool) -> AutoWrap
        returns
            (AutoWrap { on }),
    {
        AutoWrap { on }
    }

    #[verifier::allow_in_spec]
    pub fn enabled(self) -> bool
        returns
            self.on,
    {
        self.on
    }
}

impl Default for AutoWrap {
    fn default() -> (r: AutoWrap)
        ensures
            !r.on,
    {
        AutoWrap { on: false }
    }
}

/// The alternate screen is active (DEC 47, 1047 or 1049).
#[derive(Copy, Clone, Debug, PartialEq, Eq, Structural)]
pub struct AltScreen {
    pub on: bool,
}

impl AltScreen {
    #[verifier::allow_in_spec]
    pub fn new(on: bool) -> AltScreen
        returns
            (AltScreen { on }),
    {
        AltScreen { on }
    }

    #[verifier::allow_in_spec]
    pub fn enabled(self) -> bool
        returns
            self.on,
    {
        self.on
    }
}

impl Default for AltScreen {
    fn default() -> (r: AltScreen)
        ensures
            !r.on,
    {
        AltScreen { on: false }
    }
}

/// Mouse tracking level; the levels exclude each other.
#[derive(Copy, Clone, Debug, PartialEq, Eq, Structural)]
pub enum MouseTracking {
    /// No reporting.
    Off,
    /// Press and release (DEC 1000).
    Click,
    /// Press, release, and motion while a button is held (DEC 1002).
    Drag,
    /// All motion (DEC 1003).
    Motion,
}

impl Default for MouseTracking {
    fn default() -> (r: MouseTracking)
        ensures
            r == MouseTracking::Off,
    {
        MouseTracking::Off
    }
}

impl MouseTracking {
    #[verifier::allow_in_spec]
    pub fn is_on(self) -> bool
        returns
            (self != MouseTracking::Off),
    {
        match self {
            MouseTracking::Off => false,
            _ => true,
        }
    }
}

/// Every mode of a pane at one instant.
#[derive(Copy, Clone, Debug, PartialEq, Eq, Structural)]
pub struct ModeSet {
    pub bracketed_paste: BracketedPaste,
    pub cursor_keys: CursorKeys,
    pub focus_reporting: FocusReporting,
    pub sync_output: SyncOutput,
    pub mouse: MouseTracking,
    pub mouse_sgr: MouseSgr,
    pub cursor_visible: CursorVisible,
    pub autowrap: AutoWrap,
    pub alt_screen: AltScreen,
}

impl Default for ModeSet {
    fn default() -> (r: ModeSet)
        ensures
            !r.bracketed_paste.on,
            !r.cursor_keys.on,
            !r.focus_reporting.on,
            !r.sync_output.on,
            r.mouse == MouseTracking::Off,
            !r.mouse_sgr.on,
            !r.cursor_visible.on,
            !r.autowrap.on,
            !r.alt_screen.on,
    {
        ModeSet {
            bracketed_paste: BracketedPaste { on: false },
            cursor_keys: CursorKeys { on: false },
            focus_reporting: FocusReporting { on: false },
            sync_output: SyncOutput { on: false },
            mouse: MouseTracking::Off,
            mouse_sgr: MouseSgr { on: false },
            cursor_visible: CursorVisible { on: false },
            autowrap: AutoWrap { on: false },
            alt_screen: AltScreen { on: false },
        }
    }
}

} // verus!
