use vstd::prelude::*;

verus! {

/// Which side of the window the documentation sidebar sits on.
#[derive(Clone, Copy, PartialEq, Eq, Structural, Debug)]
pub enum DocSide {
    Left,
    Right,
}

/// What opens the collapsed documentation sidebar.
#[derive(Clone, Copy, PartialEq, Eq, Structural, Debug)]
pub enum DocTrigger {
    Click,
    Hover,
}

/// What the strip under the scene shows.
#[derive(Clone, Copy, PartialEq, Eq, Structural, Debug)]
pub enum ScopeBarMode {
    Scope,
    Spectrogram,
    Both,
}

impl ScopeBarMode {
    /// The mode that follows `m` in the cycle scope, spectrogram, both.
    pub open spec fn spec_next(m: ScopeBarMode) -> ScopeBarMode {
        match m {
            ScopeBarMode::Scope => ScopeBarMode::Spectrogram,
            ScopeBarMode::Spectrogram => ScopeBarMode::Both,
            ScopeBarMode::Both => ScopeBarMode::Scope,
        }
    }

    /// The next mode in the cycle scope, spectrogram, both.
    pub fn next(self) -> (r: Self)
        ensures
            r == Self::spec_next(self),
    {
        match self {
            ScopeBarMode::Scope => ScopeBarMode::Spectrogram,
            ScopeBarMode::Spectrogram => ScopeBarMode::Both,
            ScopeBarMode::Both => ScopeBarMode::Scope,
        }
    }
}

impl Default for ScopeBarMode {
    fn default() -> (r: Self)
        ensures
            r == ScopeBarMode::Scope,
    {
        ScopeBarMode::Scope
    }
}

/// Stepping through the scope bar modes comes back to the start after three steps, and
/// visits three different modes on the way.
pub proof fn lemma_scope_bar_cycle(m: ScopeBarMode)
    ensures
        ScopeBarMode::spec_next(ScopeBarMode::spec_next(ScopeBarMode::spec_next(m))) == m,
        ScopeBarMode::spec_next(m) != m,
        ScopeBarMode::spec_next(ScopeBarMode::spec_next(m)) != m,
{
}

/// A tab of the tools sidebar.
#[derive(Clone, Copy, PartialEq, Eq, Structural, Debug)]
pub enum ToolsTab {
    Chat,
    SampleBrowser,
}

/// The shared visuals script.
pub struct VisualsSettings {
    pub code: String,
    pub shared: bool,
}

impl Default for VisualsSettings {
    fn default() -> (r: Self)
        ensures
            r.code@ == Seq::<char>::empty(),
            !r.shared,
    {
        VisualsSettings { code: String::new(), shared: false }
    }
}

/// Where an embedded server listens.
pub struct ServerSettings {
    pub ip: String,
    pub port: String,
}

impl Default for ServerSettings {
    /// Every interface, port 8080.
    fn default() -> (r: Self)
        ensures
            r.ip@ == "0.0.0.0"@,
            r.port@ == "8080"@,
    {
        ServerSettings { ip: String::from_str("0.0.0.0"), port: String::from_str("8080") }
    }
}

/// Which server the client connects to, and as whom.
pub struct ClientSettings {
    pub ip: String,
    pub port: String,
    pub username: String,
    pub feedback: bool,
}

impl Default for ClientSettings {
    /// The local machine, port 8080, no user name, no feedback.
    fn default() -> (r: Self)
        ensures
            r.ip@ == "127.0.0.1"@,
            r.port@ == "8080"@,
            r.username@ == Seq::<char>::empty(),
            !r.feedback,
    {
        ClientSettings {
            ip: String::from_str("127.0.0.1"),
            port: String::from_str("8080"),
            username: String::new(),
            feedback: false,
        }
    }
}

/// The documentation sidebar's settings (its width, a float, stays with the window code).
#[derive(Clone, Copy, Debug)]
pub struct DocSettings {
    pub side: DocSide,
    pub collapsed: bool,
    pub pinned: bool,
    pub trigger: DocTrigger,
    pub mode: u8,
    pub settings_tab: u8,
}

impl Default for DocSettings {
    /// On the right, collapsed, unpinned, opened by a click, on the first mode and tab.
    fn default() -> (r: Self)
        ensures
            r == (DocSettings {
                side: DocSide::Right,
                collapsed: true,
                pinned: false,
                trigger: DocTrigger::Click,
                mode: 0,
                settings_tab: 0,
            }),
    {
        DocSettings {
            side: DocSide::Right,
            collapsed: true,
            pinned: false,
            trigger: DocTrigger::Click,
            mode: 0,
            settings_tab: 0,
        }
    }
}

/// The tools sidebar's settings (its width, a float, stays with the window code).
#[derive(Clone, Copy, Debug)]
pub struct ToolsSettings {
    pub open: bool,
    pub show_chat: bool,
    pub show_sample_browser: bool,
    pub active_tab: Option<ToolsTab>,
}

impl Default for ToolsSettings {
    /// Closed, showing nothing.
    fn default() -> (r: Self)
        ensures
            r == (ToolsSettings {
                open: false,
                show_chat: false,
                show_sample_browser: false,
                active_tab: None,
            }),
    {
        ToolsSettings { open: false, show_chat: false, show_sample_browser: false, active_tab: None }
    }
}


/// The appearance options panel; the system fonts are listed once, when first shown.
pub struct OptionsPanel {
    pub system_fonts: Option<Vec<String>>,
}

impl OptionsPanel {
    /// A panel that has not listed the system fonts yet.
    pub fn new() -> (r: Self)
        ensures
            r.system_fonts is None,
    {
        OptionsPanel { system_fonts: None }
    }
}

} // verus!
