use vstd::prelude::*;

use crate::settings::DocSettings;
use crate::text::{chars_eq, chars_of};

verus! {

/// What the sidebar shows: the documentation or the settings.
#[derive(Clone, Copy, PartialEq, Eq, Structural, Debug)]
pub enum SidebarMode {
    Docs,
    Settings,
}

/// The number a sidebar mode is stored as.
pub open spec fn mode_code(m: SidebarMode) -> u8 {
    match m {
        SidebarMode::Docs => 0,
        SidebarMode::Settings => 1,
    }
}

/// The sidebar mode a stored number stands for (the documentation for any unknown one).
pub open spec fn mode_of(v: u8) -> SidebarMode {
    if v == 1 {
        SidebarMode::Settings
    } else {
        SidebarMode::Docs
    }
}

impl SidebarMode {
    /// The sidebar mode a stored number stands for (see [`mode_of`]).
    pub fn from_u8(v: u8) -> (r: Self)
        ensures
            r == mode_of(v),
    {
        match v {
            1 => SidebarMode::Settings,
            _ => SidebarMode::Docs,
        }
    }

    /// The number the mode is stored as.
    pub fn to_u8(self) -> (r: u8)
        ensures
            r == mode_code(self),
    {
        match self {
            SidebarMode::Docs => 0,
            SidebarMode::Settings => 1,
        }
    }
}

/// A tab of the settings sidebar.
#[derive(Clone, Copy, PartialEq, Eq, Structural, Debug)]
pub enum SettingsTab {
    Server,
    Appearance,
    Devices,
    Logs,
}

/// The number a settings tab is stored as.
pub open spec fn tab_code(t: SettingsTab) -> u8 {
    match t {
        SettingsTab::Server => 0,
        SettingsTab::Appearance => 1,
        SettingsTab::Devices => 2,
        SettingsTab::Logs => 3,
    }
}

/// The settings tab a stored number stands for (the server tab for any unknown one).
pub open spec fn tab_of(v: u8) -> SettingsTab {
    if v == 1 {
        SettingsTab::Appearance
    } else if v == 2 {
        SettingsTab::Devices
    } else if v == 3 {
        SettingsTab::Logs
    } else {
        SettingsTab::Server
    }
}

impl SettingsTab {
    /// The settings tab a stored number stands for (see [`tab_of`]).
    pub fn from_u8(v: u8) -> (r: Self)
        ensures
            r == tab_of(v),
    {
        match v {
            1 => SettingsTab::Appearance,
            2 => SettingsTab::Devices,
            3 => SettingsTab::Logs,
            _ => SettingsTab::Server,
        }
    }

    /// The number the tab is stored as.
    pub fn to_u8(self) -> (r: u8)
        ensures
            r == tab_code(self),
    {
        match self {
            SettingsTab::Server => 0,
            SettingsTab::Appearance => 1,
            SettingsTab::Devices => 2,
            SettingsTab::Logs => 3,
        }
    }

    /// The translation key of the tab's title.
    pub fn label_key(self) -> (r: &'static str)
        ensures
            r@ == match self {
                SettingsTab::Server => "config.title"@,
                SettingsTab::Appearance => "options.title"@,
                SettingsTab::Devices => "devices.title"@,
                SettingsTab::Logs => "log.title"@,
            },
    {
        match self {
            SettingsTab::Server => "config.title",
            SettingsTab::Appearance => "options.title",
            SettingsTab::Devices => "devices.title",
            SettingsTab::Logs => "log.title",
        }
    }
}

/// The settings tabs, in display order.
pub const SETTINGS_TABS: [SettingsTab; 4] = [
    SettingsTab::Server,
    SettingsTab::Appearance,
    SettingsTab::Devices,
    SettingsTab::Logs,
];

/// Reading back a stored sidebar mode or settings tab gives what was stored.
pub proof fn lemma_codes_round_trip(m: SidebarMode, t: SettingsTab)
    ensures
        mode_of(mode_code(m)) == m,
        tab_of(tab_code(t)) == t,
{
}

/// A page of the documentation.
#[derive(Clone, Copy, PartialEq, Eq, Structural, Debug)]
pub enum DocView {
    GeneralArticle(usize),
    LangArticle(usize),
    LangReference(usize),
    DouxModule(usize),
}

/// The slugs of the general articles, in order.
pub open spec fn article_slugs() -> Seq<Seq<char>> {
    seq![
        "about"@,
        "the-scene"@,
        "timing"@,
        "languages"@,
        "devices"@,
        "variables"@,
        "audio-engine"@,
        "multiplayer"@,
    ]
}

/// The slugs and titles of the general articles, in order (their texts live with the
/// window code).
pub fn general_articles() -> (r: Vec<(&'static str, &'static str)>)
    ensures
        r@.len() == article_slugs().len(),
        forall|i: int| 0 <= i < r@.len() ==> (#[trigger] r@[i]).0@ == article_slugs()[i],
{
    let mut v: Vec<(&'static str, &'static str)> = Vec::new();
    v.push(("about", "About Sova"));
    v.push(("the-scene", "The Scene"));
    v.push(("timing", "Timing"));
    v.push(("languages", "Languages"));
    v.push(("devices", "Devices"));
    v.push(("variables", "Variables"));
    v.push(("audio-engine", "Audio Engine"));
    v.push(("multiplayer", "Multiplayer"));
    v
}

/// The first position from `i` on of `slug` among the general articles.
pub open spec fn article_index(slug: Seq<char>, i: int) -> Option<int>
    decreases article_slugs().len() - i,
{
    if i < 0 || i >= article_slugs().len() {
        None
    } else if article_slugs()[i] == slug {
        Some(i)
    } else {
        article_index(slug, i + 1)
    }
}

/// The page a link to `slug` leads to: the general article of that slug, if any.
pub fn resolve_article_link(slug: &str) -> (r: Option<DocView>)
    ensures
        r == match article_index(slug@, 0) {
            Some(i) => Some(DocView::GeneralArticle(i as usize)),
            None => None,
        },
{
    let articles = general_articles();
    let wanted = chars_of(slug);
    let mut i: usize = 0;
    while i < articles.len()
        invariant
            i <= articles@.len(),
            articles@.len() == article_slugs().len(),
            forall|k: int| 0 <= k < articles@.len() ==> (#[trigger] articles@[k]).0@ == article_slugs()[k],
            wanted@ == slug@,
            article_index(slug@, 0) == article_index(slug@, i as int),
        decreases articles@.len() - i,
    {
        let here = chars_of(articles[i].0);
        if chars_eq(&here, &wanted) {
            return Some(DocView::GeneralArticle(i));
        }
        i += 1;
    }
    None
}

/// The documentation and settings sidebar. (The markdown cache, the hover timer and the
/// sidebar's width live with the window code.)
pub struct DocPanel {
    pub settings: DocSettings,
    pub hover_expanded: bool,
    pub selected_tab: usize,
    pub search: String,
    pub view: Option<DocView>,
    pub example_output: Option<Result<String, String>>,
    pub edited_example: String,
    pub scroll_to_top: bool,
    pub scroll_toc: bool,
}

/// The settings tab `t` is on display.
pub open spec fn tab_open(s: DocSettings, t: SettingsTab) -> bool {
    !s.collapsed && mode_of(s.mode) == SidebarMode::Settings && s.settings_tab == tab_code(t)
}

/// `s` with the settings tab `t` open, pinned.
pub open spec fn with_tab_open(s: DocSettings, t: SettingsTab) -> DocSettings {
    DocSettings {
        mode: mode_code(SidebarMode::Settings),
        settings_tab: tab_code(t),
        collapsed: false,
        pinned: true,
        ..s
    }
}

impl DocPanel {
    /// A sidebar with the given settings, on no page.
    pub fn new(settings: DocSettings) -> (r: Self)
        ensures
            r.settings == settings,
            !r.hover_expanded,
            r.selected_tab == 0,
            r.search@.len() == 0,
            r.view is None,
            r.example_output is None,
            r.edited_example@.len() == 0,
            !r.scroll_to_top,
            !r.scroll_toc,
    {
        DocPanel {
            settings,
            hover_expanded: false,
            selected_tab: 0,
            search: String::new(),
            view: None,
            example_output: None,
            edited_example: String::new(),
            scroll_to_top: false,
            scroll_toc: false,
        }
    }

    /// The sidebar is expanded when not collapsed, or while hovered.
    pub fn is_expanded(&self) -> (r: bool)
        ensures
            r == (!self.settings.collapsed || self.hover_expanded),
    {
        !self.settings.collapsed || self.hover_expanded
    }

    /// Goes to `view`; a different page scrolls back to its top.
    pub fn set_view(&mut self, view: DocView)
        ensures
            final(self).view == Some(view),
            final(self).scroll_to_top == (old(self).scroll_to_top || old(self).view != Some(view)),
            final(self).scroll_toc == (old(self).scroll_toc || old(self).view != Some(view)),
            final(self).settings == old(self).settings,
            final(self).hover_expanded == old(self).hover_expanded,
            final(self).selected_tab == old(self).selected_tab,
    {
        let same = match self.view {
            Some(v) => v == view,
            None => false,
        };
        if !same {
            self.scroll_to_top = true;
            self.scroll_toc = true;
        }
        self.view = Some(view);
    }

    /// What the sidebar shows.
    pub fn mode(&self) -> (r: SidebarMode)
        ensures
            r == mode_of(self.settings.mode),
    {
        SidebarMode::from_u8(self.settings.mode)
    }

    /// Opens and pins the sidebar on the settings tab `tab`.
    pub fn open_settings_tab(&mut self, tab: SettingsTab)
        ensures
            final(self).settings == with_tab_open(old(self).settings, tab),
            final(self).view == old(self).view,
            final(self).hover_expanded == old(self).hover_expanded,
    {
        self.settings.mode = SidebarMode::Settings.to_u8();
        self.settings.settings_tab = tab.to_u8();
        self.settings.collapsed = false;
        self.settings.pinned = true;
    }

    /// The settings tab `tab` is on display.
    pub fn is_settings_tab_open(&self, tab: SettingsTab) -> (r: bool)
        ensures
            r == tab_open(self.settings, tab),
    {
        !self.settings.collapsed && self.mode() == SidebarMode::Settings
            && self.settings.settings_tab == tab.to_u8()
    }

    /// The log tab is on display.
    pub fn is_logs_open(&self) -> (r: bool)
        ensures
            r == tab_open(self.settings, SettingsTab::Logs),
    {
        self.is_settings_tab_open(SettingsTab::Logs)
    }

    /// Collapses the sidebar when it shows the settings tab `tab`, else opens that tab.
    pub fn toggle_settings_tab(&mut self, tab: SettingsTab)
        ensures
            final(self).settings == if tab_open(old(self).settings, tab) {
                DocSettings { collapsed: true, ..old(self).settings }
            } else {
                with_tab_open(old(self).settings, tab)
            },
            final(self).view == old(self).view,
            final(self).hover_expanded == old(self).hover_expanded,
    {
        if self.is_settings_tab_open(tab) {
            self.settings.collapsed = true;
        } else {
            self.open_settings_tab(tab);
        }
    }
}

/// Opening a settings tab shows it; toggling it then collapses the sidebar, and toggling
/// once more shows it again.
pub proof fn lemma_settings_tab_toggle(s: DocSettings, t: SettingsTab)
    ensures
        tab_open(with_tab_open(s, t), t),
        !tab_open(DocSettings { collapsed: true, ..with_tab_open(s, t) }, t),
        with_tab_open(DocSettings { collapsed: true, ..with_tab_open(s, t) }, t) == with_tab_open(
            s,
            t,
        ),
{
}

} // verus!
