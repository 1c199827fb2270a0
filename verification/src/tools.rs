use vstd::prelude::*;

use crate::settings::{ToolsSettings, ToolsTab};

verus! {

/// The tools sidebar: chat and sample browser, each shown or not.
pub struct ToolsPanel {
    pub settings: ToolsSettings,
}

/// The sidebar is open exactly when it shows something, and no tab is remembered.
pub open spec fn tools_synced(s: ToolsSettings) -> bool {
    s.open == (s.show_chat || s.show_sample_browser) && s.active_tab is None
}

/// `s` with `open` following what it shows and the remembered tab dropped.
pub open spec fn synced(s: ToolsSettings) -> ToolsSettings {
    ToolsSettings { open: s.show_chat || s.show_sample_browser, active_tab: None, ..s }
}

/// The settings as stored by an older version, brought to the current form: when nothing is
/// shown, the remembered tab is shown, or both tools when the sidebar was open.
pub open spec fn migrated(s: ToolsSettings) -> ToolsSettings {
    let shown = if !s.show_chat && !s.show_sample_browser {
        match s.active_tab {
            Some(ToolsTab::Chat) => ToolsSettings { show_chat: true, ..s },
            Some(ToolsTab::SampleBrowser) => ToolsSettings { show_sample_browser: true, ..s },
            None => if s.open {
                ToolsSettings { show_chat: true, show_sample_browser: true, ..s }
            } else {
                s
            },
        }
    } else {
        s
    };
    synced(shown)
}

impl ToolsPanel {
    pub open spec fn wf(&self) -> bool {
        tools_synced(self.settings)
    }

    /// A panel for stored settings (see [`migrated`]).
    pub fn new(settings: ToolsSettings) -> (r: Self)
        ensures
            r.settings == migrated(settings),
            r.wf(),
    {
        let mut settings = settings;
        if !settings.show_chat && !settings.show_sample_browser {
            match settings.active_tab {
                Some(ToolsTab::Chat) => settings.show_chat = true,
                Some(ToolsTab::SampleBrowser) => settings.show_sample_browser = true,
                None => {
                    if settings.open {
                        settings.show_chat = true;
                        settings.show_sample_browser = true;
                    }
                },
            }
        }
        settings.open = settings.show_chat || settings.show_sample_browser;
        settings.active_tab = None;
        ToolsPanel { settings }
    }

    fn sync_open(&mut self)
        ensures
            final(self).settings == synced(old(self).settings),
    {
        self.settings.open = self.settings.show_chat || self.settings.show_sample_browser;
        self.settings.active_tab = None;
    }

    /// Shows or hides the chat.
    pub fn toggle_chat(&mut self)
        ensures
            final(self).settings == synced(
                ToolsSettings { show_chat: !old(self).settings.show_chat, ..old(self).settings },
            ),
            final(self).wf(),
    {
        self.settings.show_chat = !self.settings.show_chat;
        self.sync_open();
    }

    /// Shows or hides the sample browser.
    pub fn toggle_sample_browser(&mut self)
        ensures
            final(self).settings == synced(
                ToolsSettings {
                    show_sample_browser: !old(self).settings.show_sample_browser,
                    ..old(self).settings
                },
            ),
            final(self).wf(),
    {
        self.settings.show_sample_browser = !self.settings.show_sample_browser;
        self.sync_open();
    }

    /// Hides both tools, which closes the sidebar.
    pub fn close(&mut self)
        ensures
            final(self).settings == (ToolsSettings {
                open: false,
                show_chat: false,
                show_sample_browser: false,
                active_tab: None,
            }),
    {
        self.settings.show_chat = false;
        self.settings.show_sample_browser = false;
        self.sync_open();
    }
}

/// Toggling the chat twice, or the sample browser twice, gives back the settings of a panel
/// in its usual (synced) state.
pub proof fn lemma_toggle_twice(s: ToolsSettings)
    requires
        tools_synced(s),
    ensures
        ({
            let once = synced(ToolsSettings { show_chat: !s.show_chat, ..s });
            synced(ToolsSettings { show_chat: !once.show_chat, ..once }) == s
        }),
        ({
            let once = synced(ToolsSettings { show_sample_browser: !s.show_sample_browser, ..s });
            synced(ToolsSettings { show_sample_browser: !once.show_sample_browser, ..once }) == s
        }),
{
}

} // verus!
