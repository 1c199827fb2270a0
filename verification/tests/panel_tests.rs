use sova_desktop::devices::{Creation, DeviceCommand, DevicesPanel, EditingField, OscStep};
use sova_desktop::doc_panel::{
    general_articles, resolve_article_link, DocPanel, DocView, SettingsTab, SidebarMode,
};
use sova_desktop::log::{LogEntry, LogLine, LogPanel, LogSource, LogTab, Severity, MAX_LOGS};
use sova_desktop::server::{ServerAction, ServerConfig, ServerError, ServerStatus};
use sova_desktop::settings::{
    ClientSettings, DocSettings, DocSide, DocTrigger, OptionsPanel, ServerSettings, ToolsSettings,
    ToolsTab, VisualsSettings,
};
use sova_desktop::tools::ToolsPanel;
use sova_desktop::transport::{TransportBar, TransportEditing};

fn line(level: Severity, msg: &str) -> LogLine {
    LogLine { level, msg: msg.to_string() }
}

#[test]
fn settings_defaults() {
    let s = ServerSettings::default();
    assert_eq!((s.ip.as_str(), s.port.as_str()), ("0.0.0.0", "8080"));
    let c = ClientSettings::default();
    assert_eq!((c.ip.as_str(), c.port.as_str(), c.username.as_str(), c.feedback), ("127.0.0.1", "8080", "", false));
    let d = DocSettings::default();
    assert_eq!(d.side, DocSide::Right);
    assert_eq!(d.trigger, DocTrigger::Click);
    assert!(d.collapsed && !d.pinned);
    let v = VisualsSettings::default();
    assert!(v.code.is_empty() && !v.shared);
    assert!(OptionsPanel::new().system_fonts.is_none());
}

#[test]
fn stored_tool_settings_are_brought_to_the_current_form() {
    let old = ToolsSettings { open: false, show_chat: false, show_sample_browser: false, active_tab: Some(ToolsTab::SampleBrowser) };
    let p = ToolsPanel::new(old);
    assert!(p.settings.open && p.settings.show_sample_browser && !p.settings.show_chat);
    assert!(p.settings.active_tab.is_none());
    let open = ToolsSettings { open: true, show_chat: false, show_sample_browser: false, active_tab: None };
    let p = ToolsPanel::new(open);
    assert!(p.settings.show_chat && p.settings.show_sample_browser);
}

#[test]
fn the_tools_sidebar_is_open_while_it_shows_a_tool() {
    let mut p = ToolsPanel::new(ToolsSettings::default());
    assert!(!p.settings.open);
    p.toggle_chat();
    assert!(p.settings.open);
    p.toggle_sample_browser();
    p.toggle_chat();
    assert!(p.settings.open);
    p.close();
    assert!(!p.settings.open && !p.settings.show_chat && !p.settings.show_sample_browser);
}

#[test]
fn sidebar_codes_and_tabs() {
    assert_eq!(SidebarMode::from_u8(1), SidebarMode::Settings);
    assert_eq!(SidebarMode::from_u8(7), SidebarMode::Docs);
    assert_eq!(SettingsTab::from_u8(3), SettingsTab::Logs);
    assert_eq!(SettingsTab::from_u8(9), SettingsTab::Server);
    assert_eq!(SettingsTab::Devices.to_u8(), 2);
    assert_eq!(SettingsTab::Appearance.label_key(), "options.title");
    let mut p = DocPanel::new(DocSettings::default());
    assert!(!p.is_expanded());
    p.toggle_settings_tab(SettingsTab::Logs);
    assert!(p.is_logs_open() && p.is_expanded() && p.settings.pinned);
    assert_eq!(p.mode(), SidebarMode::Settings);
    p.toggle_settings_tab(SettingsTab::Logs);
    assert!(!p.is_logs_open() && !p.is_expanded());
}

#[test]
fn article_links_resolve_to_general_articles() {
    assert_eq!(general_articles().len(), 8);
    assert_eq!(general_articles()[0], ("about", "About Sova"));
    assert_eq!(resolve_article_link("timing"), Some(DocView::GeneralArticle(2)));
    assert_eq!(resolve_article_link("multiplayer"), Some(DocView::GeneralArticle(7)));
    assert_eq!(resolve_article_link("nowhere"), None);
    let mut p = DocPanel::new(DocSettings::default());
    p.set_view(DocView::GeneralArticle(1));
    assert!(p.scroll_to_top);
    p.scroll_to_top = false;
    p.set_view(DocView::GeneralArticle(1));
    assert!(!p.scroll_to_top);
}

#[test]
fn the_midi_wizard_creates_a_trimmed_name() {
    let mut p = DevicesPanel::new();
    p.start_midi_creation();
    if let Creation::Midi { name } = &mut p.creation {
        *name = "  synth ".to_string();
    }
    match p.finish_midi_creation(true, false) {
        Some(DeviceCommand::CreateVirtualMidi { name }) => assert_eq!(name, "synth"),
        _ => panic!("expected a creation"),
    }
    assert!(matches!(p.creation, Creation::Idle));
}

#[test]
fn the_osc_wizard_walks_name_address_port() {
    let mut p = DevicesPanel::new();
    p.start_osc_creation();
    if let Creation::Osc { name, .. } = &mut p.creation {
        *name = "out".to_string();
    }
    assert!(p.step_osc_creation(true, false).is_none());
    assert!(matches!(p.creation, Creation::Osc { step: OscStep::Ip, .. }));
    assert!(p.step_osc_creation(true, false).is_none());
    match p.step_osc_creation(true, false) {
        Some(DeviceCommand::CreateOsc { name, ip, port }) => {
            assert_eq!((name.as_str(), ip.as_str(), port), ("out", "127.0.0.1", 9000));
        }
        _ => panic!("expected a creation"),
    }
    p.start_osc_input_creation();
    if let Creation::OscInput { port, .. } = &mut p.creation {
        *port = "70000".to_string();
    }
    assert!(p.step_osc_input_creation(true, false).is_none());
    assert!(p.step_osc_input_creation(true, false).is_none());
    assert!(matches!(p.creation, Creation::Idle));
}

#[test]
fn slot_edits_assign_free_or_do_nothing() {
    let mut p = DevicesPanel::new();
    p.begin_slot_edit("keys".to_string(), Some(3));
    match &p.editing {
        EditingField::Slot { buf, .. } => assert_eq!(buf, "3"),
        _ => panic!("expected a slot edit"),
    }
    let cmds = p.commit_slot_edit(&"keys".to_string(), Some(3));
    assert!(matches!(cmds.as_slice(), [DeviceCommand::AssignSlot { slot: 3, .. }]));
    p.begin_slot_edit("keys".to_string(), Some(3));
    if let EditingField::Slot { buf, .. } = &mut p.editing {
        *buf = " 5".to_string();
    }
    let cmds = p.commit_slot_edit(&"keys".to_string(), Some(3));
    assert!(matches!(cmds.as_slice(), [DeviceCommand::UnassignSlot { slot: 3 }, DeviceCommand::AssignSlot { slot: 5, .. }]));
    p.begin_slot_edit("keys".to_string(), Some(3));
    if let EditingField::Slot { buf, .. } = &mut p.editing {
        *buf = "17".to_string();
    }
    assert!(p.commit_slot_edit(&"keys".to_string(), Some(3)).is_empty());
    p.begin_slot_edit("keys".to_string(), Some(3));
    if let EditingField::Slot { buf, .. } = &mut p.editing {
        buf.clear();
    }
    let cmds = p.commit_slot_edit(&"keys".to_string(), Some(3));
    assert!(matches!(cmds.as_slice(), [DeviceCommand::UnassignSlot { slot: 3 }]));
    assert!(matches!(p.editing, EditingField::Idle));
}

#[test]
fn logs_keep_the_last_five_hundred_messages() {
    let mut p = LogPanel::new();
    for i in 0..(MAX_LOGS + 3) {
        p.push(LogEntry { source: LogSource::Server, message: line(Severity::Info, &format!("m{i}")) });
    }
    let logs = p.active_logs();
    assert_eq!(logs.len(), MAX_LOGS);
    assert_eq!(logs[0].msg, "m3");
    assert_eq!(logs[MAX_LOGS - 1].msg, format!("m{}", MAX_LOGS + 2));
}

#[test]
fn the_log_filter_goes_by_severity_and_search() {
    let mut p = LogPanel::new();
    p.push(LogEntry { source: LogSource::Client, message: line(Severity::Error, "Disk FULL") });
    p.push(LogEntry { source: LogSource::Client, message: line(Severity::Debug, "tick") });
    p.push(LogEntry { source: LogSource::Client, message: line(Severity::Warn, "disk slow") });
    p.set_tab(LogTab::Client);
    assert_eq!(p.visible(), vec![0, 1, 2]);
    p.set_search("DISK".to_string());
    assert_eq!(p.visible(), vec![0, 2]);
    p.toggle_severity(1);
    assert_eq!(p.visible(), vec![2]);
    p.clear_active();
    assert!(p.visible().is_empty());
}

#[test]
fn the_server_reports_its_address_and_refuses_a_bad_port() {
    let mut s = ServerConfig::new(ServerSettings::default());
    assert_eq!(s.info().address, "0.0.0.0:8080");
    assert!(!s.info().running);
    assert_eq!(s.start_port(), Some(8080));
    s.mark_running();
    assert_eq!(s.action_for_click(true), ServerAction::Stop);
    s.port = "99999".to_string();
    assert_eq!(s.start_port(), None);
    assert_eq!(s.status, ServerStatus::Error(ServerError::InvalidPort));
    assert_eq!(s.action_for_click(true), ServerAction::Start);
    assert_eq!(s.action_for_click(false), ServerAction::Idle);
}

#[test]
fn the_transport_bar_edits_one_field_at_a_time() {
    let mut t = TransportBar::new();
    assert!(t.show_phase_bar);
    t.begin_tempo_edit("120.0".to_string());
    t.focus_requested();
    assert!(matches!(&t.editing, TransportEditing::Tempo { request_focus: false, .. }));
    t.end_edit();
    assert!(matches!(t.editing, TransportEditing::Idle));
}

#[test]
fn device_list_polled_every_two_seconds_while_connected() {
    let mut p = DevicesPanel::new();
    assert!(!p.poll_devices_if_needed(false, false, 0));
    assert!(!p.poll_devices_if_needed(true, true, 0));
    assert_eq!(p.last_device_poll, None);
    assert!(p.poll_devices_if_needed(false, true, 100));
    assert_eq!(p.last_device_poll, Some(100));
    assert!(!p.poll_devices_if_needed(false, true, 2099));
    assert_eq!(p.last_device_poll, Some(100));
    assert!(p.poll_devices_if_needed(false, true, 2100));
    assert_eq!(p.last_device_poll, Some(2100));
}

#[test]
fn an_empty_password_field_starts_an_open_server() {
    let mut s = ServerConfig::new(ServerSettings::default());
    assert_eq!(s.start_password(), None);
    s.password = "hunter".to_string();
    assert_eq!(s.start_password(), Some("hunter".to_string()));
}

#[test]
fn a_typed_quantum_is_read_as_a_whole_number_held_between_one_and_sixteen() {
    let mut bar = TransportBar::new();
    bar.begin_quantum_edit("32".to_string());
    assert_eq!(bar.commit_quantum_edit(true), Some(16));
    assert!(matches!(bar.editing, TransportEditing::Idle));
    bar.begin_quantum_edit("0".to_string());
    assert_eq!(bar.commit_quantum_edit(true), Some(1));
    bar.begin_quantum_edit("+4".to_string());
    assert_eq!(bar.commit_quantum_edit(true), Some(4));
    bar.begin_quantum_edit(" 4".to_string());
    assert_eq!(bar.commit_quantum_edit(true), None);
    bar.begin_quantum_edit("4".to_string());
    assert_eq!(bar.commit_quantum_edit(false), None);
    assert!(matches!(bar.editing, TransportEditing::Idle));
    bar.begin_tempo_edit("120".to_string());
    assert_eq!(bar.commit_quantum_edit(true), None);
    assert!(matches!(bar.editing, TransportEditing::Tempo { .. }));
}
