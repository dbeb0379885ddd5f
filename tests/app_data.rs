use yuml_ddt::storage::{default_font_size, default_theme, AppData, AppSettings};

#[test]
fn defaults() {
    assert_eq!(default_font_size(), 13);
    assert_eq!(default_theme(), "dark");
    let s = AppSettings::default();
    assert!(s.last_workspace.is_none());
    let d = AppData::default();
    assert!(d.recent_workspaces.is_empty());
}

#[test]
fn recent_workspaces_dedupe_and_cap() {
    let mut d = AppData::default();
    for i in 0..12 {
        d.add_recent_workspace_at(&format!("/w/ws{}", i), i as i64);
    }
    assert_eq!(d.recent_workspaces.len(), 10);
    assert_eq!(d.recent_workspaces[0].path, "/w/ws11");
    assert_eq!(d.recent_workspaces[0].name, "ws11");
    assert_eq!(d.recent_workspaces[9].path, "/w/ws2");
    d.add_recent_workspace_at("/w/ws5", 99);
    assert_eq!(d.recent_workspaces.len(), 10);
    assert_eq!(d.recent_workspaces[0].path, "/w/ws5");
    assert_eq!(d.recent_workspaces[0].last_opened, 99);
    assert_eq!(d.recent_workspaces.iter().filter(|w| w.path == "/w/ws5").count(), 1);
    assert_eq!(d.settings.last_workspace.as_deref(), Some("/w/ws5"));
    d.remove_recent_workspace("/w/ws5");
    assert_eq!(d.recent_workspaces.len(), 9);
    d.add_recent_workspace("/x/..");
    assert_eq!(d.recent_workspaces[0].name, "未知");
    d.clear_recent_workspaces();
    assert!(d.recent_workspaces.is_empty());
}
