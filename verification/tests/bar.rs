use cp_eras_ui::bar::{
    audio_label, has_icons, has_submenus, levels, network_label, row_action, row_look,
    status_labels, tray_label, RowAction,
    usage_label, widest_label, workspace_label, worn_label, Audio, MenuEntry, MenuKind, Network,
    RowLook, TrayMenu, Wear, Workspace,
};
use cp_eras_ui::glyphs::{module_cells, module_segments};
use cp_eras_ui::text::clip;

#[test]
fn clip_counts_characters_not_bytes() {
    assert_eq!(clip("wlp3s0", 12), "wlp3s0");
    assert_eq!(clip("abcdefghijklmnop", 12), "abcdefghijk…");
    assert_eq!(clip("日本語のネットワーク名です", 6), "日本語のネ…");
    assert_eq!(clip("exactly", 7), "exactly");
    assert_eq!(clip("x", 0), "…");
    assert_eq!(clip("", 0), "");
}

#[test]
fn audio_reads_volume_and_mute() {
    assert_eq!(audio_label(&Audio { volume: 5, muted: false }), ("VOL   5%".to_string(), Wear::Idle));
    assert_eq!(audio_label(&Audio { volume: 100, muted: true }), ("MUT 100%".to_string(), Wear::Alert));
    assert_eq!(audio_label(&Audio { volume: 1500, muted: false }), ("VOL 999%".to_string(), Wear::Idle));
}

#[test]
fn usage_is_two_places() {
    assert_eq!(usage_label("CPU", 7), ("CPU  7%".to_string(), Wear::Idle));
    assert_eq!(usage_label("MEM", 100), ("MEM 100%".to_string(), Wear::Idle));
}

#[test]
fn network_module_follows_the_route() {
    assert_eq!(network_label(&Network::Unknown), None);
    assert_eq!(network_label(&Network::Offline), Some(("NET --".to_string(), Wear::Alert)));
    assert_eq!(
        network_label(&Network::Wired { interface: "enp0s31f6-long-name".into() }),
        Some(("NET enp0s31f6-l…".to_string(), Wear::Idle))
    );
    assert_eq!(
        network_label(&Network::Wireless { interface: "wlan0".into(), ssid: String::new() }),
        Some(("WIFI wlan0".to_string(), Wear::Idle))
    );
    assert_eq!(
        network_label(&Network::Wireless { interface: "wlan0".into(), ssid: "café".into() }),
        Some(("WIFI café".to_string(), Wear::Idle))
    );
}

#[test]
fn workspaces_and_tray_and_suffix() {
    assert_eq!(workspace_label(&Workspace { id: 3, active: true }), ("3".to_string(), Wear::Selected));
    assert_eq!(workspace_label(&Workspace { id: -98, active: false }), ("-98".to_string(), Wear::Idle));
    assert_eq!(
        workspace_label(&Workspace { id: i32::MIN, active: false }).0,
        "-2147483648"
    );
    assert_eq!(tray_label("Syncthing", true), ("Synct…".to_string(), Wear::Alert));
    assert_eq!(worn_label("NET --".into(), Wear::Alert, Some(" (!)")), "NET -- (!)");
    assert_eq!(worn_label("NET --".into(), Wear::Alert, None), "NET --");
    assert_eq!(worn_label("3".into(), Wear::Selected, Some(" (!)")), "3");
}

#[test]
fn each_occupied_module_is_four_segments() {
    assert_eq!(module_segments(&[]), 0);
    assert_eq!(module_segments(&["....", "...."]), 0);
    assert_eq!(module_segments(&["#..#", ".##.", "é#"]), 20);
}

fn command(id: i32, label: &str) -> MenuEntry {
    MenuEntry {
        id,
        label: label.to_string(),
        enabled: true,
        kind: MenuKind::Command,
        has_icon: false,
        children: Vec::new(),
    }
}

fn separator(id: i32) -> MenuEntry {
    MenuEntry { kind: MenuKind::Separator, ..command(id, "") }
}

fn submenu(id: i32, label: &str, children: Vec<MenuEntry>) -> MenuEntry {
    MenuEntry { kind: MenuKind::Submenu, children, ..command(id, label) }
}

/// A menu shaped like pasystray's: a couple of commands, a rule, and a
/// submenu with something in it.
fn menu() -> TrayMenu {
    TrayMenu {
        entries: vec![
            command(1, "Default Server"),
            separator(2),
            submenu(3, "Default Sink", vec![command(4, "Dummy Output"), command(5, "Headphones")]),
            command(6, "Quit"),
        ],
    }
}

#[test]
fn a_path_that_outruns_the_tree_stops_where_the_tree_does() {
    let menu = menu();

    // Past the end of the root panel.
    assert_eq!(levels(&menu, &[99]).len(), 1);
    // A row with no children of its own -- which is what an
    // application offering an empty submenu produces.
    assert_eq!(levels(&menu, &[0]).len(), 1);
    // One level deeper than the tree goes.
    assert_eq!(levels(&menu, &[2, 0]).len(), 2);
}

#[test]
fn an_open_submenu_is_one_more_panel() {
    let menu = menu();
    let closed = levels(&menu, &[]);
    assert_eq!(closed.len(), 1);
    assert_eq!(closed[0].open, None);
    assert_eq!(closed[0].entries.len(), 4);

    let open = levels(&menu, &[2]);
    assert_eq!(open.len(), 2);
    assert_eq!(open[0].open, Some(2));
    assert_eq!(open[1].open, None);
    assert_eq!(open[1].entries.len(), 2);
    assert_eq!(open[1].entries[1].label, "Headphones");
}

#[test]
fn one_icon_or_submenu_claims_a_column_for_the_panel() {
    let mut rows = vec![command(1, "Recording Streams and Modules"), command(2, "Quit")];
    assert!(!has_icons(&rows));
    assert!(!has_submenus(&rows));
    rows[1].has_icon = true;
    assert!(has_icons(&rows));
    rows.push(submenu(3, "More", vec![command(4, "x")]));
    assert!(has_submenus(&rows));
    assert!(!has_icons(&[]));
}

#[test]
fn a_panel_is_as_wide_as_its_widest_label_up_to_forty() {
    assert_eq!(widest_label(&[]), 0);
    assert_eq!(widest_label(&menu().entries), 14);
    let long = "x".repeat(55);
    assert_eq!(widest_label(&[command(1, "ab"), command(2, &long)]), 40);
    assert_eq!(widest_label(&[command(1, "日本語")]), 3);
}

#[test]
fn an_open_row_outranks_a_set_toggle_and_a_disabled_one() {
    let mut row = command(1, "Mute");
    assert_eq!(row_look(&row, false), RowLook::Plain);
    row.enabled = false;
    assert_eq!(row_look(&row, false), RowLook::Quiet);
    row.kind = MenuKind::Toggle(true);
    assert_eq!(row_look(&row, false), RowLook::Chosen);
    assert_eq!(row_look(&row, true), RowLook::Open);
    row.kind = MenuKind::Toggle(false);
    assert_eq!(row_look(&row, false), RowLook::Quiet);
}

#[test]
fn cells_are_drawn_row_by_row() {
    assert_eq!(module_cells(&[]), Vec::<(usize, usize)>::new());
    assert_eq!(module_cells(&["#..#", ".##.", "é#"]), vec![(0, 0), (0, 3), (1, 1), (1, 2), (2, 2)]);
    let rows = ["#.#", "###"];
    assert_eq!(module_segments(&rows), 4 * module_cells(&rows).len());
}

#[test]
fn a_click_sends_the_id_or_opens_the_submenu() {
    let menu = menu();
    assert_eq!(row_action(&menu.entries[0], &[], 0), Some(RowAction::Entry(1)));
    assert_eq!(row_action(&menu.entries[1], &[], 1), None);
    assert_eq!(row_action(&menu.entries[2], &[4], 2), Some(RowAction::Submenu(vec![4, 2])));
    // An empty submenu still answers: its rows come when it is asked.
    assert_eq!(row_action(&submenu(9, "Later", vec![]), &[], 0), Some(RowAction::Submenu(vec![0])));
    let mut greyed = command(7, "Quit");
    greyed.enabled = false;
    assert_eq!(row_action(&greyed, &[], 3), None);
    greyed.kind = MenuKind::Submenu;
    assert_eq!(row_action(&greyed, &[], 3), None);
}

#[test]
fn the_right_hand_run_in_order() {
    let labels = status_labels(
        &Network::Wired { interface: "eth0".into() },
        Some(Audio { volume: 40, muted: true }),
        7,
        63,
        "Mon 03",
        "12:04",
    );
    assert_eq!(
        labels,
        vec![
            ("NET eth0".to_string(), Wear::Idle),
            ("MUT  40%".to_string(), Wear::Alert),
            ("CPU  7%".to_string(), Wear::Idle),
            ("MEM 63%".to_string(), Wear::Idle),
            ("Mon 03".to_string(), Wear::Idle),
            ("12:04".to_string(), Wear::Selected),
        ]
    );
    let bare = status_labels(&Network::Unknown, None, 100, 0, "", "00:00");
    assert_eq!(bare.len(), 4);
    assert_eq!(bare[0], ("CPU 100%".to_string(), Wear::Idle));
    assert_eq!(bare[1], ("MEM  0%".to_string(), Wear::Idle));
}
