use kairos_chart::autoscale::{autoscale_display, toggle_autoscale, Autoscale};
use kairos_chart::drawing::persistence::{drawings_file_name, drawings_path};
use kairos_chart::menu_bar::{Action, Menu, MenuBar, Message, MAX_LAYOUT_NAME_CHARS};
use kairos_chart::text::{first_chars, format_duration, push_decimal};

#[test]
fn menu_bar_starts_closed() {
    let bar = MenuBar::new();
    assert_eq!(bar.open_menu, None);
    assert!(bar.save_layout_name.is_empty());
    assert!(!bar.show_save_dialog);
    assert!(!bar.show_submenu);
}

#[test]
fn menu_open_toggles_and_hover_switches() {
    let mut bar = MenuBar::new();
    assert!(matches!(bar.update(Message::HoverEnter(Menu::File)), Action::Nothing));
    assert_eq!(bar.open_menu, None);

    bar.update(Message::Open(Menu::File));
    assert_eq!(bar.open_menu, Some(Menu::File));
    bar.update(Message::ShowSubmenu);
    assert!(bar.show_submenu);
    bar.update(Message::HoverEnter(Menu::Layout));
    assert_eq!(bar.open_menu, Some(Menu::Layout));
    assert!(!bar.show_submenu);

    bar.update(Message::Open(Menu::Layout));
    assert_eq!(bar.open_menu, None);
    bar.update(Message::Open(Menu::File));
    bar.update(Message::Close);
    assert_eq!(bar.open_menu, None);
    bar.update(Message::ShowSubmenu);
    bar.update(Message::HideSubmenu);
    assert!(!bar.show_submenu);
}

#[test]
fn menu_quit_closes_window() {
    let mut bar = MenuBar::new();
    bar.update(Message::Open(Menu::File));
    assert!(matches!(bar.update(Message::Quit), Action::CloseWindow));
    assert_eq!(bar.open_menu, None);
}

#[test]
fn save_layout_dialog_flow() {
    let mut bar = MenuBar::new();
    bar.update(Message::Open(Menu::Layout));
    bar.update(Message::SaveLayout);
    assert!(bar.show_save_dialog);
    assert_eq!(bar.open_menu, None);

    bar.update(Message::SaveLayoutNameChanged("  My layout  ".to_string()));
    assert_eq!(bar.save_layout_name, "  My layout  ");
    match bar.update(Message::SaveLayoutConfirm) {
        Action::SaveLayout(name) => assert_eq!(name, "My layout"),
        other => panic!("unexpected action {:?}", other),
    }
    assert!(!bar.show_save_dialog);
    assert!(bar.save_layout_name.is_empty());

    // Tabs, newlines and other Unicode whitespace are trimmed too.
    bar.update(Message::SaveLayout);
    bar.update(Message::SaveLayoutNameChanged("\t\u{3000}pad me\n".to_string()));
    match bar.update(Message::SaveLayoutConfirm) {
        Action::SaveLayout(name) => assert_eq!(name, "pad me"),
        other => panic!("unexpected action {:?}", other),
    }

    // A blank name saves nothing.
    bar.update(Message::SaveLayout);
    bar.update(Message::SaveLayoutNameChanged("   ".to_string()));
    assert!(matches!(bar.update(Message::SaveLayoutConfirm), Action::Nothing));

    // Cancel clears the name.
    bar.update(Message::SaveLayout);
    bar.update(Message::SaveLayoutNameChanged("draft".to_string()));
    assert!(matches!(bar.update(Message::SaveLayoutCancel), Action::Nothing));
    assert!(!bar.show_save_dialog);
    assert!(bar.save_layout_name.is_empty());
}

#[test]
fn layout_name_is_clamped_to_twenty_chars() {
    let mut bar = MenuBar::new();
    bar.update(Message::SaveLayoutNameChanged("abcdefghijklmnopqrstuvwxyz".to_string()));
    assert_eq!(bar.save_layout_name, "abcdefghijklmnopqrst");
    assert_eq!(MAX_LAYOUT_NAME_CHARS, 20);
    bar.update(Message::SaveLayoutNameChanged("ééééééééééééééééééééééé".to_string()));
    assert_eq!(bar.save_layout_name.chars().count(), 20);
}

#[test]
fn load_layout_passes_the_id() {
    let mut bar = MenuBar::new();
    bar.update(Message::Open(Menu::Layout));
    let id = uuid::Uuid::from_u128(42);
    match bar.update(Message::LoadLayout(id)) {
        Action::LoadLayout(got) => assert_eq!(got, id),
        other => panic!("unexpected action {:?}", other),
    }
    assert_eq!(bar.open_menu, None);
}

#[test]
fn autoscale_cycle() {
    assert_eq!(toggle_autoscale(None, true), Some(Autoscale::CenterLatest));
    assert_eq!(toggle_autoscale(Some(Autoscale::CenterLatest), true), Some(Autoscale::FitAll));
    assert_eq!(toggle_autoscale(Some(Autoscale::CenterLatest), false), Some(Autoscale::Disabled));
    assert_eq!(toggle_autoscale(Some(Autoscale::FitAll), true), Some(Autoscale::Disabled));
    assert_eq!(toggle_autoscale(Some(Autoscale::Disabled), true), None);

    let mut mode = Some(Autoscale::FitAll);
    for _ in 0..4 {
        mode = toggle_autoscale(mode, true);
    }
    assert_eq!(mode, Some(Autoscale::FitAll));
}

#[test]
fn autoscale_labels() {
    assert_eq!(autoscale_display(Some(Autoscale::CenterLatest)), ("C", "Center last price"));
    assert_eq!(autoscale_display(Some(Autoscale::FitAll)), ("A", "Auto"));
    assert_eq!(autoscale_display(Some(Autoscale::Disabled)), ("D", "Disabled"));
    assert_eq!(autoscale_display(None), ("C", "Toggle autoscaling"));
}

#[test]
fn duration_labels() {
    assert_eq!(format_duration(0), "0s");
    assert_eq!(format_duration(59_999), "59s");
    assert_eq!(format_duration(61_000), "1m 1s");
    assert_eq!(format_duration(3_600_000), "1h 0m");
    assert_eq!(format_duration(3_661_000), "1h 1m");
    assert_eq!(format_duration(90_000_000), "1d 1h");
    assert_eq!(format_duration(u64::MAX), "213503982334d 14h");
}

#[test]
fn text_helpers() {
    assert_eq!(first_chars("héllo", 2), "hé");
    assert_eq!(first_chars("ab", 5), "ab");
    let mut s = String::from("n=");
    push_decimal(&mut s, 1234567890);
    assert_eq!(s, "n=1234567890");
    let mut z = String::new();
    push_decimal(&mut z, 0);
    assert_eq!(z, "0");
}

#[test]
fn drawings_file_location() {
    assert_eq!(drawings_file_name("ESZ4", "M5"), "ESZ4_M5.json");
    assert_eq!(drawings_path("NQH5", "Tick(100)"), "drawings/NQH5_Tick(100).json");
}
