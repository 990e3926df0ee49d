use kairos_chart::menu_bar::{Menu, MenuBar};
use kairos_chart::navigation::{focus_after_go_back, GoBack, Overlays};

fn all_open() -> Overlays<&'static str> {
    let mut menu_bar = MenuBar::new();
    menu_bar.open_menu = Some(Menu::Layout);
    menu_bar.show_submenu = true;
    menu_bar.show_save_dialog = true;
    menu_bar.save_layout_name = String::from("draft");
    Overlays {
        confirm_dialog_open: true,
        menu_bar,
        historical_download_open: true,
        sidebar_menu_open: true,
        notifications: vec!["a", "b", "c"],
    }
}

#[test]
fn go_back_closes_layers_front_to_back() {
    let mut o = all_open();
    assert_eq!(o.handle_go_back(), GoBack::ConfirmDialog);
    assert!(!o.confirm_dialog_open);
    assert!(o.menu_bar.show_save_dialog);

    assert_eq!(o.handle_go_back(), GoBack::SaveDialog);
    assert!(!o.menu_bar.show_save_dialog);
    assert_eq!(o.menu_bar.save_layout_name, "");
    assert_eq!(o.menu_bar.open_menu, Some(Menu::Layout));

    assert_eq!(o.handle_go_back(), GoBack::Menu);
    assert_eq!(o.menu_bar.open_menu, None);
    assert!(!o.menu_bar.show_submenu);

    assert_eq!(o.handle_go_back(), GoBack::HistoricalDownload);
    assert!(!o.historical_download_open);
    assert!(o.sidebar_menu_open);

    assert_eq!(o.handle_go_back(), GoBack::SidebarMenu);
    assert!(!o.sidebar_menu_open);

    assert_eq!(o.handle_go_back(), GoBack::Dashboard);
    assert_eq!(o.handle_go_back(), GoBack::Dashboard);
    assert_eq!(o.notifications, vec!["a", "b", "c"]);
}

#[test]
fn dashboard_focus_after_go_back() {
    assert_eq!(focus_after_go_back(true, Some(3)), Some(3));
    assert_eq!(focus_after_go_back(false, Some(3)), None);
    assert_eq!(focus_after_go_back::<u8>(false, None), None);
}

#[test]
fn remove_notification_in_and_out_of_range() {
    let mut o = all_open();
    o.handle_remove_notification(1);
    assert_eq!(o.notifications, vec!["a", "c"]);
    o.handle_remove_notification(2);
    assert_eq!(o.notifications, vec!["a", "c"]);
    o.handle_remove_notification(0);
    o.handle_remove_notification(0);
    assert!(o.notifications.is_empty());
    o.handle_remove_notification(0);
    assert!(o.notifications.is_empty());
    assert!(o.confirm_dialog_open);
}
