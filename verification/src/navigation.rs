//! Going back (Escape) through the application's open layers, front to
//! back, and dismissing notifications.

use crate::menu_bar::MenuBar;
use vstd::prelude::*;

verus! {

/// The layers in front of the dashboards, and the notifications shown.
pub struct Overlays<N> {
    /// A confirmation dialog is open.
    pub confirm_dialog_open: bool,
    /// The menu bar, with its menus and "save layout" dialog.
    pub menu_bar: MenuBar,
    /// The historical-download dialog is open (with its request).
    pub historical_download_open: bool,
    /// A sidebar menu is open.
    pub sidebar_menu_open: bool,
    /// Notifications, oldest first.
    pub notifications: Vec<N>,
}

/// Which layer a "go back" closed.
#[derive(Debug, Clone, Copy, PartialEq, Eq, Structural)]
pub enum GoBack {
    ConfirmDialog,
    SaveDialog,
    Menu,
    HistoricalDownload,
    SidebarMenu,
    /// No overlay was open: the active dashboard goes back itself, and
    /// drops its focus if it had nothing to go back from.
    Dashboard,
}

/// The layer that a "go back" closes: the front-most open one.
pub open spec fn go_back_target<N>(o: Overlays<N>) -> GoBack {
    if o.confirm_dialog_open {
        GoBack::ConfirmDialog
    } else if o.menu_bar.show_save_dialog {
        GoBack::SaveDialog
    } else if o.menu_bar.open_menu is Some {
        GoBack::Menu
    } else if o.historical_download_open {
        GoBack::HistoricalDownload
    } else if o.sidebar_menu_open {
        GoBack::SidebarMenu
    } else {
        GoBack::Dashboard
    }
}

impl<N> Overlays<N> {
    /// Close the front-most open layer and say which it was. Closing the
    /// save dialog forgets the typed name; closing a menu hides its
    /// submenu. Nothing else changes.
    pub fn handle_go_back(&mut self) -> (r: GoBack)
        ensures
            r == go_back_target(*old(self)),
            final(self).notifications@ == old(self).notifications@,
            final(self).confirm_dialog_open == (old(self).confirm_dialog_open && r != GoBack::ConfirmDialog),
            final(self).menu_bar.show_save_dialog == (old(self).menu_bar.show_save_dialog && r
                != GoBack::SaveDialog),
            r == GoBack::SaveDialog ==> final(self).menu_bar.save_layout_name@ == Seq::<char>::empty(),
            r != GoBack::SaveDialog ==> final(self).menu_bar.save_layout_name@
                == old(self).menu_bar.save_layout_name@,
            final(self).menu_bar.open_menu == if r == GoBack::Menu {
                None
            } else {
                old(self).menu_bar.open_menu
            },
            final(self).menu_bar.show_submenu == (old(self).menu_bar.show_submenu && r != GoBack::Menu),
            final(self).historical_download_open == (old(self).historical_download_open && r
                != GoBack::HistoricalDownload),
            final(self).sidebar_menu_open == (old(self).sidebar_menu_open && r != GoBack::SidebarMenu),
    {
        if self.confirm_dialog_open {
            self.confirm_dialog_open = false;
            GoBack::ConfirmDialog
        } else if self.menu_bar.show_save_dialog {
            self.menu_bar.show_save_dialog = false;
            self.menu_bar.save_layout_name = String::new();
            GoBack::SaveDialog
        } else if self.menu_bar.open_menu.is_some() {
            self.menu_bar.open_menu = None;
            self.menu_bar.show_submenu = false;
            GoBack::Menu
        } else if self.historical_download_open {
            self.historical_download_open = false;
            GoBack::HistoricalDownload
        } else if self.sidebar_menu_open {
            self.sidebar_menu_open = false;
            GoBack::SidebarMenu
        } else {
            GoBack::Dashboard
        }
    }

    /// Dismiss the notification at `index`, if there is one.
    pub fn handle_remove_notification(&mut self, index: usize)
        ensures
            final(self).notifications@ == if index < old(self).notifications@.len() {
                old(self).notifications@.remove(index as int)
            } else {
                old(self).notifications@
            },
            final(self).confirm_dialog_open == old(self).confirm_dialog_open,
            final(self).historical_download_open == old(self).historical_download_open,
            final(self).sidebar_menu_open == old(self).sidebar_menu_open,
            final(self).menu_bar.open_menu == old(self).menu_bar.open_menu,
            final(self).menu_bar.save_layout_name@ == old(self).menu_bar.save_layout_name@,
            final(self).menu_bar.show_save_dialog == old(self).menu_bar.show_save_dialog,
            final(self).menu_bar.show_submenu == old(self).menu_bar.show_submenu,
    {
        if index < self.notifications.len() {
            self.notifications.remove(index);
        }
    }
}

/// The dashboard's focus after it was asked to go back: kept where it went
/// back from something, else dropped.
pub fn focus_after_go_back<F>(went_back: bool, focus: Option<F>) -> (r: Option<F>)
    ensures
        r == if went_back {
            focus
        } else {
            None
        },
{
    if went_back {
        focus
    } else {
        None
    }
}

} // verus!
