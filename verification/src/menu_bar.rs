//! State machine of the application menu bar (File and Layout menus and
//! the "save layout" dialog).

use crate::text::{first_chars, trim_str};
use vstd::prelude::*;

verus! {

#[verifier::external_type_specification]
#[verifier::external_body]
pub struct ExUuid(uuid::Uuid);

/// Longest layout name the save dialog keeps, in characters.
pub const MAX_LAYOUT_NAME_CHARS: usize = 20;

/// A top-level menu.
#[derive(Debug, Clone, Copy, PartialEq, Eq, Structural)]
pub enum Menu {
    File,
    Layout,
}

/// Events the menu bar reacts to.
#[derive(Debug)]
pub enum Message {
    Open(Menu),
    Close,
    HoverEnter(Menu),
    Quit,
    SaveLayout,
    SaveLayoutNameChanged(String),
    SaveLayoutConfirm,
    SaveLayoutCancel,
    LoadLayout(uuid::Uuid),
    ShowSubmenu,
    HideSubmenu,
}

/// What the application must do after a menu event.
#[derive(Debug)]
pub enum Action {
    Nothing,
    CloseWindow,
    SaveLayout(String),
    LoadLayout(uuid::Uuid),
}

/// The menu bar's state.
#[derive(Debug)]
pub struct MenuBar {
    pub open_menu: Option<Menu>,
    pub save_layout_name: String,
    pub show_save_dialog: bool,
    pub show_submenu: bool,
}

/// The name the dialog keeps of a typed name: its first characters.
pub open spec fn clamp_name(name: Seq<char>) -> Seq<char> {
    if name.len() < MAX_LAYOUT_NAME_CHARS {
        name
    } else {
        name.take(MAX_LAYOUT_NAME_CHARS as int)
    }
}

impl MenuBar {
    /// A closed menu bar with an empty save dialog.
    pub fn new() -> (r: MenuBar)
        ensures
            r.open_menu is None,
            r.save_layout_name@ == Seq::<char>::empty(),
            !r.show_save_dialog,
            !r.show_submenu,
    {
        MenuBar {
            open_menu: None,
            save_layout_name: String::new(),
            show_save_dialog: false,
            show_submenu: false,
        }
    }

    /// React to a menu event.
    pub fn update(&mut self, message: Message) -> (r: Action)
        ensures
            match message {
                Message::Open(menu) => {
                    &&& final(self).open_menu == (if old(self).open_menu == Some(menu) {
                        None::<Menu>
                    } else {
                        Some(menu)
                    })
                    &&& !final(self).show_submenu
                    &&& final(self).show_save_dialog == old(self).show_save_dialog
                    &&& final(self).save_layout_name@ == old(self).save_layout_name@
                    &&& r is Nothing
                },
                Message::Close => {
                    &&& final(self).open_menu is None
                    &&& !final(self).show_submenu
                    &&& final(self).show_save_dialog == old(self).show_save_dialog
                    &&& final(self).save_layout_name@ == old(self).save_layout_name@
                    &&& r is Nothing
                },
                Message::HoverEnter(menu) => {
                    &&& final(self).open_menu == (if old(self).open_menu is Some {
                        Some(menu)
                    } else {
                        None::<Menu>
                    })
                    &&& final(self).show_submenu == (old(self).show_submenu && old(
                        self,
                    ).open_menu is None)
                    &&& final(self).show_save_dialog == old(self).show_save_dialog
                    &&& final(self).save_layout_name@ == old(self).save_layout_name@
                    &&& r is Nothing
                },
                Message::Quit => {
                    &&& final(self).open_menu is None
                    &&& final(self).show_submenu == old(self).show_submenu
                    &&& final(self).show_save_dialog == old(self).show_save_dialog
                    &&& final(self).save_layout_name@ == old(self).save_layout_name@
                    &&& r is CloseWindow
                },
                Message::SaveLayout => {
                    &&& final(self).open_menu is None
                    &&& !final(self).show_submenu
                    &&& final(self).show_save_dialog
                    &&& final(self).save_layout_name@ == old(self).save_layout_name@
                    &&& r is Nothing
                },
                Message::SaveLayoutNameChanged(name) => {
                    &&& final(self).open_menu == old(self).open_menu
                    &&& final(self).show_submenu == old(self).show_submenu
                    &&& final(self).show_save_dialog == old(self).show_save_dialog
                    &&& final(self).save_layout_name@ == clamp_name(name@)
                    &&& r is Nothing
                },
                Message::SaveLayoutConfirm => {
                    let name = crate::text::trim_spec(old(self).save_layout_name@);
                    &&& final(self).open_menu == old(self).open_menu
                    &&& final(self).show_submenu == old(self).show_submenu
                    &&& !final(self).show_save_dialog
                    &&& final(self).save_layout_name@ == Seq::<char>::empty()
                    &&& if name.len() == 0 {
                        r is Nothing
                    } else {
                        r matches Action::SaveLayout(s) && s@ == name
                    }
                },
                Message::SaveLayoutCancel => {
                    &&& final(self).open_menu == old(self).open_menu
                    &&& final(self).show_submenu == old(self).show_submenu
                    &&& !final(self).show_save_dialog
                    &&& final(self).save_layout_name@ == Seq::<char>::empty()
                    &&& r is Nothing
                },
                Message::LoadLayout(id) => {
                    &&& final(self).open_menu is None
                    &&& !final(self).show_submenu
                    &&& final(self).show_save_dialog == old(self).show_save_dialog
                    &&& final(self).save_layout_name@ == old(self).save_layout_name@
                    &&& r == Action::LoadLayout(id)
                },
                Message::ShowSubmenu => {
                    &&& final(self).open_menu == old(self).open_menu
                    &&& final(self).show_submenu
                    &&& final(self).show_save_dialog == old(self).show_save_dialog
                    &&& final(self).save_layout_name@ == old(self).save_layout_name@
                    &&& r is Nothing
                },
                Message::HideSubmenu => {
                    &&& final(self).open_menu == old(self).open_menu
                    &&& !final(self).show_submenu
                    &&& final(self).show_save_dialog == old(self).show_save_dialog
                    &&& final(self).save_layout_name@ == old(self).save_layout_name@
                    &&& r is Nothing
                },
            },
    {
        match message {
            Message::Open(menu) => {
                let same = match self.open_menu {
                    Some(m) => m == menu,
                    None => false,
                };
                if same {
                    self.open_menu = None;
                    self.show_submenu = false;
                } else {
                    self.open_menu = Some(menu);
                    self.show_submenu = false;
                }
            },
            Message::Close => {
                self.open_menu = None;
                self.show_submenu = false;
            },
            Message::HoverEnter(menu) => {
                if self.open_menu.is_some() {
                    self.open_menu = Some(menu);
                    self.show_submenu = false;
                }
            },
            Message::Quit => {
                self.open_menu = None;
                return Action::CloseWindow;
            },
            Message::SaveLayout => {
                self.open_menu = None;
                self.show_submenu = false;
                self.show_save_dialog = true;
            },
            Message::SaveLayoutNameChanged(name) => {
                self.save_layout_name = first_chars(name.as_str(), MAX_LAYOUT_NAME_CHARS);
            },
            Message::SaveLayoutConfirm => {
                let name = String::from_str(trim_str(self.save_layout_name.as_str()));
                self.show_save_dialog = false;
                self.save_layout_name = String::new();
                if name.unicode_len() > 0 {
                    return Action::SaveLayout(name);
                }
            },
            Message::SaveLayoutCancel => {
                self.show_save_dialog = false;
                self.save_layout_name = String::new();
            },
            Message::LoadLayout(id) => {
                self.open_menu = None;
                self.show_submenu = false;
                return Action::LoadLayout(id);
            },
            Message::ShowSubmenu => {
                self.show_submenu = true;
            },
            Message::HideSubmenu => {
                self.show_submenu = false;
            },
        }
        Action::Nothing
    }
}

} // verus!
