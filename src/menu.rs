use vstd::prelude::*;

use crate::network::NetworkInfo;

verus! {

/// Number of entries of the main menu.
pub const MENU_ITEMS: usize = 3;

/// Screens of the menu.
#[derive(PartialEq, Eq, Structural, Clone, Copy, Debug)]
pub enum AppState {
    MainMenu,
    UserList,
    ViewStats,
}

/// What the user chose.
#[derive(PartialEq, Eq, Structural, Clone, Copy, Debug)]
pub enum UserAction {
    ViewStats,
    Quit,
    Idle,
    ViewUsers,
}

/// A user shown in the list.
pub struct MockUser {
    pub username: String,
    pub status: String,
}

/// Selection in a list of `len` entries after moving down: the next entry,
/// wrapping to the first; the first when nothing was selected.
pub open spec fn next_index(sel: Option<usize>, len: nat) -> usize {
    match sel {
        Some(i) => if i >= len - 1 {
            0
        } else {
            (i + 1) as usize
        },
        None => 0,
    }
}

/// Selection in a list of `len` entries after moving up: the previous entry,
/// wrapping to the last; the first when nothing was selected.
pub open spec fn previous_index(sel: Option<usize>, len: nat) -> usize {
    match sel {
        Some(i) => if i == 0 {
            (len - 1) as usize
        } else {
            (i - 1) as usize
        },
        None => 0,
    }
}

/// State of the menu: selections, screen, users and network details.
pub struct App {
    pub menu_selected: Option<usize>,
    pub users_selected: Option<usize>,
    pub app_state: AppState,
    pub online_users: Vec<MockUser>,
    pub last_action: Option<UserAction>,
    pub network_info: NetworkInfo,
}

fn mock_user(name: &str, status: &str) -> (r: MockUser)
    ensures
        r.username@ == name@,
        r.status@ == status@,
{
    MockUser { username: name.to_owned(), status: status.to_owned() }
}

impl App {
    /// The main menu with its first entry selected, and five sample users.
    pub fn new() -> (r: App)
        ensures
            r.menu_selected == Some(0usize),
            r.users_selected == Some(0usize),
            r.app_state == AppState::MainMenu,
            r.online_users@.len() == 5,
            r.last_action is None,
            r.network_info.udp_port == 0,
    {
        let mut online_users: Vec<MockUser> = Vec::new();
        online_users.push(mock_user("Alice", "Available"));
        online_users.push(mock_user("Bob", "Busy"));
        online_users.push(mock_user("Charlie", "Available"));
        online_users.push(mock_user("David", "Busy"));
        online_users.push(mock_user("Eve", "Available"));
        App {
            menu_selected: Some(0),
            users_selected: Some(0),
            app_state: AppState::MainMenu,
            online_users,
            last_action: None,
            network_info: NetworkInfo::new(),
        }
    }

    /// Selects the next main-menu entry, wrapping round.
    pub fn next_menu_item(&mut self)
        ensures
            final(self).menu_selected == Some(next_index(old(self).menu_selected, MENU_ITEMS as nat)),
            final(self).users_selected == old(self).users_selected,
            final(self).app_state == old(self).app_state,
    {
        let i = match self.menu_selected {
            Some(i) => if i >= MENU_ITEMS - 1 {
                0
            } else {
                i + 1
            },
            None => 0,
        };
        self.menu_selected = Some(i);
    }

    /// Selects the previous main-menu entry, wrapping round.
    pub fn previous_menu_item(&mut self)
        ensures
            final(self).menu_selected == Some(previous_index(old(self).menu_selected, MENU_ITEMS as nat)),
            final(self).users_selected == old(self).users_selected,
            final(self).app_state == old(self).app_state,
    {
        let i = match self.menu_selected {
            Some(i) => if i == 0 {
                MENU_ITEMS - 1
            } else {
                i - 1
            },
            None => 0,
        };
        self.menu_selected = Some(i);
    }

    /// Selects the next user, wrapping round.
    pub fn next_user(&mut self)
        requires
            old(self).online_users@.len() > 0,
        ensures
            final(self).users_selected == Some(next_index(old(self).users_selected, old(self).online_users@.len())),
            final(self).menu_selected == old(self).menu_selected,
            final(self).online_users@ == old(self).online_users@,
            final(self).app_state == old(self).app_state,
    {
        let n = self.online_users.len();
        let i = match self.users_selected {
            Some(i) => if i >= n - 1 {
                0
            } else {
                i + 1
            },
            None => 0,
        };
        self.users_selected = Some(i);
    }

    /// Selects the previous user, wrapping round.
    pub fn previous_user(&mut self)
        requires
            old(self).online_users@.len() > 0,
        ensures
            final(self).users_selected == Some(previous_index(old(self).users_selected, old(self).online_users@.len())),
            final(self).menu_selected == old(self).menu_selected,
            final(self).online_users@ == old(self).online_users@,
            final(self).app_state == old(self).app_state,
    {
        let n = self.online_users.len();
        let i = match self.users_selected {
            Some(i) => if i == 0 {
                n - 1
            } else {
                i - 1
            },
            None => 0,
        };
        self.users_selected = Some(i);
    }

    /// Back to the main menu.
    pub fn back_to_main_menu(&mut self)
        ensures
            final(self).app_state == AppState::MainMenu,
            final(self).menu_selected == old(self).menu_selected,
            final(self).users_selected == old(self).users_selected,
    {
        self.app_state = AppState::MainMenu;
    }

    /// To the statistics screen; the caller refreshes `network_info` first.
    pub fn view_stats(&mut self)
        ensures
            final(self).app_state == AppState::ViewStats,
            final(self).menu_selected == old(self).menu_selected,
            final(self).users_selected == old(self).users_selected,
    {
        self.app_state = AppState::ViewStats;
    }

    /// From the statistics screen back to the main menu.
    pub fn back_from_stats(&mut self)
        ensures
            final(self).app_state == AppState::MainMenu,
            final(self).menu_selected == old(self).menu_selected,
            final(self).users_selected == old(self).users_selected,
    {
        self.app_state = AppState::MainMenu;
    }
}

} // verus!
