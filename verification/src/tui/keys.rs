//! What the keys do.

use crate::calendar::Date;
use crate::tui::browser::{lemma_listing_frame, RemoteListTui};
use crate::tui::model::{clamp, ApiKeyRequirement, ViewMode};
use vstd::prelude::*;

verus! {

/// A key.
#[derive(Debug, Clone, Copy, PartialEq, Eq, Structural)]
pub enum Key {
    Esc,
    Enter,
    Backspace,
    Tab,
    Up,
    Down,
    Left,
    Right,
    Function(u8),
    Char(char),
    Other,
}

/// A key with what is held down beside it.
#[derive(Debug, Clone, Copy, PartialEq, Eq, Structural)]
pub struct KeyPress {
    pub key: Key,
    /// Whether the control key is held down.
    pub control: bool,
    /// Whether anything but the shift key is held down.
    pub modified: bool,
}

/// What a key means where it is pressed.
#[derive(Debug, Clone, Copy, PartialEq, Eq, Structural)]
pub enum KeyMeaning {
    Nothing,
    Quit,
    ClosePrompt,
    SubmitPrompt,
    PopPrompt,
    PushPrompt(char),
    ShowBrowser,
    ShowAccount,
    AccountShortcut,
    OpenPricing,
    RefreshAccount,
    OpenDataset,
    AskForKey(ApiKeyRequirement),
    SyncDay,
    MoveDays(i64),
    MoveUp,
    MoveDown,
    CycleCategory(isize),
    ToggleBookmark,
    RevealSnapshot,
    PopSearch,
    PushSearch(char),
}

/// What is left to be done on the outside when a key was pressed.
#[derive(Debug, Clone, Copy, PartialEq, Eq, Structural)]
pub enum KeyAction {
    Nothing,
    Quit,
    SubmitPrompt,
    AccountShortcut,
    OpenPricing,
    RefreshAccount,
    OpenDataset,
    SyncDay,
    ToggleBookmark,
    RevealSnapshot,
}

/// Whether a character controls the terminal and shows nothing.
pub open spec fn control_char(c: char) -> bool {
    (c as int) < 0x20 || 0x7f <= c as int <= 0x9f
}

/// Whether a key types a character of the search.
pub open spec fn search_char(press: KeyPress, c: char) -> bool {
    !press.modified && ' ' <= c <= '~'
}

/// Whether a key types a character of the search.
pub fn is_search_input_key(press: &KeyPress) -> (res: bool)
    ensures
        res == (press.key matches Key::Char(c) && search_char(*press, c)),
{
    match press.key {
        Key::Char(c) => !press.modified && ' ' <= c && c <= '~',
        _ => false,
    }
}

/// Whether a character controls the terminal and shows nothing.
fn is_control(c: char) -> (res: bool)
    ensures
        res == control_char(c),
{
    let n: u32 = c as u32;
    n < 0x20 || (0x7f <= n && n <= 0x9f)
}

/// What a key means while an API key is asked for.
pub open spec fn prompt_meaning(press: KeyPress) -> KeyMeaning {
    match press.key {
        Key::Esc => KeyMeaning::ClosePrompt,
        Key::Enter => KeyMeaning::SubmitPrompt,
        Key::Backspace => KeyMeaning::PopPrompt,
        Key::Char(c) => if control_char(c) {
            KeyMeaning::Nothing
        } else {
            KeyMeaning::PushPrompt(c)
        },
        _ => KeyMeaning::Nothing,
    }
}

/// What a key means on a page. `requirement` tells why an API key is needed for the selected day, where
/// one is.
pub open spec fn page_meaning(
    mode: ViewMode,
    press: KeyPress,
    requirement: Option<ApiKeyRequirement>,
) -> KeyMeaning {
    match press.key {
        Key::Esc => if mode is Splash || mode is Browser {
            KeyMeaning::Quit
        } else {
            KeyMeaning::ShowBrowser
        },
        Key::Enter => if mode is Browser {
            KeyMeaning::OpenDataset
        } else {
            match requirement {
                Some(requirement) => KeyMeaning::AskForKey(requirement),
                None => KeyMeaning::SyncDay,
            }
        },
        Key::Up => if mode is Dataset {
            KeyMeaning::MoveDays((-7int) as i64)
        } else {
            KeyMeaning::MoveUp
        },
        Key::Down => if mode is Dataset {
            KeyMeaning::MoveDays(7)
        } else {
            KeyMeaning::MoveDown
        },
        Key::Left => if mode is Dataset {
            KeyMeaning::MoveDays((-1int) as i64)
        } else if mode is Browser {
            KeyMeaning::CycleCategory((-1int) as isize)
        } else {
            KeyMeaning::Nothing
        },
        Key::Right => if mode is Dataset {
            KeyMeaning::MoveDays(1)
        } else if mode is Browser {
            KeyMeaning::CycleCategory(1)
        } else {
            KeyMeaning::Nothing
        },
        Key::Tab => if mode is Browser {
            KeyMeaning::ToggleBookmark
        } else if mode is Dataset {
            KeyMeaning::RevealSnapshot
        } else {
            KeyMeaning::Nothing
        },
        Key::Backspace => if mode is Browser {
            KeyMeaning::PopSearch
        } else {
            KeyMeaning::Nothing
        },
        Key::Function(n) => if mode is Splash {
            KeyMeaning::Nothing
        } else if n == 2 {
            KeyMeaning::ShowAccount
        } else if n == 3 {
            KeyMeaning::AccountShortcut
        } else {
            KeyMeaning::Nothing
        },
        Key::Char(c) => if mode is Splash {
            if c == ' ' {
                KeyMeaning::ShowBrowser
            } else {
                KeyMeaning::Nothing
            }
        } else if c == '.' {
            KeyMeaning::AccountShortcut
        } else if mode is Account && (c == 'p' || c == 'P') {
            KeyMeaning::OpenPricing
        } else if mode is Account && (c == 'r' || c == 'R') {
            KeyMeaning::RefreshAccount
        } else if mode is Browser && search_char(press, c) {
            KeyMeaning::PushSearch(c)
        } else {
            KeyMeaning::Nothing
        },
        Key::Other => KeyMeaning::Nothing,
    }
}

impl RemoteListTui {
    /// What a key means here.
    pub open spec fn meaning(self, press: KeyPress, today: int, has_api_key: bool) -> KeyMeaning {
        if press.key == Key::Char('c') && press.control {
            KeyMeaning::Quit
        } else if self.api_key_prompt is Some {
            prompt_meaning(press)
        } else {
            page_meaning(self.mode, press, self.selected_requirement(today, has_api_key))
        }
    }

    /// What a key means here.
    pub fn key_meaning(&self, press: KeyPress, today: Date, has_api_key: bool) -> (out: KeyMeaning)
        requires
            self.valid(),
            today.valid(),
        ensures
            out == self.meaning(press, today.days as int, has_api_key),
            out matches KeyMeaning::AskForKey(requirement) ==> requirement.valid(),
    {
        if press.control {
            if let Key::Char('c') = press.key {
                return KeyMeaning::Quit;
            }
        }
        if self.api_key_prompt.is_some() {
            return match press.key {
                Key::Esc => KeyMeaning::ClosePrompt,
                Key::Enter => KeyMeaning::SubmitPrompt,
                Key::Backspace => KeyMeaning::PopPrompt,
                Key::Char(c) => if is_control(c) {
                    KeyMeaning::Nothing
                } else {
                    KeyMeaning::PushPrompt(c)
                },
                _ => KeyMeaning::Nothing,
            };
        }
        let (splash, browser, account, dataset) = match &self.mode {
            ViewMode::Splash => (true, false, false, false),
            ViewMode::Browser => (false, true, false, false),
            ViewMode::Account => (false, false, true, false),
            ViewMode::Dataset(_) => (false, false, false, true),
        };
        match press.key {
            Key::Esc => if splash || browser {
                KeyMeaning::Quit
            } else {
                KeyMeaning::ShowBrowser
            },
            Key::Enter => if browser {
                KeyMeaning::OpenDataset
            } else {
                match self.api_key_requirement_for_selected_day(today, has_api_key) {
                    Some(requirement) => KeyMeaning::AskForKey(requirement),
                    None => KeyMeaning::SyncDay,
                }
            },
            Key::Up => if dataset {
                KeyMeaning::MoveDays(-7)
            } else {
                KeyMeaning::MoveUp
            },
            Key::Down => if dataset {
                KeyMeaning::MoveDays(7)
            } else {
                KeyMeaning::MoveDown
            },
            Key::Left => if dataset {
                KeyMeaning::MoveDays(-1)
            } else if browser {
                KeyMeaning::CycleCategory(-1)
            } else {
                KeyMeaning::Nothing
            },
            Key::Right => if dataset {
                KeyMeaning::MoveDays(1)
            } else if browser {
                KeyMeaning::CycleCategory(1)
            } else {
                KeyMeaning::Nothing
            },
            Key::Tab => if browser {
                KeyMeaning::ToggleBookmark
            } else if dataset {
                KeyMeaning::RevealSnapshot
            } else {
                KeyMeaning::Nothing
            },
            Key::Backspace => if browser {
                KeyMeaning::PopSearch
            } else {
                KeyMeaning::Nothing
            },
            Key::Function(n) => if splash {
                KeyMeaning::Nothing
            } else if n == 2 {
                KeyMeaning::ShowAccount
            } else if n == 3 {
                KeyMeaning::AccountShortcut
            } else {
                KeyMeaning::Nothing
            },
            Key::Char(c) => if splash {
                if c == ' ' {
                    KeyMeaning::ShowBrowser
                } else {
                    KeyMeaning::Nothing
                }
            } else if c == '.' {
                KeyMeaning::AccountShortcut
            } else if account && (c == 'p' || c == 'P') {
                KeyMeaning::OpenPricing
            } else if account && (c == 'r' || c == 'R') {
                KeyMeaning::RefreshAccount
            } else if browser && is_search_input_key(&press) {
                KeyMeaning::PushSearch(c)
            } else {
                KeyMeaning::Nothing
            },
            Key::Other => KeyMeaning::Nothing,
        }
    }

    /// What the outside is left to do for a meaning.
    pub open spec fn action_for(meaning: KeyMeaning) -> KeyAction {
        match meaning {
            KeyMeaning::Quit => KeyAction::Quit,
            KeyMeaning::SubmitPrompt => KeyAction::SubmitPrompt,
            KeyMeaning::AccountShortcut => KeyAction::AccountShortcut,
            KeyMeaning::OpenPricing => KeyAction::OpenPricing,
            KeyMeaning::RefreshAccount => KeyAction::RefreshAccount,
            KeyMeaning::OpenDataset => KeyAction::OpenDataset,
            KeyMeaning::SyncDay => KeyAction::SyncDay,
            KeyMeaning::ToggleBookmark => KeyAction::ToggleBookmark,
            KeyMeaning::RevealSnapshot => KeyAction::RevealSnapshot,
            _ => KeyAction::Nothing,
        }
    }

    /// Whether `after` is this state once a key of this meaning was pressed.
    pub open spec fn pressed(self, meaning: KeyMeaning, after: RemoteListTui) -> bool {
        match meaning {
            KeyMeaning::ClosePrompt => after == (RemoteListTui { api_key_prompt: None, ..self }),
            KeyMeaning::PopPrompt => {
                &&& after == (RemoteListTui { api_key_prompt: after.api_key_prompt, ..self })
                &&& match self.api_key_prompt {
                    None => after.api_key_prompt is None,
                    Some(before) => after.api_key_prompt matches Some(prompt) && prompt.input@ == (
                    if before.input@.len() > 0 {
                        before.input@.drop_last()
                    } else {
                        before.input@
                    }) && prompt.error_message is None && prompt.access_message
                        == before.access_message,
                }
            },
            KeyMeaning::PushPrompt(c) => {
                &&& after == (RemoteListTui { api_key_prompt: after.api_key_prompt, ..self })
                &&& match self.api_key_prompt {
                    None => after.api_key_prompt is None,
                    Some(before) => after.api_key_prompt matches Some(prompt) && prompt.input@
                        == before.input@.push(c) && prompt.error_message is None
                        && prompt.access_message == before.access_message,
                }
            },
            KeyMeaning::ShowBrowser => after == (RemoteListTui { mode: ViewMode::Browser, ..self }),
            KeyMeaning::ShowAccount => after == (RemoteListTui { mode: ViewMode::Account, ..self }),
            KeyMeaning::AskForKey(requirement) => {
                &&& after == (RemoteListTui { api_key_prompt: after.api_key_prompt, ..self })
                &&& self.api_key_prompt is Some ==> after.api_key_prompt == self.api_key_prompt
                &&& self.api_key_prompt is None ==> (after.api_key_prompt matches Some(prompt)
                    && prompt.input@.len() == 0 && prompt.error_message is None
                    && prompt.access_message@ == requirement.words())
            },
            KeyMeaning::MoveDays(delta) => {
                &&& after == (RemoteListTui { mode: after.mode, ..self })
                &&& match self.mode {
                    ViewMode::Dataset(before) => after.mode matches ViewMode::Dataset(view)
                        && view.dataset == before.dataset && view.days == before.days
                        && view.selected_day == (if before.days@.len() == 0 {
                        before.selected_day as int
                    } else {
                        clamp(before.selected_day + delta, before.days@.len() - 1)
                    }),
                    _ => after.mode == self.mode,
                }
            },
            KeyMeaning::MoveUp => after == (RemoteListTui {
                selected: if self.selected > 0 {
                    (self.selected - 1) as usize
                } else {
                    0
                },
                ..self
            }),
            KeyMeaning::MoveDown => after == (RemoteListTui {
                selected: if self.selected + 1 < self.filtered_indices@.len() {
                    (self.selected + 1) as usize
                } else {
                    self.selected
                },
                ..self
            }),
            KeyMeaning::CycleCategory(delta) => {
                &&& after == (RemoteListTui {
                    filtered_indices: after.filtered_indices,
                    selected: after.selected,
                    selected_category: after.selected_category,
                    ..self
                })
                &&& after.selected_category == (self.selected_category + delta) % (
                self.categories@.len() as int)
                &&& if after.selected_category == self.selected_category {
                    after.selected == self.selected
                } else {
                    self.keeps_selection(after)
                }
            },
            KeyMeaning::PopSearch => {
                &&& after == (RemoteListTui {
                    search: after.search,
                    filtered_indices: after.filtered_indices,
                    selected: after.selected,
                    ..self
                })
                &&& after.search@ == (if self.search@.len() > 0 {
                    self.search@.drop_last()
                } else {
                    self.search@
                })
                &&& self.keeps_selection(after)
            },
            KeyMeaning::PushSearch(c) => {
                &&& after == (RemoteListTui {
                    search: after.search,
                    filtered_indices: after.filtered_indices,
                    selected: after.selected,
                    ..self
                })
                &&& after.search@ == self.search@.push(c)
                &&& self.keeps_selection(after)
            },
            _ => after == self,
        }
    }

    /// Moves the selected day.
    fn move_days(&mut self, delta: i64)
        requires
            old(self).valid(),
        ensures
            final(self).valid(),
            old(self).pressed(KeyMeaning::MoveDays(delta), *final(self)),
    {
        if let ViewMode::Dataset(view) = &mut self.mode {
            view.move_selection(delta);
        }
        proof {
            lemma_listing_frame(*self, *old(self));
        }
    }

    /// Does what a key means, as far as it is done in here, and tells what is left to be done outside.
    pub fn press_key(&mut self, press: KeyPress, today: Date, has_api_key: bool) -> (action: KeyAction)
        requires
            old(self).valid(),
            today.valid(),
        ensures
            final(self).valid(),
            action == RemoteListTui::action_for(
                old(self).meaning(press, today.days as int, has_api_key),
            ),
            old(self).pressed(
                old(self).meaning(press, today.days as int, has_api_key),
                *final(self),
            ),
    {
        let meaning = self.key_meaning(press, today, has_api_key);
        match meaning {
            KeyMeaning::Nothing => KeyAction::Nothing,
            KeyMeaning::Quit => KeyAction::Quit,
            KeyMeaning::ClosePrompt => {
                self.close_api_key_prompt();
                KeyAction::Nothing
            },
            KeyMeaning::SubmitPrompt => KeyAction::SubmitPrompt,
            KeyMeaning::PopPrompt => {
                self.pop_api_key_prompt_char();
                KeyAction::Nothing
            },
            KeyMeaning::PushPrompt(c) => {
                self.push_api_key_prompt_char(c);
                KeyAction::Nothing
            },
            KeyMeaning::ShowBrowser => {
                self.open_browser_view();
                KeyAction::Nothing
            },
            KeyMeaning::ShowAccount => {
                self.open_account_view();
                KeyAction::Nothing
            },
            KeyMeaning::AccountShortcut => KeyAction::AccountShortcut,
            KeyMeaning::OpenPricing => KeyAction::OpenPricing,
            KeyMeaning::RefreshAccount => KeyAction::RefreshAccount,
            KeyMeaning::OpenDataset => KeyAction::OpenDataset,
            KeyMeaning::AskForKey(requirement) => {
                self.open_api_key_prompt(requirement);
                KeyAction::Nothing
            },
            KeyMeaning::SyncDay => KeyAction::SyncDay,
            KeyMeaning::MoveDays(delta) => {
                self.move_days(delta);
                KeyAction::Nothing
            },
            KeyMeaning::MoveUp => {
                self.move_up();
                KeyAction::Nothing
            },
            KeyMeaning::MoveDown => {
                self.move_down();
                KeyAction::Nothing
            },
            KeyMeaning::CycleCategory(delta) => {
                self.cycle_category(delta);
                KeyAction::Nothing
            },
            KeyMeaning::ToggleBookmark => KeyAction::ToggleBookmark,
            KeyMeaning::RevealSnapshot => KeyAction::RevealSnapshot,
            KeyMeaning::PopSearch => {
                self.pop_search_char();
                KeyAction::Nothing
            },
            KeyMeaning::PushSearch(c) => {
                self.push_search_char(c);
                KeyAction::Nothing
            },
        }
    }
}

impl RemoteListTui {
    /// What a key event means here. Only a press means anything: a key that is held or let go does
    /// not.
    pub open spec fn event_meaning(
        self,
        is_press: bool,
        press: KeyPress,
        today: int,
        has_api_key: bool,
    ) -> KeyMeaning {
        if is_press {
            self.meaning(press, today, has_api_key)
        } else {
            KeyMeaning::Nothing
        }
    }

    /// Does what a key event means, as far as it is done in here, and tells what is left to be done
    /// outside.
    pub fn handle_key_event(
        &mut self,
        is_press: bool,
        press: KeyPress,
        today: Date,
        has_api_key: bool,
    ) -> (action: KeyAction)
        requires
            old(self).valid(),
            today.valid(),
        ensures
            final(self).valid(),
            action == RemoteListTui::action_for(
                old(self).event_meaning(is_press, press, today.days as int, has_api_key),
            ),
            old(self).pressed(
                old(self).event_meaning(is_press, press, today.days as int, has_api_key),
                *final(self),
            ),
            !is_press ==> action == KeyAction::Nothing && *final(self) == *old(self),
    {
        if is_press {
            self.press_key(press, today, has_api_key)
        } else {
            KeyAction::Nothing
        }
    }
}

/// A key that is pressed does what it means where it is pressed.
pub proof fn lemma_key_does_what_it_means(
    app: &mut RemoteListTui,
    is_press: bool,
    press: KeyPress,
    today: Date,
    has_api_key: bool,
    action: KeyAction,
)
    requires
        call_ensures(
            RemoteListTui::handle_key_event,
            (app, is_press, press, today, has_api_key),
            action,
        ),
    ensures
        is_press ==> {
            let meaning = old(app).meaning(press, today.days as int, has_api_key);
            &&& action == RemoteListTui::action_for(meaning)
            &&& old(app).pressed(meaning, *final(app))
        },
        !is_press ==> action == KeyAction::Nothing && *final(app) == *old(app),
{
}

/// What a key event does, whatever is shown: one that is no press changes nothing. A press of control
/// and C ends the browser and changes nothing. While an API key is asked for, any other press reaches
/// that question alone, and escape closes it.
pub proof fn lemma_key_events(
    app: RemoteListTui,
    is_press: bool,
    press: KeyPress,
    today: int,
    has_api_key: bool,
    after: RemoteListTui,
)
    requires
        app.pressed(app.event_meaning(is_press, press, today, has_api_key), after),
    ensures
        ({
            let action = RemoteListTui::action_for(
                app.event_meaning(is_press, press, today, has_api_key),
            );
            let stop = press.key == Key::Char('c') && press.control;
            &&& !is_press ==> action == KeyAction::Nothing && after == app
            &&& is_press && stop ==> action == KeyAction::Quit && after == app
            &&& is_press && !stop && app.api_key_prompt is Some ==> {
                &&& action == KeyAction::Nothing || action == KeyAction::SubmitPrompt
                &&& after == (RemoteListTui { api_key_prompt: after.api_key_prompt, ..app })
                &&& press.key == Key::Esc ==> action == KeyAction::Nothing
                    && after.api_key_prompt is None
            }
        }),
{
}

/// Control and C always ends the browser, and no other key does while an API key is asked for.
pub proof fn lemma_quit_keys(app: RemoteListTui, press: KeyPress, today: int, has_api_key: bool)
    ensures
        press.key == Key::Char('c') && press.control ==> app.meaning(press, today, has_api_key)
            == KeyMeaning::Quit,
        app.api_key_prompt is Some && app.meaning(press, today, has_api_key) == KeyMeaning::Quit
            ==> press.key == Key::Char('c') && press.control,
{
}

/// A day that needs an API key is never fetched without one: the key that would fetch it asks for the
/// API key.
pub proof fn lemma_key_is_asked_for(app: RemoteListTui, press: KeyPress, today: int, has_api_key: bool)
    requires
        app.selected_requirement(today, has_api_key) is Some,
    ensures
        app.meaning(press, today, has_api_key) != KeyMeaning::SyncDay,
        press.key == Key::Enter && app.api_key_prompt is None ==> app.meaning(
            press,
            today,
            has_api_key,
        ) == KeyMeaning::AskForKey(app.selected_requirement(today, has_api_key)->0),
{
}

// ---------------------------------------------------------------------------
// What each key does
// ---------------------------------------------------------------------------

/// Whether a key is pressed with nothing beside it that ends the browser, while no API key is asked
/// for, and `after` is the state it leads to.
pub open spec fn plainly_pressed(
    app: RemoteListTui,
    press: KeyPress,
    today: int,
    has_api_key: bool,
    after: RemoteListTui,
) -> bool {
    &&& app.valid()
    &&& app.api_key_prompt is None
    &&& !(press.key == Key::Char('c') && press.control)
    &&& app.pressed(app.meaning(press, today, has_api_key), after)
}

/// Among the days of a dataset, left and right go to the day before and the day after, up and down by
/// a week, as far as there are days. Nothing else changes, and nothing is left to do.
pub proof fn lemma_day_keys(
    app: RemoteListTui,
    press: KeyPress,
    today: int,
    has_api_key: bool,
    after: RemoteListTui,
    steps: int,
)
    requires
        plainly_pressed(app, press, today, has_api_key, after),
        app.mode is Dataset && app.mode->Dataset_0.days@.len() > 0,
        press.key == Key::Left && steps == -1 || press.key == Key::Right && steps == 1 || press.key
            == Key::Up && steps == -7 || press.key == Key::Down && steps == 7,
    ensures
        ({
            let old_view = app.mode->Dataset_0;
            let new_view = after.mode->Dataset_0;
            let wanted = old_view.selected_day + steps;
            &&& after.mode is Dataset
            &&& new_view.dataset == old_view.dataset && new_view.days == old_view.days
            &&& 0 <= wanted < old_view.days@.len() ==> new_view.selected_day == wanted
            &&& wanted < 0 ==> new_view.selected_day == 0
            &&& wanted >= old_view.days@.len() ==> new_view.selected_day + 1 == old_view.days@.len()
            &&& after == (RemoteListTui { mode: after.mode, ..app })
            &&& RemoteListTui::action_for(app.meaning(press, today, has_api_key))
                == KeyAction::Nothing
        }),
{
}

/// In the list, up and down select the dataset above and below, as far as the list goes. Left and
/// right go round the categories.
pub proof fn lemma_list_keys(
    app: RemoteListTui,
    press: KeyPress,
    today: int,
    has_api_key: bool,
    after: RemoteListTui,
)
    requires
        plainly_pressed(app, press, today, has_api_key, after),
        app.mode is Browser,
    ensures
        press.key == Key::Up && app.selected > 0 ==> after.selected + 1 == app.selected,
        press.key == Key::Up && app.selected == 0 ==> after.selected == 0,
        press.key == Key::Down && app.selected + 1 < app.filtered_indices@.len() ==> after.selected
            == app.selected + 1,
        press.key == Key::Down && app.selected + 1 >= app.filtered_indices@.len() ==> after.selected
            == app.selected,
        press.key == Key::Up || press.key == Key::Down ==> after == (RemoteListTui {
            selected: after.selected,
            ..app
        }),
        press.key == Key::Right && app.selected_category + 1 < app.categories@.len()
            ==> after.selected_category == app.selected_category + 1,
        press.key == Key::Right && app.selected_category + 1 == app.categories@.len()
            ==> after.selected_category == 0,
        press.key == Key::Left && app.selected_category > 0 ==> after.selected_category + 1
            == app.selected_category,
        press.key == Key::Left && app.selected_category == 0 ==> after.selected_category + 1
            == app.categories@.len(),
{
    let n = app.categories@.len() as int;
    let at = app.selected_category as int;
    assert(0 <= at < n);
    assert(app.filtered_indices.len() <= usize::MAX);
    if at + 1 < n {
        vstd::arithmetic::div_mod::lemma_small_mod((at + 1) as nat, n as nat);
    } else {
        assert((at + 1) % n == 0) by (nonlinear_arith)
            requires
                at + 1 == n,
                n > 0,
        ;
    }
    if at > 0 {
        vstd::arithmetic::div_mod::lemma_small_mod((at - 1) as nat, n as nat);
    } else {
        assert((at - 1) % n == n - 1) by (nonlinear_arith)
            requires
                at == 0,
                n > 0,
        ;
    }
}

/// In the list, a character that can be seen is put at the end of the search, and backspace takes the
/// last one away. The dot is not typed, and nothing that is pressed with control or alt.
pub proof fn lemma_search_keys(
    app: RemoteListTui,
    press: KeyPress,
    today: int,
    has_api_key: bool,
    after: RemoteListTui,
)
    requires
        plainly_pressed(app, press, today, has_api_key, after),
        app.mode is Browser,
    ensures
        press.key matches Key::Char(c) ==> if !press.modified && ' ' <= c <= '~' && c != '.' {
            after.search@ == app.search@.push(c)
        } else {
            after == app
        },
        press.key == Key::Backspace ==> after.search@ == (if app.search@.len() == 0 {
            app.search@
        } else {
            app.search@.take(app.search@.len() - 1)
        }),
        !(press.key is Char) && press.key != Key::Backspace ==> after.search@ == app.search@,
{
}

/// What the keys open. Escape leaves the browser from the start page and from the list, and else goes
/// back to the list. Enter opens the selected dataset from the list. Among the days it fetches the
/// selected one, unless that needs an API key, which is then asked for. Tab sets a bookmark in the
/// list and shows the files of a day. The account is behind the dot and two function keys, everywhere
/// but on the start page, which a blank leaves.
pub proof fn lemma_opening_keys(
    app: RemoteListTui,
    press: KeyPress,
    today: int,
    has_api_key: bool,
    after: RemoteListTui,
)
    requires
        plainly_pressed(app, press, today, has_api_key, after),
    ensures
        ({
            let action = RemoteListTui::action_for(app.meaning(press, today, has_api_key));
            let needs_key = app.selected_requirement(today, has_api_key) is Some;
            &&& press.key == Key::Esc && (app.mode is Splash || app.mode is Browser) ==> action
                == KeyAction::Quit
            &&& press.key == Key::Esc && (app.mode is Account || app.mode is Dataset) ==> action
                == KeyAction::Nothing && after.mode is Browser
            &&& press.key == Key::Enter && app.mode is Browser ==> action == KeyAction::OpenDataset
            &&& press.key == Key::Enter && app.mode is Dataset && !needs_key ==> action
                == KeyAction::SyncDay
            &&& press.key == Key::Enter && app.mode is Dataset && needs_key ==> action
                == KeyAction::Nothing && after.api_key_prompt is Some
            &&& press.key == Key::Tab && app.mode is Browser ==> action == KeyAction::ToggleBookmark
            &&& press.key == Key::Tab && app.mode is Dataset ==> action == KeyAction::RevealSnapshot
            &&& !(app.mode is Splash) && (press.key == Key::Char('.') || press.key
                == Key::Function(3)) ==> action == KeyAction::AccountShortcut
            &&& !(app.mode is Splash) && press.key == Key::Function(2) ==> after.mode is Account
            &&& app.mode is Account && (press.key == Key::Char('p') || press.key == Key::Char('P'))
                ==> action == KeyAction::OpenPricing
            &&& app.mode is Account && (press.key == Key::Char('r') || press.key == Key::Char('R'))
                ==> action == KeyAction::RefreshAccount
            &&& app.mode is Splash && press.key == Key::Char(' ') ==> after.mode is Browser
            &&& app.mode is Splash && (press.key is Function || press.key is Char && press.key
                != Key::Char(' ')) ==> after == app && action == KeyAction::Nothing
            &&& action == KeyAction::Quit ==> press.key == Key::Esc
            &&& action == KeyAction::SyncDay ==> press.key == Key::Enter
        }),
{
}

/// While an API key is asked for, what is typed is put at the end of the key, backspace takes the last
/// character away, and enter hands the key in.
pub proof fn lemma_prompt_keys(
    app: RemoteListTui,
    press: KeyPress,
    today: int,
    has_api_key: bool,
    after: RemoteListTui,
)
    requires
        app.api_key_prompt is Some,
        !(press.key == Key::Char('c') && press.control),
        app.pressed(app.meaning(press, today, has_api_key), after),
    ensures
        ({
            let before = app.api_key_prompt->0.input@;
            let action = RemoteListTui::action_for(app.meaning(press, today, has_api_key));
            &&& (press.key matches Key::Char(c) && c >= ' ' && c <= '~') ==> after.api_key_prompt
                is Some && after.api_key_prompt->0.input@ == before.push(press.key->Char_0)
            &&& press.key == Key::Backspace && before.len() > 0 ==> after.api_key_prompt is Some
                && after.api_key_prompt->0.input@ == before.take(before.len() - 1)
            &&& press.key == Key::Enter <==> action == KeyAction::SubmitPrompt
            &&& press.key == Key::Enter ==> after == app
        }),
{
}

} // verus!
