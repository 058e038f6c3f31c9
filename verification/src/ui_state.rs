// Navigation state of the watch UI: pages, dialogs and the history stack.
use vstd::prelude::*;

verus! {

/// Current UI state: the page on screen and an optional dialog drawn over it.
#[derive(Copy, Clone, Debug, PartialEq, Eq, Structural)]
pub struct UiState {
    pub page: Page,
    pub dialog: Option<Dialog>,
}

#[derive(Copy, Clone, Debug, PartialEq, Eq, Structural)]
pub enum Page {
    Main(MainMenuState),
    Watch(WatchAppState),
    Settings(SettingsMenuState),
    Omnitrix(OmnitrixState),
    EasterEgg,
}

/// Dialogs that can overlay on top of pages.
#[derive(Copy, Clone, Debug, PartialEq, Eq, Structural)]
pub enum Dialog {
    TransformPage,
}

/// States for the main menu.
#[derive(Copy, Clone, Debug, PartialEq, Eq, Structural)]
pub enum MainMenuState {
    Home,
    WatchApp,
    SettingsApp,
}

/// States for the watch app.
#[derive(Copy, Clone, Debug, PartialEq, Eq, Structural)]
pub enum WatchAppState {
    Analog,
    Digital,
}

/// States for the settings menu.
#[derive(Copy, Clone, Debug, PartialEq, Eq, Structural)]
pub enum SettingsMenuState {
    BrightnessPrompt,
    BrightnessAdjust,
    EasterEgg,
}

/// States for the Omnitrix menu.
#[derive(Copy, Clone, Debug, PartialEq, Eq, Structural)]
pub enum OmnitrixState {
    Alien1,
    Alien2,
    Alien3,
    Alien4,
    Alien5,
    Alien6,
    Alien7,
    Alien8,
    Alien9,
    Alien10,
}

/// Kind of page, used to detect page changes between frames.
#[derive(Copy, Clone, Debug, PartialEq, Eq, Structural)]
pub enum PageKind {
    Main,
    Settings,
    Omnitrix,
    EasterEgg,
    Watch,
}

/// Navigation history: a stack of the pages that were left by `select`.
pub struct NavHistory {
    stack: Vec<Page>,
}

impl View for NavHistory {
    type V = Seq<Page>;

    closed spec fn view(&self) -> Seq<Page> {
        self.stack@
    }
}

/// Position of an alien in the Omnitrix carousel (0 for Alien1 .. 9 for Alien10).
pub open spec fn alien_index(s: OmnitrixState) -> int {
    match s {
        OmnitrixState::Alien1 => 0,
        OmnitrixState::Alien2 => 1,
        OmnitrixState::Alien3 => 2,
        OmnitrixState::Alien4 => 3,
        OmnitrixState::Alien5 => 4,
        OmnitrixState::Alien6 => 5,
        OmnitrixState::Alien7 => 6,
        OmnitrixState::Alien8 => 7,
        OmnitrixState::Alien9 => 8,
        OmnitrixState::Alien10 => 9,
    }
}

/// Position of an entry in the main menu carousel.
pub open spec fn main_index(s: MainMenuState) -> int {
    match s {
        MainMenuState::Home => 0,
        MainMenuState::WatchApp => 1,
        MainMenuState::SettingsApp => 2,
    }
}

/// The page that one step forward (rotary clockwise) shows, within the same layer.
pub open spec fn next_page(p: Page) -> Page {
    match p {
        Page::Main(s) => Page::Main(
            match s {
                MainMenuState::Home => MainMenuState::WatchApp,
                MainMenuState::WatchApp => MainMenuState::SettingsApp,
                MainMenuState::SettingsApp => MainMenuState::Home,
            },
        ),
        Page::Watch(s) => Page::Watch(
            match s {
                WatchAppState::Analog => WatchAppState::Digital,
                WatchAppState::Digital => WatchAppState::Analog,
            },
        ),
        Page::Settings(s) => Page::Settings(
            match s {
                SettingsMenuState::BrightnessPrompt => SettingsMenuState::EasterEgg,
                SettingsMenuState::EasterEgg => SettingsMenuState::BrightnessPrompt,
                SettingsMenuState::BrightnessAdjust => SettingsMenuState::BrightnessAdjust,
            },
        ),
        Page::Omnitrix(s) => Page::Omnitrix(
            match s {
                OmnitrixState::Alien1 => OmnitrixState::Alien2,
                OmnitrixState::Alien2 => OmnitrixState::Alien3,
                OmnitrixState::Alien3 => OmnitrixState::Alien4,
                OmnitrixState::Alien4 => OmnitrixState::Alien5,
                OmnitrixState::Alien5 => OmnitrixState::Alien6,
                OmnitrixState::Alien6 => OmnitrixState::Alien7,
                OmnitrixState::Alien7 => OmnitrixState::Alien8,
                OmnitrixState::Alien8 => OmnitrixState::Alien9,
                OmnitrixState::Alien9 => OmnitrixState::Alien10,
                OmnitrixState::Alien10 => OmnitrixState::Alien1,
            },
        ),
        Page::EasterEgg => Page::EasterEgg,
    }
}

/// The page that one step backward (rotary counter-clockwise) shows, within the same layer.
pub open spec fn prev_page(p: Page) -> Page {
    match p {
        Page::Main(s) => Page::Main(
            match s {
                MainMenuState::Home => MainMenuState::SettingsApp,
                MainMenuState::WatchApp => MainMenuState::Home,
                MainMenuState::SettingsApp => MainMenuState::WatchApp,
            },
        ),
        Page::Watch(s) => Page::Watch(
            match s {
                WatchAppState::Analog => WatchAppState::Digital,
                WatchAppState::Digital => WatchAppState::Analog,
            },
        ),
        Page::Settings(s) => Page::Settings(
            match s {
                SettingsMenuState::BrightnessPrompt => SettingsMenuState::EasterEgg,
                SettingsMenuState::EasterEgg => SettingsMenuState::BrightnessPrompt,
                SettingsMenuState::BrightnessAdjust => SettingsMenuState::BrightnessAdjust,
            },
        ),
        Page::Omnitrix(s) => Page::Omnitrix(
            match s {
                OmnitrixState::Alien1 => OmnitrixState::Alien10,
                OmnitrixState::Alien2 => OmnitrixState::Alien1,
                OmnitrixState::Alien3 => OmnitrixState::Alien2,
                OmnitrixState::Alien4 => OmnitrixState::Alien3,
                OmnitrixState::Alien5 => OmnitrixState::Alien4,
                OmnitrixState::Alien6 => OmnitrixState::Alien5,
                OmnitrixState::Alien7 => OmnitrixState::Alien6,
                OmnitrixState::Alien8 => OmnitrixState::Alien7,
                OmnitrixState::Alien9 => OmnitrixState::Alien8,
                OmnitrixState::Alien10 => OmnitrixState::Alien9,
            },
        ),
        Page::EasterEgg => Page::EasterEgg,
    }
}

/// Rotary clockwise: with a dialog open nothing changes, otherwise the next item is shown.
pub open spec fn next_item_spec(s: UiState) -> UiState {
    if s.dialog is Some {
        s
    } else {
        UiState { page: next_page(s.page), dialog: None }
    }
}

/// Rotary counter-clockwise: with a dialog open nothing changes, otherwise the previous item.
pub open spec fn prev_item_spec(s: UiState) -> UiState {
    if s.dialog is Some {
        s
    } else {
        UiState { page: prev_page(s.page), dialog: None }
    }
}

/// The history after a pop: the last entry removed, if there is one.
pub open spec fn nav_popped(nav: Seq<Page>) -> Seq<Page> {
    if nav.len() > 0 {
        nav.drop_last()
    } else {
        nav
    }
}

/// Button 1 ("back"): the new state and the new history.
pub open spec fn back_spec(s: UiState, nav: Seq<Page>) -> (UiState, Seq<Page>) {
    if s.dialog is Some {
        (UiState { page: s.page, dialog: None }, nav)
    } else if s.page == Page::Settings(SettingsMenuState::BrightnessAdjust) {
        (UiState { page: Page::Settings(SettingsMenuState::BrightnessPrompt), dialog: None }, nav_popped(nav))
    } else if s.page == Page::EasterEgg {
        (UiState { page: Page::Settings(SettingsMenuState::EasterEgg), dialog: None }, nav_popped(nav))
    } else if nav.len() > 0 {
        (UiState { page: nav.last(), dialog: None }, nav.drop_last())
    } else {
        (UiState { page: Page::Main(MainMenuState::Home), dialog: None }, nav)
    }
}

/// Button 2 ("select"): the new state and the new history.
pub open spec fn select_spec(s: UiState, nav: Seq<Page>) -> (UiState, Seq<Page>) {
    if s.dialog is Some {
        (UiState { page: s.page, dialog: None }, nav)
    } else {
        match s.page {
            Page::Main(m) => (
                UiState {
                    page: match m {
                        MainMenuState::Home => Page::Omnitrix(OmnitrixState::Alien1),
                        MainMenuState::WatchApp => Page::Watch(WatchAppState::Analog),
                        MainMenuState::SettingsApp => Page::Settings(
                            SettingsMenuState::BrightnessPrompt,
                        ),
                    },
                    dialog: None,
                },
                nav.push(s.page),
            ),
            Page::Settings(SettingsMenuState::BrightnessPrompt) => (
                UiState { page: Page::Settings(SettingsMenuState::BrightnessAdjust), dialog: None },
                nav.push(s.page),
            ),
            Page::Settings(SettingsMenuState::EasterEgg) => (
                UiState { page: Page::EasterEgg, dialog: None },
                nav.push(s.page),
            ),
            _ => (UiState { page: s.page, dialog: None }, nav),
        }
    }
}

/// Button 3 ("transform"): opens the transform dialog on an Omnitrix page without a dialog.
pub open spec fn transform_spec(s: UiState) -> UiState {
    if s.page is Omnitrix && s.dialog is None {
        UiState { page: s.page, dialog: Some(Dialog::TransformPage) }
    } else {
        s
    }
}

/// The kind of a page.
pub open spec fn page_kind_spec(p: Page) -> PageKind {
    match p {
        Page::Main(_) => PageKind::Main,
        Page::Settings(_) => PageKind::Settings,
        Page::Omnitrix(_) => PageKind::Omnitrix,
        Page::EasterEgg => PageKind::EasterEgg,
        Page::Watch(_) => PageKind::Watch,
    }
}

impl NavHistory {
    /// An empty history.
    pub fn new() -> (r: Self)
        ensures
            r@ == Seq::<Page>::empty(),
    {
        NavHistory { stack: Vec::new() }
    }

    /// Number of pages in the history.
    pub fn len(&self) -> (r: usize)
        ensures
            r == self@.len(),
    {
        self.stack.len()
    }

    /// Push a page onto the history.
    pub fn nav_push(&mut self, p: Page)
        ensures
            final(self)@ == old(self)@.push(p),
    {
        self.stack.push(p);
    }

    /// Pop the most recent page, if any.
    pub fn nav_pop(&mut self) -> (r: Option<Page>)
        ensures
            final(self)@ == nav_popped(old(self)@),
            old(self)@.len() > 0 ==> r == Some(old(self)@.last()),
            old(self)@.len() == 0 ==> r is None,
    {
        self.stack.pop()
    }
}

/// Forget the whole navigation history.
pub fn clear_nav(nav: &mut NavHistory)
    ensures
        final(nav)@ == Seq::<Page>::empty(),
{
    nav.stack.clear();
}

/// The kind of a page.
pub fn page_kind(p: Page) -> (r: PageKind)
    ensures
        r == page_kind_spec(p),
{
    match p {
        Page::Main(_) => PageKind::Main,
        Page::Settings(_) => PageKind::Settings,
        Page::Omnitrix(_) => PageKind::Omnitrix,
        Page::EasterEgg => PageKind::EasterEgg,
        Page::Watch(_) => PageKind::Watch,
    }
}

impl UiState {
    /// Move to the next item/state in the current layer (rotary clockwise).
    pub fn next_item(self) -> (r: Self)
        ensures
            r == next_item_spec(self),
    {
        if self.dialog.is_some() {
            return self;
        }
        let next_page = match self.page {
            Page::Main(state) => {
                let next = match state {
                    MainMenuState::Home => MainMenuState::WatchApp,
                    MainMenuState::WatchApp => MainMenuState::SettingsApp,
                    MainMenuState::SettingsApp => MainMenuState::Home,
                };
                Page::Main(next)
            },
            Page::Watch(state) => {
                let next = match state {
                    WatchAppState::Analog => WatchAppState::Digital,
                    WatchAppState::Digital => WatchAppState::Analog,
                };
                Page::Watch(next)
            },
            Page::Settings(state) => {
                let next = match state {
                    SettingsMenuState::BrightnessPrompt => SettingsMenuState::EasterEgg,
                    SettingsMenuState::EasterEgg => SettingsMenuState::BrightnessPrompt,
                    SettingsMenuState::BrightnessAdjust => SettingsMenuState::BrightnessAdjust,
                };
                Page::Settings(next)
            },
            Page::Omnitrix(state) => {
                let next = match state {
                    OmnitrixState::Alien1 => OmnitrixState::Alien2,
                    OmnitrixState::Alien2 => OmnitrixState::Alien3,
                    OmnitrixState::Alien3 => OmnitrixState::Alien4,
                    OmnitrixState::Alien4 => OmnitrixState::Alien5,
                    OmnitrixState::Alien5 => OmnitrixState::Alien6,
                    OmnitrixState::Alien6 => OmnitrixState::Alien7,
                    OmnitrixState::Alien7 => OmnitrixState::Alien8,
                    OmnitrixState::Alien8 => OmnitrixState::Alien9,
                    OmnitrixState::Alien9 => OmnitrixState::Alien10,
                    OmnitrixState::Alien10 => OmnitrixState::Alien1,
                };
                Page::Omnitrix(next)
            },
            Page::EasterEgg => Page::EasterEgg,
        };
        Self { page: next_page, dialog: None }
    }

    /// Move to the previous item/state (rotary counter-clockwise).
    pub fn prev_item(self) -> (r: Self)
        ensures
            r == prev_item_spec(self),
    {
        if self.dialog.is_some() {
            return self;
        }
        let prev_page = match self.page {
            Page::Main(state) => {
                let prev = match state {
                    MainMenuState::Home => MainMenuState::SettingsApp,
                    MainMenuState::WatchApp => MainMenuState::Home,
                    MainMenuState::SettingsApp => MainMenuState::WatchApp,
                };
                Page::Main(prev)
            },
            Page::Watch(state) => {
                let prev = match state {
                    WatchAppState::Analog => WatchAppState::Digital,
                    WatchAppState::Digital => WatchAppState::Analog,
                };
                Page::Watch(prev)
            },
            Page::Settings(state) => {
                let prev = match state {
                    SettingsMenuState::BrightnessPrompt => SettingsMenuState::EasterEgg,
                    SettingsMenuState::EasterEgg => SettingsMenuState::BrightnessPrompt,
                    SettingsMenuState::BrightnessAdjust => SettingsMenuState::BrightnessAdjust,
                };
                Page::Settings(prev)
            },
            Page::Omnitrix(state) => {
                let prev = match state {
                    OmnitrixState::Alien1 => OmnitrixState::Alien10,
                    OmnitrixState::Alien2 => OmnitrixState::Alien1,
                    OmnitrixState::Alien3 => OmnitrixState::Alien2,
                    OmnitrixState::Alien4 => OmnitrixState::Alien3,
                    OmnitrixState::Alien5 => OmnitrixState::Alien4,
                    OmnitrixState::Alien6 => OmnitrixState::Alien5,
                    OmnitrixState::Alien7 => OmnitrixState::Alien6,
                    OmnitrixState::Alien8 => OmnitrixState::Alien7,
                    OmnitrixState::Alien9 => OmnitrixState::Alien8,
                    OmnitrixState::Alien10 => OmnitrixState::Alien9,
                };
                Page::Omnitrix(prev)
            },
            Page::EasterEgg => Page::EasterEgg,
        };
        Self { page: prev_page, dialog: None }
    }

    /// Go back (Button 1), using and updating the navigation history.
    pub fn back(self, nav: &mut NavHistory) -> (r: Self)
        ensures
            (r, final(nav)@) == back_spec(self, old(nav)@),
    {
        if self.dialog.is_some() {
            return Self { page: self.page, dialog: None };
        }
        // In the brightness adjust view, return to the prompt (also pop the history once).
        if matches!(self.page, Page::Settings(SettingsMenuState::BrightnessAdjust)) {
            let _ = nav.nav_pop();
            return Self { page: Page::Settings(SettingsMenuState::BrightnessPrompt), dialog: None };
        }
        if matches!(self.page, Page::EasterEgg) {
            // drop the settings -> easter egg push
            let _ = nav.nav_pop();
            return Self { page: Page::Settings(SettingsMenuState::EasterEgg), dialog: None };
        }
        // Otherwise, try the navigation history first.
        if let Some(prev) = nav.nav_pop() {
            return Self { page: prev, dialog: None };
        }
        // Fallback if there is no history.
        Self { page: Page::Main(MainMenuState::Home), dialog: None }
    }

    /// Select/enter (Button 2), recording the page that is left in the history.
    pub fn select(self, nav: &mut NavHistory) -> (r: Self)
        ensures
            (r, final(nav)@) == select_spec(self, old(nav)@),
    {
        if self.dialog.is_some() {
            return Self { page: self.page, dialog: None };
        }
        match self.page {
            Page::Main(state) => {
                nav.nav_push(Page::Main(state));
                let page = match state {
                    MainMenuState::Home => Page::Omnitrix(OmnitrixState::Alien1),
                    MainMenuState::WatchApp => Page::Watch(WatchAppState::Analog),
                    MainMenuState::SettingsApp => Page::Settings(
                        SettingsMenuState::BrightnessPrompt,
                    ),
                };
                Self { page, dialog: None }
            },
            Page::Watch(_) => Self { page: self.page, dialog: None },
            Page::Settings(s) => {
                let page = match s {
                    SettingsMenuState::BrightnessPrompt => {
                        nav.nav_push(Page::Settings(s));
                        Page::Settings(SettingsMenuState::BrightnessAdjust)
                    },
                    SettingsMenuState::EasterEgg => {
                        nav.nav_push(Page::Settings(s));
                        Page::EasterEgg
                    },
                    _ => self.page,
                };
                Self { page, dialog: None }
            },
            Page::Omnitrix(_) => Self { page: self.page, dialog: None },
            Page::EasterEgg => Self { page: self.page, dialog: None },
        }
    }

    /// Omnitrix transform (Button 3): opens the transform dialog on Omnitrix pages.
    pub fn transform(self) -> (r: Self)
        ensures
            r == transform_spec(self),
    {
        if matches!(self.page, Page::Omnitrix(_)) && self.dialog.is_none() {
            Self { page: self.page, dialog: Some(Dialog::TransformPage) }
        } else {
            self
        }
    }
}

/// Turning the rotary one step forward and then one step back (or the other way
/// round) returns to the same state; every step stays in the same layer of pages, and
/// with a dialog open turning does nothing.
pub proof fn lemma_next_prev_inverse(s: UiState)
    ensures
        prev_item_spec(next_item_spec(s)) == s,
        next_item_spec(prev_item_spec(s)) == s,
        s.dialog is Some ==> next_item_spec(s) == s && prev_item_spec(s) == s,
        page_kind_spec(next_item_spec(s).page) == page_kind_spec(s.page),
        page_kind_spec(prev_item_spec(s).page) == page_kind_spec(s.page),
{
}

/// Ten steps forward through the Omnitrix carousel come back to the same alien,
/// and each step moves to the following alien (cyclically).
pub proof fn lemma_omnitrix_carousel(s: OmnitrixState)
    ensures
        next_page(Page::Omnitrix(s)) matches Page::Omnitrix(t) && alien_index(t) == (alien_index(s) + 1) % 10,
        prev_page(Page::Omnitrix(s)) matches Page::Omnitrix(t) && alien_index(t) == (alien_index(s) + 9) % 10,
{
}

/// Opening the transform dialog and pressing back returns to the same state and
/// leaves the history untouched.
pub proof fn lemma_transform_then_back(s: UiState, nav: Seq<Page>)
    requires
        s.page is Omnitrix,
        s.dialog is None,
    ensures
        transform_spec(s).dialog == Some(Dialog::TransformPage),
        back_spec(transform_spec(s), nav) == (s, nav),
{
}

/// Whenever select enters a new page, back returns to the page that was left
/// and restores the navigation history.
pub proof fn lemma_select_then_back(s: UiState, nav: Seq<Page>)
    requires
        s.dialog is None,
        select_spec(s, nav).0.page != s.page,
    ensures
        back_spec(select_spec(s, nav).0, select_spec(s, nav).1) == (s, nav),
{
    let (s1, nav1) = select_spec(s, nav);
    assert(nav1.drop_last() =~= nav);
}

/// Back and select always close a dialog; transform opens one exactly on Omnitrix pages.
pub proof fn lemma_dialog_rules(s: UiState, nav: Seq<Page>)
    ensures
        back_spec(s, nav).0.dialog is None,
        select_spec(s, nav).0.dialog is None,
        (transform_spec(s).dialog is Some) <==> (s.page is Omnitrix || s.dialog is Some),
{
}

/// Selecting an entry of the main menu opens what the entry names, at its first page:
/// Home the Omnitrix (first alien), the watch app its analog face, the settings app the
/// brightness prompt; the menu page is remembered in the history.
pub proof fn lemma_select_opens_entry(m: MainMenuState, nav: Seq<Page>)
    ensures
        ({
            let (s1, nav1) = select_spec(UiState { page: Page::Main(m), dialog: None }, nav);
            &&& nav1 == nav.push(Page::Main(m))
            &&& s1.dialog is None
            &&& m == MainMenuState::Home ==> s1.page == Page::Omnitrix(OmnitrixState::Alien1)
            &&& m == MainMenuState::WatchApp ==> s1.page == Page::Watch(WatchAppState::Analog)
            &&& m == MainMenuState::SettingsApp ==> s1.page == Page::Settings(SettingsMenuState::BrightnessPrompt)
            &&& page_kind_spec(s1.page) == match m {
                MainMenuState::Home => PageKind::Omnitrix,
                MainMenuState::WatchApp => PageKind::Watch,
                MainMenuState::SettingsApp => PageKind::Settings,
            }
        }),
{
}

/// Inside an app, select goes one level deeper where there is one: the brightness
/// prompt opens the brightness adjuster and the settings' hidden entry opens the easter
/// egg, each remembering the page left; on every other page without a dialog select
/// changes nothing.
pub proof fn lemma_select_inside_apps(s: UiState, nav: Seq<Page>)
    requires
        s.dialog is None,
        !(s.page is Main),
    ensures
        s.page == Page::Settings(SettingsMenuState::BrightnessPrompt) ==> select_spec(s, nav) == (
            UiState { page: Page::Settings(SettingsMenuState::BrightnessAdjust), dialog: None },
            nav.push(s.page),
        ),
        s.page == Page::Settings(SettingsMenuState::EasterEgg) ==> select_spec(s, nav) == (
            UiState { page: Page::EasterEgg, dialog: None },
            nav.push(s.page),
        ),
        s.page != Page::Settings(SettingsMenuState::BrightnessPrompt) && s.page != Page::Settings(
            SettingsMenuState::EasterEgg,
        ) ==> select_spec(s, nav) == (s, nav),
{
}

/// The rotary walks each menu in a circle: the main menu Home, watch app, settings app
/// and back to Home; the watch faces analog and digital in turn; the settings between the
/// brightness prompt and the hidden entry. The brightness adjuster and the easter egg do
/// not move.
pub proof fn lemma_menu_carousels(m: MainMenuState)
    ensures
        next_page(Page::Main(m)) matches Page::Main(t) && main_index(t) == (main_index(m) + 1) % 3,
        prev_page(Page::Main(m)) matches Page::Main(t) && main_index(t) == (main_index(m) + 2) % 3,
        main_index(MainMenuState::Home) == 0,
        main_index(MainMenuState::WatchApp) == 1,
        main_index(MainMenuState::SettingsApp) == 2,
        next_page(Page::Watch(WatchAppState::Analog)) == Page::Watch(WatchAppState::Digital),
        next_page(Page::Watch(WatchAppState::Digital)) == Page::Watch(WatchAppState::Analog),
        next_page(Page::Settings(SettingsMenuState::BrightnessPrompt)) == Page::Settings(SettingsMenuState::EasterEgg),
        next_page(Page::Settings(SettingsMenuState::EasterEgg)) == Page::Settings(SettingsMenuState::BrightnessPrompt),
        next_page(Page::Settings(SettingsMenuState::BrightnessAdjust)) == Page::Settings(SettingsMenuState::BrightnessAdjust),
        next_page(Page::EasterEgg) == Page::EasterEgg,
{
}

} // verus!
