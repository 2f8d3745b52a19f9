//! Keys while browsing, and the palette.
use vstd::prelude::*;

use crate::app::appearance::{last_row, row_down, row_up};
use crate::app::feeds::{last_of, scroll_down, scroll_up};
use crate::app::matching::{fuzzy, fuzzy_match};
use crate::app::state::{App, Focus, Mode, SpecApp};
use crate::input::{KeyCode, KeyEvent, KeyModifiers};
use crate::model::documents_view;
use crate::text::{chars_of, join2, owned, slice_of, trim, trimmed};
use crate::worker::{SpecCommand, ToWorker};

verus! {

// --- Actions ----------------------------------------------------------------------

/// The palette's actions, which also have keys of their own.
#[derive(Clone, Copy, PartialEq, Eq, Structural, Debug)]
pub enum Action {
    AddFeed,
    Search,
    Refresh,
    MarkRead,
    Theme,
    Layout,
    SignIn,
    SignOut,
    Help,
    Quit,
}

impl Action {
    pub const ALL: [Action; 10] = [
        Action::AddFeed,
        Action::Search,
        Action::Refresh,
        Action::MarkRead,
        Action::Theme,
        Action::Layout,
        Action::SignIn,
        Action::SignOut,
        Action::Help,
        Action::Quit,
    ];

    /// What the palette calls an action.
    pub open spec fn name(self) -> Seq<char> {
        match self {
            Action::AddFeed => "Add feed"@,
            Action::Search => "Search"@,
            Action::Refresh => "Refresh feed"@,
            Action::MarkRead => "Mark read"@,
            Action::Theme => "Theme…"@,
            Action::Layout => "Layout…"@,
            Action::SignIn => "Log in"@,
            Action::SignOut => "Log out"@,
            Action::Help => "Help"@,
            Action::Quit => "Quit"@,
        }
    }

    pub fn label(self) -> (r: &'static str)
        ensures
            r@ == self.name(),
    {
        match self {
            Action::AddFeed => "Add feed",
            Action::Search => "Search",
            Action::Refresh => "Refresh feed",
            Action::MarkRead => "Mark read",
            Action::Theme => "Theme…",
            Action::Layout => "Layout…",
            Action::SignIn => "Log in",
            Action::SignOut => "Log out",
            Action::Help => "Help",
            Action::Quit => "Quit",
        }
    }
}

impl SpecApp {
    /// The palette offers an action: signing in or out as the account stands, and what
    /// the typed text filters.
    pub open spec fn offers(self, a: Action) -> bool {
        &&& !(a == Action::SignIn && self.account is Some)
        &&& !(a == Action::SignOut && self.account is None)
        &&& fuzzy_match(self.input, a.name())
    }

    /// The first `n` actions that the palette offers among all.
    pub open spec fn offered(self, n: int) -> Seq<Action>
        decreases n,
    {
        if n <= 0 {
            Seq::empty()
        } else if self.offers(Action::ALL@[n - 1]) {
            self.offered(n - 1).push(Action::ALL@[n - 1])
        } else {
            self.offered(n - 1)
        }
    }

    /// The program is to end.
    #[verifier::opaque]
    pub open spec fn quitting(self) -> SpecApp {
        SpecApp { should_quit: true, commands: self.commands.push(SpecCommand::Quit), ..self }
    }

    /// An action runs.
    #[verifier::opaque]
    pub open spec fn running(self, action: Action) -> SpecApp {
        match action {
            Action::AddFeed => self.prompting(Mode::AddFeed),
            Action::Search => self.prompting(Mode::Search),
            Action::Refresh => self.feed_refreshed(),
            Action::MarkRead => self.marked_read(),
            Action::Theme => self.untargeted().picking_theme(),
            Action::Layout => self.untargeted().picking_layout(),
            Action::SignIn => self.prompting(Mode::SignIn),
            Action::SignOut => self.signing_out(),
            Action::Help => self.entering(Mode::Help),
            Action::Quit => self.quitting(),
        }
    }

    /// The palette opens with nothing typed.
    #[verifier::opaque]
    pub open spec fn palette_opened(self) -> SpecApp {
        SpecApp { mode: Mode::Palette, input: Seq::empty(), palette_sel: 0, ..self }
    }
}

impl App {
    /// The actions that the palette offers, in order.
    pub fn palette_matches(&self) -> (r: Vec<Action>)
        ensures
            r@ == self@.offered(10),
    {
        let signed_in = self.account.is_some();
        let all = Action::ALL;
        let mut out: Vec<Action> = Vec::new();
        let mut i: usize = 0;
        while i < 10
            invariant
                i <= 10,
                all@ == Action::ALL@,
                signed_in == (self@.account is Some),
                out@ == self@.offered(i as int),
            decreases 10 - i,
        {
            let a = all[i];
            if !(a == Action::SignIn && signed_in) && !(a == Action::SignOut && !signed_in)
                && fuzzy(self.input.as_str(), a.label()) {
                out.push(a);
            }
            i = i + 1;
        }
        out
    }

    fn quit(&mut self)
        ensures
            final(self)@ == old(self)@.quitting(),
            old(self)@.wf() ==> final(self)@.wf(),
    {
        proof {
            reveal(SpecApp::quitting);
        }
        self.should_quit = true;
        self.send(ToWorker::Quit);
    }

    fn run(&mut self, action: Action)
        ensures
            final(self)@ == old(self)@.running(action),
            old(self)@.wf() ==> final(self)@.wf(),
    {
        proof {
            reveal(SpecApp::running);
        }
        match action {
            Action::AddFeed => self.enter_input(Mode::AddFeed),
            Action::Search => self.enter_input(Mode::Search),
            Action::Refresh => self.refresh_current_feed(),
            Action::MarkRead => self.mark_read(),
            Action::Theme => self.open_theme_picker(),
            Action::Layout => self.open_layout_picker(),
            Action::SignIn => self.enter_input(Mode::SignIn),
            Action::SignOut => self.sign_out(),
            Action::Help => self.enter(Mode::Help),
            Action::Quit => self.quit(),
        }
    }

    fn enter_palette(&mut self)
        ensures
            final(self)@ == old(self)@.palette_opened(),
            old(self)@.wf() ==> final(self)@.wf(),
    {
        proof {
            reveal(SpecApp::palette_opened);
        }
        self.mode = Mode::Palette;
        self.input = String::new();
        self.palette_sel = 0;
    }
}

// --- Browsing ---------------------------------------------------------------------

impl SpecApp {
    /// A key while browsing.
    #[verifier::opaque]
    pub open spec fn browse_key(self, key: KeyEvent) -> SpecApp {
        match key.code {
            KeyCode::Char('q') => self.quitting(),
            KeyCode::Char('a') => self.prompting(Mode::AddFeed),
            KeyCode::Char('/') => self.prompting(Mode::Search),
            KeyCode::Char(':') => self.palette_opened(),
            KeyCode::Char('p') => if key.modifiers.includes(KeyModifiers::CONTROL) {
                self.palette_opened()
            } else {
                self
            },
            KeyCode::Char('?') => self.entering(Mode::Help),
            KeyCode::Char('r') => self.feed_refreshed(),
            KeyCode::Char('d') => self.feed_unfollowed(),
            KeyCode::Char('m') => self.marked_read(),
            KeyCode::Char('o') => self.post_browsed(),
            KeyCode::Char('i') => self.images_toggled(),
            KeyCode::Char('t') => self.untargeted().picking_theme(),
            KeyCode::Char('b') => self.blog_menu_opened(),
            KeyCode::Char('\\') => self.layout_cycled(),
            KeyCode::Char('<') => self.pane_adjusted(-2),
            KeyCode::Char('>') => self.pane_adjusted(2),
            KeyCode::Char('L') => self.account_toggled(),
            KeyCode::Tab => self.focused(self.next_focus()),
            KeyCode::Esc => self.focused(self.previous_focus()),
            KeyCode::Char('n') => self.link_stepped(1),
            KeyCode::Char('N') => self.link_stepped(-1),
            KeyCode::Enter => match self.focus {
                Focus::Sidebar => self.feed_opened(),
                Focus::Posts => self.doc_opened(),
                Focus::Reader => self.focused_link_opened(),
            },
            KeyCode::Down => self.moved_down(),
            KeyCode::Char('j') => self.moved_down(),
            KeyCode::Up => self.moved_up(),
            KeyCode::Char('k') => self.moved_up(),
            KeyCode::Char('g') => self.at_top(),
            KeyCode::Char('G') => self.at_bottom(),
            KeyCode::PageDown => self.scrolled(scroll_down(self.scroll, 10)),
            KeyCode::PageUp => self.scrolled(scroll_up(self.scroll, 10)),
            _ => self,
        }
    }

    /// Back to the feeds, in the global appearance.
    #[verifier::opaque]
    pub open spec fn home(self) -> SpecApp {
        SpecApp { mode: Mode::Browse, focus: Focus::Sidebar, open_pub: None, ..self }
    }

    /// A key in the post list that stands in place of the sidebar.
    #[verifier::opaque]
    pub open spec fn doclist_key(self, key: KeyEvent) -> SpecApp {
        match key.code {
            KeyCode::Esc => self.home(),
            KeyCode::Char('q') => self.quitting(),
            KeyCode::Enter => self.doc_opened(),
            KeyCode::Down => self.post_down(),
            KeyCode::Char('j') => self.post_down(),
            KeyCode::Up => self.post_at(row_up(self.doc_sel)),
            KeyCode::Char('k') => self.post_at(row_up(self.doc_sel)),
            KeyCode::Char('g') => self.post_at(0),
            KeyCode::Char('G') => self.post_at(last_row(self.docs.len()) as usize),
            KeyCode::Char('/') => self.prompting(Mode::Search),
            KeyCode::Char('o') => self.post_browsed(),
            KeyCode::Char('i') => self.images_toggled(),
            KeyCode::Char('b') => self.blog_menu_opened(),
            KeyCode::Char('?') => self.entering(Mode::Help),
            _ => self,
        }
    }
}

impl App {
    pub(crate) fn browse_key(&mut self, key: KeyEvent)
        requires
            old(self)@.wf(),
        ensures
            final(self)@ == old(self)@.browse_key(key),
            final(self)@.wf(),
    {
        proof {
            reveal(SpecApp::browse_key);
        }
        match key.code {
            KeyCode::Char('q') => self.quit(),
            KeyCode::Char('a') => self.enter_input(Mode::AddFeed),
            KeyCode::Char('/') => self.enter_input(Mode::Search),
            KeyCode::Char(':') => self.enter_palette(),
            KeyCode::Char('p') => if key.modifiers.contains(KeyModifiers::CONTROL) {
                self.enter_palette();
            },
            KeyCode::Char('?') => self.enter(Mode::Help),
            KeyCode::Char('r') => self.refresh_current_feed(),
            KeyCode::Char('d') => self.unfollow_current_feed(),
            KeyCode::Char('m') => self.mark_read(),
            KeyCode::Char('o') => self.open_in_browser(),
            KeyCode::Char('i') => self.toggle_images(),
            KeyCode::Char('t') => self.open_theme_picker(),
            KeyCode::Char('b') => self.open_blog_menu(),
            KeyCode::Char('\\') => self.cycle_layout(),
            KeyCode::Char('<') => self.adjust_pane(-2),
            KeyCode::Char('>') => self.adjust_pane(2),
            KeyCode::Char('L') => self.toggle_account(),
            KeyCode::Tab => self.cycle_focus(),
            KeyCode::Esc => self.escape_focus(),
            KeyCode::Char('n') => self.focus_link(1),
            KeyCode::Char('N') => self.focus_link(-1),
            KeyCode::Enter => match self.focus {
                Focus::Sidebar => self.open_feed(),
                Focus::Posts => self.open_doc(),
                Focus::Reader => self.open_focused_link(),
            },
            KeyCode::Down => self.move_down(),
            KeyCode::Char('j') => self.move_down(),
            KeyCode::Up => self.move_up(),
            KeyCode::Char('k') => self.move_up(),
            KeyCode::Char('g') => self.go_top(),
            KeyCode::Char('G') => self.go_bottom(),
            KeyCode::PageDown => self.scroll_to(self.scroll.saturating_add(10)),
            KeyCode::PageUp => self.scroll_to(self.scroll.saturating_sub(10)),
            _ => {},
        }
    }

    fn go_home(&mut self)
        ensures
            final(self)@ == old(self)@.home(),
            old(self)@.wf() ==> final(self)@.wf(),
    {
        proof {
            reveal(SpecApp::home);
        }
        self.mode = Mode::Browse;
        self.focus = Focus::Sidebar;
        self.open_pub = None;
    }

    pub(crate) fn doclist_key(&mut self, key: KeyEvent)
        ensures
            final(self)@ == old(self)@.doclist_key(key),
            old(self)@.wf() ==> final(self)@.wf(),
    {
        proof {
            reveal(SpecApp::doclist_key);
        }
        assert(documents_view(self.docs@).len() == self.docs@.len());
        match key.code {
            KeyCode::Esc => self.go_home(),
            KeyCode::Char('q') => self.quit(),
            KeyCode::Enter => self.open_doc(),
            KeyCode::Down => self.posts_down(),
            KeyCode::Char('j') => self.posts_down(),
            KeyCode::Up => self.select_post(crate::app::appearance::up(self.doc_sel)),
            KeyCode::Char('k') => self.select_post(crate::app::appearance::up(self.doc_sel)),
            KeyCode::Char('g') => self.select_post(0),
            KeyCode::Char('G') => self.select_post(last_of(self.docs.len())),
            KeyCode::Char('/') => self.enter_input(Mode::Search),
            KeyCode::Char('o') => self.open_in_browser(),
            KeyCode::Char('i') => self.toggle_images(),
            KeyCode::Char('b') => self.open_blog_menu(),
            KeyCode::Char('?') => self.enter(Mode::Help),
            _ => {},
        }
    }
}

// --- Prompts ----------------------------------------------------------------------

/// A text without its last character.
pub open spec fn shortened(s: Seq<char>) -> Seq<char> {
    if s.len() > 0 {
        s.drop_last()
    } else {
        s
    }
}

fn without_last(s: &str) -> (r: String)
    ensures
        r@ == shortened(s@),
{
    let v = chars_of(s);
    if v.len() > 0 {
        slice_of(&v, 0, v.len() - 1)
    } else {
        owned(s)
    }
}

impl SpecApp {
    /// Something else is typed.
    #[verifier::opaque]
    pub open spec fn typed(self, input: Seq<char>) -> SpecApp {
        SpecApp { input, ..self }
    }

    /// Something else is typed in the palette: its selection starts over.
    #[verifier::opaque]
    pub open spec fn palette_typed(self, input: Seq<char>) -> SpecApp {
        SpecApp { input, palette_sel: 0, ..self }
    }

    /// An action of the palette is selected.
    #[verifier::opaque]
    pub open spec fn palette_at(self, row: usize) -> SpecApp {
        SpecApp { palette_sel: row, ..self }
    }

    /// A blog is to be added.
    #[verifier::opaque]
    pub open spec fn adding_feed(self, value: Seq<char>) -> SpecApp {
        SpecApp {
            status: "adding "@ + value + "…"@,
            loading: true,
            commands: self.commands.push(SpecCommand::AddFeed(value)),
            ..self
        }
    }

    /// A search is to run. Its results are no feed's, so no feed is open.
    #[verifier::opaque]
    pub open spec fn searching(self, value: Seq<char>) -> SpecApp {
        SpecApp {
            open_pub: None,
            loading: true,
            commands: self.commands.push(SpecCommand::Search(value)),
            ..self
        }
    }

    /// An account is to sign in.
    #[verifier::opaque]
    pub open spec fn signing_in(self, value: Seq<char>) -> SpecApp {
        SpecApp {
            status: "logging in…"@,
            commands: self.commands.push(SpecCommand::Login(value)),
            ..self
        }
    }

    /// What was typed is sent, unless it is nothing but space.
    #[verifier::opaque]
    pub open spec fn submitted(self) -> SpecApp {
        let value = trimmed(self.input);
        let a = if value.len() == 0 {
            self
        } else {
            match self.mode {
                Mode::AddFeed => self.adding_feed(value),
                Mode::Search => self.searching(value),
                Mode::SignIn => self.signing_in(value),
                _ => self,
            }
        };
        a.prompting(Mode::Browse)
    }

    /// A key in a prompt.
    #[verifier::opaque]
    pub open spec fn input_key(self, key: KeyEvent) -> SpecApp {
        match key.code {
            KeyCode::Esc => self.prompting(Mode::Browse),
            KeyCode::Enter => self.submitted(),
            KeyCode::Backspace => self.typed(shortened(self.input)),
            KeyCode::Char(c) => self.typed(self.input.push(c)),
            _ => self,
        }
    }

    /// The selected action of the palette runs.
    #[verifier::opaque]
    pub open spec fn palette_ran(self) -> SpecApp {
        let offered = self.offered(10);
        if self.palette_sel < offered.len() {
            self.prompting(Mode::Browse).running(offered[self.palette_sel as int])
        } else {
            self
        }
    }

    /// A key in the palette.
    #[verifier::opaque]
    pub open spec fn palette_key(self, key: KeyEvent) -> SpecApp {
        match key.code {
            KeyCode::Esc => self.prompting(Mode::Browse),
            KeyCode::Backspace => self.palette_typed(shortened(self.input)),
            KeyCode::Char(c) => self.palette_typed(self.input.push(c)),
            KeyCode::Down => self.palette_at(
                row_down(self.palette_sel, last_row(self.offered(10).len()) as usize),
            ),
            KeyCode::Up => self.palette_at(row_up(self.palette_sel)),
            KeyCode::Enter => self.palette_ran(),
            _ => self,
        }
    }
}

impl App {
    fn put_input(&mut self, input: String)
        ensures
            final(self)@ == old(self)@.typed(input@),
            old(self)@.wf() ==> final(self)@.wf(),
    {
        proof {
            reveal(SpecApp::typed);
        }
        self.input = input;
    }

    fn put_palette_input(&mut self, input: String)
        ensures
            final(self)@ == old(self)@.palette_typed(input@),
            old(self)@.wf() ==> final(self)@.wf(),
    {
        proof {
            reveal(SpecApp::palette_typed);
        }
        self.input = input;
        self.palette_sel = 0;
    }

    fn select_action(&mut self, row: usize)
        ensures
            final(self)@ == old(self)@.palette_at(row),
            old(self)@.wf() ==> final(self)@.wf(),
    {
        proof {
            reveal(SpecApp::palette_at);
        }
        self.palette_sel = row;
    }

    fn with_typed(&self, c: char) -> (r: String)
        ensures
            r@ == self@.input.push(c),
    {
        let mut s = self.input.clone();
        s.push(c);
        s
    }

    fn submit_feed(&mut self, value: String)
        ensures
            final(self)@ == old(self)@.adding_feed(value@),
            old(self)@.wf() ==> final(self)@.wf(),
    {
        proof {
            reveal(SpecApp::adding_feed);
        }
        let mut status = join2("adding ", value.as_str());
        status.push_str("…");
        self.status = status;
        self.loading = true;
        self.send(ToWorker::AddFeed(value));
    }

    fn submit_search(&mut self, value: String)
        ensures
            final(self)@ == old(self)@.searching(value@),
            old(self)@.wf() ==> final(self)@.wf(),
    {
        proof {
            reveal(SpecApp::searching);
        }
        self.open_pub = None;
        self.loading = true;
        self.send(ToWorker::Search(value));
    }

    fn submit_login(&mut self, value: String)
        ensures
            final(self)@ == old(self)@.signing_in(value@),
            old(self)@.wf() ==> final(self)@.wf(),
    {
        proof {
            reveal(SpecApp::signing_in);
        }
        self.status = owned("logging in…");
        self.send(ToWorker::Login(value));
    }

    fn submit_input(&mut self)
        ensures
            final(self)@ == old(self)@.submitted(),
            old(self)@.wf() ==> final(self)@.wf(),
    {
        proof {
            reveal(SpecApp::submitted);
        }
        let value = trim(self.input.as_str());
        if !value.as_str().is_empty() {
            match self.mode {
                Mode::AddFeed => self.submit_feed(value),
                Mode::Search => self.submit_search(value),
                Mode::SignIn => self.submit_login(value),
                _ => {},
            }
        }
        self.enter_input(Mode::Browse);
    }

    pub(crate) fn input_key(&mut self, key: KeyEvent)
        ensures
            final(self)@ == old(self)@.input_key(key),
            old(self)@.wf() ==> final(self)@.wf(),
    {
        proof {
            reveal(SpecApp::input_key);
        }
        match key.code {
            KeyCode::Esc => self.enter_input(Mode::Browse),
            KeyCode::Enter => self.submit_input(),
            KeyCode::Backspace => {
                let s = without_last(self.input.as_str());
                self.put_input(s);
            },
            KeyCode::Char(c) => {
                let s = self.with_typed(c);
                self.put_input(s);
            },
            _ => {},
        }
    }

    fn run_selected(&mut self)
        ensures
            final(self)@ == old(self)@.palette_ran(),
            old(self)@.wf() ==> final(self)@.wf(),
    {
        proof {
            reveal(SpecApp::palette_ran);
        }
        let matches = self.palette_matches();
        if self.palette_sel < matches.len() {
            let action = matches[self.palette_sel];
            self.enter_input(Mode::Browse);
            self.run(action);
        }
    }

    pub(crate) fn palette_key(&mut self, key: KeyEvent)
        ensures
            final(self)@ == old(self)@.palette_key(key),
            old(self)@.wf() ==> final(self)@.wf(),
    {
        proof {
            reveal(SpecApp::palette_key);
        }
        match key.code {
            KeyCode::Esc => self.enter_input(Mode::Browse),
            KeyCode::Backspace => {
                let s = without_last(self.input.as_str());
                self.put_palette_input(s);
            },
            KeyCode::Char(c) => {
                let s = self.with_typed(c);
                self.put_palette_input(s);
            },
            KeyCode::Down => {
                let n: usize = self.palette_matches().len();
                self.select_action(crate::app::appearance::down(self.palette_sel, last_of(n)));
            },
            KeyCode::Up => self.select_action(crate::app::appearance::up(self.palette_sel)),
            KeyCode::Enter => self.run_selected(),
            _ => {},
        }
    }
}

} // verus!
