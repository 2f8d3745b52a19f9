//! The dialogs that the worker's results open, and the keys of every mode.
use vstd::prelude::*;

use crate::app::appearance::{last_row, row_down, row_up};
use crate::app::feeds::last_of;
use crate::app::state::{choices_view, App, Mode, SpecApp};
use crate::input::{KeyCode, KeyEvent};
use crate::memstore::pairs_view;
use crate::text::{decimal, decimal_of, lemma_strings_view_push, owned, strings_view};
use crate::worker::{SpecCommand, ToWorker};

verus! {

// --- Reconciling follows ----------------------------------------------------------

/// The first of each pair.
pub open spec fn firsts(s: Seq<(Seq<char>, Seq<char>)>) -> Seq<Seq<char>> {
    s.map_values(|p: (Seq<char>, Seq<char>)| p.0)
}

/// One command for each publication: to unfollow it.
pub open spec fn unfollow_each(s: Seq<(Seq<char>, Seq<char>)>) -> Seq<SpecCommand> {
    s.map_values(|p: (Seq<char>, Seq<char>)| SpecCommand::Unfollow(p.0))
}

impl SpecApp {
    /// The question is answered, or put off.
    #[verifier::opaque]
    pub open spec fn sync_dismissed(self) -> SpecApp {
        SpecApp { sync_prompt: Seq::empty(), mode: Mode::Browse, ..self }
    }

    /// The local follows become subscriptions.
    #[verifier::opaque]
    pub open spec fn follows_subscribed(self) -> SpecApp {
        self.sending(SpecCommand::SubscribeLocal(firsts(self.sync_prompt))).sync_dismissed()
    }

    /// The local follows are dropped.
    #[verifier::opaque]
    pub open spec fn follows_removed(self) -> SpecApp {
        SpecApp {
            commands: self.commands + unfollow_each(self.sync_prompt),
            status: "removed "@ + decimal(self.sync_prompt.len()) + " local-only feed(s)"@,
            sync_prompt: Seq::empty(),
            mode: Mode::Browse,
            ..self
        }
    }

    /// A key in the question about local follows.
    #[verifier::opaque]
    pub open spec fn sync_prompt_key(self, key: KeyEvent) -> SpecApp {
        match key.code {
            KeyCode::Char('s') => self.follows_subscribed(),
            KeyCode::Char('r') => self.follows_removed(),
            KeyCode::Esc => self.sync_dismissed(),
            _ => self,
        }
    }
}

fn first_each(s: &Vec<(String, String)>) -> (r: Vec<String>)
    ensures
        strings_view(r@) == firsts(pairs_view(s@)),
{
    let mut out: Vec<String> = Vec::new();
    let mut i: usize = 0;
    while i < s.len()
        invariant
            i <= s@.len(),
            out@.len() == i,
            forall|k: int| 0 <= k < i ==> (#[trigger] out@[k])@ == s@[k].0@,
        decreases s@.len() - i,
    {
        out.push(s[i].0.clone());
        i = i + 1;
    }
    assert(strings_view(out@) =~= firsts(pairs_view(s@)));
    out
}

impl App {
    fn dismiss_sync_prompt(&mut self)
        ensures
            final(self)@ == old(self)@.sync_dismissed(),
            old(self)@.wf() ==> final(self)@.wf(),
    {
        proof {
            reveal(SpecApp::sync_dismissed);
        }
        self.sync_prompt = Vec::new();
        self.mode = Mode::Browse;
        assert(pairs_view(self.sync_prompt@) =~= Seq::empty());
    }

    fn subscribe_follows(&mut self)
        ensures
            final(self)@ == old(self)@.follows_subscribed(),
            old(self)@.wf() ==> final(self)@.wf(),
    {
        proof {
            reveal(SpecApp::follows_subscribed);
        }
        let uris = first_each(&self.sync_prompt);
        self.send(ToWorker::SubscribeLocal(uris));
        self.dismiss_sync_prompt();
    }

    fn send_unfollows(&mut self, uris: &Vec<String>)
        ensures
            final(self)@ == (SpecApp {
                commands: old(self)@.commands + strings_view(uris@).map_values(
                    |u: Seq<char>| SpecCommand::Unfollow(u),
                ),
                ..old(self)@
            }),
    {
        let ghost start = self@;
        let ghost all = strings_view(uris@).map_values(|u: Seq<char>| SpecCommand::Unfollow(u));
        let mut i: usize = 0;
        assert(start.commands + all.take(0) =~= start.commands);
        while i < uris.len()
            invariant
                i <= uris@.len(),
                all == strings_view(uris@).map_values(|u: Seq<char>| SpecCommand::Unfollow(u)),
                all.len() == uris@.len(),
                self@ == (SpecApp { commands: start.commands + all.take(i as int), ..start }),
            decreases uris@.len() - i,
        {
            self.send(ToWorker::Unfollow(uris[i].clone()));
            assert((start.commands + all.take(i as int)).push(all[i as int]) =~= start.commands
                + all.take(i + 1));
            i = i + 1;
        }
        assert(all.take(all.len() as int) =~= all);
    }

    fn remove_follows(&mut self)
        ensures
            final(self)@ == old(self)@.follows_removed(),
            old(self)@.wf() ==> final(self)@.wf(),
    {
        proof {
            reveal(SpecApp::follows_removed);
            reveal(SpecApp::sync_dismissed);
        }
        let n: usize = self.sync_prompt.len();
        assert(pairs_view(self.sync_prompt@).len() == n);
        let uris = first_each(&self.sync_prompt);
        assert(strings_view(uris@).map_values(|u: Seq<char>| SpecCommand::Unfollow(u))
            =~= unfollow_each(pairs_view(self.sync_prompt@)));
        self.send_unfollows(&uris);
        let status = removed_status(n);
        self.status = status;
        self.dismiss_sync_prompt();
    }

    fn sync_prompt_key(&mut self, key: KeyEvent)
        ensures
            final(self)@ == old(self)@.sync_prompt_key(key),
            old(self)@.wf() ==> final(self)@.wf(),
    {
        proof {
            reveal(SpecApp::sync_prompt_key);
        }
        match key.code {
            KeyCode::Char('s') => self.subscribe_follows(),
            KeyCode::Char('r') => self.remove_follows(),
            KeyCode::Esc => self.dismiss_sync_prompt(),
            _ => {},
        }
    }
}

fn removed_status(n: usize) -> (r: String)
    ensures
        r@ == "removed "@ + decimal(n as nat) + " local-only feed(s)"@,
{
    let mut s = owned("removed ");
    let d = decimal_of(n as u64);
    s.push_str(d.as_str());
    s.push_str(" local-only feed(s)");
    s
}

// --- Choosing publications --------------------------------------------------------

/// The picker's rows with one of them flipped, if there is such a row.
pub open spec fn flipped(s: Seq<(Seq<char>, Seq<char>, bool)>, i: int) -> Seq<
    (Seq<char>, Seq<char>, bool),
> {
    if 0 <= i < s.len() {
        s.update(i, (s[i].0, s[i].1, !s[i].2))
    } else {
        s
    }
}

/// The picker's rows all chosen, or none.
pub open spec fn all_set(s: Seq<(Seq<char>, Seq<char>, bool)>, on: bool) -> Seq<
    (Seq<char>, Seq<char>, bool),
> {
    s.map_values(|c: (Seq<char>, Seq<char>, bool)| (c.0, c.1, on))
}

/// The URIs of the chosen rows, in order.
pub open spec fn chosen(s: Seq<(Seq<char>, Seq<char>, bool)>) -> Seq<Seq<char>>
    decreases s.len(),
{
    if s.len() == 0 {
        Seq::empty()
    } else if s.last().2 {
        chosen(s.drop_last()).push(s.last().0)
    } else {
        chosen(s.drop_last())
    }
}

impl SpecApp {
    /// The picker's rows change.
    #[verifier::opaque]
    pub open spec fn choices_set(self, rows: Seq<(Seq<char>, Seq<char>, bool)>) -> SpecApp {
        SpecApp { publication_choices: rows, ..self }
    }

    /// Nothing is added.
    #[verifier::opaque]
    pub open spec fn adding_cancelled(self) -> SpecApp {
        SpecApp {
            publication_choices: Seq::empty(),
            mode: Mode::Browse,
            status: "add cancelled"@,
            ..self
        }
    }

    /// The chosen publications are followed, and no other.
    #[verifier::opaque]
    pub open spec fn chosen_followed(self) -> SpecApp {
        let uris = chosen(self.publication_choices);
        SpecApp {
            publication_choices: Seq::empty(),
            mode: Mode::Browse,
            status: "following "@ + decimal(uris.len()) + " publication(s)…"@,
            commands: self.commands.push(SpecCommand::FollowPublications(uris)),
            ..self
        }
    }

    /// A key in the publication picker.
    #[verifier::opaque]
    pub open spec fn publication_picker_key(self, key: KeyEvent) -> SpecApp {
        let rows = self.publication_choices;
        match key.code {
            KeyCode::Esc => self.adding_cancelled(),
            KeyCode::Up => self.menu_at(row_up(self.menu_sel)),
            KeyCode::Char('k') => self.menu_at(row_up(self.menu_sel)),
            KeyCode::Down => self.menu_at(row_down(self.menu_sel, last_row(rows.len()) as usize)),
            KeyCode::Char('j') => self.menu_at(
                row_down(self.menu_sel, last_row(rows.len()) as usize),
            ),
            KeyCode::Char(' ') => self.choices_set(flipped(rows, self.menu_sel as int)),
            KeyCode::Char('a') => self.choices_set(all_set(rows, true)),
            KeyCode::Char('n') => self.choices_set(all_set(rows, false)),
            KeyCode::Enter => self.chosen_followed(),
            _ => self,
        }
    }
}

type Choice = (String, String, bool);

fn flip(s: &Vec<Choice>, at: usize) -> (r: Vec<Choice>)
    ensures
        choices_view(r@) == flipped(choices_view(s@), at as int),
{
    let mut out: Vec<Choice> = Vec::new();
    let mut i: usize = 0;
    while i < s.len()
        invariant
            i <= s@.len(),
            out@.len() == i,
            forall|k: int|
                0 <= k < i ==> (#[trigger] out@[k]).0@ == s@[k].0@ && out@[k].1@ == s@[k].1@
                    && out@[k].2 == (if k == at {
                    !s@[k].2
                } else {
                    s@[k].2
                }),
        decreases s@.len() - i,
    {
        let on = if i == at {
            !s[i].2
        } else {
            s[i].2
        };
        out.push((s[i].0.clone(), s[i].1.clone(), on));
        i = i + 1;
    }
    assert(choices_view(out@) =~= flipped(choices_view(s@), at as int));
    out
}

fn set_all(s: &Vec<Choice>, on: bool) -> (r: Vec<Choice>)
    ensures
        choices_view(r@) == all_set(choices_view(s@), on),
{
    let mut out: Vec<Choice> = Vec::new();
    let mut i: usize = 0;
    while i < s.len()
        invariant
            i <= s@.len(),
            out@.len() == i,
            forall|k: int|
                0 <= k < i ==> (#[trigger] out@[k]).0@ == s@[k].0@ && out@[k].1@ == s@[k].1@
                    && out@[k].2 == on,
        decreases s@.len() - i,
    {
        out.push((s[i].0.clone(), s[i].1.clone(), on));
        i = i + 1;
    }
    assert(choices_view(out@) =~= all_set(choices_view(s@), on));
    out
}

fn chosen_uris(s: &Vec<Choice>) -> (r: Vec<String>)
    ensures
        strings_view(r@) == chosen(choices_view(s@)),
        r@.len() == chosen(choices_view(s@)).len(),
{
    let ghost all = choices_view(s@);
    let mut out: Vec<String> = Vec::new();
    let mut i: usize = 0;
    assert(all.take(0) =~= Seq::empty());
    assert(strings_view(out@) =~= Seq::empty());
    while i < s.len()
        invariant
            i <= s@.len(),
            all == choices_view(s@),
            strings_view(out@) == chosen(all.take(i as int)),
        decreases s@.len() - i,
    {
        assert(all.take(i + 1).drop_last() =~= all.take(i as int));
        if s[i].2 {
            let uri = s[i].0.clone();
            proof {
                lemma_strings_view_push(out@, uri);
            }
            out.push(uri);
        }
        i = i + 1;
    }
    assert(all.take(all.len() as int) =~= all);
    assert(strings_view(out@).len() == out@.len());
    out
}

fn following_status(n: usize) -> (r: String)
    ensures
        r@ == "following "@ + decimal(n as nat) + " publication(s)…"@,
{
    let mut s = owned("following ");
    let d = decimal_of(n as u64);
    s.push_str(d.as_str());
    s.push_str(" publication(s)…");
    s
}

impl App {
    fn put_choices(&mut self, rows: Vec<Choice>)
        ensures
            final(self)@ == old(self)@.choices_set(choices_view(rows@)),
            old(self)@.wf() ==> final(self)@.wf(),
    {
        proof {
            reveal(SpecApp::choices_set);
        }
        self.publication_choices = rows;
    }

    fn cancel_adding(&mut self)
        ensures
            final(self)@ == old(self)@.adding_cancelled(),
            old(self)@.wf() ==> final(self)@.wf(),
    {
        proof {
            reveal(SpecApp::adding_cancelled);
        }
        self.publication_choices = Vec::new();
        self.mode = Mode::Browse;
        self.status = owned("add cancelled");
        assert(choices_view(self.publication_choices@) =~= Seq::empty());
    }

    fn follow_chosen(&mut self)
        ensures
            final(self)@ == old(self)@.chosen_followed(),
            old(self)@.wf() ==> final(self)@.wf(),
    {
        proof {
            reveal(SpecApp::chosen_followed);
        }
        let uris = chosen_uris(&self.publication_choices);
        let status = following_status(uris.len());
        self.publication_choices = Vec::new();
        self.mode = Mode::Browse;
        self.status = status;
        assert(choices_view(self.publication_choices@) =~= Seq::empty());
        self.send(ToWorker::FollowPublications(uris));
    }

    /// A key in the publication picker.
    pub fn publication_picker_key(&mut self, key: KeyEvent)
        ensures
            final(self)@ == old(self)@.publication_picker_key(key),
            old(self)@.wf() ==> final(self)@.wf(),
    {
        proof {
            reveal(SpecApp::publication_picker_key);
        }
        assert(choices_view(self.publication_choices@).len() == self.publication_choices@.len());
        let n: usize = self.publication_choices.len();
        match key.code {
            KeyCode::Esc => self.cancel_adding(),
            KeyCode::Up => self.menu_up(),
            KeyCode::Char('k') => self.menu_up(),
            KeyCode::Down => self.menu_down(last_of(n)),
            KeyCode::Char('j') => self.menu_down(last_of(n)),
            KeyCode::Char(' ') => {
                let rows = flip(&self.publication_choices, self.menu_sel);
                self.put_choices(rows);
            },
            KeyCode::Char('a') => {
                let rows = set_all(&self.publication_choices, true);
                self.put_choices(rows);
            },
            KeyCode::Char('n') => {
                let rows = set_all(&self.publication_choices, false);
                self.put_choices(rows);
            },
            KeyCode::Enter => self.follow_chosen(),
            _ => {},
        }
    }
}

// --- Every mode -------------------------------------------------------------------

impl SpecApp {
    /// What a key does.
    pub open spec fn key_pressed(self, key: KeyEvent) -> SpecApp {
        match self.mode {
            Mode::Search => self.input_key(key),
            Mode::AddFeed => self.input_key(key),
            Mode::SignIn => self.input_key(key),
            Mode::Palette => self.palette_key(key),
            Mode::Help => self.entering(Mode::Browse),
            Mode::StatusDetail => self.entering(Mode::Browse),
            Mode::SyncPrompt => self.sync_prompt_key(key),
            Mode::ThemePicker => self.theme_picker_key(key),
            Mode::ThemeEditor => self.theme_editor_key(key),
            Mode::LayoutPicker => self.layout_picker_key(key),
            Mode::BlogMenu => self.blog_menu_key(key),
            Mode::PublicationPicker => self.publication_picker_key(key),
            Mode::DocList => self.doclist_key(key),
            Mode::Browse => self.browse_key(key),
        }
    }
}

impl App {
    /// Handle a key.
    pub fn on_key(&mut self, key: KeyEvent)
        requires
            old(self)@.wf(),
        ensures
            final(self)@ == old(self)@.key_pressed(key),
            final(self)@.wf(),
    {
        match self.mode {
            Mode::Search => self.input_key(key),
            Mode::AddFeed => self.input_key(key),
            Mode::SignIn => self.input_key(key),
            Mode::Palette => self.palette_key(key),
            Mode::Help => self.enter(Mode::Browse),
            Mode::StatusDetail => self.enter(Mode::Browse),
            Mode::SyncPrompt => self.sync_prompt_key(key),
            Mode::ThemePicker => self.theme_picker_key(key),
            Mode::ThemeEditor => self.theme_editor_key(key),
            Mode::LayoutPicker => self.layout_picker_key(key),
            Mode::BlogMenu => self.blog_menu_key(key),
            Mode::PublicationPicker => self.publication_picker_key(key),
            Mode::DocList => self.doclist_key(key),
            Mode::Browse => self.browse_key(key),
        }
    }
}

/// Only chosen rows are followed, each in its place.
pub proof fn law_only_chosen_rows_are_followed(
    s: Seq<(Seq<char>, Seq<char>, bool)>,
    uri: Seq<char>,
)
    ensures
        chosen(s).contains(uri) <==> exists|i: int|
            0 <= i < s.len() && (#[trigger] s[i]).2 && s[i].0 == uri,
    decreases s.len(),
{
    if s.len() > 0 {
        let t = s.drop_last();
        law_only_chosen_rows_are_followed(t, uri);
        if chosen(s).contains(uri) {
            let k = choose|k: int| 0 <= k < chosen(s).len() && chosen(s)[k] == uri;
            if s.last().2 && k == chosen(t).len() {
                assert(s[s.len() - 1].0 == uri);
            } else {
                assert(chosen(t)[k] == uri);
                let i = choose|i: int| 0 <= i < t.len() && (#[trigger] t[i]).2 && t[i].0 == uri;
                assert(s[i] == t[i]);
            }
        }
        if exists|i: int| 0 <= i < s.len() && (#[trigger] s[i]).2 && s[i].0 == uri {
            let i = choose|i: int| 0 <= i < s.len() && (#[trigger] s[i]).2 && s[i].0 == uri;
            if i == s.len() - 1 {
                assert(chosen(s)[chosen(t).len() as int] == uri);
            } else {
                assert(t[i] == s[i]);
                let k = choose|k: int| 0 <= k < chosen(t).len() && chosen(t)[k] == uri;
                assert(chosen(s)[k] == uri);
            }
        }
    }
}

/// Choosing all, or none, leaves the same rows with that mark.
pub proof fn law_all_and_none(s: Seq<(Seq<char>, Seq<char>, bool)>, i: int)
    requires
        0 <= i < s.len(),
    ensures
        all_set(s, true)[i].2,
        !all_set(s, false)[i].2,
        all_set(s, true)[i].0 == s[i].0,
        flipped(flipped(s, i), i) == s,
{
    assert(flipped(flipped(s, i), i) =~= s);
}

} // verus!
