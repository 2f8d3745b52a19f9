//! Themes, layouts, the first start, per-blog overrides and pane widths.
use vstd::prelude::*;

use crate::app::state::{blank_app, App, Mode, SpecApp, SpecEditor, ThemeEditor};
use crate::input::{KeyCode, KeyEvent};
use crate::model::{copy_opt, opt_view};
use crate::prefs::{BlogOverride, LayoutKind, Prefs, SpecOverride, SpecPrefs};
use crate::text::{join2, owned, same};
use crate::ui::theme::{hex_body, hex_text, pair_value, SpecColors, Theme, ThemeColors, PRESETS};
use crate::worker::{SpecCommand, ToWorker};

verus! {

// --- Resolution -------------------------------------------------------------------

impl Prefs {
    fn theme_name_for(&self, uri: &Option<String>) -> (r: String)
        ensures
            r@ == self@.theme_for(opt_view(*uri)),
    {
        match uri {
            Some(u) => match self.blog(u.as_str()) {
                Some(o) => match &o.theme {
                    Some(name) => name.clone(),
                    None => self.theme.clone(),
                },
                None => self.theme.clone(),
            },
            None => self.theme.clone(),
        }
    }

    fn custom_palette_for(&self, uri: &Option<String>) -> (r: ThemeColors)
        ensures
            r@ == self@.custom_for(opt_view(*uri)),
    {
        match uri {
            Some(u) => match self.blog(u.as_str()) {
                Some(o) => match &o.custom {
                    Some(c) => c.clone(),
                    None => self.custom.clone(),
                },
                None => self.custom.clone(),
            },
            None => self.custom.clone(),
        }
    }

    fn palette_for(&self, uri: &Option<String>) -> (r: ThemeColors)
        ensures
            r@ == self@.colors_for(opt_view(*uri)),
    {
        let name = self.theme_name_for(uri);
        if same(name.as_str(), "custom") {
            self.custom_palette_for(uri)
        } else {
            match ThemeColors::preset(name.as_str()) {
                Some(c) => c,
                None => ThemeColors::modern_dark(),
            }
        }
    }

    fn layout_kind_for(&self, uri: &Option<String>) -> (r: LayoutKind)
        ensures
            r == self@.layout_for(opt_view(*uri)),
    {
        match uri {
            Some(u) => match self.blog(u.as_str()) {
                Some(o) => match o.layout {
                    Some(l) => l,
                    None => self.layout,
                },
                None => self.layout,
            },
            None => self.layout,
        }
    }

    fn override_of(&self, uri: &str) -> (r: BlogOverride)
        ensures
            r@ == self@.blog_or_empty(uri@),
    {
        match self.blog(uri) {
            Some(o) => o.clone(),
            None => BlogOverride::default(),
        }
    }
}

impl App {
    /// Bring theme and layout in line with the rest of the state. A publication's
    /// override wins over the global setting; the editor's draft wins over both.
    pub fn recompute_appearance(&mut self)
        ensures
            final(self)@ == old(self)@.with_appearance(),
            old(self)@.wf() ==> final(self)@.wf(),
    {
        proof {
            reveal(SpecApp::with_appearance);
        }
        self.layout = self.prefs.layout_kind_for(&self.open_pub);
        let colors = match &self.theme_editor {
            Some(ed) => ed.draft.clone(),
            None => self.effective_colors(),
        };
        self.theme = Theme::from(&colors);
    }

    fn effective_colors(&self) -> (r: ThemeColors)
        ensures
            r@ == self@.colors_in_effect(),
    {
        self.prefs.palette_for(&self.open_pub)
    }
}

// --- The start --------------------------------------------------------------------

/// The state of a start: the feeds were asked for, and a first start begins with the
/// layout picker.
pub open spec fn started(prefs: SpecPrefs) -> SpecApp {
    let a = blank_app(prefs).with_appearance().sending(SpecCommand::LoadHome);
    if prefs.onboarded {
        a
    } else {
        a.onboarding_begun()
    }
}

impl App {
    pub fn new(prefs: Prefs) -> (r: Self)
        ensures
            r@ == started(prefs@),
            r@.wf(),
    {
        let mut app = App::blank(prefs);
        proof {
            reveal(SpecApp::with_appearance);
        }
        app.recompute_appearance();
        app.send(ToWorker::LoadHome);
        if !app.prefs.onboarded {
            app.start_onboarding();
        }
        app
    }
}

// --- Moving through a menu --------------------------------------------------------

/// One row up, or the first.
pub open spec fn row_up(sel: usize) -> usize {
    if sel > 0 {
        (sel - 1) as usize
    } else {
        0
    }
}

/// One row down, or the last.
pub open spec fn row_down(sel: usize, last: usize) -> usize {
    if sel < last {
        (sel + 1) as usize
    } else {
        last
    }
}

pub(crate) fn up(sel: usize) -> (r: usize)
    ensures
        r == row_up(sel),
{
    if sel > 0 {
        sel - 1
    } else {
        0
    }
}

pub(crate) fn down(sel: usize, last: usize) -> (r: usize)
    ensures
        r == row_down(sel, last),
{
    if sel < last {
        sel + 1
    } else {
        last
    }
}

/// The last row of a list, the first if it is empty.
pub open spec fn last_row(len: nat) -> int {
    if len > 0 {
        len - 1
    } else {
        0
    }
}

// --- Themes -----------------------------------------------------------------------

/// The picker's row for a theme's name: the presets, then the custom palette. A name
/// that is neither stands at the first row.
pub open spec fn theme_row(name: Seq<char>) -> usize {
    if name == "custom"@ {
        3
    } else if name == "light"@ {
        1
    } else if name == "high-contrast"@ {
        2
    } else {
        0
    }
}

/// The preset of a row, if the row is one.
pub open spec fn preset_row(i: usize) -> Option<Seq<char>> {
    if i == 0 {
        Some("modern-dark"@)
    } else if i == 1 {
        Some("light"@)
    } else if i == 2 {
        Some("high-contrast"@)
    } else {
        None
    }
}

/// A channel's value after a nudge.
pub open spec fn nudged(v: int, delta: int) -> u8 {
    if v + delta < 0 {
        0
    } else if v + delta > 255 {
        255
    } else {
        (v + delta) as u8
    }
}

/// A palette with one channel of one slot nudged.
pub open spec fn colors_nudged(p: SpecColors, slot: usize, channel: usize, delta: int) -> SpecColors {
    let h = hex_body(p.slot_source(slot as int));
    let r = pair_value(h, 0) as u8;
    let g = pair_value(h, 2) as u8;
    let b = pair_value(h, 4) as u8;
    p.with_slot(
        slot as int,
        hex_text(
            [
                if channel == 0 {
                    nudged(r as int, delta)
                } else {
                    r
                },
                if channel == 1 {
                    nudged(g as int, delta)
                } else {
                    g
                },
                if channel == 2 {
                    nudged(b as int, delta)
                } else {
                    b
                },
            ],
        ),
    )
}

impl SpecApp {
    /// Every state that a start leads to has this: the border's link is one of the
    /// links, and the editor's selection lies inside the palette.
    pub open spec fn wf(self) -> bool {
        &&& self.attribution_link matches Some(i) ==> i < self.links.len()
        &&& self.theme_editor matches Some(e) ==> e.slot < 7 && e.channel < 3
    }

    /// A menu's row is selected.
    #[verifier::opaque]
    pub open spec fn menu_at(self, row: usize) -> SpecApp {
        SpecApp { menu_sel: row, ..self }
    }

    /// A picker's target is taken.
    #[verifier::opaque]
    pub open spec fn untargeted(self) -> SpecApp {
        SpecApp { menu_target: None, ..self }
    }

    /// The theme picker opens at the target's theme.
    #[verifier::opaque]
    pub open spec fn picking_theme(self) -> SpecApp {
        SpecApp {
            menu_sel: theme_row(self.prefs.theme_for(self.menu_target)),
            mode: Mode::ThemePicker,
            ..self
        }
    }

    /// The first start is over, and never comes again.
    #[verifier::opaque]
    pub open spec fn onboarding_over(self) -> SpecApp {
        let prefs = SpecPrefs { onboarded: true, ..self.prefs };
        SpecApp {
            mode: Mode::Browse,
            status: "all set — press a to add a blog, ? for help"@,
            onboarding: false,
            prefs,
            commands: self.commands.push(SpecCommand::SavePrefs(prefs)),
            ..self
        }
    }

    /// What follows a choice of the first start, or back to browsing.
    #[verifier::opaque]
    pub open spec fn choice_made(self) -> SpecApp {
        if self.onboarding {
            self.onboarding_over()
        } else {
            SpecApp { mode: Mode::Browse, ..self }
        }
    }

    /// A publication's theme is set.
    #[verifier::opaque]
    pub open spec fn blog_theme_set(self, uri: Seq<char>, name: Seq<char>) -> SpecApp {
        let o = SpecOverride { theme: Some(name), ..self.prefs.blog_or_empty(uri) };
        let prefs = self.prefs.with_blog(uri, o);
        SpecApp {
            prefs,
            commands: self.commands.push(SpecCommand::SavePrefs(prefs)),
            mode: Mode::Browse,
            status: "theme for this blog: "@ + name,
            ..self
        }
    }

    /// The global theme is set.
    #[verifier::opaque]
    pub open spec fn theme_set(self, name: Seq<char>) -> SpecApp {
        let prefs = SpecPrefs { theme: name, ..self.prefs };
        SpecApp {
            prefs,
            commands: self.commands.push(SpecCommand::SavePrefs(prefs)),
            status: "theme: "@ + name,
            ..self
        }
    }

    /// A theme was chosen: for the picker's publication, or for all. The row after the
    /// presets opens the editor on a palette of their own.
    #[verifier::opaque]
    pub open spec fn theme_chosen(self, i: usize) -> SpecApp {
        let a = self.untargeted();
        match self.menu_target {
            Some(uri) => match preset_row(i) {
                Some(name) => a.blog_theme_set(uri, name),
                None => a.editing_blog_theme(uri),
            },
            None => match preset_row(i) {
                Some(name) => a.theme_set(name).choice_made(),
                None => a.editing_theme(),
            },
        }
    }

    /// The editor opens on the palette in effect.
    #[verifier::opaque]
    pub open spec fn editing_theme(self) -> SpecApp {
        SpecApp {
            theme_editor: Some(
                SpecEditor { draft: self.colors_in_effect(), slot: 0, channel: 0, target: None },
            ),
            mode: Mode::ThemeEditor,
            ..self
        }
    }

    /// The editor opens on a publication's palette.
    #[verifier::opaque]
    pub open spec fn editing_blog_theme(self, uri: Seq<char>) -> SpecApp {
        SpecApp {
            theme_editor: Some(
                SpecEditor {
                    draft: self.prefs.colors_for(Some(uri)),
                    slot: 0,
                    channel: 0,
                    target: Some(uri),
                },
            ),
            mode: Mode::ThemeEditor,
            ..self
        }
    }

    /// A key in the theme picker.
    #[verifier::opaque]
    pub open spec fn theme_picker_key(self, key: KeyEvent) -> SpecApp {
        match key.code {
            KeyCode::Esc => self.choice_made(),
            KeyCode::Up => self.menu_at(row_up(self.menu_sel)),
            KeyCode::Char('k') => self.menu_at(row_up(self.menu_sel)),
            KeyCode::Down => self.menu_at(row_down(self.menu_sel, 3)),
            KeyCode::Char('j') => self.menu_at(row_down(self.menu_sel, 3)),
            KeyCode::Enter => self.theme_chosen(self.menu_sel),
            _ => self,
        }
    }

    /// The editor's selection or draft changed.
    pub open spec fn with_editor(self, e: SpecEditor) -> SpecApp {
        SpecApp { theme_editor: Some(e), ..self }
    }

    /// A draft becomes the custom palette, and the theme.
    #[verifier::opaque]
    pub open spec fn custom_theme_set(self, draft: SpecColors) -> SpecApp {
        let prefs = SpecPrefs { custom: draft, theme: "custom"@, ..self.prefs };
        SpecApp {
            theme_editor: None,
            prefs,
            commands: self.commands.push(SpecCommand::SavePrefs(prefs)),
            status: "custom theme saved"@,
            ..self
        }
    }

    /// A draft becomes a publication's own palette, and its theme. The global ones stay.
    #[verifier::opaque]
    pub open spec fn blog_custom_set(self, uri: Seq<char>, draft: SpecColors) -> SpecApp {
        let o = SpecOverride {
            theme: Some("custom"@),
            custom: Some(draft),
            ..self.prefs.blog_or_empty(uri)
        };
        let prefs = self.prefs.with_blog(uri, o);
        SpecApp {
            theme_editor: None,
            prefs,
            commands: self.commands.push(SpecCommand::SavePrefs(prefs)),
            status: "custom theme for this blog saved"@,
            ..self
        }
    }

    /// The editor's draft becomes the custom palette, and the theme: of the publication that
    /// it was opened for, or of all.
    #[verifier::opaque]
    pub open spec fn theme_committed(self) -> SpecApp {
        match self.theme_editor {
            Some(e) => match e.target {
                Some(uri) => self.blog_custom_set(uri, e.draft).choice_made(),
                None => self.custom_theme_set(e.draft).choice_made(),
            },
            None => self.choice_made(),
        }
    }

    /// The editor closes, and its draft is dropped.
    #[verifier::opaque]
    pub open spec fn edit_cancelled(self) -> SpecApp {
        SpecApp { theme_editor: None, status: "theme edit cancelled"@, ..self }
    }

    /// The selected channel of the selected slot changes.
    #[verifier::opaque]
    pub open spec fn channel_adjusted(self, delta: int) -> SpecApp {
        match self.theme_editor {
            Some(e) => self.with_editor(
                SpecEditor {
                    draft: colors_nudged(e.draft, e.slot, e.channel, delta),
                    ..e
                },
            ),
            None => self,
        }
    }

    /// A key in the colour editor.
    #[verifier::opaque]
    pub open spec fn theme_editor_key(self, key: KeyEvent) -> SpecApp {
        match self.theme_editor {
            None => SpecApp { mode: Mode::Browse, ..self },
            Some(e) => match key.code {
                KeyCode::Esc => self.edit_cancelled().choice_made(),
                KeyCode::Enter => self.theme_committed(),
                KeyCode::Up => self.with_editor(SpecEditor { slot: row_up(e.slot), ..e }),
                KeyCode::Char('k') => self.with_editor(SpecEditor { slot: row_up(e.slot), ..e }),
                KeyCode::Down => self.with_editor(SpecEditor { slot: row_down(e.slot, 6), ..e }),
                KeyCode::Char('j') => self.with_editor(
                    SpecEditor { slot: row_down(e.slot, 6), ..e },
                ),
                KeyCode::Left => self.with_editor(
                    SpecEditor { channel: row_up(e.channel), ..e },
                ),
                KeyCode::Char('h') => self.with_editor(
                    SpecEditor { channel: row_up(e.channel), ..e },
                ),
                KeyCode::Right => self.with_editor(
                    SpecEditor { channel: row_down(e.channel, 2), ..e },
                ),
                KeyCode::Char('l') => self.with_editor(
                    SpecEditor { channel: row_down(e.channel, 2), ..e },
                ),
                KeyCode::Char('-') => self.channel_adjusted(-1),
                KeyCode::Char('+') => self.channel_adjusted(1),
                KeyCode::Char('=') => self.channel_adjusted(1),
                KeyCode::Char('[') => self.channel_adjusted(-16),
                KeyCode::Char(']') => self.channel_adjusted(16),
                _ => self,
            },
        }
    }
}

impl App {
    pub(crate) fn menu_up(&mut self)
        ensures
            final(self)@ == old(self)@.menu_at(row_up(old(self)@.menu_sel)),
            old(self)@.wf() ==> final(self)@.wf(),
    {
        proof {
            reveal(SpecApp::menu_at);
        }
        self.menu_sel = up(self.menu_sel);
    }

    pub(crate) fn menu_down(&mut self, last: usize)
        ensures
            final(self)@ == old(self)@.menu_at(row_down(old(self)@.menu_sel, last)),
            old(self)@.wf() ==> final(self)@.wf(),
    {
        proof {
            reveal(SpecApp::menu_at);
        }
        self.menu_sel = down(self.menu_sel, last);
    }

    pub(crate) fn take_target(&mut self) -> (r: Option<String>)
        ensures
            opt_view(r) == old(self)@.menu_target,
            final(self)@ == old(self)@.untargeted(),
            old(self)@.wf() ==> final(self)@.wf(),
    {
        proof {
            reveal(SpecApp::untargeted);
        }
        self.menu_target.take()
    }

    /// Open the theme picker for the global setting.
    pub(crate) fn open_theme_picker(&mut self)
        ensures
            final(self)@ == old(self)@.untargeted().picking_theme(),
            old(self)@.wf() ==> final(self)@.wf(),
    {
        let _ = self.take_target();
        self.show_theme_picker();
    }

    pub(crate) fn show_theme_picker(&mut self)
        ensures
            final(self)@ == old(self)@.picking_theme(),
            old(self)@.wf() ==> final(self)@.wf(),
    {
        proof {
            reveal(SpecApp::picking_theme);
        }
        let current = self.prefs.theme_name_for(&self.menu_target);
        let name = current.as_str();
        self.menu_sel = if same(name, "custom") {
            3
        } else if same(name, "light") {
            1
        } else if same(name, "high-contrast") {
            2
        } else {
            0
        };
        self.mode = Mode::ThemePicker;
    }

    pub(crate) fn theme_picker_key(&mut self, key: KeyEvent)
        ensures
            final(self)@ == old(self)@.theme_picker_key(key),
            old(self)@.wf() ==> final(self)@.wf(),
    {
        proof {
            reveal(SpecApp::theme_picker_key);
        }
        match key.code {
            KeyCode::Esc => self.after_choice(),
            KeyCode::Up => self.menu_up(),
            KeyCode::Char('k') => self.menu_up(),
            KeyCode::Down => self.menu_down(3),
            KeyCode::Char('j') => self.menu_down(3),
            KeyCode::Enter => self.choose_theme_entry(self.menu_sel),
            _ => {},
        }
    }

    fn after_choice(&mut self)
        ensures
            final(self)@ == old(self)@.choice_made(),
            old(self)@.wf() ==> final(self)@.wf(),
    {
        proof {
            reveal(SpecApp::choice_made);
        }
        if self.onboarding {
            self.finish_onboarding();
        } else {
            self.mode = Mode::Browse;
        }
    }

    fn set_blog_theme(&mut self, uri: &str, name: &str)
        ensures
            final(self)@ == old(self)@.blog_theme_set(uri@, name@),
            old(self)@.wf() ==> final(self)@.wf(),
    {
        proof {
            reveal(SpecApp::blog_theme_set);
        }
        let mut o = self.prefs.override_of(uri);
        o.theme = Some(owned(name));
        self.prefs.put_blog(uri, o);
        self.persist_prefs();
        self.mode = Mode::Browse;
        self.status = join2("theme for this blog: ", name);
    }

    fn set_theme(&mut self, name: &str)
        ensures
            final(self)@ == old(self)@.theme_set(name@),
            old(self)@.wf() ==> final(self)@.wf(),
    {
        proof {
            reveal(SpecApp::theme_set);
        }
        self.prefs.theme = owned(name);
        self.persist_prefs();
        self.status = join2("theme: ", name);
    }

    /// Take a row of the theme picker.
    pub(crate) fn choose_theme_entry(&mut self, i: usize)
        ensures
            final(self)@ == old(self)@.theme_chosen(i),
            old(self)@.wf() ==> final(self)@.wf(),
    {
        proof {
            reveal(SpecApp::theme_chosen);
        }
        let preset: Option<&'static str> = if i < 3 {
            let names = PRESETS;
            Some(names[i])
        } else {
            None
        };
        let target = self.take_target();
        match target {
            Some(uri) => match preset {
                Some(name) => self.set_blog_theme(uri.as_str(), name),
                None => self.open_blog_theme_editor(uri),
            },
            None => match preset {
                Some(name) => {
                    self.set_theme(name);
                    self.after_choice();
                },
                None => self.open_theme_editor(),
            },
        }
    }

    /// Open the colour editor on the palette in effect.
    pub fn open_theme_editor(&mut self)
        ensures
            final(self)@ == old(self)@.editing_theme(),
            old(self)@.wf() ==> final(self)@.wf(),
    {
        proof {
            reveal(SpecApp::editing_theme);
        }
        self.theme_editor = Some(
            ThemeEditor { draft: self.effective_colors(), slot: 0, channel: 0, target: None },
        );
        self.mode = Mode::ThemeEditor;
    }

    /// Open the colour editor on a publication's palette.
    pub fn open_blog_theme_editor(&mut self, uri: String)
        ensures
            final(self)@ == old(self)@.editing_blog_theme(uri@),
            old(self)@.wf() ==> final(self)@.wf(),
    {
        proof {
            reveal(SpecApp::editing_blog_theme);
        }
        let target = Some(uri);
        let draft = self.prefs.palette_for(&target);
        self.theme_editor = Some(ThemeEditor { draft, slot: 0, channel: 0, target });
        self.mode = Mode::ThemeEditor;
    }

    pub(crate) fn theme_editor_key(&mut self, key: KeyEvent)
        requires
            old(self)@.wf(),
        ensures
            final(self)@ == old(self)@.theme_editor_key(key),
            final(self)@.wf(),
    {
        proof {
            reveal(SpecApp::theme_editor_key);
        }
        if self.theme_editor.is_none() {
            self.mode = Mode::Browse;
            return;
        }
        match key.code {
            KeyCode::Esc => {
                self.cancel_theme_editor();
                self.after_choice();
            },
            KeyCode::Enter => self.commit_theme_editor(),
            KeyCode::Up => self.select_slot(false),
            KeyCode::Char('k') => self.select_slot(false),
            KeyCode::Down => self.select_slot(true),
            KeyCode::Char('j') => self.select_slot(true),
            KeyCode::Left => self.select_channel(false),
            KeyCode::Char('h') => self.select_channel(false),
            KeyCode::Right => self.select_channel(true),
            KeyCode::Char('l') => self.select_channel(true),
            KeyCode::Char('-') => self.adjust_channel(-1),
            KeyCode::Char('+') => self.adjust_channel(1),
            KeyCode::Char('=') => self.adjust_channel(1),
            KeyCode::Char('[') => self.adjust_channel(-16),
            KeyCode::Char(']') => self.adjust_channel(16),
            _ => {},
        }
    }

    fn select_slot(&mut self, forward: bool)
        requires
            old(self)@.theme_editor is Some,
        ensures
            final(self)@ == old(self)@.with_editor(
                SpecEditor {
                    slot: if forward {
                        row_down(old(self)@.theme_editor->0.slot, 6)
                    } else {
                        row_up(old(self)@.theme_editor->0.slot)
                    },
                    ..old(self)@.theme_editor->0
                },
            ),
    {
        if let Some(e) = self.theme_editor.take() {
            let slot: usize = if forward {
                down(e.slot, 6)
            } else {
                up(e.slot)
            };
            self.theme_editor = Some(
                ThemeEditor { draft: e.draft, slot, channel: e.channel, target: e.target },
            );
        }
    }

    fn select_channel(&mut self, forward: bool)
        requires
            old(self)@.theme_editor is Some,
        ensures
            final(self)@ == old(self)@.with_editor(
                SpecEditor {
                    channel: if forward {
                        row_down(old(self)@.theme_editor->0.channel, 2)
                    } else {
                        row_up(old(self)@.theme_editor->0.channel)
                    },
                    ..old(self)@.theme_editor->0
                },
            ),
    {
        if let Some(e) = self.theme_editor.take() {
            let channel: usize = if forward {
                down(e.channel, 2)
            } else {
                up(e.channel)
            };
            self.theme_editor = Some(
                ThemeEditor { draft: e.draft, slot: e.slot, channel, target: e.target },
            );
        }
    }

    /// Nudge the selected slot's selected channel, within a byte.
    pub fn adjust_channel(&mut self, delta: i32)
        requires
            old(self)@.wf(),
        ensures
            final(self)@ == old(self)@.channel_adjusted(delta as int),
            final(self)@.wf(),
    {
        proof {
            reveal(SpecApp::channel_adjusted);
        }
        if let Some(e) = self.theme_editor.take() {
            let mut draft = e.draft;
            let ghost h = hex_body(draft@.slot_source(e.slot as int));
            let rgb = draft.slot_rgb(e.slot);
            let r = if e.channel == 0 {
                nudge(rgb[0], delta)
            } else {
                rgb[0]
            };
            let g = if e.channel == 1 {
                nudge(rgb[1], delta)
            } else {
                rgb[1]
            };
            let b = if e.channel == 2 {
                nudge(rgb[2], delta)
            } else {
                rgb[2]
            };
            draft.set_slot(e.slot, [r, g, b]);
            self.theme_editor = Some(
                ThemeEditor { draft, slot: e.slot, channel: e.channel, target: e.target },
            );
        }
    }

    fn set_custom_theme(&mut self, draft: ThemeColors)
        ensures
            final(self)@ == old(self)@.custom_theme_set(draft@),
            old(self)@.wf() ==> final(self)@.wf(),
    {
        proof {
            reveal(SpecApp::custom_theme_set);
        }
        self.theme_editor = None;
        self.prefs.custom = draft;
        self.prefs.theme = owned("custom");
        self.persist_prefs();
        self.status = owned("custom theme saved");
    }

    fn set_blog_custom(&mut self, uri: &str, draft: ThemeColors)
        ensures
            final(self)@ == old(self)@.blog_custom_set(uri@, draft@),
            old(self)@.wf() ==> final(self)@.wf(),
    {
        proof {
            reveal(SpecApp::blog_custom_set);
        }
        self.theme_editor = None;
        let mut o = self.prefs.override_of(uri);
        o.theme = Some(owned("custom"));
        o.custom = Some(draft);
        self.prefs.put_blog(uri, o);
        self.persist_prefs();
        self.status = owned("custom theme for this blog saved");
    }

    /// Keep the draft as the custom palette, and select it: for the publication that the
    /// editor was opened for, or for all.
    pub fn commit_theme_editor(&mut self)
        ensures
            final(self)@ == old(self)@.theme_committed(),
            old(self)@.wf() ==> final(self)@.wf(),
    {
        proof {
            reveal(SpecApp::theme_committed);
        }
        let draft = match &self.theme_editor {
            Some(e) => Some((e.draft.clone(), copy_opt(&e.target))),
            None => None,
        };
        match draft {
            Some((d, Some(uri))) => self.set_blog_custom(uri.as_str(), d),
            Some((d, None)) => self.set_custom_theme(d),
            None => {},
        }
        self.after_choice();
    }

    fn cancel_theme_editor(&mut self)
        ensures
            final(self)@ == old(self)@.edit_cancelled(),
            old(self)@.wf() ==> final(self)@.wf(),
    {
        proof {
            reveal(SpecApp::edit_cancelled);
        }
        self.theme_editor = None;
        self.status = owned("theme edit cancelled");
    }
}

fn nudge(v: u8, delta: i32) -> (r: u8)
    ensures
        r == nudged(v as int, delta as int),
{
    let x: i64 = v as i64 + delta as i64;
    if x < 0 {
        0
    } else if x > 255 {
        255
    } else {
        x as u8
    }
}

// --- Layouts ----------------------------------------------------------------------

impl SpecApp {
    /// The global layout moves on in the cycle.
    #[verifier::opaque]
    pub open spec fn layout_cycled(self) -> SpecApp {
        let layout = self.prefs.layout.successor();
        let prefs = SpecPrefs { layout, ..self.prefs };
        SpecApp {
            prefs,
            commands: self.commands.push(SpecCommand::SavePrefs(prefs)),
            status: "layout: "@ + layout.name(),
            ..self
        }
    }

    /// The layout picker opens at the target's layout.
    #[verifier::opaque]
    pub open spec fn picking_layout(self) -> SpecApp {
        SpecApp {
            menu_sel: self.prefs.layout_for(self.menu_target).place() as usize,
            mode: Mode::LayoutPicker,
            ..self
        }
    }

    /// A publication's layout is set.
    #[verifier::opaque]
    pub open spec fn blog_layout_set(self, uri: Seq<char>, layout: LayoutKind) -> SpecApp {
        let o = SpecOverride { layout: Some(layout), ..self.prefs.blog_or_empty(uri) };
        let prefs = self.prefs.with_blog(uri, o);
        SpecApp {
            prefs,
            commands: self.commands.push(SpecCommand::SavePrefs(prefs)),
            status: "layout for this blog: "@ + layout.name(),
            ..self
        }
    }

    /// The global layout is set.
    #[verifier::opaque]
    pub open spec fn layout_set(self, layout: LayoutKind) -> SpecApp {
        let prefs = SpecPrefs { layout, ..self.prefs };
        SpecApp {
            prefs,
            commands: self.commands.push(SpecCommand::SavePrefs(prefs)),
            status: "layout: "@ + layout.name(),
            ..self
        }
    }

    /// What follows the choice of a layout: the theme on a first start, or browsing.
    #[verifier::opaque]
    pub open spec fn layout_done(self) -> SpecApp {
        if self.onboarding {
            self.picking_theme()
        } else {
            SpecApp { mode: Mode::Browse, ..self }
        }
    }

    /// A layout was chosen: for the picker's publication, or for all.
    #[verifier::opaque]
    pub open spec fn layout_chosen(self) -> SpecApp {
        let layout = LayoutKind::ALL@[if self.menu_sel < 3 {
            self.menu_sel as int
        } else {
            3
        }];
        let a = self.untargeted();
        match self.menu_target {
            Some(uri) => a.blog_layout_set(uri, layout).layout_done(),
            None => a.layout_set(layout).layout_done(),
        }
    }

    /// A key in the layout picker. Skipping the step on a first start leads to the theme.
    #[verifier::opaque]
    pub open spec fn layout_picker_key(self, key: KeyEvent) -> SpecApp {
        match key.code {
            KeyCode::Esc => self.layout_done(),
            KeyCode::Up => self.menu_at(row_up(self.menu_sel)),
            KeyCode::Char('k') => self.menu_at(row_up(self.menu_sel)),
            KeyCode::Down => self.menu_at(row_down(self.menu_sel, 3)),
            KeyCode::Char('j') => self.menu_at(row_down(self.menu_sel, 3)),
            KeyCode::Enter => self.layout_chosen(),
            _ => self,
        }
    }

    /// The first start: pick a layout, then a theme.
    #[verifier::opaque]
    pub open spec fn onboarding_begun(self) -> SpecApp {
        (SpecApp {
            onboarding: true,
            menu_target: None,
            status: "welcome — choose a layout (esc to skip)"@,
            ..self
        }).picking_layout()
    }
}

impl App {
    pub(crate) fn cycle_layout(&mut self)
        ensures
            final(self)@ == old(self)@.layout_cycled(),
            old(self)@.wf() ==> final(self)@.wf(),
    {
        proof {
            reveal(SpecApp::layout_cycled);
        }
        let next = self.prefs.layout.next();
        self.prefs.layout = next;
        self.persist_prefs();
        self.status = join2("layout: ", next.label());
    }

    /// Open the layout picker for the global setting.
    pub(crate) fn open_layout_picker(&mut self)
        ensures
            final(self)@ == old(self)@.untargeted().picking_layout(),
            old(self)@.wf() ==> final(self)@.wf(),
    {
        let _ = self.take_target();
        self.show_layout_picker();
    }

    pub(crate) fn show_layout_picker(&mut self)
        ensures
            final(self)@ == old(self)@.picking_layout(),
            old(self)@.wf() ==> final(self)@.wf(),
    {
        proof {
            reveal(SpecApp::picking_layout);
        }
        self.menu_sel = self.prefs.layout_kind_for(&self.menu_target).position();
        self.mode = Mode::LayoutPicker;
    }

    pub(crate) fn layout_picker_key(&mut self, key: KeyEvent)
        ensures
            final(self)@ == old(self)@.layout_picker_key(key),
            old(self)@.wf() ==> final(self)@.wf(),
    {
        proof {
            reveal(SpecApp::layout_picker_key);
        }
        match key.code {
            KeyCode::Esc => self.after_layout(),
            KeyCode::Up => self.menu_up(),
            KeyCode::Char('k') => self.menu_up(),
            KeyCode::Down => self.menu_down(3),
            KeyCode::Char('j') => self.menu_down(3),
            KeyCode::Enter => self.choose_layout(),
            _ => {},
        }
    }

    fn set_blog_layout(&mut self, uri: &str, layout: LayoutKind)
        ensures
            final(self)@ == old(self)@.blog_layout_set(uri@, layout),
            old(self)@.wf() ==> final(self)@.wf(),
    {
        proof {
            reveal(SpecApp::blog_layout_set);
        }
        let mut o = self.prefs.override_of(uri);
        o.layout = Some(layout);
        self.prefs.put_blog(uri, o);
        self.status = join2("layout for this blog: ", layout.label());
        self.persist_prefs();
    }

    fn set_layout(&mut self, layout: LayoutKind)
        ensures
            final(self)@ == old(self)@.layout_set(layout),
            old(self)@.wf() ==> final(self)@.wf(),
    {
        proof {
            reveal(SpecApp::layout_set);
        }
        self.prefs.layout = layout;
        self.status = join2("layout: ", layout.label());
        self.persist_prefs();
    }

    fn after_layout(&mut self)
        ensures
            final(self)@ == old(self)@.layout_done(),
            old(self)@.wf() ==> final(self)@.wf(),
    {
        proof {
            reveal(SpecApp::layout_done);
        }
        if self.onboarding {
            self.show_theme_picker();
        } else {
            self.mode = Mode::Browse;
        }
    }

    fn choose_layout(&mut self)
        ensures
            final(self)@ == old(self)@.layout_chosen(),
            old(self)@.wf() ==> final(self)@.wf(),
    {
        proof {
            reveal(SpecApp::layout_chosen);
        }
        let all = LayoutKind::ALL;
        let layout = if self.menu_sel < 3 {
            all[self.menu_sel]
        } else {
            all[3]
        };
        let target = self.take_target();
        match target {
            Some(uri) => self.set_blog_layout(uri.as_str(), layout),
            None => self.set_layout(layout),
        }
        self.after_layout();
    }

    fn start_onboarding(&mut self)
        ensures
            final(self)@ == old(self)@.onboarding_begun(),
            old(self)@.wf() ==> final(self)@.wf(),
    {
        proof {
            reveal(SpecApp::onboarding_begun);
        }
        self.onboarding = true;
        self.menu_target = None;
        self.status = owned("welcome — choose a layout (esc to skip)");
        self.show_layout_picker();
    }

    fn finish_onboarding(&mut self)
        ensures
            final(self)@ == old(self)@.onboarding_over(),
            old(self)@.wf() ==> final(self)@.wf(),
    {
        proof {
            reveal(SpecApp::onboarding_over);
        }
        self.onboarding = false;
        self.prefs.onboarded = true;
        self.persist_prefs();
        self.mode = Mode::Browse;
        self.status = owned("all set — press a to add a blog, ? for help");
    }
}

} // verus!
