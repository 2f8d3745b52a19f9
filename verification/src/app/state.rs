//! The state of the screen.
use vstd::prelude::*;

use crate::account::{opt_account, Account, SpecAccount};
use crate::app::geometry::{no_rects, LinkRect, Rects};
use crate::memstore::pairs_view;
use crate::model::{
    documents_view, opt_view, publications_view, Document, ImageSource, Publication,
    PublishingPlatform, RichDoc, SpecBlock, SpecDocument, SpecImageSource, SpecPublication,
};
use crate::prefs::{LayoutKind, Prefs, SpecPrefs};
use crate::store::opt_body;
use crate::table::Table;
use crate::text::{owned, strings_view};
use crate::ui::theme::{modern_dark_colors, theme_of, SpecColors, Theme, ThemeColors};
use crate::worker::{commands_view, DecodedImage, SpecCommand, SpecDecoded, ToWorker};

verus! {

/// A decoded image and its size.
#[derive(Debug, PartialEq)]
pub struct StoredImage {
    pub image: DecodedImage,
    pub width: u32,
    pub height: u32,
}

/// [`StoredImage`] over sequences.
pub struct SpecStoredImage {
    pub image: SpecDecoded,
    pub width: u32,
    pub height: u32,
}

impl View for StoredImage {
    type V = SpecStoredImage;

    open spec fn view(&self) -> SpecStoredImage {
        SpecStoredImage { image: self.image@, width: self.width, height: self.height }
    }
}

#[derive(Clone, Copy, PartialEq, Eq, Structural, Debug)]
pub enum Focus {
    /// The feed list.
    Sidebar,
    /// The post list.
    Posts,
    /// The reader body.
    Reader,
}

/// Shape of panel corners, which a shell picks to suit its renderer.
#[derive(Clone, Copy, PartialEq, Eq, Structural, Debug)]
pub enum PanelBorderStyle {
    Rounded,
    Square,
}

impl Default for PanelBorderStyle {
    fn default() -> (r: Self)
        ensures
            r == PanelBorderStyle::Rounded,
    {
        PanelBorderStyle::Rounded
    }
}

#[derive(Clone, Copy, PartialEq, Eq, Structural, Debug)]
pub enum Mode {
    Browse,
    DocList,
    Search,
    Palette,
    Help,
    AddFeed,
    /// Prompt for a handle or DID to sign in.
    SignIn,
    /// Reconcile local follows with the account's subscriptions.
    SyncPrompt,
    /// Pick a colour theme.
    ThemePicker,
    /// Edit the custom theme's colours.
    ThemeEditor,
    /// Pick a layout.
    LayoutPicker,
    /// One publication's customization.
    BlogMenu,
    /// The whole status line in a popup.
    StatusDetail,
    /// Choose which of a repository's publications to follow.
    PublicationPicker,
}

/// The colour editor: a working palette, and what of it is selected.
#[derive(Debug, PartialEq)]
pub struct ThemeEditor {
    pub draft: ThemeColors,
    /// The selected slot, up to six.
    pub slot: usize,
    /// The selected channel: red, green or blue.
    pub channel: usize,
    /// The publication whose palette it is; `None` for the global one.
    pub target: Option<String>,
}

/// [`ThemeEditor`] over sequences.
pub struct SpecEditor {
    pub draft: SpecColors,
    pub slot: usize,
    pub channel: usize,
    pub target: Option<Seq<char>>,
}

impl View for ThemeEditor {
    type V = SpecEditor;

    open spec fn view(&self) -> SpecEditor {
        SpecEditor {
            draft: self.draft@,
            slot: self.slot,
            channel: self.channel,
            target: opt_view(self.target),
        }
    }
}

/// An optional editor by its view.
pub open spec fn opt_editor(o: Option<ThemeEditor>) -> Option<SpecEditor> {
    match o {
        Some(e) => Some(e@),
        None => None,
    }
}

/// An optional source by its view.
pub open spec fn opt_source(o: Option<ImageSource>) -> Option<SpecImageSource> {
    match o {
        Some(s) => Some(s@),
        None => None,
    }
}

/// A table of images as a map.
pub open spec fn stored_images(t: Map<Seq<char>, StoredImage>) -> Map<Seq<char>, SpecStoredImage> {
    t.map_values(|i: StoredImage| i@)
}

/// The picker's rows by their views.
pub open spec fn choices_view(s: Seq<(String, String, bool)>) -> Seq<(Seq<char>, Seq<char>, bool)> {
    s.map_values(|c: (String, String, bool)| (c.0@, c.1@, c.2))
}

/// The state of the screen.
pub struct App {
    pub mode: Mode,
    pub focus: Focus,
    pub feeds: Vec<Publication>,
    pub feed_sel: usize,
    pub docs: Vec<Document>,
    pub doc_sel: usize,
    /// The publication whose documents are shown. A late update for another one is
    /// dropped.
    pub open_pub: Option<String>,
    pub list_title: String,
    pub reading: Option<RichDoc>,
    pub reading_title: String,
    pub reading_uri: Option<String>,
    /// The publishing application of the open document, if its content names one.
    pub reading_platform: Option<PublishingPlatform>,
    /// The open document's description, by which a post without a text is recognised.
    pub reading_description: Option<String>,
    /// The open document's cover image.
    pub reading_cover: Option<ImageSource>,
    pub scroll: u16,
    pub input: String,
    pub palette_sel: usize,
    pub status: String,
    pub loading: bool,
    pub should_quit: bool,
    pub rects: Rects,
    pub panel_border_style: PanelBorderStyle,
    /// Decoded images by key.
    pub images: Table<StoredImage>,
    /// Whether images are fetched and shown.
    pub show_images: bool,
    pub account: Option<Account>,
    /// Local follows to reconcile: publication and name.
    pub sync_prompt: Vec<(String, String)>,
    /// The open document's links, in reading order.
    pub links: Vec<String>,
    /// The focused link's place in `links`.
    pub focused_link: Option<usize>,
    /// The place of the border's link in `links`, after all the others.
    pub attribution_link: Option<usize>,
    /// Whether the border's link was drawn.
    pub attribution_visible: bool,
    /// Whether the next drawing scrolls the focused link into view.
    pub scroll_to_focused: bool,
    /// Footprints of the links in the last drawing.
    pub link_rects: Vec<LinkRect>,
    pub prefs: Prefs,
    /// The theme in effect.
    pub theme: Theme,
    /// The layout in effect.
    pub layout: LayoutKind,
    /// Whether the kept layout of the reader has to be made anew.
    pub reader_stale: bool,
    /// Counts the bodies that were opened.
    pub reading_version: u64,
    /// Counts the images that arrived.
    pub images_version: u64,
    /// The open colour editor.
    pub theme_editor: Option<ThemeEditor>,
    /// The selected row of a picker.
    pub menu_sel: usize,
    /// The publication that a picker edits; `None` for the global setting.
    pub menu_target: Option<String>,
    /// Whether this is the first start, where each picker leads to the next.
    pub onboarding: bool,
    /// The publication picker's rows: URI, name and whether it is chosen.
    pub publication_choices: Vec<(String, String, bool)>,
    /// Which of the shown documents were read.
    pub read_uris: Table<()>,
    /// Unread documents by publication.
    pub unread_counts: Table<usize>,
    /// Whether the open feed has older posts to load.
    pub has_older: bool,
    /// Posts that were asked for anew in this session.
    pub freshened: Table<()>,
    /// The status text that the popup shows.
    pub status_detail: String,
    /// Commands for the worker that the shell has not taken yet.
    pub outbox: Vec<ToWorker>,
    /// Addresses for the browser that the shell has not taken yet.
    pub to_open: Vec<String>,
}

/// [`App`] over sequences, sets and maps.
pub struct SpecApp {
    pub mode: Mode,
    pub focus: Focus,
    pub feeds: Seq<SpecPublication>,
    pub feed_sel: usize,
    pub docs: Seq<SpecDocument>,
    pub doc_sel: usize,
    pub open_pub: Option<Seq<char>>,
    pub list_title: Seq<char>,
    pub reading: Option<Seq<SpecBlock>>,
    pub reading_title: Seq<char>,
    pub reading_uri: Option<Seq<char>>,
    pub reading_platform: Option<PublishingPlatform>,
    pub reading_description: Option<Seq<char>>,
    pub reading_cover: Option<SpecImageSource>,
    pub scroll: u16,
    pub input: Seq<char>,
    pub palette_sel: usize,
    pub status: Seq<char>,
    pub loading: bool,
    pub should_quit: bool,
    pub rects: Rects,
    pub panel_border_style: PanelBorderStyle,
    pub images: Map<Seq<char>, SpecStoredImage>,
    pub show_images: bool,
    pub account: Option<SpecAccount>,
    pub sync_prompt: Seq<(Seq<char>, Seq<char>)>,
    pub links: Seq<Seq<char>>,
    pub focused_link: Option<usize>,
    pub attribution_link: Option<usize>,
    pub attribution_visible: bool,
    pub scroll_to_focused: bool,
    pub link_rects: Seq<LinkRect>,
    pub prefs: SpecPrefs,
    pub theme: Theme,
    pub layout: LayoutKind,
    pub reader_stale: bool,
    pub reading_version: u64,
    pub images_version: u64,
    pub theme_editor: Option<SpecEditor>,
    pub menu_sel: usize,
    pub menu_target: Option<Seq<char>>,
    pub onboarding: bool,
    pub publication_choices: Seq<(Seq<char>, Seq<char>, bool)>,
    pub read_uris: Set<Seq<char>>,
    pub unread_counts: Map<Seq<char>, usize>,
    pub has_older: bool,
    pub freshened: Set<Seq<char>>,
    pub status_detail: Seq<char>,
    pub commands: Seq<SpecCommand>,
    pub to_open: Seq<Seq<char>>,
}

impl View for App {
    type V = SpecApp;

    open spec fn view(&self) -> SpecApp {
        SpecApp {
            mode: self.mode,
            focus: self.focus,
            feeds: publications_view(self.feeds@),
            feed_sel: self.feed_sel,
            docs: documents_view(self.docs@),
            doc_sel: self.doc_sel,
            open_pub: opt_view(self.open_pub),
            list_title: self.list_title@,
            reading: opt_body(self.reading),
            reading_title: self.reading_title@,
            reading_uri: opt_view(self.reading_uri),
            reading_platform: self.reading_platform,
            reading_description: opt_view(self.reading_description),
            reading_cover: opt_source(self.reading_cover),
            scroll: self.scroll,
            input: self.input@,
            palette_sel: self.palette_sel,
            status: self.status@,
            loading: self.loading,
            should_quit: self.should_quit,
            rects: self.rects,
            panel_border_style: self.panel_border_style,
            images: stored_images(self.images@),
            show_images: self.show_images,
            account: opt_account(self.account),
            sync_prompt: pairs_view(self.sync_prompt@),
            links: strings_view(self.links@),
            focused_link: self.focused_link,
            attribution_link: self.attribution_link,
            attribution_visible: self.attribution_visible,
            scroll_to_focused: self.scroll_to_focused,
            link_rects: self.link_rects@,
            prefs: self.prefs@,
            theme: self.theme,
            layout: self.layout,
            reader_stale: self.reader_stale,
            reading_version: self.reading_version,
            images_version: self.images_version,
            theme_editor: opt_editor(self.theme_editor),
            menu_sel: self.menu_sel,
            menu_target: opt_view(self.menu_target),
            onboarding: self.onboarding,
            publication_choices: choices_view(self.publication_choices@),
            read_uris: self.read_uris@.dom(),
            unread_counts: self.unread_counts@,
            has_older: self.has_older,
            freshened: self.freshened@.dom(),
            status_detail: self.status_detail@,
            commands: commands_view(self.outbox@),
            to_open: strings_view(self.to_open@),
        }
    }
}

impl SpecApp {
    /// A command goes to the worker.
    pub open spec fn sending(self, c: SpecCommand) -> SpecApp {
        SpecApp { commands: self.commands.push(c), ..self }
    }

    /// The preferences go to the worker to be kept.
    pub open spec fn keeping_prefs(self) -> SpecApp {
        self.sending(SpecCommand::SavePrefs(self.prefs))
    }

    /// An address goes to the browser.
    pub open spec fn opening(self, url: Seq<char>) -> SpecApp {
        SpecApp { to_open: self.to_open.push(url), ..self }
    }

    /// The status line says something.
    pub open spec fn saying(self, status: Seq<char>) -> SpecApp {
        SpecApp { status, ..self }
    }

    /// The palette in effect, any open editor aside: the open publication's, or the
    /// global one.
    pub open spec fn colors_in_effect(self) -> SpecColors {
        self.prefs.colors_for(self.open_pub)
    }

    /// The palette that is shown: the editor's draft while it is open.
    pub open spec fn colors_shown(self) -> SpecColors {
        match self.theme_editor {
            Some(e) => e.draft,
            None => self.colors_in_effect(),
        }
    }

    /// Theme and layout brought in line with the rest of the state.
    #[verifier::opaque]
    pub open spec fn with_appearance(self) -> SpecApp {
        SpecApp {
            layout: self.prefs.layout_for(self.open_pub),
            theme: theme_of(self.colors_shown()),
            ..self
        }
    }
}

/// The state of a start, before anything was sent.
pub open spec fn blank_app(prefs: SpecPrefs) -> SpecApp {
    SpecApp {
        mode: Mode::Browse,
        focus: Focus::Sidebar,
        feeds: Seq::empty(),
        feed_sel: 0,
        docs: Seq::empty(),
        doc_sel: 0,
        open_pub: None,
        list_title: Seq::empty(),
        reading: None,
        reading_title: Seq::empty(),
        reading_uri: None,
        reading_platform: None,
        reading_description: None,
        reading_cover: None,
        scroll: 0,
        input: Seq::empty(),
        palette_sel: 0,
        status: "Loading… (press ? for help, a to add a feed)"@,
        loading: true,
        should_quit: false,
        rects: no_rects(),
        panel_border_style: PanelBorderStyle::Rounded,
        images: Map::empty(),
        show_images: true,
        account: None,
        sync_prompt: Seq::empty(),
        links: Seq::empty(),
        focused_link: None,
        attribution_link: None,
        attribution_visible: false,
        scroll_to_focused: false,
        link_rects: Seq::empty(),
        prefs,
        theme: theme_of(modern_dark_colors()),
        layout: prefs.layout,
        reader_stale: true,
        reading_version: 0,
        images_version: 0,
        theme_editor: None,
        menu_sel: 0,
        menu_target: None,
        onboarding: false,
        publication_choices: Seq::empty(),
        read_uris: Set::empty(),
        unread_counts: Map::empty(),
        has_older: false,
        freshened: Set::empty(),
        status_detail: Seq::empty(),
        commands: Seq::empty(),
        to_open: Seq::empty(),
    }
}

impl App {
    /// The state of a start, before anything was sent.
    pub(crate) fn blank(prefs: Prefs) -> (r: Self)
        ensures
            r@ == blank_app(prefs@),
    {
        let ghost p = prefs@;
        let layout = prefs.layout;
        let r = App {
            mode: Mode::Browse,
            focus: Focus::Sidebar,
            feeds: Vec::new(),
            feed_sel: 0,
            docs: Vec::new(),
            doc_sel: 0,
            open_pub: None,
            list_title: String::new(),
            reading: None,
            reading_title: String::new(),
            reading_uri: None,
            reading_platform: None,
            reading_description: None,
            reading_cover: None,
            scroll: 0,
            input: String::new(),
            palette_sel: 0,
            status: owned("Loading… (press ? for help, a to add a feed)"),
            loading: true,
            should_quit: false,
            rects: Rects::default(),
            panel_border_style: PanelBorderStyle::Rounded,
            images: Table::new(),
            show_images: true,
            account: None,
            sync_prompt: Vec::new(),
            links: Vec::new(),
            focused_link: None,
            attribution_link: None,
            attribution_visible: false,
            scroll_to_focused: false,
            link_rects: Vec::new(),
            prefs,
            theme: Theme::modern_dark(),
            layout,
            reader_stale: true,
            reading_version: 0,
            images_version: 0,
            theme_editor: None,
            menu_sel: 0,
            menu_target: None,
            onboarding: false,
            publication_choices: Vec::new(),
            read_uris: Table::new(),
            unread_counts: Table::new(),
            has_older: false,
            freshened: Table::new(),
            status_detail: String::new(),
            outbox: Vec::new(),
            to_open: Vec::new(),
        };
        assert(publications_view(r.feeds@) =~= Seq::empty());
        assert(documents_view(r.docs@) =~= Seq::empty());
        assert(stored_images(r.images@) =~= Map::empty());
        assert(pairs_view(r.sync_prompt@) =~= Seq::empty());
        assert(strings_view(r.links@) =~= Seq::empty());
        assert(choices_view(r.publication_choices@) =~= Seq::empty());
        assert(r.read_uris@.dom() =~= Set::empty());
        assert(r.freshened@.dom() =~= Set::empty());
        assert(commands_view(r.outbox@) =~= Seq::empty());
        assert(strings_view(r.to_open@) =~= Seq::empty());
        r
    }

    /// Hand the commands for the worker to the shell.
    pub fn take_commands(&mut self) -> (r: Vec<ToWorker>)
        ensures
            commands_view(r@) == old(self)@.commands,
            final(self)@ == (SpecApp { commands: Seq::empty(), ..old(self)@ }),
    {
        let mut out: Vec<ToWorker> = Vec::new();
        core::mem::swap(&mut out, &mut self.outbox);
        assert(commands_view(self.outbox@) =~= Seq::empty());
        out
    }

    /// Hand the addresses for the browser to the shell.
    pub fn take_urls(&mut self) -> (r: Vec<String>)
        ensures
            strings_view(r@) == old(self)@.to_open,
            final(self)@ == (SpecApp { to_open: Seq::empty(), ..old(self)@ }),
    {
        let mut out: Vec<String> = Vec::new();
        core::mem::swap(&mut out, &mut self.to_open);
        assert(strings_view(self.to_open@) =~= Seq::empty());
        out
    }

    /// Select the panel-corner shape for this shell's renderer.
    pub fn set_panel_border_style(&mut self, style: PanelBorderStyle)
        ensures
            final(self)@ == (SpecApp { panel_border_style: style, ..old(self)@ }),
    {
        self.panel_border_style = style;
    }

    pub(crate) fn send(&mut self, msg: ToWorker)
        ensures
            final(self)@ == old(self)@.sending(msg@),
    {
        let ghost before = self.outbox@;
        self.outbox.push(msg);
        assert(commands_view(self.outbox@) =~= commands_view(before).push(msg@));
    }

    pub(crate) fn open_url(&mut self, url: String)
        ensures
            final(self)@ == old(self)@.opening(url@),
    {
        let ghost before = self.to_open@;
        self.to_open.push(url);
        assert(strings_view(self.to_open@) =~= strings_view(before).push(url@));
    }

    /// Keep the preferences, through the worker.
    pub(crate) fn persist_prefs(&mut self)
        ensures
            final(self)@ == old(self)@.keeping_prefs(),
    {
        let p = self.prefs.clone();
        self.send(ToWorker::SavePrefs(p));
    }
}

} // verus!
