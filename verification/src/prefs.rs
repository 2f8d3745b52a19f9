//! User preferences: layout, colour theme and per-blog overrides.
use vstd::prelude::*;

use crate::model::{copy_opt, opt_view};
use crate::table::Table;
use crate::text::owned;
use crate::ui::theme::{modern_dark_colors, preset_colors, SpecColors, ThemeColors};

verus! {

/// How the reader arranges its panes.
#[derive(Clone, Copy, PartialEq, Eq, Structural, Debug)]
pub enum LayoutKind {
    /// The focused pane only.
    OnePane,
    /// Feeds or posts on the left, the reader on the right.
    TwoPane,
    /// Feeds, posts and reader at once.
    ThreePane,
    /// Feeds, then feeds and posts, then the open post alone.
    DrillDown,
}

impl LayoutKind {
    pub const ALL: [LayoutKind; 4] = [
        LayoutKind::OnePane,
        LayoutKind::TwoPane,
        LayoutKind::ThreePane,
        LayoutKind::DrillDown,
    ];

    /// The place of a layout in the cycle.
    pub open spec fn place(self) -> int {
        match self {
            LayoutKind::OnePane => 0,
            LayoutKind::TwoPane => 1,
            LayoutKind::ThreePane => 2,
            LayoutKind::DrillDown => 3,
        }
    }

    /// The layout after this one in the cycle.
    pub open spec fn successor(self) -> LayoutKind {
        Self::ALL@[(self.place() + 1) % 4]
    }

    /// The place of a layout in the cycle.
    pub fn position(self) -> (i: usize)
        ensures
            i == self.place(),
            i < 4,
            Self::ALL@[i as int] == self,
    {
        match self {
            LayoutKind::OnePane => 0,
            LayoutKind::TwoPane => 1,
            LayoutKind::ThreePane => 2,
            LayoutKind::DrillDown => 3,
        }
    }

    /// The next layout in the cycle (wraps).
    pub fn next(self) -> (r: LayoutKind)
        ensures
            r == self.successor(),
    {
        let i: usize = self.position();
        let all = Self::ALL;
        all[(i + 1) % 4]
    }

    /// The name of a layout.
    pub open spec fn name(self) -> Seq<char> {
        match self {
            LayoutKind::OnePane => "One pane"@,
            LayoutKind::TwoPane => "Two pane"@,
            LayoutKind::ThreePane => "Three pane"@,
            LayoutKind::DrillDown => "Drill-down"@,
        }
    }

    pub fn label(self) -> (r: &'static str)
        ensures
            r@ == self.name(),
    {
        match self {
            LayoutKind::OnePane => "One pane",
            LayoutKind::TwoPane => "Two pane",
            LayoutKind::ThreePane => "Three pane",
            LayoutKind::DrillDown => "Drill-down",
        }
    }
}

impl Default for LayoutKind {
    fn default() -> (r: Self)
        ensures
            r == LayoutKind::TwoPane,
    {
        LayoutKind::TwoPane
    }
}

/// Cycling visits every layout and comes back after four steps, not before.
pub proof fn law_layouts_cycle(l: LayoutKind)
    ensures
        l.successor() != l,
        l.successor().successor() != l,
        l.successor().successor().successor() != l,
        l.successor().successor().successor().successor() == l,
{
}

/// One publication's override; an empty field means the global setting.
#[derive(PartialEq, Eq, Debug)]
pub struct BlogOverride {
    pub theme: Option<String>,
    pub layout: Option<LayoutKind>,
    /// The publication's own palette, used when its theme is `custom`.
    pub custom: Option<ThemeColors>,
}

/// [`BlogOverride`] over sequences.
pub struct SpecOverride {
    pub theme: Option<Seq<char>>,
    pub layout: Option<LayoutKind>,
    pub custom: Option<SpecColors>,
}

/// An optional palette by its view.
pub open spec fn opt_colors(o: Option<ThemeColors>) -> Option<SpecColors> {
    match o {
        Some(c) => Some(c@),
        None => None,
    }
}

impl View for BlogOverride {
    type V = SpecOverride;

    open spec fn view(&self) -> SpecOverride {
        SpecOverride {
            theme: opt_view(self.theme),
            layout: self.layout,
            custom: opt_colors(self.custom),
        }
    }
}

impl SpecOverride {
    /// It overrides nothing.
    pub open spec fn vacuous(self) -> bool {
        self.theme is None && self.layout is None && self.custom is None
    }
}

/// The override that overrides nothing.
pub open spec fn no_override() -> SpecOverride {
    SpecOverride { theme: None, layout: None, custom: None }
}

impl Clone for BlogOverride {
    fn clone(&self) -> (r: Self)
        ensures
            r@ == self@,
    {
        let custom = match &self.custom {
            Some(c) => Some(c.clone()),
            None => None,
        };
        BlogOverride { theme: copy_opt(&self.theme), layout: self.layout, custom }
    }
}

impl Default for BlogOverride {
    fn default() -> (r: Self)
        ensures
            r@ == no_override(),
    {
        BlogOverride { theme: None, layout: None, custom: None }
    }
}

impl BlogOverride {
    /// Whether this override carries nothing, and can be dropped.
    pub fn is_empty(&self) -> (r: bool)
        ensures
            r == self@.vacuous(),
    {
        self.theme.is_none() && self.layout.is_none() && self.custom.is_none()
    }
}

/// All preferences.
pub struct Prefs {
    /// A preset's name, or `custom`.
    pub theme: String,
    pub layout: LayoutKind,
    /// Width of the feeds column.
    pub sidebar_width: u16,
    /// Width of the posts column.
    pub posts_width: u16,
    pub onboarded: bool,
    /// The editable palette, used when the theme is `custom`.
    pub custom: ThemeColors,
    /// Overrides by publication.
    pub per_blog: Table<BlogOverride>,
}

/// [`Prefs`] over sequences and maps.
pub struct SpecPrefs {
    pub theme: Seq<char>,
    pub layout: LayoutKind,
    pub sidebar_width: u16,
    pub posts_width: u16,
    pub onboarded: bool,
    pub custom: SpecColors,
    pub per_blog: Map<Seq<char>, SpecOverride>,
}

/// A table of overrides as a map.
pub open spec fn overrides_map(t: Map<Seq<char>, BlogOverride>) -> Map<Seq<char>, SpecOverride> {
    t.map_values(|o: BlogOverride| o@)
}

impl View for Prefs {
    type V = SpecPrefs;

    open spec fn view(&self) -> SpecPrefs {
        SpecPrefs {
            theme: self.theme@,
            layout: self.layout,
            sidebar_width: self.sidebar_width,
            posts_width: self.posts_width,
            onboarded: self.onboarded,
            custom: self.custom@,
            per_blog: overrides_map(self.per_blog@),
        }
    }
}

/// The preferences of a first start.
pub open spec fn default_prefs() -> SpecPrefs {
    SpecPrefs {
        theme: "modern-dark"@,
        layout: LayoutKind::TwoPane,
        sidebar_width: 30,
        posts_width: 36,
        onboarded: false,
        custom: modern_dark_colors(),
        per_blog: Map::empty(),
    }
}

/// Bounds for a resizable pane's width.
pub const PANE_MIN: u16 = 16;

pub const PANE_MAX: u16 = 60;

impl SpecPrefs {
    /// A publication's override.
    pub open spec fn blog(self, uri: Seq<char>) -> Option<SpecOverride> {
        if self.per_blog.dom().contains(uri) {
            Some(self.per_blog[uri])
        } else {
            None
        }
    }

    /// A publication's override, empty if it has none.
    pub open spec fn blog_or_empty(self, uri: Seq<char>) -> SpecOverride {
        match self.blog(uri) {
            Some(o) => o,
            None => no_override(),
        }
    }

    /// The preferences with a publication's override set; an empty one is dropped.
    pub open spec fn with_blog(self, uri: Seq<char>, o: SpecOverride) -> SpecPrefs {
        if o.vacuous() {
            SpecPrefs { per_blog: self.per_blog.remove(uri), ..self }
        } else {
            SpecPrefs { per_blog: self.per_blog.insert(uri, o), ..self }
        }
    }

    /// The theme's name where a publication is open: its override's, or the global one.
    pub open spec fn theme_for(self, uri: Option<Seq<char>>) -> Seq<char> {
        match uri {
            Some(u) => match self.blog_or_empty(u).theme {
                Some(name) => name,
                None => self.theme,
            },
            None => self.theme,
        }
    }

    /// The custom palette where a publication is open: its own, or the global one.
    pub open spec fn custom_for(self, uri: Option<Seq<char>>) -> SpecColors {
        match uri {
            Some(u) => match self.blog_or_empty(u).custom {
                Some(c) => c,
                None => self.custom,
            },
            None => self.custom,
        }
    }

    /// The palette where a publication is open. A theme's name that is no preset stands for
    /// the default palette.
    pub open spec fn colors_for(self, uri: Option<Seq<char>>) -> SpecColors {
        let name = self.theme_for(uri);
        if name == "custom"@ {
            self.custom_for(uri)
        } else {
            match preset_colors(name) {
                Some(c) => c,
                None => modern_dark_colors(),
            }
        }
    }

    /// The layout where a publication is open: its override's, or the global one.
    pub open spec fn layout_for(self, uri: Option<Seq<char>>) -> LayoutKind {
        match uri {
            Some(u) => match self.blog_or_empty(u).layout {
                Some(l) => l,
                None => self.layout,
            },
            None => self.layout,
        }
    }

    /// No override is empty.
    pub open spec fn tidy(self) -> bool {
        forall|k: Seq<char>|
            self.per_blog.dom().contains(k) ==> !(#[trigger] self.per_blog[k]).vacuous()
    }
}

/// An override that was set is the one that is found, whatever stood there; setting one
/// publication's leaves the others alone; and an empty one is not kept.
pub proof fn law_overrides_read_back(p: SpecPrefs, uri: Seq<char>, other: Seq<char>, o: SpecOverride)
    requires
        other != uri,
    ensures
        p.with_blog(uri, o).blog_or_empty(uri) == o,
        p.with_blog(uri, o).blog(uri) is Some <==> !o.vacuous(),
        p.with_blog(uri, o).blog(other) == p.blog(other),
        p.tidy() ==> p.with_blog(uri, o).tidy(),
{
}

/// What a publication overrides wins over the global setting, and only there.
pub proof fn law_override_beats_global(p: SpecPrefs, uri: Seq<char>, name: Seq<char>, l: LayoutKind)
    ensures
        ({
            let q = p.with_blog(
                uri,
                SpecOverride { theme: Some(name), layout: Some(l), custom: None },
            );
            &&& q.theme_for(Some(uri)) == name
            &&& q.layout_for(Some(uri)) == l
            &&& q.theme_for(None) == p.theme
            &&& q.layout_for(None) == p.layout
        }),
{
}

/// A publication's own palette is shown there and nowhere else: neither another publication
/// nor the global setting takes it over, and changing the global palette leaves it alone.
pub proof fn law_each_blog_owns_its_palette(
    p: SpecPrefs,
    uri: Seq<char>,
    other: Seq<char>,
    own: SpecColors,
    global: SpecColors,
)
    requires
        other != uri,
    ensures
        ({
            let o = SpecOverride {
                theme: Some("custom"@),
                custom: Some(own),
                ..p.blog_or_empty(uri)
            };
            let q = p.with_blog(uri, o);
            &&& q.colors_for(Some(uri)) == own
            &&& q.colors_for(Some(other)) == p.colors_for(Some(other))
            &&& q.colors_for(None) == p.colors_for(None)
            &&& q.custom == p.custom
            &&& (SpecPrefs { custom: global, theme: "custom"@, ..q }).colors_for(Some(uri)) == own
        }),
{
}

fn copy_overrides(t: &Table<BlogOverride>) -> (r: Table<BlogOverride>)
    ensures
        overrides_map(r@) == overrides_map(t@),
{
    let n: usize = t.len();
    let mut out: Table<BlogOverride> = Table::new();
    let mut i: usize = 0;
    while i < n
        invariant
            n == t.order().len(),
            i <= n,
            forall|k: Seq<char>| #[trigger] t@.dom().contains(k) <==> t.order().contains(k),
            forall|k: Seq<char>|
                #[trigger] out@.dom().contains(k) <==> t.order().take(i as int).contains(k),
            forall|k: Seq<char>| #[trigger] out@.dom().contains(k) ==> out@[k]@ == t@[k]@,
        decreases n - i,
    {
        let ghost before = out@;
        let ghost key = t.order()[i as int];
        out.insert(t.key_at(i).clone(), t.value_at(i).clone());
        proof {
            let a = t.order().take(i as int);
            let b = t.order().take(i + 1);
            assert(b =~= a.push(key));
            assert forall|k: Seq<char>| #[trigger] out@.dom().contains(k) <==> b.contains(k) by {
                if b.contains(k) {
                    let j = choose|j: int| 0 <= j < b.len() && b[j] == k;
                    if j < i {
                        assert(a[j] == k);
                    }
                }
                if a.contains(k) {
                    let j = choose|j: int| 0 <= j < a.len() && a[j] == k;
                    assert(b[j] == k);
                }
                assert(b[i as int] == key);
                assert(before.dom().contains(k) <==> a.contains(k));
            }
            assert forall|k: Seq<char>| #[trigger] out@.dom().contains(k) implies out@[k]@
                == t@[k]@ by {
                if k != key {
                    assert(before.dom().contains(k));
                }
            }
        }
        i = i + 1;
    }
    proof {
        assert(t.order().take(n as int) =~= t.order());
        assert(overrides_map(out@) =~= overrides_map(t@)) by {
            assert forall|k: Seq<char>| overrides_map(out@).dom().contains(k)
                <==> overrides_map(t@).dom().contains(k) by {
                assert(out@.dom().contains(k) <==> t@.dom().contains(k));
            }
            assert forall|k: Seq<char>| overrides_map(out@).dom().contains(k) implies overrides_map(
                out@,
            )[k] == overrides_map(t@)[k] by {
                assert(out@.dom().contains(k));
                assert(t@.dom().contains(k));
            }
        }
    }
    out
}

impl Clone for Prefs {
    fn clone(&self) -> (r: Self)
        ensures
            r@ == self@,
    {
        Prefs {
            theme: self.theme.clone(),
            layout: self.layout,
            sidebar_width: self.sidebar_width,
            posts_width: self.posts_width,
            onboarded: self.onboarded,
            custom: self.custom.clone(),
            per_blog: copy_overrides(&self.per_blog),
        }
    }
}

impl Default for Prefs {
    fn default() -> (r: Self)
        ensures
            r@ == default_prefs(),
    {
        let r = Prefs {
            theme: owned("modern-dark"),
            layout: LayoutKind::TwoPane,
            sidebar_width: 30,
            posts_width: 36,
            onboarded: false,
            custom: ThemeColors::modern_dark(),
            per_blog: Table::new(),
        };
        assert(overrides_map(r.per_blog@) =~= Map::empty());
        r
    }
}

impl Prefs {
    /// The override for a publication, if any.
    pub fn blog(&self, pub_uri: &str) -> (r: Option<&BlogOverride>)
        ensures
            match r {
                Some(o) => self@.blog(pub_uri@) == Some(o@),
                None => self@.blog(pub_uri@) is None,
            },
    {
        self.per_blog.get(pub_uri)
    }

    /// Set a publication's override to what `f` makes of the one it has, or drop it
    /// where that is empty.
    pub fn edit_blog<F: FnOnce(&mut BlogOverride)>(&mut self, pub_uri: &str, f: F)
        requires
            forall|o: &mut BlogOverride| call_requires(f, (o,)),
        ensures
            exists|o: &mut BlogOverride|
                #![trigger call_ensures(f, (o,), ())]
                {
                    &&& call_ensures(f, (o,), ())
                    &&& (*o)@ == old(self)@.blog_or_empty(pub_uri@)
                    &&& final(self)@ == old(self)@.with_blog(pub_uri@, (*final(o))@)
                },
    {
        let mut ov = match self.per_blog.get(pub_uri) {
            Some(o) => o.clone(),
            None => BlogOverride::default(),
        };
        f(&mut ov);
        self.put_blog(pub_uri, ov);
    }

    /// Set a publication's override, or drop it where it is empty.
    pub(crate) fn put_blog(&mut self, pub_uri: &str, ov: BlogOverride)
        ensures
            final(self)@ == old(self)@.with_blog(pub_uri@, ov@),
    {
        let ghost before = self.per_blog@;
        if ov.is_empty() {
            let _ = self.per_blog.remove(pub_uri);
            assert(overrides_map(self.per_blog@) =~= overrides_map(before).remove(pub_uri@));
        } else {
            let ghost v = ov@;
            self.per_blog.insert(owned(pub_uri), ov);
            assert(overrides_map(self.per_blog@) =~= overrides_map(before).insert(pub_uri@, v));
        }
    }
}

} // verus!
