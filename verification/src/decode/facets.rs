//! The byte-range richtext engine that the block formats share.
//!
//! A text block annotates its `plaintext` with facets,
//! `{ index: { byteStart, byteEnd }, features: [{ $type, … }] }`. A feature's
//! meaning is the `#suffix` of its `$type`, whatever the namespace.
use vstd::prelude::*;

use crate::json::{array_view, lemma_array_view, Json, SpecJson};
use crate::model::{
    inline_view, inlines_view, lemma_inlines_push, lemma_inlines_view, one_inline, Inline,
    SpecInline,
};
use crate::text::{
    after_last, at_boundary, byte_count, byte_len, byte_slice, join2, last_segment,
    lemma_byte_slice_ends, lemma_byte_slices_join, owned, same, slice_bytes,
};

verus! {

/// A resolved inline style.
#[derive(Debug, PartialEq)]
pub enum FacetKind {
    Strong,
    Emphasis,
    Strike,
    Underline,
    Highlight,
    Code,
    Link(String),
}

/// [`FacetKind`] over character sequences.
pub enum SpecFacetKind {
    Strong,
    Emphasis,
    Strike,
    Underline,
    Highlight,
    Code,
    Link(Seq<char>),
}

impl View for FacetKind {
    type V = SpecFacetKind;

    open spec fn view(&self) -> SpecFacetKind {
        match *self {
            FacetKind::Strong => SpecFacetKind::Strong,
            FacetKind::Emphasis => SpecFacetKind::Emphasis,
            FacetKind::Strike => SpecFacetKind::Strike,
            FacetKind::Underline => SpecFacetKind::Underline,
            FacetKind::Highlight => SpecFacetKind::Highlight,
            FacetKind::Code => SpecFacetKind::Code,
            FacetKind::Link(h) => SpecFacetKind::Link(h@),
        }
    }
}

/// An optional style by its view.
pub open spec fn opt_kind_view(o: Option<FacetKind>) -> Option<SpecFacetKind> {
    match o {
        Some(k) => Some(k@),
        None => None,
    }
}

/// Styles by their views.
pub open spec fn kinds_view(s: Seq<FacetKind>) -> Seq<SpecFacetKind> {
    s.map_values(|k: FacetKind| k@)
}

/// One byte range and the styles on it, the first outermost.
#[derive(Debug, PartialEq)]
pub struct Facet {
    pub start: usize,
    pub end: usize,
    pub kinds: Vec<FacetKind>,
}

/// [`Facet`] over sequences.
pub struct SpecFacet {
    pub start: usize,
    pub end: usize,
    pub kinds: Seq<SpecFacetKind>,
}

impl View for Facet {
    type V = SpecFacet;

    open spec fn view(&self) -> SpecFacet {
        SpecFacet { start: self.start, end: self.end, kinds: kinds_view(self.kinds@) }
    }
}

/// An optional facet by its view.
pub open spec fn opt_facet_view(o: Option<Facet>) -> Option<SpecFacet> {
    match o {
        Some(f) => Some(f@),
        None => None,
    }
}

/// Facets by their views.
pub open spec fn facets_view(s: Seq<Facet>) -> Seq<SpecFacet> {
    s.map_values(|f: Facet| f@)
}

// --- Reading facets ---------------------------------------------------------------

/// The style that a feature asks for, by the suffix of its `$type`; a mention
/// links to the profile of whoever is mentioned.
pub open spec fn kind_of(feature: SpecJson) -> Option<SpecFacetKind> {
    match feature.get_str("$type"@) {
        None => None,
        Some(ty) => {
            let name = after_last(ty, '#');
            if name == "bold"@ {
                Some(SpecFacetKind::Strong)
            } else if name == "italic"@ {
                Some(SpecFacetKind::Emphasis)
            } else if name == "strikethrough"@ || name == "strike"@ {
                Some(SpecFacetKind::Strike)
            } else if name == "underline"@ {
                Some(SpecFacetKind::Underline)
            } else if name == "highlight"@ {
                Some(SpecFacetKind::Highlight)
            } else if name == "code"@ {
                Some(SpecFacetKind::Code)
            } else if name == "link"@ || name == "webMention"@ {
                match feature.get_str("uri"@) {
                    Some(uri) => Some(SpecFacetKind::Link(uri)),
                    None => None,
                }
            } else if name == "mention"@ {
                match feature.get_str("did"@) {
                    Some(did) => Some(SpecFacetKind::Link("https://bsky.app/profile/"@ + did)),
                    None => None,
                }
            } else {
                None
            }
        },
    }
}

/// Classify a feature by the suffix of its `$type`; an unknown one is `None` and
/// leaves its range plain.
pub fn default_facet_kind(feature: &Json) -> (r: Option<FacetKind>)
    ensures
        opt_kind_view(r) == kind_of(feature@),
{
    let ty = match feature.get_str("$type") {
        Some(ty) => ty,
        None => return None,
    };
    let name = last_segment(ty, '#');
    let name = name.as_str();
    if same(name, "bold") {
        Some(FacetKind::Strong)
    } else if same(name, "italic") {
        Some(FacetKind::Emphasis)
    } else if same(name, "strikethrough") || same(name, "strike") {
        Some(FacetKind::Strike)
    } else if same(name, "underline") {
        Some(FacetKind::Underline)
    } else if same(name, "highlight") {
        Some(FacetKind::Highlight)
    } else if same(name, "code") {
        Some(FacetKind::Code)
    } else if same(name, "link") || same(name, "webMention") {
        match feature.get_str("uri") {
            Some(uri) => Some(FacetKind::Link(owned(uri))),
            None => None,
        }
    } else if same(name, "mention") {
        match feature.get_str("did") {
            Some(did) => Some(FacetKind::Link(join2("https://bsky.app/profile/", did))),
            None => None,
        }
    } else {
        None
    }
}

/// The styles that `classify` finds among the first `n` of `features`.
pub open spec fn kinds_among(
    features: Seq<SpecJson>,
    classify: spec_fn(SpecJson) -> Option<SpecFacetKind>,
    n: int,
) -> Seq<SpecFacetKind>
    decreases n,
{
    if n <= 0 {
        Seq::empty()
    } else {
        let rest = kinds_among(features, classify, n - 1);
        match classify(features[n - 1]) {
            Some(k) => rest.push(k),
            None => rest,
        }
    }
}

/// The facet that `f` describes: both offsets given, and a style found.
pub open spec fn facet_of(
    f: SpecJson,
    classify: spec_fn(SpecJson) -> Option<SpecFacetKind>,
) -> Option<SpecFacet> {
    match f.get("index"@) {
        None => None,
        Some(index) => match (index.get_u64("byteStart"@), index.get_u64("byteEnd"@)) {
            (Some(start), Some(end)) => {
                let kinds = match f.get_array("features"@) {
                    Some(features) => kinds_among(features, classify, features.len() as int),
                    None => Seq::empty(),
                };
                if kinds.len() == 0 {
                    None
                } else {
                    Some(SpecFacet { start: start as usize, end: end as usize, kinds })
                }
            },
            _ => None,
        },
    }
}

/// The facets that the first `n` of `facets` describe.
pub open spec fn facets_among(
    facets: Seq<SpecJson>,
    classify: spec_fn(SpecJson) -> Option<SpecFacetKind>,
    n: int,
) -> Seq<SpecFacet>
    decreases n,
{
    if n <= 0 {
        Seq::empty()
    } else {
        let rest = facets_among(facets, classify, n - 1);
        match facet_of(facets[n - 1], classify) {
            Some(f) => rest.push(f),
            None => rest,
        }
    }
}

/// The facets of a text block.
pub open spec fn facets_of(
    block: SpecJson,
    classify: spec_fn(SpecJson) -> Option<SpecFacetKind>,
) -> Seq<SpecFacet> {
    match block.get_array("facets"@) {
        Some(facets) => facets_among(facets, classify, facets.len() as int),
        None => Seq::empty(),
    }
}

/// The executable `classify` computes the function `f`.
pub open spec fn computes<F: Fn(&Json) -> Option<FacetKind>>(
    classify: F,
    f: spec_fn(SpecJson) -> Option<SpecFacetKind>,
) -> bool {
    forall|j: &Json, k: Option<FacetKind>|
        #[trigger] classify.ensures((j,), k) ==> opt_kind_view(k) == f(j@)
}

fn feature_kinds<F: Fn(&Json) -> Option<FacetKind>>(features: &Vec<Json>, classify: &F) -> (r: Vec<
    FacetKind,
>)
    requires
        forall|j: &Json| classify.requires((j,)),
    ensures
        forall|f: spec_fn(SpecJson) -> Option<SpecFacetKind>|
            computes(*classify, f) ==> kinds_view(r@) == kinds_among(
                array_view(features@),
                f,
                features@.len() as int,
            ),
{
    broadcast use lemma_array_view;

    let mut out: Vec<FacetKind> = Vec::new();
    assert(kinds_view(out@) =~= Seq::empty());
    let mut i: usize = 0;
    while i < features.len()
        invariant
            i <= features@.len(),
            forall|j: &Json| classify.requires((j,)),
            forall|f: spec_fn(SpecJson) -> Option<SpecFacetKind>|
                computes(*classify, f) ==> kinds_view(out@) == #[trigger] kinds_among(
                    array_view(features@),
                    f,
                    i as int,
                ),
        decreases features@.len() - i,
    {
        broadcast use lemma_array_view;

        let ghost before = out@;
        let kind = classify(&features[i]);
        let ghost found = opt_kind_view(kind);
        if let Some(k) = kind {
            out.push(k);
            assert(kinds_view(out@) =~= kinds_view(before).push(k@));
        }
        assert forall|f: spec_fn(SpecJson) -> Option<SpecFacetKind>| computes(
            *classify,
            f,
        ) implies kinds_view(out@) == #[trigger] kinds_among(
            array_view(features@),
            f,
            i + 1,
        ) by {
            assert(kinds_view(before) == kinds_among(array_view(features@), f, i as int));
            assert(found == f(features@[i as int]@));
        }
        i = i + 1;
    }
    out
}

/// Read the `facets` of a text block, each feature by `classify`. Facets without a
/// recognised feature are dropped.
pub fn parse_facets<F: Fn(&Json) -> Option<FacetKind>>(block: &Json, classify: F) -> (r: Vec<Facet>)
    requires
        forall|j: &Json| classify.requires((j,)),
    ensures
        forall|f: spec_fn(SpecJson) -> Option<SpecFacetKind>|
            computes(classify, f) ==> facets_view(r@) == #[trigger] facets_of(block@, f),
        forall|i: int| 0 <= i < r@.len() ==> (#[trigger] r@[i]).kinds@.len() > 0,
{
    broadcast use lemma_array_view;

    let mut out: Vec<Facet> = Vec::new();
    assert(facets_view(out@) =~= Seq::empty());
    let facets = match block.get_array("facets") {
        Some(facets) => facets,
        None => return out,
    };
    let mut i: usize = 0;
    while i < facets.len()
        invariant
            i <= facets@.len(),
            forall|j: &Json| classify.requires((j,)),
            forall|f: spec_fn(SpecJson) -> Option<SpecFacetKind>|
                computes(classify, f) ==> facets_view(out@) == #[trigger] facets_among(
                    array_view(facets@),
                    f,
                    i as int,
                ),
            forall|k: int| 0 <= k < out@.len() ==> (#[trigger] out@[k]).kinds@.len() > 0,
        decreases facets@.len() - i,
    {
        broadcast use lemma_array_view;

        let ghost before = out@;
        let facet = read_facet(&facets[i], &classify);
        let ghost found = opt_facet_view(facet);
        if let Some(x) = facet {
            out.push(x);
            assert(facets_view(out@) =~= facets_view(before).push(x@));
        }
        assert forall|f: spec_fn(SpecJson) -> Option<SpecFacetKind>| computes(
            classify,
            f,
        ) implies facets_view(out@) == #[trigger] facets_among(
            array_view(facets@),
            f,
            i + 1,
        ) by {
            assert(facets_view(before) == facets_among(array_view(facets@), f, i as int));
            assert(found == facet_of(facets@[i as int]@, f));
        }
        i = i + 1;
    }
    out
}

fn read_facet<F: Fn(&Json) -> Option<FacetKind>>(f: &Json, classify: &F) -> (r: Option<Facet>)
    requires
        forall|j: &Json| classify.requires((j,)),
    ensures
        forall|g: spec_fn(SpecJson) -> Option<SpecFacetKind>|
            computes(*classify, g) ==> opt_facet_view(r) == #[trigger] facet_of(f@, g),
        r matches Some(x) ==> x.kinds@.len() > 0,
{
    let index = match f.get("index") {
        Some(index) => index,
        None => return None,
    };
    let (start, end): (u64, u64) = match (index.get_u64("byteStart"), index.get_u64("byteEnd")) {
        (Some(start), Some(end)) => (start, end),
        _ => return None,
    };
    let kinds = match f.get_array("features") {
        Some(features) => feature_kinds(features, classify),
        None => Vec::new(),
    };
    assert forall|g: spec_fn(SpecJson) -> Option<SpecFacetKind>| computes(
        *classify,
        g,
    ) implies kinds_view(kinds@) == (match #[trigger] f@.get_array("features"@) {
        Some(features) => kinds_among(features, g, features.len() as int),
        None => Seq::empty(),
    }) && (#[trigger] facet_of(f@, g) == facet_of(f@, g)) by {
        if f@.get_array("features"@) is None {
            assert(kinds_view(kinds@) =~= Seq::empty());
        } else {
            broadcast use lemma_array_view;

        }
    }
    assert(kinds_view(kinds@).len() == kinds@.len());
    if kinds.len() == 0 {
        None
    } else {
        Some(Facet { start: start as usize, end: end as usize, kinds })
    }
}

// --- Applying facets --------------------------------------------------------------

/// `s`, which is in order of start, with `f` put in: after every facet that does not
/// start later.
pub open spec fn insert_by_start(s: Seq<SpecFacet>, f: SpecFacet) -> Seq<SpecFacet>
    decreases s.len(),
{
    if s.len() == 0 || s.last().start <= f.start {
        s.push(f)
    } else {
        insert_by_start(s.drop_last(), f).push(s.last())
    }
}

/// Facets in order of their start; those that start together keep their order.
pub open spec fn sorted_by_start(s: Seq<SpecFacet>) -> Seq<SpecFacet>
    decreases s.len(),
{
    if s.len() == 0 {
        Seq::empty()
    } else {
        insert_by_start(sorted_by_start(s.drop_last()), s.last())
    }
}

/// In order of start.
pub open spec fn starts_ascend(s: Seq<SpecFacet>) -> bool {
    forall|i: int, j: int| 0 <= i <= j < s.len() ==> s[i].start <= s[j].start
}

proof fn lemma_insert_by_start(s: Seq<SpecFacet>, f: SpecFacet)
    requires
        starts_ascend(s),
    ensures
        starts_ascend(insert_by_start(s, f)),
        insert_by_start(s, f).to_multiset() == s.push(f).to_multiset(),
        insert_by_start(s, f).len() == s.len() + 1,
        s.len() > 0 ==> insert_by_start(s, f).last().start == (if s.last().start <= f.start {
            f.start
        } else {
            s.last().start
        }),
    decreases s.len(),
{
    broadcast use vstd::seq_lib::group_to_multiset_ensures;

    if s.len() == 0 || s.last().start <= f.start {
    } else {
        let head = s.drop_last();
        lemma_insert_by_start(head, f);
        let r = insert_by_start(head, f);
        assert(s =~= head.push(s.last()));
        assert forall|i: int, j: int| 0 <= i <= j < r.push(s.last()).len() implies r.push(
            s.last(),
        )[i].start <= r.push(s.last())[j].start by {
            if j == r.len() && i < j {
                assert(r[i].start <= r.last().start);
                assert(head.len() > 0 ==> head.last().start <= s.last().start);
                if head.len() == 0 {
                    assert(r =~= head.push(f));
                }
            }
        }
        assert(head.push(s.last()).push(f).to_multiset() =~= head.push(f).push(
            s.last(),
        ).to_multiset());
    }
}

/// Sorting puts the facets in order of start and neither adds nor loses one.
pub proof fn law_sorted_by_start(s: Seq<SpecFacet>)
    ensures
        starts_ascend(sorted_by_start(s)),
        sorted_by_start(s).to_multiset() == s.to_multiset(),
        sorted_by_start(s).len() == s.len(),
    decreases s.len(),
{
    broadcast use vstd::seq_lib::group_to_multiset_ensures;

    if s.len() > 0 {
        law_sorted_by_start(s.drop_last());
        lemma_insert_by_start(sorted_by_start(s.drop_last()), s.last());
        assert(s =~= s.drop_last().push(s.last()));
    } else {
        assert(s =~= Seq::empty());
    }
}

/// A facet can be applied once the text before `cursor` is done: it starts there or
/// later, is not inverted, ends within the text, and both its ends fall between
/// characters.
pub open spec fn applies(text: Seq<char>, f: SpecFacet, cursor: int) -> bool {
    &&& cursor <= f.start <= f.end <= byte_len(text)
    &&& at_boundary(text, f.start as int)
    &&& at_boundary(text, f.end as int)
}

/// The text of an inline without its styles.
pub open spec fn flat_inline(x: SpecInline) -> Seq<char>
    decreases x,
{
    match x {
        SpecInline::Text(t) => t,
        SpecInline::Code(t) => t,
        SpecInline::Strong(c) => flat_text(c),
        SpecInline::Emphasis(c) => flat_text(c),
        SpecInline::Strike(c) => flat_text(c),
        SpecInline::Underline(c) => flat_text(c),
        SpecInline::Highlight(c) => flat_text(c),
        SpecInline::Link { href, content } => flat_text(content),
        SpecInline::LineBreak => seq!['\n'],
        SpecInline::Image(_) => Seq::empty(),
    }
}

/// The text of inlines without their styles.
pub open spec fn flat_text(s: Seq<SpecInline>) -> Seq<char>
    decreases s,
{
    if s.len() == 0 {
        Seq::empty()
    } else {
        flat_text(s.drop_last()) + flat_inline(s.last())
    }
}

/// `content` in one style; code keeps only the text.
pub open spec fn styled(kind: SpecFacetKind, content: Seq<SpecInline>) -> SpecInline {
    match kind {
        SpecFacetKind::Strong => SpecInline::Strong(content),
        SpecFacetKind::Emphasis => SpecInline::Emphasis(content),
        SpecFacetKind::Strike => SpecInline::Strike(content),
        SpecFacetKind::Underline => SpecInline::Underline(content),
        SpecFacetKind::Highlight => SpecInline::Highlight(content),
        SpecFacetKind::Code => SpecInline::Code(flat_text(content)),
        SpecFacetKind::Link(href) => SpecInline::Link { href, content },
    }
}

/// `text` in the styles `kinds`, the first outermost.
pub open spec fn wrapped(text: Seq<char>, kinds: Seq<SpecFacetKind>) -> SpecInline
    decreases kinds.len(),
{
    if kinds.len() == 0 {
        SpecInline::Text(text)
    } else {
        styled(kinds[0], seq![wrapped(text, kinds.subrange(1, kinds.len() as int))])
    }
}

/// The inlines for `text` from byte `cursor` on, given the facets from `i` on in
/// order of start.
pub open spec fn runs(text: Seq<char>, ordered: Seq<SpecFacet>, i: int, cursor: int) -> Seq<
    SpecInline,
>
    decreases ordered.len() - i,
{
    if i >= ordered.len() {
        if cursor < byte_len(text) {
            seq![SpecInline::Text(byte_slice(text, cursor, byte_len(text)))]
        } else {
            Seq::empty()
        }
    } else if !applies(text, ordered[i], cursor) {
        runs(text, ordered, i + 1, cursor)
    } else {
        let f = ordered[i];
        let before = if f.start > cursor {
            seq![SpecInline::Text(byte_slice(text, cursor, f.start as int))]
        } else {
            Seq::empty()
        };
        before.push(wrapped(byte_slice(text, f.start as int, f.end as int), f.kinds)) + runs(
            text,
            ordered,
            i + 1,
            f.end as int,
        )
    }
}

/// `text` split into inlines by its facets, in order of their start; a facet that
/// cannot be applied where its turn comes is skipped.
pub open spec fn faceted(text: Seq<char>, facets: Seq<SpecFacet>) -> Seq<SpecInline> {
    runs(text, sorted_by_start(facets), 0, 0)
}

/// The inlines of a text block: its `plaintext` under its facets.
pub open spec fn text_block(block: SpecJson) -> Seq<SpecInline> {
    faceted(
        block.get_str_or("plaintext"@, ""@),
        facets_of(block, |j: SpecJson| kind_of(j)),
    )
}

proof fn lemma_flat_push(s: Seq<SpecInline>, x: SpecInline)
    ensures
        flat_text(s.push(x)) == flat_text(s) + flat_inline(x),
{
    assert(s.push(x).drop_last() =~= s);
}

proof fn lemma_flat_concat(a: Seq<SpecInline>, b: Seq<SpecInline>)
    ensures
        flat_text(a + b) == flat_text(a) + flat_text(b),
    decreases b.len(),
{
    if b.len() == 0 {
        assert(a + b =~= a);
        assert(flat_text(a) + Seq::<char>::empty() =~= flat_text(a));
    } else {
        lemma_flat_concat(a, b.drop_last());
        assert((a + b).drop_last() =~= a + b.drop_last());
        assert(flat_text(a) + (flat_text(b.drop_last()) + flat_inline(b.last())) =~= (flat_text(a)
            + flat_text(b.drop_last())) + flat_inline(b.last()));
    }
}

pub proof fn lemma_flat_one(x: SpecInline)
    ensures
        flat_text(seq![x]) == flat_inline(x),
{
    assert(seq![x].drop_last() =~= Seq::<SpecInline>::empty());
    assert(flat_text(Seq::<SpecInline>::empty()) =~= Seq::empty());
    assert(Seq::<char>::empty() + flat_inline(x) =~= flat_inline(x));
}

proof fn lemma_flat_wrapped(text: Seq<char>, kinds: Seq<SpecFacetKind>)
    ensures
        flat_inline(wrapped(text, kinds)) == text,
    decreases kinds.len(),
{
    if kinds.len() > 0 {
        let inner = wrapped(text, kinds.subrange(1, kinds.len() as int));
        lemma_flat_wrapped(text, kinds.subrange(1, kinds.len() as int));
        lemma_flat_one(inner);
    }
}

proof fn lemma_runs_flat(text: Seq<char>, ordered: Seq<SpecFacet>, i: int, cursor: int)
    requires
        0 <= i,
        0 <= cursor <= byte_len(text),
        at_boundary(text, cursor),
    ensures
        flat_text(runs(text, ordered, i, cursor)) == byte_slice(text, cursor, byte_len(text)),
    decreases ordered.len() - i,
{
    let end = byte_len(text);
    lemma_byte_slice_ends(text, cursor);
    if i >= ordered.len() {
        if cursor < end {
            lemma_flat_one(SpecInline::Text(byte_slice(text, cursor, end)));
        }
    } else if !applies(text, ordered[i], cursor) {
        lemma_runs_flat(text, ordered, i + 1, cursor);
    } else {
        let f = ordered[i];
        let a = f.start as int;
        let b = f.end as int;
        lemma_runs_flat(text, ordered, i + 1, b);
        let styled_run = wrapped(byte_slice(text, a, b), f.kinds);
        lemma_flat_wrapped(byte_slice(text, a, b), f.kinds);
        let before = if a > cursor {
            seq![SpecInline::Text(byte_slice(text, cursor, a))]
        } else {
            Seq::empty()
        };
        if a > cursor {
            lemma_flat_one(SpecInline::Text(byte_slice(text, cursor, a)));
        }
        assert(flat_text(before) =~= byte_slice(text, cursor, a));
        lemma_flat_push(before, styled_run);
        lemma_flat_concat(before.push(styled_run), runs(text, ordered, i + 1, b));
        lemma_byte_slices_join(text, cursor, a, b);
        lemma_byte_slices_join(text, cursor, b, end);
    }
}

/// Styling never changes the words: whatever the facets, the text of the inlines is
/// the text that was annotated.
pub proof fn law_facets_keep_the_text(text: Seq<char>, facets: Seq<SpecFacet>)
    ensures
        flat_text(faceted(text, facets)) == text,
{
    lemma_byte_slice_ends(text, 0);
    lemma_runs_flat(text, sorted_by_start(facets), 0, 0);
}

/// Facets by reference, by their views.
spec fn refs_view(s: Seq<&Facet>) -> Seq<SpecFacet> {
    s.map_values(|f: &Facet| f@)
}

proof fn lemma_insert_at(s: Seq<SpecFacet>, f: SpecFacet, p: int)
    requires
        0 <= p <= s.len(),
        p > 0 ==> s[p - 1].start <= f.start,
        forall|k: int| p <= k < s.len() ==> (#[trigger] s[k]).start > f.start,
    ensures
        insert_by_start(s, f) == s.insert(p, f),
    decreases s.len(),
{
    if p == s.len() {
        assert(s.insert(p, f) =~= s.push(f));
    } else {
        assert(s[s.len() - 1].start > f.start);
        lemma_insert_at(s.drop_last(), f, p);
        assert(s.drop_last().insert(p, f).push(s.last()) =~= s.insert(p, f));
    }
}

/// References to `facets` in order of start.
fn sort_by_start(facets: &Vec<Facet>) -> (r: Vec<&Facet>)
    ensures
        refs_view(r@) == sorted_by_start(facets_view(facets@)),
{
    let ghost all = facets_view(facets@);
    let mut out: Vec<&Facet> = Vec::new();
    let mut i: usize = 0;
    assert(refs_view(out@) =~= Seq::empty());
    assert(all.take(0) =~= Seq::empty());
    while i < facets.len()
        invariant
            i <= facets@.len(),
            all == facets_view(facets@),
            refs_view(out@) == sorted_by_start(all.take(i as int)),
        decreases facets@.len() - i,
    {
        let f = &facets[i];
        let ghost before = refs_view(out@);
        let ghost had = out@;
        let mut p: usize = out.len();
        while p > 0 && out[p - 1].start > f.start
            invariant
                p <= out@.len(),
                out@ == had,
                before == refs_view(out@),
                forall|k: int| p <= k < out@.len() ==> (#[trigger] out@[k]).start > f.start,
            decreases p,
        {
            p = p - 1;
        }
        out.insert(p, f);
        proof {
            assert forall|k: int| p <= k < before.len() implies (#[trigger] before[k]).start
                > f.start by {
                assert(before[k] == had[k]@);
            }
            if p > 0 {
                assert(before[p - 1] == had[p - 1]@);
            }
            lemma_insert_at(before, f@, p as int);
            assert(refs_view(out@) =~= before.insert(p as int, f@));
            assert(all.take(i + 1).drop_last() =~= all.take(i as int));
            assert(all.take(i + 1).last() == f@);
        }
        i = i + 1;
    }
    assert(all.take(all.len() as int) =~= all);
    out
}

/// Split `text` into inlines, wrapping each facet's range in its styles. Inverted,
/// out-of-range and mid-character offsets are skipped, and so is a facet that
/// overlaps one before it.
pub fn apply_facets(text: &str, facets: &Vec<Facet>) -> (r: Vec<Inline>)
    ensures
        inlines_view(r@) == faceted(text@, facets_view(facets@)),
{
    broadcast use {lemma_inlines_push, lemma_inlines_view};

    let ordered = sort_by_start(facets);
    let ghost all = refs_view(ordered@);
    let mut out: Vec<Inline> = Vec::new();
    let mut cursor: usize = 0;
    let len: usize = byte_count(text);
    let mut i: usize = 0;
    proof {
        lemma_byte_slice_ends(text@, 0);
        assert(inlines_view(out@) + runs(text@, all, 0, 0) =~= runs(text@, all, 0, 0));
    }
    while i < ordered.len()
        invariant
            i <= ordered@.len(),
            all == refs_view(ordered@),
            len == byte_len(text@),
            cursor <= len,
            at_boundary(text@, cursor as int),
            inlines_view(out@) + runs(text@, all, i as int, cursor as int) == runs(
                text@,
                all,
                0,
                0,
            ),
        decreases ordered@.len() - i,
    {
        broadcast use {lemma_inlines_push, lemma_inlines_view};

        let f = ordered[i];
        assert(all[i as int] == f@);
        if f.start < cursor || f.start > f.end || f.end > len {
            i = i + 1;
            continue ;
        }
        if !text.is_char_boundary(f.start) || !text.is_char_boundary(f.end) {
            i = i + 1;
            continue ;
        }
        let ghost before = inlines_view(out@);
        let ghost rest = runs(text@, all, i + 1, f.end as int);
        if f.start > cursor {
            out.push(Inline::Text(slice_bytes(text, cursor, f.start)));
        }
        let ghost lead = inlines_view(out@);
        out.push(wrap(slice_bytes(text, f.start, f.end), &f.kinds));
        proof {
            let run = wrapped(byte_slice(text@, f.start as int, f.end as int), f@.kinds);
            assert(inlines_view(out@) == lead.push(run));
            if f.start > cursor {
                let plain = SpecInline::Text(byte_slice(text@, cursor as int, f.start as int));
                assert(lead == before.push(plain));
                assert(before.push(plain).push(run) + rest =~= before + (seq![plain].push(run)
                    + rest));
            } else {
                assert(before.push(run) + rest =~= before + (Seq::<SpecInline>::empty().push(run)
                    + rest));
            }
        }
        cursor = f.end;
        i = i + 1;
    }
    let ghost before = inlines_view(out@);
    if cursor < len {
        proof {
            lemma_byte_slice_ends(text@, 0);
        }
        out.push(Inline::Text(slice_bytes(text, cursor, len)));
        assert(inlines_view(out@) =~= before + seq![
            SpecInline::Text(byte_slice(text@, cursor as int, len as int)),
        ]);
    } else {
        assert(before + Seq::<SpecInline>::empty() =~= before);
    }
    out
}

/// `text` in the styles `kinds`, the first outermost.
fn wrap(text: String, kinds: &Vec<FacetKind>) -> (r: Inline)
    ensures
        inline_view(r) == wrapped(text@, kinds_view(kinds@)),
{
    let ghost all = kinds_view(kinds@);
    let ghost words = text@;
    let mut node = Inline::Text(text);
    let mut i: usize = kinds.len();
    assert(all.subrange(all.len() as int, all.len() as int) =~= Seq::empty());
    while i > 0
        invariant
            i <= kinds@.len(),
            all == kinds_view(kinds@),
            inline_view(node) == wrapped(words, all.subrange(i as int, all.len() as int)),
        decreases i,
    {
        i = i - 1;
        let content = one_inline(node);
        node = apply_kind(&kinds[i], content);
        assert(all.subrange(i as int, all.len() as int).subrange(1, all.len() - i)
            =~= all.subrange(i + 1, all.len() as int));
    }
    assert(all.subrange(0, all.len() as int) =~= all);
    node
}

fn apply_kind(kind: &FacetKind, content: Vec<Inline>) -> (r: Inline)
    ensures
        inline_view(r) == styled(kind@, inlines_view(content@)),
{
    match kind {
        FacetKind::Strong => Inline::Strong(content),
        FacetKind::Emphasis => Inline::Emphasis(content),
        FacetKind::Strike => Inline::Strike(content),
        FacetKind::Underline => Inline::Underline(content),
        FacetKind::Highlight => Inline::Highlight(content),
        FacetKind::Code => Inline::Code(flatten_text(&content)),
        FacetKind::Link(href) => Inline::Link { href: href.clone(), content },
    }
}

/// The text of inlines without their styles.
pub fn flatten_text(inlines: &Vec<Inline>) -> (r: String)
    ensures
        r@ == flat_text(inlines_view(inlines@)),
{
    let mut s = String::new();
    collect_text(inlines, &mut s);
    assert(Seq::<char>::empty() + flat_text(inlines_view(inlines@)) =~= flat_text(
        inlines_view(inlines@),
    ));
    s
}

fn collect_text(inlines: &Vec<Inline>, out: &mut String)
    ensures
        final(out)@ == old(out)@ + flat_text(inlines_view(inlines@)),
    decreases inlines,
{
    let ghost all = inlines_view(inlines@);
    let ghost start = out@;
    let mut i: usize = 0;
    assert(all.take(0) =~= Seq::empty());
    assert(start + Seq::<char>::empty() =~= start);
    while i < inlines.len()
        invariant
            i <= inlines@.len(),
            all == inlines_view(inlines@),
            out@ == start + flat_text(all.take(i as int)),
        decreases inlines@.len() - i,
    {
        broadcast use lemma_inlines_view;

        let x = &inlines[i];
        let ghost before = out@;
        collect_inline(x, out);
        proof {
            assert(all.take(i + 1).drop_last() =~= all.take(i as int));
            assert(out@ =~= start + flat_text(all.take(i + 1)));
        }
        i = i + 1;
    }
    proof {
        broadcast use lemma_inlines_view;

        assert(all.take(all.len() as int) =~= all);
    }
}

fn collect_inline(x: &Inline, out: &mut String)
    ensures
        final(out)@ == old(out)@ + flat_inline(inline_view(*x)),
    decreases x,
{
    match x {
        Inline::Text(t) => out.push_str(t.as_str()),
        Inline::Code(t) => out.push_str(t.as_str()),
        Inline::Strong(c) => collect_text(c, out),
        Inline::Emphasis(c) => collect_text(c, out),
        Inline::Strike(c) => collect_text(c, out),
        Inline::Underline(c) => collect_text(c, out),
        Inline::Highlight(c) => collect_text(c, out),
        Inline::Link { href: _, content } => collect_text(content, out),
        Inline::LineBreak => {
            out.push('\n');
            assert(old(out)@.push('\n') =~= old(out)@ + seq!['\n']);
        },
        Inline::Image(_) => {
            assert(old(out)@ + Seq::<char>::empty() =~= old(out)@);
        },
    }
}

/// The inlines of a text block: its `plaintext` under its facets.
pub fn text_block_inlines(block: &Json) -> (r: Vec<Inline>)
    ensures
        inlines_view(r@) == text_block(block@),
{
    let text = block.get_str_or("plaintext", "");
    let facets = parse_facets(block, default_facet_kind);
    proof {
        let f = |j: SpecJson| kind_of(j);
        assert(computes(default_facet_kind, f));
        assert(facets_view(facets@) == facets_of(block@, f));
    }
    apply_facets(text, &facets)
}

} // verus!
