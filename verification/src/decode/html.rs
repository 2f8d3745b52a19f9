//! WordPress, `org.wordpress.html`: `{ html: "<rendered HTML>" }`.
//!
//! `tl` parses the markup; the tree is unfolded node by node into plain values and
//! walked into blocks. A tag without a counterpart is replaced by its children.
use vstd::prelude::*;

use crate::decode::image::{url_image, url_image_of};
use crate::decode::{ContentDecoder, DecodeCtx};
use crate::json::{Json, SpecJson};
use crate::model::{
    blocks_view, group_model_push, inlines_view, items_view, lemma_inlines_concat,
    lemma_inlines_view, opt_view, Block, Image, Inline, PublishingPlatform, RichDoc, SpecBlock,
    SpecImage, SpecInline,
};
use crate::text::{
    byte_count, byte_len, char_of_code, chars_of, find_char, find_from, find_word_after,
    is_char_code, owned, same, slice_of, trim, trimmed, uint_of, uint_value, word_after,
};

verus! {

// --- The tree ---------------------------------------------------------------------

/// A node of an HTML document, with the attributes that the reader looks at.
#[derive(Debug, PartialEq)]
pub enum HtmlNode {
    Tag {
        name: String,
        href: Option<String>,
        src: Option<String>,
        alt: Option<String>,
        class: Option<String>,
        children: Vec<HtmlNode>,
    },
    Raw(String),
    Comment,
}

/// [`HtmlNode`] over sequences.
pub enum SpecHtml {
    Tag {
        name: Seq<char>,
        href: Option<Seq<char>>,
        src: Option<Seq<char>>,
        alt: Option<Seq<char>>,
        class: Option<Seq<char>>,
        children: Seq<SpecHtml>,
    },
    Raw(Seq<char>),
    Comment,
}

/// A node by its view.
pub open spec fn html_view(n: HtmlNode) -> SpecHtml
    decreases n,
{
    match n {
        HtmlNode::Tag { name, href, src, alt, class, children } => SpecHtml::Tag {
            name: name@,
            href: opt_view(href),
            src: opt_view(src),
            alt: opt_view(alt),
            class: opt_view(class),
            children: htmls_view(children@),
        },
        HtmlNode::Raw(t) => SpecHtml::Raw(t@),
        HtmlNode::Comment => SpecHtml::Comment,
    }
}

/// Nodes by their views.
pub open spec fn htmls_view(s: Seq<HtmlNode>) -> Seq<SpecHtml>
    decreases s,
{
    if s.len() == 0 {
        Seq::empty()
    } else {
        htmls_view(s.drop_last()).push(html_view(s.last()))
    }
}

/// `htmls_view` works element by element.
pub broadcast proof fn lemma_htmls_view(s: Seq<HtmlNode>)
    ensures
        (#[trigger] htmls_view(s)).len() == s.len(),
        forall|i: int| 0 <= i < s.len() ==> #[trigger] htmls_view(s)[i] == html_view(s[i]),
    decreases s.len(),
{
    if s.len() > 0 {
        lemma_htmls_view(s.drop_last());
    }
}

/// Appending a node appends its view.
pub broadcast proof fn lemma_htmls_push(s: Seq<HtmlNode>, x: HtmlNode)
    ensures
        #[trigger] htmls_view(s.push(x)) == htmls_view(s).push(html_view(x)),
{
    assert(s.push(x).drop_last() =~= s);
}

/// `tl::VDom`, a parsed document.
#[verifier::external_type_specification]
#[verifier::external_body]
pub struct ExVDom<'a>(tl::VDom<'a>);

/// `tl::NodeHandle`, the place of a node in its document.
#[verifier::external_type_specification]
#[verifier::external_body]
pub struct ExNodeHandle(tl::NodeHandle);

/// The tree that `tl::parse` makes of a text with default options, if it parses.
pub uninterp spec fn html_tree(html: Seq<char>) -> Option<Seq<SpecHtml>>;

/// The tree below a node of a `tl::VDom`.
pub uninterp spec fn dom_tree(dom: tl::VDom, h: tl::NodeHandle) -> SpecHtml;

/// The trees below nodes of a document.
pub open spec fn dom_trees(dom: tl::VDom, s: Seq<tl::NodeHandle>) -> Seq<SpecHtml> {
    s.map_values(|h: tl::NodeHandle| dom_tree(dom, h))
}

/// A node with its children still unopened.
pub enum HtmlShell {
    Tag {
        name: String,
        href: Option<String>,
        src: Option<String>,
        alt: Option<String>,
        class: Option<String>,
        children: Vec<tl::NodeHandle>,
    },
    Raw(String),
    Comment,
}

/// The tree that a shell stands for.
pub open spec fn shell_tree(dom: tl::VDom, n: HtmlShell) -> SpecHtml {
    match n {
        HtmlShell::Tag { name, href, src, alt, class, children } => SpecHtml::Tag {
            name: name@,
            href: opt_view(href),
            src: opt_view(src),
            alt: opt_view(alt),
            class: opt_view(class),
            children: dom_trees(dom, children@),
        },
        HtmlShell::Raw(t) => SpecHtml::Raw(t@),
        HtmlShell::Comment => SpecHtml::Comment,
    }
}

/// `tl::parse` with default options, and the handles of the topmost nodes. Whether it
/// parses and into what depends on the text alone.
#[verifier::external_body]
fn parse_dom<'a>(html: &'a str) -> (r: Option<(tl::VDom<'a>, Vec<tl::NodeHandle>)>)
    ensures
        match r {
            Some((dom, roots)) => html_tree(html@) == Some(dom_trees(dom, roots@)),
            None => html_tree(html@) is None,
        },
{
    let dom = tl::parse(html, tl::ParserOptions::default()).ok()?;
    let roots = dom.children().to_vec();
    Some((dom, roots))
}

/// The variants of `tl::Node` told apart, one level deep: a tag's name, four of its
/// attributes (`Attributes::get`) and the handles of its children, or a text.
#[verifier::external_body]
fn open_node(dom: &tl::VDom, h: tl::NodeHandle) -> (r: HtmlShell)
    ensures
        shell_tree(*dom, r) == dom_tree(*dom, h),
{
    match h.get(dom.parser()) {
        Some(tl::Node::Tag(t)) => {
            let text = |b: &tl::Bytes| b.as_utf8_str().into_owned();
            let attr = |key: &'static str| t.attributes().get(key).flatten().map(text);
            let children = t.children().top().as_slice().to_vec();
            let (name, href, src) = (text(t.name()), attr("href"), attr("src"));
            HtmlShell::Tag { name, href, src, alt: attr("alt"), class: attr("class"), children }
        },
        Some(tl::Node::Raw(b)) => HtmlShell::Raw(b.as_utf8_str().into_owned()),
        _ => HtmlShell::Comment,
    }
}

/// The plain tree below a node of a document.
fn node_of(dom: &tl::VDom, h: tl::NodeHandle) -> (r: HtmlNode)
    ensures
        html_view(r) == dom_tree(*dom, h),
    decreases dom_tree(*dom, h),
{
    let ghost whole = dom_tree(*dom, h);
    match open_node(dom, h) {
        HtmlShell::Tag { name, href, src, alt, class, children } => {
            let ghost trees = dom_trees(*dom, children@);
            let mut out: Vec<HtmlNode> = Vec::new();
            let mut i: usize = 0;
            assert(trees.take(0) =~= Seq::empty());
            while i < children.len()
                invariant
                    i <= children@.len(),
                    trees == dom_trees(*dom, children@),
                    whole == dom_tree(*dom, h),
                    whole is Tag,
                    whole->Tag_children == trees,
                    htmls_view(out@) == trees.take(i as int),
                decreases children@.len() - i,
            {
                broadcast use lemma_htmls_push;

                assert(trees[i as int] == dom_tree(*dom, children@[i as int]));
                assert(decreases_to!(whole => whole->Tag_children[i as int]));
                out.push(node_of(dom, children[i]));
                assert(trees.take(i as int).push(trees[i as int]) =~= trees.take(i + 1));
                i = i + 1;
            }
            assert(trees.take(trees.len() as int) =~= trees);
            HtmlNode::Tag { name, href, src, alt, class, children: out }
        },
        HtmlShell::Raw(t) => HtmlNode::Raw(t),
        HtmlShell::Comment => HtmlNode::Comment,
    }
}

/// The plain tree of a text, if it parses.
pub fn parse_html(html: &str) -> (r: Option<Vec<HtmlNode>>)
    ensures
        match r {
            Some(nodes) => html_tree(html@) == Some(htmls_view(nodes@)),
            None => html_tree(html@) is None,
        },
{
    let (dom, roots) = match parse_dom(html) {
        Some(parsed) => parsed,
        None => return None,
    };
    let ghost trees = dom_trees(dom, roots@);
    let mut out: Vec<HtmlNode> = Vec::new();
    let mut i: usize = 0;
    assert(trees.take(0) =~= Seq::empty());
    while i < roots.len()
        invariant
            i <= roots@.len(),
            trees == dom_trees(dom, roots@),
            htmls_view(out@) == trees.take(i as int),
        decreases roots@.len() - i,
    {
        broadcast use lemma_htmls_push;

        assert(trees[i as int] == dom_tree(dom, roots@[i as int]));
        out.push(node_of(&dom, roots[i]));
        assert(trees.take(i as int).push(trees[i as int]) =~= trees.take(i + 1));
        i = i + 1;
    }
    assert(trees.take(trees.len() as int) =~= trees);
    Some(out)
}

// --- Entities ---------------------------------------------------------------------

/// The character that a numeric entity names.
pub open spec fn numeric_entity(num: Seq<char>) -> Option<Seq<char>> {
    let code = if num.len() > 0 && (num[0] == 'x' || num[0] == 'X') {
        uint_value(num.subrange(1, num.len() as int), 16, 0xffff_ffff)
    } else {
        uint_value(num, 10, 0xffff_ffff)
    };
    match code {
        Some(n) => if is_char_code(n as u32) {
            Some(seq![(n as u32) as char])
        } else {
            None
        },
        None => None,
    }
}

/// What a named entity of the common set stands for.
pub open spec fn named_entity(name: Seq<char>) -> Option<Seq<char>> {
    if name == "amp"@ {
        Some("&"@)
    } else if name == "lt"@ {
        Some("<"@)
    } else if name == "gt"@ {
        Some(">"@)
    } else if name == "quot"@ {
        Some("\""@)
    } else if name == "apos"@ {
        Some("'"@)
    } else if name == "nbsp"@ {
        Some("\u{a0}"@)
    } else if name == "mdash"@ {
        Some("—"@)
    } else if name == "ndash"@ {
        Some("–"@)
    } else if name == "hellip"@ {
        Some("…"@)
    } else if name == "ldquo"@ {
        Some("“"@)
    } else if name == "rdquo"@ {
        Some("”"@)
    } else if name == "lsquo"@ {
        Some("‘"@)
    } else if name == "rsquo"@ {
        Some("’"@)
    } else if name == "copy"@ {
        Some("©"@)
    } else if name == "reg"@ {
        Some("®"@)
    } else if name == "trade"@ {
        Some("™"@)
    } else {
        None
    }
}

/// What the entity between `&` and `;` stands for. An empty one, one of more than
/// twelve bytes and one that holds another `&` are none.
pub open spec fn entity_text(entity: Seq<char>) -> Option<Seq<char>> {
    if entity.len() == 0 || byte_len(entity) > 12 || find_from(entity, 0, '&') is Some {
        None
    } else if entity[0] == '#' {
        numeric_entity(entity.subrange(1, entity.len() as int))
    } else {
        named_entity(entity)
    }
}

/// The entity that begins at `amp`: what it stands for, and where the text goes on.
pub open spec fn entity_at(s: Seq<char>, amp: int) -> Option<(Seq<char>, int)> {
    match find_from(s, amp + 1, ';') {
        Some(semi) => match entity_text(s.subrange(amp + 1, semi)) {
            Some(t) => Some((t, semi + 1)),
            None => None,
        },
        None => None,
    }
}

/// `s` from `i` on with its entities resolved; an `&` that begins none stays.
pub open spec fn decoded_from(s: Seq<char>, i: int) -> Seq<char>
    decreases s.len() - i,
{
    if i < 0 || i >= s.len() {
        Seq::empty()
    } else if s[i] != '&' {
        seq![s[i]] + decoded_from(s, i + 1)
    } else {
        match entity_at(s, i) {
            Some((t, next)) => if i < next <= s.len() {
                t + decoded_from(s, next)
            } else {
                Seq::empty()
            },
            None => seq!['&'] + decoded_from(s, i + 1),
        }
    }
}

/// `s` with its entities resolved.
pub open spec fn decoded_text(s: Seq<char>) -> Seq<char> {
    decoded_from(s, 0)
}

fn one_char(c: char) -> (r: String)
    ensures
        r@ == seq![c],
{
    let mut s = String::new();
    s.push(c);
    assert(Seq::<char>::empty().push(c) =~= seq![c]);
    s
}

fn resolve_numeric(v: &Vec<char>) -> (r: Option<String>)
    requires
        v@.len() > 0,
    ensures
        opt_view(r) == numeric_entity(v@.subrange(1, v@.len() as int)),
{
    let ghost num = v@.subrange(1, v@.len() as int);
    let hex = v.len() > 1 && (v[1] == 'x' || v[1] == 'X');
    assert(hex == (num.len() > 0 && (num[0] == 'x' || num[0] == 'X')));
    let code: Option<u64> = if hex {
        let n: Option<u64> = uint_of(v, 2, v.len(), 16, 0xffff_ffff);
        assert(num.subrange(1, num.len() as int) =~= v@.subrange(2, v@.len() as int));
        n
    } else {
        uint_of(v, 1, v.len(), 10, 0xffff_ffff)
    };
    match code {
        None => None,
        Some(n) => match char_of_code(n as u32) {
            Some(c) => {
                proof {
                    vstd::utf8::char_u32_cast(c, n as u32);
                }
                Some(one_char(c))
            },
            None => None,
        },
    }
}

fn resolve_named(name: &str) -> (r: Option<String>)
    ensures
        opt_view(r) == named_entity(name@),
{
    let text = if same(name, "amp") {
        "&"
    } else if same(name, "lt") {
        "<"
    } else if same(name, "gt") {
        ">"
    } else if same(name, "quot") {
        "\""
    } else if same(name, "apos") {
        "'"
    } else if same(name, "nbsp") {
        "\u{a0}"
    } else if same(name, "mdash") {
        "—"
    } else if same(name, "ndash") {
        "–"
    } else if same(name, "hellip") {
        "…"
    } else if same(name, "ldquo") {
        "“"
    } else if same(name, "rdquo") {
        "”"
    } else if same(name, "lsquo") {
        "‘"
    } else if same(name, "rsquo") {
        "’"
    } else if same(name, "copy") {
        "©"
    } else if same(name, "reg") {
        "®"
    } else if same(name, "trade") {
        "™"
    } else {
        return None;
    };
    Some(owned(text))
}

/// What the entity between `&` and `;` stands for.
pub fn resolve_entity(entity: &str) -> (r: Option<String>)
    ensures
        opt_view(r) == entity_text(entity@),
{
    let v = chars_of(entity);
    if v.len() == 0 || byte_count(entity) > 12 {
        return None;
    }
    if let Some(_) = find_char(&v, 0, '&') {
        return None;
    }
    if v[0] == '#' {
        resolve_numeric(&v)
    } else {
        resolve_named(entity)
    }
}

/// `s` with its entities resolved.
pub fn decode_entities(s: &str) -> (r: String)
    ensures
        r@ == decoded_text(s@),
{
    let v = chars_of(s);
    let mut out = String::new();
    let mut i: usize = 0;
    assert(out@ + decoded_from(v@, 0) =~= decoded_text(v@));
    while i < v.len()
        invariant
            i <= v@.len(),
            out@ + decoded_from(v@, i as int) == decoded_text(v@),
        decreases v@.len() - i,
    {
        let ghost before = out@;
        if v[i] != '&' {
            out.push(v[i]);
            assert(before.push(v@[i as int]) + decoded_from(v@, i + 1) =~= before + (seq![
                v@[i as int],
            ] + decoded_from(v@, i + 1)));
            i = i + 1;
        } else {
            let found: Option<(String, usize)> = match find_char(&v, i + 1, ';') {
                Some(semi) => match resolve_entity(slice_of(&v, i + 1, semi).as_str()) {
                    Some(t) => Some((t, semi + 1)),
                    None => None,
                },
                None => None,
            };
            match found {
                Some((t, next)) => {
                    out.push_str(t.as_str());
                    assert((before + t@) + decoded_from(v@, next as int) =~= before + (t@
                        + decoded_from(v@, next as int)));
                    i = next;
                },
                None => {
                    out.push('&');
                    assert(before.push('&') + decoded_from(v@, i + 1) =~= before + (seq!['&']
                        + decoded_from(v@, i + 1)));
                    i = i + 1;
                },
            }
        }
    }
    assert(out@ + Seq::<char>::empty() =~= out@);
    out
}

/// Text without an `&` is left as it is.
pub proof fn law_plain_text_has_no_entities(s: Seq<char>)
    requires
        !s.contains('&'),
    ensures
        decoded_text(s) == s,
{
    lemma_plain_from(s, 0);
    assert(s.subrange(0, s.len() as int) =~= s);
}

proof fn lemma_plain_from(s: Seq<char>, i: int)
    requires
        0 <= i <= s.len(),
        !s.contains('&'),
    ensures
        decoded_from(s, i) == s.subrange(i, s.len() as int),
    decreases s.len() - i,
{
    if i < s.len() {
        assert(s[i] != '&');
        lemma_plain_from(s, i + 1);
    }
    assert(decoded_from(s, i) =~= s.subrange(i, s.len() as int));
}

// --- Text and attributes of a tree ------------------------------------------------

/// The text of a node without its markup.
pub open spec fn node_text(n: SpecHtml) -> Seq<char>
    decreases n,
{
    match n {
        SpecHtml::Tag { name, href, src, alt, class, children } => inner_text(children),
        SpecHtml::Raw(t) => t,
        SpecHtml::Comment => Seq::empty(),
    }
}

/// The text of nodes without their markup.
pub open spec fn inner_text(s: Seq<SpecHtml>) -> Seq<char>
    decreases s,
{
    if s.len() == 0 {
        Seq::empty()
    } else {
        inner_text(s.drop_last()) + node_text(s.last())
    }
}

fn collect_node_text(n: &HtmlNode, out: &mut String)
    ensures
        final(out)@ == old(out)@ + node_text(html_view(*n)),
    decreases html_view(*n),
{
    match n {
        HtmlNode::Tag { children, .. } => {
            assert(decreases_to!(html_view(*n) => html_view(*n)->Tag_children));
            collect_inner_text(children, out)
        },
        HtmlNode::Raw(t) => out.push_str(t.as_str()),
        HtmlNode::Comment => {
            assert(old(out)@ + Seq::<char>::empty() =~= old(out)@);
        },
    }
}

fn collect_inner_text(nodes: &Vec<HtmlNode>, out: &mut String)
    ensures
        final(out)@ == old(out)@ + inner_text(htmls_view(nodes@)),
    decreases htmls_view(nodes@),
{
    let ghost all = htmls_view(nodes@);
    let ghost start = out@;
    let mut i: usize = 0;
    assert(all.take(0) =~= Seq::empty());
    assert(start + Seq::<char>::empty() =~= start);
    while i < nodes.len()
        invariant
            i <= nodes@.len(),
            all == htmls_view(nodes@),
            out@ == start + inner_text(all.take(i as int)),
        decreases nodes@.len() - i,
    {
        broadcast use lemma_htmls_view;

        assert(decreases_to!(all => all[i as int]));
        collect_node_text(&nodes[i], out);
        assert(all.take(i + 1).drop_last() =~= all.take(i as int));
        assert(out@ =~= start + inner_text(all.take(i + 1)));
        i = i + 1;
    }
    proof {
        lemma_htmls_view(nodes@);
        assert(all.take(all.len() as int) =~= all);
    }
}

/// The text of nodes without their markup, entities resolved.
fn tag_text(nodes: &Vec<HtmlNode>) -> (r: String)
    ensures
        r@ == decoded_text(inner_text(htmls_view(nodes@))),
{
    let mut s = String::new();
    collect_inner_text(nodes, &mut s);
    assert(Seq::<char>::empty() + inner_text(htmls_view(nodes@)) =~= inner_text(
        htmls_view(nodes@),
    ));
    decode_entities(s.as_str())
}

/// The language of a `<pre>`: its first `<code>` child's `language-…` class.
pub open spec fn code_lang_from(s: Seq<SpecHtml>, i: int) -> Option<Seq<char>>
    decreases s.len() - i,
{
    if i < 0 || i >= s.len() {
        None
    } else {
        match s[i] {
            SpecHtml::Tag { name, href, src, alt, class, children } => if name == "code"@ {
                match class {
                    Some(c) => word_after(c, "language-"@, 0),
                    None => None,
                }
            } else {
                code_lang_from(s, i + 1)
            },
            _ => code_lang_from(s, i + 1),
        }
    }
}

fn code_lang(nodes: &Vec<HtmlNode>) -> (r: Option<String>)
    ensures
        opt_view(r) == code_lang_from(htmls_view(nodes@), 0),
{
    let ghost all = htmls_view(nodes@);
    let mut i: usize = 0;
    while i < nodes.len()
        invariant
            i <= nodes@.len(),
            all == htmls_view(nodes@),
            code_lang_from(all, 0) == code_lang_from(all, i as int),
        decreases nodes@.len() - i,
    {
        broadcast use lemma_htmls_view;

        if let HtmlNode::Tag { name, class, .. } = &nodes[i] {
            if same(name.as_str(), "code") {
                return match class {
                    Some(c) => find_word_after(c.as_str(), "language-"),
                    None => None,
                };
            }
        }
        i = i + 1;
    }
    proof {
        lemma_htmls_view(nodes@);
    }
    None
}

/// The image of an `<img>`: one with a `src`.
pub open spec fn img_of(src: Option<Seq<char>>, alt: Option<Seq<char>>) -> Option<SpecImage> {
    match src {
        Some(src) => Some(
            url_image_of(
                src,
                match alt {
                    Some(a) => a,
                    None => Seq::empty(),
                },
            ),
        ),
        None => None,
    }
}

fn img_from(src: &Option<String>, alt: &Option<String>) -> (r: Option<Image>)
    ensures
        crate::model::opt_image_view(r) == img_of(opt_view(*src), opt_view(*alt)),
{
    match src {
        None => None,
        Some(src) => match alt {
            Some(a) => Some(url_image(src.as_str(), a.as_str())),
            None => {
                let none = String::new();
                Some(url_image(src.as_str(), none.as_str()))
            },
        },
    }
}

// --- Inlines ----------------------------------------------------------------------

/// A text node's inline, unless it is empty.
pub open spec fn text_inline(raw: Seq<char>) -> Seq<SpecInline> {
    let t = decoded_text(raw);
    if t.len() == 0 {
        Seq::empty()
    } else {
        seq![SpecInline::Text(t)]
    }
}

/// The inlines of a node; a tag without a counterpart gives its children's.
pub open spec fn inlines_from(n: SpecHtml) -> Seq<SpecInline>
    decreases n,
{
    match n {
        SpecHtml::Raw(t) => text_inline(t),
        SpecHtml::Comment => Seq::empty(),
        SpecHtml::Tag { name, href, src, alt, class, children } => {
            let kids = inline_children_of(children);
            if name == "strong"@ || name == "b"@ {
                seq![SpecInline::Strong(kids)]
            } else if name == "em"@ || name == "i"@ {
                seq![SpecInline::Emphasis(kids)]
            } else if name == "del"@ || name == "s"@ || name == "strike"@ {
                seq![SpecInline::Strike(kids)]
            } else if name == "code"@ {
                seq![SpecInline::Code(decoded_text(inner_text(children)))]
            } else if name == "a"@ {
                seq![
                    SpecInline::Link {
                        href: match href {
                            Some(h) => h,
                            None => Seq::empty(),
                        },
                        content: kids,
                    },
                ]
            } else if name == "br"@ {
                seq![SpecInline::LineBreak]
            } else if name == "img"@ {
                match img_of(src, alt) {
                    Some(i) => seq![SpecInline::Image(i)],
                    None => Seq::empty(),
                }
            } else {
                kids
            }
        },
    }
}

/// The inlines of nodes, one after the other.
pub open spec fn inline_children_of(s: Seq<SpecHtml>) -> Seq<SpecInline>
    decreases s,
{
    if s.len() == 0 {
        Seq::empty()
    } else {
        inline_children_of(s.drop_last()) + inlines_from(s.last())
    }
}

fn inline_children(nodes: &Vec<HtmlNode>) -> (r: Vec<Inline>)
    ensures
        inlines_view(r@) == inline_children_of(htmls_view(nodes@)),
    decreases htmls_view(nodes@), 0nat,
{
    let ghost all = htmls_view(nodes@);
    let mut out: Vec<Inline> = Vec::new();
    let mut i: usize = 0;
    assert(all.take(0) =~= Seq::empty());
    while i < nodes.len()
        invariant
            i <= nodes@.len(),
            all == htmls_view(nodes@),
            inlines_view(out@) == inline_children_of(all.take(i as int)),
        decreases nodes@.len() - i,
    {
        broadcast use lemma_htmls_view;

        assert(decreases_to!(all => all[i as int]));
        inlines_from_node(&nodes[i], &mut out);
        assert(all.take(i + 1).drop_last() =~= all.take(i as int));
        i = i + 1;
    }
    proof {
        lemma_htmls_view(nodes@);
        assert(all.take(all.len() as int) =~= all);
    }
    out
}

/// Append the inlines of a node.
fn inlines_from_node(n: &HtmlNode, out: &mut Vec<Inline>)
    ensures
        inlines_view(final(out)@) == inlines_view(old(out)@) + inlines_from(html_view(*n)),
    decreases html_view(*n), 1nat,
{
    broadcast use {group_model_push, lemma_inlines_concat};

    let ghost start = inlines_view(out@);
    match n {
        HtmlNode::Comment => {
            assert(start + Seq::<SpecInline>::empty() =~= start);
        },
        HtmlNode::Raw(t) => {
            let text = decode_entities(t.as_str());
            if !text.as_str().is_empty() {
                out.push(Inline::Text(text));
                assert(inlines_view(out@) =~= start + text_inline(t@));
            } else {
                assert(start + Seq::<SpecInline>::empty() =~= start);
            }
        },
        HtmlNode::Tag { name, href, src, alt, class: _, children } => {
            assert(decreases_to!(html_view(*n) => html_view(*n)->Tag_children));
            let name = name.as_str();
            if same(name, "strong") || same(name, "b") {
                out.push(Inline::Strong(inline_children(children)));
            } else if same(name, "em") || same(name, "i") {
                out.push(Inline::Emphasis(inline_children(children)));
            } else if same(name, "del") || same(name, "s") || same(name, "strike") {
                out.push(Inline::Strike(inline_children(children)));
            } else if same(name, "code") {
                out.push(Inline::Code(tag_text(children)));
            } else if same(name, "a") {
                let target = match href {
                    Some(h) => h.clone(),
                    None => String::new(),
                };
                out.push(Inline::Link { href: target, content: inline_children(children) });
            } else if same(name, "br") {
                out.push(Inline::LineBreak);
            } else if same(name, "img") {
                if let Some(img) = img_from(src, alt) {
                    out.push(Inline::Image(img));
                } else {
                    assert(start + Seq::<SpecInline>::empty() =~= start);
                }
            } else {
                let mut kids = inline_children(children);
                out.append(&mut kids);
            }
            assert(inlines_view(out@) =~= start + inlines_from(html_view(*n)));
        },
    }
}

// --- Blocks -----------------------------------------------------------------------

/// A tag that begins a block.
pub open spec fn is_block_tag(name: Seq<char>) -> bool {
    ||| name == "p"@
    ||| name == "h1"@
    ||| name == "h2"@
    ||| name == "h3"@
    ||| name == "h4"@
    ||| name == "h5"@
    ||| name == "h6"@
    ||| name == "ul"@
    ||| name == "ol"@
    ||| name == "blockquote"@
    ||| name == "pre"@
    ||| name == "hr"@
    ||| name == "img"@
    ||| name == "figure"@
    ||| name == "div"@
    ||| name == "section"@
    ||| name == "article"@
    ||| name == "main"@
    ||| name == "table"@
}

fn block_tag(name: &str) -> (r: bool)
    ensures
        r == is_block_tag(name@),
{
    same(name, "p") || same(name, "h1") || same(name, "h2") || same(name, "h3") || same(name, "h4")
        || same(name, "h5") || same(name, "h6") || same(name, "ul") || same(name, "ol") || same(
        name,
        "blockquote",
    ) || same(name, "pre") || same(name, "hr") || same(name, "img") || same(name, "figure")
        || same(name, "div") || same(name, "section") || same(name, "article") || same(
        name,
        "main",
    ) || same(name, "table")
}

/// Text that is nothing but whitespace.
pub open spec fn is_blank(x: SpecInline) -> bool {
    match x {
        SpecInline::Text(t) => trimmed(t).len() == 0,
        _ => false,
    }
}

/// Some inline is not blank.
pub open spec fn has_words(s: Seq<SpecInline>) -> bool {
    exists|i: int| 0 <= i < s.len() && !is_blank(#[trigger] s[i])
}

/// A paragraph of loose inlines, unless they are all blank.
pub open spec fn flushed(buf: Seq<SpecInline>) -> Seq<SpecBlock> {
    if has_words(buf) {
        seq![SpecBlock::Paragraph(buf)]
    } else {
        Seq::empty()
    }
}

fn any_words(buf: &Vec<Inline>) -> (r: bool)
    ensures
        r == has_words(inlines_view(buf@)),
{
    broadcast use lemma_inlines_view;

    let mut i: usize = 0;
    while i < buf.len()
        invariant
            i <= buf@.len(),
            forall|k: int| 0 <= k < i ==> is_blank(#[trigger] inlines_view(buf@)[k]),
        decreases buf@.len() - i,
    {
        broadcast use lemma_inlines_view;

        let blank = match &buf[i] {
            Inline::Text(t) => {
                let left = trim(t.as_str());
                left.as_str().is_empty()
            },
            _ => false,
        };
        assert(blank == is_blank(inlines_view(buf@)[i as int]));
        if !blank {
            return true;
        }
        i = i + 1;
    }
    false
}

/// Append a paragraph of loose inlines, unless they are all blank.
fn flush_paragraph(buf: Vec<Inline>, out: &mut Vec<Block>)
    ensures
        blocks_view(final(out)@) == blocks_view(old(out)@) + flushed(inlines_view(buf@)),
{
    broadcast use group_model_push;

    let ghost start = blocks_view(out@);
    let ghost v = inlines_view(buf@);
    if any_words(&buf) {
        out.push(Block::Paragraph(buf));
        assert(start.push(SpecBlock::Paragraph(v)) =~= start + flushed(v));
    } else {
        assert(start + Seq::<SpecBlock>::empty() =~= start);
    }
}

/// The level of a heading tag.
pub open spec fn heading_of(name: Seq<char>) -> Option<u8> {
    if name == "h1"@ {
        Some(1)
    } else if name == "h2"@ {
        Some(2)
    } else if name == "h3"@ {
        Some(3)
    } else if name == "h4"@ {
        Some(4)
    } else if name == "h5"@ {
        Some(5)
    } else if name == "h6"@ {
        Some(6)
    } else {
        None
    }
}

fn heading(name: &str) -> (r: Option<u8>)
    ensures
        r == heading_of(name@),
{
    if same(name, "h1") {
        Some(1)
    } else if same(name, "h2") {
        Some(2)
    } else if same(name, "h3") {
        Some(3)
    } else if same(name, "h4") {
        Some(4)
    } else if same(name, "h5") {
        Some(5)
    } else if same(name, "h6") {
        Some(6)
    } else {
        None
    }
}

/// What siblings from `i` on become, when `buf` holds the loose inlines before them:
/// block tags become blocks, and what stands between them is gathered into paragraphs.
pub open spec fn walked(s: Seq<SpecHtml>, i: int, buf: Seq<SpecInline>) -> Seq<SpecBlock>
    decreases s, s.len() - i,
{
    if i < 0 || i >= s.len() {
        flushed(buf)
    } else {
        match s[i] {
            SpecHtml::Tag { name, href, src, alt, class, children } => if is_block_tag(name) {
                flushed(buf) + block_from(s[i]) + walked(s, i + 1, Seq::empty())
            } else {
                walked(s, i + 1, buf + inlines_from(s[i]))
            },
            _ => walked(s, i + 1, buf + inlines_from(s[i])),
        }
    }
}

/// The items of a list: its `<li>` children.
pub open spec fn li_items(s: Seq<SpecHtml>) -> Seq<Seq<SpecBlock>>
    decreases s, 0int,
{
    if s.len() == 0 {
        Seq::empty()
    } else {
        let rest = li_items(s.drop_last());
        match s.last() {
            SpecHtml::Tag { name, href, src, alt, class, children } => if name == "li"@ {
                rest.push(walked(children, 0, Seq::empty()))
            } else {
                rest
            },
            _ => rest,
        }
    }
}

/// What a block tag becomes; a container without a counterpart gives what its children
/// become.
pub open spec fn block_from(n: SpecHtml) -> Seq<SpecBlock>
    decreases n, 0int,
{
    match n {
        SpecHtml::Tag { name, href, src, alt, class, children } => if name == "p"@ {
            flushed(inline_children_of(children))
        } else if heading_of(name) is Some {
            seq![
                SpecBlock::Heading {
                    level: heading_of(name)->0,
                    content: inline_children_of(children),
                },
            ]
        } else if name == "blockquote"@ {
            seq![SpecBlock::Quote(walked(children, 0, Seq::empty()))]
        } else if name == "ul"@ || name == "ol"@ {
            seq![SpecBlock::List { ordered: name == "ol"@, items: li_items(children) }]
        } else if name == "pre"@ {
            seq![
                SpecBlock::Code {
                    lang: code_lang_from(children, 0),
                    text: decoded_text(inner_text(children)),
                },
            ]
        } else if name == "hr"@ {
            seq![SpecBlock::Rule]
        } else if name == "img"@ {
            match img_of(src, alt) {
                Some(i) => seq![SpecBlock::Image(i)],
                None => Seq::empty(),
            }
        } else {
            walked(children, 0, Seq::empty())
        },
        _ => Seq::empty(),
    }
}

/// Append what siblings become.
fn children_to_blocks(nodes: &Vec<HtmlNode>, out: &mut Vec<Block>)
    ensures
        blocks_view(final(out)@) == blocks_view(old(out)@) + walked(
            htmls_view(nodes@),
            0,
            Seq::empty(),
        ),
    decreases htmls_view(nodes@), 1int,
{
    let ghost all = htmls_view(nodes@);
    let ghost goal = blocks_view(out@) + walked(all, 0, Seq::empty());
    let mut buf: Vec<Inline> = Vec::new();
    let mut i: usize = 0;
    proof {
        lemma_htmls_view(nodes@);
    }
    while i < nodes.len()
        invariant
            i <= nodes@.len(),
            all == htmls_view(nodes@),
            all.len() == nodes@.len(),
            blocks_view(out@) + walked(all, i as int, inlines_view(buf@)) == goal,
        decreases nodes@.len() - i,
    {
        broadcast use lemma_htmls_view;

        let node = &nodes[i];
        let ghost n = html_view(*node);
        assert(all[i as int] == n);
        assert(decreases_to!(all => all[i as int]));
        let is_block = match node {
            HtmlNode::Tag { name, .. } => block_tag(name.as_str()),
            _ => false,
        };
        if is_block {
            let ghost start = blocks_view(out@);
            let ghost pending = inlines_view(buf@);
            flush_paragraph(buf, out);
            buf = Vec::new();
            block_from_tag(node, out);
            proof {
                let rest = walked(all, i + 1, Seq::empty());
                assert(start + (flushed(pending) + block_from(n) + rest) =~= ((start + flushed(
                    pending,
                )) + block_from(n)) + rest);
            }
        } else {
            inlines_from_node(node, &mut buf);
        }
        i = i + 1;
    }
    flush_paragraph(buf, out);
}

/// Append what a block tag becomes.
fn block_from_tag(n: &HtmlNode, out: &mut Vec<Block>)
    ensures
        blocks_view(final(out)@) == blocks_view(old(out)@) + block_from(html_view(*n)),
    decreases html_view(*n), 0int,
{
    broadcast use group_model_push;

    let ghost start = blocks_view(out@);
    match n {
        HtmlNode::Tag { name, href: _, src, alt, class: _, children } => {
            assert(decreases_to!(html_view(*n) => html_view(*n)->Tag_children));
            let name = name.as_str();
            let level: Option<u8> = heading(name);
            if same(name, "p") {
                flush_paragraph(inline_children(children), out);
            } else if let Some(level) = level {
                out.push(Block::Heading { level, content: inline_children(children) });
                assert(blocks_view(out@) =~= start + block_from(html_view(*n)));
            } else if same(name, "blockquote") {
                let mut inner: Vec<Block> = Vec::new();
                children_to_blocks(children, &mut inner);
                assert(blocks_view(inner@) =~= walked(htmls_view(children@), 0, Seq::empty()));
                out.push(Block::Quote(inner));
                assert(blocks_view(out@) =~= start + block_from(html_view(*n)));
            } else if same(name, "ul") || same(name, "ol") {
                let items = list_items(children);
                out.push(Block::List { ordered: same(name, "ol"), items });
                assert(blocks_view(out@) =~= start + block_from(html_view(*n)));
            } else if same(name, "pre") {
                out.push(Block::Code { lang: code_lang(children), text: tag_text(children) });
                assert(blocks_view(out@) =~= start + block_from(html_view(*n)));
            } else if same(name, "hr") {
                out.push(Block::Rule);
                assert(blocks_view(out@) =~= start + block_from(html_view(*n)));
            } else if same(name, "img") {
                if let Some(img) = img_from(src, alt) {
                    out.push(Block::Image(img));
                }
                assert(blocks_view(out@) =~= start + block_from(html_view(*n)));
            } else {
                children_to_blocks(children, out);
            }
        },
        _ => {
            assert(start + Seq::<SpecBlock>::empty() =~= start);
        },
    }
}

/// The items of a list.
fn list_items(nodes: &Vec<HtmlNode>) -> (r: Vec<Vec<Block>>)
    ensures
        items_view(r@) == li_items(htmls_view(nodes@)),
    decreases htmls_view(nodes@), 1int,
{
    let ghost all = htmls_view(nodes@);
    let mut items: Vec<Vec<Block>> = Vec::new();
    let mut i: usize = 0;
    assert(all.take(0) =~= Seq::empty());
    while i < nodes.len()
        invariant
            i <= nodes@.len(),
            all == htmls_view(nodes@),
            items_view(items@) == li_items(all.take(i as int)),
        decreases nodes@.len() - i,
    {
        broadcast use {lemma_htmls_view, group_model_push};

        let node = &nodes[i];
        assert(all[i as int] == html_view(*node));
        assert(decreases_to!(all => all[i as int]));
        assert(all.take(i + 1).drop_last() =~= all.take(i as int));
        if let HtmlNode::Tag { name, children, .. } = node {
            if same(name.as_str(), "li") {
                assert(decreases_to!(html_view(*node) => html_view(*node)->Tag_children));
                let mut blocks: Vec<Block> = Vec::new();
                children_to_blocks(children, &mut blocks);
                assert(blocks_view(blocks@) =~= walked(htmls_view(children@), 0, Seq::empty()));
                items.push(blocks);
            }
        }
        i = i + 1;
    }
    proof {
        lemma_htmls_view(nodes@);
        assert(all.take(all.len() as int) =~= all);
    }
    items
}

/// The document that an HTML tree stands for.
pub open spec fn html_doc(tree: Seq<SpecHtml>) -> Seq<SpecBlock> {
    walked(tree, 0, Seq::empty())
}

/// The document that an HTML tree stands for.
pub fn from_tree(nodes: &Vec<HtmlNode>) -> (r: RichDoc)
    ensures
        r@ == html_doc(htmls_view(nodes@)),
{
    let mut blocks: Vec<Block> = Vec::new();
    children_to_blocks(nodes, &mut blocks);
    assert(blocks_view(blocks@) =~= html_doc(htmls_view(nodes@)));
    RichDoc { blocks }
}

/// Decoder of WordPress documents.
pub struct Wordpress;

impl ContentDecoder for Wordpress {
    open spec fn claims(&self, content: SpecJson) -> bool {
        content.get_str("$type"@) == Some("org.wordpress.html"@)
    }

    open spec fn decoded(&self, content: SpecJson, did: Seq<char>) -> Option<Seq<SpecBlock>> {
        match content.get_str("html"@) {
            Some(html) => match html_tree(html) {
                Some(tree) => Some(html_doc(tree)),
                None => None,
            },
            None => None,
        }
    }

    open spec fn platform(&self, content: SpecJson) -> Option<PublishingPlatform> {
        Some(PublishingPlatform::Wordpress)
    }

    fn handles(&self, content: &Json) -> (r: bool) {
        crate::decode::has_type(content, "org.wordpress.html")
    }

    fn decode(&self, content: &Json, ctx: &DecodeCtx) -> (r: Option<RichDoc>) {
        match content.get_str("html") {
            None => None,
            Some(html) => match parse_html(html) {
                None => None,
                Some(nodes) => Some(from_tree(&nodes)),
            },
        }
    }

    fn publishing_platform(&self, content: &Json) -> (r: Option<PublishingPlatform>) {
        Some(PublishingPlatform::Wordpress)
    }
}

} // verus!
