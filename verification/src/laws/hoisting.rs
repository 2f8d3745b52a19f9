//! Images in text: each stands where it stood, between the words around it.
use vstd::prelude::*;

use crate::decode::hoist::{
    has_real, hoisted, hoisted_from, image_block, images_in, inline_images, is_filler,
    real_paragraph, split_from, stripped, stripped_all,
};
use crate::model::{SpecBlock, SpecImage, SpecInline};
use crate::text::trimmed;

verus! {

/// A word: text that is not blank, or code.
pub open spec fn is_word(x: SpecInline) -> bool {
    match x {
        SpecInline::Text(t) => trimmed(t).len() > 0,
        SpecInline::Code(_) => true,
        _ => false,
    }
}

/// Words.
pub open spec fn are_words(s: Seq<SpecInline>) -> bool {
    forall|i: int| 0 <= i < s.len() ==> is_word(#[trigger] s[i])
}

/// Images in text.
pub open spec fn inlined(images: Seq<SpecImage>) -> Seq<SpecInline> {
    images.map_values(|i: SpecImage| SpecInline::Image(i))
}

/// What images become: one an image, several a grid.
pub open spec fn placed(images: Seq<SpecImage>) -> SpecBlock {
    if images.len() == 1 {
        SpecBlock::Image(images[0])
    } else {
        SpecBlock::ImageGrid(images)
    }
}

proof fn lemma_word(x: SpecInline)
    requires
        is_word(x),
    ensures
        stripped(x) == seq![x],
        inline_images(x).len() == 0,
        has_real(stripped(x)),
{
    assert(!is_filler(seq![x][0]));
    assert(stripped(x) =~= seq![x]);
    assert(inline_images(x) =~= Seq::empty());
}

proof fn lemma_words(
    s: Seq<SpecInline>,
    i: int,
    n: int,
    text: Seq<SpecInline>,
    imgs: Seq<SpecImage>,
)
    requires
        0 <= i < n <= s.len(),
        forall|j: int| i <= j < n ==> is_word(#[trigger] s[j]),
    ensures
        split_from(s, i, text, imgs) == image_block(imgs) + split_from(
            s,
            n,
            text + s.subrange(i, n),
            Seq::empty(),
        ),
    decreases n - i,
{
    let none = Seq::<SpecImage>::empty();
    assert(is_word(s[i]));
    lemma_word(s[i]);
    assert(inline_images(s[i]) =~= none);
    if i + 1 < n {
        lemma_words(s, i + 1, n, text + seq![s[i]], none);
        assert(text + seq![s[i]] + s.subrange(i + 1, n) =~= text + s.subrange(i, n));
    } else {
        assert(text + seq![s[i]] =~= text + s.subrange(i, n));
    }
    assert(image_block(none) =~= Seq::empty());
    let rest = split_from(s, n, text + s.subrange(i, n), none);
    assert(image_block(imgs) + Seq::<SpecBlock>::empty() + (Seq::<SpecBlock>::empty() + rest)
        =~= image_block(imgs) + rest);
    assert(image_block(imgs) + Seq::<SpecBlock>::empty() + rest =~= image_block(imgs) + rest);
}

proof fn lemma_images(
    s: Seq<SpecInline>,
    i: int,
    n: int,
    text: Seq<SpecInline>,
    had: Seq<SpecImage>,
    images: Seq<SpecImage>,
)
    requires
        0 <= i < n <= s.len(),
        s.subrange(i, n) == inlined(images),
    ensures
        split_from(s, i, text, had) == real_paragraph(text) + split_from(
            s,
            n,
            Seq::empty(),
            had + images,
        ),
    decreases n - i,
{
    let none = Seq::<SpecInline>::empty();
    assert(s.subrange(i, n)[0] == s[i]);
    assert(inlined(images).len() == images.len());
    assert(s.subrange(i, n).len() == n - i);
    assert(images.len() == n - i);
    assert(s[i] == SpecInline::Image(images[0]));
    assert(stripped(s[i]) =~= none);
    assert(!has_real(none));
    assert(text + none =~= text);
    let first = images[0];
    if i + 1 < n {
        let more = images.drop_first();
        assert(s.subrange(i + 1, n) =~= inlined(more)) by {
            assert forall|k: int| 0 <= k < n - i - 1 implies s.subrange(i + 1, n)[k]
                == inlined(more)[k] by {
                assert(s.subrange(i, n)[k + 1] == inlined(images)[k + 1]);
            }
        }
        lemma_images(s, i + 1, n, none, had + seq![first], more);
        assert(had + seq![first] + more =~= had + images);
    } else {
        assert(had + seq![first] =~= had + images);
    }
    assert(real_paragraph(none) =~= Seq::empty());
    let rest = split_from(s, n, none, had + images);
    assert(Seq::<SpecBlock>::empty() + real_paragraph(text) + (Seq::<SpecBlock>::empty() + rest)
        =~= real_paragraph(text) + rest);
    assert(Seq::<SpecBlock>::empty() + real_paragraph(text) + rest =~= real_paragraph(text) + rest);
}

/// Images in a paragraph stand between the words before them and the words behind them, one
/// by itself, several side by side.
pub proof fn law_images_stand_where_they_stood(
    a: Seq<SpecInline>,
    images: Seq<SpecImage>,
    b: Seq<SpecInline>,
)
    requires
        a.len() > 0,
        images.len() > 0,
        b.len() > 0,
        are_words(a),
        are_words(b),
    ensures
        hoisted(seq![SpecBlock::Paragraph(a + inlined(images) + b)]) == seq![
            SpecBlock::Paragraph(a),
            placed(images),
            SpecBlock::Paragraph(b),
        ],
{
    let s = a + inlined(images) + b;
    let n = a.len() as int;
    let m = n + images.len();
    let e = s.len() as int;
    let none = Seq::<SpecInline>::empty();
    let no_images = Seq::<SpecImage>::empty();
    assert forall|j: int| 0 <= j < n implies is_word(#[trigger] s[j]) by {
        assert(s[j] == a[j]);
    }
    assert forall|j: int| m <= j < e implies is_word(#[trigger] s[j]) by {
        assert(s[j] == b[j - m]);
    }
    lemma_words(s, 0, n, none, no_images);
    assert(none + s.subrange(0, n) =~= a);
    assert(s.subrange(n, m) =~= inlined(images));
    lemma_images(s, n, m, a, no_images, images);
    assert(no_images + images =~= images);
    lemma_words(s, m, e, none, images);
    assert(none + s.subrange(m, e) =~= b);
    assert(is_word(a[0]) && is_word(b[0]));
    assert(!is_filler(a[0]) && !is_filler(b[0]));
    assert(real_paragraph(a) == seq![SpecBlock::Paragraph(a)]);
    assert(real_paragraph(b) == seq![SpecBlock::Paragraph(b)]);
    assert(image_block(no_images) =~= Seq::empty());
    assert(split_from(s, e, b, no_images) =~= seq![SpecBlock::Paragraph(b)]);
    assert(image_block(images) =~= seq![placed(images)]);
    let p = SpecBlock::Paragraph(s);
    lemma_alone(p);
    assert(hoisted_from(p) =~= seq![
        SpecBlock::Paragraph(a),
        placed(images),
        SpecBlock::Paragraph(b),
    ]);
}

proof fn lemma_alone(b: SpecBlock)
    ensures
        hoisted(seq![b]) == hoisted_from(b),
{
    assert(seq![b].drop_last() =~= Seq::empty());
    assert(hoisted(Seq::<SpecBlock>::empty()) =~= Seq::empty());
    assert(hoisted(seq![b]) =~= hoisted_from(b));
}

/// Blocks are taken one by one: what two runs of them become is what the first becomes,
/// followed by what the second becomes.
pub proof fn law_blocks_are_hoisted_one_by_one(a: Seq<SpecBlock>, b: Seq<SpecBlock>)
    ensures
        hoisted(a + b) == hoisted(a) + hoisted(b),
    decreases b.len(),
{
    if b.len() == 0 {
        assert(a + b =~= a);
        assert(hoisted(a) + hoisted(b) =~= hoisted(a));
    } else {
        law_blocks_are_hoisted_one_by_one(a, b.drop_last());
        assert((a + b).drop_last() =~= a + b.drop_last());
        assert(hoisted(a + b) =~= hoisted(a) + hoisted(b));
    }
}

proof fn lemma_stripped(a: Seq<SpecInline>)
    requires
        are_words(a),
    ensures
        stripped_all(a) == a,
        images_in(a).len() == 0,
    decreases a.len(),
{
    if a.len() > 0 {
        let before = a.drop_last();
        assert forall|i: int| 0 <= i < before.len() implies is_word(#[trigger] before[i]) by {
            assert(before[i] == a[i]);
        }
        lemma_stripped(before);
        assert(is_word(a[a.len() - 1]));
        lemma_word(a.last());
        assert(before + seq![a.last()] =~= a);
    } else {
        assert(stripped_all(a) =~= a);
    }
}

/// An image in a heading stands below it, and the heading keeps its words and its level.
pub proof fn law_an_image_leaves_its_heading(level: u8, a: Seq<SpecInline>, image: SpecImage)
    requires
        a.len() > 0,
        are_words(a),
    ensures
        hoisted(
            seq![SpecBlock::Heading { level, content: a.push(SpecInline::Image(image)) }],
        ) == seq![SpecBlock::Heading { level, content: a }, SpecBlock::Image(image)],
{
    let content = a.push(SpecInline::Image(image));
    let b = SpecBlock::Heading { level, content };
    lemma_alone(b);
    lemma_stripped(a);
    assert(content.drop_last() =~= a);
    assert(stripped(SpecInline::Image(image)) =~= Seq::empty());
    assert(stripped_all(content) =~= a);
    assert(images_in(a) =~= Seq::empty());
    assert(content.last() == SpecInline::Image(image));
    assert(inline_images(SpecInline::Image(image)) == seq![image]);
    assert(images_in(content) =~= seq![image]);
    assert(is_word(a[0]));
    assert(!is_filler(a[0]));
    assert(hoisted_from(b) =~= seq![
        SpecBlock::Heading { level, content: a },
        SpecBlock::Image(image),
    ]);
}

} // verus!
