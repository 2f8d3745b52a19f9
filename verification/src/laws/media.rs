//! Images, colours and plain text: what a record gives is what is shown.
use vstd::prelude::*;

use crate::atp::parsed_at_uri;
use crate::decode::blocks::heading_level_of;
use crate::decode::image::blob_image_of;
use crate::decode::offprint::{css_rgb, diff_among, diff_images_of, digit_runs, is_digit, label_at};
use crate::decode::pckt::{external_cid_of, gallery_among, gallery_images_of, image_of};
use crate::decode::{content_ref_of, paragraphs_of, typeset};
use crate::json::{member_from, SpecJson};
use crate::laws::embeds::blob_entries;
use crate::laws::records::{blob_record, lemma_member_push, put, texts};
use crate::laws::words::{law_trimming, lemma_digits_read_back, lemma_joined_first};
use crate::model::{SpecBlock, SpecImage, SpecImageSource, SpecInline};
use crate::text::{
    decimal, find_sub_from, finishes_with, joined, matches_at, pieces_by, unicode_whitespace,
};

verus! {

// --- Images -----------------------------------------------------------------------

/// The image that a blob of a repository is, with a description.
pub open spec fn pictured(did: Seq<char>, cid: Seq<char>, alt: Seq<char>) -> SpecImage {
    SpecImage { alt, source: SpecImageSource::Blob { did, cid } }
}

proof fn lemma_link(cid: Seq<char>)
    ensures
        blob_record(cid).get("ref"@) matches Some(r) && r.get_str("$link"@) == Some(cid),
{
    let link = seq![("$link"@, SpecJson::Str(cid))];
    assert(link[0].0 == "$link"@);
    assert(member_from(link, "$link"@, 0) == Some(SpecJson::Str(cid)));
    let outer = seq![("ref"@, SpecJson::Object(link))];
    assert(outer[0].0 == "ref"@);
    assert(member_from(outer, "ref"@, 0) == Some(SpecJson::Object(link)));
}

/// An image keeps its description, its blob and its repository.
pub proof fn law_an_image_keeps_its_description(did: Seq<char>, cid: Seq<char>, alt: Seq<char>)
    ensures
        blob_image_of(blob_record(cid), did, alt) == Some(pictured(did, cid, alt)),
        image_of(
            SpecJson::Object(
                seq![
                    (
                        "attrs"@,
                        SpecJson::Object(
                            put(Seq::empty(), "alt"@, alt).push(("blob"@, blob_record(cid))),
                        ),
                    ),
                ],
            ),
            did,
        ) == Some(SpecBlock::Image(pictured(did, cid, alt))),
{
    broadcast use lemma_member_push;

    reveal_strlit("alt");
    reveal_strlit("blob");
    assert("alt"@.len() == 3 && "blob"@.len() == 4);
    lemma_link(cid);
    let attrs = put(Seq::empty(), "alt"@, alt).push(("blob"@, blob_record(cid)));
    assert(member_from(attrs, "alt"@, 0) == Some(SpecJson::Str(alt)));
    assert(member_from(attrs, "blob"@, 0) == Some(blob_record(cid)));
    let m = seq![("attrs"@, SpecJson::Object(attrs))];
    assert(m[0].0 == "attrs"@);
    assert(member_from(m, "attrs"@, 0) == Some(SpecJson::Object(attrs)));
}

proof fn lemma_entry(key: Seq<char>, cids: Seq<Seq<char>>, i: int)
    requires
        0 <= i < cids.len(),
    ensures
        blob_entries(key, cids)[i].get(key) == Some(blob_record(cids[i])),
{
    let m = seq![(key, blob_record(cids[i]))];
    assert(m[0].0 == key);
    assert(member_from(m, key, 0) == Some(blob_record(cids[i])));
    assert(blob_entries(key, cids)[i] == SpecJson::Object(m));
}

proof fn lemma_gallery(cids: Seq<Seq<char>>, did: Seq<char>, n: int)
    requires
        0 <= n <= cids.len(),
    ensures
        gallery_among(blob_entries("blob"@, cids), did, n) == Seq::new(
            n as nat,
            |i: int| pictured(did, cids[i], ""@),
        ),
    decreases n,
{
    let want = Seq::new(n as nat, |i: int| pictured(did, cids[i], ""@));
    if n > 0 {
        lemma_gallery(cids, did, n - 1);
        lemma_entry("blob"@, cids, n - 1);
        law_an_image_keeps_its_description(did, cids[n - 1], ""@);
        assert(want =~= Seq::new((n - 1) as nat, |i: int| pictured(did, cids[i], ""@)).push(
            pictured(did, cids[n - 1], ""@),
        ));
    } else {
        assert(gallery_among(blob_entries("blob"@, cids), did, n) =~= want);
    }
}

/// A gallery shows every image of its record, in order.
pub proof fn law_a_gallery_reads_back(cids: Seq<Seq<char>>, did: Seq<char>)
    ensures
        gallery_images_of(
            SpecJson::Object(seq![("images"@, SpecJson::Array(blob_entries("blob"@, cids)))]),
            did,
        ) == Seq::new(cids.len(), |i: int| pictured(did, cids[i], ""@)),
{
    let m = seq![("images"@, SpecJson::Array(blob_entries("blob"@, cids)))];
    assert(m[0].0 == "images"@);
    assert(member_from(m, "images"@, 0) == Some(SpecJson::Array(blob_entries("blob"@, cids))));
    lemma_gallery(cids, did, cids.len() as int);
}

proof fn lemma_diff(cids: Seq<Seq<char>>, labels: Seq<Seq<char>>, did: Seq<char>, n: int)
    requires
        0 <= n <= cids.len(),
        cids.len() == labels.len(),
        forall|i: int| 0 <= i < labels.len() ==> (#[trigger] labels[i]).len() > 0,
    ensures
        diff_among(blob_entries("image"@, cids), Some(texts(labels)), did, n) == Seq::new(
            n as nat,
            |i: int| pictured(did, cids[i], labels[i]),
        ),
    decreases n,
{
    let want = Seq::new(n as nat, |i: int| pictured(did, cids[i], labels[i]));
    if n > 0 {
        lemma_diff(cids, labels, did, n - 1);
        lemma_entry("image"@, cids, n - 1);
        law_an_image_keeps_its_description(did, cids[n - 1], ""@);
        assert(texts(labels)[n - 1] == SpecJson::Str(labels[n - 1]));
        assert(label_at(Some(texts(labels)), n - 1) == Some(labels[n - 1]));
        assert(want =~= Seq::new(
            (n - 1) as nat,
            |i: int| pictured(did, cids[i], labels[i]),
        ).push(pictured(did, cids[n - 1], labels[n - 1])));
    } else {
        assert(diff_among(blob_entries("image"@, cids), Some(texts(labels)), did, n) =~= want);
    }
}

/// The images of a comparison are described by their labels, each by its own.
pub proof fn law_compared_images_are_labelled(
    cids: Seq<Seq<char>>,
    labels: Seq<Seq<char>>,
    did: Seq<char>,
)
    requires
        cids.len() == labels.len(),
        forall|i: int| 0 <= i < labels.len() ==> (#[trigger] labels[i]).len() > 0,
    ensures
        diff_images_of(
            SpecJson::Object(
                seq![
                    ("images"@, SpecJson::Array(blob_entries("image"@, cids))),
                    ("labels"@, SpecJson::Array(texts(labels))),
                ],
            ),
            did,
        ) == Seq::new(cids.len(), |i: int| pictured(did, cids[i], labels[i])),
{
    reveal_strlit("images");
    reveal_strlit("labels");
    assert("images"@[0] == 'i' && "labels"@[0] == 'l');
    let m = seq![
        ("images"@, SpecJson::Array(blob_entries("image"@, cids))),
        ("labels"@, SpecJson::Array(texts(labels))),
    ];
    assert(m[0].0 == "images"@ && m[1].0 == "labels"@);
    assert(member_from(m, "images"@, 0) == Some(SpecJson::Array(blob_entries("image"@, cids))));
    assert(member_from(m, "labels"@, 1) == Some(SpecJson::Array(texts(labels))));
    assert(member_from(m, "labels"@, 0) == Some(SpecJson::Array(texts(labels))));
    lemma_diff(cids, labels, did, cids.len() as int);
}

// --- What stands elsewhere --------------------------------------------------------

/// Items that were moved to a blob are looked for there, and items at hand nowhere else.
pub proof fn law_moved_items_are_found(cid: Seq<char>, items: Seq<SpecJson>)
    ensures
        ({
            let m = put(Seq::empty(), "$type"@, "blog.pckt.content"@).push(
                ("blob"@, blob_record(cid)),
            );
            &&& external_cid_of(SpecJson::Object(m)) == Some(cid)
            &&& items.len() > 0 ==> external_cid_of(
                SpecJson::Object(m.push(("items"@, SpecJson::Array(items)))),
            ) is None
        }),
{
    broadcast use lemma_member_push;

    reveal_strlit("$type");
    reveal_strlit("blob");
    reveal_strlit("items");
    assert("$type"@.len() == 5 && "$type"@[0] == '$' && "blob"@.len() == 4);
    assert("items"@.len() == 5 && "items"@[0] == 'i');
    lemma_link(cid);
    let m = put(Seq::empty(), "$type"@, "blog.pckt.content"@).push(("blob"@, blob_record(cid)));
    assert(member_from(m, "$type"@, 0) == Some(SpecJson::Str("blog.pckt.content"@)));
    assert(member_from(m, "blob"@, 0) == Some(blob_record(cid)));
    assert(member_from(m, "items"@, 0) is None);
    let all = m.push(("items"@, SpecJson::Array(items)));
    assert(member_from(all, "items"@, 0) == Some(SpecJson::Array(items)));
}

/// A reference leads to the record that it names; anything else is no reference.
pub proof fn law_a_reference_names_a_record(prefix: Seq<char>, uri: Seq<char>, content: SpecJson)
    ensures
        content_ref_of(
            SpecJson::Object(
                put(put(Seq::empty(), "$type"@, prefix + "#contentRef"@), "uri"@, uri),
            ),
        ) == parsed_at_uri(uri),
        (content.get_str("$type"@) matches Some(ty) ==> !finishes_with(ty, "#contentRef"@))
            ==> content_ref_of(content) is None,
{
    broadcast use lemma_member_push;

    reveal_strlit("$type");
    reveal_strlit("uri");
    assert("$type"@.len() == 5 && "uri"@.len() == 3);
    let ty = prefix + "#contentRef"@;
    let m = put(put(Seq::empty(), "$type"@, ty), "uri"@, uri);
    assert(member_from(m, "$type"@, 0) == Some(SpecJson::Str(ty)));
    assert(member_from(m, "uri"@, 0) == Some(SpecJson::Str(uri)));
    assert(ty.subrange(prefix.len() as int, ty.len() as int) =~= "#contentRef"@);
    assert(finishes_with(ty, "#contentRef"@));
}

/// A heading has the level that is written, as far as there is one.
pub proof fn law_headings_have_their_level(n: u64, fallback: u64, block: SpecJson)
    requires
        block.get_u64("level"@) == Some(n),
    ensures
        1 <= heading_level_of(block, fallback) <= 6,
        1 <= n <= 6 ==> heading_level_of(block, fallback) == n,
        n > 6 ==> heading_level_of(block, fallback) == 6,
{
}

// --- Colours ----------------------------------------------------------------------

/// Text without digits.
pub open spec fn undigited(s: Seq<char>) -> bool {
    forall|i: int| 0 <= i < s.len() ==> !is_digit(#[trigger] s[i])
}

proof fn lemma_runs_on(s: Seq<char>, k: int, start: int, i: int)
    requires
        0 <= k <= s.len(),
        0 <= start <= i <= s.len() - k,
    ensures
        digit_runs(s, k + start, k + i) == digit_runs(s.subrange(k, s.len() as int), start, i),
    decreases s.len() - k - i,
{
    let rest = s.subrange(k, s.len() as int);
    if i < rest.len() {
        assert(rest[i] == s[k + i]);
        if is_digit(rest[i]) {
            lemma_runs_on(s, k, start, i + 1);
        } else {
            if start < i {
                assert(rest.subrange(start, i) =~= s.subrange(k + start, k + i));
            }
            lemma_runs_on(s, k, i + 1, i + 1);
        }
    } else {
        if start < rest.len() {
            assert(rest.subrange(start, rest.len() as int) =~= s.subrange(
                k + start,
                s.len() as int,
            ));
        }
    }
}

proof fn lemma_skip_undigited(s: Seq<char>, i: int, n: int)
    requires
        0 <= i <= n <= s.len(),
        forall|j: int| i <= j < n ==> !is_digit(#[trigger] s[j]),
    ensures
        digit_runs(s, i, i) == digit_runs(s, n, n),
    decreases n - i,
{
    if i < n {
        assert(!is_digit(s[i]));
        lemma_skip_undigited(s, i + 1, n);
    }
}

proof fn lemma_run(s: Seq<char>, i: int, n: int)
    requires
        0 <= i <= n <= s.len(),
        forall|j: int| i <= j < n ==> is_digit(#[trigger] s[j]),
    ensures
        digit_runs(s, 0, i) == digit_runs(s, 0, n),
    decreases n - i,
{
    if i < n {
        assert(is_digit(s[i]));
        lemma_run(s, i + 1, n);
    }
}

proof fn lemma_all_digits(n: nat)
    ensures
        decimal(n).len() > 0,
        forall|i: int| 0 <= i < decimal(n).len() ==> is_digit(#[trigger] decimal(n)[i]),
    decreases n,
{
    if n >= 10 {
        lemma_all_digits(n / 10);
        let before = decimal(n / 10);
        assert forall|i: int| 0 <= i < decimal(n).len() implies is_digit(
            #[trigger] decimal(n)[i],
        ) by {
            if i < before.len() {
                assert(decimal(n)[i] == before[i]);
            }
        }
    }
}

/// A number behind text without digits is the first run.
proof fn lemma_first_run(before: Seq<char>, n: nat, after: Seq<char>)
    requires
        undigited(before),
        after.len() > 0 ==> !is_digit(after[0]),
    ensures
        digit_runs(before + decimal(n) + after, 0, 0) == seq![decimal(n)] + digit_runs(after, 0, 0),
{
    let s = before + decimal(n) + after;
    let a = before.len() as int;
    lemma_all_digits(n);
    assert forall|j: int| 0 <= j < a implies !is_digit(#[trigger] s[j]) by {
        assert(s[j] == before[j]);
    }
    lemma_skip_undigited(s, 0, a);
    lemma_runs_on(s, a, 0, 0);
    let rest = s.subrange(a, s.len() as int);
    assert(rest =~= decimal(n) + after);
    let d = decimal(n).len() as int;
    assert forall|j: int| 0 <= j < d implies is_digit(#[trigger] rest[j]) by {
        assert(rest[j] == decimal(n)[j]);
    }
    lemma_run(rest, 0, d);
    assert(rest.subrange(0, d) =~= decimal(n));
    if after.len() > 0 {
        assert(rest[d] == after[0]);
        lemma_runs_on(rest, d, 0, 0);
        assert(rest.subrange(d, rest.len() as int) =~= after);
        lemma_skip_undigited(rest, d, d + 1);
    } else {
        assert(rest =~= decimal(n));
        assert(digit_runs(after, 0, 0) =~= Seq::empty());
        assert(seq![decimal(n)] + digit_runs(after, 0, 0) =~= seq![decimal(n)]);
    }
}

/// A colour reads as its red, green and blue, however they are parted.
pub proof fn law_colors_read_back(
    before: Seq<char>,
    r: u8,
    gap: Seq<char>,
    g: u8,
    gap2: Seq<char>,
    b: u8,
    after: Seq<char>,
)
    requires
        undigited(before),
        undigited(gap),
        undigited(gap2),
        gap.len() > 0,
        gap2.len() > 0,
        after.len() > 0 ==> !is_digit(after[0]),
    ensures
        css_rgb(
            before + decimal(r as nat) + (gap + decimal(g as nat) + (gap2 + decimal(b as nat)
                + after)),
        ) == Some((r, g, b)),
{
    let third = gap2 + decimal(b as nat) + after;
    let second = gap + decimal(g as nat) + third;
    let s = before + decimal(r as nat) + second;
    assert(second[0] == gap[0]);
    assert(third[0] == gap2[0]);
    lemma_first_run(before, r as nat, second);
    lemma_first_run(gap, g as nat, third);
    lemma_first_run(gap2, b as nat, after);
    let runs = digit_runs(s, 0, 0);
    let tail = digit_runs(after, 0, 0);
    assert(runs =~= seq![decimal(r as nat), decimal(g as nat), decimal(b as nat)] + tail);
    lemma_digits_read_back(r as nat);
    lemma_digits_read_back(g as nat);
    lemma_digits_read_back(b as nat);
}

// --- Plain text -------------------------------------------------------------------

/// A paragraph of plain text: it begins and ends with a word, and holds no blank line.
pub open spec fn is_paragraph(p: Seq<char>) -> bool {
    &&& p.len() > 0
    &&& !unicode_whitespace(p[0])
    &&& !unicode_whitespace(p.last())
    &&& forall|i: int| 0 <= i < p.len() - 1 ==> !(#[trigger] p[i] == '\n' && p[i + 1] == '\n')
}

pub proof fn lemma_sub_on(s: Seq<char>, pat: Seq<char>, k: int, i: int)
    requires
        0 <= k <= s.len(),
        0 <= i <= s.len() - k,
    ensures
        find_sub_from(s, pat, k + i) == (match find_sub_from(
            s.subrange(k, s.len() as int),
            pat,
            i,
        ) {
            Some(j) => Some(k + j),
            None => None,
        }),
        find_sub_from(s.subrange(k, s.len() as int), pat, i) matches Some(j) ==> i <= j && j
            + pat.len() <= s.len() - k,
    decreases s.len() - k - i,
{
    let rest = s.subrange(k, s.len() as int);
    if k + i + pat.len() <= s.len() {
        assert(rest.subrange(i, i + pat.len()) =~= s.subrange(k + i, k + i + pat.len()));
    }
    if i < rest.len() {
        if !matches_at(rest, pat, i) {
            lemma_sub_on(s, pat, k, i + 1);
        }
    } else if !matches_at(rest, pat, i) {
        assert(find_sub_from(rest, pat, i + 1) is None);
        assert(find_sub_from(s, pat, k + i + 1) is None);
    }
}

pub proof fn lemma_pieces_by_on(s: Seq<char>, pat: Seq<char>, k: int, i: int)
    requires
        0 <= k <= s.len(),
        0 <= i <= s.len() - k,
        pat.len() > 0,
    ensures
        pieces_by(s, pat, k + i) == pieces_by(s.subrange(k, s.len() as int), pat, i),
    decreases s.len() - k - i,
{
    let rest = s.subrange(k, s.len() as int);
    lemma_sub_on(s, pat, k, i);
    match find_sub_from(rest, pat, i) {
        Some(j) => {
            assert(rest.subrange(i, j) =~= s.subrange(k + i, k + j));
            lemma_pieces_by_on(s, pat, k, j + pat.len());
        },
        None => {
            assert(rest.subrange(i, rest.len() as int) =~= s.subrange(k + i, s.len() as int));
        },
    }
}

pub proof fn lemma_found(s: Seq<char>, pat: Seq<char>, i: int, n: int)
    requires
        0 <= i <= n <= s.len(),
        matches_at(s, pat, n),
        forall|j: int| i <= j < n ==> !matches_at(s, pat, j),
    ensures
        find_sub_from(s, pat, i) == Some(n),
    decreases n - i,
{
    if i < n {
        assert(!matches_at(s, pat, i));
        lemma_found(s, pat, i + 1, n);
    }
}

proof fn lemma_not_found(s: Seq<char>, pat: Seq<char>, i: int)
    requires
        0 <= i <= s.len() + 1,
        forall|j: int| i <= j <= s.len() ==> !matches_at(s, pat, j),
    ensures
        find_sub_from(s, pat, i) is None,
    decreases s.len() + 1 - i,
{
    if i <= s.len() {
        assert(!matches_at(s, pat, i));
        lemma_not_found(s, pat, i + 1);
    }
}

proof fn lemma_first_paragraph(p: Seq<char>, rest: Seq<char>)
    requires
        is_paragraph(p),
    ensures
        pieces_by(p, "\n\n"@, 0) == seq![p],
        pieces_by(p + "\n\n"@ + rest, "\n\n"@, 0) == seq![p] + pieces_by(rest, "\n\n"@, 0),
{
    reveal_strlit("\n\n");
    let pat = "\n\n"@;
    let n = p.len() as int;
    let s = p + pat + rest;
    assert(pat[0] == '\n' && pat[1] == '\n' && pat.len() == 2);
    assert(unicode_whitespace('\n'));
    assert forall|j: int| 0 <= j <= n implies !matches_at(p, pat, j) by {
        if matches_at(p, pat, j) {
            assert(p.subrange(j, j + 2)[0] == p[j]);
            assert(p.subrange(j, j + 2)[1] == p[j + 1]);
        }
    }
    lemma_not_found(p, pat, 0);
    assert(p.subrange(0, n) =~= p);
    assert(matches_at(s, pat, n)) by {
        assert(s.subrange(n, n + 2) =~= pat);
    }
    assert forall|j: int| 0 <= j < n implies !matches_at(s, pat, j) by {
        if matches_at(s, pat, j) {
            assert(s.subrange(j, j + 2)[0] == s[j]);
            assert(s.subrange(j, j + 2)[1] == s[j + 1]);
            assert(s[j] == p[j]);
            if j + 1 < n {
                assert(s[j + 1] == p[j + 1]);
            } else {
                assert(p[j] == p.last());
            }
        }
    }
    lemma_found(s, pat, 0, n);
    assert(s.subrange(0, n) =~= p);
    lemma_pieces_by_on(s, pat, n + 2, 0);
    assert(s.subrange(n + 2, s.len() as int) =~= rest);
}

proof fn lemma_paragraph_pieces(ps: Seq<Seq<char>>)
    requires
        ps.len() > 0,
        forall|i: int| 0 <= i < ps.len() ==> is_paragraph(#[trigger] ps[i]),
    ensures
        pieces_by(joined(ps, "\n\n"@), "\n\n"@, 0) == ps,
    decreases ps.len(),
{
    assert(is_paragraph(ps[0]));
    if ps.len() == 1 {
        lemma_first_paragraph(ps[0], Seq::empty());
        assert(seq![ps[0]] =~= ps);
    } else {
        let rest = ps.drop_first();
        assert forall|i: int| 0 <= i < rest.len() implies is_paragraph(#[trigger] rest[i]) by {
            assert(rest[i] == ps[i + 1]);
        }
        lemma_paragraph_pieces(rest);
        lemma_joined_first(ps, "\n\n"@);
        lemma_first_paragraph(ps[0], joined(rest, "\n\n"@));
        assert(seq![ps[0]] + rest =~= ps);
    }
}

/// Plain text is shown paragraph by paragraph, parted at blank lines.
pub proof fn law_plain_text_reads_as_written(ps: Seq<Seq<char>>)
    requires
        ps.len() > 0,
        forall|i: int| 0 <= i < ps.len() ==> is_paragraph(#[trigger] ps[i]),
    ensures
        typeset(joined(ps, "\n\n"@)) == ps.map_values(
            |p: Seq<char>| SpecBlock::Paragraph(seq![SpecInline::Text(p)]),
        ),
{
    lemma_paragraph_pieces(ps);
    lemma_paragraphs(ps, ps.len() as int);
    assert(ps.take(ps.len() as int) =~= ps);
}

proof fn lemma_paragraphs(ps: Seq<Seq<char>>, n: int)
    requires
        0 <= n <= ps.len(),
        forall|i: int| 0 <= i < ps.len() ==> is_paragraph(#[trigger] ps[i]),
    ensures
        paragraphs_of(ps, n) == ps.take(n).map_values(
            |p: Seq<char>| SpecBlock::Paragraph(seq![SpecInline::Text(p)]),
        ),
    decreases n,
{
    let f = |p: Seq<char>| SpecBlock::Paragraph(seq![SpecInline::Text(p)]);
    if n > 0 {
        lemma_paragraphs(ps, n - 1);
        let p = ps[n - 1];
        assert(is_paragraph(p));
        let none = Seq::<char>::empty();
        law_trimming(none, p, none);
        assert(none + p + none =~= p);
        assert(ps.take(n) =~= ps.take(n - 1).push(p));
        assert(ps.take(n).map_values(f) =~= ps.take(n - 1).map_values(f).push(f(p)));
    } else {
        assert(paragraphs_of(ps, n) =~= ps.take(0).map_values(f));
    }
}

} // verus!
