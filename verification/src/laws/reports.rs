//! Reports: what was fetched is printed and kept, and the cache prints what it holds.
use vstd::prelude::*;

use crate::laws::printing::{
    blocks_said, lemma_around, lemma_itself, lemma_join, lemma_more_after,
    law_a_printed_document_says_it_all, stand_in,
};
use crate::model::{SpecDocument, SpecPublication};
use crate::read::SpecRead;
use crate::report::{
    bullet, bullets, cached_text, count_line, fetched_state, fetched_text, fetched_texts,
    first_held, heading, is_held, listed, listed_text, own_documents, reading_text, record_text,
    with_documents, Choice, Fetched,
};
use crate::store::StoreState;
use crate::text::decimal;
use crate::ui::chrome::shown_title;

verus! {

/// What a list says of documents: the title and the time of each.
pub open spec fn entries_said(docs: Seq<SpecDocument>) -> Seq<Seq<char>>
    decreases docs.len(),
{
    if docs.len() == 0 {
        Seq::empty()
    } else {
        entries_said(docs.drop_last()) + seq![docs.last().title, docs.last().published_at]
    }
}

/// Every document has a title.
pub open spec fn all_titled(docs: Seq<SpecDocument>) -> bool {
    forall|i: int| 0 <= i < docs.len() ==> (#[trigger] docs[i]).title.len() > 0
}

proof fn lemma_bullet(d: SpecDocument)
    requires
        d.title.len() > 0,
    ensures
        stand_in(seq![d.title, d.published_at], bullet(d)),
{
    let none = Seq::<char>::empty();
    lemma_itself(d.title);
    lemma_around("   • "@, seq![d.title], d.title, "  ["@);
    lemma_itself(d.published_at);
    lemma_join(
        seq![d.title],
        "   • "@ + d.title + "  ["@,
        seq![d.published_at],
        d.published_at,
    );
    lemma_more_after(
        seq![d.title] + seq![d.published_at],
        "   • "@ + d.title + "  ["@ + d.published_at,
        "]\n"@,
    );
    assert(seq![d.title] + seq![d.published_at] =~= seq![d.title, d.published_at]);
}

/// A list shows the title and the time of every document, in order.
pub proof fn law_every_document_is_listed(docs: Seq<SpecDocument>)
    requires
        all_titled(docs),
    ensures
        stand_in(entries_said(docs), bullets(docs)),
    decreases docs.len(),
{
    if docs.len() > 0 {
        let before = docs.drop_last();
        assert forall|i: int| 0 <= i < before.len() implies (#[trigger] before[i]).title.len()
            > 0 by {
            assert(before[i] == docs[i]);
        }
        law_every_document_is_listed(before);
        assert(docs[docs.len() - 1].title.len() > 0);
        lemma_bullet(docs.last());
        lemma_join(
            entries_said(before),
            bullets(before),
            seq![docs.last().title, docs.last().published_at],
            bullet(docs.last()),
        );
    }
}

/// The documents of a publication are those that name it, in their order.
pub proof fn law_own_documents_name_the_publication(docs: Seq<SpecDocument>, uri: Seq<char>)
    ensures
        own_documents(docs, uri) == docs.filter(|d: SpecDocument| d.publication == uri),
    decreases docs.len(),
{
    reveal(Seq::filter);
    if docs.len() > 0 {
        law_own_documents_name_the_publication(docs.drop_last(), uri);
    } else {
        assert(own_documents(docs, uri) =~= docs.filter(|d: SpecDocument| d.publication == uri));
    }
}

/// What is printed for a publication holds its name, its address, its URI, the number of its
/// documents and each of them, and what the first one says.
pub proof fn law_a_publication_is_printed(f: Fetched)
    requires
        all_titled(listed(f)),
    ensures
        stand_in(
            seq![f.publication.name, f.publication.url, f.publication.uri, decimal(listed(f).len())]
                + entries_said(listed(f)) + (match f.reading {
                Some((meta, body)) => blocks_said(body),
                None => Seq::empty(),
            }),
            fetched_text(f),
        ),
{
    let p = f.publication;
    let own = listed(f);
    let none = Seq::<char>::empty();
    // The record.
    lemma_itself(p.name);
    lemma_around("══ "@, seq![p.name], p.name, " · "@);
    lemma_itself(p.url);
    lemma_join(seq![p.name], "══ "@ + p.name + " · "@, seq![p.url], p.url);
    let two = seq![p.name] + seq![p.url];
    lemma_more_after(two, "══ "@ + p.name + " · "@ + p.url, "\n"@);
    lemma_more_after(two, heading(p), "   "@);
    lemma_itself(p.uri);
    lemma_join(two, heading(p) + "   "@, seq![p.uri], p.uri);
    let three = two + seq![p.uri];
    lemma_more_after(three, heading(p) + "   "@ + p.uri, "\n"@);
    // The count.
    let n = decimal(own.len());
    lemma_itself(n);
    let more = if f.cursor is Some {
        ", more…"@
    } else {
        none
    };
    let tail = " document(s)"@ + more + " ("@ + decimal(f.docs.len()) + " in repo)\n"@;
    lemma_around("   "@, seq![n], n, tail);
    let count = count_line(own.len(), f.cursor is Some, f.docs.len());
    assert("   "@ + n + tail =~= count);
    lemma_join(three, record_text(p), seq![n], count);
    let four = three + seq![n];
    // The documents.
    law_every_document_is_listed(own);
    lemma_join(four, record_text(p) + count, entries_said(own), bullets(own));
    let five = four + entries_said(own);
    assert(listed_text(f) == record_text(p) + count + bullets(own));
    // The first of them.
    let (words, text) = match f.reading {
        Some((meta, body)) => (blocks_said(body), reading_text(meta.title, body)),
        None => (Seq::empty(), none),
    };
    match f.reading {
        Some((meta, body)) => {
            law_a_printed_document_says_it_all(body, 1);
            lemma_around(
                "\n   ┌─ reading: "@ + shown_title(meta.title) + "\n"@,
                blocks_said(body),
                crate::print::printed_all(body, 1),
                "   └─\n"@,
            );
        },
        None => {},
    }
    lemma_join(five, listed_text(f), words, text);
    lemma_more_after(five + words, listed_text(f) + text, "\n"@);
    assert(four =~= seq![p.name, p.url, p.uri, n]);
}

proof fn lemma_with_documents(s: StoreState, docs: Seq<SpecDocument>, uri: Seq<char>)
    ensures
        ({
            let after = with_documents(s, docs);
            &&& after.publications == s.publications
            &&& after.follows == s.follows
            &&& after.show_images == s.show_images
            &&& s.documents.dom().contains(uri) ==> after.documents.dom().contains(uri)
                && after.documents[uri].read == s.documents[uri].read
        }),
        forall|i: int|
            0 <= i < docs.len() ==> with_documents(s, docs).documents.dom().contains(
                (#[trigger] docs[i]).uri,
            ),
    decreases docs.len(),
{
    if docs.len() > 0 {
        lemma_with_documents(s, docs.drop_last(), uri);
        assert forall|i: int| 0 <= i < docs.len() implies with_documents(
            s,
            docs,
        ).documents.dom().contains((#[trigger] docs[i]).uri) by {
            if i < docs.len() - 1 {
                assert(docs.drop_last()[i] == docs[i]);
            }
        }
    }
}

/// A publication that was fetched is kept: the publication itself, every document on the
/// page, and the body of the one that was read; nothing that was held is gone, nor its mark.
pub proof fn law_a_fetched_publication_is_kept(s: StoreState, f: Fetched, uri: Seq<char>)
    ensures
        ({
            let after = fetched_state(s, f);
            &&& after.publications.dom().contains(f.publication.uri)
            &&& after.publications[f.publication.uri] == f.publication
            &&& forall|i: int|
                0 <= i < f.docs.len() ==> after.documents.dom().contains(
                    (#[trigger] f.docs[i]).uri,
                )
            &&& f.reading matches Some((meta, body)) ==> after.documents.dom().contains(meta.uri)
                && after.documents[meta.uri].body == Some(body)
            &&& s.documents.dom().contains(uri) ==> after.documents.dom().contains(uri)
                && after.documents[uri].read == s.documents[uri].read
            &&& after.follows == s.follows
        }),
{
    let mid = s.with_publication(f.publication);
    lemma_with_documents(mid, f.docs, uri);
    match f.reading {
        Some((meta, body)) => {
            lemma_with_documents(mid, f.docs, meta.uri);
        },
        None => {},
    }
}

/// Publications are printed one after the other, by their names.
pub proof fn law_publications_are_printed_in_order(fs: Seq<Fetched>)
    ensures
        stand_in(fs.map_values(|f: Fetched| f.publication.name), fetched_texts(fs)),
    decreases fs.len(),
{
    let names = fs.map_values(|f: Fetched| f.publication.name);
    if fs.len() > 0 {
        law_publications_are_printed_in_order(fs.drop_last());
        let f = fs.last();
        let before = fs.drop_last().map_values(|f: Fetched| f.publication.name);
        let name = f.publication.name;
        lemma_itself(name);
        let n: int = ("══ "@.len() + name.len()) as int;
        let rest = fetched_text(f).skip(n);
        lemma_around("══ "@, seq![name], name, rest);
        assert("══ "@ + name + rest =~= fetched_text(f));
        lemma_join(before, fetched_texts(fs.drop_last()), seq![name], fetched_text(f));
        assert(before + seq![name] =~= names);
    }
}

/// What is shown of a repository: what it subscribes to, and its own only without that.
pub proof fn law_subscriptions_come_first(c: Choice)
    ensures
        c.subscriptions.len() > 0 ==> c.targets() == crate::report::parsed_uris(
            c.subscriptions.map_values(|x: crate::model::SpecSubscription| x.publication),
        ),
        c.subscriptions.len() == 0 ==> c.targets() == crate::report::parsed_uris(
            c.own.map_values(|x: SpecPublication| x.uri),
        ),
{
    assert(crate::report::subscribed(c.subscriptions) =~= c.subscriptions.map_values(
        |x: crate::model::SpecSubscription| x.publication,
    ));
    assert(crate::report::own_uris(c.own) =~= c.own.map_values(|x: SpecPublication| x.uri));
}

/// URIs are taken in order, and one that does not parse is passed over.
pub proof fn law_targets_are_the_uris_that_parse(s: Seq<Seq<char>>)
    ensures
        crate::report::parsed_uris(s) == s.filter_map(
            |u: Seq<char>| crate::atp::parsed_at_uri(u),
        ),
    decreases s.len(),
{
    let all = s.filter_map(|u: Seq<char>| crate::atp::parsed_at_uri(u));
    if s.len() > 0 {
        law_targets_are_the_uris_that_parse(s.drop_last());
        let before = crate::report::parsed_uris(s.drop_last());
        match crate::atp::parsed_at_uri(s.last()) {
            Some(u) => {
                assert(before.push(u) =~= before + seq![u]);
            },
            None => {},
        }
    } else {
        assert(crate::report::parsed_uris(s) =~= all);
    }
}

/// A body of a document is held.
pub open spec fn body_held(s: StoreState, uri: Seq<char>) -> bool {
    s.documents.dom().contains(uri) && s.documents[uri].body is Some
}

/// What the cache shows whole is the first document whose body it holds.
pub proof fn law_the_first_held_is_shown(s: StoreState, docs: Seq<SpecDocument>)
    ensures
        match first_held(s, docs) {
            Some(read) => exists|i: int|
                0 <= i < docs.len() && is_held(s, (#[trigger] docs[i]).uri, read) && (forall|
                    j: int,
                |
                    0 <= j < i ==> !body_held(s, (#[trigger] docs[j]).uri)),
            None => forall|j: int|
                0 <= j < docs.len() ==> !body_held(s, (#[trigger] docs[j]).uri),
        },
    decreases docs.len(),
{
    if docs.len() > 0 {
        let before = docs.drop_last();
        law_the_first_held_is_shown(s, before);
        match first_held(s, before) {
            Some(read) => {
                let i = choose|i: int|
                    0 <= i < before.len() && is_held(s, (#[trigger] before[i]).uri, read) && (
                    forall|j: int| 0 <= j < i ==> !body_held(s, (#[trigger] before[j]).uri));
                assert(before[i] == docs[i]);
                assert forall|j: int| 0 <= j < i implies !body_held(
                    s,
                    (#[trigger] docs[j]).uri,
                ) by {
                    assert(before[j] == docs[j]);
                }
                assert(is_held(s, docs[i].uri, read));
            },
            None => {
                let n = docs.len() - 1;
                assert forall|j: int| 0 <= j < n implies !body_held(
                    s,
                    (#[trigger] docs[j]).uri,
                ) by {
                    assert(before[j] == docs[j]);
                }
                assert(docs[n] == docs.last());
                if first_held(s, docs) is Some {
                    assert(is_held(s, docs[n].uri, first_held(s, docs)->0));
                }
            },
        }
    }
}

/// The cache's report of a publication holds its name, the number of its documents and each
/// of them, and what the one that is shown whole says.
pub proof fn law_the_cache_is_printed(
    p: SpecPublication,
    docs: Seq<SpecDocument>,
    reading: Option<SpecRead>,
)
    requires
        all_titled(docs),
    ensures
        stand_in(
            seq![p.name, p.url, decimal(docs.len())] + entries_said(docs) + (match reading {
                Some((meta, body)) => blocks_said(body),
                None => Seq::empty(),
            }),
            cached_text(p, docs, reading),
        ),
{
    let none = Seq::<char>::empty();
    lemma_itself(p.name);
    lemma_around("══ "@, seq![p.name], p.name, " · "@);
    lemma_itself(p.url);
    lemma_join(seq![p.name], "══ "@ + p.name + " · "@, seq![p.url], p.url);
    let two = seq![p.name] + seq![p.url];
    lemma_more_after(two, "══ "@ + p.name + " · "@ + p.url, "\n"@);
    lemma_more_after(two, heading(p), "   "@);
    let n = decimal(docs.len());
    lemma_itself(n);
    lemma_join(two, heading(p) + "   "@, seq![n], n);
    let three = two + seq![n];
    lemma_more_after(three, heading(p) + "   "@ + n, " document(s)\n"@);
    law_every_document_is_listed(docs);
    let head = heading(p) + "   "@ + n + " document(s)\n"@;
    lemma_join(three, head, entries_said(docs), bullets(docs));
    let four = three + entries_said(docs);
    let (words, text) = match reading {
        Some((meta, body)) => (blocks_said(body), reading_text(meta.title, body)),
        None => (Seq::empty(), none),
    };
    match reading {
        Some((meta, body)) => {
            law_a_printed_document_says_it_all(body, 1);
            lemma_around(
                "\n   ┌─ reading: "@ + shown_title(meta.title) + "\n"@,
                blocks_said(body),
                crate::print::printed_all(body, 1),
                "   └─\n"@,
            );
        },
        None => {},
    }
    lemma_join(four, head + bullets(docs), words, text);
    lemma_more_after(four + words, head + bullets(docs) + text, "\n"@);
    assert(three =~= seq![p.name, p.url, n]);
}

} // verus!
