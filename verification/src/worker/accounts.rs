//! Adding blogs.
use vstd::prelude::*;

use crate::account::SpecAccount;
use crate::atp::{parsed_at_uri, AtUri, SpecAtUri, Transport};
use crate::auth_provider::AuthProvider;
use crate::memstore::pairs_view;
use crate::model::{
    documents_view, publications_view, Document, Publication, SpecDocument, SpecPublication,
};
use crate::read::{
    discover_publication_uri, discovered, get_publication, identity_resolved, identity_result,
    list_publications, opt_result, publication_fetched, publication_result, publications_listed,
    publications_result, resolve_identity, window_read, Identity, ReadError, Reply, SpecDocPage,
    SpecIdentity, SpecReadError,
};
use crate::store::{FrontendStore, Store, StoreState};
use crate::text::{begins_with, decimal, decimal_of, join2, owned, starts_with};
use crate::url::{normalize, normalized, page_address, page_url};
use crate::worker::feeds::{
    taken_view, watermarked, window_kept, window_taken, WINDOW_PAGES,
};
use crate::worker::follows::{follow_events, followed, record_tried, Written};
use crate::worker::tasks::{cache_held, is_home, WorkError, Worker};
use crate::worker::{FromWorker, SpecEvent};

verus! {

// --- Which publications a blog means ----------------------------------------------

/// What a page that announces a publication leads to.
pub open spec fn page_leads_to<T: Transport>(
    t: T,
    url: Seq<char>,
    reply: Reply,
    found: Option<(SpecPublication, SpecIdentity)>,
) -> bool {
    &&& t.answers(url, reply)
    &&& match discovered(reply) {
        Ok(Some(at)) => match parsed_at_uri(at) {
            Some(uri) => publication_reached(t, uri, found),
            None => found is None,
        },
        _ => found is None,
    }
}

/// What fetching an announced publication leads to: nothing where it fails.
pub open spec fn publication_reached<T: Transport>(
    t: T,
    uri: SpecAtUri,
    found: Option<(SpecPublication, SpecIdentity)>,
) -> bool {
    exists|r: Result<(SpecPublication, SpecIdentity), SpecReadError>| #[trigger]
        publication_fetched(t, uri, r) && found == (match r {
            Ok(p) => Some(p),
            Err(_) => None,
        })
}

/// What a typed blog that is no handle leads to: the publication that its page
/// announces. A DID is no page.
pub open spec fn page_resolved<T: Transport>(
    t: T,
    input: Seq<char>,
    host: Seq<char>,
    found: Option<(SpecPublication, SpecIdentity)>,
) -> bool {
    if begins_with(host, "did:"@) {
        found is None
    } else {
        exists|reply: Reply| #[trigger] page_leads_to(t, page_url(input, host), reply, found)
    }
}

/// The publications that a typed blog means, and where they live.
pub type Candidates = Result<(SpecIdentity, Seq<SpecPublication>), SpecReadError>;

/// A handle or DID means every publication of its repository.
pub open spec fn repo_candidates<T: Transport>(t: T, id: SpecIdentity, c: Candidates) -> bool {
    exists|r: Result<Seq<SpecPublication>, SpecReadError>| #[trigger]
        publications_listed(t, id, r) && c == (match r {
            Ok(pubs) => Ok((id, pubs)),
            Err(e) => Err(e),
        })
}

/// A page means the one publication that it announces; else it was no blog.
pub open spec fn page_candidates<T: Transport>(
    t: T,
    input: Seq<char>,
    host: Seq<char>,
    why: SpecReadError,
    c: Candidates,
) -> bool {
    exists|found: Option<(SpecPublication, SpecIdentity)>| #[trigger]
        page_resolved(t, input, host, found) && c == (match found {
            Some((p, id)) => Ok((id, seq![p])),
            None => Err(why),
        })
}

/// The publications that a typed blog means.
pub open spec fn candidates_found<T: Transport>(t: T, input: Seq<char>, c: Candidates) -> bool {
    exists|id: Result<SpecIdentity, SpecReadError>|
        {
            &&& #[trigger] identity_resolved(t, normalized(input), id)
            &&& match id {
                Ok(i) => repo_candidates(t, i, c),
                Err(e) => page_candidates(t, input, normalized(input), e, c),
            }
        }
}

impl<T: Transport, S: FrontendStore, A: AuthProvider> Worker<T, S, A> {
    /// The publication that a page announces, and where it lives.
    fn resolve_via_page(&self, input: &str, host: &str) -> (r: Option<(Publication, Identity)>)
        ensures
            page_resolved(
                self.transport,
                input@,
                host@,
                match r {
                    Some(p) => Some((p.0@, p.1@)),
                    None => None,
                },
            ),
    {
        if starts_with(host, "did:") {
            return None;
        }
        let url = page_address(input, host);
        let got = discover_publication_uri(&self.transport, url.as_str());
        let ghost reply = choose|reply: Reply| #[trigger]
            self.transport.answers(url@, reply) && opt_result(got) == discovered(reply);
        let at = match got {
            Ok(Some(at)) => at,
            _ => {
                assert(page_leads_to(self.transport, page_url(input@, host@), reply, None));
                return None;
            },
        };
        let uri = match AtUri::parse(at.as_str()) {
            Some(u) => u,
            None => {
                assert(page_leads_to(self.transport, page_url(input@, host@), reply, None));
                return None;
            },
        };
        let found = get_publication(&self.transport, &uri);
        let ghost f = publication_result(found);
        assert(publication_fetched(self.transport, uri@, f));
        match found {
            Ok(p) => {
                assert(publication_reached(self.transport, uri@, Some((p.0@, p.1@))));
                assert(page_leads_to(
                    self.transport,
                    page_url(input@, host@),
                    reply,
                    Some((p.0@, p.1@)),
                ));
                Some(p)
            },
            Err(_) => {
                assert(publication_reached(self.transport, uri@, None));
                assert(page_leads_to(self.transport, page_url(input@, host@), reply, None));
                None
            },
        }
    }

    /// The publications that a typed blog means.
    fn find_candidates(&self, input: &str, target: &str) -> (r: Result<
        (Identity, Vec<Publication>),
        ReadError,
    >)
        requires
            target@ == normalized(input@),
        ensures
            candidates_found(
                self.transport,
                input@,
                match r {
                    Ok(p) => Ok((p.0@, publications_view(p.1@))),
                    Err(e) => Err(e@),
                },
            ),
    {
        let got = resolve_identity(&self.transport, target);
        let ghost id = identity_result(got);
        assert(identity_resolved(self.transport, normalized(input@), id));
        match got {
            Ok(identity) => {
                let listed = list_publications(&self.transport, &identity);
                let ghost l = publications_result(listed);
                assert(publications_listed(self.transport, identity@, l));
                match listed {
                    Ok(pubs) => {
                        assert(repo_candidates(
                            self.transport,
                            identity@,
                            Ok::<_, SpecReadError>((identity@, publications_view(pubs@))),
                        ));
                        Ok((identity, pubs))
                    },
                    Err(e) => {
                        assert(repo_candidates(
                            self.transport,
                            identity@,
                            Err::<(SpecIdentity, Seq<SpecPublication>), SpecReadError>(e@),
                        ));
                        Err(e)
                    },
                }
            },
            Err(why) => {
                let found = self.resolve_via_page(input, target);
                match found {
                    Some((p, identity)) => {
                        assert(page_resolved(
                            self.transport,
                            input@,
                            target@,
                            Some((p@, identity@)),
                        ));
                        let mut pubs: Vec<Publication> = Vec::new();
                        pubs.push(p);
                        assert(publications_view(pubs@) =~= seq![p@]);
                        assert(page_candidates(
                            self.transport,
                            input@,
                            target@,
                            why@,
                            Ok::<_, SpecReadError>((identity@, seq![p@])),
                        ));
                        Ok((identity, pubs))
                    },
                    None => {
                        assert(page_resolved(self.transport, input@, target@, None));
                        assert(page_candidates(
                            self.transport,
                            input@,
                            target@,
                            why@,
                            Err::<(SpecIdentity, Seq<SpecPublication>), SpecReadError>(why@),
                        ));
                        Err(why)
                    },
                }
            },
        }
    }
}

// --- Adding a blog ----------------------------------------------------------------

/// Everything that was reported before is still there.
pub open spec fn said_more(before: Seq<SpecEvent>, after: Seq<SpecEvent>) -> bool {
    before.len() <= after.len() && after.take(before.len() as int) == before
}

pub(crate) proof fn lemma_said_push(before: Seq<SpecEvent>, mid: Seq<SpecEvent>, e: SpecEvent)
    requires
        said_more(before, mid),
    ensures
        said_more(before, mid.push(e)),
{
    assert(mid.push(e).take(before.len() as int) =~= mid.take(before.len() as int));
}

proof fn lemma_said_trans(a: Seq<SpecEvent>, b: Seq<SpecEvent>, c: Seq<SpecEvent>)
    requires
        said_more(a, b),
        said_more(b, c),
    ensures
        said_more(a, c),
{
    assert(c.take(a.len() as int) =~= a) by {
        assert forall|i: int| 0 <= i < a.len() implies c[i] == a[i] by {
            assert(c.take(b.len() as int)[i] == b[i]);
            assert(b.take(a.len() as int)[i] == a[i]);
        }
    }
}

proof fn lemma_said_append(a: Seq<SpecEvent>, more: Seq<SpecEvent>)
    ensures
        said_more(a, a + more),
{
    assert((a + more).take(a.len() as int) =~= a);
}

/// The publications that were not followed before, each once, in order.
pub open spec fn new_follows(had: Set<Seq<char>>, pubs: Seq<SpecPublication>) -> Seq<Seq<char>>
    decreases pubs.len(),
{
    if pubs.len() == 0 {
        Seq::empty()
    } else {
        let p = new_follows(had, pubs.drop_last());
        let uri = pubs.last().uri;
        if had.contains(uri) || p.contains(uri) {
            p
        } else {
            p.push(uri)
        }
    }
}

/// With publications put in one after the other.
pub open spec fn with_publications(
    m: Map<Seq<char>, SpecPublication>,
    pubs: Seq<SpecPublication>,
) -> Map<Seq<char>, SpecPublication>
    decreases pubs.len(),
{
    if pubs.len() == 0 {
        m
    } else {
        with_publications(m, pubs.drop_last()).insert(pubs.last().uri, pubs.last())
    }
}

/// Publications were kept and followed: nothing else changed, and no follow that was
/// there before.
pub open spec fn adopted(s: StoreState, after: StoreState, pubs: Seq<SpecPublication>) -> bool {
    &&& after.publications == with_publications(s.publications, pubs)
    &&& after.documents == s.documents
    &&& after.blobs == s.blobs
    &&& after.sync_cursors == s.sync_cursors
    &&& after.older_cursors == s.older_cursors
    &&& after.show_images == s.show_images
    &&& forall|k: Seq<char>|
        #[trigger] after.follows.dom().contains(k) <==> s.follows.dom().contains(k)
            || new_follows(s.follows.dom(), pubs).contains(k)
    &&& forall|k: Seq<char>|
        #[trigger] s.follows.dom().contains(k) ==> after.follows[k] == s.follows[k]
}

/// `written` is what came of mirroring a publication's follow: tried for a new one while
/// someone is signed in, and only then.
pub open spec fn is_mirrored<A: AuthProvider>(
    auth: Option<A>,
    who: Option<SpecAccount>,
    s: StoreState,
    publication: Seq<char>,
    written: Written,
) -> bool {
    match who {
        Some(a) => if s.follows.dom().contains(publication) {
            written is None
        } else {
            written matches Some(reply) && record_tried(auth, a.did, publication, reply)
        },
        None => written is None,
    }
}

/// A publication is kept and, where it is new, followed with what came of mirroring it.
pub open spec fn taken_in(s: StoreState, p: SpecPublication, written: Written) -> StoreState {
    let kept = s.with_publication(p);
    if kept.follows.dom().contains(p.uri) {
        kept
    } else {
        followed(kept, p.uri, written)
    }
}

/// Publications are taken in one after the other.
pub open spec fn all_taken_in(
    s: StoreState,
    pubs: Seq<SpecPublication>,
    written: Seq<Written>,
) -> StoreState
    decreases pubs.len(),
{
    if pubs.len() == 0 {
        s
    } else {
        taken_in(
            all_taken_in(s, pubs.drop_last(), written.drop_last()),
            pubs.last(),
            written.last(),
        )
    }
}

/// Each follow was mirrored in its turn.
pub open spec fn all_mirrored<A: AuthProvider>(
    auth: Option<A>,
    who: Option<SpecAccount>,
    s: StoreState,
    pubs: Seq<SpecPublication>,
    written: Seq<Written>,
) -> bool
    decreases pubs.len(),
{
    &&& written.len() == pubs.len()
    &&& pubs.len() > 0 ==> {
        let before = all_taken_in(s, pubs.drop_last(), written.drop_last());
        &&& all_mirrored(auth, who, s, pubs.drop_last(), written.drop_last())
        &&& is_mirrored(auth, who, before, pubs.last().uri, written.last())
    }
}

/// What is reported of mirroring follows.
pub open spec fn mirror_events(written: Seq<Written>) -> Seq<SpecEvent>
    decreases written.len(),
{
    if written.len() == 0 {
        Seq::empty()
    } else {
        mirror_events(written.drop_last()) + follow_events(written.last())
    }
}

/// The newest document of each publication is noted.
pub open spec fn all_marked(
    s: StoreState,
    pubs: Seq<SpecPublication>,
    docs: Seq<SpecDocument>,
) -> StoreState
    decreases pubs.len(),
{
    if pubs.len() == 0 {
        s
    } else {
        watermarked(all_marked(s, pubs.drop_last(), docs), pubs.last().uri, docs)
    }
}

/// What is said after a blog was added.
pub open spec fn added_status(n: nat, target: Seq<char>) -> Seq<char> {
    if n == 0 {
        "already following "@ + target
    } else {
        "followed "@ + decimal(n) + " publication(s) from "@ + target
    }
}

fn describe_added(n: usize, target: &str) -> (r: String)
    ensures
        r@ == added_status(n as nat, target@),
{
    if n == 0 {
        join2("already following ", target)
    } else {
        let mut s = owned("followed ");
        let d = decimal_of(n as u64);
        s.push_str(d.as_str());
        s.push_str(" publication(s) from ");
        s.push_str(target);
        s
    }
}

/// A blog was added: its publications are kept and followed, a window of the repository's
/// newest documents is kept, the newest of each publication is noted, and the feed list is
/// reported after a word on what was done.
pub open spec fn blog_added<T: Transport>(
    t: T,
    id: SpecIdentity,
    pubs: Seq<SpecPublication>,
    page: SpecDocPage,
    written: Seq<Written>,
    s: StoreState,
    after: StoreState,
    said: Seq<SpecEvent>,
    said_after: Seq<SpecEvent>,
    target: Seq<char>,
) -> bool {
    let mid = all_taken_in(s, pubs, written);
    &&& adopted(s, mid, pubs)
    &&& window_read(t, id, None, WINDOW_PAGES, Ok::<SpecDocPage, SpecReadError>(page))
    &&& after == all_marked(window_kept(mid, id.did, page), pubs, page.0)
    &&& said_after.len() > 0
    &&& said_after.drop_last() == (said + mirror_events(written)).push(
        SpecEvent::Status(added_status(new_follows(s.follows.dom(), pubs).len(), target)),
    )
    &&& is_home(after, said_after.last())
}

/// A blog was added, whatever its documents were and whatever came of mirroring.
pub open spec fn blog_taken<T: Transport, A: AuthProvider>(
    t: T,
    auth: Option<A>,
    who: Option<SpecAccount>,
    id: SpecIdentity,
    pubs: Seq<SpecPublication>,
    s: StoreState,
    after: StoreState,
    said: Seq<SpecEvent>,
    said_after: Seq<SpecEvent>,
    target: Seq<char>,
) -> bool {
    exists|page: SpecDocPage, written: Seq<Written>|
        {
            &&& #[trigger] blog_added(
                t,
                id,
                pubs,
                page,
                written,
                s,
                after,
                said,
                said_after,
                target,
            )
            &&& all_mirrored(auth, who, s, pubs, written)
        }
}

/// Publications were followed, each mirrored and reported, and nothing more was taken in.
pub open spec fn only_followed<A: AuthProvider>(
    auth: Option<A>,
    who: Option<SpecAccount>,
    pubs: Seq<SpecPublication>,
    s: StoreState,
    after: StoreState,
    said: Seq<SpecEvent>,
    said_after: Seq<SpecEvent>,
) -> bool {
    exists|written: Seq<Written>|
        {
            &&& #[trigger] all_mirrored(auth, who, s, pubs, written)
            &&& after == all_taken_in(s, pubs, written)
            &&& said_after == said + mirror_events(written)
        }
}

/// Publications to choose from: URI and name.
pub open spec fn choices_of(pubs: Seq<SpecPublication>) -> Seq<(Seq<char>, Seq<char>)> {
    pubs.map_values(|p: SpecPublication| (p.uri, p.name))
}

fn choices(pubs: &Vec<Publication>) -> (r: Vec<(String, String)>)
    ensures
        pairs_view(r@) == choices_of(publications_view(pubs@)),
{
    let mut out: Vec<(String, String)> = Vec::new();
    let mut i: usize = 0;
    while i < pubs.len()
        invariant
            i <= pubs@.len(),
            out@.len() == i,
            forall|k: int|
                0 <= k < i ==> (#[trigger] out@[k]).0@ == pubs@[k]@.uri && out@[k].1@
                    == pubs@[k]@.name,
        decreases pubs@.len() - i,
    {
        out.push((pubs[i].uri.clone(), pubs[i].name.clone()));
        i = i + 1;
    }
    assert(pairs_view(out@) =~= choices_of(publications_view(pubs@)));
    out
}

/// What adding a blog came to: nothing where it leads nowhere, a word where it has no
/// publications, a choice where it has several, and else the blog.
pub open spec fn blog_outcome<T: Transport, A: AuthProvider, E>(
    t: T,
    auth: Option<A>,
    who: Option<SpecAccount>,
    c: Candidates,
    s: StoreState,
    after: StoreState,
    said: Seq<SpecEvent>,
    said_after: Seq<SpecEvent>,
    target: Seq<char>,
    r: Result<(), WorkError<E>>,
) -> bool {
    match c {
        Err(e) => {
            &&& r matches Err(WorkError::Read(f)) && f@ == e
            &&& after == s
            &&& said_after == said
        },
        Ok((id, pubs)) => if pubs.len() == 0 {
            &&& r is Ok
            &&& after == s
            &&& said_after == said.push(
                SpecEvent::Status("no publications found at "@ + target),
            )
        } else if pubs.len() > 1 {
            &&& r is Ok
            &&& after == s
            &&& said_after == said.push(
                SpecEvent::ChoosePublications { candidates: choices_of(pubs) },
            )
        } else {
            match r {
                Ok(_) => blog_taken(
                    t,
                    auth,
                    who,
                    id,
                    pubs,
                    s,
                    after,
                    said,
                    said_after,
                    target,
                ),
                Err(WorkError::Store(_)) => true,
                Err(WorkError::Read(e)) => {
                    &&& window_read(
                        t,
                        id,
                        None,
                        WINDOW_PAGES,
                        Err::<SpecDocPage, SpecReadError>(e@),
                    )
                    &&& only_followed(
                        auth,
                        who,
                        pubs,
                        s,
                        after,
                        said,
                        said_after,
                    )
                },
                Err(WorkError::Message(_)) => false,
            }
        },
    }
}

impl<T: Transport, S: FrontendStore, A: AuthProvider> Worker<T, S, A> {
    /// Keep and follow publications; how many were not followed before.
    fn adopt(&mut self, pubs: &Vec<Publication>) -> (r: Result<usize, WorkError<S::Error>>)
        ensures
            S::reliable() ==> cache_held(r),
            final(self).same_world(old(self)),
            final(self).account == old(self).account,
            said_more(old(self).said(), final(self).said()),
            r matches Ok(n) ==> {
                &&& adopted(old(self).state(), final(self).state(), publications_view(pubs@))
                &&& n == new_follows(
                    old(self).state().follows.dom(),
                    publications_view(pubs@),
                ).len()
                &&& exists|written: Seq<Written>|
                    {
                        &&& #[trigger] all_mirrored(
                            old(self).auth,
                            old(self).who(),
                            old(self).state(),
                            publications_view(pubs@),
                            written,
                        )
                        &&& final(self).state() == all_taken_in(
                            old(self).state(),
                            publications_view(pubs@),
                            written,
                        )
                        &&& final(self).said() == old(self).said() + mirror_events(written)
                    }
            },
            r matches Err(e) ==> e is Store,
    {
        let ghost mut written: Seq<Written> = Seq::empty();
        let ghost all = publications_view(pubs@);
        let ghost s = self.state();
        let ghost had = s.follows.dom();
        let mut added: usize = 0;
        let mut i: usize = 0;
        assert(all.take(0) =~= Seq::empty());
        assert(self.said().take(self.said().len() as int) =~= self.said());
        assert(self.said() + mirror_events(written) =~= self.said());
        while i < pubs.len()
            invariant
                i <= pubs@.len(),
                all == publications_view(pubs@),
                all.len() == pubs@.len(),
                s == old(self).state(),
                had == s.follows.dom(),
                self.same_world(old(self)),
                self.account == old(self).account,
                all_mirrored(old(self).auth, old(self).who(), s, all.take(i as int), written),
                self.state() == all_taken_in(s, all.take(i as int), written),
                self.said() == old(self).said() + mirror_events(written),
                said_more(old(self).said(), self.said()),
                adopted(s, self.state(), all.take(i as int)),
                added == new_follows(had, all.take(i as int)).len(),
                added <= i,
            decreases pubs@.len() - i,
        {
            let ghost before = self.state();
            let ghost p = all[i as int];
            let ghost taken = all.take(i as int);
            proof {
                assert(p == pubs@[i as int]@);
                assert(all.take(i + 1).drop_last() =~= taken);
                assert(all.take(i + 1).last() == p);
            }
            match self.store.upsert_publication(&pubs[i]) {
                Ok(_) => {},
                Err(e) => return Err(WorkError::Store(e)),
            }
            let already = match self.store.is_followed(pubs[i].uri.as_str()) {
                Ok(b) => b,
                Err(e) => return Err(WorkError::Store(e)),
            };
            let ghost mid = self.state();
            let ghost said = self.said();
            let ghost there = *self;
            let ghost mut came: Written = None;
            if !already {
                match self.follow(pubs[i].uri.as_str()) {
                    Ok(_) => {},
                    Err(e) => return Err(e),
                }
                proof {
                    came = choose|w: Written|
                        {
                            &&& #[trigger] there.follow_written(p.uri, w)
                            &&& self.state() == followed(mid, p.uri, w)
                            &&& self.said() == said + follow_events(w)
                        };
                    lemma_said_append(said, follow_events(came));
                    lemma_said_trans(old(self).said(), said, self.said());
                }
                added = added + 1;
            } else {
                assert(said + follow_events(came) =~= said);
            }
            proof {
                let more = written.push(came);
                assert(more.drop_last() =~= written);
                assert(is_mirrored(old(self).auth, old(self).who(), before, p.uri, came));
                assert(self.state() == taken_in(before, p, came));
                assert(self.said() =~= old(self).said() + mirror_events(more));
                written = more;
            }
            proof {
                let fresh = new_follows(had, taken);
                let more = new_follows(had, all.take(i + 1));
                assert forall|k: Seq<char>|
                    #[trigger] self.state().follows.dom().contains(k) <==> had.contains(k)
                        || more.contains(k) by {
                    assert(before.follows.dom().contains(k) <==> had.contains(k)
                        || fresh.contains(k));
                    assert(before.follows.dom().contains(p.uri) <==> had.contains(p.uri)
                        || fresh.contains(p.uri));
                    if !already {
                        assert(more == fresh.push(p.uri));
                        if fresh.contains(k) {
                            let j = choose|j: int| 0 <= j < fresh.len() && fresh[j] == k;
                            assert(more[j] == k);
                        }
                        assert(more[fresh.len() as int] == p.uri);
                        if more.contains(k) {
                            let j = choose|j: int| 0 <= j < more.len() && more[j] == k;
                            if j < fresh.len() {
                                assert(fresh[j] == k);
                            }
                        }
                    }
                }
                assert(before.follows.dom().contains(p.uri) <==> had.contains(p.uri)
                    || fresh.contains(p.uri));
                assert forall|k: Seq<char>| #[trigger] had.contains(k) implies self.state().follows[k]
                    == s.follows[k] by {
                    assert(s.follows.dom().contains(k));
                }
            }
            i = i + 1;
        }
        assert(all.take(all.len() as int) =~= all);
        Ok(added)
    }

    fn mark_all(&mut self, pubs: &Vec<Publication>, docs: &Vec<Document>) -> (r: Result<
        (),
        WorkError<S::Error>,
    >)
        ensures
            S::reliable() ==> cache_held(r),
            final(self).same_but_store(old(self)),
            r is Ok ==> final(self).state() == all_marked(
                old(self).state(),
                publications_view(pubs@),
                documents_view(docs@),
            ),
            r matches Err(e) ==> e is Store,
    {
        let ghost all = publications_view(pubs@);
        let ghost s = self.state();
        let mut i: usize = 0;
        assert(all.take(0) =~= Seq::empty());
        while i < pubs.len()
            invariant
                i <= pubs@.len(),
                all == publications_view(pubs@),
                all.len() == pubs@.len(),
                self.same_but_store(old(self)),
                self.state() == all_marked(s, all.take(i as int), documents_view(docs@)),
            decreases pubs@.len() - i,
        {
            assert(all[i as int] == pubs@[i as int]@);
            assert(all.take(i + 1).drop_last() =~= all.take(i as int));
            match self.record_watermark(pubs[i].uri.as_str(), docs) {
                Ok(_) => {},
                Err(e) => return Err(e),
            }
            i = i + 1;
        }
        assert(all.take(all.len() as int) =~= all);
        Ok(())
    }

    fn add_candidates(
        &mut self,
        identity: &Identity,
        pubs: &Vec<Publication>,
        target: &str,
    ) -> (r: Result<(), WorkError<S::Error>>)
        ensures
            S::reliable() ==> cache_held(r),
            final(self).same_world(old(self)),
            final(self).account == old(self).account,
            said_more(old(self).said(), final(self).said()),
            match r {
                Ok(_) => blog_taken(
                    old(self).transport,
                    old(self).auth,
                    old(self).who(),
                    identity@,
                    publications_view(pubs@),
                    old(self).state(),
                    final(self).state(),
                    old(self).said(),
                    final(self).said(),
                    target@,
                ),
                Err(WorkError::Store(_)) => true,
                Err(WorkError::Read(e)) => {
                    &&& window_read(
                        old(self).transport,
                        identity@,
                        None,
                        WINDOW_PAGES,
                        Err::<SpecDocPage, SpecReadError>(e@),
                    )
                    &&& only_followed(
                        old(self).auth,
                        old(self).who(),
                        publications_view(pubs@),
                        old(self).state(),
                        final(self).state(),
                        old(self).said(),
                        final(self).said(),
                    )
                },
                Err(WorkError::Message(_)) => false,
            },
    {
        let ghost s = self.state();
        let ghost t = self.transport;
        let added = match self.adopt(pubs) {
            Ok(n) => n,
            Err(e) => return Err(e),
        };
        let ghost written = choose|written: Seq<Written>|
            {
                &&& #[trigger] all_mirrored(
                    old(self).auth,
                    old(self).who(),
                    s,
                    publications_view(pubs@),
                    written,
                )
                &&& self.state() == all_taken_in(s, publications_view(pubs@), written)
                &&& self.said() == old(self).said() + mirror_events(written)
            };
        let ghost known = self.state();
        let got = self.take_window(identity, None);
        let ghost page = choose|page: Result<SpecDocPage, SpecReadError>|
            {
                &&& #[trigger] window_read(t, identity@, None, WINDOW_PAGES, page)
                &&& window_taken(known, self.state(), identity@.did, page, taken_view(got))
            };
        let docs = match got {
            Ok(d) => d,
            Err(e) => return Err(e),
        };
        match self.mark_all(pubs, &docs) {
            Ok(_) => {},
            Err(e) => return Err(e),
        }
        let ghost before = self.said();
        self.send(FromWorker::Status(describe_added(added, target)));
        let ghost said = self.said();
        proof {
            lemma_said_push(old(self).said(), before, said.last());
            assert(before.push(said.last()) =~= said);
        }
        match self.load_home() {
            Ok(_) => {
                proof {
                    assert(self.said().drop_last() == said);
                    assert(self.said() =~= said.push(self.said().last()));
                    lemma_said_push(old(self).said(), said, self.said().last());
                    assert(blog_added(
                        t,
                        identity@,
                        publications_view(pubs@),
                        page->Ok_0,
                        written,
                        s,
                        self.state(),
                        old(self).said(),
                        self.said(),
                        target@,
                    ));
                }
                Ok(())
            },
            Err(e) => Err(e),
        }
    }

    /// A blog was followed and its newest documents fetched, or its publications were
    /// offered, or why not.
    #[verifier::opaque]
    pub open spec fn feed_added(
        &self,
        after: &Self,
        input: Seq<char>,
        r: Result<(), WorkError<S::Error>>,
    ) -> bool {
        &&& after.same_world(self)
        &&& after.account == self.account
        &&& said_more(self.said(), after.said())
        &&& exists|c: Candidates| #[trigger]
            candidates_found(self.transport, input, c) && blog_outcome(
                self.transport,
                self.auth,
                self.who(),
                c,
                self.state(),
                after.state(),
                self.said(),
                after.said(),
                normalized(input),
                r,
            )
    }

    /// Follow a blog by handle, DID or address, and fetch its newest documents. A handle or
    /// DID stands for the publications of its repository, an address for the one that its
    /// page announces. Where there are several, they are offered to choose from and nothing
    /// is followed yet.
    pub fn add_feed(&mut self, input: &str) -> (r: Result<(), WorkError<S::Error>>)
        ensures
            S::reliable() ==> cache_held(r),
            old(self).feed_added(final(self), input@, r),
    {
        proof {
            reveal(Worker::feed_added);
        }
        let target = normalize(input);
        let found = self.find_candidates(input, target.as_str());
        assert(self.said().take(self.said().len() as int) =~= self.said());
        match found {
            Ok((identity, pubs)) => {
                let ghost c: Candidates = Ok((identity@, publications_view(pubs@)));
                assert(candidates_found(old(self).transport, input@, c));
                assert(publications_view(pubs@).len() == pubs@.len());
                if pubs.len() == 0 {
                    let m = join2("no publications found at ", target.as_str());
                    self.send(FromWorker::Status(m));
                    proof {
                        lemma_said_push(old(self).said(), old(self).said(), self.said().last());
                        assert(old(self).said().push(self.said().last()) =~= self.said());
                    }
                    return Ok(());
                }
                if pubs.len() > 1 {
                    self.send(FromWorker::ChoosePublications { candidates: choices(&pubs) });
                    proof {
                        lemma_said_push(old(self).said(), old(self).said(), self.said().last());
                        assert(old(self).said().push(self.said().last()) =~= self.said());
                    }
                    return Ok(());
                }
                self.add_candidates(&identity, &pubs, target.as_str())
            },
            Err(e) => {
                assert(candidates_found(
                    old(self).transport,
                    input@,
                    Err::<(SpecIdentity, Seq<SpecPublication>), SpecReadError>(e@),
                ));
                Err(WorkError::Read(e))
            },
        }
    }
}

} // verus!
