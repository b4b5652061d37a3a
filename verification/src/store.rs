//! The catalog store: a single-writer, in-memory store for the entity
//! graph, provenance assertions, and controlled vocabularies.
//!
//! The store enforces the catalog's invariants: opaque identities and
//! external identifiers are unique per entity kind, every reference
//! between entities resolves, and assertion timestamps never decrease in
//! insertion order. Every operation states exactly when it succeeds and
//! what the store holds afterwards; the surrounding program is free to
//! persist and reload the store's contents.

use vstd::prelude::*;

use crate::error::Error;
use crate::ids::{ArtistId, ExpressionId, ItemId, ManifestationId, WorkId};
use crate::model::{Artist, ArtistVal, Expression, ExpressionVal, Item, ItemVal, Manifestation,
    ManifestationVal, Work, WorkVal};
use crate::provenance::{Assertion, AssertionVal};
use crate::taxonomy::{LcgftTerm, LcmptTerm, TermVal};
use crate::text::{lex_le, lex_le_exec, chars_of, lower_chars_of, lower_seq, chars_eq, str_eq};

verus! {

/// The views of a sequence of works.
pub open spec fn works_view(v: Seq<Work>) -> Seq<WorkVal> {
    Seq::new(v.len(), |i: int| v[i]@)
}

/// The views of a sequence of expressions.
pub open spec fn expressions_view(v: Seq<Expression>) -> Seq<ExpressionVal> {
    Seq::new(v.len(), |i: int| v[i]@)
}

/// The views of a sequence of manifestations.
pub open spec fn manifestations_view(v: Seq<Manifestation>) -> Seq<ManifestationVal> {
    Seq::new(v.len(), |i: int| v[i]@)
}

/// The views of a sequence of artists.
pub open spec fn artists_view(v: Seq<Artist>) -> Seq<ArtistVal> {
    Seq::new(v.len(), |i: int| v[i]@)
}

/// The views of a sequence of items.
pub open spec fn items_view(v: Seq<Item>) -> Seq<ItemVal> {
    Seq::new(v.len(), |i: int| v[i]@)
}

/// The views of a sequence of assertions.
pub open spec fn assertions_view(v: Seq<Assertion>) -> Seq<AssertionVal> {
    Seq::new(v.len(), |i: int| v[i]@)
}

/// The views of a sequence of genre/form terms.
pub open spec fn lcgft_view(v: Seq<LcgftTerm>) -> Seq<TermVal> {
    Seq::new(v.len(), |i: int| v[i]@)
}

/// The views of a sequence of medium-of-performance terms.
pub open spec fn lcmpt_view(v: Seq<LcmptTerm>) -> Seq<TermVal> {
    Seq::new(v.len(), |i: int| v[i]@)
}

/// Some work carries the identity.
pub open spec fn has_work(ws: Seq<WorkVal>, id: WorkId) -> bool {
    exists|i: int| 0 <= i < ws.len() && (#[trigger] ws[i]).id == id
}

/// Some expression carries the identity.
pub open spec fn has_expression(es: Seq<ExpressionVal>, id: ExpressionId) -> bool {
    exists|i: int| 0 <= i < es.len() && (#[trigger] es[i]).id == id
}

/// Some manifestation carries the identity.
pub open spec fn has_manifestation(ms: Seq<ManifestationVal>, id: ManifestationId) -> bool {
    exists|i: int| 0 <= i < ms.len() && (#[trigger] ms[i]).id == id
}

/// Some artist carries the identity.
pub open spec fn has_artist(arts: Seq<ArtistVal>, id: ArtistId) -> bool {
    exists|i: int| 0 <= i < arts.len() && (#[trigger] arts[i]).id == id
}

/// Some item carries the identity.
pub open spec fn has_item(its: Seq<ItemVal>, id: ItemId) -> bool {
    exists|i: int| 0 <= i < its.len() && (#[trigger] its[i]).id == id
}

/// Some work other than the one at `except` carries the external id.
pub open spec fn work_mbid_taken_except(ws: Seq<WorkVal>, mbid: Seq<char>, except: int) -> bool {
    exists|i: int|
        0 <= i < ws.len() && i != except && (#[trigger] ws[i]).musicbrainz_id == Some(mbid)
}

/// Some expression other than the one at `except` carries the external id.
pub open spec fn expression_mbid_taken_except(
    es: Seq<ExpressionVal>,
    mbid: Seq<char>,
    except: int,
) -> bool {
    exists|i: int|
        0 <= i < es.len() && i != except && (#[trigger] es[i]).musicbrainz_id == Some(mbid)
}

/// Some manifestation other than the one at `except` carries the external
/// id.
pub open spec fn manifestation_mbid_taken_except(
    ms: Seq<ManifestationVal>,
    mbid: Seq<char>,
    except: int,
) -> bool {
    exists|i: int|
        0 <= i < ms.len() && i != except && (#[trigger] ms[i]).musicbrainz_id == Some(mbid)
}

/// Some artist other than the one at `except` carries the external id.
pub open spec fn artist_mbid_taken_except(arts: Seq<ArtistVal>, mbid: Seq<char>, except: int) -> bool {
    exists|i: int|
        0 <= i < arts.len() && i != except && (#[trigger] arts[i]).musicbrainz_id == Some(mbid)
}

/// Some item other than the one at `except` holds the file path.
pub open spec fn item_path_taken_except(its: Seq<ItemVal>, path: Seq<char>, except: int) -> bool {
    exists|i: int| 0 <= i < its.len() && i != except && (#[trigger] its[i]).file_path == path
}

/// Some work with a different identity carries the external id.
pub open spec fn work_mbid_held_by_other(ws: Seq<WorkVal>, m: Seq<char>, id: WorkId) -> bool {
    exists|i: int|
        0 <= i < ws.len() && (#[trigger] ws[i]).musicbrainz_id == Some(m) && ws[i].id != id
}

/// Some expression with a different identity carries the external id.
pub open spec fn expression_mbid_held_by_other(
    es: Seq<ExpressionVal>,
    m: Seq<char>,
    id: ExpressionId,
) -> bool {
    exists|i: int|
        0 <= i < es.len() && (#[trigger] es[i]).musicbrainz_id == Some(m) && es[i].id != id
}

/// Some manifestation with a different identity carries the external id.
pub open spec fn manifestation_mbid_held_by_other(
    ms: Seq<ManifestationVal>,
    m: Seq<char>,
    id: ManifestationId,
) -> bool {
    exists|i: int|
        0 <= i < ms.len() && (#[trigger] ms[i]).musicbrainz_id == Some(m) && ms[i].id != id
}

/// Some artist with a different identity carries the external id.
pub open spec fn artist_mbid_held_by_other(
    arts: Seq<ArtistVal>,
    m: Seq<char>,
    id: ArtistId,
) -> bool {
    exists|i: int|
        0 <= i < arts.len() && (#[trigger] arts[i]).musicbrainz_id == Some(m) && arts[i].id != id
}

/// Some item with a different identity holds the file path.
pub open spec fn item_path_held_by_other(its: Seq<ItemVal>, path: Seq<char>, id: ItemId) -> bool {
    exists|i: int|
        0 <= i < its.len() && (#[trigger] its[i]).file_path == path && its[i].id != id
}

/// An expression's references all resolve: its work, every performer, and
/// the conductor if present.
pub open spec fn expression_refs_ok(
    e: ExpressionVal,
    ws: Seq<WorkVal>,
    arts: Seq<ArtistVal>,
) -> bool {
    &&& has_work(ws, e.work_id)
    &&& forall|k: int| 0 <= k < e.performer_ids.len() ==> has_artist(arts, #[trigger] e.performer_ids[k])
    &&& match e.conductor_id {
        Some(c) => has_artist(arts, c),
        None => true,
    }
}

/// The mathematical contents of the catalog store.
#[verifier::ext_equal]
pub ghost struct StoreVal {
    /// Works, in insertion order.
    pub works: Seq<WorkVal>,
    /// Expressions, in insertion order.
    pub expressions: Seq<ExpressionVal>,
    /// Manifestations, in insertion order.
    pub manifestations: Seq<ManifestationVal>,
    /// Artists, in insertion order.
    pub artists: Seq<ArtistVal>,
    /// Items, in insertion order.
    pub items: Seq<ItemVal>,
    /// Assertions, in insertion order; append-only.
    pub assertions: Seq<AssertionVal>,
    /// Genre/form vocabulary terms.
    pub lcgft_terms: Seq<TermVal>,
    /// Medium-of-performance vocabulary terms.
    pub lcmpt_terms: Seq<TermVal>,
    /// Applied schema migrations: version and name, in application order.
    pub migrations: Seq<(int, Seq<char>)>,
}

impl StoreVal {
    /// The store's invariants.
    ///
    /// Identities are unique per entity kind; external identifiers are
    /// unique per entity kind; item file paths are unique; every
    /// reference between entities resolves (an identified item's
    /// expression exists, an expression's work and artists exist);
    /// assertion timestamps are non-decreasing in insertion order and
    /// every stored confidence is at most 100; vocabulary term URIs are
    /// unique per vocabulary.
    pub open spec fn wf(self) -> bool {
        &&& forall|i: int, j: int|
            0 <= i < j < self.works.len() ==> (#[trigger] self.works[i]).id != (
            #[trigger] self.works[j]).id
        &&& forall|i: int, j: int|
            0 <= i < j < self.expressions.len() ==> (#[trigger] self.expressions[i]).id != (
            #[trigger] self.expressions[j]).id
        &&& forall|i: int, j: int|
            0 <= i < j < self.manifestations.len() ==> (#[trigger] self.manifestations[i]).id != (
            #[trigger] self.manifestations[j]).id
        &&& forall|i: int, j: int|
            0 <= i < j < self.artists.len() ==> (#[trigger] self.artists[i]).id != (
            #[trigger] self.artists[j]).id
        &&& forall|i: int, j: int|
            0 <= i < j < self.items.len() ==> (#[trigger] self.items[i]).id != (
            #[trigger] self.items[j]).id
        &&& forall|i: int, j: int|
            0 <= i < j < self.works.len() && (#[trigger] self.works[i]).musicbrainz_id is Some ==> (
            #[trigger] self.works[j]).musicbrainz_id != self.works[i].musicbrainz_id
        &&& forall|i: int, j: int|
            0 <= i < j < self.expressions.len() && (
            #[trigger] self.expressions[i]).musicbrainz_id is Some ==> (
            #[trigger] self.expressions[j]).musicbrainz_id != self.expressions[i].musicbrainz_id
        &&& forall|i: int, j: int|
            0 <= i < j < self.manifestations.len() && (
            #[trigger] self.manifestations[i]).musicbrainz_id is Some ==> (
            #[trigger] self.manifestations[j]).musicbrainz_id
                != self.manifestations[i].musicbrainz_id
        &&& forall|i: int, j: int|
            0 <= i < j < self.artists.len() && (
            #[trigger] self.artists[i]).musicbrainz_id is Some ==> (
            #[trigger] self.artists[j]).musicbrainz_id != self.artists[i].musicbrainz_id
        &&& forall|i: int, j: int|
            0 <= i < j < self.items.len() ==> (#[trigger] self.items[i]).file_path != (
            #[trigger] self.items[j]).file_path
        &&& forall|i: int|
            0 <= i < self.expressions.len() ==> expression_refs_ok(
                #[trigger] self.expressions[i],
                self.works,
                self.artists,
            )
        &&& forall|i: int|
            0 <= i < self.items.len() ==> match (#[trigger] self.items[i]).expression_id {
                Some(e) => has_expression(self.expressions, e),
                None => true,
            }
        &&& forall|i: int|
            0 <= i < self.items.len() ==> match (#[trigger] self.items[i]).manifestation_id {
                Some(m) => has_manifestation(self.manifestations, m),
                None => true,
            }
        &&& forall|i: int, j: int|
            0 <= i <= j < self.assertions.len() ==> (#[trigger] self.assertions[i]).fetched_at <= (
            #[trigger] self.assertions[j]).fetched_at
        &&& forall|i: int| 0 <= i < self.assertions.len() ==> (#[trigger] self.assertions[i]).wf()
        &&& forall|i: int, j: int|
            0 <= i < j < self.lcgft_terms.len() ==> (#[trigger] self.lcgft_terms[i]).uri != (
            #[trigger] self.lcgft_terms[j]).uri
        &&& forall|i: int, j: int|
            0 <= i < j < self.lcmpt_terms.len() ==> (#[trigger] self.lcmpt_terms[i]).uri != (
            #[trigger] self.lcmpt_terms[j]).uri
    }
}

/// The catalog store.
#[derive(Debug)]
pub struct CatalogStore {
    /// Works, in insertion order.
    pub works: Vec<Work>,
    /// Expressions, in insertion order.
    pub expressions: Vec<Expression>,
    /// Manifestations, in insertion order.
    pub manifestations: Vec<Manifestation>,
    /// Artists, in insertion order.
    pub artists: Vec<Artist>,
    /// Items, in insertion order.
    pub items: Vec<Item>,
    /// Assertions, in insertion order; append-only.
    pub assertions: Vec<Assertion>,
    /// Genre/form vocabulary terms.
    pub lcgft_terms: Vec<LcgftTerm>,
    /// Medium-of-performance vocabulary terms.
    pub lcmpt_terms: Vec<LcmptTerm>,
    /// Applied schema migrations: version and name, in application order.
    pub migrations: Vec<(u32, String)>,
}

impl View for CatalogStore {
    type V = StoreVal;

    open spec fn view(&self) -> StoreVal {
        StoreVal {
            works: works_view(self.works@),
            expressions: expressions_view(self.expressions@),
            manifestations: manifestations_view(self.manifestations@),
            artists: artists_view(self.artists@),
            items: items_view(self.items@),
            assertions: assertions_view(self.assertions@),
            lcgft_terms: lcgft_view(self.lcgft_terms@),
            lcmpt_terms: lcmpt_view(self.lcmpt_terms@),
            migrations: Seq::new(
                self.migrations@.len(),
                |i: int| (self.migrations@[i].0 as int, self.migrations@[i].1@),
            ),
        }
    }
}

impl CatalogStore {
    /// An empty store with no migrations applied.
    pub fn new() -> (r: CatalogStore)
        ensures
            r@.wf(),
            r@.works.len() == 0,
            r@.expressions.len() == 0,
            r@.manifestations.len() == 0,
            r@.artists.len() == 0,
            r@.items.len() == 0,
            r@.assertions.len() == 0,
            r@.lcgft_terms.len() == 0,
            r@.lcmpt_terms.len() == 0,
            r@.migrations.len() == 0,
    {
        CatalogStore {
            works: Vec::new(),
            expressions: Vec::new(),
            manifestations: Vec::new(),
            artists: Vec::new(),
            items: Vec::new(),
            assertions: Vec::new(),
            lcgft_terms: Vec::new(),
            lcmpt_terms: Vec::new(),
            migrations: Vec::new(),
        }
    }
}

// ---------------------------------------------------------------------
// Works
// ---------------------------------------------------------------------

/// The first work carrying the external id, scanning in insertion order.
pub open spec fn find_work_by_mbid(ws: Seq<WorkVal>, mbid: Seq<char>) -> Option<WorkVal>
    decreases ws.len(),
{
    if ws.len() == 0 {
        None
    } else if ws[0].musicbrainz_id == Some(mbid) {
        Some(ws[0])
    } else {
        find_work_by_mbid(ws.drop_first(), mbid)
    }
}

impl CatalogStore {
    /// The index of the work with the given identity, if present.
    fn work_index_by_id(&self, id: WorkId) -> (r: Option<usize>)
        ensures
            match r {
                Some(i) => i < self@.works.len() && self@.works[i as int].id == id,
                None => !has_work(self@.works, id),
            },
    {
        let mut i: usize = 0;
        while i < self.works.len()
            invariant
                i <= self@.works.len(),
                forall|k: int| 0 <= k < i ==> (#[trigger] self@.works[k]).id != id,
            decreases self@.works.len() - i,
        {
            if self.works[i].id == id {
                return Some(i);
            }
            i += 1;
        }
        None
    }

    /// The index of the first work carrying the external id, if any.
    fn work_index_by_mbid(&self, mbid: &str) -> (r: Option<usize>)
        ensures
            match r {
                Some(i) => i < self@.works.len() && self@.works[i as int].musicbrainz_id == Some(
                    mbid@,
                ) && (forall|k: int|
                    0 <= k < i ==> (#[trigger] self@.works[k]).musicbrainz_id != Some(mbid@)),
                None => forall|k: int|
                    0 <= k < self@.works.len() ==> (#[trigger] self@.works[k]).musicbrainz_id
                        != Some(mbid@),
            },
    {
        let mut i: usize = 0;
        while i < self.works.len()
            invariant
                i <= self@.works.len(),
                forall|k: int| 0 <= k < i ==> (#[trigger] self@.works[k]).musicbrainz_id != Some(
                    mbid@,
                ),
            decreases self@.works.len() - i,
        {
            let hit = match &self.works[i].musicbrainz_id {
                Some(s) => str_eq(s.as_str(), mbid),
                None => false,
            };
            if hit {
                return Some(i);
            }
            i += 1;
        }
        None
    }

    /// Insert a new work.
    ///
    /// Succeeds exactly when the work's identity is fresh and its
    /// external id, when present, is unused; the work is then appended.
    /// On a duplicate the store is unchanged and a `Database` error
    /// comes back.
    pub fn insert_work(&mut self, work: Work) -> (r: Result<(), Error>)
        requires
            old(self)@.wf(),
        ensures
            final(self)@.wf(),
            match r {
                Ok(()) => final(self)@ == (StoreVal {
                    works: old(self)@.works.push(work@),
                    ..old(self)@
                }) && !has_work(old(self)@.works, work@.id) && (work@.musicbrainz_id matches Some(m)
                    ==> !work_mbid_taken_except(old(self)@.works, m, -1)),
                Err(e) => final(self)@ == old(self)@ && e is Database && (has_work(
                    old(self)@.works,
                    work@.id,
                ) || (work@.musicbrainz_id matches Some(m) && work_mbid_taken_except(
                    old(self)@.works,
                    m,
                    -1,
                ))),
            },
    {
        if let Some(_) = self.work_index_by_id(work.id) {
            return Err(Error::Database(String::from_str("work id already present")));
        }
        let conflict = match &work.musicbrainz_id {
            Some(m) => self.work_index_by_mbid(m.as_str()).is_some(),
            None => false,
        };
        if conflict {
            return Err(Error::Database(String::from_str("work external id already present")));
        }
        let ghost old_store = self@;
        let ghost wv = work@;
        self.works.push(work);
        proof {
            assert(self@.works =~= old_store.works.push(wv));
            assert(self@ =~= (StoreVal { works: old_store.works.push(wv), ..old_store }));
            assert(work_mbid_taken_except(old_store.works, wv.musicbrainz_id->0, -1)
                == work_mbid_taken_except(old_store.works, wv.musicbrainz_id->0, -1));
            lemma_store_grow_works(old_store, self@, wv);
        }
        Ok(())
    }

    /// Insert or replace a work, keyed on its identity.
    ///
    /// Succeeds when the work's external id, if present, is not held by a
    /// different work: the entry with the same identity is replaced in
    /// place, or the work is appended when none exists. On an external-id
    /// conflict the store is unchanged and a `Database` error comes back.
    pub fn upsert_work(&mut self, work: Work) -> (r: Result<(), Error>)
        requires
            old(self)@.wf(),
        ensures
            final(self)@.wf(),
            match r {
                Ok(()) => ({
                    ||| (exists|i: int|
                        0 <= i < old(self)@.works.len() && (#[trigger] old(
                            self,
                        )@.works[i]).id == work@.id && final(self)@ == (StoreVal {
                            works: old(self)@.works.update(i, work@),
                            ..old(self)@
                        }))
                    ||| (!has_work(old(self)@.works, work@.id) && final(self)@ == (StoreVal {
                        works: old(self)@.works.push(work@),
                        ..old(self)@
                    }))
                }),
                Err(e) => final(self)@ == old(self)@ && e is Database && (
                work@.musicbrainz_id matches Some(m) && work_mbid_held_by_other(
                    old(self)@.works,
                    m,
                    work@.id,
                )),
            },
    {
        let slot = self.work_index_by_id(work.id);
        match slot {
            Some(i) => {
                let conflict = match &work.musicbrainz_id {
                    Some(m) => {
                        match self.work_index_by_mbid(m.as_str()) {
                            Some(j) => j != i,
                            None => false,
                        }
                    },
                    None => false,
                };
                if conflict {
                    proof {
                        assert(work_mbid_held_by_other(
                            self@.works,
                            work@.musicbrainz_id->0,
                            work@.id,
                        )) by {
                            let j = choose|j: int|
                                0 <= j < self@.works.len() && j != i && (
                                #[trigger] self@.works[j]).musicbrainz_id
                                    == Some(work@.musicbrainz_id->0);
                            assert(self@.works[j].id != self@.works[i as int].id);
                        }
                    }
                    return Err(
                        Error::Database(String::from_str("work external id already present")),
                    );
                }
                let ghost old_store = self@;
                let ghost wv = work@;
                let ghost slot_i = i as int;
                self.works.set(i, work);
                proof {
                    assert(self@.works =~= old_store.works.update(slot_i, wv));
                    assert(self@ =~= (StoreVal {
                        works: old_store.works.update(slot_i, wv),
                        ..old_store
                    }));
                    lemma_store_update_work(old_store, self@, slot_i, wv);
                }
                Ok(())
            },
            None => self.insert_work(work),
        }
    }

    /// Look up a work by its external id; at most one can match.
    pub fn get_work_by_musicbrainz_id(&self, mbid: &str) -> (r: Option<Work>)
        ensures
            match r {
                Some(w) => Some(w@) == find_work_by_mbid(self@.works, mbid@),
                None => find_work_by_mbid(self@.works, mbid@) is None,
            },
    {
        match self.work_index_by_mbid(mbid) {
            Some(i) => {
                proof {
                    lemma_find_work_by_mbid_first(self@.works, mbid@, i as int);
                }
                Some(self.works[i].clone())
            },
            None => {
                proof {
                    lemma_find_work_by_mbid_none(self@.works, mbid@);
                }
                None
            },
        }
    }
}

/// Scanning for an external id from the front finds the first index that
/// carries it.
proof fn lemma_find_work_by_mbid_first(ws: Seq<WorkVal>, mbid: Seq<char>, i: int)
    requires
        0 <= i < ws.len(),
        ws[i].musicbrainz_id == Some(mbid),
        forall|k: int| 0 <= k < i ==> (#[trigger] ws[k]).musicbrainz_id != Some(mbid),
    ensures
        find_work_by_mbid(ws, mbid) == Some(ws[i]),
    decreases i,
{
    if i == 0 {
    } else {
        let rest = ws.drop_first();
        assert forall|k: int| 0 <= k < i - 1 implies (#[trigger] rest[k]).musicbrainz_id != Some(
            mbid,
        ) by {
            assert(rest[k] == ws[k + 1]);
        }
        assert(rest[i - 1] == ws[i]);
        lemma_find_work_by_mbid_first(rest, mbid, i - 1);
        assert(ws[0].musicbrainz_id != Some(mbid));
    }
}

/// When no work carries the external id, the scan finds nothing.
proof fn lemma_find_work_by_mbid_none(ws: Seq<WorkVal>, mbid: Seq<char>)
    requires
        forall|k: int| 0 <= k < ws.len() ==> (#[trigger] ws[k]).musicbrainz_id != Some(mbid),
    ensures
        find_work_by_mbid(ws, mbid) is None,
    decreases ws.len(),
{
    if ws.len() > 0 {
        let rest = ws.drop_first();
        assert forall|k: int| 0 <= k < rest.len() implies (#[trigger] rest[k]).musicbrainz_id
            != Some(mbid) by {
            assert(rest[k] == ws[k + 1]);
        }
        lemma_find_work_by_mbid_none(rest, mbid);
    }
}

/// Appending a fresh work preserves the store's invariants.
proof fn lemma_store_grow_works(pre: StoreVal, post: StoreVal, w: WorkVal)
    requires
        pre.wf(),
        !has_work(pre.works, w.id),
        w.musicbrainz_id matches Some(m) ==> !work_mbid_taken_except(pre.works, m, -1),
        post == (StoreVal { works: pre.works.push(w), ..pre }),
    ensures
        post.wf(),
{
    let n = pre.works.len() as int;
    assert forall|i: int, j: int|
        0 <= i < j < post.works.len() implies (#[trigger] post.works[i]).id != (
    #[trigger] post.works[j]).id by {
        if j < n {
            assert(post.works[i] == pre.works[i]);
            assert(post.works[j] == pre.works[j]);
        } else {
            assert(post.works[j] == w);
            assert(post.works[i] == pre.works[i]);
            if pre.works[i].id == w.id {
                assert(has_work(pre.works, w.id));
            }
        }
    }
    assert forall|i: int, j: int|
        0 <= i < j < post.works.len() && (#[trigger] post.works[i]).musicbrainz_id is Some implies (
    #[trigger] post.works[j]).musicbrainz_id != post.works[i].musicbrainz_id by {
        if j < n {
            assert(post.works[i] == pre.works[i]);
            assert(post.works[j] == pre.works[j]);
        } else {
            assert(post.works[j] == w);
            assert(post.works[i] == pre.works[i]);
            if w.musicbrainz_id is Some && pre.works[i].musicbrainz_id == w.musicbrainz_id {
                assert(work_mbid_taken_except(pre.works, w.musicbrainz_id->0, -1));
            }
        }
    }
    assert forall|i: int|
        0 <= i < post.expressions.len() implies expression_refs_ok(
        #[trigger] post.expressions[i],
        post.works,
        post.artists,
    ) by {
        assert(expression_refs_ok(pre.expressions[i], pre.works, pre.artists));
        assert(has_work(pre.works, pre.expressions[i].work_id));
        let wit = choose|k: int|
            0 <= k < pre.works.len() && (#[trigger] pre.works[k]).id == pre.expressions[i].work_id;
        assert(post.works[wit] == pre.works[wit]);
        assert(has_work(post.works, pre.expressions[i].work_id));
    }
}

/// Replacing the work in a slot preserves the store's invariants when
/// the replacement keeps the identity and brings no external-id
/// conflict.
proof fn lemma_store_update_work(pre: StoreVal, post: StoreVal, slot: int, w: WorkVal)
    requires
        pre.wf(),
        0 <= slot < pre.works.len(),
        pre.works[slot].id == w.id,
        w.musicbrainz_id matches Some(m) ==> !work_mbid_taken_except(pre.works, m, slot),
        post == (StoreVal { works: pre.works.update(slot, w), ..pre }),
    ensures
        post.wf(),
{
    assert forall|i: int, j: int|
        0 <= i < j < post.works.len() implies (#[trigger] post.works[i]).id != (
    #[trigger] post.works[j]).id by {
        assert(pre.works[i].id != pre.works[j].id);
        if i == slot {
            assert(post.works[i] == w);
            assert(post.works[j] == pre.works[j]);
        } else if j == slot {
            assert(post.works[j] == w);
            assert(post.works[i] == pre.works[i]);
        } else {
            assert(post.works[i] == pre.works[i]);
            assert(post.works[j] == pre.works[j]);
        }
    }
    assert forall|i: int, j: int|
        0 <= i < j < post.works.len() && (#[trigger] post.works[i]).musicbrainz_id is Some implies (
    #[trigger] post.works[j]).musicbrainz_id != post.works[i].musicbrainz_id by {
        if i == slot {
            if post.works[j].musicbrainz_id == w.musicbrainz_id {
                assert(pre.works[j].musicbrainz_id == w.musicbrainz_id);
                assert(work_mbid_taken_except(pre.works, w.musicbrainz_id->0, slot));
            }
        } else if j == slot {
            if w.musicbrainz_id is Some && post.works[i].musicbrainz_id == w.musicbrainz_id {
                assert(pre.works[i].musicbrainz_id == w.musicbrainz_id);
                assert(work_mbid_taken_except(pre.works, w.musicbrainz_id->0, slot));
            }
        } else {
            assert(post.works[i] == pre.works[i]);
            assert(post.works[j] == pre.works[j]);
        }
    }
    assert forall|i: int|
        0 <= i < post.expressions.len() implies expression_refs_ok(
        #[trigger] post.expressions[i],
        post.works,
        post.artists,
    ) by {
        assert(expression_refs_ok(pre.expressions[i], pre.works, pre.artists));
        let wit = choose|k: int|
            0 <= k < pre.works.len() && (#[trigger] pre.works[k]).id == pre.expressions[i].work_id;
        if wit == slot {
            assert(post.works[slot] == w);
            assert(w.id == pre.works[slot].id);
            assert(has_work(post.works, pre.expressions[i].work_id));
        } else {
            assert(post.works[wit] == pre.works[wit]);
            assert(has_work(post.works, pre.expressions[i].work_id));
        }
    }
}

// ---------------------------------------------------------------------
// Artists
// ---------------------------------------------------------------------

impl CatalogStore {
    /// The index of the artist with the given identity, if present.
    fn artist_index_by_id(&self, id: ArtistId) -> (r: Option<usize>)
        ensures
            match r {
                Some(i) => i < self@.artists.len() && self@.artists[i as int].id == id,
                None => !has_artist(self@.artists, id),
            },
    {
        let mut i: usize = 0;
        while i < self.artists.len()
            invariant
                i <= self@.artists.len(),
                forall|k: int| 0 <= k < i ==> (#[trigger] self@.artists[k]).id != id,
            decreases self@.artists.len() - i,
        {
            if self.artists[i].id == id {
                return Some(i);
            }
            i += 1;
        }
        None
    }

    /// The index of the first artist carrying the external id, if any.
    fn artist_index_by_mbid(&self, mbid: &str) -> (r: Option<usize>)
        ensures
            match r {
                Some(i) => i < self@.artists.len() && self@.artists[i as int].musicbrainz_id
                    == Some(mbid@) && (forall|k: int|
                    0 <= k < i ==> (#[trigger] self@.artists[k]).musicbrainz_id != Some(mbid@)),
                None => forall|k: int|
                    0 <= k < self@.artists.len() ==> (#[trigger] self@.artists[k]).musicbrainz_id
                        != Some(mbid@),
            },
    {
        let mut i: usize = 0;
        while i < self.artists.len()
            invariant
                i <= self@.artists.len(),
                forall|k: int| 0 <= k < i ==> (#[trigger] self@.artists[k]).musicbrainz_id != Some(
                    mbid@,
                ),
            decreases self@.artists.len() - i,
        {
            let hit = match &self.artists[i].musicbrainz_id {
                Some(s) => str_eq(s.as_str(), mbid),
                None => false,
            };
            if hit {
                return Some(i);
            }
            i += 1;
        }
        None
    }

    /// Insert a new artist, with its full role set.
    ///
    /// Succeeds exactly when the artist's identity is fresh and its
    /// external id, when present, is unused; the artist is then appended.
    pub fn insert_artist(&mut self, artist: Artist) -> (r: Result<(), Error>)
        requires
            old(self)@.wf(),
        ensures
            final(self)@.wf(),
            match r {
                Ok(()) => final(self)@ == (StoreVal {
                    artists: old(self)@.artists.push(artist@),
                    ..old(self)@
                }) && !has_artist(old(self)@.artists, artist@.id) && (artist@.musicbrainz_id
                    matches Some(m) ==> !artist_mbid_taken_except(old(self)@.artists, m, -1)),
                Err(e) => final(self)@ == old(self)@ && e is Database && (has_artist(
                    old(self)@.artists,
                    artist@.id,
                ) || (artist@.musicbrainz_id matches Some(m) && artist_mbid_taken_except(
                    old(self)@.artists,
                    m,
                    -1,
                ))),
            },
    {
        if let Some(_) = self.artist_index_by_id(artist.id) {
            return Err(Error::Database(String::from_str("artist id already present")));
        }
        let conflict = match &artist.musicbrainz_id {
            Some(m) => self.artist_index_by_mbid(m.as_str()).is_some(),
            None => false,
        };
        if conflict {
            return Err(Error::Database(String::from_str("artist external id already present")));
        }
        let ghost old_store = self@;
        let ghost av = artist@;
        self.artists.push(artist);
        proof {
            assert(self@.artists =~= old_store.artists.push(av));
            assert(self@ =~= (StoreVal { artists: old_store.artists.push(av), ..old_store }));
            lemma_store_grow_artists(old_store, self@, av);
        }
        Ok(())
    }

    /// Insert or replace an artist, keyed on its identity; the role set
    /// is replaced whole.
    ///
    /// Succeeds when the artist's external id, if present, is not held by
    /// a different artist.
    pub fn upsert_artist(&mut self, artist: Artist) -> (r: Result<(), Error>)
        requires
            old(self)@.wf(),
        ensures
            final(self)@.wf(),
            match r {
                Ok(()) => ({
                    ||| (exists|i: int|
                        0 <= i < old(self)@.artists.len() && (#[trigger] old(
                            self,
                        )@.artists[i]).id == artist@.id && final(self)@ == (StoreVal {
                            artists: old(self)@.artists.update(i, artist@),
                            ..old(self)@
                        }))
                    ||| (!has_artist(old(self)@.artists, artist@.id) && final(self)@ == (StoreVal {
                        artists: old(self)@.artists.push(artist@),
                        ..old(self)@
                    }))
                }),
                Err(e) => final(self)@ == old(self)@ && e is Database,
            },
    {
        let slot = self.artist_index_by_id(artist.id);
        match slot {
            Some(i) => {
                let conflict = match &artist.musicbrainz_id {
                    Some(m) => {
                        match self.artist_index_by_mbid(m.as_str()) {
                            Some(j) => j != i,
                            None => false,
                        }
                    },
                    None => false,
                };
                if conflict {
                    return Err(
                        Error::Database(String::from_str("artist external id already present")),
                    );
                }
                let ghost old_store = self@;
                let ghost av = artist@;
                let ghost slot_i = i as int;
                self.artists.set(i, artist);
                proof {
                    assert(self@.artists =~= old_store.artists.update(slot_i, av));
                    assert(self@ =~= (StoreVal {
                        artists: old_store.artists.update(slot_i, av),
                        ..old_store
                    }));
                    lemma_store_update_artist(old_store, self@, slot_i, av);
                }
                Ok(())
            },
            None => self.insert_artist(artist),
        }
    }

    /// Look up an artist by its external id; at most one can match. The
    /// returned artist carries its full role set.
    pub fn get_artist_by_musicbrainz_id(&self, mbid: &str) -> (r: Option<Artist>)
        ensures
            match r {
                Some(a) => exists|i: int|
                    0 <= i < self@.artists.len() && (#[trigger] self@.artists[i]) == a@
                        && self@.artists[i].musicbrainz_id == Some(mbid@),
                None => forall|i: int|
                    0 <= i < self@.artists.len() ==> (#[trigger] self@.artists[i]).musicbrainz_id
                        != Some(mbid@),
            },
    {
        match self.artist_index_by_mbid(mbid) {
            Some(i) => Some(self.artists[i].clone()),
            None => None,
        }
    }
}

/// Appending a fresh artist preserves the store's invariants.
proof fn lemma_store_grow_artists(pre: StoreVal, post: StoreVal, a: ArtistVal)
    requires
        pre.wf(),
        !has_artist(pre.artists, a.id),
        a.musicbrainz_id matches Some(m) ==> !artist_mbid_taken_except(pre.artists, m, -1),
        post == (StoreVal { artists: pre.artists.push(a), ..pre }),
    ensures
        post.wf(),
{
    let n = pre.artists.len() as int;
    assert forall|i: int, j: int|
        0 <= i < j < post.artists.len() implies (#[trigger] post.artists[i]).id != (
    #[trigger] post.artists[j]).id by {
        if j < n {
            assert(post.artists[i] == pre.artists[i]);
            assert(post.artists[j] == pre.artists[j]);
        } else {
            assert(post.artists[j] == a);
            assert(post.artists[i] == pre.artists[i]);
            if pre.artists[i].id == a.id {
                assert(has_artist(pre.artists, a.id));
            }
        }
    }
    assert forall|i: int, j: int|
        0 <= i < j < post.artists.len() && (#[trigger] post.artists[i]).musicbrainz_id is Some
        implies (#[trigger] post.artists[j]).musicbrainz_id != post.artists[i].musicbrainz_id by {
        if j < n {
            assert(post.artists[i] == pre.artists[i]);
            assert(post.artists[j] == pre.artists[j]);
        } else {
            assert(post.artists[j] == a);
            assert(post.artists[i] == pre.artists[i]);
            if a.musicbrainz_id is Some && pre.artists[i].musicbrainz_id == a.musicbrainz_id {
                assert(artist_mbid_taken_except(pre.artists, a.musicbrainz_id->0, -1));
            }
        }
    }
    assert forall|i: int|
        0 <= i < post.expressions.len() implies expression_refs_ok(
        #[trigger] post.expressions[i],
        post.works,
        post.artists,
    ) by {
        let e = pre.expressions[i];
        assert(expression_refs_ok(e, pre.works, pre.artists));
        assert forall|k: int| 0 <= k < e.performer_ids.len() implies has_artist(
            post.artists,
            #[trigger] e.performer_ids[k],
        ) by {
            assert(has_artist(pre.artists, e.performer_ids[k]));
            let wit = choose|m: int|
                0 <= m < pre.artists.len() && (#[trigger] pre.artists[m]).id
                    == e.performer_ids[k];
            assert(post.artists[wit] == pre.artists[wit]);
        }
        match e.conductor_id {
            Some(c) => {
                let wit = choose|m: int|
                    0 <= m < pre.artists.len() && (#[trigger] pre.artists[m]).id == c;
                assert(post.artists[wit] == pre.artists[wit]);
                assert(has_artist(post.artists, c));
            },
            None => {},
        }
    }
}

/// Replacing the artist in a slot preserves the store's invariants when
/// the replacement keeps the identity and brings no external-id conflict.
proof fn lemma_store_update_artist(pre: StoreVal, post: StoreVal, slot: int, a: ArtistVal)
    requires
        pre.wf(),
        0 <= slot < pre.artists.len(),
        pre.artists[slot].id == a.id,
        a.musicbrainz_id matches Some(m) ==> !artist_mbid_taken_except(pre.artists, m, slot),
        post == (StoreVal { artists: pre.artists.update(slot, a), ..pre }),
    ensures
        post.wf(),
{
    assert forall|i: int, j: int|
        0 <= i < j < post.artists.len() implies (#[trigger] post.artists[i]).id != (
    #[trigger] post.artists[j]).id by {
        assert(pre.artists[i].id != pre.artists[j].id);
        if i == slot {
            assert(post.artists[i] == a);
            assert(post.artists[j] == pre.artists[j]);
        } else if j == slot {
            assert(post.artists[j] == a);
            assert(post.artists[i] == pre.artists[i]);
        } else {
            assert(post.artists[i] == pre.artists[i]);
            assert(post.artists[j] == pre.artists[j]);
        }
    }
    assert forall|i: int, j: int|
        0 <= i < j < post.artists.len() && (#[trigger] post.artists[i]).musicbrainz_id is Some
        implies (#[trigger] post.artists[j]).musicbrainz_id != post.artists[i].musicbrainz_id by {
        if i == slot {
            if post.artists[j].musicbrainz_id == a.musicbrainz_id {
                assert(pre.artists[j].musicbrainz_id == a.musicbrainz_id);
                assert(artist_mbid_taken_except(pre.artists, a.musicbrainz_id->0, slot));
            }
        } else if j == slot {
            if a.musicbrainz_id is Some && post.artists[i].musicbrainz_id == a.musicbrainz_id {
                assert(pre.artists[i].musicbrainz_id == a.musicbrainz_id);
                assert(artist_mbid_taken_except(pre.artists, a.musicbrainz_id->0, slot));
            }
        } else {
            assert(post.artists[i] == pre.artists[i]);
            assert(post.artists[j] == pre.artists[j]);
        }
    }
    assert forall|i: int|
        0 <= i < post.expressions.len() implies expression_refs_ok(
        #[trigger] post.expressions[i],
        post.works,
        post.artists,
    ) by {
        let e = pre.expressions[i];
        assert(expression_refs_ok(e, pre.works, pre.artists));
        assert forall|k: int| 0 <= k < e.performer_ids.len() implies has_artist(
            post.artists,
            #[trigger] e.performer_ids[k],
        ) by {
            let wit = choose|m: int|
                0 <= m < pre.artists.len() && (#[trigger] pre.artists[m]).id
                    == e.performer_ids[k];
            if wit == slot {
                assert(post.artists[slot] == a);
                assert(has_artist(post.artists, e.performer_ids[k]));
            } else {
                assert(post.artists[wit] == pre.artists[wit]);
            }
        }
        match e.conductor_id {
            Some(c) => {
                let wit = choose|m: int|
                    0 <= m < pre.artists.len() && (#[trigger] pre.artists[m]).id == c;
                if wit == slot {
                    assert(post.artists[slot] == a);
                    assert(has_artist(post.artists, c));
                } else {
                    assert(post.artists[wit] == pre.artists[wit]);
                    assert(has_artist(post.artists, c));
                }
            },
            None => {},
        }
    }
}

// ---------------------------------------------------------------------
// Manifestations
// ---------------------------------------------------------------------

impl CatalogStore {
    /// The index of the manifestation with the given identity, if present.
    fn manifestation_index_by_id(&self, id: ManifestationId) -> (r: Option<usize>)
        ensures
            match r {
                Some(i) => i < self@.manifestations.len() && self@.manifestations[i as int].id
                    == id,
                None => !has_manifestation(self@.manifestations, id),
            },
    {
        let mut i: usize = 0;
        while i < self.manifestations.len()
            invariant
                i <= self@.manifestations.len(),
                forall|k: int| 0 <= k < i ==> (#[trigger] self@.manifestations[k]).id != id,
            decreases self@.manifestations.len() - i,
        {
            if self.manifestations[i].id == id {
                return Some(i);
            }
            i += 1;
        }
        None
    }

    /// The index of the first manifestation carrying the external id, if
    /// any.
    fn manifestation_index_by_mbid(&self, mbid: &str) -> (r: Option<usize>)
        ensures
            match r {
                Some(i) => i < self@.manifestations.len()
                    && self@.manifestations[i as int].musicbrainz_id == Some(mbid@),
                None => forall|k: int|
                    0 <= k < self@.manifestations.len() ==> (
                    #[trigger] self@.manifestations[k]).musicbrainz_id != Some(mbid@),
            },
    {
        let mut i: usize = 0;
        while i < self.manifestations.len()
            invariant
                i <= self@.manifestations.len(),
                forall|k: int|
                    0 <= k < i ==> (#[trigger] self@.manifestations[k]).musicbrainz_id != Some(
                        mbid@,
                    ),
            decreases self@.manifestations.len() - i,
        {
            let hit = match &self.manifestations[i].musicbrainz_id {
                Some(s) => str_eq(s.as_str(), mbid),
                None => false,
            };
            if hit {
                return Some(i);
            }
            i += 1;
        }
        None
    }

    /// Insert a new manifestation.
    ///
    /// Succeeds exactly when the identity is fresh and the external id,
    /// when present, is unused; the manifestation is then appended.
    pub fn insert_manifestation(&mut self, man: Manifestation) -> (r: Result<(), Error>)
        requires
            old(self)@.wf(),
        ensures
            final(self)@.wf(),
            match r {
                Ok(()) => final(self)@ == (StoreVal {
                    manifestations: old(self)@.manifestations.push(man@),
                    ..old(self)@
                }) && !has_manifestation(old(self)@.manifestations, man@.id) && (
                man@.musicbrainz_id matches Some(m) ==> !manifestation_mbid_taken_except(
                    old(self)@.manifestations,
                    m,
                    -1,
                )),
                Err(e) => final(self)@ == old(self)@ && e is Database && (has_manifestation(
                    old(self)@.manifestations,
                    man@.id,
                ) || (man@.musicbrainz_id matches Some(m) && manifestation_mbid_taken_except(
                    old(self)@.manifestations,
                    m,
                    -1,
                ))),
            },
    {
        if let Some(_) = self.manifestation_index_by_id(man.id) {
            return Err(Error::Database(String::from_str("manifestation id already present")));
        }
        let conflict = match &man.musicbrainz_id {
            Some(m) => self.manifestation_index_by_mbid(m.as_str()).is_some(),
            None => false,
        };
        if conflict {
            return Err(
                Error::Database(String::from_str("manifestation external id already present")),
            );
        }
        let ghost old_store = self@;
        let ghost mv = man@;
        self.manifestations.push(man);
        proof {
            assert(self@.manifestations =~= old_store.manifestations.push(mv));
            assert(self@ =~= (StoreVal {
                manifestations: old_store.manifestations.push(mv),
                ..old_store
            }));
            lemma_store_grow_manifestations(old_store, self@, mv);
        }
        Ok(())
    }

    /// Insert or replace a manifestation, keyed on its identity.
    ///
    /// Succeeds when the external id, if present, is not held by a
    /// different manifestation.
    pub fn upsert_manifestation(&mut self, man: Manifestation) -> (r: Result<(), Error>)
        requires
            old(self)@.wf(),
        ensures
            final(self)@.wf(),
            match r {
                Ok(()) => ({
                    ||| (exists|i: int|
                        0 <= i < old(self)@.manifestations.len() && (#[trigger] old(
                            self,
                        )@.manifestations[i]).id == man@.id && final(self)@ == (StoreVal {
                            manifestations: old(self)@.manifestations.update(i, man@),
                            ..old(self)@
                        }))
                    ||| (!has_manifestation(old(self)@.manifestations, man@.id) && final(self)@
                        == (StoreVal {
                        manifestations: old(self)@.manifestations.push(man@),
                        ..old(self)@
                    }))
                }),
                Err(e) => final(self)@ == old(self)@ && e is Database && (
                man@.musicbrainz_id matches Some(m) && manifestation_mbid_held_by_other(
                    old(self)@.manifestations,
                    m,
                    man@.id,
                )),
            },
    {
        let slot = self.manifestation_index_by_id(man.id);
        match slot {
            Some(i) => {
                let conflict = match &man.musicbrainz_id {
                    Some(m) => {
                        match self.manifestation_index_by_mbid(m.as_str()) {
                            Some(j) => j != i,
                            None => false,
                        }
                    },
                    None => false,
                };
                if conflict {
                    proof {
                        assert(manifestation_mbid_held_by_other(
                            self@.manifestations,
                            man@.musicbrainz_id->0,
                            man@.id,
                        )) by {
                            let j = choose|j: int|
                                0 <= j < self@.manifestations.len() && j != i && (
                                #[trigger] self@.manifestations[j]).musicbrainz_id
                                    == Some(man@.musicbrainz_id->0);
                            assert(self@.manifestations[j].id
                                != self@.manifestations[i as int].id);
                        }
                    }
                    return Err(
                        Error::Database(
                            String::from_str("manifestation external id already present"),
                        ),
                    );
                }
                let ghost old_store = self@;
                let ghost mv = man@;
                let ghost slot_i = i as int;
                self.manifestations.set(i, man);
                proof {
                    assert(self@.manifestations =~= old_store.manifestations.update(slot_i, mv));
                    assert(self@ =~= (StoreVal {
                        manifestations: old_store.manifestations.update(slot_i, mv),
                        ..old_store
                    }));
                    lemma_store_update_manifestation(old_store, self@, slot_i, mv);
                }
                Ok(())
            },
            None => self.insert_manifestation(man),
        }
    }

    /// Look up a manifestation by its external id; at most one can match.
    pub fn get_manifestation_by_musicbrainz_id(&self, mbid: &str) -> (r: Option<Manifestation>)
        ensures
            match r {
                Some(m) => exists|i: int|
                    0 <= i < self@.manifestations.len() && (#[trigger] self@.manifestations[i])
                        == m@ && self@.manifestations[i].musicbrainz_id == Some(mbid@),
                None => forall|i: int|
                    0 <= i < self@.manifestations.len() ==> (
                    #[trigger] self@.manifestations[i]).musicbrainz_id != Some(mbid@),
            },
    {
        match self.manifestation_index_by_mbid(mbid) {
            Some(i) => Some(self.manifestations[i].clone()),
            None => None,
        }
    }
}

/// Appending a fresh manifestation preserves the store's invariants.
proof fn lemma_store_grow_manifestations(pre: StoreVal, post: StoreVal, m: ManifestationVal)
    requires
        pre.wf(),
        !has_manifestation(pre.manifestations, m.id),
        m.musicbrainz_id matches Some(x) ==> !manifestation_mbid_taken_except(
            pre.manifestations,
            x,
            -1,
        ),
        post == (StoreVal { manifestations: pre.manifestations.push(m), ..pre }),
    ensures
        post.wf(),
{
    let n = pre.manifestations.len() as int;
    assert forall|i: int, j: int|
        0 <= i < j < post.manifestations.len() implies (#[trigger] post.manifestations[i]).id != (
    #[trigger] post.manifestations[j]).id by {
        if j < n {
            assert(post.manifestations[i] == pre.manifestations[i]);
            assert(post.manifestations[j] == pre.manifestations[j]);
        } else {
            assert(post.manifestations[j] == m);
            assert(post.manifestations[i] == pre.manifestations[i]);
            if pre.manifestations[i].id == m.id {
                assert(has_manifestation(pre.manifestations, m.id));
            }
        }
    }
    assert forall|i: int, j: int|
        0 <= i < j < post.manifestations.len() && (
    #[trigger] post.manifestations[i]).musicbrainz_id is Some implies (
    #[trigger] post.manifestations[j]).musicbrainz_id != post.manifestations[i].musicbrainz_id by {
        if j < n {
            assert(post.manifestations[i] == pre.manifestations[i]);
            assert(post.manifestations[j] == pre.manifestations[j]);
        } else {
            assert(post.manifestations[j] == m);
            assert(post.manifestations[i] == pre.manifestations[i]);
            if m.musicbrainz_id is Some && pre.manifestations[i].musicbrainz_id
                == m.musicbrainz_id {
                assert(manifestation_mbid_taken_except(
                    pre.manifestations,
                    m.musicbrainz_id->0,
                    -1,
                ));
            }
        }
    }
    assert forall|i: int|
        0 <= i < post.items.len() implies match (#[trigger] post.items[i]).manifestation_id {
        Some(mid) => has_manifestation(post.manifestations, mid),
        None => true,
    } by {
        match pre.items[i].manifestation_id {
            Some(mid) => {
                let wit = choose|k: int|
                    0 <= k < pre.manifestations.len() && (#[trigger] pre.manifestations[k]).id
                        == mid;
                assert(post.manifestations[wit] == pre.manifestations[wit]);
                assert(has_manifestation(post.manifestations, mid));
            },
            None => {},
        }
    }
}

/// Replacing the manifestation in a slot preserves the store's invariants
/// when the replacement keeps the identity and brings no external-id
/// conflict.
proof fn lemma_store_update_manifestation(
    pre: StoreVal,
    post: StoreVal,
    slot: int,
    m: ManifestationVal,
)
    requires
        pre.wf(),
        0 <= slot < pre.manifestations.len(),
        pre.manifestations[slot].id == m.id,
        m.musicbrainz_id matches Some(x) ==> !manifestation_mbid_taken_except(
            pre.manifestations,
            x,
            slot,
        ),
        post == (StoreVal { manifestations: pre.manifestations.update(slot, m), ..pre }),
    ensures
        post.wf(),
{
    assert forall|i: int, j: int|
        0 <= i < j < post.manifestations.len() implies (#[trigger] post.manifestations[i]).id != (
    #[trigger] post.manifestations[j]).id by {
        assert(pre.manifestations[i].id != pre.manifestations[j].id);
        if i == slot {
            assert(post.manifestations[i] == m);
            assert(post.manifestations[j] == pre.manifestations[j]);
        } else if j == slot {
            assert(post.manifestations[j] == m);
            assert(post.manifestations[i] == pre.manifestations[i]);
        } else {
            assert(post.manifestations[i] == pre.manifestations[i]);
            assert(post.manifestations[j] == pre.manifestations[j]);
        }
    }
    assert forall|i: int, j: int|
        0 <= i < j < post.manifestations.len() && (
    #[trigger] post.manifestations[i]).musicbrainz_id is Some implies (
    #[trigger] post.manifestations[j]).musicbrainz_id != post.manifestations[i].musicbrainz_id by {
        if i == slot {
            if post.manifestations[j].musicbrainz_id == m.musicbrainz_id {
                assert(pre.manifestations[j].musicbrainz_id == m.musicbrainz_id);
                assert(manifestation_mbid_taken_except(
                    pre.manifestations,
                    m.musicbrainz_id->0,
                    slot,
                ));
            }
        } else if j == slot {
            if m.musicbrainz_id is Some && post.manifestations[i].musicbrainz_id
                == m.musicbrainz_id {
                assert(pre.manifestations[i].musicbrainz_id == m.musicbrainz_id);
                assert(manifestation_mbid_taken_except(
                    pre.manifestations,
                    m.musicbrainz_id->0,
                    slot,
                ));
            }
        } else {
            assert(post.manifestations[i] == pre.manifestations[i]);
            assert(post.manifestations[j] == pre.manifestations[j]);
        }
    }
    assert forall|i: int|
        0 <= i < post.items.len() implies match (#[trigger] post.items[i]).manifestation_id {
        Some(mid) => has_manifestation(post.manifestations, mid),
        None => true,
    } by {
        match pre.items[i].manifestation_id {
            Some(mid) => {
                let wit = choose|k: int|
                    0 <= k < pre.manifestations.len() && (#[trigger] pre.manifestations[k]).id
                        == mid;
                if wit == slot {
                    assert(post.manifestations[slot] == m);
                    assert(has_manifestation(post.manifestations, mid));
                } else {
                    assert(post.manifestations[wit] == pre.manifestations[wit]);
                    assert(has_manifestation(post.manifestations, mid));
                }
            },
            None => {},
        }
    }
}

// ---------------------------------------------------------------------
// Expressions
// ---------------------------------------------------------------------

impl CatalogStore {
    /// The index of the expression with the given identity, if present.
    fn expression_index_by_id(&self, id: ExpressionId) -> (r: Option<usize>)
        ensures
            match r {
                Some(i) => i < self@.expressions.len() && self@.expressions[i as int].id == id,
                None => !has_expression(self@.expressions, id),
            },
    {
        let mut i: usize = 0;
        while i < self.expressions.len()
            invariant
                i <= self@.expressions.len(),
                forall|k: int| 0 <= k < i ==> (#[trigger] self@.expressions[k]).id != id,
            decreases self@.expressions.len() - i,
        {
            if self.expressions[i].id == id {
                return Some(i);
            }
            i += 1;
        }
        None
    }

    /// The index of the first expression carrying the external id, if any.
    fn expression_index_by_mbid(&self, mbid: &str) -> (r: Option<usize>)
        ensures
            match r {
                Some(i) => i < self@.expressions.len()
                    && self@.expressions[i as int].musicbrainz_id == Some(mbid@),
                None => forall|k: int|
                    0 <= k < self@.expressions.len() ==> (
                    #[trigger] self@.expressions[k]).musicbrainz_id != Some(mbid@),
            },
    {
        let mut i: usize = 0;
        while i < self.expressions.len()
            invariant
                i <= self@.expressions.len(),
                forall|k: int|
                    0 <= k < i ==> (#[trigger] self@.expressions[k]).musicbrainz_id != Some(mbid@),
            decreases self@.expressions.len() - i,
        {
            let hit = match &self.expressions[i].musicbrainz_id {
                Some(s) => str_eq(s.as_str(), mbid),
                None => false,
            };
            if hit {
                return Some(i);
            }
            i += 1;
        }
        None
    }

    /// Whether every reference the expression makes resolves in this
    /// store: its work, each performer, and the conductor if present.
    fn expression_refs_resolve(&self, expr: &Expression) -> (r: bool)
        ensures
            r == expression_refs_ok(expr@, self@.works, self@.artists),
    {
        if self.work_index_by_id(expr.work_id).is_none() {
            return false;
        }
        let mut k: usize = 0;
        while k < expr.performer_ids.len()
            invariant
                k <= expr.performer_ids@.len(),
                has_work(self@.works, expr@.work_id),
                forall|m: int| 0 <= m < k ==> has_artist(
                    self@.artists,
                    #[trigger] expr@.performer_ids[m],
                ),
            decreases expr.performer_ids@.len() - k,
        {
            if self.artist_index_by_id(expr.performer_ids[k]).is_none() {
                proof {
                    assert(!has_artist(self@.artists, expr@.performer_ids[k as int]));
                    assert(!expression_refs_ok(expr@, self@.works, self@.artists));
                }
                return false;
            }
            k += 1;
        }
        match &expr.conductor_id {
            Some(c) => self.artist_index_by_id(*c).is_some(),
            None => true,
        }
    }

    /// Insert a new expression, with its full performer set.
    ///
    /// Succeeds exactly when the identity is fresh, the external id (when
    /// present) is unused, and every reference resolves: the owning work,
    /// each performer, and the conductor if present.
    pub fn insert_expression(&mut self, expr: Expression) -> (r: Result<(), Error>)
        requires
            old(self)@.wf(),
        ensures
            final(self)@.wf(),
            match r {
                Ok(()) => final(self)@ == (StoreVal {
                    expressions: old(self)@.expressions.push(expr@),
                    ..old(self)@
                }) && !has_expression(old(self)@.expressions, expr@.id) && (expr@.musicbrainz_id
                    matches Some(m) ==> !expression_mbid_taken_except(old(self)@.expressions, m, -1))
                    && expression_refs_ok(expr@, old(self)@.works, old(self)@.artists),
                Err(e) => final(self)@ == old(self)@ && e is Database && (has_expression(
                    old(self)@.expressions,
                    expr@.id,
                ) || (expr@.musicbrainz_id matches Some(m) && expression_mbid_taken_except(
                    old(self)@.expressions,
                    m,
                    -1,
                )) || !expression_refs_ok(expr@, old(self)@.works, old(self)@.artists)),
            },
    {
        if let Some(_) = self.expression_index_by_id(expr.id) {
            return Err(Error::Database(String::from_str("expression id already present")));
        }
        let conflict = match &expr.musicbrainz_id {
            Some(m) => self.expression_index_by_mbid(m.as_str()).is_some(),
            None => false,
        };
        if conflict {
            proof {
                assert(expression_mbid_taken_except(
                    self@.expressions,
                    expr@.musicbrainz_id->0,
                    -1,
                ));
            }
            return Err(
                Error::Database(String::from_str("expression external id already present")),
            );
        }
        if !self.expression_refs_resolve(&expr) {
            return Err(Error::Database(String::from_str("expression reference missing")));
        }
        let ghost old_store = self@;
        let ghost ev = expr@;
        self.expressions.push(expr);
        proof {
            assert(self@.expressions =~= old_store.expressions.push(ev));
            assert(self@ =~= (StoreVal {
                expressions: old_store.expressions.push(ev),
                ..old_store
            }));
            lemma_store_grow_expressions(old_store, self@, ev);
        }
        Ok(())
    }

    /// Insert or replace an expression, keyed on its identity; the
    /// performer set is replaced whole.
    ///
    /// Succeeds when the external id, if present, is not held by a
    /// different expression and every reference resolves.
    pub fn upsert_expression(&mut self, expr: Expression) -> (r: Result<(), Error>)
        requires
            old(self)@.wf(),
        ensures
            final(self)@.wf(),
            match r {
                Ok(()) => ({
                    ||| (exists|i: int|
                        0 <= i < old(self)@.expressions.len() && (#[trigger] old(
                            self,
                        )@.expressions[i]).id == expr@.id && final(self)@ == (StoreVal {
                            expressions: old(self)@.expressions.update(i, expr@),
                            ..old(self)@
                        }))
                    ||| (!has_expression(old(self)@.expressions, expr@.id) && final(self)@
                        == (StoreVal {
                        expressions: old(self)@.expressions.push(expr@),
                        ..old(self)@
                    }))
                }),
                Err(e) => final(self)@ == old(self)@ && e is Database && ((
                expr@.musicbrainz_id matches Some(m) && expression_mbid_held_by_other(
                    old(self)@.expressions,
                    m,
                    expr@.id,
                )) || !expression_refs_ok(expr@, old(self)@.works, old(self)@.artists)),
            },
    {
        let slot = self.expression_index_by_id(expr.id);
        match slot {
            Some(i) => {
                let conflict = match &expr.musicbrainz_id {
                    Some(m) => {
                        match self.expression_index_by_mbid(m.as_str()) {
                            Some(j) => j != i,
                            None => false,
                        }
                    },
                    None => false,
                };
                if conflict {
                    proof {
                        assert(expression_mbid_held_by_other(
                            self@.expressions,
                            expr@.musicbrainz_id->0,
                            expr@.id,
                        )) by {
                            let j = choose|j: int|
                                0 <= j < self@.expressions.len() && j != i && (
                                #[trigger] self@.expressions[j]).musicbrainz_id
                                    == Some(expr@.musicbrainz_id->0);
                            assert(self@.expressions[j].id != self@.expressions[i as int].id);
                        }
                    }
                    return Err(
                        Error::Database(
                            String::from_str("expression external id already present"),
                        ),
                    );
                }
                if !self.expression_refs_resolve(&expr) {
                    return Err(Error::Database(String::from_str("expression reference missing")));
                }
                let ghost old_store = self@;
                let ghost ev = expr@;
                let ghost slot_i = i as int;
                self.expressions.set(i, expr);
                proof {
                    assert(self@.expressions =~= old_store.expressions.update(slot_i, ev));
                    assert(self@ =~= (StoreVal {
                        expressions: old_store.expressions.update(slot_i, ev),
                        ..old_store
                    }));
                    lemma_store_update_expression(old_store, self@, slot_i, ev);
                }
                Ok(())
            },
            None => self.insert_expression(expr),
        }
    }

    /// Look up an expression by its external id; at most one can match.
    /// The returned expression carries its full performer set.
    pub fn get_expression_by_musicbrainz_id(&self, mbid: &str) -> (r: Option<Expression>)
        ensures
            match r {
                Some(e) => exists|i: int|
                    0 <= i < self@.expressions.len() && (#[trigger] self@.expressions[i]) == e@
                        && self@.expressions[i].musicbrainz_id == Some(mbid@),
                None => forall|i: int|
                    0 <= i < self@.expressions.len() ==> (
                    #[trigger] self@.expressions[i]).musicbrainz_id != Some(mbid@),
            },
    {
        match self.expression_index_by_mbid(mbid) {
            Some(i) => Some(self.expressions[i].clone()),
            None => None,
        }
    }

    /// Every expression, ordered ascending by title (untitled ones
    /// first), each carrying its full performer set; associations are
    /// stored inline, so no per-row lookups happen.
    pub fn list_expressions(&self) -> (r: Vec<Expression>)
        ensures
            expressions_view(r@).to_multiset() == self@.expressions.to_multiset(),
            expressions_sorted_by_title(expressions_view(r@)),
    {
        broadcast use vstd::seq_lib::group_to_multiset_ensures;

        let mut r: Vec<Expression> = Vec::new();
        let mut i: usize = 0;
        proof {
            assert(expressions_view(r@) =~= Seq::<ExpressionVal>::empty());
            assert(self@.expressions.subrange(0, 0).to_multiset() =~= expressions_view(
                r@,
            ).to_multiset());
        }
        while i < self.expressions.len()
            invariant
                i <= self@.expressions.len(),
                expressions_view(r@).to_multiset() == self@.expressions.subrange(
                    0,
                    i as int,
                ).to_multiset(),
                expressions_sorted_by_title(expressions_view(r@)),
            decreases self@.expressions.len() - i,
        {
            push_expression_sorted(&mut r, &self.expressions[i]);
            proof {
                let pre = self@.expressions.subrange(0, i + 1);
                assert(pre.drop_last() =~= self@.expressions.subrange(0, i as int));
                assert(pre =~= self@.expressions.subrange(0, i as int).push(
                    self@.expressions[i as int],
                ));
                self@.expressions.subrange(0, i as int).to_multiset_ensures();
            }
            i += 1;
        }
        proof {
            assert(self@.expressions.subrange(
                0,
                self@.expressions.len() as int,
            ) =~= self@.expressions);
        }
        r
    }
}

/// One expression comes before another in a title listing: an untitled
/// expression precedes every titled one; titles order by character
/// code.
pub open spec fn title_le(a: ExpressionVal, b: ExpressionVal) -> bool {
    match a.title {
        Option::None => true,
        Option::Some(x) => match b.title {
            Option::None => false,
            Option::Some(y) => lex_le(x, y),
        },
    }
}

/// The expressions are ordered by [`title_le`].
pub open spec fn expressions_sorted_by_title(s: Seq<ExpressionVal>) -> bool {
    forall|i: int, j: int| 0 <= i < j < s.len() ==> title_le(#[trigger] s[i], #[trigger] s[j])
}

proof fn lemma_title_le_total(a: ExpressionVal, b: ExpressionVal)
    ensures
        title_le(a, b) || title_le(b, a),
{
    match a.title {
        Option::None => {},
        Option::Some(x) => match b.title {
            Option::None => {},
            Option::Some(y) => {
                crate::text::lemma_lex_le_total(x, y);
            },
        },
    }
}

proof fn lemma_title_le_trans(a: ExpressionVal, b: ExpressionVal, c: ExpressionVal)
    requires
        title_le(a, b),
        title_le(b, c),
    ensures
        title_le(a, c),
{
    match a.title {
        Option::None => {},
        Option::Some(x) => match b.title {
            Option::None => {},
            Option::Some(y) => match c.title {
                Option::None => {},
                Option::Some(z) => {
                    crate::text::lemma_lex_le_trans(x, y, z);
                },
            },
        },
    }
}

/// Decide [`title_le`].
fn title_le_exec(a: &Expression, b: &Expression) -> (r: bool)
    ensures
        r == title_le(a@, b@),
{
    match (&a.title, &b.title) {
        (Option::None, _) => true,
        (Option::Some(_), Option::None) => false,
        (Option::Some(x), Option::Some(y)) => lex_le_exec(
            &chars_of(x.as_str()),
            &chars_of(y.as_str()),
        ),
    }
}

/// The position at which the expression keeps `out` ordered by title.
fn expression_insert_pos(out: &Vec<Expression>, e: &Expression) -> (pos: usize)
    ensures
        pos <= out@.len(),
        forall|k: int| 0 <= k < pos ==> title_le(#[trigger] expressions_view(out@)[k], e@),
        pos < out@.len() ==> !title_le(expressions_view(out@)[pos as int], e@),
{
    let mut pos: usize = 0;
    loop
        invariant
            pos <= out@.len(),
            forall|k: int| 0 <= k < pos ==> title_le(#[trigger] expressions_view(out@)[k], e@),
        decreases out@.len() - pos,
    {
        if pos >= out.len() {
            return pos;
        }
        if title_le_exec(&out[pos], e) {
            pos += 1;
        } else {
            return pos;
        }
    }
}

/// Insert an expression at its ordered position: order and
/// contents-plus-one are preserved.
fn push_expression_sorted(out: &mut Vec<Expression>, e: &Expression)
    requires
        expressions_sorted_by_title(expressions_view(old(out)@)),
    ensures
        expressions_sorted_by_title(expressions_view(final(out)@)),
        expressions_view(final(out)@).to_multiset() == expressions_view(
            old(out)@,
        ).to_multiset().insert(e@),
{
    broadcast use vstd::seq_lib::group_to_multiset_ensures;

    let pos = expression_insert_pos(out, e);
    let ghost old_out = expressions_view(out@);
    proof {
        if pos < out@.len() {
            lemma_title_le_total(old_out[pos as int], e@);
            assert(title_le(e@, old_out[pos as int]));
        }
        assert forall|k: int| pos <= k < old_out.len() implies title_le(
            e@,
            #[trigger] old_out[k],
        ) by {
            assert(title_le(e@, old_out[pos as int]));
            if k > pos {
                lemma_title_le_trans(e@, old_out[pos as int], old_out[k]);
            }
        }
    }
    out.insert(pos, e.clone());
    proof {
        let ev = e@;
        assert(expressions_view(out@) =~= old_out.insert(pos as int, ev));
        old_out.insert_ensures(pos as int, ev);
        assert forall|a: int, b: int|
            0 <= a < b < expressions_view(out@).len() implies title_le(
            #[trigger] expressions_view(out@)[a],
            #[trigger] expressions_view(out@)[b],
        ) by {
            let now_ = expressions_view(out@);
            if a < pos && b < pos {
                assert(now_[a] == old_out[a]);
                assert(now_[b] == old_out[b]);
            } else if a < pos && b == pos {
                assert(now_[a] == old_out[a]);
                assert(now_[b] == ev);
            } else if a < pos {
                assert(now_[a] == old_out[a]);
                assert(now_[b] == old_out[b - 1]);
            } else if a == pos {
                assert(now_[a] == ev);
                assert(now_[b] == old_out[b - 1]);
            } else {
                assert(now_[a] == old_out[a - 1]);
                assert(now_[b] == old_out[b - 1]);
            }
        }
        assert(old_out.insert(pos as int, ev).to_multiset() =~= old_out.to_multiset().insert(
            ev,
        )) by {
            let left = old_out.subrange(0, pos as int);
            let right = old_out.subrange(pos as int, old_out.len() as int);
            vstd::seq_lib::lemma_multiset_commutative(left.push(ev), right);
            vstd::seq_lib::lemma_multiset_commutative(left, right);
            assert(old_out =~= left + right);
            left.to_multiset_ensures();
            assert(left.push(ev).to_multiset() =~= left.to_multiset().insert(ev));
        }
    }
}

/// Appending a well-referenced fresh expression preserves the store's
/// invariants.
proof fn lemma_store_grow_expressions(pre: StoreVal, post: StoreVal, e: ExpressionVal)
    requires
        pre.wf(),
        !has_expression(pre.expressions, e.id),
        e.musicbrainz_id matches Some(m) ==> !expression_mbid_taken_except(pre.expressions, m, -1),
        expression_refs_ok(e, pre.works, pre.artists),
        post == (StoreVal { expressions: pre.expressions.push(e), ..pre }),
    ensures
        post.wf(),
{
    let n = pre.expressions.len() as int;
    assert forall|i: int, j: int|
        0 <= i < j < post.expressions.len() implies (#[trigger] post.expressions[i]).id != (
    #[trigger] post.expressions[j]).id by {
        if j < n {
            assert(post.expressions[i] == pre.expressions[i]);
            assert(post.expressions[j] == pre.expressions[j]);
        } else {
            assert(post.expressions[j] == e);
            assert(post.expressions[i] == pre.expressions[i]);
            if pre.expressions[i].id == e.id {
                assert(has_expression(pre.expressions, e.id));
            }
        }
    }
    assert forall|i: int, j: int|
        0 <= i < j < post.expressions.len() && (
    #[trigger] post.expressions[i]).musicbrainz_id is Some implies (
    #[trigger] post.expressions[j]).musicbrainz_id != post.expressions[i].musicbrainz_id by {
        if j < n {
            assert(post.expressions[i] == pre.expressions[i]);
            assert(post.expressions[j] == pre.expressions[j]);
        } else {
            assert(post.expressions[j] == e);
            assert(post.expressions[i] == pre.expressions[i]);
            if e.musicbrainz_id is Some && pre.expressions[i].musicbrainz_id == e.musicbrainz_id {
                assert(expression_mbid_taken_except(pre.expressions, e.musicbrainz_id->0, -1));
            }
        }
    }
    assert forall|i: int|
        0 <= i < post.expressions.len() implies expression_refs_ok(
        #[trigger] post.expressions[i],
        post.works,
        post.artists,
    ) by {
        if i < n {
            assert(post.expressions[i] == pre.expressions[i]);
            assert(expression_refs_ok(pre.expressions[i], pre.works, pre.artists));
        } else {
            assert(post.expressions[i] == e);
        }
    }
    assert forall|i: int|
        0 <= i < post.items.len() implies match (#[trigger] post.items[i]).expression_id {
        Some(eid) => has_expression(post.expressions, eid),
        None => true,
    } by {
        match pre.items[i].expression_id {
            Some(eid) => {
                let wit = choose|k: int|
                    0 <= k < pre.expressions.len() && (#[trigger] pre.expressions[k]).id == eid;
                assert(post.expressions[wit] == pre.expressions[wit]);
                assert(has_expression(post.expressions, eid));
            },
            None => {},
        }
    }
}

/// Replacing the expression in a slot preserves the store's invariants
/// when the replacement keeps the identity, brings no external-id
/// conflict, and its references resolve.
proof fn lemma_store_update_expression(pre: StoreVal, post: StoreVal, slot: int, e: ExpressionVal)
    requires
        pre.wf(),
        0 <= slot < pre.expressions.len(),
        pre.expressions[slot].id == e.id,
        e.musicbrainz_id matches Some(m) ==> !expression_mbid_taken_except(
            pre.expressions,
            m,
            slot,
        ),
        expression_refs_ok(e, pre.works, pre.artists),
        post == (StoreVal { expressions: pre.expressions.update(slot, e), ..pre }),
    ensures
        post.wf(),
{
    assert forall|i: int, j: int|
        0 <= i < j < post.expressions.len() implies (#[trigger] post.expressions[i]).id != (
    #[trigger] post.expressions[j]).id by {
        assert(pre.expressions[i].id != pre.expressions[j].id);
        if i == slot {
            assert(post.expressions[i] == e);
            assert(post.expressions[j] == pre.expressions[j]);
        } else if j == slot {
            assert(post.expressions[j] == e);
            assert(post.expressions[i] == pre.expressions[i]);
        } else {
            assert(post.expressions[i] == pre.expressions[i]);
            assert(post.expressions[j] == pre.expressions[j]);
        }
    }
    assert forall|i: int, j: int|
        0 <= i < j < post.expressions.len() && (
    #[trigger] post.expressions[i]).musicbrainz_id is Some implies (
    #[trigger] post.expressions[j]).musicbrainz_id != post.expressions[i].musicbrainz_id by {
        if i == slot {
            if post.expressions[j].musicbrainz_id == e.musicbrainz_id {
                assert(pre.expressions[j].musicbrainz_id == e.musicbrainz_id);
                assert(expression_mbid_taken_except(pre.expressions, e.musicbrainz_id->0, slot));
            }
        } else if j == slot {
            if e.musicbrainz_id is Some && post.expressions[i].musicbrainz_id
                == e.musicbrainz_id {
                assert(pre.expressions[i].musicbrainz_id == e.musicbrainz_id);
                assert(expression_mbid_taken_except(pre.expressions, e.musicbrainz_id->0, slot));
            }
        } else {
            assert(post.expressions[i] == pre.expressions[i]);
            assert(post.expressions[j] == pre.expressions[j]);
        }
    }
    assert forall|i: int|
        0 <= i < post.expressions.len() implies expression_refs_ok(
        #[trigger] post.expressions[i],
        post.works,
        post.artists,
    ) by {
        if i == slot {
            assert(post.expressions[i] == e);
        } else {
            assert(post.expressions[i] == pre.expressions[i]);
            assert(expression_refs_ok(pre.expressions[i], pre.works, pre.artists));
        }
    }
    assert forall|i: int|
        0 <= i < post.items.len() implies match (#[trigger] post.items[i]).expression_id {
        Some(eid) => has_expression(post.expressions, eid),
        None => true,
    } by {
        match pre.items[i].expression_id {
            Some(eid) => {
                let wit = choose|k: int|
                    0 <= k < pre.expressions.len() && (#[trigger] pre.expressions[k]).id == eid;
                if wit == slot {
                    assert(post.expressions[slot] == e);
                    assert(e.id == pre.expressions[slot].id);
                    assert(has_expression(post.expressions, eid));
                } else {
                    assert(post.expressions[wit] == pre.expressions[wit]);
                    assert(has_expression(post.expressions, eid));
                }
            },
            None => {},
        }
    }
}

// ---------------------------------------------------------------------
// Items
// ---------------------------------------------------------------------

/// Selects items not yet linked to an expression.
pub open spec fn unidentified_pred() -> spec_fn(ItemVal) -> bool {
    |it: ItemVal| it.expression_id is None
}

/// Selects items linked to an expression.
pub open spec fn identified_pred() -> spec_fn(ItemVal) -> bool {
    |it: ItemVal| it.expression_id is Some
}

/// Selects items that still lack a fingerprint.
pub open spec fn lacks_fingerprint_pred() -> spec_fn(ItemVal) -> bool {
    |it: ItemVal| it.fingerprint is None
}

/// The items are ordered ascending by file path, by character code.
pub open spec fn items_sorted_by_path(s: Seq<ItemVal>) -> bool {
    forall|i: int, j: int|
        0 <= i < j < s.len() ==> lex_le((#[trigger] s[i]).file_path, (#[trigger] s[j]).file_path)
}

/// The position at which an item with the given path keeps `out`
/// ordered: the first index whose path does not precede it.
fn item_insert_pos(out: &Vec<Item>, path: &Vec<char>) -> (pos: usize)
    ensures
        pos <= out@.len(),
        forall|k: int|
            0 <= k < pos ==> lex_le((#[trigger] items_view(out@)[k]).file_path, path@),
        pos < out@.len() ==> !lex_le(items_view(out@)[pos as int].file_path, path@),
{
    let mut pos: usize = 0;
    loop
        invariant
            pos <= out@.len(),
            forall|k: int|
                0 <= k < pos ==> lex_le((#[trigger] items_view(out@)[k]).file_path, path@),
        decreases out@.len() - pos,
    {
        if pos >= out.len() {
            return pos;
        }
        let here = chars_of(out[pos].file_path.as_str());
        if lex_le_exec(&here, path) {
            pos += 1;
        } else {
            return pos;
        }
    }
}

/// Insert an item at its ordered position: order and contents-plus-one
/// are preserved.
fn push_item_sorted(out: &mut Vec<Item>, item: &Item)
    requires
        items_sorted_by_path(items_view(old(out)@)),
    ensures
        items_sorted_by_path(items_view(final(out)@)),
        items_view(final(out)@).to_multiset() == items_view(old(out)@).to_multiset().insert(
            item@,
        ),
{
    broadcast use vstd::seq_lib::group_to_multiset_ensures;

    let path = chars_of(item.file_path.as_str());
    let pos = item_insert_pos(out, &path);
    let ghost old_out = items_view(out@);
    proof {
        if pos < out@.len() {
            crate::text::lemma_lex_le_total(old_out[pos as int].file_path, item@.file_path);
            assert(lex_le(item@.file_path, old_out[pos as int].file_path));
        }
        assert forall|k: int|
            pos <= k < old_out.len() implies lex_le(
            item@.file_path,
            (#[trigger] old_out[k]).file_path,
        ) by {
            assert(lex_le(item@.file_path, old_out[pos as int].file_path));
            if k > pos {
                crate::text::lemma_lex_le_trans(
                    item@.file_path,
                    old_out[pos as int].file_path,
                    old_out[k].file_path,
                );
            }
        }
    }
    out.insert(pos, item.clone());
    proof {
        let iv = item@;
        assert(items_view(out@) =~= old_out.insert(pos as int, iv));
        old_out.insert_ensures(pos as int, iv);
        assert forall|a: int, b: int|
            0 <= a < b < items_view(out@).len() implies lex_le(
            (#[trigger] items_view(out@)[a]).file_path,
            (#[trigger] items_view(out@)[b]).file_path,
        ) by {
            let now_ = items_view(out@);
            if a < pos && b < pos {
                assert(now_[a] == old_out[a]);
                assert(now_[b] == old_out[b]);
            } else if a < pos && b == pos {
                assert(now_[a] == old_out[a]);
                assert(now_[b] == iv);
            } else if a < pos {
                assert(now_[a] == old_out[a]);
                assert(now_[b] == old_out[b - 1]);
            } else if a == pos {
                assert(now_[a] == iv);
                assert(now_[b] == old_out[b - 1]);
            } else {
                assert(now_[a] == old_out[a - 1]);
                assert(now_[b] == old_out[b - 1]);
            }
        }
        assert(old_out.insert(pos as int, iv).to_multiset() =~= old_out.to_multiset().insert(
            iv,
        )) by {
            let left = old_out.subrange(0, pos as int);
            let right = old_out.subrange(pos as int, old_out.len() as int);
            vstd::seq_lib::lemma_multiset_commutative(left.push(iv), right);
            vstd::seq_lib::lemma_multiset_commutative(left, right);
            assert(old_out =~= left + right);
            left.to_multiset_ensures();
            assert(left.push(iv).to_multiset() =~= left.to_multiset().insert(iv));
        }
    }
}

/// An item's references all resolve: the expression and manifestation it
/// names, when present.
pub open spec fn item_refs_ok(
    it: ItemVal,
    es: Seq<ExpressionVal>,
    ms: Seq<ManifestationVal>,
) -> bool {
    &&& match it.expression_id {
        Some(e) => has_expression(es, e),
        None => true,
    }
    &&& match it.manifestation_id {
        Some(m) => has_manifestation(ms, m),
        None => true,
    }
}

impl CatalogStore {
    /// The index of the item with the given identity, if present.
    fn item_index_by_id(&self, id: ItemId) -> (r: Option<usize>)
        ensures
            match r {
                Some(i) => i < self@.items.len() && self@.items[i as int].id == id,
                None => !has_item(self@.items, id),
            },
    {
        let mut i: usize = 0;
        while i < self.items.len()
            invariant
                i <= self@.items.len(),
                forall|k: int| 0 <= k < i ==> (#[trigger] self@.items[k]).id != id,
            decreases self@.items.len() - i,
        {
            if self.items[i].id == id {
                return Some(i);
            }
            i += 1;
        }
        None
    }

    /// The index of the item holding the file path, if any.
    fn item_index_by_path(&self, path: &str) -> (r: Option<usize>)
        ensures
            match r {
                Some(i) => i < self@.items.len() && self@.items[i as int].file_path == path@,
                None => forall|k: int|
                    0 <= k < self@.items.len() ==> (#[trigger] self@.items[k]).file_path != path@,
            },
    {
        let mut i: usize = 0;
        while i < self.items.len()
            invariant
                i <= self@.items.len(),
                forall|k: int| 0 <= k < i ==> (#[trigger] self@.items[k]).file_path != path@,
            decreases self@.items.len() - i,
        {
            if str_eq(self.items[i].file_path.as_str(), path) {
                return Some(i);
            }
            i += 1;
        }
        None
    }

    /// Whether the item's expression and manifestation references, when
    /// present, resolve in this store.
    fn item_refs_resolve(&self, item: &Item) -> (r: bool)
        ensures
            r == item_refs_ok(item@, self@.expressions, self@.manifestations),
    {
        let e_ok = match &item.expression_id {
            Some(e) => self.expression_index_by_id(*e).is_some(),
            None => true,
        };
        if !e_ok {
            return false;
        }
        match &item.manifestation_id {
            Some(m) => self.manifestation_index_by_id(*m).is_some(),
            None => true,
        }
    }

    /// Insert a new item.
    ///
    /// Succeeds exactly when the identity is fresh, no other item holds
    /// the file path, and the expression and manifestation references,
    /// when present, resolve; the item is then appended.
    pub fn insert_item(&mut self, item: Item) -> (r: Result<(), Error>)
        requires
            old(self)@.wf(),
        ensures
            final(self)@.wf(),
            match r {
                Ok(()) => final(self)@ == (StoreVal {
                    items: old(self)@.items.push(item@),
                    ..old(self)@
                }) && !has_item(old(self)@.items, item@.id) && !item_path_taken_except(
                    old(self)@.items,
                    item@.file_path,
                    -1,
                ) && item_refs_ok(item@, old(self)@.expressions, old(self)@.manifestations),
                Err(e) => final(self)@ == old(self)@ && e is Database && (has_item(
                    old(self)@.items,
                    item@.id,
                ) || item_path_taken_except(old(self)@.items, item@.file_path, -1)
                    || !item_refs_ok(item@, old(self)@.expressions, old(self)@.manifestations)),
            },
    {
        if let Some(_) = self.item_index_by_id(item.id) {
            return Err(Error::Database(String::from_str("item id already present")));
        }
        if let Some(_) = self.item_index_by_path(item.file_path.as_str()) {
            proof {
                assert(item_path_taken_except(self@.items, item@.file_path, -1));
            }
            return Err(Error::Database(String::from_str("item file path already present")));
        }
        if !self.item_refs_resolve(&item) {
            return Err(Error::Database(String::from_str("item reference missing")));
        }
        let ghost old_store = self@;
        let ghost iv = item@;
        self.items.push(item);
        proof {
            assert(self@.items =~= old_store.items.push(iv));
            assert(self@ =~= (StoreVal { items: old_store.items.push(iv), ..old_store }));
            lemma_store_grow_items(old_store, self@, iv);
        }
        Ok(())
    }

    /// Replace the stored item with the same identity.
    ///
    /// When no item carries the identity, the store is unchanged and the
    /// call still succeeds (nothing matched). When one does, the call
    /// succeeds exactly when no other item holds the new file path and
    /// the item's references resolve.
    pub fn update_item(&mut self, item: &Item) -> (r: Result<(), Error>)
        requires
            old(self)@.wf(),
        ensures
            final(self)@.wf(),
            match r {
                Ok(()) => ({
                    ||| (!has_item(old(self)@.items, item@.id) && final(self)@ == old(self)@)
                    ||| (exists|i: int|
                        0 <= i < old(self)@.items.len() && (#[trigger] old(self)@.items[i]).id
                            == item@.id && final(self)@ == (StoreVal {
                            items: old(self)@.items.update(i, item@),
                            ..old(self)@
                        }))
                }),
                Err(e) => final(self)@ == old(self)@ && e is Database && (
                item_path_held_by_other(old(self)@.items, item@.file_path, item@.id)
                    || !item_refs_ok(item@, old(self)@.expressions, old(self)@.manifestations)),
            },
    {
        let slot = self.item_index_by_id(item.id);
        match slot {
            Some(i) => {
                let path_conflict = match self.item_index_by_path(item.file_path.as_str()) {
                    Some(j) => j != i,
                    None => false,
                };
                if path_conflict {
                    proof {
                        assert(item_path_held_by_other(
                            self@.items,
                            item@.file_path,
                            item@.id,
                        )) by {
                            let j = choose|j: int|
                                0 <= j < self@.items.len() && j != i && (
                                #[trigger] self@.items[j]).file_path == item@.file_path;
                            assert(self@.items[j].id != self@.items[i as int].id);
                        }
                    }
                    return Err(Error::Database(String::from_str("item file path already present")));
                }
                if !self.item_refs_resolve(item) {
                    return Err(Error::Database(String::from_str("item reference missing")));
                }
                let ghost old_store = self@;
                let ghost iv = item@;
                let ghost slot_i = i as int;
                self.items.set(i, item.clone());
                proof {
                    assert(self@.items =~= old_store.items.update(slot_i, iv));
                    assert(self@ =~= (StoreVal {
                        items: old_store.items.update(slot_i, iv),
                        ..old_store
                    }));
                    lemma_store_update_item(old_store, self@, slot_i, iv);
                }
                Ok(())
            },
            None => Ok(()),
        }
    }

    /// Write identification results onto the item with the given
    /// identity: its expression, manifestation, and fingerprint-match
    /// score; the update time is refreshed.
    ///
    /// When no item carries the identity, the store is unchanged and the
    /// call succeeds (nothing matched). The references must resolve.
    pub fn update_item_identification(
        &mut self,
        item_id: ItemId,
        expression_id: Option<ExpressionId>,
        manifestation_id: Option<ManifestationId>,
        fingerprint_score: Option<u32>,
    ) -> (r: Result<(), Error>)
        requires
            old(self)@.wf(),
        ensures
            final(self)@.wf(),
            match r {
                Ok(()) => ({
                    ||| (!has_item(old(self)@.items, item_id) && final(self)@ == old(self)@)
                    ||| (exists|i: int|
                        0 <= i < old(self)@.items.len() && (#[trigger] old(self)@.items[i]).id
                            == item_id && final(self)@ == (StoreVal {
                            items: old(self)@.items.update(i, final(self)@.items[i]),
                            ..old(self)@
                        }) && final(self)@.items[i] == (ItemVal {
                            expression_id: expression_id,
                            manifestation_id: manifestation_id,
                            fingerprint_score: match fingerprint_score {
                                Some(s) => Some(s as int),
                                None => None,
                            },
                            updated_at: final(self)@.items[i].updated_at,
                            ..old(self)@.items[i]
                        }))
                }),
                Err(e) => final(self)@ == old(self)@ && e is Database && has_item(
                    old(self)@.items,
                    item_id,
                ) && ((expression_id matches Some(eid) && !has_expression(
                    old(self)@.expressions,
                    eid,
                )) || (manifestation_id matches Some(mid) && !has_manifestation(
                    old(self)@.manifestations,
                    mid,
                ))),
            },
    {
        let slot = self.item_index_by_id(item_id);
        match slot {
            Some(i) => {
                let e_ok = match &expression_id {
                    Some(e) => self.expression_index_by_id(*e).is_some(),
                    None => true,
                };
                if !e_ok {
                    return Err(Error::Database(String::from_str("item reference missing")));
                }
                let m_ok = match &manifestation_id {
                    Some(m) => self.manifestation_index_by_id(*m).is_some(),
                    None => true,
                };
                if !m_ok {
                    return Err(Error::Database(String::from_str("item reference missing")));
                }
                let mut updated = self.items[i].clone();
                updated.expression_id = expression_id;
                updated.manifestation_id = manifestation_id;
                updated.fingerprint_score = fingerprint_score;
                updated.updated_at = crate::clock::now_millis();
                let ghost old_store = self@;
                let ghost iv = updated@;
                let ghost slot_i = i as int;
                self.items.set(i, updated);
                proof {
                    assert(self@.items =~= old_store.items.update(slot_i, iv));
                    assert(self@ =~= (StoreVal {
                        items: old_store.items.update(slot_i, iv),
                        ..old_store
                    }));
                    assert(iv == (ItemVal {
                        expression_id: expression_id,
                        manifestation_id: manifestation_id,
                        fingerprint_score: match fingerprint_score {
                            Some(s) => Some(s as int),
                            None => None,
                        },
                        updated_at: iv.updated_at,
                        ..old_store.items[slot_i]
                    }));
                    lemma_store_update_item(old_store, self@, slot_i, iv);
                }
                Ok(())
            },
            None => Ok(()),
        }
    }

    /// The item with the given identity, if present.
    pub fn get_item_by_id(&self, id: ItemId) -> (r: Option<Item>)
        ensures
            match r {
                Some(it) => exists|i: int|
                    0 <= i < self@.items.len() && (#[trigger] self@.items[i]) == it@
                        && self@.items[i].id == id,
                None => !has_item(self@.items, id),
            },
    {
        match self.item_index_by_id(id) {
            Some(i) => Some(self.items[i].clone()),
            None => None,
        }
    }

    /// The item holding the given file path, if present.
    pub fn get_item_by_path(&self, path: &str) -> (r: Option<Item>)
        ensures
            match r {
                Some(it) => exists|i: int|
                    0 <= i < self@.items.len() && (#[trigger] self@.items[i]) == it@
                        && self@.items[i].file_path == path@,
                None => forall|i: int|
                    0 <= i < self@.items.len() ==> (#[trigger] self@.items[i]).file_path != path@,
            },
    {
        match self.item_index_by_path(path) {
            Some(i) => Some(self.items[i].clone()),
            None => None,
        }
    }

    /// Every item, in insertion order.
    pub fn list_all_items(&self) -> (r: Vec<Item>)
        ensures
            items_view(r@).to_multiset() == self@.items.to_multiset(),
            items_sorted_by_path(items_view(r@)),
    {
        broadcast use vstd::seq_lib::group_to_multiset_ensures;

        let mut r: Vec<Item> = Vec::new();
        let mut i: usize = 0;
        proof {
            assert(items_view(r@) =~= Seq::<ItemVal>::empty());
            assert(self@.items.subrange(0, 0).to_multiset() =~= items_view(r@).to_multiset());
        }
        while i < self.items.len()
            invariant
                i <= self@.items.len(),
                items_view(r@).to_multiset() == self@.items.subrange(0, i as int).to_multiset(),
                items_sorted_by_path(items_view(r@)),
            decreases self@.items.len() - i,
        {
            push_item_sorted(&mut r, &self.items[i]);
            proof {
                let pre = self@.items.subrange(0, i + 1);
                assert(pre.drop_last() =~= self@.items.subrange(0, i as int));
                assert(pre =~= self@.items.subrange(0, i as int).push(self@.items[i as int]));
                self@.items.subrange(0, i as int).to_multiset_ensures();
            }
            i += 1;
        }
        proof {
            assert(self@.items.subrange(0, self@.items.len() as int) =~= self@.items);
        }
        r
    }

    /// Items not yet linked to an expression, ordered ascending by file path.
    pub fn list_unidentified_items(&self) -> (r: Vec<Item>)
        ensures
            items_view(r@).to_multiset() == self@.items.filter(unidentified_pred()).to_multiset(),
            items_sorted_by_path(items_view(r@)),
    {
        broadcast use vstd::seq_lib::group_to_multiset_ensures;

        let mut r: Vec<Item> = Vec::new();
        let mut i: usize = 0;
        proof {
            reveal(Seq::filter);
            assert(items_view(r@) =~= Seq::<ItemVal>::empty());
            assert(self@.items.subrange(0, 0).filter(unidentified_pred()) =~= Seq::<ItemVal>::empty());
            assert(items_view(r@).to_multiset() =~= self@.items.subrange(0, 0).filter(
                unidentified_pred(),
            ).to_multiset());
        }
        while i < self.items.len()
            invariant
                i <= self@.items.len(),
                items_view(r@).to_multiset() == self@.items.subrange(0, i as int).filter(
                    unidentified_pred(),
                ).to_multiset(),
                items_sorted_by_path(items_view(r@)),
            decreases self@.items.len() - i,
        {
            let ghost pre = self@.items.subrange(0, i + 1);
            proof {
                reveal(Seq::filter);
                assert(pre.drop_last() =~= self@.items.subrange(0, i as int));
                assert(pre.last() == self@.items[i as int]);
            }
            if self.items[i].expression_id.is_none() {
                push_item_sorted(&mut r, &self.items[i]);
                proof {
                    let fx = self@.items.subrange(0, i as int).filter(unidentified_pred());
                    fx.to_multiset_ensures();
                    assert(pre.filter(unidentified_pred()) =~= fx.push(self@.items[i as int]));
                }
            } else {
                proof {
                    reveal(Seq::filter);
                    assert(pre.filter(unidentified_pred()) =~= self@.items.subrange(0, i as int).filter(
                        unidentified_pred(),
                    ));
                }
            }
            i += 1;
        }
        proof {
            assert(self@.items.subrange(0, self@.items.len() as int) =~= self@.items);
        }
        r
    }

    /// Items linked to an expression, ordered ascending by file path.
    pub fn list_identified_items(&self) -> (r: Vec<Item>)
        ensures
            items_view(r@).to_multiset() == self@.items.filter(identified_pred()).to_multiset(),
            items_sorted_by_path(items_view(r@)),
    {
        broadcast use vstd::seq_lib::group_to_multiset_ensures;

        let mut r: Vec<Item> = Vec::new();
        let mut i: usize = 0;
        proof {
            reveal(Seq::filter);
            assert(items_view(r@) =~= Seq::<ItemVal>::empty());
            assert(self@.items.subrange(0, 0).filter(identified_pred()) =~= Seq::<ItemVal>::empty());
            assert(items_view(r@).to_multiset() =~= self@.items.subrange(0, 0).filter(
                identified_pred(),
            ).to_multiset());
        }
        while i < self.items.len()
            invariant
                i <= self@.items.len(),
                items_view(r@).to_multiset() == self@.items.subrange(0, i as int).filter(
                    identified_pred(),
                ).to_multiset(),
                items_sorted_by_path(items_view(r@)),
            decreases self@.items.len() - i,
        {
            let ghost pre = self@.items.subrange(0, i + 1);
            proof {
                reveal(Seq::filter);
                assert(pre.drop_last() =~= self@.items.subrange(0, i as int));
                assert(pre.last() == self@.items[i as int]);
            }
            if self.items[i].expression_id.is_some() {
                push_item_sorted(&mut r, &self.items[i]);
                proof {
                    let fx = self@.items.subrange(0, i as int).filter(identified_pred());
                    fx.to_multiset_ensures();
                    assert(pre.filter(identified_pred()) =~= fx.push(self@.items[i as int]));
                }
            } else {
                proof {
                    reveal(Seq::filter);
                    assert(pre.filter(identified_pred()) =~= self@.items.subrange(0, i as int).filter(
                        identified_pred(),
                    ));
                }
            }
            i += 1;
        }
        proof {
            assert(self@.items.subrange(0, self@.items.len() as int) =~= self@.items);
        }
        r
    }

    /// Items that still lack a fingerprint, ordered ascending by file path.
    pub fn list_items_without_fingerprints(&self) -> (r: Vec<Item>)
        ensures
            items_view(r@).to_multiset() == self@.items.filter(lacks_fingerprint_pred()).to_multiset(),
            items_sorted_by_path(items_view(r@)),
    {
        broadcast use vstd::seq_lib::group_to_multiset_ensures;

        let mut r: Vec<Item> = Vec::new();
        let mut i: usize = 0;
        proof {
            reveal(Seq::filter);
            assert(items_view(r@) =~= Seq::<ItemVal>::empty());
            assert(self@.items.subrange(0, 0).filter(lacks_fingerprint_pred()) =~= Seq::<ItemVal>::empty());
            assert(items_view(r@).to_multiset() =~= self@.items.subrange(0, 0).filter(
                lacks_fingerprint_pred(),
            ).to_multiset());
        }
        while i < self.items.len()
            invariant
                i <= self@.items.len(),
                items_view(r@).to_multiset() == self@.items.subrange(0, i as int).filter(
                    lacks_fingerprint_pred(),
                ).to_multiset(),
                items_sorted_by_path(items_view(r@)),
            decreases self@.items.len() - i,
        {
            let ghost pre = self@.items.subrange(0, i + 1);
            proof {
                reveal(Seq::filter);
                assert(pre.drop_last() =~= self@.items.subrange(0, i as int));
                assert(pre.last() == self@.items[i as int]);
            }
            if self.items[i].fingerprint.is_none() {
                push_item_sorted(&mut r, &self.items[i]);
                proof {
                    let fx = self@.items.subrange(0, i as int).filter(lacks_fingerprint_pred());
                    fx.to_multiset_ensures();
                    assert(pre.filter(lacks_fingerprint_pred()) =~= fx.push(self@.items[i as int]));
                }
            } else {
                proof {
                    reveal(Seq::filter);
                    assert(pre.filter(lacks_fingerprint_pred()) =~= self@.items.subrange(0, i as int).filter(
                        lacks_fingerprint_pred(),
                    ));
                }
            }
            i += 1;
        }
        proof {
            assert(self@.items.subrange(0, self@.items.len() as int) =~= self@.items);
        }
        r
    }
}

/// Appending a fresh, well-referenced item preserves the store's
/// invariants.
proof fn lemma_store_grow_items(pre: StoreVal, post: StoreVal, it: ItemVal)
    requires
        pre.wf(),
        !has_item(pre.items, it.id),
        !item_path_taken_except(pre.items, it.file_path, -1),
        item_refs_ok(it, pre.expressions, pre.manifestations),
        post == (StoreVal { items: pre.items.push(it), ..pre }),
    ensures
        post.wf(),
{
    let n = pre.items.len() as int;
    assert forall|i: int, j: int|
        0 <= i < j < post.items.len() implies (#[trigger] post.items[i]).id != (
    #[trigger] post.items[j]).id by {
        if j < n {
            assert(post.items[i] == pre.items[i]);
            assert(post.items[j] == pre.items[j]);
        } else {
            assert(post.items[j] == it);
            assert(post.items[i] == pre.items[i]);
            if pre.items[i].id == it.id {
                assert(has_item(pre.items, it.id));
            }
        }
    }
    assert forall|i: int, j: int|
        0 <= i < j < post.items.len() implies (#[trigger] post.items[i]).file_path != (
    #[trigger] post.items[j]).file_path by {
        if j < n {
            assert(post.items[i] == pre.items[i]);
            assert(post.items[j] == pre.items[j]);
        } else {
            assert(post.items[j] == it);
            assert(post.items[i] == pre.items[i]);
            if pre.items[i].file_path == it.file_path {
                assert(item_path_taken_except(pre.items, it.file_path, -1));
            }
        }
    }
    assert forall|i: int|
        0 <= i < post.items.len() implies match (#[trigger] post.items[i]).expression_id {
        Some(e) => has_expression(post.expressions, e),
        None => true,
    } by {
        if i < n {
            assert(post.items[i] == pre.items[i]);
        } else {
            assert(post.items[i] == it);
        }
    }
    assert forall|i: int|
        0 <= i < post.items.len() implies match (#[trigger] post.items[i]).manifestation_id {
        Some(m) => has_manifestation(post.manifestations, m),
        None => true,
    } by {
        if i < n {
            assert(post.items[i] == pre.items[i]);
        } else {
            assert(post.items[i] == it);
        }
    }
}

/// Replacing the item in a slot preserves the store's invariants when the
/// replacement keeps the identity, brings no path conflict, and its
/// references resolve.
proof fn lemma_store_update_item(pre: StoreVal, post: StoreVal, slot: int, it: ItemVal)
    requires
        pre.wf(),
        0 <= slot < pre.items.len(),
        pre.items[slot].id == it.id,
        !item_path_taken_except(pre.items, it.file_path, slot),
        item_refs_ok(it, pre.expressions, pre.manifestations),
        post == (StoreVal { items: pre.items.update(slot, it), ..pre }),
    ensures
        post.wf(),
{
    assert forall|i: int, j: int|
        0 <= i < j < post.items.len() implies (#[trigger] post.items[i]).id != (
    #[trigger] post.items[j]).id by {
        assert(pre.items[i].id != pre.items[j].id);
        if i == slot {
            assert(post.items[i] == it);
            assert(post.items[j] == pre.items[j]);
        } else if j == slot {
            assert(post.items[j] == it);
            assert(post.items[i] == pre.items[i]);
        } else {
            assert(post.items[i] == pre.items[i]);
            assert(post.items[j] == pre.items[j]);
        }
    }
    assert forall|i: int, j: int|
        0 <= i < j < post.items.len() implies (#[trigger] post.items[i]).file_path != (
    #[trigger] post.items[j]).file_path by {
        if i == slot {
            if post.items[j].file_path == it.file_path {
                assert(pre.items[j].file_path == it.file_path);
                assert(item_path_taken_except(pre.items, it.file_path, slot));
            }
        } else if j == slot {
            if post.items[i].file_path == it.file_path {
                assert(pre.items[i].file_path == it.file_path);
                assert(item_path_taken_except(pre.items, it.file_path, slot));
            }
        } else {
            assert(post.items[i] == pre.items[i]);
            assert(post.items[j] == pre.items[j]);
        }
    }
    assert forall|i: int|
        0 <= i < post.items.len() implies match (#[trigger] post.items[i]).expression_id {
        Some(e) => has_expression(post.expressions, e),
        None => true,
    } by {
        if i == slot {
            assert(post.items[i] == it);
        } else {
            assert(post.items[i] == pre.items[i]);
        }
    }
    assert forall|i: int|
        0 <= i < post.items.len() implies match (#[trigger] post.items[i]).manifestation_id {
        Some(m) => has_manifestation(post.manifestations, m),
        None => true,
    } by {
        if i == slot {
            assert(post.items[i] == it);
        } else {
            assert(post.items[i] == pre.items[i]);
        }
    }
}

// ---------------------------------------------------------------------
// Assertions
// ---------------------------------------------------------------------

/// The assertion as it will be stored: its timestamp raised to the
/// newest already stored, so that timestamps never decrease in insertion
/// order.
pub open spec fn stamped_assertion(stored: Seq<AssertionVal>, a: AssertionVal) -> AssertionVal {
    if stored.len() > 0 && stored.last().fetched_at > a.fetched_at {
        AssertionVal { fetched_at: stored.last().fetched_at, ..a }
    } else {
        a
    }
}

/// The assertions about an entity, newest first: scanning the stored
/// sequence from its end.
pub open spec fn newest_first(s: Seq<AssertionVal>, eid: Seq<char>) -> Seq<AssertionVal>
    decreases s.len(),
{
    if s.len() == 0 {
        Seq::empty()
    } else {
        (if s.last().entity_id == eid {
            seq![s.last()]
        } else {
            Seq::empty()
        }) + newest_first(s.drop_last(), eid)
    }
}

impl CatalogStore {
    /// Append an assertion; the log is append-only and history is
    /// retained.
    ///
    /// The stored timestamp is the given one, raised to the newest
    /// already stored if that is later; an assertion fetched no earlier
    /// than every stored one is kept verbatim.
    pub fn insert_assertion(&mut self, assertion: &Assertion) -> (r: Result<(), Error>)
        requires
            old(self)@.wf(),
            assertion@.wf(),
        ensures
            final(self)@.wf(),
            r is Ok,
            final(self)@ == (StoreVal {
                assertions: old(self)@.assertions.push(
                    stamped_assertion(old(self)@.assertions, assertion@),
                ),
                ..old(self)@
            }),
    {
        let ghost old_store = self@;
        let mut stored = assertion.clone();
        let n = self.assertions.len();
        if n > 0 {
            let last_ts = self.assertions[n - 1].fetched_at;
            if last_ts > stored.fetched_at {
                stored.fetched_at = last_ts;
            }
        }
        proof {
            assert(old_store.assertions.last() == self@.assertions.last());
            assert(stored@ == stamped_assertion(old_store.assertions, assertion@));
        }
        let ghost sv = stored@;
        self.assertions.push(stored);
        proof {
            assert(self@.assertions =~= old_store.assertions.push(sv));
            assert(self@ =~= (StoreVal {
                assertions: old_store.assertions.push(sv),
                ..old_store
            }));
            let n2 = old_store.assertions.len() as int;
            assert forall|i: int, j: int|
                0 <= i <= j < self@.assertions.len() implies (
            #[trigger] self@.assertions[i]).fetched_at <= (
            #[trigger] self@.assertions[j]).fetched_at by {
                if j < n2 {
                    assert(self@.assertions[i] == old_store.assertions[i]);
                    assert(self@.assertions[j] == old_store.assertions[j]);
                } else if i < n2 {
                    assert(self@.assertions[i] == old_store.assertions[i]);
                    assert(self@.assertions[j] == sv);
                    assert(old_store.assertions[i].fetched_at
                        <= old_store.assertions[n2 - 1].fetched_at);
                }
            }
        }
        Ok(())
    }

    /// Every assertion about the entity, newest first. For equal
    /// timestamps, the one inserted later comes first.
    pub fn get_assertions_for_entity(&self, entity_id: &str) -> (r: Vec<Assertion>)
        ensures
            assertions_view(r@) == newest_first(self@.assertions, entity_id@),
    {
        let ghost sv = self@.assertions;
        let mut r: Vec<Assertion> = Vec::new();
        let mut i: usize = self.assertions.len();
        proof {
            assert(sv.subrange(0, sv.len() as int) =~= sv);
        }
        while i > 0
            invariant
                sv == self@.assertions,
                i <= sv.len(),
                newest_first(sv, entity_id@) =~= assertions_view(r@) + newest_first(
                    sv.subrange(0, i as int),
                    entity_id@,
                ),
            decreases i,
    {
            i -= 1;
            let ghost pre = sv.subrange(0, i + 1);
            proof {
                assert(pre.drop_last() =~= sv.subrange(0, i as int));
                assert(pre.last() == sv[i as int]);
            }
            let ghost old_r = assertions_view(r@);
            if str_eq(self.assertions[i].entity_id.as_str(), entity_id) {
                r.push(self.assertions[i].clone());
                proof {
                    assert(assertions_view(r@) =~= old_r.push(sv[i as int]));
                    assert(assertions_view(r@) =~= old_r + seq![sv[i as int]]);
                }
            }
        }
        proof {
            assert(sv.subrange(0, 0).len() == 0);
            assert(newest_first(sv.subrange(0, 0), entity_id@) =~= Seq::<AssertionVal>::empty());
        }
        r
    }
}

// ---------------------------------------------------------------------
// Controlled vocabularies
// ---------------------------------------------------------------------

/// Selects terms whose broader (parent) URI is the given one.
pub open spec fn broader_pred(uri: Seq<char>) -> spec_fn(TermVal) -> bool {
    |t: TermVal| t.broader_uri == Some(uri)
}

/// The terms are ordered by label, by character code.
pub open spec fn sorted_by_label(s: Seq<TermVal>) -> bool {
    forall|i: int, j: int|
        0 <= i < j < s.len() ==> lex_le((#[trigger] s[i]).label, (#[trigger] s[j]).label)
}


/// The position at which a term with the given label keeps `out` ordered:
/// the first index whose label does not precede it.
fn lcgft_insert_pos(out: &Vec<LcgftTerm>, t_label: &Vec<char>) -> (pos: usize)
    ensures
        pos <= out@.len(),
        forall|k: int| 0 <= k < pos ==> lex_le((#[trigger] lcgft_view(out@)[k]).label, t_label@),
        pos < out@.len() ==> !lex_le(lcgft_view(out@)[pos as int].label, t_label@),
{
    let mut pos: usize = 0;
    loop
        invariant
            pos <= out@.len(),
            forall|k: int| 0 <= k < pos ==> lex_le((#[trigger] lcgft_view(out@)[k]).label, t_label@),
        decreases out@.len() - pos,
    {
        if pos >= out.len() {
            return pos;
        }
        let here = chars_of(out[pos].label.as_str());
        if lex_le_exec(&here, t_label) {
            pos += 1;
        } else {
            return pos;
        }
    }
}

/// The position at which a term with the given label keeps `out` ordered:
/// the first index whose label does not precede it.
fn lcmpt_insert_pos(out: &Vec<LcmptTerm>, t_label: &Vec<char>) -> (pos: usize)
    ensures
        pos <= out@.len(),
        forall|k: int| 0 <= k < pos ==> lex_le((#[trigger] lcmpt_view(out@)[k]).label, t_label@),
        pos < out@.len() ==> !lex_le(lcmpt_view(out@)[pos as int].label, t_label@),
{
    let mut pos: usize = 0;
    loop
        invariant
            pos <= out@.len(),
            forall|k: int| 0 <= k < pos ==> lex_le((#[trigger] lcmpt_view(out@)[k]).label, t_label@),
        decreases out@.len() - pos,
    {
        if pos >= out.len() {
            return pos;
        }
        let here = chars_of(out[pos].label.as_str());
        if lex_le_exec(&here, t_label) {
            pos += 1;
        } else {
            return pos;
        }
    }
}

impl CatalogStore {
    /// The index of the genre/form term with the given URI, if present.
    fn lcgft_index_by_uri(&self, uri: &str) -> (r: Option<usize>)
        ensures
            match r {
                Some(i) => i < self@.lcgft_terms.len() && self@.lcgft_terms[i as int].uri == uri@,
                None => forall|k: int|
                    0 <= k < self@.lcgft_terms.len() ==> (#[trigger] self@.lcgft_terms[k]).uri
                        != uri@,
            },
    {
        let mut i: usize = 0;
        while i < self.lcgft_terms.len()
            invariant
                i <= self@.lcgft_terms.len(),
                forall|k: int| 0 <= k < i ==> (#[trigger] self@.lcgft_terms[k]).uri != uri@,
            decreases self@.lcgft_terms.len() - i,
        {
            if str_eq(self.lcgft_terms[i].uri.as_str(), uri) {
                return Some(i);
            }
            i += 1;
        }
        None
    }

    /// Insert or replace a genre/form term, keyed on its URI.
    pub fn insert_lcgft_term(&mut self, term: &LcgftTerm) -> (r: Result<(), Error>)
        requires
            old(self)@.wf(),
        ensures
            final(self)@.wf(),
            r is Ok,
            ({
                ||| (exists|i: int|
                    0 <= i < old(self)@.lcgft_terms.len() && (#[trigger] old(
                        self,
                    )@.lcgft_terms[i]).uri == term@.uri && final(self)@ == (StoreVal {
                        lcgft_terms: old(self)@.lcgft_terms.update(i, term@),
                        ..old(self)@
                    }))
                ||| ((forall|i: int|
                    0 <= i < old(self)@.lcgft_terms.len() ==> (#[trigger] old(
                        self,
                    )@.lcgft_terms[i]).uri != term@.uri) && final(self)@ == (StoreVal {
                    lcgft_terms: old(self)@.lcgft_terms.push(term@),
                    ..old(self)@
                }))
            }),
    {
        let ghost old_store = self@;
        let ghost tv = term@;
        match self.lcgft_index_by_uri(term.uri.as_str()) {
            Some(i) => {
                let ghost slot = i as int;
                self.lcgft_terms.set(i, term.clone());
                proof {
                    assert(self@.lcgft_terms =~= old_store.lcgft_terms.update(slot, tv));
                    assert(self@ =~= (StoreVal {
                        lcgft_terms: old_store.lcgft_terms.update(slot, tv),
                        ..old_store
                    }));
                    assert forall|a: int, b: int|
                        0 <= a < b < self@.lcgft_terms.len() implies (
                    #[trigger] self@.lcgft_terms[a]).uri != (#[trigger] self@.lcgft_terms[b]).uri by {
                        assert(old_store.lcgft_terms[a].uri != old_store.lcgft_terms[b].uri);
                        assert(old_store.lcgft_terms[slot].uri == tv.uri);
                        if a == slot {
                            assert(self@.lcgft_terms[b] == old_store.lcgft_terms[b]);
                        } else if b == slot {
                            assert(self@.lcgft_terms[a] == old_store.lcgft_terms[a]);
                        } else {
                            assert(self@.lcgft_terms[a] == old_store.lcgft_terms[a]);
                            assert(self@.lcgft_terms[b] == old_store.lcgft_terms[b]);
                        }
                    }
                }
            },
            None => {
                self.lcgft_terms.push(term.clone());
                proof {
                    assert(self@.lcgft_terms =~= old_store.lcgft_terms.push(tv));
                    assert(self@ =~= (StoreVal {
                        lcgft_terms: old_store.lcgft_terms.push(tv),
                        ..old_store
                    }));
                    let n = old_store.lcgft_terms.len() as int;
                    assert forall|a: int, b: int|
                        0 <= a < b < self@.lcgft_terms.len() implies (
                    #[trigger] self@.lcgft_terms[a]).uri != (#[trigger] self@.lcgft_terms[b]).uri by {
                        if b < n {
                            assert(self@.lcgft_terms[a] == old_store.lcgft_terms[a]);
                            assert(self@.lcgft_terms[b] == old_store.lcgft_terms[b]);
                        } else {
                            assert(self@.lcgft_terms[b] == tv);
                            assert(self@.lcgft_terms[a] == old_store.lcgft_terms[a]);
                        }
                    }
                }
            },
        }
        Ok(())
    }

    /// Look up a genre/form term by its label, without regard to case;
    /// the first match in insertion order is returned.
    pub fn get_lcgft_by_label(&self, label: &str) -> (r: Option<LcgftTerm>)
        ensures
            match r {
                Some(t) => exists|i: int|
                    0 <= i < self@.lcgft_terms.len() && (#[trigger] self@.lcgft_terms[i]) == t@
                        && lower_seq(self@.lcgft_terms[i].label) == lower_seq(label@),
                None => forall|i: int|
                    0 <= i < self@.lcgft_terms.len() ==> lower_seq(
                        (#[trigger] self@.lcgft_terms[i]).label,
                    ) != lower_seq(label@),
            },
    {
        let target = lower_chars_of(label);
        let mut i: usize = 0;
        while i < self.lcgft_terms.len()
            invariant
                target@ == lower_seq(label@),
                i <= self@.lcgft_terms.len(),
                forall|k: int|
                    0 <= k < i ==> lower_seq((#[trigger] self@.lcgft_terms[k]).label) != lower_seq(
                        label@,
                    ),
            decreases self@.lcgft_terms.len() - i,
        {
            let candidate = lower_chars_of(self.lcgft_terms[i].label.as_str());
            if chars_eq(&candidate, &target) {
                let found = self.lcgft_terms[i].clone();
                proof {
                    assert(found@ == self@.lcgft_terms[i as int]);
                    assert(lower_seq(self@.lcgft_terms[i as int].label) == lower_seq(label@));
                }
                return Some(found);
            }
            i += 1;
        }
        None
    }

    /// The narrower (child) terms of the given URI, ordered by label.
    pub fn get_lcgft_narrower(&self, uri: &str) -> (r: Vec<LcgftTerm>)
        ensures
            lcgft_view(r@).to_multiset() == self@.lcgft_terms.filter(
                broader_pred(uri@),
            ).to_multiset(),
            sorted_by_label(lcgft_view(r@)),
    {
        broadcast use vstd::seq_lib::group_to_multiset_ensures;

        let ghost terms = self@.lcgft_terms;
        let mut out: Vec<LcgftTerm> = Vec::new();
        let mut i: usize = 0;
        proof {
            reveal(Seq::filter);
            assert(terms.subrange(0, 0).filter(broader_pred(uri@)) =~= Seq::<TermVal>::empty());
            assert(lcgft_view(out@) =~= Seq::<TermVal>::empty());
        }
        while i < self.lcgft_terms.len()
            invariant
                terms == self@.lcgft_terms,
                i <= terms.len(),
                lcgft_view(out@).to_multiset() == terms.subrange(0, i as int).filter(
                    broader_pred(uri@),
                ).to_multiset(),
                sorted_by_label(lcgft_view(out@)),
            decreases terms.len() - i,
        {
            let ghost pre = terms.subrange(0, i + 1);
            proof {
                reveal(Seq::filter);
                assert(pre.drop_last() =~= terms.subrange(0, i as int));
                assert(pre.last() == terms[i as int]);
            }
            let t = &self.lcgft_terms[i];
            let hit = match &t.broader_uri {
                Some(b) => str_eq(b.as_str(), uri),
                None => false,
            };
            if hit {
                let t_label = chars_of(t.label.as_str());
                let pos = lcgft_insert_pos(&out, &t_label);
                let ghost old_out = lcgft_view(out@);
                proof {
                    if pos < out@.len() {
                        crate::text::lemma_lex_le_total(
                            old_out[pos as int].label,
                            terms[i as int].label,
                        );
                        assert(lex_le(terms[i as int].label, old_out[pos as int].label));
                    }
                    assert forall|k: int|
                        pos <= k < old_out.len() implies lex_le(
                        terms[i as int].label,
                        (#[trigger] old_out[k]).label,
                    ) by {
                        assert(lex_le(terms[i as int].label, old_out[pos as int].label));
                        if k > pos {
                            crate::text::lemma_lex_le_trans(
                                terms[i as int].label,
                                old_out[pos as int].label,
                                old_out[k].label,
                            );
                        }
                    }
                }
                out.insert(pos, t.clone());
                proof {
                    let tv = terms[i as int];
                    assert(lcgft_view(out@) =~= old_out.insert(pos as int, tv));
                    old_out.insert_ensures(pos as int, tv);
                    assert forall|a: int, b: int|
                        0 <= a < b < lcgft_view(out@).len() implies lex_le(
                        (#[trigger] lcgft_view(out@)[a]).label,
                        (#[trigger] lcgft_view(out@)[b]).label,
                    ) by {
                        let now_ = lcgft_view(out@);
                        if a < pos && b < pos {
                            assert(now_[a] == old_out[a]);
                            assert(now_[b] == old_out[b]);
                        } else if a < pos && b == pos {
                            assert(now_[a] == old_out[a]);
                            assert(now_[b] == tv);
                        } else if a < pos {
                            assert(now_[a] == old_out[a]);
                            assert(now_[b] == old_out[b - 1]);
                        } else if a == pos {
                            assert(now_[a] == tv);
                            assert(now_[b] == old_out[b - 1]);
                        } else {
                            assert(now_[a] == old_out[a - 1]);
                            assert(now_[b] == old_out[b - 1]);
                        }
                    }
                    assert(old_out.insert(pos as int, tv).to_multiset() =~= old_out.to_multiset().insert(
                        tv,
                    )) by {
                        let left = old_out.subrange(0, pos as int);
                        let right = old_out.subrange(pos as int, old_out.len() as int);
                        vstd::seq_lib::lemma_multiset_commutative(left.push(tv), right);
                        vstd::seq_lib::lemma_multiset_commutative(left, right);
                        assert(old_out =~= left + right);
                        left.to_multiset_ensures();
                        assert(left.push(tv).to_multiset() =~= left.to_multiset().insert(tv));
                    }
                    assert(pre.filter(broader_pred(uri@)) =~= terms.subrange(0, i as int).filter(
                        broader_pred(uri@),
                    ).push(tv));
                    let fx = terms.subrange(0, i as int).filter(broader_pred(uri@));
                    fx.to_multiset_ensures();
                    assert(fx.push(tv).to_multiset() =~= fx.to_multiset().insert(tv));
                    assert(lcgft_view(out@).to_multiset() =~= pre.filter(
                        broader_pred(uri@),
                    ).to_multiset());
                }
            } else {
                proof {
                    reveal(Seq::filter);
                    assert(pre.filter(broader_pred(uri@)) =~= terms.subrange(0, i as int).filter(
                        broader_pred(uri@),
                    ));
                }
            }
            i += 1;
        }
        proof {
            assert(terms.subrange(0, terms.len() as int) =~= terms);
        }
        out
    }

    /// The number of genre/form terms loaded.
    pub fn count_lcgft_terms(&self) -> (r: usize)
        ensures
            r == self@.lcgft_terms.len(),
    {
        self.lcgft_terms.len()
    }

    /// The index of the medium-of-performance term with the given URI, if
    /// present.
    fn lcmpt_index_by_uri(&self, uri: &str) -> (r: Option<usize>)
        ensures
            match r {
                Some(i) => i < self@.lcmpt_terms.len() && self@.lcmpt_terms[i as int].uri == uri@,
                None => forall|k: int|
                    0 <= k < self@.lcmpt_terms.len() ==> (#[trigger] self@.lcmpt_terms[k]).uri
                        != uri@,
            },
    {
        let mut i: usize = 0;
        while i < self.lcmpt_terms.len()
            invariant
                i <= self@.lcmpt_terms.len(),
                forall|k: int| 0 <= k < i ==> (#[trigger] self@.lcmpt_terms[k]).uri != uri@,
            decreases self@.lcmpt_terms.len() - i,
        {
            if str_eq(self.lcmpt_terms[i].uri.as_str(), uri) {
                return Some(i);
            }
            i += 1;
        }
        None
    }

    /// Insert or replace a medium-of-performance term, keyed on its URI.
    pub fn insert_lcmpt_term(&mut self, term: &LcmptTerm) -> (r: Result<(), Error>)
        requires
            old(self)@.wf(),
        ensures
            final(self)@.wf(),
            r is Ok,
            ({
                ||| (exists|i: int|
                    0 <= i < old(self)@.lcmpt_terms.len() && (#[trigger] old(
                        self,
                    )@.lcmpt_terms[i]).uri == term@.uri && final(self)@ == (StoreVal {
                        lcmpt_terms: old(self)@.lcmpt_terms.update(i, term@),
                        ..old(self)@
                    }))
                ||| ((forall|i: int|
                    0 <= i < old(self)@.lcmpt_terms.len() ==> (#[trigger] old(
                        self,
                    )@.lcmpt_terms[i]).uri != term@.uri) && final(self)@ == (StoreVal {
                    lcmpt_terms: old(self)@.lcmpt_terms.push(term@),
                    ..old(self)@
                }))
            }),
    {
        let ghost old_store = self@;
        let ghost tv = term@;
        match self.lcmpt_index_by_uri(term.uri.as_str()) {
            Some(i) => {
                let ghost slot = i as int;
                self.lcmpt_terms.set(i, term.clone());
                proof {
                    assert(self@.lcmpt_terms =~= old_store.lcmpt_terms.update(slot, tv));
                    assert(self@ =~= (StoreVal {
                        lcmpt_terms: old_store.lcmpt_terms.update(slot, tv),
                        ..old_store
                    }));
                    assert forall|a: int, b: int|
                        0 <= a < b < self@.lcmpt_terms.len() implies (
                    #[trigger] self@.lcmpt_terms[a]).uri != (#[trigger] self@.lcmpt_terms[b]).uri by {
                        assert(old_store.lcmpt_terms[a].uri != old_store.lcmpt_terms[b].uri);
                        assert(old_store.lcmpt_terms[slot].uri == tv.uri);
                        if a == slot {
                            assert(self@.lcmpt_terms[b] == old_store.lcmpt_terms[b]);
                        } else if b == slot {
                            assert(self@.lcmpt_terms[a] == old_store.lcmpt_terms[a]);
                        } else {
                            assert(self@.lcmpt_terms[a] == old_store.lcmpt_terms[a]);
                            assert(self@.lcmpt_terms[b] == old_store.lcmpt_terms[b]);
                        }
                    }
                }
            },
            None => {
                self.lcmpt_terms.push(term.clone());
                proof {
                    assert(self@.lcmpt_terms =~= old_store.lcmpt_terms.push(tv));
                    assert(self@ =~= (StoreVal {
                        lcmpt_terms: old_store.lcmpt_terms.push(tv),
                        ..old_store
                    }));
                    let n = old_store.lcmpt_terms.len() as int;
                    assert forall|a: int, b: int|
                        0 <= a < b < self@.lcmpt_terms.len() implies (
                    #[trigger] self@.lcmpt_terms[a]).uri != (#[trigger] self@.lcmpt_terms[b]).uri by {
                        if b < n {
                            assert(self@.lcmpt_terms[a] == old_store.lcmpt_terms[a]);
                            assert(self@.lcmpt_terms[b] == old_store.lcmpt_terms[b]);
                        } else {
                            assert(self@.lcmpt_terms[b] == tv);
                            assert(self@.lcmpt_terms[a] == old_store.lcmpt_terms[a]);
                        }
                    }
                }
            },
        }
        Ok(())
    }

    /// Look up a medium-of-performance term by its label, without regard
    /// to case; the first match in insertion order is returned.
    pub fn get_lcmpt_by_label(&self, label: &str) -> (r: Option<LcmptTerm>)
        ensures
            match r {
                Some(t) => exists|i: int|
                    0 <= i < self@.lcmpt_terms.len() && (#[trigger] self@.lcmpt_terms[i]) == t@
                        && lower_seq(self@.lcmpt_terms[i].label) == lower_seq(label@),
                None => forall|i: int|
                    0 <= i < self@.lcmpt_terms.len() ==> lower_seq(
                        (#[trigger] self@.lcmpt_terms[i]).label,
                    ) != lower_seq(label@),
            },
    {
        let target = lower_chars_of(label);
        let mut i: usize = 0;
        while i < self.lcmpt_terms.len()
            invariant
                target@ == lower_seq(label@),
                i <= self@.lcmpt_terms.len(),
                forall|k: int|
                    0 <= k < i ==> lower_seq((#[trigger] self@.lcmpt_terms[k]).label) != lower_seq(
                        label@,
                    ),
            decreases self@.lcmpt_terms.len() - i,
        {
            let candidate = lower_chars_of(self.lcmpt_terms[i].label.as_str());
            if chars_eq(&candidate, &target) {
                let found = self.lcmpt_terms[i].clone();
                proof {
                    assert(found@ == self@.lcmpt_terms[i as int]);
                    assert(lower_seq(self@.lcmpt_terms[i as int].label) == lower_seq(label@));
                }
                return Some(found);
            }
            i += 1;
        }
        None
    }

    /// The narrower (child) terms of the given URI, ordered by label.
    pub fn get_lcmpt_narrower(&self, uri: &str) -> (r: Vec<LcmptTerm>)
        ensures
            lcmpt_view(r@).to_multiset() == self@.lcmpt_terms.filter(
                broader_pred(uri@),
            ).to_multiset(),
            sorted_by_label(lcmpt_view(r@)),
    {
        broadcast use vstd::seq_lib::group_to_multiset_ensures;

        let ghost terms = self@.lcmpt_terms;
        let mut out: Vec<LcmptTerm> = Vec::new();
        let mut i: usize = 0;
        proof {
            reveal(Seq::filter);
            assert(terms.subrange(0, 0).filter(broader_pred(uri@)) =~= Seq::<TermVal>::empty());
            assert(lcmpt_view(out@) =~= Seq::<TermVal>::empty());
        }
        while i < self.lcmpt_terms.len()
            invariant
                terms == self@.lcmpt_terms,
                i <= terms.len(),
                lcmpt_view(out@).to_multiset() == terms.subrange(0, i as int).filter(
                    broader_pred(uri@),
                ).to_multiset(),
                sorted_by_label(lcmpt_view(out@)),
            decreases terms.len() - i,
        {
            let ghost pre = terms.subrange(0, i + 1);
            proof {
                reveal(Seq::filter);
                assert(pre.drop_last() =~= terms.subrange(0, i as int));
                assert(pre.last() == terms[i as int]);
            }
            let t = &self.lcmpt_terms[i];
            let hit = match &t.broader_uri {
                Some(b) => str_eq(b.as_str(), uri),
                None => false,
            };
            if hit {
                let t_label = chars_of(t.label.as_str());
                let pos = lcmpt_insert_pos(&out, &t_label);
                let ghost old_out = lcmpt_view(out@);
                proof {
                    if pos < out@.len() {
                        crate::text::lemma_lex_le_total(
                            old_out[pos as int].label,
                            terms[i as int].label,
                        );
                        assert(lex_le(terms[i as int].label, old_out[pos as int].label));
                    }
                    assert forall|k: int|
                        pos <= k < old_out.len() implies lex_le(
                        terms[i as int].label,
                        (#[trigger] old_out[k]).label,
                    ) by {
                        assert(lex_le(terms[i as int].label, old_out[pos as int].label));
                        if k > pos {
                            crate::text::lemma_lex_le_trans(
                                terms[i as int].label,
                                old_out[pos as int].label,
                                old_out[k].label,
                            );
                        }
                    }
                }
                out.insert(pos, t.clone());
                proof {
                    let tv = terms[i as int];
                    assert(lcmpt_view(out@) =~= old_out.insert(pos as int, tv));
                    old_out.insert_ensures(pos as int, tv);
                    assert forall|a: int, b: int|
                        0 <= a < b < lcmpt_view(out@).len() implies lex_le(
                        (#[trigger] lcmpt_view(out@)[a]).label,
                        (#[trigger] lcmpt_view(out@)[b]).label,
                    ) by {
                        let now_ = lcmpt_view(out@);
                        if a < pos && b < pos {
                            assert(now_[a] == old_out[a]);
                            assert(now_[b] == old_out[b]);
                        } else if a < pos && b == pos {
                            assert(now_[a] == old_out[a]);
                            assert(now_[b] == tv);
                        } else if a < pos {
                            assert(now_[a] == old_out[a]);
                            assert(now_[b] == old_out[b - 1]);
                        } else if a == pos {
                            assert(now_[a] == tv);
                            assert(now_[b] == old_out[b - 1]);
                        } else {
                            assert(now_[a] == old_out[a - 1]);
                            assert(now_[b] == old_out[b - 1]);
                        }
                    }
                    assert(old_out.insert(pos as int, tv).to_multiset() =~= old_out.to_multiset().insert(
                        tv,
                    )) by {
                        let left = old_out.subrange(0, pos as int);
                        let right = old_out.subrange(pos as int, old_out.len() as int);
                        vstd::seq_lib::lemma_multiset_commutative(left.push(tv), right);
                        vstd::seq_lib::lemma_multiset_commutative(left, right);
                        assert(old_out =~= left + right);
                        left.to_multiset_ensures();
                        assert(left.push(tv).to_multiset() =~= left.to_multiset().insert(tv));
                    }
                    assert(pre.filter(broader_pred(uri@)) =~= terms.subrange(0, i as int).filter(
                        broader_pred(uri@),
                    ).push(tv));
                    let fx = terms.subrange(0, i as int).filter(broader_pred(uri@));
                    fx.to_multiset_ensures();
                    assert(fx.push(tv).to_multiset() =~= fx.to_multiset().insert(tv));
                    assert(lcmpt_view(out@).to_multiset() =~= pre.filter(
                        broader_pred(uri@),
                    ).to_multiset());
                }
            } else {
                proof {
                    reveal(Seq::filter);
                    assert(pre.filter(broader_pred(uri@)) =~= terms.subrange(0, i as int).filter(
                        broader_pred(uri@),
                    ));
                }
            }
            i += 1;
        }
        proof {
            assert(terms.subrange(0, terms.len() as int) =~= terms);
        }
        out
    }

    /// The number of medium-of-performance terms loaded.
    pub fn count_lcmpt_terms(&self) -> (r: usize)
        ensures
            r == self@.lcmpt_terms.len(),
    {
        self.lcmpt_terms.len()
    }
}

// ---------------------------------------------------------------------
// Laws of the store
// ---------------------------------------------------------------------

/// Item identification consistency: in a well-formed store, every item
/// with an expression reference points at an existing expression, and
/// that expression's work reference points at an existing work.
pub proof fn lemma_identified_item_consistency(s: StoreVal)
    requires
        s.wf(),
    ensures
        forall|i: int|
            0 <= i < s.items.len() && (#[trigger] s.items[i]).expression_id is Some ==> exists|j: int|
                0 <= j < s.expressions.len() && (#[trigger] s.expressions[j]).id
                    == s.items[i].expression_id->0 && has_work(s.works, s.expressions[j].work_id),
{
    assert forall|i: int|
        0 <= i < s.items.len() && (#[trigger] s.items[i]).expression_id is Some implies exists|j: int|
            0 <= j < s.expressions.len() && (#[trigger] s.expressions[j]).id
                == s.items[i].expression_id->0 && has_work(s.works, s.expressions[j].work_id) by {
        let eid = s.items[i].expression_id->0;
        assert(has_expression(s.expressions, eid));
        let j = choose|j: int|
            0 <= j < s.expressions.len() && (#[trigger] s.expressions[j]).id == eid;
        assert(expression_refs_ok(s.expressions[j], s.works, s.artists));
    }
}

/// External-id uniqueness: in a well-formed store, no two entities of one
/// kind share an external identifier.
pub proof fn lemma_external_id_uniqueness(s: StoreVal)
    requires
        s.wf(),
    ensures
        forall|i: int, j: int|
            0 <= i < j < s.works.len() && (#[trigger] s.works[i]).musicbrainz_id is Some ==> (
            #[trigger] s.works[j]).musicbrainz_id != s.works[i].musicbrainz_id,
        forall|i: int, j: int|
            0 <= i < j < s.expressions.len() && (
            #[trigger] s.expressions[i]).musicbrainz_id is Some ==> (
            #[trigger] s.expressions[j]).musicbrainz_id != s.expressions[i].musicbrainz_id,
        forall|i: int, j: int|
            0 <= i < j < s.manifestations.len() && (
            #[trigger] s.manifestations[i]).musicbrainz_id is Some ==> (
            #[trigger] s.manifestations[j]).musicbrainz_id != s.manifestations[i].musicbrainz_id,
        forall|i: int, j: int|
            0 <= i < j < s.artists.len() && (#[trigger] s.artists[i]).musicbrainz_id is Some ==> (
            #[trigger] s.artists[j]).musicbrainz_id != s.artists[i].musicbrainz_id,
{
}

/// Assertion monotonicity: in a well-formed store, assertion timestamps
/// never decrease in insertion order.
pub proof fn lemma_assertion_monotonicity(s: StoreVal)
    requires
        s.wf(),
    ensures
        forall|i: int, j: int|
            0 <= i <= j < s.assertions.len() ==> (#[trigger] s.assertions[i]).fetched_at <= (
            #[trigger] s.assertions[j]).fetched_at,
{
}

/// Upsert followed by get: in a sequence of works with unique external
/// identifiers that holds `w`, any lookup result carrying `w`'s external
/// id is `w` itself — so upserting a work and reading it back by its
/// external id returns the same work, update time included, since the
/// store does not restamp entities.
pub proof fn lemma_upsert_then_get(ws: Seq<WorkVal>, w: WorkVal, got: WorkVal)
    requires
        forall|i: int, j: int|
            0 <= i < j < ws.len() && (#[trigger] ws[i]).musicbrainz_id is Some ==> (
            #[trigger] ws[j]).musicbrainz_id != ws[i].musicbrainz_id,
        exists|p: int| 0 <= p < ws.len() && (#[trigger] ws[p]) == w,
        w.musicbrainz_id is Some,
        exists|i: int|
            0 <= i < ws.len() && (#[trigger] ws[i]) == got && got.musicbrainz_id
                == w.musicbrainz_id,
    ensures
        got == w,
{
    let p = choose|p: int| 0 <= p < ws.len() && (#[trigger] ws[p]) == w;
    let i = choose|i: int|
        0 <= i < ws.len() && (#[trigger] ws[i]) == got && got.musicbrainz_id == w.musicbrainz_id;
    if p < i {
        assert(ws[i].musicbrainz_id != ws[p].musicbrainz_id);
    } else if i < p {
        assert(ws[p].musicbrainz_id != ws[i].musicbrainz_id);
    }
}

/// Insert followed by list: appending an assertion fetched no earlier
/// than every stored one keeps it verbatim, and the newest-first listing
/// for its entity then starts with it.
pub proof fn lemma_insert_then_list(stored: Seq<AssertionVal>, a: AssertionVal)
    requires
        stored.len() == 0 || stored.last().fetched_at <= a.fetched_at,
    ensures
        stamped_assertion(stored, a) == a,
        newest_first(stored.push(a), a.entity_id).len() > 0,
        newest_first(stored.push(a), a.entity_id)[0] == a,
{
    let s2 = stored.push(a);
    assert(s2.last() == a);
    assert(s2.drop_last() =~= stored);
    assert(newest_first(s2, a.entity_id) == seq![a] + newest_first(stored, a.entity_id));
}

} // verus!
