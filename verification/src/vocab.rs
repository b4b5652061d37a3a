//! Loading controlled-vocabulary snapshots into the catalog.
//!
//! A snapshot is an array of terms (uri, label, optional broader term,
//! optional scope note); the surrounding program parses the file and
//! hands the terms over. Loading upserts each term, keyed by URI, in two
//! passes: first every rootless term, then every term with a broader
//! reference, so that parents precede children.

use vstd::prelude::*;

use crate::error::Error;
use crate::model::opt_view;
use crate::store::{CatalogStore, StoreVal};
use crate::taxonomy::{LcgftTerm, LcmptTerm, TermVal};

verus! {

/// A vocabulary term as a snapshot holds it.
#[derive(Debug, PartialEq)]
pub struct SnapshotTerm {
    /// The canonical URI.
    pub uri: String,
    /// The preferred label.
    pub label: String,
    /// URI of the broader (parent) term, if any.
    pub broader_uri: Option<String>,
    /// Scope note explaining usage of this term.
    pub scope_note: Option<String>,
}

impl View for SnapshotTerm {
    type V = TermVal;

    open spec fn view(&self) -> TermVal {
        TermVal {
            uri: self.uri@,
            label: self.label@,
            broader_uri: opt_view(self.broader_uri),
            scope_note: opt_view(self.scope_note),
        }
    }
}

/// The views of a sequence of snapshot terms.
pub open spec fn snapshot_view(v: Seq<SnapshotTerm>) -> Seq<TermVal> {
    Seq::new(v.len(), |i: int| v[i]@)
}

/// The index of the first stored term with the URI.
pub open spec fn first_uri_index(ts: Seq<TermVal>, uri: Seq<char>) -> Option<int>
    decreases ts.len(),
{
    if ts.len() == 0 {
        None
    } else if ts[0].uri == uri {
        Some(0)
    } else {
        match first_uri_index(ts.drop_first(), uri) {
            Some(i) => Some(i + 1),
            None => None,
        }
    }
}

/// Upsert one term, keyed by URI: replace the first holder of the URI,
/// or append.
pub open spec fn upsert_term(ts: Seq<TermVal>, t: TermVal) -> Seq<TermVal> {
    match first_uri_index(ts, t.uri) {
        Some(i) => ts.update(i, t),
        None => ts.push(t),
    }
}

/// Upsert a sequence of terms, in order.
pub open spec fn apply_terms(ts: Seq<TermVal>, snap: Seq<TermVal>) -> Seq<TermVal>
    decreases snap.len(),
{
    if snap.len() == 0 {
        ts
    } else {
        apply_terms(upsert_term(ts, snap[0]), snap.drop_first())
    }
}

/// Selects rootless terms (no broader reference).
pub open spec fn rootless_pred() -> spec_fn(TermVal) -> bool {
    |t: TermVal| t.broader_uri is None
}

/// Selects terms with a broader reference.
pub open spec fn child_pred() -> spec_fn(TermVal) -> bool {
    |t: TermVal| t.broader_uri is Some
}

/// What loading a snapshot leaves in a term table: the rootless terms
/// upserted first, then the terms with broader references.
pub open spec fn spec_load(ts: Seq<TermVal>, snap: Seq<TermVal>) -> Seq<TermVal> {
    apply_terms(apply_terms(ts, snap.filter(rootless_pred())), snap.filter(child_pred()))
}

/// The last term in the snapshot carrying the URI, if any.
pub open spec fn last_with_uri(snap: Seq<TermVal>, uri: Seq<char>) -> Option<TermVal>
    decreases snap.len(),
{
    if snap.len() == 0 {
        None
    } else {
        match last_with_uri(snap.drop_first(), uri) {
            Some(t) => Some(t),
            None => if snap[0].uri == uri {
                Some(snap[0])
            } else {
                None
            },
        }
    }
}

/// Whether some stored term carries the URI.
pub open spec fn uri_present(ts: Seq<TermVal>, uri: Seq<char>) -> bool {
    exists|i: int| 0 <= i < ts.len() && (#[trigger] ts[i]).uri == uri
}

/// Every stored URI is unique.
pub open spec fn uris_unique(ts: Seq<TermVal>) -> bool {
    forall|i: int, j: int| 0 <= i < j < ts.len() ==> (#[trigger] ts[i]).uri != (#[trigger] ts[j]).uri
}

proof fn lemma_first_uri_index_some(ts: Seq<TermVal>, uri: Seq<char>)
    ensures
        match first_uri_index(ts, uri) {
            Some(i) => 0 <= i < ts.len() && ts[i].uri == uri && (forall|k: int|
                0 <= k < i ==> (#[trigger] ts[k]).uri != uri),
            None => !uri_present(ts, uri),
        },
    decreases ts.len(),
{
    if ts.len() > 0 && ts[0].uri != uri {
        lemma_first_uri_index_some(ts.drop_first(), uri);
        let rest = ts.drop_first();
        match first_uri_index(rest, uri) {
            Some(i) => {
                assert(rest[i] == ts[i + 1]);
                assert forall|k: int| 0 <= k < i + 1 implies (#[trigger] ts[k]).uri != uri by {
                    if k > 0 {
                        assert(rest[k - 1] == ts[k]);
                    }
                }
            },
            None => {
                if uri_present(ts, uri) {
                    let w = choose|i: int| 0 <= i < ts.len() && (#[trigger] ts[i]).uri == uri;
                    assert(w > 0);
                    assert(rest[w - 1] == ts[w]);
                    assert(uri_present(rest, uri));
                }
            },
        }
    }
}

/// Upserting keeps URIs unique, keeps existing positions' URIs, and
/// makes the term's URI present.
proof fn lemma_upsert_term(ts: Seq<TermVal>, t: TermVal)
    requires
        uris_unique(ts),
    ensures
        uris_unique(upsert_term(ts, t)),
        upsert_term(ts, t).len() >= ts.len(),
        forall|i: int|
            0 <= i < ts.len() ==> (#[trigger] upsert_term(ts, t)[i]).uri == ts[i].uri,
        uri_present(upsert_term(ts, t), t.uri),
        uri_present(ts, t.uri) ==> upsert_term(ts, t).len() == ts.len(),
        forall|u: Seq<char>|
            #![trigger uri_present(upsert_term(ts, t), u)]
            uri_present(upsert_term(ts, t), u) <==> (uri_present(ts, u) || u == t.uri),
{
    lemma_first_uri_index_some(ts, t.uri);
    let r = upsert_term(ts, t);
    match first_uri_index(ts, t.uri) {
        Some(i) => {
            assert(r =~= ts.update(i, t));
            assert(r[i].uri == t.uri && ts[i].uri == t.uri);
            assert forall|a: int, b: int|
                0 <= a < b < r.len() implies (#[trigger] r[a]).uri != (#[trigger] r[b]).uri by {
                if a != i && b != i {
                    assert(r[a] == ts[a] && r[b] == ts[b]);
                } else if a == i {
                    assert(r[b] == ts[b]);
                    assert(ts[b].uri != ts[i].uri);
                } else {
                    assert(r[a] == ts[a]);
                    assert(ts[a].uri != ts[i].uri);
                }
            }
            assert forall|u: Seq<char>|
                #![trigger uri_present(r, u)]
                uri_present(r, u) <==> (uri_present(ts, u) || u == t.uri) by {
                if uri_present(r, u) {
                    let w = choose|k: int| 0 <= k < r.len() && (#[trigger] r[k]).uri == u;
                    if w == i {
                        assert(u == t.uri);
                    } else {
                        assert(r[w] == ts[w]);
                        assert(uri_present(ts, u));
                    }
                }
                if uri_present(ts, u) {
                    let w = choose|k: int| 0 <= k < ts.len() && (#[trigger] ts[k]).uri == u;
                    if w == i {
                        assert(u == t.uri);
                        assert(r[i].uri == u);
                    } else {
                        assert(r[w] == ts[w]);
                    }
                    assert(uri_present(r, u));
                }
                if u == t.uri {
                    assert(r[i].uri == u);
                    assert(uri_present(r, u));
                }
            }
        },
        None => {
            assert(r =~= ts.push(t));
            assert(r[ts.len() as int] == t);
            assert forall|a: int, b: int|
                0 <= a < b < r.len() implies (#[trigger] r[a]).uri != (#[trigger] r[b]).uri by {
                if b < ts.len() {
                    assert(r[a] == ts[a] && r[b] == ts[b]);
                } else {
                    assert(r[a] == ts[a]);
                    assert(!uri_present(ts, t.uri));
                    if ts[a].uri == t.uri {
                        assert(uri_present(ts, t.uri));
                    }
                }
            }
            assert forall|u: Seq<char>|
                #![trigger uri_present(r, u)]
                uri_present(r, u) <==> (uri_present(ts, u) || u == t.uri) by {
                if uri_present(r, u) {
                    let w = choose|k: int| 0 <= k < r.len() && (#[trigger] r[k]).uri == u;
                    if w < ts.len() {
                        assert(r[w] == ts[w]);
                        assert(uri_present(ts, u));
                    } else {
                        assert(u == t.uri);
                    }
                }
                if uri_present(ts, u) {
                    let w = choose|k: int| 0 <= k < ts.len() && (#[trigger] ts[k]).uri == u;
                    assert(r[w] == ts[w]);
                    assert(uri_present(r, u));
                }
                if u == t.uri {
                    assert(uri_present(r, u));
                }
            }
        },
    }
}

/// Applying a snapshot keeps URIs unique, keeps existing positions'
/// URIs, makes every snapshot URI present, and — when every snapshot
/// URI is already present — adds nothing.
proof fn lemma_apply_terms(ts: Seq<TermVal>, snap: Seq<TermVal>)
    requires
        uris_unique(ts),
    ensures
        uris_unique(apply_terms(ts, snap)),
        apply_terms(ts, snap).len() >= ts.len(),
        forall|i: int|
            0 <= i < ts.len() ==> (#[trigger] apply_terms(ts, snap)[i]).uri == ts[i].uri,
        forall|k: int|
            0 <= k < snap.len() ==> uri_present(apply_terms(ts, snap), (#[trigger] snap[k]).uri),
        (forall|k: int| 0 <= k < snap.len() ==> uri_present(ts, (#[trigger] snap[k]).uri))
            ==> apply_terms(ts, snap).len() == ts.len(),
        forall|u: Seq<char>|
            #![trigger uri_present(apply_terms(ts, snap), u)]
            uri_present(apply_terms(ts, snap), u) <==> (uri_present(ts, u) || exists|k: int|
                0 <= k < snap.len() && (#[trigger] snap[k]).uri == u),
    decreases snap.len(),
{
    if snap.len() > 0 {
        lemma_upsert_term(ts, snap[0]);
        let mid = upsert_term(ts, snap[0]);
        lemma_apply_terms(mid, snap.drop_first());
        let r = apply_terms(ts, snap);
        assert(r == apply_terms(mid, snap.drop_first()));
        assert forall|k: int|
            0 <= k < snap.len() implies uri_present(r, (#[trigger] snap[k]).uri) by {
            if k == 0 {
                assert(uri_present(mid, snap[0].uri));
            } else {
                assert(snap.drop_first()[k - 1] == snap[k]);
            }
        }
        if forall|k: int| 0 <= k < snap.len() ==> uri_present(ts, (#[trigger] snap[k]).uri) {
            assert(uri_present(ts, snap[0].uri));
            assert(mid.len() == ts.len());
            assert forall|k: int|
                0 <= k < snap.drop_first().len() implies uri_present(
                mid,
                (#[trigger] snap.drop_first()[k]).uri,
            ) by {
                assert(snap.drop_first()[k] == snap[k + 1]);
                assert(uri_present(ts, snap[k + 1].uri));
            }
        }
        assert forall|u: Seq<char>|
            #![trigger uri_present(r, u)]
            uri_present(r, u) <==> (uri_present(ts, u) || exists|k: int|
                0 <= k < snap.len() && (#[trigger] snap[k]).uri == u) by {
            if uri_present(r, u) {
                if !uri_present(ts, u) {
                    if uri_present(mid, u) {
                        assert(u == snap[0].uri);
                    } else {
                        let k = choose|k: int|
                            0 <= k < snap.drop_first().len() && (
                            #[trigger] snap.drop_first()[k]).uri == u;
                        assert(snap.drop_first()[k] == snap[k + 1]);
                    }
                }
            }
            if uri_present(ts, u) {
                assert(uri_present(mid, u));
                assert(uri_present(r, u));
            }
            if exists|k: int| 0 <= k < snap.len() && (#[trigger] snap[k]).uri == u {
                let k = choose|k: int| 0 <= k < snap.len() && (#[trigger] snap[k]).uri == u;
                if k == 0 {
                    assert(uri_present(mid, u));
                    assert(uri_present(r, u));
                } else {
                    assert(snap.drop_first()[k - 1] == snap[k]);
                    assert(uri_present(r, u));
                }
            }
        }
    }
}

/// Last write wins: after applying a snapshot over a uniquely-keyed
/// table, every position holds the snapshot's last term for its URI, or
/// its prior value when the snapshot never touches that URI.
proof fn lemma_apply_terms_values(ts: Seq<TermVal>, snap: Seq<TermVal>)
    requires
        uris_unique(ts),
    ensures
        forall|i: int|
            #![trigger apply_terms(ts, snap)[i]]
            0 <= i < apply_terms(ts, snap).len() ==> (match last_with_uri(
                snap,
                apply_terms(ts, snap)[i].uri,
            ) {
                Some(t) => apply_terms(ts, snap)[i] == t,
                None => i < ts.len() && apply_terms(ts, snap)[i] == ts[i],
            }),
    decreases snap.len(),
{
    lemma_apply_terms(ts, snap);
    if snap.len() > 0 {
        lemma_upsert_term(ts, snap[0]);
        lemma_first_uri_index_some(ts, snap[0].uri);
        let mid = upsert_term(ts, snap[0]);
        lemma_apply_terms_values(mid, snap.drop_first());
        lemma_apply_terms(mid, snap.drop_first());
        let r = apply_terms(ts, snap);
        assert forall|i: int|
            #![trigger r[i]]
            0 <= i < r.len() implies (match last_with_uri(snap, r[i].uri) {
            Some(t) => r[i] == t,
            None => i < ts.len() && r[i] == ts[i],
        }) by {
            let u = r[i].uri;
            match last_with_uri(snap.drop_first(), u) {
                Some(t) => {
                    assert(r[i] == t);
                    assert(last_with_uri(snap, u) == Some(t));
                },
                None => {
                    assert(i < mid.len() && r[i] == mid[i]);
                    match first_uri_index(ts, snap[0].uri) {
                        Some(j) => {
                            assert(mid =~= ts.update(j, snap[0]));
                            if i == j {
                                assert(mid[i] == snap[0]);
                                assert(u == snap[0].uri);
                                assert(last_with_uri(snap, u) == Some(snap[0]));
                            } else {
                                assert(mid[i] == ts[i]);
                                if u == snap[0].uri {
                                    assert(ts[i].uri == u && ts[j].uri == u);
                                    assert(false);
                                }
                                assert(last_with_uri(snap, u) is None);
                            }
                        },
                        None => {
                            assert(mid =~= ts.push(snap[0]));
                            if i < ts.len() {
                                assert(mid[i] == ts[i]);
                                if u == snap[0].uri {
                                    assert(uri_present(ts, snap[0].uri));
                                    assert(false);
                                }
                                assert(last_with_uri(snap, u) is None);
                            } else {
                                assert(mid[i] == snap[0]);
                                assert(u == snap[0].uri);
                                assert(last_with_uri(snap, u) == Some(snap[0]));
                            }
                        },
                    }
                },
            }
        }
    }
}

/// Vocabulary loading is idempotent: applying a snapshot to a
/// uniquely-keyed table a second time changes nothing — the count and
/// every stored term, parent references included, stay as the first
/// load left them.
pub proof fn lemma_vocab_load_idempotent(ts: Seq<TermVal>, snap: Seq<TermVal>)
    requires
        uris_unique(ts),
    ensures
        apply_terms(apply_terms(ts, snap), snap) == apply_terms(ts, snap),
{
    lemma_apply_terms(ts, snap);
    let once = apply_terms(ts, snap);
    lemma_apply_terms(once, snap);
    let twice = apply_terms(once, snap);
    lemma_apply_terms_values(ts, snap);
    lemma_apply_terms_values(once, snap);
    assert forall|k: int| 0 <= k < snap.len() implies uri_present(
        once,
        (#[trigger] snap[k]).uri,
    ) by {}
    assert(twice.len() == once.len());
    assert forall|i: int| 0 <= i < twice.len() implies #[trigger] twice[i] == once[i] by {
        assert(twice[i].uri == once[i].uri);
        match last_with_uri(snap, once[i].uri) {
            Some(t) => {
                assert(once[i] == t);
                assert(twice[i] == t);
            },
            None => {
                assert(twice[i] == once[i]);
            },
        }
    }
    assert(twice =~= once);
}

/// Load a genre/form snapshot: rootless terms first, then terms with a
/// broader reference, each upserted by URI. Returns how many terms the
/// snapshot held.
pub fn load_lcgft(store: &mut CatalogStore, terms: &Vec<SnapshotTerm>) -> (r: Result<usize, Error>)
    requires
        old(store)@.wf(),
    ensures
        final(store)@.wf(),
        r matches Ok(n) ==> n == terms@.len(),
        final(store)@ == (StoreVal {
            lcgft_terms: spec_load(old(store)@.lcgft_terms, snapshot_view(terms@)),
            ..old(store)@
        }),
        r is Ok,
{
    broadcast use vstd::seq_lib::group_filter_ensures;

    let ghost snap = snapshot_view(terms@);
    let ghost pass1 = snap.filter(rootless_pred());
    let ghost pass2 = snap.filter(child_pred());
    let count = terms.len();
    let ghost mid_target = apply_terms(old(store)@.lcgft_terms, pass1);
    let mut i: usize = 0;
    proof {
        reveal(Seq::filter);
        assert(snap.subrange(0, 0).filter(rootless_pred()) =~= Seq::<TermVal>::empty());
        assert(store@ =~= (StoreVal {
            lcgft_terms: apply_terms(
                old(store)@.lcgft_terms,
                snap.subrange(0, 0).filter(rootless_pred()),
            ),
            ..old(store)@
        }));
    }
    while i < terms.len()
        invariant
            snap == snapshot_view(terms@),
            i <= snap.len(),
            store@.wf(),
            store@ == (StoreVal {
                lcgft_terms: apply_terms(
                    old(store)@.lcgft_terms,
                    snap.subrange(0, i as int).filter(rootless_pred()),
                ),
                ..old(store)@
            }),
        decreases snap.len() - i,
    {
        let ghost pre = snap.subrange(0, i + 1);
        proof {
            reveal(Seq::filter);
            assert(pre.drop_last() =~= snap.subrange(0, i as int));
            assert(pre.last() == snap[i as int]);
        }
        let t = &terms[i];
        if t.broader_uri.is_none() {
            let mut term = LcgftTerm::new(t.uri.as_str(), t.label.as_str());
            match &t.scope_note {
                Some(n) => {
                    term = term.with_scope_note(n.as_str());
                },
                None => {},
            }
            let ghost before = store@.lcgft_terms;
            let res = store.insert_lcgft_term(&term);
            proof {
                assert(term@ =~= snap[i as int]);
                lemma_insert_matches_upsert_lcgft(before, term@, store@.lcgft_terms);
                lemma_apply_push(
                    old(store)@.lcgft_terms,
                    snap.subrange(0, i as int).filter(rootless_pred()),
                    snap[i as int],
                );
                assert(pre.filter(rootless_pred()) =~= snap.subrange(0, i as int).filter(
                    rootless_pred(),
                ).push(snap[i as int]));
            }
        } else {
            proof {
                reveal(Seq::filter);
                assert(pre.filter(rootless_pred()) =~= snap.subrange(0, i as int).filter(
                    rootless_pred(),
                ));
            }
        }
        i += 1;
    }
    proof {
        assert(snap.subrange(0, snap.len() as int) =~= snap);
        assert(store@.lcgft_terms == mid_target);
    }
    let mut j: usize = 0;
    proof {
        reveal(Seq::filter);
        assert(snap.subrange(0, 0).filter(child_pred()) =~= Seq::<TermVal>::empty());
        assert(store@ =~= (StoreVal {
            lcgft_terms: apply_terms(mid_target, snap.subrange(0, 0).filter(child_pred())),
            ..old(store)@
        }));
    }
    while j < terms.len()
        invariant
            snap == snapshot_view(terms@),
            j <= snap.len(),
            store@.wf(),
            store@ == (StoreVal {
                lcgft_terms: apply_terms(
                    mid_target,
                    snap.subrange(0, j as int).filter(child_pred()),
                ),
                ..old(store)@
            }),
        decreases snap.len() - j,
    {
        let ghost pre = snap.subrange(0, j + 1);
        proof {
            reveal(Seq::filter);
            assert(pre.drop_last() =~= snap.subrange(0, j as int));
            assert(pre.last() == snap[j as int]);
        }
        let t = &terms[j];
        if t.broader_uri.is_some() {
            let mut term = LcgftTerm::new(t.uri.as_str(), t.label.as_str());
            match &t.broader_uri {
                Some(b) => {
                    term = term.with_broader(b.as_str());
                },
                None => {},
            }
            match &t.scope_note {
                Some(n) => {
                    term = term.with_scope_note(n.as_str());
                },
                None => {},
            }
            let ghost before = store@.lcgft_terms;
            let res = store.insert_lcgft_term(&term);
            proof {
                assert(term@ =~= snap[j as int]);
                lemma_insert_matches_upsert_lcgft(before, term@, store@.lcgft_terms);
                lemma_apply_push(
                    mid_target,
                    snap.subrange(0, j as int).filter(child_pred()),
                    snap[j as int],
                );
                assert(pre.filter(child_pred()) =~= snap.subrange(0, j as int).filter(
                    child_pred(),
                ).push(snap[j as int]));
            }
        } else {
            proof {
                reveal(Seq::filter);
                assert(pre.filter(child_pred()) =~= snap.subrange(0, j as int).filter(
                    child_pred(),
                ));
            }
        }
        j += 1;
    }
    proof {
        assert(snap.subrange(0, snap.len() as int) =~= snap);
        assert(store@ =~= (StoreVal {
            lcgft_terms: spec_load(old(store)@.lcgft_terms, snap),
            ..old(store)@
        }));
    }
    Ok(count)
}

/// Applying one more term is upserting it after the rest.
proof fn lemma_apply_push(ts: Seq<TermVal>, snap: Seq<TermVal>, t: TermVal)
    ensures
        apply_terms(ts, snap.push(t)) == upsert_term(apply_terms(ts, snap), t),
    decreases snap.len(),
{
    if snap.len() == 0 {
        assert(snap.push(t)[0] == t);
        assert(snap.push(t).drop_first() =~= Seq::<TermVal>::empty());
        assert(apply_terms(ts, snap.push(t)) == apply_terms(
            upsert_term(ts, t),
            snap.push(t).drop_first(),
        ));
        assert(apply_terms(upsert_term(ts, t), snap.push(t).drop_first()) == upsert_term(ts, t));
        assert(apply_terms(ts, snap) == ts);
    } else {
        assert(snap.push(t)[0] == snap[0]);
        assert(snap.push(t).drop_first() =~= snap.drop_first().push(t));
        assert(apply_terms(ts, snap.push(t)) == apply_terms(
            upsert_term(ts, snap[0]),
            snap.drop_first().push(t),
        ));
        lemma_apply_push(upsert_term(ts, snap[0]), snap.drop_first(), t);
        assert(apply_terms(ts, snap) == apply_terms(upsert_term(ts, snap[0]), snap.drop_first()));
    }
}

/// The store's own upsert lands on the first holder of the URI, so it
/// computes [`upsert_term`].
proof fn lemma_insert_matches_upsert_lcgft(
    before: Seq<TermVal>,
    t: TermVal,
    after: Seq<TermVal>,
)
    requires
        forall|i: int, j: int|
            0 <= i < j < before.len() ==> (#[trigger] before[i]).uri != (#[trigger] before[j]).uri,
        ({
            ||| (exists|i: int|
                0 <= i < before.len() && (#[trigger] before[i]).uri == t.uri && after
                    == before.update(i, t))
            ||| ((forall|i: int| 0 <= i < before.len() ==> (#[trigger] before[i]).uri != t.uri)
                && after == before.push(t))
        }),
    ensures
        after == upsert_term(before, t),
{
    lemma_first_uri_index_some(before, t.uri);
    if exists|i: int|
        0 <= i < before.len() && (#[trigger] before[i]).uri == t.uri && after == before.update(
            i,
            t,
        ) {
        let i = choose|i: int|
            0 <= i < before.len() && (#[trigger] before[i]).uri == t.uri && after == before.update(
                i,
                t,
            );
        match first_uri_index(before, t.uri) {
            Some(f) => {
                if f != i {
                    assert(before[f].uri == before[i].uri);
                    assert(false);
                }
            },
            None => {
                assert(uri_present(before, t.uri));
                assert(false);
            },
        }
    } else {
        match first_uri_index(before, t.uri) {
            Some(f) => {
                assert(before[f].uri == t.uri);
                assert(false);
            },
            None => {},
        }
    }
}

/// Load a medium-of-performance snapshot: rootless terms first, then
/// terms with a broader reference, each upserted by URI. Returns how
/// many terms the snapshot held.
pub fn load_lcmpt(store: &mut CatalogStore, terms: &Vec<SnapshotTerm>) -> (r: Result<usize, Error>)
    requires
        old(store)@.wf(),
    ensures
        final(store)@.wf(),
        r matches Ok(n) ==> n == terms@.len(),
        final(store)@ == (StoreVal {
            lcmpt_terms: spec_load(old(store)@.lcmpt_terms, snapshot_view(terms@)),
            ..old(store)@
        }),
        r is Ok,
{
    broadcast use vstd::seq_lib::group_filter_ensures;

    let ghost snap = snapshot_view(terms@);
    let count = terms.len();
    let ghost mid_target = apply_terms(old(store)@.lcmpt_terms, snap.filter(rootless_pred()));
    let mut i: usize = 0;
    proof {
        reveal(Seq::filter);
        assert(snap.subrange(0, 0).filter(rootless_pred()) =~= Seq::<TermVal>::empty());
        assert(store@ =~= (StoreVal {
            lcmpt_terms: apply_terms(
                old(store)@.lcmpt_terms,
                snap.subrange(0, 0).filter(rootless_pred()),
            ),
            ..old(store)@
        }));
    }
    while i < terms.len()
        invariant
            snap == snapshot_view(terms@),
            i <= snap.len(),
            store@.wf(),
            store@ == (StoreVal {
                lcmpt_terms: apply_terms(
                    old(store)@.lcmpt_terms,
                    snap.subrange(0, i as int).filter(rootless_pred()),
                ),
                ..old(store)@
            }),
        decreases snap.len() - i,
    {
        let ghost pre = snap.subrange(0, i + 1);
        proof {
            reveal(Seq::filter);
            assert(pre.drop_last() =~= snap.subrange(0, i as int));
            assert(pre.last() == snap[i as int]);
        }
        let t = &terms[i];
        if t.broader_uri.is_none() {
            let mut term = LcmptTerm::new(t.uri.as_str(), t.label.as_str());
            match &t.scope_note {
                Some(n) => {
                    term = term.with_scope_note(n.as_str());
                },
                None => {},
            }
            let ghost before = store@.lcmpt_terms;
            let res = store.insert_lcmpt_term(&term);
            proof {
                assert(term@ =~= snap[i as int]);
                lemma_insert_matches_upsert_lcgft(before, term@, store@.lcmpt_terms);
                lemma_apply_push(
                    old(store)@.lcmpt_terms,
                    snap.subrange(0, i as int).filter(rootless_pred()),
                    snap[i as int],
                );
                assert(pre.filter(rootless_pred()) =~= snap.subrange(0, i as int).filter(
                    rootless_pred(),
                ).push(snap[i as int]));
            }
        } else {
            proof {
                reveal(Seq::filter);
                assert(pre.filter(rootless_pred()) =~= snap.subrange(0, i as int).filter(
                    rootless_pred(),
                ));
            }
        }
        i += 1;
    }
    proof {
        assert(snap.subrange(0, snap.len() as int) =~= snap);
        assert(store@.lcmpt_terms == mid_target);
    }
    let mut j: usize = 0;
    proof {
        reveal(Seq::filter);
        assert(snap.subrange(0, 0).filter(child_pred()) =~= Seq::<TermVal>::empty());
        assert(store@ =~= (StoreVal {
            lcmpt_terms: apply_terms(mid_target, snap.subrange(0, 0).filter(child_pred())),
            ..old(store)@
        }));
    }
    while j < terms.len()
        invariant
            snap == snapshot_view(terms@),
            j <= snap.len(),
            store@.wf(),
            store@ == (StoreVal {
                lcmpt_terms: apply_terms(
                    mid_target,
                    snap.subrange(0, j as int).filter(child_pred()),
                ),
                ..old(store)@
            }),
        decreases snap.len() - j,
    {
        let ghost pre = snap.subrange(0, j + 1);
        proof {
            reveal(Seq::filter);
            assert(pre.drop_last() =~= snap.subrange(0, j as int));
            assert(pre.last() == snap[j as int]);
        }
        let t = &terms[j];
        if t.broader_uri.is_some() {
            let mut term = LcmptTerm::new(t.uri.as_str(), t.label.as_str());
            match &t.broader_uri {
                Some(b) => {
                    term = term.with_broader(b.as_str());
                },
                None => {},
            }
            match &t.scope_note {
                Some(n) => {
                    term = term.with_scope_note(n.as_str());
                },
                None => {},
            }
            let ghost before = store@.lcmpt_terms;
            let res = store.insert_lcmpt_term(&term);
            proof {
                assert(term@ =~= snap[j as int]);
                lemma_insert_matches_upsert_lcgft(before, term@, store@.lcmpt_terms);
                lemma_apply_push(
                    mid_target,
                    snap.subrange(0, j as int).filter(child_pred()),
                    snap[j as int],
                );
                assert(pre.filter(child_pred()) =~= snap.subrange(0, j as int).filter(
                    child_pred(),
                ).push(snap[j as int]));
            }
        } else {
            proof {
                reveal(Seq::filter);
                assert(pre.filter(child_pred()) =~= snap.subrange(0, j as int).filter(
                    child_pred(),
                ));
            }
        }
        j += 1;
    }
    proof {
        assert(snap.subrange(0, snap.len() as int) =~= snap);
        assert(store@ =~= (StoreVal {
            lcmpt_terms: spec_load(old(store)@.lcmpt_terms, snap),
            ..old(store)@
        }));
    }
    Ok(count)
}

} // verus!
