//! Composing the stages into the processing pipeline, and deciding,
//! on resumption, which of the early stages still have work.

use vstd::prelude::*;

use crate::error::Error;
use crate::store::{items_view, lacks_fingerprint_pred, unidentified_pred, CatalogStore};
use crate::workflow::{
    deps_view, edge_ordered, name_before, names_distinct, names_view, stage_list_ordered,
    WorkflowDef,
};

verus! {

/// Whether the scan stage still has work: the catalog holds no items.
pub fn should_run_scan(store: &CatalogStore) -> (r: bool)
    ensures
        r == (store@.items.len() == 0),
{
    broadcast use vstd::seq_lib::group_to_multiset_ensures;

    let all = store.list_all_items();
    proof {
        assert(items_view(all@).len() == items_view(all@).to_multiset().len());
        assert(store@.items.len() == store@.items.to_multiset().len());
    }
    all.len() == 0
}

/// Whether the fingerprint stage still has work: some item lacks a
/// fingerprint.
pub fn should_run_fingerprint(store: &CatalogStore) -> (r: bool)
    ensures
        r == (store@.items.filter(lacks_fingerprint_pred()).len() > 0),
{
    broadcast use vstd::seq_lib::group_to_multiset_ensures;

    let lacking = store.list_items_without_fingerprints();
    proof {
        assert(items_view(lacking@).len() == items_view(lacking@).to_multiset().len());
        assert(store@.items.filter(lacks_fingerprint_pred()).len() == store@.items.filter(
            lacks_fingerprint_pred(),
        ).to_multiset().len());
    }
    lacking.len() > 0
}

/// Whether the identify stage still has work: some item is
/// unidentified.
pub fn should_run_identify(store: &CatalogStore) -> (r: bool)
    ensures
        r == (store@.items.filter(unidentified_pred()).len() > 0),
{
    broadcast use vstd::seq_lib::group_to_multiset_ensures;

    let unidentified = store.list_unidentified_items();
    proof {
        assert(items_view(unidentified@).len() == items_view(unidentified@).to_multiset().len());
        assert(store@.items.filter(unidentified_pred()).len() == store@.items.filter(
            unidentified_pred(),
        ).to_multiset().len());
    }
    unidentified.len() > 0
}

/// The scan-and-identify pipeline: identification depends on the scan.
/// The stages are listed in dependency order, so the builder always
/// accepts them.
pub fn build_pipeline() -> (r: Result<WorkflowDef, Error>)
    ensures
        r is Ok,
        r matches Ok(def) ==> def.order_ok(),
{
    let mut stages: Vec<String> = Vec::new();
    stages.push(String::from_str("scan"));
    stages.push(String::from_str("identify"));
    let mut deps: Vec<(String, String)> = Vec::new();
    deps.push((String::from_str("identify"), String::from_str("scan")));
    let ghost nv = names_view(stages@);
    let ghost dv = deps_view(deps@);
    proof {
        reveal_strlit("scan");
        reveal_strlit("identify");
        assert(nv.len() == 2 && nv[0] == "scan"@ && nv[1] == "identify"@);
        assert(names_distinct(nv));
        assert(dv.len() == 1 && dv[0] == ("identify"@, "scan"@));
        assert(name_before(nv, 1, "scan"@)) by {
            assert(nv[0] == "scan"@);
        }
        assert(edge_ordered(nv, dv[0]));
        assert(stage_list_ordered(nv, dv));
    }
    WorkflowDef::build(stages, deps)
}

/// The full pipeline: scan, then identify, then enrich, then harmonize,
/// each depending on the one before. The stages are listed in
/// dependency order, so the builder always accepts them.
pub fn build_full_pipeline() -> (r: Result<WorkflowDef, Error>)
    ensures
        r is Ok,
        r matches Ok(def) ==> def.order_ok(),
{
    let mut stages: Vec<String> = Vec::new();
    stages.push(String::from_str("scan"));
    stages.push(String::from_str("identify"));
    stages.push(String::from_str("enrich"));
    stages.push(String::from_str("harmonize"));
    let mut deps: Vec<(String, String)> = Vec::new();
    deps.push((String::from_str("identify"), String::from_str("scan")));
    deps.push((String::from_str("enrich"), String::from_str("identify")));
    deps.push((String::from_str("harmonize"), String::from_str("enrich")));
    let ghost nv = names_view(stages@);
    let ghost dv = deps_view(deps@);
    proof {
        reveal_strlit("scan");
        reveal_strlit("identify");
        reveal_strlit("enrich");
        reveal_strlit("harmonize");
        assert(nv.len() == 4 && nv[0] == "scan"@ && nv[1] == "identify"@ && nv[2] == "enrich"@
            && nv[3] == "harmonize"@);
        assert(names_distinct(nv));
        assert(dv.len() == 3 && dv[0] == ("identify"@, "scan"@) && dv[1] == ("enrich"@,
        "identify"@) && dv[2] == ("harmonize"@, "enrich"@));
        assert(name_before(nv, 1, "scan"@)) by {
            assert(nv[0] == "scan"@);
        }
        assert(name_before(nv, 2, "identify"@)) by {
            assert(nv[1] == "identify"@);
        }
        assert(name_before(nv, 3, "enrich"@)) by {
            assert(nv[2] == "enrich"@);
        }
        assert(edge_ordered(nv, dv[0]));
        assert(edge_ordered(nv, dv[1]));
        assert(edge_ordered(nv, dv[2]));
        assert(stage_list_ordered(nv, dv));
    }
    WorkflowDef::build(stages, deps)
}

} // verus!
