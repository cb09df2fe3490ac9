//! Method-by-name resolution: given the matches of a search pass that
//! was filtered to method nodes, pick the method to call and the object
//! that owns it.
//!
//! The owning object is the recorded parent of the match: methods are
//! discovered as forward hierarchical children of their owning object.
//! The chosen match is the first exact match when one ended the pass —
//! the search records it last — and the first match overall otherwise,
//! ties broken by discovery order.

use vstd::prelude::*;
use crate::ids::NodeId;
use crate::search::{SearchResult, SearchResultView, result_views};

verus! {

/// The resolver's one error: the search found no matching method.
#[derive(Clone, Copy, Debug, PartialEq, Eq, Structural)]
pub enum ResolveError {
    MethodNotFound,
}

/// The chosen (method, owning object) pair, if the match list yields one.
pub open spec fn choose_method_spec(
    matches: Seq<SearchResultView>,
    exact_found: bool,
) -> Option<(crate::ids::NodeIdView, crate::ids::NodeIdView)> {
    if matches.len() == 0 {
        None
    } else {
        let m = if exact_found {
            matches.last()
        } else {
            matches[0]
        };
        match m.parent_node_id {
            Some(p) => Some((m.node_id, p)),
            None => None,
        }
    }
}

/// Picks the method to call and its owning object from a finished search
/// pass: the exact match when one ended the pass, else the first match.
/// Fails with `MethodNotFound` exactly when the pass found nothing (or
/// the chosen match recorded no parent, which a search never produces).
pub fn resolve_from_matches(matches: &Vec<SearchResult>, exact_found: bool) -> (r: Result<
    (NodeId, NodeId),
    ResolveError,
>)
    ensures
        match r {
            Ok(pair) => choose_method_spec(result_views(matches@), exact_found) == Some(
                (pair.0@, pair.1@),
            ),
            Err(e) => choose_method_spec(result_views(matches@), exact_found) is None && e
                == ResolveError::MethodNotFound,
        },
{
    if matches.len() == 0 {
        return Err(ResolveError::MethodNotFound);
    }
    let idx: usize = if exact_found {
        matches.len() - 1
    } else {
        0
    };
    let m = &matches[idx];
    proof {
        if exact_found {
            assert(result_views(matches@).last() == m@);
        } else {
            assert(result_views(matches@)[0] == m@);
        }
    }
    match &m.parent_node_id {
        Some(p) => Ok((m.node_id.clone(), p.clone())),
        None => Err(ResolveError::MethodNotFound),
    }
}

} // verus!
