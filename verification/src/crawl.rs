//! The crawl-and-insert loop: classifying each discovered candidate path and
//! merging the included ones into the route tree. File discovery itself is an
//! external collaborator that hands the loop its candidate paths.

use vstd::prelude::*;
use crate::classify::{classify, included, reduce_all, views_of, Convention};
use crate::tree::{has_path, is_prefix_of, RouteNode};

verus! {

/// A non-fatal condition reported to the caller during a crawl.
#[derive(Clone, Copy, PartialEq, Eq, Structural, Debug)]
pub enum CrawlCondition {
    /// The convention's designated subdirectory does not exist under the
    /// repository root.
    ConfigurationAbsent(Convention),
    /// The convention selector matches no supported convention.
    InvalidSelection,
}

impl CrawlCondition {
    /// The warning text reported to the user for this condition.
    pub fn message(&self) -> (m: String)
        ensures
            *self == CrawlCondition::ConfigurationAbsent(Convention::AppRouter) ==> m@
                == "The 'app' folder was not found in the specified path."@,
            *self == CrawlCondition::ConfigurationAbsent(Convention::PagesRouter) ==> m@
                == "The 'pages' folder was not found in the specified path."@,
            *self == CrawlCondition::InvalidSelection ==> m@
                == "Invalid selection. Please choose 'app' or 'pages'."@,
    {
        match self {
            CrawlCondition::ConfigurationAbsent(Convention::AppRouter) => {
                "The 'app' folder was not found in the specified path.".to_owned()
            },
            CrawlCondition::ConfigurationAbsent(Convention::PagesRouter) => {
                "The 'pages' folder was not found in the specified path.".to_owned()
            },
            CrawlCondition::InvalidSelection => {
                "Invalid selection. Please choose 'app' or 'pages'.".to_owned()
            },
        }
    }
}

/// The candidate at position `k` is included by the convention and
/// contributes the path `p` to the tree.
pub open spec fn contributes(
    convention: Convention,
    files: Seq<Vec<String>>,
    k: int,
    p: Seq<Seq<char>>,
) -> bool {
    &&& included(convention, views_of(files[k]@))
    &&& is_prefix_of(p, reduce_all(views_of(files[k]@)))
}

/// Classifies every candidate path (given as its components relative to the
/// repository root) and merges each included one into the tree. Afterwards
/// the tree's paths are exactly the old ones plus every prefix of every
/// included candidate's segment sequence.
pub fn insert_route_files(root: &mut RouteNode, convention: Convention, files: &Vec<Vec<String>>)
    requires
        old(root).wf(),
    ensures
        final(root).wf(),
        final(root).name == old(root).name,
        forall|p: Seq<Seq<char>>|
            has_path(*final(root), p) <==> has_path(*old(root), p) || exists|k: int|
                0 <= k < files@.len() && contributes(convention, files@, k, p),
{
    let mut k: usize = 0;
    while k < files.len()
        invariant
            root.wf(),
            root.name == old(root).name,
            k <= files@.len(),
            forall|p: Seq<Seq<char>>|
                has_path(*root, p) <==> has_path(*old(root), p) || exists|j: int|
                    0 <= j < k && contributes(convention, files@, j, p),
        decreases files@.len() - k,
    {
        let ghost before = *root;
        match classify(convention, &files[k]) {
            Some(parts) => {
                root.add_route(parts.as_slice());
                proof {
                    assert forall|p: Seq<Seq<char>>|
                        has_path(*root, p) <==> has_path(*old(root), p) || exists|j: int|
                            0 <= j < k + 1 && contributes(convention, files@, j, p) by {
                        assert(views_of(parts@) == reduce_all(views_of(files@[k as int]@)));
                        if has_path(*root, p) {
                            if !has_path(before, p) {
                                assert(contributes(convention, files@, k as int, p));
                            } else if !has_path(*old(root), p) {
                                let j = choose|j: int|
                                    0 <= j < k && contributes(convention, files@, j, p);
                                assert(contributes(convention, files@, j, p));
                            }
                        } else {
                            assert(!has_path(before, p));
                            assert forall|j: int|
                                0 <= j < k + 1 implies !contributes(
                                convention,
                                files@,
                                j,
                                p,
                            ) by {
                                if j == k {
                                    assert(!is_prefix_of(p, views_of(parts@)));
                                }
                            }
                        }
                    }
                }
            },
            None => {
                proof {
                    assert forall|p: Seq<Seq<char>>|
                        has_path(*root, p) <==> has_path(*old(root), p) || exists|j: int|
                            0 <= j < k + 1 && contributes(convention, files@, j, p) by {
                        assert(!included(convention, views_of(files@[k as int]@)));
                        if !has_path(*root, p) {
                            assert forall|j: int|
                                0 <= j < k + 1 implies !contributes(
                                convention,
                                files@,
                                j,
                                p,
                            ) by {}
                        } else if !has_path(*old(root), p) {
                            let j = choose|j: int|
                                0 <= j < k && contributes(convention, files@, j, p);
                            assert(contributes(convention, files@, j, p));
                        }
                    }
                }
            },
        }
        k = k + 1;
    }
}

} // verus!
