//! Path classification: deciding whether a candidate file is a route entry
//! point for a router convention, and reducing its path to a segment sequence.
//!
//! A candidate path is handled as its ordered list of components relative to
//! the repository root (the first component is the convention's designated
//! subdirectory, `app` or `pages`).

use vstd::prelude::*;
use crate::segment::{reduce_segment, spec_reduce, str_equal};

verus! {

/// The two supported router conventions.
#[derive(Clone, Copy, PartialEq, Eq, Structural, Debug)]
pub enum Convention {
    AppRouter,
    PagesRouter,
}

/// The extension of a filename, following `Path::extension`: the part after
/// the last '.', unless there is no '.' or the only '.' leads the name.
pub open spec fn spec_extension(f: Seq<char>) -> Option<Seq<char>>
    decreases f.len(),
{
    if f.len() <= 1 {
        None
    } else if f[f.len() - 1] == '.' {
        Some(Seq::empty())
    } else {
        match spec_extension(f.drop_last()) {
            Some(e) => Some(e.push(f[f.len() - 1])),
            None => None,
        }
    }
}

/// A name with no '.' after its first character has no extension.
proof fn lemma_extension_none(f: Seq<char>)
    requires
        forall|j: int| 1 <= j < f.len() ==> f[j] != '.',
    ensures
        spec_extension(f) is None,
    decreases f.len(),
{
    if f.len() > 1 {
        assert(f[f.len() - 1] != '.');
        assert(forall|j: int| 1 <= j < f.len() - 1 ==> f.drop_last()[j] == f[j]);
        lemma_extension_none(f.drop_last());
    }
}

/// If the last '.' of the name stands at position `d >= 1`, the extension is
/// everything after it.
proof fn lemma_extension_some(f: Seq<char>, d: int)
    requires
        1 <= d < f.len(),
        f[d] == '.',
        forall|j: int| d < j < f.len() ==> f[j] != '.',
    ensures
        spec_extension(f) == Some(f.skip(d + 1)),
    decreases f.len(),
{
    if d == f.len() - 1 {
        assert(f.skip(d + 1) =~= Seq::<char>::empty());
    } else {
        assert(f[f.len() - 1] != '.');
        assert(forall|j: int| 0 <= j < f.len() - 1 ==> f.drop_last()[j] == f[j]);
        lemma_extension_some(f.drop_last(), d);
        assert(f.drop_last().skip(d + 1).push(f[f.len() - 1]) =~= f.skip(d + 1));
    }
}

/// The filename's extension, as `Path::extension` would give it.
pub fn extension_of(f: &str) -> (r: Option<String>)
    ensures
        match r {
            Some(e) => spec_extension(f@) == Some(e@),
            None => spec_extension(f@) is None,
        },
{
    let n = f.unicode_len();
    let mut k: usize = n;
    while k > 1 && f.get_char(k - 1) != '.'
        invariant
            n == f@.len(),
            k <= n,
            forall|j: int| k <= j < n ==> f@[j] != '.',
        decreases k,
    {
        k = k - 1;
    }
    if k <= 1 {
        proof {
            lemma_extension_none(f@);
        }
        None
    } else {
        let e = f.substring_char(k, n).to_owned();
        proof {
            lemma_extension_some(f@, k - 1);
        }
        Some(e)
    }
}

/// The AppRouter rule: the base filename is exactly `page.js` or `route.js`.
pub open spec fn app_route_file(f: Seq<char>) -> bool {
    f == "page.js"@ || f == "route.js"@
}

/// The PagesRouter rule: the extension is one of `js`, `tsx`, `jsx`.
pub open spec fn pages_route_file(f: Seq<char>) -> bool {
    match spec_extension(f) {
        Some(e) => e == "js"@ || e == "tsx"@ || e == "jsx"@,
        None => false,
    }
}

/// The convention's inclusion rule on a base filename.
pub open spec fn route_file(convention: Convention, f: Seq<char>) -> bool {
    match convention {
        Convention::AppRouter => app_route_file(f),
        Convention::PagesRouter => pages_route_file(f),
    }
}

/// Decides the convention's inclusion rule on the base filename.
pub fn is_route_file(convention: Convention, filename: &str) -> (r: bool)
    ensures
        r == route_file(convention, filename@),
{
    match convention {
        Convention::AppRouter => {
            str_equal(filename, "page.js") || str_equal(filename, "route.js")
        },
        Convention::PagesRouter => {
            match extension_of(filename) {
                Some(e) => {
                    str_equal(e.as_str(), "js") || str_equal(e.as_str(), "tsx") || str_equal(
                        e.as_str(),
                        "jsx",
                    )
                },
                None => false,
            }
        },
    }
}

/// The views of a list of path components.
pub open spec fn views_of(parts: Seq<String>) -> Seq<Seq<char>> {
    parts.map_values(|p: String| p@)
}

/// Each component reduced to its route segment name.
pub open spec fn reduce_all(parts: Seq<Seq<char>>) -> Seq<Seq<char>> {
    parts.map_values(|c: Seq<char>| spec_reduce(c))
}

/// Reduces every component of a relative path to its route segment name, in
/// path order.
pub fn parse_route_name(components: &Vec<String>) -> (r: Vec<String>)
    ensures
        views_of(r@) == reduce_all(views_of(components@)),
{
    let mut r: Vec<String> = Vec::new();
    let mut i: usize = 0;
    while i < components.len()
        invariant
            i <= components@.len(),
            r@.len() == i,
            forall|j: int| 0 <= j < i ==> r@[j]@ == spec_reduce(components@[j]@),
        decreases components@.len() - i,
    {
        r.push(reduce_segment(components[i].as_str()));
        i = i + 1;
    }
    proof {
        assert(views_of(r@) =~= reduce_all(views_of(components@)));
    }
    r
}

/// A path is included when it has a base filename that the convention's rule
/// accepts.
pub open spec fn included(convention: Convention, components: Seq<Seq<char>>) -> bool {
    components.len() > 0 && route_file(convention, components.last())
}

/// Decides route-file membership of a candidate path (given as components
/// relative to the repository root) and, on inclusion, computes its segment
/// sequence.
pub fn classify(convention: Convention, components: &Vec<String>) -> (r: Option<Vec<String>>)
    ensures
        r is Some <==> included(convention, views_of(components@)),
        r is Some ==> views_of(r.unwrap()@) == reduce_all(views_of(components@)),
{
    if components.len() == 0 {
        return None;
    }
    let last = &components[components.len() - 1];
    if is_route_file(convention, last.as_str()) {
        Some(parse_route_name(components))
    } else {
        None
    }
}

/// The convention named by a selector string, or nothing for any other value.
pub fn convention_from_name(name: &str) -> (r: Option<Convention>)
    ensures
        r == Some(Convention::AppRouter) <==> name@ == "app"@,
        r == Some(Convention::PagesRouter) <==> name@ == "pages"@,
        r is None <==> name@ != "app"@ && name@ != "pages"@,
{
    proof {
        reveal_strlit("app");
        reveal_strlit("pages");
        assert("app"@.len() == 3);
        assert("pages"@.len() == 5);
    }
    if str_equal(name, "app") {
        Some(Convention::AppRouter)
    } else if str_equal(name, "pages") {
        Some(Convention::PagesRouter)
    } else {
        None
    }
}

} // verus!
