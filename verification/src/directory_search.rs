//! The search for the directory that protects a place.
use crate::directory_auth::{names_of, path_names};
use crate::paths::{FsPath, FsPathView};
use crate::text::{join, joined, texts};
use vstd::prelude::*;

verus! {

/// A search for the directory that protects a target: the names that are left of the relative path,
/// and the place that they lead to.
#[derive(Debug)]
pub struct DirectorySearch {
    names: Vec<String>,
    path: FsPath,
}

/// Where a search stands.
pub struct SearchView {
    pub names: Seq<Seq<char>>,
    pub path: FsPathView,
}

impl View for DirectorySearch {
    type V = SearchView;

    closed spec fn view(&self) -> SearchView {
        SearchView { names: texts(self.names@), path: self.path@ }
    }
}

/// How a search goes on: it has ended, with the directory that it found or without one, or it looks
/// at the next place.
#[derive(Debug)]
pub enum SearchStep {
    Found(Option<String>),
    Next(DirectorySearch),
}

/// How a search goes on.
pub enum SearchStepView {
    Found(Option<Seq<char>>),
    Next(SearchView),
}

impl View for SearchStep {
    type V = SearchStepView;

    open spec fn view(&self) -> SearchStepView {
        match self {
            SearchStep::Found(Some(s)) => SearchStepView::Found(Some(s@)),
            SearchStep::Found(None) => SearchStepView::Found(None),
            SearchStep::Next(search) => SearchStepView::Next(search@),
        }
    }
}

impl SearchView {
    /// How the search goes on when `is_dir` says whether a directory is at its place. The root of
    /// the tree has no name left and protects nothing.
    pub open spec fn advance(self, is_dir: bool) -> SearchStepView {
        if is_dir {
            SearchStepView::Found(
                if self.names.len() > 0 {
                    Some(joined(self.names, '/'))
                } else {
                    None
                },
            )
        } else if self.names.len() == 0 || self.path.parent() is None {
            SearchStepView::Found(None)
        } else {
            SearchStepView::Next(
                SearchView { names: self.names.drop_last(), path: self.path.parent()->0 },
            )
        }
    }

    /// What the search finds, when `is_dir` says of each place whether a directory is there.
    pub open spec fn outcome(self, is_dir: spec_fn(FsPathView) -> bool) -> Option<Seq<char>>
        decreases self.names.len(),
    {
        match self.advance(is_dir(self.path)) {
            SearchStepView::Found(found) => found,
            SearchStepView::Next(next) => if self.names.len() > 0 {
                next.outcome(is_dir)
            } else {
                None
            },
        }
    }
}

/// Starts the search for the directory that protects a target.
pub fn protecting_directory(relative_path: &str, absolute_path: &FsPath) -> (r: DirectorySearch)
    ensures
        r@ == (SearchView { names: path_names(relative_path@), path: absolute_path@ }),
{
    DirectorySearch { names: names_of(relative_path), path: absolute_path.copy() }
}

impl DirectorySearch {
    /// The place to look at.
    pub fn place(&self) -> (r: &FsPath)
        ensures
            r@ == self@.path,
    {
        &self.path
    }

    /// Goes on with the search when `is_dir` says whether a directory is at its place.
    pub fn advance(self, is_dir: bool) -> (r: SearchStep)
        ensures
            r@ == self@.advance(is_dir),
    {
        if is_dir {
            assert(texts(self.names@).len() == self.names@.len());
            return SearchStep::Found(
                if self.names.len() > 0 {
                    Some(join(&self.names, '/'))
                } else {
                    None
                },
            );
        }
        let ghost before = texts(self.names@);
        let mut names = self.names;
        if names.len() == 0 {
            return SearchStep::Found(None);
        }
        names.pop();
        assert(texts(names@) =~= before.drop_last());
        match self.path.parent() {
            Some(path) => SearchStep::Next(DirectorySearch { names, path }),
            None => SearchStep::Found(None),
        }
    }
}

/// The place `n` levels above a path.
pub open spec fn ancestor(path: FsPathView, n: int) -> FsPathView {
    FsPathView { absolute: path.absolute, parts: path.parts.take(path.parts.len() - n) }
}

/// The search finds the deepest directory on the way to the target: the one with the most names
/// left, unless that is the root of the tree.
pub proof fn law_search_finds_deepest(
    search: SearchView,
    is_dir: spec_fn(FsPathView) -> bool,
    k: nat,
)
    requires
        k <= search.names.len() <= search.path.parts.len(),
        is_dir(ancestor(search.path, search.names.len() - k)),
        forall|j: int|
            k < j <= search.names.len() ==> !is_dir(
                #[trigger] ancestor(search.path, search.names.len() - j),
            ),
    ensures
        k > 0 ==> search.outcome(is_dir) == Some(joined(search.names.take(k as int), '/')),
        k == 0 ==> search.outcome(is_dir) is None,
    decreases search.names.len(),
{
    let n = search.names.len() as int;
    assert(ancestor(search.path, 0).parts =~= search.path.parts);
    if k == n {
        assert(ancestor(search.path, n - k) == search.path);
        assert(search.names.take(k as int) =~= search.names);
    } else {
        assert(!is_dir(ancestor(search.path, n - n)));
        let next = SearchView { names: search.names.drop_last(), path: search.path.parent()->0 };
        assert forall|j: int| 0 <= j < n implies #[trigger] ancestor(next.path, next.names.len() - j)
            == ancestor(search.path, n - j) by {
            assert(ancestor(next.path, next.names.len() - j).parts =~= ancestor(
                search.path,
                n - j,
            ).parts);
        }
        law_search_finds_deepest(next, is_dir, k);
        assert(next.names.take(k as int) =~= search.names.take(k as int));
    }
}

/// Where no directory is on the way to the target, the search finds none.
pub proof fn law_search_finds_nothing(search: SearchView, is_dir: spec_fn(FsPathView) -> bool)
    requires
        forall|j: int|
            0 <= j <= search.names.len() && j <= search.path.parts.len() ==> !is_dir(
                #[trigger] ancestor(search.path, j),
            ),
    ensures
        search.outcome(is_dir) is None,
    decreases search.names.len(),
{
    assert(ancestor(search.path, 0).parts =~= search.path.parts);
    assert(!is_dir(ancestor(search.path, 0)));
    match search.advance(is_dir(search.path)) {
        SearchStepView::Found(_) => {},
        SearchStepView::Next(next) => {
            assert forall|j: int| 0 <= j <= next.names.len() && j <= next.path.parts.len() implies !is_dir(
                #[trigger] ancestor(next.path, j),
            ) by {
                assert(ancestor(next.path, j).parts =~= ancestor(search.path, j + 1).parts);
                assert(!is_dir(ancestor(search.path, j + 1)));
            }
            law_search_finds_nothing(next, is_dir);
        },
    }
}

} // verus!
