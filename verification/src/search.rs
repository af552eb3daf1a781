//! Search of the whole znode tree for paths that match a query: a
//! depth-first walk from the root, children in name order, that stops once
//! it holds the most results asked for. The walk asks for each listing of
//! children in turn and is told what came back.
use vstd::prelude::*;
use crate::matching::{lowercase, path_matches, path_matches_query, to_lowercase};
use crate::order::{names_sorted, sort_names};
use crate::text::{child_path, child_path_spec, is_root, root_path};
use crate::tree::path_views;

verus! {

/// A search in progress.
pub struct SearchWalk {
    query: String,
    max_results: usize,
    results: Vec<String>,
    stack: Vec<String>,
}

/// What a search holds: the lowercased query, the most results wanted, the
/// results so far, and the paths still to visit (the last one next).
pub struct SearchView {
    pub query: Seq<char>,
    pub max_results: nat,
    pub results: Seq<Seq<char>>,
    pub pending: Seq<Seq<char>>,
}

impl View for SearchWalk {
    type V = SearchView;

    closed spec fn view(&self) -> SearchView {
        SearchView {
            query: self.query@,
            max_results: self.max_results as nat,
            results: path_views(self.results@),
            pending: path_views(self.stack@),
        }
    }
}

/// Every result matches the query, none is the root, and there are no more
/// of them than asked for.
pub open spec fn results_sound(v: SearchView) -> bool {
    &&& v.results.len() <= v.max_results
    &&& forall|i: int|
        0 <= i < v.results.len() ==> #[trigger] path_matches(v.results[i], v.query)
            && v.results[i] != root_path()
}

/// The paths of the children `names` of `parent`, last name first.
pub open spec fn children_last_first(parent: Seq<char>, names: Seq<String>) -> Seq<Seq<char>> {
    Seq::new(names.len(), |i: int| child_path_spec(parent, names[names.len() - 1 - i]@))
}

proof fn lemma_sound_kept(a: SearchView, b: SearchView)
    requires
        results_sound(a),
        a.results == b.results,
        a.query == b.query,
        a.max_results == b.max_results,
    ensures
        results_sound(b),
{
}

impl SearchWalk {
    /// Starts a search for `query` (compared in lower case), with room for
    /// `max_results` hits. An empty query finds nothing.
    pub fn start(query: &str, max_results: usize) -> (r: SearchWalk)
        ensures
            r@.query == lowercase(query@),
            r@.max_results == max_results,
            r@.results.len() == 0,
            r@.pending == if lowercase(query@).len() == 0 {
                Seq::<Seq<char>>::empty()
            } else {
                seq![root_path()]
            },
            results_sound(r@),
    {
        proof {
            reveal_strlit("/");
        }
        assert("/"@ =~= root_path());
        let q = to_lowercase(query);
        let mut stack: Vec<String> = Vec::new();
        if q.as_str().unicode_len() != 0 {
            stack.push("/".to_owned());
        }
        let r = SearchWalk { query: q, max_results, results: Vec::new(), stack };
        assert(path_views(r.results@) =~= Seq::<Seq<char>>::empty());
        assert(r@.pending =~= if lowercase(query@).len() == 0 {
            Seq::<Seq<char>>::empty()
        } else {
            seq![root_path()]
        });
        r
    }

    /// Visits the next path: records it where it matches, and hands it
    /// back to have its children listed. Gives `None` once the search is
    /// over: nothing is left to visit, or the results are full.
    pub fn next(&mut self) -> (r: Option<String>)
        requires
            results_sound(old(self)@),
        ensures
            results_sound(final(self)@),
            final(self)@.query == old(self)@.query,
            final(self)@.max_results == old(self)@.max_results,
            old(self)@.results.len() >= old(self)@.max_results || old(self)@.pending.len() == 0
                ==> r is None && final(self)@.results == old(self)@.results
                && final(self)@.pending.len() == 0,
            old(self)@.results.len() < old(self)@.max_results && old(self)@.pending.len() > 0
                ==> {
                let p = old(self)@.pending.last();
                let hit = p != root_path() && path_matches(p, old(self)@.query);
                let results = if hit {
                    old(self)@.results.push(p)
                } else {
                    old(self)@.results
                };
                &&& final(self)@.results == results
                &&& results.len() >= old(self)@.max_results ==> r is None
                    && final(self)@.pending.len() == 0
                &&& results.len() < old(self)@.max_results ==> (r matches Some(s) && s@ == p
                    && final(self)@.pending == old(self)@.pending.drop_last())
            },
    {
        if self.results.len() >= self.max_results || self.stack.len() == 0 {
            self.stack = Vec::new();
            assert(path_views(self.stack@) =~= Seq::<Seq<char>>::empty());
            proof {
                lemma_sound_kept(old(self)@, self@);
            }
            None
        } else {
            let ghost old_results = path_views(self.results@);
            let ghost old_stack = path_views(self.stack@);
            let path = self.stack.pop().unwrap();
            assert(path_views(self.stack@) =~= old_stack.drop_last());
            proof {
                lemma_sound_kept(old(self)@, self@);
            }
            if !is_root(path.as_str()) && path_matches_query(path.as_str(), self.query.as_str()) {
                let hit = path.clone();
                self.results.push(hit);
                assert(path_views(self.results@) =~= old_results.push(path@));
                assert(path_matches(path@, self.query@));
                let ghost v = self@;
                assert(v.results.len() <= v.max_results);
                assert forall|i: int| 0 <= i < v.results.len() implies #[trigger] path_matches(v.results[i], v.query)
                    && v.results[i] != root_path() by {
                    if i < old_results.len() {
                        assert(v.results[i] == old_results[i]);
                        assert(path_matches(old_results[i], old(self)@.query));
                    } else {
                        assert(v.results[i] == path@);
                    }
                }
                assert(results_sound(self@));
            }
            assert(results_sound(self@));
            if self.results.len() >= self.max_results {
                let ghost before = self@;
                self.stack = Vec::new();
                assert(path_views(self.stack@) =~= Seq::<Seq<char>>::empty());
                proof {
                    lemma_sound_kept(before, self@);
                }
                None
            } else {
                Some(path)
            }
        }
    }

    /// Takes the listing of the children of `path` (or `None` where it
    /// could not be listed): the children, in name order, are visited next.
    pub fn children_listed(&mut self, path: &str, children: Option<Vec<String>>)
        requires
            results_sound(old(self)@),
        ensures
            results_sound(final(self)@),
            final(self)@.query == old(self)@.query,
            final(self)@.max_results == old(self)@.max_results,
            final(self)@.results == old(self)@.results,
            match children {
                None => final(self)@.pending == old(self)@.pending,
                Some(c) => exists|sorted: Seq<String>|
                    #![trigger names_sorted(sorted)]
                    names_sorted(sorted) && sorted.to_multiset() == c@.to_multiset()
                        && final(self)@.pending == old(self)@.pending + children_last_first(
                        path@,
                        sorted,
                    ),
            },
    {
        if let Some(c) = children {
            let sorted = sort_names(c);
            let ghost old_stack = path_views(self.stack@);
            let n = sorted.len();
            let mut i: usize = n;
            while i > 0
                invariant
                    n == sorted@.len(),
                    i <= n,
                    self.query == old(self).query,
                    self.results == old(self).results,
                    self.max_results == old(self).max_results,
                    path_views(self.stack@) == old_stack + children_last_first(
                        path@,
                        sorted@,
                    ).take(n - i),
                decreases i,
            {
                let ghost before = path_views(self.stack@);
                let p = child_path(path, sorted[i - 1].as_str());
                self.stack.push(p);
                proof {
                    let all = children_last_first(path@, sorted@);
                    assert(all.take(n - i + 1) =~= all.take(n - i).push(all[n - i]));
                    assert(path_views(self.stack@) =~= before.push(p@));
                }
                i = i - 1;
            }
            assert(children_last_first(path@, sorted@).take(n as int) =~= children_last_first(
                path@,
                sorted@,
            ));
            proof {
                lemma_sound_kept(old(self)@, self@);
            }
        }
    }

    /// The results found, in the order found.
    pub fn into_results(self) -> (r: Vec<String>)
        ensures
            path_views(r@) == self@.results,
    {
        self.results
    }
}

} // verus!
