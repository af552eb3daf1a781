//! Walk of a subtree in post-order, as counting and deleting a subtree
//! need it: a znode is listed, then each of its children is walked in the
//! order listed, then the znode itself is visited. ZooKeeper refuses to
//! delete a znode that still has children, so a deletion visits each
//! znode only after all of its listed children.
use vstd::prelude::*;
use crate::text::{child_path, child_path_spec};

verus! {

/// What the walk asks for next.
pub enum WalkStep {
    /// List the children of this path and hand them to
    /// `SubtreeWalk::children_listed`.
    List(String),
    /// All of this path's children have been visited: visit it (count or
    /// delete it).
    Visit(String),
}

struct Frame {
    path: String,
    listed: bool,
    children: Ghost<Seq<Seq<char>>>,
}

/// A path still to be finished: whether its children were listed, and the
/// paths of those children.
pub struct FrameView {
    pub path: Seq<char>,
    pub listed: bool,
    pub children: Seq<Seq<char>>,
}

/// What a walk holds: the paths still open, the innermost last, the paths
/// visited so far, in order, and how many paths it was given: the start
/// and every child listed.
pub struct WalkView {
    pub frames: Seq<FrameView>,
    pub done: Seq<Seq<char>>,
    pub given: nat,
}

/// A walk in progress.
pub struct SubtreeWalk {
    frames: Vec<Frame>,
    done: Ghost<Seq<Seq<char>>>,
    given: Ghost<nat>,
}

spec fn frame_view(f: Frame) -> FrameView {
    FrameView { path: f.path@, listed: f.listed, children: f.children@ }
}

impl View for SubtreeWalk {
    type V = WalkView;

    closed spec fn view(&self) -> WalkView {
        WalkView {
            frames: self.frames@.map_values(|f: Frame| frame_view(f)),
            done: self.done@,
            given: self.given@,
        }
    }
}

/// Each child of an open, listed path is either visited already or open
/// further in.
pub open spec fn children_pending_or_done(v: WalkView) -> bool {
    forall|i: int, k: int|
        #![trigger v.frames[i].children[k]]
        0 <= i < v.frames.len() && v.frames[i].listed && 0 <= k < v.frames[i].children.len()
            ==> v.done.contains(v.frames[i].children[k]) || exists|j: int|
            #![trigger v.frames[j].path]
            i < j < v.frames.len() && v.frames[j].path == v.frames[i].children[k]
}

/// The walk has visited, or still holds open, as many paths as it was
/// given.
pub open spec fn all_given_accounted(v: WalkView) -> bool {
    v.done.len() + v.frames.len() == v.given
}

/// Once a walk is over, it has made one visit for each path it was given:
/// the start and every child listed on the way. A walk that counts its
/// visits counts the whole subtree as listed.
pub proof fn lemma_finished_walk_visited_all(v: WalkView)
    requires
        all_given_accounted(v),
        v.frames.len() == 0,
    ensures
        v.done.len() == v.given,
{
}

/// The paths of the children `names` of `parent`, in the order listed.
pub open spec fn child_paths(parent: Seq<char>, names: Seq<String>) -> Seq<Seq<char>> {
    Seq::new(names.len(), |k: int| child_path_spec(parent, names[k]@))
}

/// Fresh frames for the children `names` of `parent`, the last child
/// outermost so that the first child is walked first.
pub open spec fn child_frames(parent: Seq<char>, names: Seq<String>) -> Seq<FrameView> {
    Seq::new(
        names.len(),
        |k: int|
            FrameView {
                path: child_path_spec(parent, names[names.len() - 1 - k]@),
                listed: false,
                children: Seq::empty(),
            },
    )
}

impl SubtreeWalk {
    /// Starts a walk of the subtree at `path`.
    pub fn start(path: &str) -> (r: SubtreeWalk)
        ensures
            r@.frames == seq![FrameView { path: path@, listed: false, children: Seq::empty() }],
            r@.done == Seq::<Seq<char>>::empty(),
            r@.given == 1,
            children_pending_or_done(r@),
            all_given_accounted(r@),
    {
        let mut frames: Vec<Frame> = Vec::new();
        frames.push(Frame { path: path.to_owned(), listed: false, children: Ghost(Seq::empty()) });
        let r = SubtreeWalk { frames, done: Ghost(Seq::empty()), given: Ghost(1) };
        assert(r@.frames =~= seq![
            FrameView { path: path@, listed: false, children: Seq::empty() },
        ]);
        r
    }

    /// The next step: `None` once the walk is over; the innermost open
    /// path to list where its children are not listed yet; else that path
    /// to visit, which closes it. A path is visited only after every child
    /// listed for it was.
    pub fn next(&mut self) -> (r: Option<WalkStep>)
        requires
            children_pending_or_done(old(self)@),
            all_given_accounted(old(self)@),
        ensures
            children_pending_or_done(final(self)@),
            all_given_accounted(final(self)@),
            final(self)@.given == old(self)@.given,
            old(self)@.frames.len() == 0 ==> r is None && final(self)@ == old(self)@,
            old(self)@.frames.len() > 0 ==> {
                let top = old(self)@.frames.last();
                if !top.listed {
                    &&& r matches Some(WalkStep::List(p)) && p@ == top.path
                    &&& final(self)@ == old(self)@
                } else {
                    &&& r matches Some(WalkStep::Visit(p)) && p@ == top.path
                    &&& final(self)@.frames == old(self)@.frames.drop_last()
                    &&& final(self)@.done == old(self)@.done.push(top.path)
                    &&& forall|k: int|
                        0 <= k < top.children.len() ==> old(self)@.done.contains(
                            #[trigger] top.children[k],
                        )
                }
            },
    {
        let n = self.frames.len();
        if n == 0 {
            return None;
        }
        if !self.frames[n - 1].listed {
            return Some(WalkStep::List(self.frames[n - 1].path.clone()));
        }
        let ghost before = self@;
        proof {
            let top = before.frames.last();
            assert forall|k: int| 0 <= k < top.children.len() implies before.done.contains(
                #[trigger] top.children[k],
            ) by {
                assert(before.frames[n - 1].children[k] == top.children[k]);
                if !before.done.contains(top.children[k]) {
                    let j = choose|j: int|
                        #![trigger before.frames[j].path]
                        n - 1 < j < before.frames.len() && before.frames[j].path
                            == before.frames[n - 1].children[k];
                }
            }
        }
        let f = self.frames.pop().unwrap();
        proof {
            self.done@ = self.done@.push(f.path@);
        }
        let ghost after = self@;
        assert(after.frames =~= before.frames.drop_last());
        assert forall|i: int, k: int|
            0 <= i < after.frames.len() && after.frames[i].listed && 0 <= k
                < after.frames[i].children.len() implies after.done.contains(
            #[trigger] after.frames[i].children[k],
        ) || exists|j: int|
            #![trigger after.frames[j].path]
            i < j < after.frames.len() && after.frames[j].path == after.frames[i].children[k] by {
            let c = before.frames[i].children[k];
            assert(after.frames[i] == before.frames[i]);
            if before.done.contains(c) {
                let x = choose|x: int| 0 <= x < before.done.len() && before.done[x] == c;
                assert(after.done[x] == c);
            } else {
                let j = choose|j: int|
                    #![trigger before.frames[j].path]
                    i < j < before.frames.len() && before.frames[j].path == c;
                if j == n - 1 {
                    assert(after.done[after.done.len() - 1] == c);
                    assert(after.done.contains(c));
                } else {
                    assert(after.frames[j] == before.frames[j]);
                }
            }
        }
        Some(WalkStep::Visit(f.path))
    }

    /// Takes the children listed for the innermost open path: it is marked
    /// listed, and its children are opened, to be walked in the order
    /// listed. Where no open path waits for its listing, nothing changes.
    pub fn children_listed(&mut self, names: Vec<String>)
        requires
            children_pending_or_done(old(self)@),
            all_given_accounted(old(self)@),
        ensures
            children_pending_or_done(final(self)@),
            all_given_accounted(final(self)@),
            final(self)@.done == old(self)@.done,
            old(self)@.frames.len() == 0 || old(self)@.frames.last().listed ==> final(self)@
                == old(self)@,
            old(self)@.frames.len() > 0 && !old(self)@.frames.last().listed ==> {
                let top = old(self)@.frames.last();
                &&& final(self)@.given == old(self)@.given + names@.len()
                &&& final(self)@.frames == old(self)@.frames.drop_last().push(
                    FrameView {
                        path: top.path,
                        listed: true,
                        children: child_paths(top.path, names@),
                    },
                ) + child_frames(top.path, names@)
            },
    {
        let n = self.frames.len();
        if n == 0 || self.frames[n - 1].listed {
            return;
        }
        let ghost before = self@;
        let f = self.frames.pop().unwrap();
        let parent = f.path;
        let ghost kids = child_paths(parent@, names@);
        self.frames.push(Frame { path: parent.clone(), listed: true, children: Ghost(kids) });
        proof {
            self.given@ = self.given@ + names@.len();
        }
        let ghost base = self@;
        assert(base.frames =~= before.frames.drop_last().push(
            FrameView { path: parent@, listed: true, children: kids },
        ));
        let m = names.len();
        let mut i: usize = m;
        while i > 0
            invariant
                m == names@.len(),
                i <= m,
                n >= 1,
                self.done == old(self).done,
                self.given@ == old(self).given@ + m,
                self@.frames == base.frames + child_frames(parent@, names@).take(m - i),
            decreases i,
        {
            let ghost prev = self@;
            let p = child_path(parent.as_str(), names[i - 1].as_str());
            self.frames.push(Frame { path: p, listed: false, children: Ghost(Seq::empty()) });
            proof {
                let all = child_frames(parent@, names@);
                assert(all.take(m - i + 1) =~= all.take(m - i).push(all[m - i]));
                assert(self@.frames =~= prev.frames.push(all[m - i]));
            }
            i = i - 1;
        }
        assert(child_frames(parent@, names@).take(m as int) =~= child_frames(parent@, names@));
        let ghost after = self@;
        assert(after.frames == base.frames + child_frames(parent@, names@));
        assert forall|a: int, k: int|
            0 <= a < after.frames.len() && after.frames[a].listed && 0 <= k
                < after.frames[a].children.len() implies after.done.contains(
            #[trigger] after.frames[a].children[k],
        ) || exists|j: int|
            #![trigger after.frames[j].path]
            a < j < after.frames.len() && after.frames[j].path == after.frames[a].children[k] by {
            if a < n - 1 {
                assert(after.frames[a] == before.frames[a]);
                let c = before.frames[a].children[k];
                if !before.done.contains(c) {
                    let j = choose|j: int|
                        #![trigger before.frames[j].path]
                        a < j < before.frames.len() && before.frames[j].path == c;
                    assert(after.frames[j].path == before.frames[j].path);
                }
            } else if a == n - 1 {
                let j = n - 1 + m - k;
                assert(after.frames[j] == child_frames(parent@, names@)[m - 1 - k]);
                assert(after.frames[j].path == after.frames[a].children[k]);
            } else {
                assert(!after.frames[a].listed);
            }
        }
    }
}

} // verus!
