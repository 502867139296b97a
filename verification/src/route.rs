//! Routes: the chain of frames that leads from the root to the current step.

use vstd::prelude::*;
use vstd::cell::invcell::InvCell;
use vstd::predicate::Predicate;
use crate::file_id::FileId;

verus! {

/// The deepest nesting that a route may reach.
pub const MAX_DEPTH: usize = 64;

/// One link of a route, as contracts see it.
pub struct Frame {
    /// The file that was entered at this link, if the link marks an entry.
    pub id: Option<FileId>,
    /// What this link adds to the nesting depth.
    pub len: nat,
}

/// The sum of the lengths of all frames.
pub open spec fn total_len(frames: Seq<Frame>) -> nat
    decreases frames.len(),
{
    if frames.len() == 0 {
        0
    } else {
        total_len(frames.drop_last()) + frames.last().len
    }
}

/// Whether some frame carries the identity `id`.
pub open spec fn names(frames: Seq<Frame>, id: FileId) -> bool {
    exists|i: int| 0 <= i < frames.len() && (#[trigger] frames[i]).id == Some(id)
}

/// The frames after the last one has grown by one level.
pub open spec fn raised(frames: Seq<Frame>) -> Seq<Frame>
    recommends
        frames.len() > 0,
{
    frames.drop_last().push(Frame { id: frames.last().id, len: frames.last().len + 1 })
}

/// The frames after the last one has shrunk by one level.
pub open spec fn lowered(frames: Seq<Frame>) -> Seq<Frame>
    recommends
        frames.len() > 0,
        frames.last().len > 0,
{
    frames.drop_last().push(Frame { id: frames.last().id, len: (frames.last().len - 1) as nat })
}

/// What a bound cell may hold: `usize::MAX`, which claims nothing, or a number
/// that the counted depth of the outer chain does not exceed.
struct OuterBound {
    outer_depth: nat,
}

impl Predicate<usize> for OuterBound {
    closed spec fn predicate(&self, v: usize) -> bool {
        v == usize::MAX || self.outer_depth <= v
    }
}

/// A shareable reference to a route, as nested routes hold it.
///
/// Only [`Route::track`] hands out handles, so a handle never refers to a link
/// that could have been skipped.
#[derive(Clone, Copy)]
pub struct Handle<'a> {
    route: &'a Route<'a>,
}

/// The route that the compiler took to the current step.
///
/// A route is one link and a handle to the links outside it. The links need
/// not be unique to this route: many nested steps share their outer chain.
pub struct Route<'a> {
    /// The chain outside this link; the root has none.
    outer: Option<Handle<'a>>,
    /// Set if this link was inserted at the start of a module's evaluation.
    id: Option<FileId>,
    /// How much this link adds to the depth. The lengths of all links but the
    /// root make up the depth that is held against a limit.
    len: usize,
    /// A bound on the counted depth of the outer chain that an earlier query
    /// established. The exact depth is never stored: handles to shallow and
    /// deep chains could then not stand for one another.
    upper: InvCell<usize, OuterBound>,
}

impl<'a> View for Route<'a> {
    type V = Seq<Frame>;

    /// The frames of the route, the root first and this link last.
    closed spec fn view(&self) -> Seq<Frame>
        decreases self,
    {
        match self.outer {
            Some(outer) => outer.route.view().push(self.frame()),
            None => seq![self.frame()],
        }
    }
}

impl<'a> View for Handle<'a> {
    type V = Seq<Frame>;

    /// The frames of the route that the handle refers to.
    open spec fn view(&self) -> Seq<Frame> {
        self.target()@
    }
}

impl<'a> Route<'a> {
    /// This link alone.
    spec fn frame(&self) -> Frame {
        Frame { id: self.id, len: self.len as nat }
    }

    /// The handle to the chain outside this link.
    pub closed spec fn parent(&self) -> Option<Handle<'a>> {
        self.outer
    }

    /// The nesting depth: the lengths of all frames together.
    pub open spec fn depth(&self) -> nat {
        total_len(self@)
    }

    /// The length of the root frame.
    pub open spec fn root_len(&self) -> nat {
        self@.first().len
    }

    /// The depth that is held against a limit: the lengths of all frames but
    /// the root.
    pub open spec fn counted_depth(&self) -> nat {
        (self.depth() - self.root_len()) as nat
    }

    /// Whether this link adds an identity or depth to its outer chain.
    pub open spec fn contributes(&self) -> bool {
        self@.last().id is Some || self@.last().len > 0
    }

    /// What [`Route::contains`] answers.
    pub open spec fn spec_contains(&self, id: FileId) -> bool {
        names(self@, id)
    }

    /// What [`Route::within`] answers. A limit of `usize::MAX` is no limit.
    pub open spec fn spec_within(&self, depth: usize) -> bool {
        depth == usize::MAX || self.counted_depth() <= depth
    }

    /// What [`Route::track`] returns.
    pub closed spec fn spec_track(&self) -> Handle<'a> {
        match self.outer {
            Some(outer) if !self.contributes() => outer,
            _ => Handle { route: self },
        }
    }

    /// The cell's bound is the counted depth of the outer chain, and the
    /// handle to the outer chain is one that `track` could have returned.
    #[verifier::type_invariant]
    pub closed spec fn wf(&self) -> bool {
        match self.outer {
            Some(outer) => outer.wf() && self.upper.predicate().outer_depth
                == outer.route.counted_depth(),
            None => self.upper.predicate().outer_depth == 0,
        }
    }

    /// Create a new, empty route.
    pub fn root() -> (r: Self)
        ensures
            r@ == seq![Frame { id: None, len: 0 }],
            r.parent() is None,
    {
        Route { outer: None, id: None, len: 0, upper: InvCell::new(0, Ghost(OuterBound { outer_depth: 0 })) }
    }

    /// Insert a new id into the route.
    ///
    /// The new link adds no depth. It borrows the outer chain, which therefore
    /// outlives it.
    pub fn insert(outer: Handle<'a>, id: FileId) -> (r: Self)
        ensures
            r@ == outer@.push(Frame { id: Some(id), len: 0 }),
            r.parent() == Some(outer),
    {
        proof {
            use_type_invariant(outer);
        }
        Route {
            outer: Some(outer),
            id: Some(id),
            len: 0,
            upper: InvCell::new(
                usize::MAX,
                Ghost(OuterBound { outer_depth: outer.route.counted_depth() }),
            ),
        }
    }

    /// Extend the route without another id.
    ///
    /// The new link adds one level of depth.
    pub fn extend(outer: Handle<'a>) -> (r: Self)
        ensures
            r@ == outer@.push(Frame { id: None, len: 1 }),
            r.parent() == Some(outer),
    {
        proof {
            use_type_invariant(outer);
        }
        Route {
            outer: Some(outer),
            id: None,
            len: 1,
            upper: InvCell::new(
                usize::MAX,
                Ghost(OuterBound { outer_depth: outer.route.counted_depth() }),
            ),
        }
    }

    /// Start tracking this route.
    ///
    /// A link that has an outer chain and adds neither an identity nor depth
    /// to it is skipped: the handle is then the one to the outer chain itself,
    /// not a new one to an equal route.
    pub fn track(&self) -> (h: Handle<'_>)
        ensures
            h == self.spec_track(),
            self.parent() is Some && !self.contributes() ==> Some(h) == self.parent(),
            self.parent() is None || self.contributes() ==> h.target() == *self,
    {
        proof {
            self.lemma_unfold();
        }
        match self.outer {
            Some(outer) if self.id.is_none() && self.len == 0 => outer,
            _ => Handle { route: self },
        }
    }

    /// Increase the nesting depth for this route segment.
    pub fn increase(&mut self)
        requires
            old(self)@.last().len < usize::MAX,
        ensures
            final(self)@ == raised(old(self)@),
            final(self).parent() == old(self).parent(),
    {
        proof {
            use_type_invariant(&*self);
            self.lemma_unfold();
        }
        self.len += 1;
        proof {
            self.lemma_unfold();
        }
    }

    /// Decrease the nesting depth for this route segment.
    ///
    /// Every call undoes one earlier call of [`Route::increase`]; a link whose
    /// length is zero has none left to undo.
    pub fn decrease(&mut self)
        requires
            old(self)@.last().len > 0,
        ensures
            final(self)@ == lowered(old(self)@),
            final(self).parent() == old(self).parent(),
    {
        proof {
            use_type_invariant(&*self);
            self.lemma_unfold();
        }
        self.len -= 1;
        proof {
            self.lemma_unfold();
        }
    }

    /// Whether the route's depth is less than or equal to the given depth.
    ///
    /// The root's own length is not counted, and `usize::MAX` admits every
    /// route. The answer does not depend on earlier queries: the bound that
    /// a query leaves behind only spares later ones the walk to the root.
    pub fn within(&self, depth: usize) -> (b: bool)
        ensures
            b == self.spec_within(depth),
        decreases self@.len(),
    {
        proof {
            use_type_invariant(self);
            self.lemma_unfold();
        }
        if self.upper.get().saturating_add(self.len) <= depth {
            return true;
        }
        match self.outer {
            Some(_) if depth < self.len => false,
            Some(outer) => {
                let within = outer.route.within(depth - self.len);
                if within && depth < self.upper.get() {
                    self.upper.set(depth);
                }
                within
            },
            None => true,
        }
    }

    /// Check whether the nesting depth exceeds the limit.
    pub fn exceeding(&self) -> (b: bool)
        ensures
            b == !self.spec_within(MAX_DEPTH),
            b == (self.counted_depth() > MAX_DEPTH),
    {
        !self.within(MAX_DEPTH)
    }

    /// Whether the given id is part of the route.
    pub fn contains(&self, id: FileId) -> (b: bool)
        ensures
            b == self.spec_contains(id),
        decreases self@.len(),
    {
        proof {
            self.lemma_unfold();
            match self.outer {
                Some(outer) => lemma_push(outer.route@, self.frame(), id),
                None => lemma_push(Seq::empty(), self.frame(), id),
            }
        }
        self.id == Some(id) || match self.outer {
            Some(outer) => outer.route.contains(id),
            None => false,
        }
    }
}

impl<'a> Handle<'a> {
    /// The route that the handle refers to.
    pub closed spec fn target(&self) -> Route<'a> {
        *self.route
    }

    /// A handle refers to the root or to a link that contributes.
    #[verifier::type_invariant]
    pub closed spec fn wf(&self) -> bool {
        self.route.outer is None || self.route.contributes()
    }

    /// The route that the handle refers to.
    pub fn route(&self) -> (r: &'a Route<'a>)
        ensures
            *r == self.target(),
    {
        self.route
    }

    /// Whether the given id is part of the route.
    pub fn contains(&self, id: FileId) -> (b: bool)
        ensures
            b == self.target().spec_contains(id),
    {
        self.route.contains(id)
    }

    /// Whether the route's depth is less than or equal to the given depth.
    pub fn within(&self, depth: usize) -> (b: bool)
        ensures
            b == self.target().spec_within(depth),
    {
        self.route.within(depth)
    }
}

impl Default for Route<'_> {
    /// The default route is the empty one.
    fn default() -> (r: Self)
        ensures
            r@ == seq![Frame { id: None, len: 0 }],
            r.parent() is None,
    {
        Self::root()
    }
}

impl<'a> Clone for Route<'a> {
    /// The copy is a link of its own to the same outer chain, with the bound
    /// that this link holds at the moment.
    fn clone(&self) -> (r: Self)
        ensures
            r@ == self@,
            r.parent() == self.parent(),
    {
        proof {
            use_type_invariant(self);
        }
        let r = Route {
            outer: self.outer,
            id: self.id,
            len: self.len,
            upper: InvCell::new(self.upper.get(), Ghost(self.upper.predicate())),
        };
        proof {
            self.lemma_unfold();
            r.lemma_unfold();
        }
        r
    }
}

impl<'a> Route<'a> {
    /// How the view and the depths of a route are made of this link and of
    /// the outer chain.
    proof fn lemma_unfold(&self)
        ensures
            self@.len() >= 1,
            self@.last() == self.frame(),
            match self.outer {
                Some(outer) => {
                    &&& self@ == outer.route@.push(self.frame())
                    &&& self.root_len() == outer.route.root_len()
                    &&& self.depth() == outer.route.depth() + self.len
                    &&& self.counted_depth() == outer.route.counted_depth() + self.len
                },
                None => {
                    &&& self@ == seq![self.frame()]
                    &&& self.depth() == self.len
                    &&& self.counted_depth() == 0
                },
            },
        decreases self,
    {
        match self.outer {
            Some(outer) => {
                outer.route.lemma_unfold();
                assert(self@.drop_last() == outer.route@);
                lemma_total_len_covers(outer.route@, 0);
            },
            None => {
                assert(self@.drop_last() == Seq::<Frame>::empty());
                assert(total_len(self@.drop_last()) == 0);
            },
        }
    }
}

/// No frame is longer than all frames together.
pub proof fn lemma_total_len_covers(frames: Seq<Frame>, i: int)
    requires
        0 <= i < frames.len(),
    ensures
        frames[i].len <= total_len(frames),
    decreases frames.len(),
{
    if i < frames.len() - 1 {
        lemma_total_len_covers(frames.drop_last(), i);
    }
}

/// A frame that is put on adds its length to the total and its identity, if
/// it has one, to those that the frames name.
pub proof fn lemma_push(frames: Seq<Frame>, frame: Frame, id: FileId)
    ensures
        total_len(frames.push(frame)) == total_len(frames) + frame.len,
        names(frames.push(frame), id) == (names(frames, id) || frame.id == Some(id)),
{
    let longer = frames.push(frame);
    assert(longer.drop_last() == frames);
    if frame.id == Some(id) {
        assert(longer[frames.len() as int].id == Some(id));
    }
    if names(frames, id) {
        let i = choose|i: int| 0 <= i < frames.len() && (#[trigger] frames[i]).id == Some(id);
        assert(longer[i].id == Some(id));
    }
    if names(longer, id) && frame.id != Some(id) {
        let i = choose|i: int| 0 <= i < longer.len() && (#[trigger] longer[i]).id == Some(id);
        assert(frames[i].id == Some(id));
    }
}

/// Raising the last frame adds one level, lowering it takes one level away,
/// one undoes the other, and neither changes which identities are named.
pub proof fn lemma_raise_lower(frames: Seq<Frame>, id: FileId)
    requires
        frames.len() > 0,
    ensures
        lowered(raised(frames)) == frames,
        total_len(raised(frames)) == total_len(frames) + 1,
        names(raised(frames), id) == names(frames, id),
        frames.last().len > 0 ==> {
            &&& raised(lowered(frames)) == frames
            &&& total_len(lowered(frames)) == total_len(frames) - 1
            &&& names(lowered(frames), id) == names(frames, id)
        },
{
    let rest = frames.drop_last();
    let last = frames.last();
    assert(frames == rest.push(last));
    lemma_push(rest, last, id);
    let up = Frame { id: last.id, len: last.len + 1 };
    assert(raised(frames).drop_last() == rest);
    lemma_push(rest, up, id);
    if last.len > 0 {
        let down = Frame { id: last.id, len: (last.len - 1) as nat };
        assert(lowered(frames).drop_last() == rest);
        lemma_push(rest, down, id);
    }
}

impl<'a> Route<'a> {
    /// A route is its outer chain and one more frame: the root is a single
    /// frame, and every other route holds the frames of its outer chain
    /// before its own.
    pub proof fn lemma_frames(&self)
        ensures
            self@.len() >= 1,
            self.depth() == self.counted_depth() + self.root_len(),
            match self.parent() {
                Some(outer) => {
                    &&& self@ == outer@.push(self@.last())
                    &&& self.depth() == outer.target().depth() + self@.last().len
                    &&& self.counted_depth() == outer.target().counted_depth() + self@.last().len
                },
                None => self@.len() == 1 && self.counted_depth() == 0,
            },
    {
        self.lemma_unfold();
        lemma_total_len_covers(self@, 0);
    }

    /// A query holds the nesting depth against the limit: the route is within
    /// the limit exactly if the lengths of its frames sum to no more.
    ///
    /// Two kinds of query are left out, those on which this is not so. The
    /// root's own length is not counted, so a limit that the frames above the
    /// root meet is met, whatever the root adds. And `usize::MAX` is no limit
    /// at all, also for a depth beyond it.
    pub proof fn lemma_within_measures_depth(&self, depth: usize)
        requires
            !(self.counted_depth() <= depth < self.depth()),
            depth < usize::MAX || self.depth() <= usize::MAX,
        ensures
            self.spec_within(depth) == (self.depth() <= depth),
    {
        self.lemma_frames();
    }

    /// A route whose depth is within a limit is never turned away.
    pub proof fn lemma_within_accepts(&self, depth: usize)
        requires
            self.depth() <= depth,
        ensures
            self.spec_within(depth),
    {
        self.lemma_frames();
    }

    /// A route that is within a limit is within every greater one.
    pub proof fn lemma_within_monotonic(&self, depth: usize, greater: usize)
        requires
            depth <= greater,
            self.spec_within(depth),
        ensures
            self.spec_within(greater),
    {
    }

    /// What a query answers depends on the frames alone. Two routes with the
    /// same frames get the same answers, whatever bounds earlier queries have
    /// left in them.
    pub proof fn lemma_answers_depend_on_frames(&self, other: &Route, depth: usize, id: FileId)
        requires
            self@ == other@,
        ensures
            self.spec_within(depth) == other.spec_within(depth),
            self.spec_contains(id) == other.spec_contains(id),
    {
    }

    /// A link with an outer chain that adds nothing to it is skipped: its
    /// handle is the handle to its outer chain, which in turn is the very
    /// handle that the outer chain gives of itself.
    pub proof fn lemma_track_skips_idle_link(&self)
        requires
            self.wf(),
            self.parent() is Some,
            !self.contributes(),
        ensures
            self.spec_track() == self.parent().unwrap(),
            self.spec_track() == self.parent().unwrap().target().spec_track(),
    {
        self.lemma_unfold();
        let outer = self.outer.unwrap();
        outer.route.lemma_unfold();
    }

    /// Every other link stands for itself.
    pub proof fn lemma_track_keeps_link(&self)
        requires
            self.parent() is None || self.contributes(),
        ensures
            self.spec_track().target() == *self,
            self.spec_track().wf(),
    {
        self.lemma_unfold();
    }
}

impl<'a> Handle<'a> {
    /// A handle refers to the root or to a link that adds to its outer chain.
    pub proof fn lemma_target_contributes(&self)
        requires
            self.wf(),
        ensures
            self.target().parent() is None || self.target().contributes(),
            self.target().spec_track() == *self,
    {
        self.route.lemma_unfold();
    }
}

} // verus!
