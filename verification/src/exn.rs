use vstd::prelude::*;

use crate::frame::{views, Frame, FrameView};
use crate::location::{Location, LocationView};
use crate::render::render;

verus! {

/// The texts of a sequence of strings, one for one.
pub open spec fn texts(strings: Seq<String>) -> Seq<Seq<char>> {
    Seq::new(strings.len(), |i: int| strings[i]@)
}

/// The frames that an error's source chain becomes: the first source is the
/// only child of the new frame, the second the only child of the first, and
/// so on; each of them is created at `location` and holds only the message
/// of its source.
pub open spec fn source_chain(sources: Seq<Seq<char>>, location: LocationView) -> Seq<FrameView>
    decreases sources.len(),
{
    if sources.len() == 0 {
        seq![]
    } else {
        seq![
            FrameView {
                message: sources[0],
                location,
                children: source_chain(sources.drop_first(), location),
            },
        ]
    }
}

/// The frame that a new exception holds: the error's own message and the
/// chain of its sources, all at `location`.
pub open spec fn new_frame(message: Seq<char>, sources: Seq<Seq<char>>, location: LocationView) -> FrameView {
    FrameView { message, location, children: source_chain(sources, location) }
}

/// An exception type that can hold an error tree and additional context.
pub struct Exn<E> {
    // trade one more indirection for less stack size
    frame: Box<Frame>,
    error: E,
}

/// The trees of a sequence of exceptions, one for one.
pub open spec fn trees<T>(exns: Seq<Exn<T>>) -> Seq<FrameView> {
    Seq::new(exns.len(), |i: int| exns[i].tree())
}

/// Builds the frames of `sources[from..]` as a chain, each created at `location`.
fn walk(sources: &Vec<String>, from: usize, location: &Location) -> (r: Vec<Frame>)
    requires
        from <= sources@.len(),
    ensures
        views(r@) == source_chain(texts(sources@).skip(from as int), location@),
    decreases sources@.len() - from,
{
    if from < sources.len() {
        let children = walk(sources, from + 1, location);
        let frame = Frame::new(sources[from].clone(), location.duplicate(), children);
        let r = vec![frame];
        proof {
            let s = texts(sources@).skip(from as int);
            assert(s.drop_first() =~= texts(sources@).skip(from + 1));
            assert(views(r@) =~= source_chain(s, location@));
        }
        r
    } else {
        let r = Vec::new();
        assert(views(r@) =~= source_chain(texts(sources@).skip(from as int), location@));
        r
    }
}

impl<E> Exn<E> {
    /// The tree of frames that this exception holds.
    pub closed spec fn tree(&self) -> FrameView {
        self.frame@
    }

    /// The top-level error of this exception.
    pub closed spec fn top(&self) -> E {
        self.error
    }

    /// Create a new exception with the given error, which displays as
    /// `message` and whose chain of sources displays as `sources` (the
    /// direct source first), created at `location`.
    ///
    /// The sources become the children frames of the new one, each the only
    /// child of the one before; they keep nothing of their errors but these
    /// strings.
    pub fn new(error: E, message: String, sources: Vec<String>, location: Location) -> (r: Exn<E>)
        ensures
            r.top() == error,
            r.tree() == new_frame(message@, texts(sources@), location@),
    {
        let children = walk(&sources, 0, &location);
        assert(texts(sources@).skip(0) =~= texts(sources@));
        let frame = Frame::new(message, location, children);
        Exn { frame: Box::new(frame), error }
    }

    /// Raise a new exception; this will make the current exception a child of the new one.
    ///
    /// `err`, `message`, `sources` and `location` are as in [`Exn::new`].
    pub fn raise<T>(self, err: T, message: String, sources: Vec<String>, location: Location) -> (r: Exn<T>)
        ensures
            r.top() == err,
            r.tree() == (FrameView {
                children: new_frame(message@, texts(sources@), location@).children.push(self.tree()),
                ..new_frame(message@, texts(sources@), location@)
            }),
    {
        let mut new_exn = Exn::new(err, message, sources, location);
        new_exn.frame.push_child(*self.frame);
        new_exn
    }

    /// Create a new exception with the given error and its children.
    ///
    /// `error`, `message`, `sources` and `location` are as in [`Exn::new`];
    /// the frames of `children` follow the source chain, in order.
    pub fn raise_all<T>(
        error: E,
        message: String,
        sources: Vec<String>,
        location: Location,
        children: Vec<Exn<T>>,
    ) -> (r: Exn<E>)
        ensures
            r.top() == error,
            r.tree() == (FrameView {
                children: new_frame(message@, texts(sources@), location@).children + trees(children@),
                ..new_frame(message@, texts(sources@), location@)
            }),
    {
        let mut new_exn = Exn::new(error, message, sources, location);
        let ghost start = new_exn.tree();
        let ghost all = children@;
        let total = children.len();
        let mut rest = children;
        let mut taken: usize = 0;
        while rest.len() > 0
            invariant
                taken + rest@.len() == all.len(),
                all.len() == total,
                rest@ == all.skip(taken as int),
                new_exn.top() == error,
                new_exn.tree() == (FrameView {
                    children: start.children + trees(all.take(taken as int)),
                    ..start
                }),
            decreases rest@.len(),
        {
            let exn = rest.remove(0);
            new_exn.frame.push_child(*exn.frame);
            proof {
                assert(exn == all[taken as int]);
                assert(trees(all.take(taken + 1)) =~= trees(all.take(taken as int)).push(exn.tree()));
                assert(rest@ =~= all.skip(taken + 1));
            }
            taken = taken + 1;
        }
        assert(all.take(taken as int) =~= all);
        new_exn
    }

    /// Return the underlying exception frame.
    pub fn frame(&self) -> (r: &Frame)
        ensures
            r@ == self.tree(),
    {
        &self.frame
    }

    /// Extract the top-level error using move semantics
    pub fn into_error(self) -> (r: E)
        ensures
            r == self.top(),
    {
        self.error
    }

    /// The rendering of the whole tree, as the exception's `Debug` output.
    pub fn to_debug_string(&self) -> (r: String)
        ensures
            r@ == render(self.tree(), 0, seq![]),
    {
        self.frame.to_debug_string()
    }
}

impl<E> core::ops::Deref for Exn<E> {
    type Target = E;

    /// The top-level error.
    fn deref(&self) -> (r: &E)
        ensures
            *r == self.top(),
    {
        &self.error
    }
}

} // verus!
