use vstd::prelude::*;

use crate::location::{Location, LocationView};

verus! {

/// The mathematical model of a [`Frame`]: the message of its error, where
/// it was created, and the models of its children, in order.
#[verifier::ext_equal]
pub struct FrameView {
    pub message: Seq<char>,
    pub location: LocationView,
    pub children: Seq<FrameView>,
}

/// The models of a sequence of frames, one for one.
pub open spec fn views(frames: Seq<Frame>) -> Seq<FrameView> {
    Seq::new(frames.len(), |i: int| frames[i]@)
}

/// A frame in the exception tree.
pub struct Frame {
    /// What the error that occurred at this frame displays as.
    error: String,
    /// The source code location where this exception frame was created.
    location: Location,
    /// Child exception frames that provide additional context or source errors.
    children: Vec<Frame>,
}

impl Frame {
    closed spec fn model(self) -> FrameView
        decreases self,
    {
        FrameView {
            message: self.error@,
            location: self.location@,
            children: Seq::new(
                self.children@.len(),
                |i: int|
                    if 0 <= i < self.children@.len() {
                        self.children@[i].model()
                    } else {
                        arbitrary()
                    },
            ),
        }
    }
}

impl View for Frame {
    type V = FrameView;

    closed spec fn view(&self) -> FrameView {
        self.model()
    }
}

impl Frame {
    /// A frame for an error that displays as `error`, created at `location`,
    /// with the given children.
    pub fn new(error: String, location: Location, children: Vec<Frame>) -> (r: Frame)
        ensures
            r@ == (FrameView { message: error@, location: location@, children: views(children@) }),
    {
        let r = Frame { error, location, children };
        assert(r@.children =~= views(children@));
        r
    }

    /// Return the message of the error that occurred at this frame.
    pub fn error(&self) -> (r: &str)
        ensures
            r@ == self@.message,
    {
        self.error.as_str()
    }

    /// Return the source code location where this exception frame was created.
    pub fn location(&self) -> (r: &Location)
        ensures
            r@ == self@.location,
    {
        &self.location
    }

    /// Return a slice of the children of the exception.
    pub fn children(&self) -> (r: &[Frame])
        ensures
            views(r@) == self@.children,
    {
        let r = self.children.as_slice();
        assert(views(r@) =~= self@.children);
        r
    }

    /// The first child of this frame, which is where its cause chain goes on.
    pub fn source(&self) -> (r: Option<&Frame>)
        ensures
            self@.children.len() == 0 ==> r.is_none(),
            self@.children.len() > 0 ==> (r matches Some(c) && c@ == self@.children[0]),
    {
        if self.children.len() == 0 {
            None
        } else {
            Some(&self.children[0])
        }
    }

    /// Adds `child` as the last child of this frame.
    pub(crate) fn push_child(&mut self, child: Frame)
        ensures
            final(self)@ == (FrameView {
                children: old(self)@.children.push(child@),
                ..old(self)@
            }),
    {
        self.children.push(child);
        assert(self@.children =~= old(self)@.children.push(child@));
    }
}

} // verus!
