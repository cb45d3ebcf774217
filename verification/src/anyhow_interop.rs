use vstd::prelude::*;

use crate::exn::{new_frame, texts, Exn};
use crate::frame::{Frame, FrameView};
use crate::location::{Location, LocationView};

verus! {

/// Makes `anyhow::Error` known, as an opaque type, to the contracts below.
#[verifier::external_type_specification]
#[verifier::external_body]
pub struct ExAnyhowError(anyhow::Error);

/// The messages along an `anyhow::Error`'s chain: the `Display` text of the
/// error itself, then of its source, and so on.
pub uninterp spec fn anyhow_messages(err: anyhow::Error) -> Seq<Seq<char>>;

/// Whether every error along an `anyhow::Error`'s chain is a fixed text
/// (made by `anyhow::Error::msg` from a `String`, or added by
/// `anyhow::Error::context` with a `String`), so that its messages are a
/// function of the value.
pub uninterp spec fn anyhow_text_only(err: anyhow::Error) -> bool;

/// Whether an `anyhow::Error`'s chain can be read to its end: following the
/// sources from the error itself stops after finitely many errors, and every
/// one of them displays without failing. It holds of every error built from
/// texts by `anyhow::Error::msg` and `anyhow::Error::context`; it fails of a
/// chain whose sources loop back on themselves.
pub uninterp spec fn anyhow_chain_readable(err: anyhow::Error) -> bool;

/// `anyhow::Error::msg` on a `String`: the result's chain holds that one
/// message, which it displays as it is.
#[verifier::external_body]
fn anyhow_msg(message: String) -> (r: anyhow::Error)
    ensures
        anyhow_text_only(r),
        anyhow_chain_readable(r),
        anyhow_messages(r) == seq![message@],
{
    anyhow::Error::msg(message)
}

/// `anyhow::Error::context` with a `String`: the context becomes the head
/// of the chain, and the error it wraps (the context's source) follows.
#[verifier::external_body]
fn anyhow_context(err: anyhow::Error, context: String) -> (r: anyhow::Error)
    ensures
        anyhow_text_only(err) ==> anyhow_text_only(r),
        anyhow_chain_readable(err) ==> anyhow_chain_readable(r),
        anyhow_text_only(err) ==> anyhow_messages(r) == seq![context@] + anyhow_messages(err),
{
    err.context(context)
}

/// `anyhow::Error::chain`, each error turned into its `Display` text.
/// The chain starts with the error itself, so it is never empty. Reading a
/// chain that does not end, or an error whose `Display` fails, would not
/// return or would panic; `requires` leaves those chains out. Where the
/// errors are not fixed texts, what they display as is theirs to decide,
/// and only the bound on the length is stated.
#[verifier::external_body]
fn anyhow_chain_messages(err: &anyhow::Error) -> (r: Vec<String>)
    requires
        anyhow_chain_readable(*err),
    ensures
        r@.len() >= 1,
        anyhow_text_only(*err) ==> texts(r@) == anyhow_messages(*err),
{
    err.chain().map(|e| e.to_string()).collect()
}

/// A plain message error frame used while converting from `anyhow::Error`.
#[derive(Debug, Clone, PartialEq, Eq)]
pub struct AnyhowError(String);

impl View for AnyhowError {
    type V = Seq<char>;

    closed spec fn view(&self) -> Seq<char> {
        self.0@
    }
}

impl AnyhowError {
    /// An error that displays as `message`.
    pub fn new(message: String) -> (r: AnyhowError)
        ensures
            r@ == message@,
    {
        AnyhowError(message)
    }

    /// What this error displays as: its message.
    pub fn to_string(&self) -> (r: String)
        ensures
            r@ == self@,
    {
        self.0.clone()
    }
}

/// The cause chain of a frame: its message, then the cause chain of its
/// first child, if it has one.
pub open spec fn cause_chain(f: FrameView) -> Seq<Seq<char>>
    decreases f,
{
    if f.children.len() == 0 {
        seq![f.message]
    } else {
        proof {
            assert(decreases_to!(f => f.children));
        }
        seq![f.message] + cause_chain(f.children[0])
    }
}

/// The cause chain follows the first children: it starts with the frame's
/// own message; a frame without children has only that; a frame with
/// children continues with the cause chain of its first child, however many
/// children it has.
pub proof fn law_cause_chain_follows_first_child(f: FrameView)
    ensures
        cause_chain(f).len() >= 1,
        cause_chain(f)[0] == f.message,
        f.children.len() == 0 ==> cause_chain(f) == seq![f.message],
        f.children.len() > 0 ==> cause_chain(f) == seq![f.message] + cause_chain(f.children[0]),
        f.children.len() > 0 ==> cause_chain(f).len() == 1 + cause_chain(f.children[0]).len(),
{
}

/// Appends the messages of the cause chain of `frame` to `out`.
fn push_cause_messages(out: &mut Vec<String>, frame: &Frame)
    ensures
        texts(final(out)@) == texts(old(out)@) + cause_chain(frame@),
    decreases frame@,
{
    out.push(String::from_str(frame.error()));
    assert(texts(out@) =~= texts(old(out)@) + seq![frame@.message]);
    match frame.source() {
        None => {},
        Some(child) => {
            assert(decreases_to!(frame@ => frame@.children));
            push_cause_messages(out, child);
            assert(texts(out@) =~= texts(old(out)@) + cause_chain(frame@));
        },
    }
}

/// The messages of the cause chain of `frame`: its own message, then that
/// of its first child, and so on down the first children.
pub fn cause_messages(frame: &Frame) -> (r: Vec<String>)
    ensures
        texts(r@) == cause_chain(frame@),
{
    let mut out = Vec::new();
    push_cause_messages(&mut out, frame);
    assert(texts(out@) =~= cause_chain(frame@));
    out
}

/// The tree that a cause chain of messages becomes: the first message on
/// top, each following one the only child of the one before. The deepest
/// frame is created at `leaf_location`, every other one at `location`.
pub open spec fn raised_chain(
    messages: Seq<Seq<char>>,
    leaf_location: LocationView,
    location: LocationView,
) -> FrameView
    decreases messages.len(),
{
    if messages.len() <= 1 {
        FrameView { message: messages[0], location: leaf_location, children: seq![] }
    } else {
        FrameView {
            message: messages[0],
            location,
            children: seq![raised_chain(messages.drop_first(), leaf_location, location)],
        }
    }
}

/// The exception that a cause chain of messages becomes: the deepest message
/// is made a new exception at `leaf_location`, then each message before it is
/// raised over the exception so far, at `location`. Every frame holds an
/// [`AnyhowError`] with its message, and the first message is on top.
pub fn from_chain(messages: Vec<String>, leaf_location: Location, location: Location) -> (r: Exn<
    AnyhowError,
>)
    requires
        messages@.len() >= 1,
    ensures
        r.top()@ == messages@[0]@,
        r.tree() == raised_chain(texts(messages@), leaf_location@, location@),
{
    let ghost all = texts(messages@);
    let ghost n = all.len();
    let mut chain = messages;
    let leaf = chain.pop().unwrap();
    let mut exn = Exn::new(AnyhowError(leaf.clone()), leaf, Vec::new(), leaf_location);
    assert(texts(Seq::<String>::empty()) =~= Seq::<Seq<char>>::empty());
    assert(exn.tree() =~= raised_chain(all.subrange(n - 1, n as int), leaf_location@, location@));
    while chain.len() > 0
        invariant
            1 <= chain@.len() + 1 <= n,
            n == all.len(),
            texts(chain@) == all.take(chain@.len() as int),
            exn.top()@ == all[chain@.len() as int],
            exn.tree() == raised_chain(
                all.subrange(chain@.len() as int, n as int),
                leaf_location@,
                location@,
            ),
        decreases chain@.len(),
    {
        let ghost k = chain@.len() - 1;
        let ghost before = chain@;
        let message = chain.pop().unwrap();
        assert(message == before[k]);
        assert(texts(before)[k] == all.take(k + 1)[k]);
        assert(message@ == all[k]);
        assert(texts(chain@) =~= all.take(k));
        exn = exn.raise(AnyhowError(message.clone()), message, Vec::new(), location.duplicate());
        proof {
            let rest = all.subrange(k, n as int);
            assert(rest.drop_first() =~= all.subrange(k + 1, n as int));
            assert(texts(Seq::<String>::empty()) =~= Seq::<Seq<char>>::empty());
            assert(exn.tree().children =~= raised_chain(rest, leaf_location@, location@).children);
        }
    }
    proof {
        assert(all.subrange(0, n as int) =~= all);
    }
    exn
}

/// Convert an `anyhow::Error` into [`Exn`], preserving `anyhow`'s cause chain:
/// the error on top, each of its causes the only child of the one before;
/// the deepest cause is created at `leaf_location`, the others at `location`.
/// The chain must be readable to its end (see [`anyhow_chain_readable`]):
/// one whose sources loop back would never be read through.
pub fn from_anyhow(err: anyhow::Error, leaf_location: Location, location: Location) -> (r: Exn<
    AnyhowError,
>)
    requires
        anyhow_chain_readable(err),
    ensures
        exists|m: Seq<Seq<char>>|
            {
                &&& m.len() >= 1
                &&& r.top()@ == m[0]
                &&& r.tree() == raised_chain(m, leaf_location@, location@)
                &&& anyhow_text_only(err) ==> m == anyhow_messages(err)
            },
{
    let messages = anyhow_chain_messages(&err);
    let ghost m = texts(messages@);
    let r = from_chain(messages, leaf_location, location);
    assert(r.top()@ == m[0]);
    r
}

/// Convert an [`Exn`] into `anyhow::Error`: the messages of its cause chain
/// (the top error, then down the first children) become the anyhow chain.
pub fn into_anyhow<E>(err: Exn<E>) -> (r: anyhow::Error)
    ensures
        anyhow_text_only(r),
        anyhow_chain_readable(r),
        anyhow_messages(r) == cause_chain(err.tree()),
{
    let messages = cause_messages(err.frame());
    let ghost all = texts(messages@);
    assert(all.len() >= 1);
    let n = messages.len();
    let mut chain = messages;
    let leaf = chain.pop().unwrap();
    let mut anyhow_err = anyhow_msg(leaf);
    assert(all.subrange(n - 1, n as int) =~= seq![all[n - 1]]);
    while chain.len() > 0
        invariant
            chain@.len() < n,
            n == all.len(),
            texts(chain@) == all.take(chain@.len() as int),
            anyhow_text_only(anyhow_err),
            anyhow_chain_readable(anyhow_err),
            anyhow_messages(anyhow_err) == all.subrange(chain@.len() as int, n as int),
        decreases chain@.len(),
    {
        let ghost k = chain@.len() - 1;
        let ghost before = chain@;
        let message = chain.pop().unwrap();
        assert(message == before[k]);
        assert(texts(before)[k] == all.take(k + 1)[k]);
        assert(message@ == all[k]);
        assert(texts(chain@) =~= all.take(k));
        anyhow_err = anyhow_context(anyhow_err, message);
        assert(anyhow_messages(anyhow_err) =~= all.subrange(k, n as int));
    }
    assert(all.subrange(0, n as int) =~= all);
    anyhow_err
}

/// An exception made from a message and a chain of sources has, as its
/// cause chain, that message followed by the sources in order: building a
/// new exception, or converting from `anyhow`, loses none of the chain.
pub proof fn lemma_cause_chain_of_new_frame(
    message: Seq<char>,
    sources: Seq<Seq<char>>,
    location: LocationView,
)
    ensures
        cause_chain(new_frame(message, sources, location)) == seq![message] + sources,
    decreases sources.len(),
{
    let f = new_frame(message, sources, location);
    if sources.len() == 0 {
        assert(f.children.len() == 0);
        assert(seq![message] + sources =~= seq![message]);
    } else {
        let rest = sources.drop_first();
        lemma_cause_chain_of_new_frame(sources[0], rest, location);
        assert(f.children[0] == new_frame(sources[0], rest, location));
        assert(seq![message] + (seq![sources[0]] + rest) =~= seq![message] + sources);
    }
}

/// The cause chain of the tree that a cause chain of messages becomes is
/// that chain of messages, wherever its frames are created.
pub proof fn lemma_cause_chain_of_raised_chain(
    messages: Seq<Seq<char>>,
    leaf_location: LocationView,
    location: LocationView,
)
    requires
        messages.len() >= 1,
    ensures
        cause_chain(raised_chain(messages, leaf_location, location)) == messages,
    decreases messages.len(),
{
    if messages.len() == 1 {
        assert(seq![messages[0]] =~= messages);
    } else {
        let rest = messages.drop_first();
        lemma_cause_chain_of_raised_chain(rest, leaf_location, location);
        assert(seq![messages[0]] + rest =~= messages);
    }
}

/// The frame `k` steps down the first children of `f`.
pub open spec fn down_first(f: FrameView, k: nat) -> FrameView
    decreases k,
{
    if k == 0 || f.children.len() == 0 {
        f
    } else {
        down_first(f.children[0], (k - 1) as nat)
    }
}

/// The tree built from a cause chain of messages is a single path with one
/// frame per message, in order: each frame holds its message, has one child
/// except the deepest, which has none, and is created at `location`, except
/// the deepest, which is created at `leaf_location`.
pub proof fn law_raised_chain_frames(
    messages: Seq<Seq<char>>,
    leaf_location: LocationView,
    location: LocationView,
    k: nat,
)
    requires
        messages.len() >= 1,
        k < messages.len(),
    ensures
        down_first(raised_chain(messages, leaf_location, location), k).message == messages[k as int],
        k + 1 < messages.len() ==> down_first(raised_chain(messages, leaf_location, location), k).location == location,
        k + 1 < messages.len() ==> down_first(raised_chain(messages, leaf_location, location), k).children.len() == 1,
        k + 1 == messages.len() ==> down_first(raised_chain(messages, leaf_location, location), k).location
            == leaf_location,
        k + 1 == messages.len() ==> down_first(raised_chain(messages, leaf_location, location), k).children.len() == 0,
    decreases k,
{
    if k > 0 {
        let rest = messages.drop_first();
        law_raised_chain_frames(rest, leaf_location, location, (k - 1) as nat);
        assert(rest[k - 1] == messages[k as int]);
    }
}

/// A new exception is a single path: the frame `k` steps down holds the
/// error's own message for `k == 0` and the `k`-th source otherwise; all of
/// them are created at `location`; each has one child except the deepest.
pub proof fn law_new_frame_frames(
    message: Seq<char>,
    sources: Seq<Seq<char>>,
    location: LocationView,
    k: nat,
)
    requires
        k <= sources.len(),
    ensures
        down_first(new_frame(message, sources, location), k).message == (seq![message] + sources)[k as int],
        down_first(new_frame(message, sources, location), k).location == location,
        k < sources.len() ==> down_first(new_frame(message, sources, location), k).children.len() == 1,
        k == sources.len() ==> down_first(new_frame(message, sources, location), k).children.len() == 0,
    decreases k,
{
    if k > 0 {
        let rest = sources.drop_first();
        law_new_frame_frames(sources[0], rest, location, (k - 1) as nat);
        assert((seq![sources[0]] + rest)[k - 1] == (seq![message] + sources)[k as int]);
    }
}

/// Converting into `anyhow` and back keeps the cause chain: the linear
/// exception rebuilt from the cause chain of any tree has that same cause
/// chain, wherever its frames are said to be created.
pub proof fn law_cause_chain_round_trip(
    f: FrameView,
    leaf_location: LocationView,
    location: LocationView,
)
    ensures
        cause_chain(f).len() >= 1,
        cause_chain(raised_chain(cause_chain(f), leaf_location, location)) == cause_chain(f),
{
    assert(cause_chain(f).len() >= 1);
    lemma_cause_chain_of_raised_chain(cause_chain(f), leaf_location, location);
}

} // verus!
