//! The settings context: a stack of override frames for the two switches that
//! rendering and comparison read.

use vstd::prelude::*;

verus! {

/// One scope's overrides. `None` leaves a switch to the enclosing scope.
#[derive(Clone, Copy, Debug, PartialEq, Eq, Structural)]
pub struct Frame {
    pub format_tokens: Option<bool>,
    pub ignore_docs_for_tokens: Option<bool>,
}

/// The value of `format_tokens` that a stack of frames gives: the innermost
/// override, `true` where no frame sets one.
pub open spec fn format_tokens_in(frames: Seq<Frame>) -> bool
    decreases frames.len(),
{
    if frames.len() == 0 {
        true
    } else {
        match frames.last().format_tokens {
            Some(value) => value,
            None => format_tokens_in(frames.drop_last()),
        }
    }
}

/// The value of `ignore_docs_for_tokens` that a stack of frames gives: the
/// innermost override, `true` where no frame sets one.
pub open spec fn ignore_docs_in(frames: Seq<Frame>) -> bool
    decreases frames.len(),
{
    if frames.len() == 0 {
        true
    } else {
        match frames.last().ignore_docs_for_tokens {
            Some(value) => value,
            None => ignore_docs_in(frames.drop_last()),
        }
    }
}

/// A stack of frames, outermost first.
pub struct Settings {
    frames: Vec<Frame>,
}

impl View for Settings {
    type V = Seq<Frame>;

    closed spec fn view(&self) -> Seq<Frame> {
        self.frames@
    }
}

impl Frame {
    /// A frame that overrides nothing.
    pub fn new() -> (frame: Frame)
        ensures
            frame == (Frame { format_tokens: None, ignore_docs_for_tokens: None }),
    {
        Frame { format_tokens: None, ignore_docs_for_tokens: None }
    }

    /// This frame with `format_tokens` set.
    pub fn format_tokens(self, value: bool) -> (frame: Frame)
        ensures
            frame == (Frame { format_tokens: Some(value), ..self }),
    {
        Frame { format_tokens: Some(value), ignore_docs_for_tokens: self.ignore_docs_for_tokens }
    }

    /// This frame with `ignore_docs_for_tokens` set.
    pub fn ignore_docs_for_tokens(self, value: bool) -> (frame: Frame)
        ensures
            frame == (Frame { ignore_docs_for_tokens: Some(value), ..self }),
    {
        Frame { format_tokens: self.format_tokens, ignore_docs_for_tokens: Some(value) }
    }
}

impl Settings {
    /// The defaults: no frame.
    pub fn new() -> (settings: Settings)
        ensures
            settings@ == Seq::<Frame>::empty(),
    {
        Settings { frames: Vec::new() }
    }

    /// How many scopes are open.
    pub fn depth(&self) -> (n: usize)
        ensures
            n == self@.len(),
    {
        self.frames.len()
    }

    /// Opens a scope.
    pub fn enter(&mut self, frame: Frame)
        ensures
            final(self)@ == old(self)@.push(frame),
    {
        self.frames.push(frame);
    }

    /// Closes the innermost scope and hands back its frame. With no scope
    /// open, nothing changes.
    pub fn exit(&mut self) -> (closed: Option<Frame>)
        ensures
            old(self)@.len() == 0 ==> closed.is_none() && final(self)@ == old(self)@,
            old(self)@.len() > 0 ==> closed == Some(old(self)@.last()) && final(self)@ == old(
                self,
            )@.drop_last(),
    {
        self.frames.pop()
    }

    /// Closes the scope that was opened as the `depth`-th, with every scope
    /// that was opened inside it and is still open. Where fewer scopes are
    /// open, or `depth` is zero, nothing changes.
    pub fn leave(&mut self, depth: usize)
        ensures
            final(self)@ == left(old(self)@, depth as int),
    {
        if depth == 0 {
            return ;
        }
        assert(self.frames@.take(self.frames@.len() as int) =~= self.frames@);
        while self.frames.len() >= depth
            invariant
                depth >= 1,
                self.frames@.len() <= old(self)@.len(),
                self.frames@.len() >= depth - 1 || self.frames@.len() == old(self)@.len(),
                self.frames@ == old(self)@.take(self.frames@.len() as int),
            decreases self.frames.len(),
        {
            let ghost before = self.frames@;
            self.frames.pop();
            assert(self.frames@ =~= old(self)@.take(before.len() - 1));
        }
        assert(old(self)@.take(old(self)@.len() as int) =~= old(self)@);
    }

    /// The settings as seen inside a scope with `frame`. `self` is not
    /// touched, so whatever way the scope is left, the caller still holds the
    /// configuration it had.
    pub fn scoped(&self, frame: Frame) -> (inner: Settings)
        ensures
            inner@ == self@.push(frame),
    {
        let mut frames: Vec<Frame> = Vec::new();
        let mut i: usize = 0;
        while i < self.frames.len()
            invariant
                i <= self.frames.len(),
                frames@ == self.frames@.take(i as int),
            decreases self.frames.len() - i,
        {
            frames.push(self.frames[i]);
            i += 1;
            assert(frames@ =~= self.frames@.take(i as int));
        }
        assert(self.frames@.take(i as int) =~= self.frames@);
        frames.push(frame);
        Settings { frames }
    }

    /// Whether token trees are formatted when printed.
    pub fn format_tokens(&self) -> (value: bool)
        ensures
            value == format_tokens_in(self@),
    {
        let mut i: usize = self.frames.len();
        assert(self.frames@.take(i as int) =~= self.frames@);
        while i > 0
            invariant
                i <= self.frames.len(),
                format_tokens_in(self.frames@) == format_tokens_in(self.frames@.take(i as int)),
            decreases i,
        {
            assert(self.frames@.take(i as int).last() == self.frames@[i - 1]);
            assert(self.frames@.take(i as int).drop_last() =~= self.frames@.take(i - 1));
            match self.frames[i - 1].format_tokens {
                Some(value) => {
                    return value;
                },
                None => {},
            }
            i -= 1;
        }
        assert(self.frames@.take(0).len() == 0);
        true
    }

    /// Whether documentation attributes are left out of comparison and
    /// printing.
    pub fn ignore_docs_for_tokens(&self) -> (value: bool)
        ensures
            value == ignore_docs_in(self@),
    {
        let mut i: usize = self.frames.len();
        assert(self.frames@.take(i as int) =~= self.frames@);
        while i > 0
            invariant
                i <= self.frames.len(),
                ignore_docs_in(self.frames@) == ignore_docs_in(self.frames@.take(i as int)),
            decreases i,
        {
            assert(self.frames@.take(i as int).last() == self.frames@[i - 1]);
            assert(self.frames@.take(i as int).drop_last() =~= self.frames@.take(i - 1));
            match self.frames[i - 1].ignore_docs_for_tokens {
                Some(value) => {
                    return value;
                },
                None => {},
            }
            i -= 1;
        }
        assert(self.frames@.take(0).len() == 0);
        true
    }
}

/// The stack after the scope that was opened as the `depth`-th has been
/// closed: the frames outside it.
pub open spec fn left(frames: Seq<Frame>, depth: int) -> Seq<Frame> {
    if 1 <= depth <= frames.len() {
        frames.take(depth - 1)
    } else {
        frames
    }
}

/// Leaving a scope restores what was visible before it was entered: the
/// stack is the one it was, and so are both switches.
pub proof fn scope_exit_restores(frames: Seq<Frame>, frame: Frame)
    ensures
        frames.push(frame).drop_last() == frames,
        format_tokens_in(frames.push(frame).drop_last()) == format_tokens_in(frames),
        ignore_docs_in(frames.push(frame).drop_last()) == ignore_docs_in(frames),
{
    assert(frames.push(frame).drop_last() =~= frames);
}

/// A frame that overrides nothing is invisible, and an override wins over
/// everything outside it.
pub proof fn innermost_override_wins(frames: Seq<Frame>, frame: Frame)
    ensures
        format_tokens_in(frames.push(frame)) == match frame.format_tokens {
            Some(value) => value,
            None => format_tokens_in(frames),
        },
        ignore_docs_in(frames.push(frame)) == match frame.ignore_docs_for_tokens {
            Some(value) => value,
            None => ignore_docs_in(frames),
        },
{
    assert(frames.push(frame).drop_last() =~= frames);
    assert(frames.push(frame).last() == frame);
}

} // verus!
