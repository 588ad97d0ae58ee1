//! The confirmation gate that guards destructive actions: at most one action
//! waits for a yes or no at a time.
use vstd::prelude::*;

verus! {

/// The answer that one frame of input gives to a yes/no question: Enter
/// confirms and Escape declines, over what the buttons said, and the Yes
/// button over the No button. `None` while nothing was said.
pub open spec fn answer_of(no: bool, yes: bool, escape: bool, enter: bool) -> Option<bool> {
    if enter {
        Some(true)
    } else if escape {
        Some(false)
    } else if yes {
        Some(true)
    } else if no {
        Some(false)
    } else {
        None
    }
}

/// Decides the answer of one frame of input; see [`answer_of`].
pub fn confirm_answer(no: bool, yes: bool, escape: bool, enter: bool) -> (r: Option<bool>)
    ensures
        r == answer_of(no, yes, escape, enter),
{
    let mut resp: Option<bool> = None;
    if no {
        resp = Some(false);
    }
    if yes {
        resp = Some(true);
    }
    if escape {
        resp = Some(false);
    }
    if enter {
        resp = Some(true);
    }
    resp
}

/// A yes/no question about one destructive action, identified by an index.
pub struct Gate {
    pending: Option<usize>,
}

impl Gate {
    pub closed spec fn spec_pending(&self) -> Option<usize> {
        self.pending
    }

    /// A gate with nothing pending.
    pub fn new() -> (r: Gate)
        ensures
            r.spec_pending() is None,
    {
        Gate { pending: None }
    }

    /// The action that waits for an answer, if any.
    #[verifier::when_used_as_spec(spec_pending)]
    pub fn pending(&self) -> (r: Option<usize>)
        ensures
            r == self.spec_pending(),
    {
        self.pending
    }

    /// Asks about the action on `index`. While another action waits, the
    /// request is refused and the waiting one is kept.
    pub fn request(&mut self, index: usize) -> (accepted: bool)
        ensures
            accepted == old(self).spec_pending() is None,
            accepted ==> final(self).spec_pending() == Some(index),
            !accepted ==> final(self).spec_pending() == old(self).spec_pending(),
    {
        if self.pending.is_none() {
            self.pending = Some(index);
            true
        } else {
            false
        }
    }

    /// Settles the waiting question with `confirmed`, and returns the action
    /// to carry out: the waiting one when confirmed, none when declined.
    pub fn resolve(&mut self, confirmed: bool) -> (r: Option<usize>)
        ensures
            final(self).spec_pending() is None,
            r == (if confirmed {
                old(self).spec_pending()
            } else {
                None
            }),
    {
        let p = self.pending;
        self.pending = None;
        if confirmed {
            p
        } else {
            None
        }
    }
}

} // verus!
