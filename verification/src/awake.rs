//! Keeping the screen awake.

use vstd::prelude::*;

verus! {

/// What is asked of the screen saver.
#[derive(Debug, Clone, Copy, PartialEq, Eq, Structural)]
pub enum Request {
    /// Nothing.
    Nothing,
    /// To stay away.
    Inhibit,
    /// To come back: the number that it gave.
    UnInhibit(u32),
}

/// The number that the screen saver gave for staying away, where it does.
pub struct Awake {
    pub cookie: Option<u32>,
}

impl Awake {
    pub fn new() -> (r: Awake)
        ensures
            r.cookie is None,
    {
        Awake { cookie: None }
    }

    /// What is asked of the screen saver so that it stays away, or not. Where
    /// it is to come back its number is forgotten.
    pub fn set(&mut self, on: bool) -> (r: Request)
        ensures
            match old(self).cookie {
                None => if on {
                    r == Request::Inhibit && *final(self) == *old(self)
                } else {
                    r == Request::Nothing && *final(self) == *old(self)
                },
                Some(c) => if on {
                    r == Request::Nothing && *final(self) == *old(self)
                } else {
                    r == Request::UnInhibit(c) && final(self).cookie is None
                },
            },
    {
        match self.cookie {
            None => if on {
                Request::Inhibit
            } else {
                Request::Nothing
            },
            Some(c) => if on {
                Request::Nothing
            } else {
                self.cookie = None;
                Request::UnInhibit(c)
            },
        }
    }

    /// The screen saver has answered: with a number, or not.
    pub fn inhibited(&mut self, cookie: Option<u32>)
        ensures
            final(self).cookie == cookie,
    {
        self.cookie = cookie;
    }
}

} // verus!
