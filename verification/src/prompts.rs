//! The two prompts that the assistant can be given.

use vstd::prelude::*;

verus! {

/// The prompts, and which of them is in use.
#[derive(Debug, PartialEq)]
pub struct Prompts {
    pub prompt_1: String,
    pub prompt_2: String,
    pub active: u8,
}

/// The prompt that is in use where nothing says which.
pub fn default_active() -> (r: u8)
    ensures
        r == 1,
{
    1
}

impl Default for Prompts {
    fn default() -> (r: Prompts)
        ensures
            r.prompt_1@ == Seq::<char>::empty(),
            r.prompt_2@ == Seq::<char>::empty(),
            r.active == 1,
    {
        let r = Prompts {
            prompt_1: String::new(),
            prompt_2: String::new(),
            active: default_active(),
        };
        assert(r.prompt_1@ =~= Seq::empty() && r.prompt_2@ =~= Seq::empty());
        r
    }
}

impl Prompts {
    /// The prompt that is in use: the second one only where it is asked for.
    pub fn active_text(&self) -> (r: &str)
        ensures
            r@ == if self.active == 2 {
                self.prompt_2@
            } else {
                self.prompt_1@
            },
    {
        if self.active == 2 {
            self.prompt_2.as_str()
        } else {
            self.prompt_1.as_str()
        }
    }
}

} // verus!
