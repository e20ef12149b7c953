//! The conversation with the assistant.

use crate::text;
use crate::text::{chars_of, same_str, trimmed};
use vstd::prelude::*;

verus! {

/// Who says something: the user, the assistant, or this program.
#[derive(Debug, Clone, Copy, PartialEq, Eq, Structural)]
pub enum Role {
    Me,
    Bot,
    Note,
}

/// Something that was said.
#[derive(Debug, PartialEq)]
pub struct Msg {
    pub role: Role,
    pub text: String,
}

/// The conversation.
pub struct Chat {
    pub messages: Vec<Msg>,
    pub pending: bool,
    pub input: String,
    /// The reader has scrolled away from the end.
    pub unstuck: bool,
}

/// What was said, and by whom.
pub open spec fn said(ms: Seq<Msg>) -> Seq<(Role, Seq<char>)> {
    ms.map_values(|m: Msg| (m.role, m.text@))
}

/// What the assistant is told of the conversation: all but the notes, and
/// whether the user said it.
pub open spec fn history_of(ms: Seq<(Role, Seq<char>)>) -> Seq<(bool, Seq<char>)>
    decreases ms.len(),
{
    if ms.len() == 0 {
        Seq::empty()
    } else if ms.last().0 == Role::Note {
        history_of(ms.drop_last())
    } else {
        history_of(ms.drop_last()).push((ms.last().0 == Role::Me, ms.last().1))
    }
}

/// The texts of a history.
pub open spec fn history_views(v: Seq<(bool, String)>) -> Seq<(bool, Seq<char>)> {
    v.map_values(|p: (bool, String)| (p.0, p.1@))
}

/// A note never reaches the assistant, and anything else does, behind what was
/// said before.
pub proof fn notes_stay_out_of_history(ms: Seq<(Role, Seq<char>)>, role: Role, text: Seq<char>)
    ensures
        history_of(ms.push((role, text))) == if role == Role::Note {
            history_of(ms)
        } else {
            history_of(ms).push((role == Role::Me, text))
        },
{
    assert(ms.push((role, text)).drop_last() =~= ms);
}

/// The conversation has more than notes.
pub open spec fn has_dialogue_of(ms: Seq<(Role, Seq<char>)>) -> bool {
    exists|i: int| 0 <= i < ms.len() && (#[trigger] ms[i]).0 != Role::Note
}

/// There is a conversation exactly where the assistant is told something.
pub proof fn dialogue_is_history(ms: Seq<(Role, Seq<char>)>)
    ensures
        has_dialogue_of(ms) == (history_of(ms).len() > 0),
    decreases ms.len(),
{
    if ms.len() > 0 {
        let init = ms.drop_last();
        dialogue_is_history(init);
        if has_dialogue_of(ms) && ms.last().0 == Role::Note {
            let i = choose|i: int| 0 <= i < ms.len() && (#[trigger] ms[i]).0 != Role::Note;
            assert(init[i].0 != Role::Note);
        }
        if has_dialogue_of(init) {
            let i = choose|i: int| 0 <= i < init.len() && (#[trigger] init[i]).0 != Role::Note;
            assert(ms[i].0 != Role::Note);
        }
        if ms.last().0 != Role::Note {
            assert(ms[ms.len() - 1].0 != Role::Note);
        }
    }
}

/// The question in what was typed; none where that is only white space.
pub open spec fn question_of(input: Seq<char>) -> Option<Seq<char>> {
    if text::trim_of(input).len() == 0 {
        None
    } else {
        Some(text::trim_of(input))
    }
}

/// A question is what was typed, without the white space round it, and only
/// white space asks nothing.
pub proof fn question_is_what_was_typed(a: Seq<char>, s: Seq<char>, b: Seq<char>)
    requires
        forall|i: int| 0 <= i < a.len() ==> text::is_space_of(#[trigger] a[i]),
        forall|i: int| 0 <= i < b.len() ==> text::is_space_of(#[trigger] b[i]),
        s.len() > 0 ==> !text::is_space_of(s[0]) && !text::is_space_of(s.last()),
    ensures
        s.len() > 0 ==> question_of(a + s + b) == Some(s),
        s.len() == 0 ==> question_of(a + s + b) is None,
{
    text::trim_takes_only_space(a, s, b);
}

/// What a note makes of what was said.
pub open spec fn noted(before: Seq<(Role, Seq<char>)>, text: Seq<char>) -> Seq<(Role, Seq<char>)> {
    if before.len() > 0 && before.last() == (Role::Note, text) {
        before
    } else {
        before.push((Role::Note, text))
    }
}

/// A note is shown last, once however often it is made, and changes nothing that
/// was said or that the assistant is told.
pub proof fn note_is_made_once(before: Seq<(Role, Seq<char>)>, text: Seq<char>)
    ensures
        noted(before, text).last() == (Role::Note, text),
        noted(noted(before, text), text) == noted(before, text),
        noted(before, text).take(before.len() as int) == before,
        history_of(noted(before, text)) == history_of(before),
{
    notes_stay_out_of_history(before, Role::Note, text);
    assert(noted(before, text).take(before.len() as int) =~= before);
}

impl Default for Chat {
    fn default() -> (r: Chat)
        ensures
            r.messages@ == Seq::<Msg>::empty(),
            !r.pending,
            r.input@ == Seq::<char>::empty(),
            !r.unstuck,
    {
        let r = Chat {
            messages: Vec::new(),
            pending: false,
            input: String::new(),
            unstuck: false,
        };
        assert(r.input@ =~= Seq::empty());
        r
    }
}

impl Chat {
    fn push(&mut self, role: Role, text: String)
        ensures
            said(final(self).messages@) == said(old(self).messages@).push((role, text@)),
            final(self).pending == old(self).pending,
            final(self).input == old(self).input,
            final(self).unstuck == old(self).unstuck,
    {
        self.messages.push(Msg { role, text });
        assert(said(self.messages@) =~= said(old(self).messages@).push((role, text@)));
    }

    pub fn push_user(&mut self, text: String)
        ensures
            said(final(self).messages@) == said(old(self).messages@).push((Role::Me, text@)),
            final(self).pending == old(self).pending,
            final(self).input == old(self).input,
            final(self).unstuck == old(self).unstuck,
    {
        self.push(Role::Me, text);
    }

    pub fn push_bot(&mut self, text: String)
        ensures
            said(final(self).messages@) == said(old(self).messages@).push((Role::Bot, text@)),
            final(self).pending == old(self).pending,
            final(self).input == old(self).input,
            final(self).unstuck == old(self).unstuck,
    {
        self.push(Role::Bot, text);
    }

    /// Puts a note into the conversation, unless the last thing is that note.
    pub fn push_note(&mut self, text: String)
        ensures
            said(final(self).messages@) == noted(said(old(self).messages@), text@),
            final(self).pending == old(self).pending,
            final(self).input == old(self).input,
            final(self).unstuck == old(self).unstuck,
    {
        let n: usize = self.messages.len();
        if n > 0 && self.messages[n - 1].role == Role::Note && same_str(
            self.messages[n - 1].text.as_str(),
            text.as_str(),
        ) {
            return;
        }
        self.push(Role::Note, text);
    }

    /// Whether the conversation has more than notes.
    pub fn has_dialogue(&self) -> (r: bool)
        ensures
            r == has_dialogue_of(said(self.messages@)),
    {
        let ghost all = said(self.messages@);
        let mut i: usize = 0;
        while i < self.messages.len()
            invariant
                i <= self.messages@.len(),
                all == said(self.messages@),
                forall|k: int| 0 <= k < i ==> (#[trigger] all[k]).0 == Role::Note,
            decreases self.messages.len() - i,
        {
            assert(all[i as int] == (self.messages@[i as int].role, self.messages@[i as int].text@));
            if self.messages[i].role != Role::Note {
                return true;
            }
            i = i + 1;
        }
        false
    }

    pub fn set_pending(&mut self, pending: bool)
        ensures
            *final(self) == (Chat { pending, ..*old(self) }),
    {
        self.pending = pending;
    }

    /// What the assistant is told of the conversation.
    pub fn history(&self) -> (r: Vec<(bool, String)>)
        ensures
            history_views(r@) == history_of(said(self.messages@)),
    {
        let ghost all = said(self.messages@);
        let mut out: Vec<(bool, String)> = Vec::new();
        let mut i: usize = 0;
        assert(all.take(0) =~= Seq::empty());
        assert(history_views(out@) =~= Seq::empty());
        while i < self.messages.len()
            invariant
                i <= self.messages@.len(),
                all == said(self.messages@),
                history_views(out@) == history_of(all.take(i as int)),
            decreases self.messages.len() - i,
        {
            let ghost m = (self.messages@[i as int].role, self.messages@[i as int].text@);
            assert(all.take(i + 1).drop_last() =~= all.take(i as int));
            assert(all.take(i + 1).last() == m);
            let ghost was = history_views(out@);
            if self.messages[i].role != Role::Note {
                out.push((self.messages[i].role == Role::Me, self.messages[i].text.clone()));
                assert(history_views(out@) =~= was.push((m.0 == Role::Me, m.1)));
            }
            i = i + 1;
        }
        assert(all.take(all.len() as int) =~= all);
        out
    }

    /// Forgets the conversation.
    pub fn clear(&mut self)
        ensures
            final(self).messages@ == Seq::<Msg>::empty(),
            !final(self).pending,
            final(self).input@ == Seq::<char>::empty(),
            final(self).unstuck == old(self).unstuck,
    {
        self.messages = Vec::new();
        self.pending = false;
        self.input = String::new();
        assert(self.input@ =~= Seq::empty());
    }

    /// Takes what was typed; nothing where it is only white space.
    pub fn submit(&mut self) -> (r: Option<String>)
        ensures
            text::opt_text(r) == question_of(old(self).input@),
            final(self).input@ == Seq::<char>::empty(),
            *final(self) == (Chat { input: final(self).input, ..*old(self) }),
    {
        let q = trimmed(self.input.as_str());
        self.input = String::new();
        assert(self.input@ =~= Seq::empty());
        if chars_of(q.as_str()).len() == 0 {
            None
        } else {
            Some(q)
        }
    }
}

} // verus!
