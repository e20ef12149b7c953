//! The clipboard.

use crate::text;
use crate::text::{chars_of, lossy, string_of};
use vstd::prelude::*;
use vstd::slice::slice_subrange;

verus! {

/// A longer text does not go through the clipboard manager, in bytes.
pub const KLIPPER_ARG_LIMIT: usize = 100_000;

/// A text without the line end that was put behind it.
pub open spec fn strip_trailing_newline_of(s: Seq<char>) -> Seq<char> {
    if s.len() > 0 && s.last() == '\n' {
        s.drop_last()
    } else {
        s
    }
}

/// A text comes back as it was from a manager that prints it with a line end.
pub proof fn printed_text_comes_back(t: Seq<char>)
    ensures
        strip_trailing_newline_of(t.push('\n')) == t,
{
    assert(t.push('\n').drop_last() =~= t);
}

/// A text without the line end that was put behind it.
pub fn strip_trailing_newline(s: String) -> (r: String)
    ensures
        r@ == strip_trailing_newline_of(s@),
{
    let chars = chars_of(s.as_str());
    let n: usize = chars.len();
    if n > 0 && chars[n - 1] == '\n' {
        let r = string_of(slice_subrange(chars.as_slice(), 0, n - 1));
        assert(r@ =~= s@.drop_last());
        r
    } else {
        s
    }
}

/// What is in the clipboard, from what its manager printed; nothing where it
/// failed.
pub fn get(printed: Option<&[u8]>) -> (r: Option<String>)
    ensures
        text::opt_text(r) == match printed {
            Some(bytes) => Some(strip_trailing_newline_of(text::lossy_of(bytes@))),
            None => None,
        },
{
    match printed {
        Some(bytes) => Some(strip_trailing_newline(lossy(bytes))),
        None => None,
    }
}

/// How a text is put into the clipboard.
#[derive(Debug, Clone, Copy, PartialEq, Eq, Structural)]
pub enum Way {
    /// Through its manager.
    Manager,
    /// Through the tool that takes any length.
    Tool,
    /// It is there.
    Done,
}

/// How a text is put into the clipboard: through its manager where it is short
/// enough, and otherwise, or where that has failed, through the other tool.
/// `tried` is whether the manager has taken it, once it was asked.
pub fn set(text: &str, tried: Option<bool>) -> (r: Way)
    ensures
        r == match tried {
            Some(true) => Way::Done,
            Some(false) => Way::Tool,
            None => if vstd::utf8::encode_utf8(text@).len() < KLIPPER_ARG_LIMIT {
                Way::Manager
            } else {
                Way::Tool
            },
        },
{
    match tried {
        Some(true) => Way::Done,
        Some(false) => Way::Tool,
        None => if text.as_bytes().len() < KLIPPER_ARG_LIMIT {
            Way::Manager
        } else {
            Way::Tool
        },
    }
}

} // verus!
