//! Answering a message of the other side's staff.

use crate::deepseek;
use crate::text;
use crate::text::{cat, chars_of, lines, lossy, push_to, string_of, trimmed};
use vstd::prelude::*;

verus! {

/// How far the answer is.
#[derive(Debug, PartialEq, Eq)]
pub enum HrReplyState {
    Idle,
    Running,
    Done,
    Error(String),
}

/// The message in the clipboard: what was printed of it without the white space
/// around it.
pub fn message(pasted: &[u8]) -> (r: Result<String, String>)
    ensures
        deepseek::result_view(r) == if text::trim_of(text::lossy_of(pasted@)).len() == 0 {
            Err("буфер пуст — скопируй сообщение HR"@)
        } else {
            Ok(text::trim_of(text::lossy_of(pasted@)))
        },
{
    let t = trimmed(lossy(pasted).as_str());
    if chars_of(t.as_str()).len() == 0 {
        Err("буфер пуст — скопируй сообщение HR".to_owned())
    } else {
        Ok(t)
    }
}

/// The words of the command that writes the answer.
pub fn args(profile: &str) -> (r: Vec<String>)
    ensures
        text::texts(r@) == seq!["reply-hr"@, "--profile"@, profile@],
{
    let mut v: Vec<String> = Vec::new();
    push_to(&mut v, "reply-hr");
    push_to(&mut v, "--profile");
    push_to(&mut v, profile);
    assert(text::texts(v@) =~= seq!["reply-hr"@, "--profile"@, profile@]);
    v
}

/// The last line of a text, or the other text where there is none.
pub open spec fn last_line_or(s: Seq<char>, other: Seq<char>) -> Seq<char> {
    let ls = text::lines_of(s);
    if ls.len() == 0 {
        other
    } else {
        ls.last()
    }
}

/// The last line of a text, or the other text where there is none.
pub fn last_line(s: &str, other: &str) -> (r: String)
    ensures
        r@ == last_line_or(s@, other@),
{
    let chars = chars_of(s);
    let ls = lines(chars.as_slice());
    if ls.len() == 0 {
        other.to_owned()
    } else {
        assert(text::views(ls@).last() == ls@[ls@.len() - 1]@);
        string_of(ls[ls.len() - 1])
    }
}

/// The answer, from what the command printed and whether it went well.
pub open spec fn answer_of(success: bool, printed: Seq<char>, failed: Seq<char>) -> Result<
    Seq<char>,
    Seq<char>,
> {
    if !success {
        Err("LLM не ответила: "@ + last_line_or(failed, "ошибка LLM"@))
    } else if text::trim_of(printed).len() == 0 {
        Err("пустой ответ LLM"@)
    } else {
        Ok(text::trim_of(printed))
    }
}

/// The answer, from what the command printed, or why there is none.
pub fn answer(success: bool, stdout: &[u8], stderr: &[u8]) -> (r: Result<String, String>)
    ensures
        deepseek::result_view(r) == answer_of(
            success,
            text::lossy_of(stdout@),
            text::lossy_of(stderr@),
        ),
{
    if !success {
        let last = last_line(lossy(stderr).as_str(), "ошибка LLM");
        return Err(cat("LLM не ответила: ", last.as_str()));
    }
    let reply = trimmed(lossy(stdout).as_str());
    if chars_of(reply.as_str()).len() == 0 {
        return Err("пустой ответ LLM".to_owned());
    }
    Ok(reply)
}

/// How far the answer is once it was tried.
pub fn finished(result: Result<(), String>) -> (r: HrReplyState)
    ensures
        match (result, r) {
            (Ok(_), HrReplyState::Done) => true,
            (Err(e), HrReplyState::Error(shown)) => shown@ == e@,
            _ => false,
        },
{
    match result {
        Ok(_) => HrReplyState::Done,
        Err(e) => HrReplyState::Error(e),
    }
}

} // verus!
