//! Serving recordings: which part of a file is asked for.

use crate::text;
use crate::text::{chars_of, contains, parse_u64, split_once, strip_prefix, trim};
use vstd::prelude::*;

verus! {

pub open spec fn number_of(s: Seq<char>) -> Option<nat> {
    text::parse_unsigned_of(s, u64::MAX as nat)
}

/// The first and the last byte that are asked for of a file of `len` bytes: by
/// both of them, by the first, or by how many at the end. There is no part
/// where the request has another form or begins behind the end.
pub open spec fn parse_range_of(header: Seq<char>, len: nat) -> Option<(nat, nat)> {
    match text::strip_prefix_of(text::trim_of(header), "bytes="@) {
        Some(range) if len > 0 && !text::contains_of(range, ","@) => match text::split_once_of(range, "-"@) {
            Some((a, b)) => {
                let from = text::trim_of(a);
                let to = text::trim_of(b);
                if from.len() == 0 {
                    match number_of(to) {
                        Some(want) if want > 0 => Some(
                            (
                                if want >= len {
                                    0
                                } else {
                                    (len - want) as nat
                                },
                                (len - 1) as nat,
                            ),
                        ),
                        _ => None,
                    }
                } else {
                    match number_of(from) {
                        Some(start) => {
                            let end = if to.len() == 0 {
                                Some((len - 1) as nat)
                            } else {
                                match number_of(to) {
                                    Some(n) if n < len => Some(n),
                                    Some(n) => Some((len - 1) as nat),
                                    None => None,
                                }
                            };
                            match end {
                                Some(e) if start <= e => Some((start, e)),
                                _ => None,
                            }
                        },
                        None => None,
                    }
                }
            },
            None => None,
        },
        _ => None,
    }
}

/// What is served lies within the file, and is not empty.
pub proof fn range_lies_within(header: Seq<char>, len: nat)
    ensures
        parse_range_of(header, len) matches Some((a, b)) ==> a <= b < len,
{
}

/// A part that is asked for by its first and last byte is served as far as the
/// file goes, one by its first byte up to the end, and one by how many at the end
/// just these, all of the file where it has fewer.
pub proof fn range_is_what_was_asked(a: nat, b: nat, len: nat)
    requires
        a <= u64::MAX,
        b <= u64::MAX,
    ensures
        parse_range_of("bytes="@ + (text::decimal_of(a) + seq!['-'] + text::decimal_of(b)), len)
            == if a <= b && a < len {
            Some(
                (
                    a,
                    if b < len {
                        b
                    } else {
                        (len - 1) as nat
                    },
                ),
            )
        } else {
            None
        },
        parse_range_of("bytes="@ + (text::decimal_of(a) + seq!['-'] + Seq::empty()), len) == if a
            < len {
            Some((a, (len - 1) as nat))
        } else {
            None
        },
        parse_range_of("bytes="@ + (Seq::empty() + seq!['-'] + text::decimal_of(b)), len) == if b
            == 0 || len == 0 {
            None
        } else if b >= len {
            Some((0nat, (len - 1) as nat))
        } else {
            Some(((len - b) as nat, (len - 1) as nat))
        },
{
    let none = Seq::<char>::empty();
    text::lemma_decimal(a);
    text::lemma_decimal(b);
    assert(text::all_digits(none));
    lemma_range_parts(text::decimal_of(a), text::decimal_of(b));
    lemma_range_parts(text::decimal_of(a), none);
    lemma_range_parts(none, text::decimal_of(b));
    text::decimal_reads_back(a as int);
    text::decimal_reads_back(b as int);
    lemma_digits_trim(text::decimal_of(a));
    lemma_digits_trim(text::decimal_of(b));
    lemma_digits_trim(none);
}

proof fn lemma_digits_trim(s: Seq<char>)
    requires
        text::all_digits(s),
    ensures
        text::trim_of(s) == s,
{
    let none = Seq::<char>::empty();
    if s.len() > 0 {
        assert(text::is_digit_of(s[0]) && text::is_digit_of(s[s.len() - 1]));
        text::trim_takes_only_space(none, s, none);
        assert(none + s + none =~= s);
    }
}

proof fn lemma_range_parts(a: Seq<char>, b: Seq<char>)
    requires
        text::all_digits(a),
        text::all_digits(b),
    ensures
        ({
            let range = a + seq!['-'] + b;
            let header = "bytes="@ + range;
            &&& text::trim_of(header) == header
            &&& text::strip_prefix_of(header, "bytes="@) == Some(range)
            &&& !text::contains_of(range, ","@)
            &&& text::split_once_of(range, "-"@) == Some((a, b))
        }),
{
    let none = Seq::<char>::empty();
    let range = a + seq!['-'] + b;
    let header = "bytes="@ + range;
    reveal_strlit("bytes=");
    reveal_strlit(",");
    reveal_strlit("-");
    assert("-"@ =~= seq!['-']);
    assert(header[0] == 'b');
    assert(header.last() == range.last());
    if b.len() > 0 {
        assert(range.last() == b[b.len() - 1]);
        assert(text::is_digit_of(b[b.len() - 1]));
    } else {
        assert(range.last() == '-');
    }
    text::trim_takes_only_space(none, header, none);
    assert(none + header + none =~= header);
    text::parts_are_found(none, "bytes="@, range);
    text::lemma_find_from(range, ","@, 0);
    if text::contains_of(range, ","@) {
        let i = text::find_of(range, ","@)->Some_0;
        assert(range.subrange(i, i + 1)[0] == ',');
        assert(range[i] == ',');
        if i < a.len() {
            assert(text::is_digit_of(a[i]));
        } else if i > a.len() {
            assert(text::is_digit_of(b[i - a.len() - 1]));
        }
    }
    assert forall|i: int| 0 <= i < a.len() implies a[i] != '-' by {
        assert(text::is_digit_of(a[i]));
    }
    text::split_once_cuts_at_one_place(a, '-', b);
}

/// The first and the last byte that are asked for of a file of `len` bytes.
pub fn parse_range(header: &str, len: u64) -> (r: Option<(u64, u64)>)
    ensures
        match r {
            Some((a, b)) => parse_range_of(header@, len as nat) == Some((a as nat, b as nat)),
            None => parse_range_of(header@, len as nat) is None,
        },
{
    if len == 0 {
        return None;
    }
    let chars = chars_of(header);
    let range = match strip_prefix(trim(chars.as_slice()), chars_of("bytes=").as_slice()) {
        Some(range) => range,
        None => return None,
    };
    if contains(range, chars_of(",").as_slice()) {
        return None;
    }
    let (a, b) = match split_once(range, chars_of("-").as_slice()) {
        Some(pair) => pair,
        None => return None,
    };
    let from = trim(a);
    let to = trim(b);
    if from.len() == 0 {
        return match parse_u64(to) {
            Some(want) => if want == 0 {
                None
            } else if want >= len {
                Some((0, len - 1))
            } else {
                Some((len - want, len - 1))
            },
            None => None,
        };
    }
    let start = match parse_u64(from) {
        Some(n) => n,
        None => return None,
    };
    let end: u64 = if to.len() == 0 {
        len - 1
    } else {
        match parse_u64(to) {
            Some(n) => if n < len {
                n
            } else {
                len - 1
            },
            None => return None,
        }
    };
    if start <= end {
        Some((start, end))
    } else {
        None
    }
}

} // verus!
