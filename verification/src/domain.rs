//! Validation of client-supplied topics and texts, and the effective
//! history page size.

use vstd::prelude::*;
use crate::text::{
    all_whitespace, chars_of, lemma_blank_trims_to_empty, lemma_trim_ignores_padding,
    lemma_trim_shape, trim,
    trim_range,
};

verus! {

/// The longest topic accepted, in characters.
pub const MAX_TOPIC_LENGTH: usize = 64;

/// The longest text accepted once trimmed, in characters.
pub const MAX_TEXT_LENGTH: usize = 2000;

/// Why a client-supplied value was refused.
#[derive(Debug, Clone, Copy, PartialEq, Eq, Structural)]
pub enum ValidationError {
    InvalidTopic,
    BadRequest,
}

impl ValidationError {
    /// The error's code word, as the protocol spells it.
    pub fn as_str(&self) -> (s: &'static str)
        ensures
            s@ == match self {
                ValidationError::InvalidTopic => "invalid_topic"@,
                ValidationError::BadRequest => "bad_request"@,
            },
    {
        match self {
            ValidationError::InvalidTopic => "invalid_topic",
            ValidationError::BadRequest => "bad_request",
        }
    }
}

/// A character allowed in a topic: an ASCII letter or digit, or one of `_ - . :`.
pub open spec fn is_topic_char(c: char) -> bool {
    ||| ('a' <= c && c <= 'z')
    ||| ('A' <= c && c <= 'Z')
    ||| ('0' <= c && c <= '9')
    ||| c == '_'
    ||| c == '-'
    ||| c == '.'
    ||| c == ':'
}

/// A topic is 1 to `MAX_TOPIC_LENGTH` characters, each of them allowed.
pub open spec fn is_valid_topic(topic: Seq<char>) -> bool {
    &&& 1 <= topic.len() <= MAX_TOPIC_LENGTH
    &&& forall|i: int| 0 <= i < topic.len() ==> is_topic_char(#[trigger] topic[i])
}

/// A text is valid when, without its leading and trailing whitespace, it
/// is non-empty and at most `MAX_TEXT_LENGTH` characters long.
pub open spec fn is_valid_text(text: Seq<char>) -> bool {
    0 < trim(text).len() <= MAX_TEXT_LENGTH
}

/// The page size that a history request gets: the requested size, or the
/// default when none was requested, capped at `max_limit` and at least 1.
pub open spec fn effective_limit(limit: Option<u32>, default_limit: u32, max_limit: u32) -> u32 {
    let requested = match limit {
        Some(l) => l,
        None => default_limit,
    };
    let capped = if requested <= max_limit {
        requested
    } else {
        max_limit
    };
    if capped >= 1 {
        capped
    } else {
        1
    }
}

/// The page size is never below 1 nor above the cap (or 1, when the cap
/// is 0); a requested size within `1..=max_limit` is kept, and without a
/// request the default is used the same way.
pub proof fn lemma_effective_limit_bounds(limit: Option<u32>, default_limit: u32, max_limit: u32)
    ensures
        1 <= effective_limit(limit, default_limit, max_limit),
        effective_limit(limit, default_limit, max_limit) <= max_limit || effective_limit(
            limit,
            default_limit,
            max_limit,
        ) == 1,
        forall|l: u32|
            limit == Some(l) && 1 <= l <= max_limit ==> effective_limit(
                limit,
                default_limit,
                max_limit,
            ) == l,
        limit is None && 1 <= default_limit <= max_limit ==> effective_limit(
            limit,
            default_limit,
            max_limit,
        ) == default_limit,
{
}

/// A text made only of whitespace, the empty text included, is refused.
pub proof fn lemma_blank_text_invalid(text: Seq<char>)
    requires
        all_whitespace(text),
    ensures
        !is_valid_text(text),
{
    lemma_blank_trims_to_empty(text);
}

/// Whitespace around a text does not change whether it is accepted.
pub proof fn lemma_text_padding_ignored(left: Seq<char>, text: Seq<char>, right: Seq<char>)
    requires
        all_whitespace(left),
        all_whitespace(right),
    ensures
        is_valid_text(left + text + right) == is_valid_text(text),
{
    lemma_trim_ignores_padding(left, text, right);
}

/// The characters allowed in a topic are exactly the ASCII letters
/// `a..=z` and `A..=Z`, the digits `0..=9`, and `_`, `-`, `.` and `:`,
/// given by their code points.
pub proof fn lemma_topic_char_code_points(c: char)
    ensures
        is_topic_char(c) <==> {
            let n = c as u32;
            ||| 97 <= n <= 122
            ||| 65 <= n <= 90
            ||| 48 <= n <= 57
            ||| n == 95
            ||| n == 45
            ||| n == 46
            ||| n == 58
        },
{
}

/// The page size is the requested size (the default when none is
/// requested) brought into `1..=max_limit`: a larger request gets the cap,
/// a request of 0 gets 1, and a cap of 0 gives 1.
pub proof fn lemma_effective_limit_clamps(limit: Option<u32>, default_limit: u32, max_limit: u32)
    ensures
        ({
            let requested = if limit is Some {
                limit->Some_0
            } else {
                default_limit
            };
            &&& requested > max_limit && max_limit >= 1 ==> effective_limit(
                limit,
                default_limit,
                max_limit,
            ) == max_limit
            &&& requested == 0 ==> effective_limit(limit, default_limit, max_limit) == 1
            &&& max_limit == 0 ==> effective_limit(limit, default_limit, max_limit) == 1
            &&& 1 <= requested <= max_limit ==> effective_limit(limit, default_limit, max_limit)
                == requested
        }),
{
}

/// A topic of 1 to 64 characters, each an ASCII letter or digit or one of
/// `_ - . :` (given by code point), is accepted.
pub proof fn lemma_topic_accepted(topic: Seq<char>)
    requires
        1 <= topic.len() <= 64,
        forall|i: int|
            0 <= i < topic.len() ==> {
                let n = #[trigger] topic[i] as u32;
                ||| 97 <= n <= 122
                ||| 65 <= n <= 90
                ||| 48 <= n <= 57
                ||| n == 95
                ||| n == 45
                ||| n == 46
                ||| n == 58
            },
    ensures
        is_valid_topic(topic),
{
    assert forall|i: int| 0 <= i < topic.len() implies is_topic_char(#[trigger] topic[i]) by {
        lemma_topic_char_code_points(topic[i]);
    }
}

/// A topic is refused when it is empty, longer than 64 characters, or has
/// a disallowed character at any position, the first and the last included.
pub proof fn lemma_topic_refused(topic: Seq<char>, i: int)
    ensures
        topic.len() == 0 ==> !is_valid_topic(topic),
        topic.len() > 64 ==> !is_valid_topic(topic),
        0 <= i < topic.len() && !is_topic_char(topic[i]) ==> !is_valid_topic(topic),
{
}

/// A text is accepted whenever it is not all whitespace and, trimmed, is
/// at most 2000 characters long; a single character that is not
/// whitespace, with any whitespace around it, is accepted.
pub proof fn lemma_text_accepted(text: Seq<char>)
    requires
        !all_whitespace(text),
        trim(text).len() <= 2000,
    ensures
        is_valid_text(text),
{
    lemma_trim_shape(text);
}

/// A text is refused exactly when it is all whitespace (the empty text
/// included) or, trimmed, is longer than 2000 characters.
pub proof fn lemma_text_refused(text: Seq<char>)
    ensures
        !is_valid_text(text) <==> (all_whitespace(text) || trim(text).len() > 2000),
{
    lemma_trim_shape(text);
}

fn char_allowed_in_topic(c: char) -> (b: bool)
    ensures
        b == is_topic_char(c),
{
    ('a' <= c && c <= 'z') || ('A' <= c && c <= 'Z') || ('0' <= c && c <= '9') || c == '_' || c
        == '-' || c == '.' || c == ':'
}

/// Accepts a topic of 1 to 64 characters drawn from `[A-Za-z0-9_.:-]`.
pub fn validate_topic(topic: &str) -> (r: Result<(), ValidationError>)
    ensures
        r == if is_valid_topic(topic@) {
            Ok::<(), ValidationError>(())
        } else {
            Err(ValidationError::InvalidTopic)
        },
{
    let chars = chars_of(topic);
    let len = chars.len();
    if len == 0 || len > MAX_TOPIC_LENGTH {
        return Err(ValidationError::InvalidTopic);
    }
    let mut i: usize = 0;
    while i < len
        invariant
            len == chars.len(),
            chars@ == topic@,
            i <= len,
            forall|j: int| 0 <= j < i ==> is_topic_char(#[trigger] chars@[j]),
        decreases len - i,
    {
        if !char_allowed_in_topic(chars[i]) {
            return Err(ValidationError::InvalidTopic);
        }
        i = i + 1;
    }
    Ok(())
}

/// Accepts a text that, trimmed of surrounding whitespace, is non-empty
/// and at most 2000 characters long.
pub fn validate_text(text: &str) -> (r: Result<(), ValidationError>)
    ensures
        r == if is_valid_text(text@) {
            Ok::<(), ValidationError>(())
        } else {
            Err(ValidationError::BadRequest)
        },
{
    let chars = chars_of(text);
    let (start, end) = trim_range(&chars, 0, chars.len());
    assert(chars@.subrange(0, chars@.len() as int) =~= chars@);
    let trimmed_len = end - start;
    if trimmed_len == 0 || trimmed_len > MAX_TEXT_LENGTH {
        Err(ValidationError::BadRequest)
    } else {
        Ok(())
    }
}

/// The history page size: `limit`, or `default_limit` when absent,
/// capped at `max_limit`, and never below 1.
pub fn clamp_history_limit(limit: Option<u32>, default_limit: u32, max_limit: u32) -> (r: u32)
    ensures
        r == effective_limit(limit, default_limit, max_limit),
{
    let requested = match limit {
        Some(l) => l,
        None => default_limit,
    };
    let capped = if requested <= max_limit {
        requested
    } else {
        max_limit
    };
    if capped >= 1 {
        capped
    } else {
        1
    }
}

} // verus!
