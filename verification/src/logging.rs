//! Which log filter is used.

use vstd::prelude::*;

use crate::text::{chars_of, split, trim, white_space};

verus! {

use crate::text::{
    is_white_space, law_pieces_hold_the_characters, opt_text, pieces, strings, trimmed,
};
use vstd::utf8::{encode_utf8, is_ascii_chars, is_char_boundary};

/// `=`, before the level of a directive.
pub const EQUALS: u8 = 0x3d;

/// `[`, before the span of a directive.
pub const OPEN_SPAN: u8 = 0x5b;

/// `]`, behind the span of a directive.
pub const CLOSE_SPAN: u8 = 0x5d;

/// `{`, before the fields of a span.
pub const OPEN_FIELDS: u8 = 0x7b;

/// `}`, behind the fields of a span.
pub const CLOSE_FIELDS: u8 = 0x7d;

/// `directives` can be read as a log filter.
pub uninterp spec fn is_filter(directives: Seq<char>) -> bool;

/// The position of the first byte of `bytes` from `from` on that is `one` or `other`; the length
/// where there is none.
pub open spec fn first_either(bytes: Seq<u8>, one: u8, other: u8, from: int) -> int
    decreases bytes.len() - from,
{
    if from >= bytes.len() {
        bytes.len() as int
    } else if bytes[from] == one || bytes[from] == other {
        from
    } else {
        first_either(bytes, one, other, from + 1)
    }
}

/// The position of the first byte of `bytes` from `from` on that is `one` or `other`.
fn find_either(bytes: &[u8], one: u8, other: u8, from: usize) -> (i: usize)
    requires
        from <= bytes@.len(),
    ensures
        i == first_either(bytes@, one, other, from as int),
        from <= i <= bytes@.len(),
{
    let n: usize = bytes.len();
    let mut i: usize = from;
    while i < n
        invariant
            from <= i <= n == bytes@.len(),
            first_either(bytes@, one, other, from as int) == first_either(
                bytes@,
                one,
                other,
                i as int,
            ),
        decreases n - i,
    {
        if bytes[i] == one || bytes[i] == other {
            return i;
        }
        i += 1;
    }
    n
}

/// The reader of filters looks for `=` and for the brackets of a span and its fields in the
/// directive without the white space around it, and cuts the directive with that white space at
/// the places found. No cut goes through a character: the directive is a target alone, or a
/// target with a span, and with the fields of that span or without.
pub open spec fn is_cut_between_characters(directive: Seq<char>) -> bool {
    let whole = encode_utf8(directive);
    let inner = encode_utf8(trimmed(directive));
    let open = first_either(inner, EQUALS, OPEN_SPAN, 0);
    let close = first_either(inner, CLOSE_SPAN, OPEN_FIELDS, open + 1);
    let end = first_either(inner, CLOSE_FIELDS, CLOSE_FIELDS, close + 1);
    ||| open >= inner.len()
    ||| {
        &&& inner[open] == OPEN_SPAN
        &&& close < inner.len()
        &&& is_char_boundary(whole, open)
        &&& is_char_boundary(whole, open + 1)
        &&& is_char_boundary(whole, close)
        &&& if inner[close] == CLOSE_SPAN {
            close + 1 == inner.len()
        } else {
            &&& end + 2 == inner.len()
            &&& inner[end + 1] == CLOSE_SPAN
            &&& is_char_boundary(whole, close + 1)
            &&& is_char_boundary(whole, end)
        }
    }
}

/// Whether the reader of filters cuts the directive between its characters.
fn cut_between_characters(directive: &str) -> (yes: bool)
    ensures
        yes == is_cut_between_characters(directive@),
{
    let text = trim(directive);
    let inner = text.as_str().as_bytes();
    let n: usize = inner.len();
    let open: usize = find_either(inner, EQUALS, OPEN_SPAN, 0);
    if open >= n {
        return true;
    }
    if inner[open] != OPEN_SPAN {
        return false;
    }
    let close: usize = find_either(inner, CLOSE_SPAN, OPEN_FIELDS, open + 1);
    if close >= n || !directive.is_char_boundary(open) || !directive.is_char_boundary(open + 1)
        || !directive.is_char_boundary(close) {
        return false;
    }
    if inner[close] == CLOSE_SPAN {
        return close + 1 == n;
    }
    let end: usize = find_either(inner, CLOSE_FIELDS, CLOSE_FIELDS, close + 1);
    n - end == 2 && inner[end + 1] == CLOSE_SPAN && directive.is_char_boundary(close + 1)
        && directive.is_char_boundary(end)
}

/// The reader of filters can cut the directive: it is all ASCII, or no white space stands before
/// it, or the cuts go between characters all the same.
pub open spec fn can_be_cut(directive: Seq<char>) -> bool {
    ||| is_ascii_chars(directive)
    ||| directive.len() == 0 || !is_white_space(directive[0])
    ||| is_cut_between_characters(directive)
}

/// The text can be handed to the reader of filters, which can cut every directive in it.
pub open spec fn is_sliceable(directives: Seq<char>) -> bool {
    forall|i: int|
        0 <= i < pieces(directives, ',').len() ==> can_be_cut(#[trigger] pieces(directives, ',')[i])
}

/// Whether the reader of filters can cut the directive.
fn cuttable(directive: &str) -> (yes: bool)
    ensures
        yes == can_be_cut(directive@),
{
    if directive.is_ascii() {
        return true;
    }
    let chars = chars_of(directive);
    chars.len() == 0 || !white_space(chars[0]) || cut_between_characters(directive)
}

/// Whether the text can be handed to the reader of filters.
fn sliceable(directives: &str) -> (yes: bool)
    ensures
        yes == is_sliceable(directives@),
{
    let parts = split(directives, ',');
    let ghost views = pieces(directives@, ',');
    let mut i: usize = 0;
    while i < parts.len()
        invariant
            i <= parts@.len(),
            views == pieces(directives@, ','),
            strings(parts@) == views,
            forall|j: int| 0 <= j < i ==> can_be_cut(#[trigger] views[j]),
        decreases parts@.len() - i,
    {
        assert(views[i as int] == parts@[i as int]@);
        if !cuttable(parts[i].as_str()) {
            return false;
        }
        i += 1;
    }
    true
}

/// Trusted: `tracing_subscriber::EnvFilter::try_new` reads a log filter, or reports that one of
/// its directives is not valid. On a text with a directive that it cannot cut it may panic.
#[verifier::external_body]
fn can_filter(directives: &str) -> (yes: bool)
    requires
        is_sliceable(directives@),
    ensures
        yes == is_filter(directives@),
{
    tracing_subscriber::EnvFilter::try_new(directives).is_ok()
}

/// `directives` is a valid filter. A text that is not sliceable is none.
pub open spec fn is_valid(directives: Seq<char>) -> bool {
    is_sliceable(directives) && is_filter(directives)
}

/// Whether `directives` is a valid filter.
fn valid(directives: &str) -> (yes: bool)
    ensures
        yes == is_valid(directives@),
{
    sliceable(directives) && can_filter(directives)
}

/// The filter in use: the one of the environment where it is set and valid, or else the
/// configured level where it is valid, or else `info`.
pub open spec fn chosen_filter(from_env: Option<Seq<char>>, level: Seq<char>) -> Seq<char> {
    if from_env matches Some(directives) && is_valid(directives) {
        from_env->0
    } else if is_valid(level) {
        level
    } else {
        "info"@
    }
}

/// The filter in use, given what is valid.
pub fn choose_filter(
    from_env: Option<String>,
    env_valid: bool,
    level: &str,
    level_valid: bool,
) -> (directives: String)
    ensures
        directives@ == (if from_env is Some && env_valid {
            from_env->0@
        } else if level_valid {
            level@
        } else {
            "info"@
        }),
{
    match from_env {
        Some(directives) => if env_valid {
            directives
        } else if level_valid {
            level.to_owned()
        } else {
            "info".to_owned()
        },
        None => if level_valid {
            level.to_owned()
        } else {
            "info".to_owned()
        },
    }
}

/// The filter in use, given the one of the environment and the configured level.
pub fn build_filter(from_env: Option<String>, level: &str) -> (directives: String)
    ensures
        directives@ == chosen_filter(opt_text(from_env), level@),
{
    let env_valid = match &from_env {
        Some(directives) => valid(directives.as_str()),
        None => false,
    };
    let level_valid = valid(level);
    choose_filter(from_env, env_valid, level, level_valid)
}

/// The filter of the environment is used where it is set and valid, whatever the level is; else
/// the level where it is valid, and else `info`. A filter that is not valid makes no difference.
pub proof fn law_environment_before_level(directives: Seq<char>, level: Seq<char>)
    ensures
        is_valid(directives) ==> chosen_filter(Some(directives), level) == directives,
        !is_valid(directives) ==> chosen_filter(Some(directives), level) == chosen_filter(
            None,
            level,
        ),
        is_valid(level) ==> chosen_filter(None, level) == level,
        !is_valid(level) ==> chosen_filter(None, level) == "info"@,
{
}

/// An ASCII text is valid where it can be read as a filter, and so is any text in which no white
/// space stands.
pub proof fn law_ordinary_texts_are_read_as_filters(directives: Seq<char>)
    requires
        is_ascii_chars(directives) || forall|i: int|
            0 <= i < directives.len() ==> !is_white_space(#[trigger] directives[i]),
    ensures
        is_valid(directives) <==> is_filter(directives),
{
    let parts = pieces(directives, ',');
    if is_ascii_chars(directives) {
        let ascii = |c: char| '\0' <= c <= '\u{7f}';
        law_pieces_hold_the_characters(directives, ',', ascii);
        assert forall|i: int| 0 <= i < parts.len() implies can_be_cut(#[trigger] parts[i]) by {
            assert forall|j: int| 0 <= j < parts[i].len() implies '\0' <= #[trigger] parts[i][j]
                <= '\u{7f}' by {
                assert(ascii(parts[i][j]));
            }
            assert(is_ascii_chars(parts[i]));
        }
    } else {
        let dark = |c: char| !is_white_space(c);
        law_pieces_hold_the_characters(directives, ',', dark);
        assert forall|i: int| 0 <= i < parts.len() implies can_be_cut(#[trigger] parts[i]) by {
            if parts[i].len() > 0 {
                assert(dark(parts[i][0]));
            }
        }
    }
}

/// The filter that is built is that of the environment where it is valid, else the level where it
/// is valid, and else `info`.
pub proof fn law_filter_that_is_built(from_env: Option<String>, level: &str, directives: String)
    requires
        call_ensures(build_filter, (from_env, level), directives),
    ensures
        from_env is Some && is_valid(from_env->0@) ==> directives@ == from_env->0@,
        !(from_env is Some && is_valid(from_env->0@)) && is_valid(level@) ==> directives@ == level@,
        !(from_env is Some && is_valid(from_env->0@)) && !is_valid(level@) ==> directives@
            == "info"@,
{
}

} // verus!
