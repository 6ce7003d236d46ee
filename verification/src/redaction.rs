//! Paths as they may be shown: a location under the user's home keeps its tail, any
//! other is not echoed. A path that starts with the home but leads elsewhere is no
//! location under the home, and under a home without a name there is none.

use crate::host::{home_dir, home_of, ref_bytes, Host};
use crate::observation::{canonical_spec, text_answer, Facts, Observations, Query, Question};
use crate::path::{
    base_ends_within_root, climbs_out, ends_within_root, join_of, law_joined_paths_lie_under,
    law_paths_spell_their_text, law_verbatim_paths_lie_under, law_windows_paths_lie_under,
    law_windows_prefixes, leads_under, lies_under, names_from, path_text, physical_root,
    prefix_of, windows_prefix, NativePath, Platform, Separators, BACKSLASH, COLON, DOT,
    QUESTION_MARK, SLASH,
};
use crate::text::{
    ascii_lower, ascii_lower_char, chars_of, forward_slashes, law_characters_change_one_by_one,
    law_trimmed_marks, lowercase, same_chars_from, same_text, sub_text, trim_end_mark,
    trim_end_matches, with_forward_slashes,
};
use vstd::prelude::*;
use vstd::utf8::{
    encode_scalar, encode_utf8, has_width_1_encoding, has_width_2_encoding, has_width_3_encoding,
    is_ascii_chars, is_ascii_chars_encode_utf8, last_continuation_byte, leading_byte_width_1,
    leading_byte_width_2, leading_byte_width_3, leading_byte_width_4,
    second_last_continuation_byte, third_last_continuation_byte,
};

verus! {

/// The text of a path with forward slashes.
pub open spec fn normalized_text(platform: Platform, path: Seq<u8>) -> Seq<char> {
    forward_slashes(path_text(platform, path))
}

/// What a path's text is compared by: no slashes at its end, and in Windows style
/// no upper case.
pub open spec fn comparison_text(text: Seq<char>, windows_style: bool) -> Seq<char> {
    if windows_style {
        ascii_lower(trim_end_mark(text, '/'))
    } else {
        trim_end_mark(text, '/')
    }
}

/// Whether the second byte of a text is a colon, as after a drive letter.
pub open spec fn has_drive_colon(text: Seq<char>) -> bool {
    encode_utf8(text).len() > 1 && encode_utf8(text)[1] == COLON
}

/// Whether two path texts are compared in Windows style.
pub open spec fn windows_style(
    platform: Platform,
    path_text: Seq<char>,
    home_text: Seq<char>,
) -> bool {
    platform == Platform::Windows || has_drive_colon(path_text) || has_drive_colon(home_text)
}

/// What is shown of a path whose text must not be echoed.
pub open spec fn hidden_location() -> Seq<char> {
    "local path redacted"@
}

/// Whether a path whose text goes on after that of the user's home lies under the home.
/// Both are read as they are spelled, and in Windows style as Windows reads them. A
/// home that is only a part of the path's root, as a bare server or drive is, holds all
/// that the root holds.
pub open spec fn keeps_to_home(
    platform: Platform,
    path: Seq<char>,
    home: Seq<char>,
    style: bool,
) -> bool {
    if style {
        let (path, home) = (encode_utf8(ascii_lower(path)), encode_utf8(ascii_lower(home)));
        ends_within_root(path, home) || lies_under(Platform::Windows, path, home)
    } else {
        lies_under(platform, encode_utf8(path), encode_utf8(home))
    }
}

/// What follows the user's home in a path below it, as it is shown: on Windows in its
/// own spelling, elsewhere as it was compared.
pub open spec fn shown_tail(
    platform: Platform,
    path_text: Seq<char>,
    path_value: Seq<char>,
    home_value: Seq<char>,
) -> Seq<char> {
    if platform == Platform::Windows {
        path_text.skip(home_value.len() as int + 1)
    } else {
        path_value.skip(home_value.len() as int + 1)
    }
}

/// What is shown of a path, given the user's home, both as they are spelled. Nothing
/// lies under a home without a name, and a path that leads out of the home again does
/// not lie under it.
pub open spec fn redacted_text(
    platform: Platform,
    path: Seq<char>,
    home: Seq<char>,
) -> Seq<char> {
    let path_text = forward_slashes(path);
    let home_text = forward_slashes(home);
    let style = windows_style(platform, path_text, home_text);
    let path_value = comparison_text(path_text, style);
    let home_value = comparison_text(home_text, style);
    if path_value == home_value {
        "~"@
    } else if home.len() > 0 && home_value.push('/').is_prefix_of(path_value) && keeps_to_home(
        platform,
        path,
        home,
        style,
    ) {
        "~/"@ + shown_tail(platform, path_text, path_value, home_value)
    } else {
        hidden_location()
    }
}

/// What is shown of a path, given the user's home and what is known of the disk.
pub open spec fn redact_with_home(
    platform: Platform,
    path: Seq<u8>,
    home: Option<Seq<u8>>,
    facts: Facts,
) -> Result<Seq<char>, Question> {
    match home {
        None => Ok(hidden_location()),
        Some(home) => match canonical_spec(facts, path) {
            Err(question) => Err(question),
            Ok(path) => match canonical_spec(facts, home) {
                Err(question) => Err(question),
                Ok(home) => Ok(
                    redacted_text(platform, path_text(platform, path), path_text(platform, home)),
                ),
            },
        },
    }
}

/// What is shown of a path on a machine.
pub open spec fn redact_on(host: Host, path: Seq<u8>, facts: Facts) -> Result<Seq<char>, Question> {
    redact_with_home(host.platform, path, home_of(host), facts)
}

/// The text of a path with forward slashes.
pub fn normalized_path(platform: Platform, path: &NativePath) -> (text: String)
    ensures
        text@ == normalized_text(platform, path@),
{
    let text = path.to_string_lossy(platform);
    with_forward_slashes(text.as_str())
}

/// What a path's text is compared by.
pub fn path_comparison_value(value: &str, windows_style: bool) -> (comparable: String)
    ensures
        comparable@ == comparison_text(value@, windows_style),
{
    let trimmed = trim_end_matches(value, '/');
    if windows_style {
        lowercase(trimmed.as_str())
    } else {
        trimmed
    }
}

/// Whether the second byte of a text is a colon, as after a drive letter.
fn second_byte_is_colon(text: &str) -> (yes: bool)
    ensures
        yes == has_drive_colon(text@),
{
    let bytes = text.as_bytes();
    bytes.len() > 1 && bytes[1] == COLON
}

/// Whether a path whose text goes on after that of the user's home lies under the home.
fn stays_under_home(platform: Platform, path: &str, home: &str, style: bool) -> (yes: bool)
    ensures
        yes == keeps_to_home(platform, path@, home@, style),
{
    if !style {
        return leads_under(platform, path.as_bytes(), home.as_bytes());
    }
    let lower_path = lowercase(path);
    let lower_home = lowercase(home);
    let path = lower_path.as_str().as_bytes();
    let home = lower_home.as_str().as_bytes();
    base_ends_within_root(path, home) || leads_under(Platform::Windows, path, home)
}

/// What is shown of a path, given its text and that of the user's home, both as they
/// are spelled.
pub fn redact_text(platform: Platform, path: &str, home: &str) -> (shown: String)
    ensures
        shown@ == redacted_text(platform, path@, home@),
{
    let path_text = with_forward_slashes(path);
    let home_text = with_forward_slashes(home);
    let style = platform == Platform::Windows || second_byte_is_colon(path_text.as_str())
        || second_byte_is_colon(home_text.as_str());
    let path_value = path_comparison_value(path_text.as_str(), style);
    let home_value = path_comparison_value(home_text.as_str(), style);
    if same_text(path_value.as_str(), home_value.as_str()) {
        return "~".to_owned();
    }
    let mut prefix = chars_of(home_value.as_str());
    prefix.push('/');
    let chars = chars_of(path_value.as_str());
    proof {
        assert(prefix@ == home_value@.push('/'));
        lemma_comparison_len(path_text@, style);
    }
    if !home.is_empty() && prefix.len() <= chars.len() && same_chars_from(
        chars.as_slice(),
        0,
        prefix.as_slice(),
    ) && stays_under_home(platform, path, home, style) {
        let source = if platform == Platform::Windows {
            chars_of(path_text.as_str())
        } else {
            chars
        };
        let tail = sub_text(source.as_slice(), prefix.len(), source.len());
        assert(tail@ == source@.skip(prefix@.len() as int));
        let mut shown = "~/".to_owned();
        shown.append(tail.as_str());
        return shown;
    }
    "local path redacted".to_owned()
}

/// What is shown of a path, given the user's home.
pub fn redact_path_with_home(
    platform: Platform,
    path: &NativePath,
    home: Option<&NativePath>,
    observations: &Observations,
) -> (shown: Result<String, Query>)
    ensures
        text_answer(shown) == redact_with_home(platform, path@, ref_bytes(home), observations@),
{
    let home = match home {
        Some(home) => home,
        None => {
            return Ok("local path redacted".to_owned());
        },
    };
    let path = match observations.canonical_or_original(path) {
        Ok(path) => path,
        Err(query) => {
            return Err(query);
        },
    };
    let home = match observations.canonical_or_original(home) {
        Ok(home) => home,
        Err(query) => {
            return Err(query);
        },
    };
    let path_text = path.to_string_lossy(platform);
    let home_text = home.to_string_lossy(platform);
    Ok(redact_text(platform, path_text.as_str(), home_text.as_str()))
}

/// What is shown of a path on a machine.
pub fn redact_path(host: &Host, path: &NativePath, observations: &Observations) -> (shown: Result<
    String,
    Query,
>)
    ensures
        text_answer(shown) == redact_on(*host, path@, observations@),
{
    let home = home_dir(host);
    redact_path_with_home(host.platform, path, home.as_ref(), observations)
}

/// Trimming never lengthens a text, and leaves one alone that does not end in the mark.
proof fn lemma_trim_end(text: Seq<char>, mark: char)
    ensures
        trim_end_mark(text, mark).len() <= text.len(),
        text.len() == 0 || text.last() != mark ==> trim_end_mark(text, mark) == text,
    decreases text.len(),
{
    if text.len() > 0 && text.last() == mark {
        lemma_trim_end(text.drop_last(), mark);
    }
}

/// What a text is compared by is never longer than the text.
proof fn lemma_comparison_len(text: Seq<char>, style: bool)
    ensures
        comparison_text(text, style).len() <= text.len(),
{
    lemma_trim_end(text, '/');
}

/// The user's home itself is shown as `~`, with or without slashes at its end.
pub proof fn law_home_is_shown_as_tilde(platform: Platform, path: Seq<char>, home: Seq<char>)
    requires
        trim_end_mark(forward_slashes(path), '/') == trim_end_mark(forward_slashes(home), '/'),
    ensures
        redacted_text(platform, path, home) == "~"@,
{
}

/// Nothing lies under a home without a name: but for a path that has no name either,
/// nothing of any path is shown.
pub proof fn law_a_nameless_home_hides_everything(platform: Platform, path: Seq<char>)
    ensures
        redacted_text(platform, path, Seq::<char>::empty()) == (if trim_end_mark(
            forward_slashes(path),
            '/',
        ).len() == 0 {
            "~"@
        } else {
            hidden_location()
        }),
{
    let home = Seq::<char>::empty();
    let path_text = forward_slashes(path);
    let style = windows_style(platform, path_text, forward_slashes(home));
    let trimmed = trim_end_mark(path_text, '/');
    assert(forward_slashes(home) =~= home);
    assert(ascii_lower(home) =~= home);
    assert(comparison_text(path_text, style).len() == trimmed.len());
    if trimmed.len() == 0 {
        assert(comparison_text(path_text, style) =~= home);
    }
}

/// How a path compares whose text is that of the user's home, a slash and a tail.
proof fn lemma_below_home(
    platform: Platform,
    path_text: Seq<char>,
    home_text: Seq<char>,
    tail: Seq<char>,
)
    requires
        path_text == trim_end_mark(home_text, '/').push('/') + tail,
        trim_end_mark(tail, '/').len() > 0,
    ensures
        ({
            let style = windows_style(platform, path_text, home_text);
            let path_value = comparison_text(path_text, style);
            let home_value = comparison_text(home_text, style);
            &&& path_value != home_value
            &&& home_value.push('/').is_prefix_of(path_value)
            &&& shown_tail(platform, path_text, path_value, home_value) == (if platform
                == Platform::Windows {
                tail
            } else {
                comparison_text(tail, style)
            })
        }),
{
    let home = trim_end_mark(home_text, '/');
    let style = windows_style(platform, path_text, home_text);
    let path_value = comparison_text(path_text, style);
    let home_value = comparison_text(home_text, style);
    let cut = home.len() as int + 1;
    lemma_trim_longer(home.push('/'), tail);
    assert(path_text.skip(cut) =~= tail);
    assert(path_value.take(home_value.len() as int + 1) =~= home_value.push('/'));
    assert(path_value.skip(home_value.len() as int + 1) =~= comparison_text(tail, style));
}

/// Trimming a text trims its back, where anything of the back stays.
proof fn lemma_trim_longer(front: Seq<char>, back: Seq<char>)
    requires
        trim_end_mark(back, '/').len() > 0,
    ensures
        trim_end_mark(front + back, '/') == front + trim_end_mark(back, '/'),
    decreases back.len(),
{
    assert((front + back).drop_last() =~= front + back.drop_last());
    assert((front + back).last() == back.last());
    if back.last() == '/' {
        lemma_trim_longer(front, back.drop_last());
    }
}

/// A path under the user's home is shown by its tail alone: whatever the home is
/// called, nothing of it is shown but what the tail spells. Off Windows, a tail compared
/// in Windows style is shown in lower case.
pub proof fn law_only_the_tail_is_shown(
    platform: Platform,
    path: Seq<char>,
    home: Seq<char>,
    tail: Seq<char>,
)
    requires
        home.len() > 0,
        forward_slashes(path) == trim_end_mark(forward_slashes(home), '/').push('/') + tail,
        tail.len() > 0,
        tail.last() != '/',
        keeps_to_home(
            platform,
            path,
            home,
            windows_style(platform, forward_slashes(path), forward_slashes(home)),
        ),
    ensures
        ({
            let style = windows_style(platform, forward_slashes(path), forward_slashes(home));
            redacted_text(platform, path, home) == "~/"@ + (if style && platform
                != Platform::Windows {
                ascii_lower(tail)
            } else {
                tail
            })
        }),
{
    lemma_trim_end(tail, '/');
    lemma_below_home(platform, forward_slashes(path), forward_slashes(home), tail);
}

/// The bytes of two texts, one after the other, are those of the texts, one after the
/// other.
proof fn lemma_encode_concat(first: Seq<char>, second: Seq<char>)
    ensures
        encode_utf8(first + second) == encode_utf8(first) + encode_utf8(second),
    decreases first.len(),
{
    if first.len() == 0 {
        assert(first + second =~= second);
        assert(encode_utf8(first) + encode_utf8(second) =~= encode_utf8(second));
    } else {
        let head = encode_scalar(first[0] as u32);
        lemma_encode_concat(first.drop_first(), second);
        assert((first + second).drop_first() =~= first.drop_first() + second);
        assert(head + (encode_utf8(first.drop_first()) + encode_utf8(second)) =~= head
            + encode_utf8(first.drop_first()) + encode_utf8(second));
    }
}

/// The bytes of a character begin or end with a separator only where the character is
/// that separator.
proof fn lemma_encode_char(c: char)
    ensures
        encode_utf8(seq![c]).len() > 0,
        c != '/' ==> encode_utf8(seq![c])[0] != SLASH && encode_utf8(seq![c]).last() != SLASH,
        c != '\\' ==> encode_utf8(seq![c]).last() != BACKSLASH,
{
    let scalar = c as u32;
    assert(seq![c].drop_first() =~= Seq::<char>::empty());
    assert(encode_utf8(Seq::<char>::empty()) =~= Seq::<u8>::empty());
    assert(encode_utf8(seq![c]) =~= encode_scalar(scalar));
    lemma_scalar_bytes(scalar);
}

/// The bytes of a scalar value past ASCII are past ASCII too.
proof fn lemma_scalar_bytes(scalar: u32)
    by (bit_vector)
    ensures
        has_width_1_encoding(scalar) ==> leading_byte_width_1(scalar) == scalar,
        has_width_2_encoding(scalar) ==> leading_byte_width_2(scalar) >= 0x80,
        has_width_3_encoding(scalar) ==> leading_byte_width_3(scalar) >= 0x80,
        leading_byte_width_4(scalar) >= 0x80,
        last_continuation_byte(scalar) >= 0x80,
{
}

/// What follows the user's home in a path, as a run of names.
pub open spec fn tail_names(tail: Seq<char>, style: bool) -> Seq<Seq<u8>> {
    if style {
        names_from(encode_utf8(ascii_lower(tail)), 0, Separators::Either, false)
    } else {
        names_from(encode_utf8(tail), 0, Separators::Slash, false)
    }
}

/// A path that goes on after the user's home with names that do not climb out of it
/// lies under the home. A verbatim path of Windows is left out here: its names are
/// parted by backslashes alone.
pub proof fn law_what_does_not_climb_out_keeps_to_home(
    platform: Platform,
    home: Seq<char>,
    tail: Seq<char>,
    style: bool,
)
    requires
        platform == Platform::Windows ==> style,
        home.len() > 0,
        home.last() != '/',
        style ==> home.last() != '\\',
        !style ==> tail.len() > 0 && tail[0] != '/',
        !climbs_out(tail_names(tail, style)),
        style ==> !prefix_of(
            Platform::Windows,
            encode_utf8(ascii_lower(home.push('/') + tail)),
        ).0.is_verbatim(),
    ensures
        keeps_to_home(platform, home.push('/') + tail, home, style),
{
    let path = home.push('/') + tail;
    if style {
        lemma_encode_ends(ascii_lower(home), ascii_lower(tail));
        assert(ascii_lower(path) =~= ascii_lower(home).push('/') + ascii_lower(tail));
        law_windows_paths_lie_under(
            encode_utf8(ascii_lower(home)),
            encode_utf8(ascii_lower(tail)),
            SLASH,
        );
    } else {
        let (base, relative) = (encode_utf8(home), encode_utf8(tail));
        lemma_encode_ends(home, tail);
        lemma_first_byte(tail);
        law_joined_paths_lie_under(platform, base, relative);
        assert(join_of(platform, base, relative) =~= base.push(SLASH) + relative);
    }
}

/// The bytes of a text that does not start with a slash do not start with one.
proof fn lemma_first_byte(text: Seq<char>)
    requires
        text.len() > 0,
        text[0] != '/',
    ensures
        encode_utf8(text).len() > 0,
        encode_utf8(text)[0] != SLASH,
{
    lemma_encode_char(text[0]);
    lemma_encode_concat(seq![text[0]], text.drop_first());
    assert(seq![text[0]] + text.drop_first() =~= text);
}

/// The bytes of a text that ends in no slash, then a slash, then another text.
proof fn lemma_encode_ends(front: Seq<char>, back: Seq<char>)
    requires
        front.len() > 0,
        front.last() != '/',
    ensures
        encode_utf8(front).len() > 0,
        encode_utf8(front).last() != SLASH,
        front.last() != '\\' ==> encode_utf8(front).last() != BACKSLASH,
        encode_utf8(front.push('/') + back) == encode_utf8(front).push(SLASH) + encode_utf8(back),
{
    let last = seq![front.last()];
    let slash = seq!['/'];
    assert(front =~= front.drop_last() + last);
    lemma_encode_concat(front.drop_last(), last);
    lemma_encode_char(front.last());
    assert(front.push('/') =~= front + slash);
    lemma_encode_concat(front, slash);
    lemma_encode_concat(front.push('/'), back);
    lemma_scalar_bytes('/' as u32);
    assert(slash.drop_first() =~= Seq::<char>::empty());
    assert(encode_utf8(Seq::<char>::empty()) =~= Seq::<u8>::empty());
    assert(encode_utf8(slash) =~= seq![SLASH]);
    assert(encode_utf8(front) + seq![SLASH] =~= encode_utf8(front).push(SLASH));
}

/// A path that starts with the user's home but lies elsewhere is not echoed.
pub proof fn law_paths_that_leave_home_are_hidden(
    platform: Platform,
    path: Seq<char>,
    home: Seq<char>,
)
    requires
        !keeps_to_home(
            platform,
            path,
            home,
            windows_style(platform, forward_slashes(path), forward_slashes(home)),
        ),
    ensures
        redacted_text(platform, path, home) == "~"@ || redacted_text(platform, path, home)
            == hidden_location(),
{
}

/// Whatever is shown of a path is a fixed text that does not depend on the path, the
/// home's sign for the home itself, or the home's sign with what follows the home in a
/// path that lies under the home.
pub proof fn law_outside_paths_are_not_echoed(
    platform: Platform,
    path: Seq<char>,
    home: Seq<char>,
)
    ensures
        ({
            let style = windows_style(platform, forward_slashes(path), forward_slashes(home));
            let path_value = comparison_text(forward_slashes(path), style);
            let home_value = comparison_text(forward_slashes(home), style);
            let shown = redacted_text(platform, path, home);
            let tail = shown.skip(2);
            ||| shown == hidden_location()
            ||| shown == "~"@ && path_value == home_value
            ||| {
                &&& shown == "~/"@ + tail
                &&& home.len() > 0
                &&& keeps_to_home(platform, path, home, style)
                &&& path_value == home_value.push('/') + (if platform == Platform::Windows {
                    comparison_text(tail, true)
                } else {
                    tail
                })
            }
        }),
{
    let path_text = forward_slashes(path);
    let style = windows_style(platform, path_text, forward_slashes(home));
    let path_value = comparison_text(path_text, style);
    let home_value = comparison_text(forward_slashes(home), style);
    let tail = shown_tail(platform, path_text, path_value, home_value);
    if path_value != home_value && home_value.push('/').is_prefix_of(path_value) {
        reveal_strlit("~/");
        let cut = home_value.len() + 1;
        assert(("~/"@ + tail).skip(2) =~= tail);
        assert(path_value =~= home_value.push('/') + path_value.skip(cut as int));
        if platform == Platform::Windows {
            lemma_trim_tail(path_text, cut as int);
            assert(path_value =~= home_value.push('/') + comparison_text(tail, true));
        }
    }
}

/// Trimming the tail of a text trims the text, as long as the cut is kept.
proof fn lemma_trim_tail(text: Seq<char>, cut: int)
    requires
        0 <= cut <= trim_end_mark(text, '/').len(),
    ensures
        trim_end_mark(text.skip(cut), '/') == trim_end_mark(text, '/').skip(cut),
        ascii_lower(trim_end_mark(text.skip(cut), '/')) == ascii_lower(
            trim_end_mark(text, '/'),
        ).skip(cut),
    decreases text.len(),
{
    lemma_trim_end(text, '/');
    if text.len() > 0 && text.last() == '/' {
        lemma_trim_end(text.drop_last(), '/');
        lemma_trim_tail(text.drop_last(), cut);
        assert(text.skip(cut).drop_last() =~= text.drop_last().skip(cut));
    } else {
        lemma_trim_end(text.skip(cut), '/');
    }
    assert(ascii_lower(trim_end_mark(text, '/').skip(cut)) =~= ascii_lower(
        trim_end_mark(text, '/'),
    ).skip(cut));
}

/// Without a home nothing of any path is shown, and nothing need be known of the disk.
pub proof fn law_without_a_home_nothing_is_shown(platform: Platform, path: Seq<u8>, facts: Facts)
    ensures
        redact_with_home(platform, path, None, facts) == Ok::<_, Question>(hidden_location()),
{
}

/// A question that redaction raises has no answer yet, and an answer stays once more
/// is known.
pub proof fn law_redaction_is_stable(host: Host, path: Seq<u8>, facts: Facts, later: Facts)
    requires
        facts.is_part_of(later),
    ensures
        redact_on(host, path, facts) matches Err(question) ==> !facts.answers(question),
        redact_on(host, path, facts) is Ok ==> redact_on(host, path, later) == redact_on(
            host,
            path,
            facts,
        ),
{
}

/// Whether a text starts with an ASCII character and a colon, as a drive does.
pub open spec fn starts_like_a_drive(text: Seq<char>) -> bool {
    text.len() >= 2 && text[0] as u32 <= 0x7f && text[1] == ':'
}

/// The second bytes of scalar values past ASCII are past ASCII too.
proof fn lemma_second_bytes(scalar: u32)
    by (bit_vector)
    ensures
        second_last_continuation_byte(scalar) >= 0x80,
        third_last_continuation_byte(scalar) >= 0x80,
{
}

/// The bytes of one character: one byte where it is ASCII, and else bytes past ASCII
/// first and second.
proof fn lemma_char_bytes(c: char)
    ensures
        c as u32 <= 0x7f ==> encode_utf8(seq![c]).len() == 1,
        encode_utf8(seq![c]).len() > 0,
        encode_utf8(seq![c])[0] == COLON <==> c == ':',
        c as u32 > 0x7f ==> encode_utf8(seq![c]).len() >= 2 && encode_utf8(seq![c])[0] >= 0x80
            && encode_utf8(seq![c])[1] >= 0x80,
{
    let scalar = c as u32;
    assert(seq![c].drop_first() =~= Seq::<char>::empty());
    assert(encode_utf8(Seq::<char>::empty()) =~= Seq::<u8>::empty());
    assert(encode_utf8(seq![c]) =~= encode_scalar(scalar));
    lemma_scalar_bytes(scalar);
    lemma_second_bytes(scalar);
}

/// The second byte of a text is a colon just where the text starts like a drive.
proof fn lemma_drive_colon(text: Seq<char>)
    ensures
        has_drive_colon(text) == starts_like_a_drive(text),
{
    let bytes = encode_utf8(text);
    if text.len() > 0 {
        let rest = text.drop_first();
        assert(seq![text[0]] + rest =~= text);
        lemma_encode_concat(seq![text[0]], rest);
        lemma_char_bytes(text[0]);
        let first = encode_utf8(seq![text[0]]);
        assert(bytes == first + encode_utf8(rest));
        if first.len() >= 2 && first[1] >= 0x80 {
            assert(bytes[1] == first[1]);
        } else if rest.len() > 0 {
            let more = rest.drop_first();
            assert(seq![rest[0]] + more =~= rest);
            lemma_encode_concat(seq![rest[0]], more);
            lemma_char_bytes(rest[0]);
            assert(bytes[1] == encode_utf8(seq![rest[0]])[0]);
        } else {
            assert(encode_utf8(rest) =~= Seq::<u8>::empty());
        }
    }
}

/// Whether upper and lower case count as one where two locations are compared: on
/// Windows, and where either starts like a drive.
pub open spec fn folds_case(platform: Platform, path: Seq<char>, home: Seq<char>) -> bool {
    ||| platform == Platform::Windows
    ||| starts_like_a_drive(forward_slashes(path))
    ||| starts_like_a_drive(forward_slashes(home))
}

/// Whether two texts count as the same.
pub open spec fn counts_as(left: Seq<char>, right: Seq<char>, fold: bool) -> bool {
    if fold {
        ascii_lower(left) == ascii_lower(right)
    } else {
        left == right
    }
}

/// Whether a text is made of slashes alone.
pub open spec fn are_slashes(text: Seq<char>) -> bool {
    forall|i: int| 0 <= i < text.len() ==> #[trigger] text[i] == '/'
}

/// Whether a text is another one and slashes, and the other one does not end in a slash.
pub open spec fn is_with_slashes(text: Seq<char>, plain: Seq<char>) -> bool {
    &&& plain.is_prefix_of(text)
    &&& are_slashes(text.skip(plain.len() as int))
    &&& plain.len() > 0 ==> plain.last() != '/'
}

/// Whether a path leads to a place under the user's home, as far as the two tell: on its
/// own terms, and where case is folded on those of Windows, a bare server or drive
/// holding all that its root holds.
pub open spec fn is_located_under(
    platform: Platform,
    path: Seq<char>,
    home: Seq<char>,
    fold: bool,
) -> bool {
    if fold {
        ||| lies_under(
            Platform::Windows,
            encode_utf8(ascii_lower(path)),
            encode_utf8(ascii_lower(home)),
        )
        ||| ends_within_root(encode_utf8(ascii_lower(path)), encode_utf8(ascii_lower(home)))
    } else {
        lies_under(platform, encode_utf8(path), encode_utf8(home))
    }
}

/// What is shown of a path in all cases, with `p` and `h` for the texts of the path and
/// of the home, slashes turned and left out at the end: the home's sign alone where the
/// two count as one; the home's sign, a slash and the rest of the path where the path
/// goes on after the home with a slash, lies under the home, and the home has a name;
/// and else the fixed text. The rest is shown in its own spelling on Windows, and else
/// without slashes at its end, in lower case where case was folded.
pub proof fn law_what_is_shown(
    platform: Platform,
    path: Seq<char>,
    home: Seq<char>,
    p: Seq<char>,
    h: Seq<char>,
)
    requires
        is_with_slashes(forward_slashes(path), p),
        is_with_slashes(forward_slashes(home), h),
    ensures
        ({
            let fold = folds_case(platform, path, home);
            let cut = h.len() as int;
            let shown = redacted_text(platform, path, home);
            if counts_as(p, h, fold) {
                shown == "~"@
            } else if home.len() > 0 && p.len() > cut && p[cut] == '/' && counts_as(
                p.take(cut),
                h,
                fold,
            ) && is_located_under(platform, path, home, fold) {
                shown == "~/"@ + (if platform == Platform::Windows {
                    forward_slashes(path).skip(cut + 1)
                } else if fold {
                    ascii_lower(p.skip(cut + 1))
                } else {
                    p.skip(cut + 1)
                })
            } else {
                shown == "local path redacted"@
            }
        }),
{
    let path_text = forward_slashes(path);
    let home_text = forward_slashes(home);
    let fold = folds_case(platform, path, home);
    let cut = h.len() as int;
    lemma_drive_colon(path_text);
    lemma_drive_colon(home_text);
    assert(windows_style(platform, path_text, home_text) == fold);
    assert(path_text =~= p + path_text.skip(p.len() as int));
    assert(home_text =~= h + home_text.skip(h.len() as int));
    law_trimmed_marks(p, path_text.skip(p.len() as int), '/');
    law_trimmed_marks(h, home_text.skip(h.len() as int), '/');
    assert(trim_end_mark(path_text, '/') == p);
    assert(trim_end_mark(home_text, '/') == h);
    let path_value = comparison_text(path_text, fold);
    let home_value = comparison_text(home_text, fold);
    assert(home_value.len() == cut);
    assert(path_value.len() == p.len());
    let goes_on = p.len() > cut && p[cut] == '/' && counts_as(p.take(cut), h, fold);
    if goes_on {
        if fold {
            assert(path_value.take(cut) =~= ascii_lower(p.take(cut)));
        }
        assert(path_value.take(cut + 1) =~= home_value.push('/'));
        assert(home_value.push('/').is_prefix_of(path_value));
    }
    if home_value.push('/').is_prefix_of(path_value) {
        assert(path_value.take(cut + 1) =~= home_value.push('/'));
        assert(path_value[cut] == home_value.push('/')[cut]);
        if fold {
            assert(path_value[cut] == ascii_lower(p)[cut]);
            assert(ascii_lower(p.take(cut)) =~= path_value.take(cut));
            assert(path_value.take(cut) =~= home_value.push('/').take(cut));
            assert(home_value.push('/').take(cut) =~= home_value);
        } else {
            assert(p.take(cut) =~= home_value.push('/').take(cut));
            assert(home_value.push('/').take(cut) =~= home_value);
        }
    }
    if fold && p.len() > cut {
        assert(ascii_lower(p).skip(cut + 1) =~= ascii_lower(p.skip(cut + 1)));
    }
}

/// A trimmed text is the text without slashes at its end.
proof fn lemma_with_slashes(text: Seq<char>)
    ensures
        is_with_slashes(text, trim_end_mark(text, '/')),
    decreases text.len(),
{
    let plain = trim_end_mark(text, '/');
    if text.len() > 0 && text.last() == '/' {
        let before = text.drop_last();
        lemma_with_slashes(before);
        assert(plain =~= text.take(plain.len() as int)) by {
            assert(plain =~= before.take(plain.len() as int));
            assert(before.take(plain.len() as int) =~= text.take(plain.len() as int));
        }
        let rest = text.skip(plain.len() as int);
        assert forall|i: int| 0 <= i < rest.len() implies #[trigger] rest[i] == '/' by {
            if i < before.skip(plain.len() as int).len() {
                assert(before.skip(plain.len() as int)[i] == '/');
            }
        }
    } else {
        assert(text.skip(text.len() as int).len() == 0);
    }
}

/// Whether what follows a home in a Windows path stays under the home: below a verbatim
/// home, names parted by backslashes, and else names parted by either separator, that do
/// not climb out.
pub open spec fn stays_below(home: Seq<char>, mark: char, tail: Seq<char>) -> bool {
    let base = encode_utf8(ascii_lower(home));
    let relative = encode_utf8(ascii_lower(tail));
    if windows_prefix(base).0.is_verbatim() {
        &&& mark == '\\'
        &&& physical_root(Platform::Windows, base)
        &&& !climbs_out(names_from(relative, 0, Separators::Backslash, true))
    } else {
        &&& mark == '/' || mark == '\\'
        &&& !windows_prefix(encode_utf8(ascii_lower(home.push(mark) + tail))).0.is_verbatim()
        &&& !climbs_out(names_from(relative, 0, Separators::Either, false))
    }
}

/// On Windows a location under the user's home, verbatim or not, is shown by what
/// follows the home, with slashes turned; so it is elsewhere where the home starts like a
/// drive, in lower case. The case of the home's own letters makes no difference.
pub proof fn law_windows_locations_keep_their_tail(
    platform: Platform,
    home: Seq<char>,
    front: Seq<char>,
    mark: char,
    tail: Seq<char>,
)
    requires
        platform == Platform::Windows || starts_like_a_drive(forward_slashes(home)),
        home.len() > 0,
        home.last() != '/',
        home.last() != '\\',
        ascii_lower(front) == ascii_lower(home),
        trim_end_mark(forward_slashes(tail), '/').len() > 0,
        stays_below(home, mark, tail),
    ensures
        redacted_text(platform, front.push(mark) + tail, home) == "~/"@ + (if platform
            == Platform::Windows {
            forward_slashes(tail)
        } else {
            ascii_lower(trim_end_mark(forward_slashes(tail), '/'))
        }),
{
    let path = front.push(mark) + tail;
    let path_text = forward_slashes(path);
    let kept = trim_end_mark(forward_slashes(tail), '/');
    let h = forward_slashes(home);
    let f = forward_slashes(front);
    let p = f.push('/') + kept;
    assert(front.len() == home.len()) by {
        assert(ascii_lower(front).len() == front.len());
        assert(ascii_lower(home).len() == home.len());
    }
    assert forall|i: int| 0 <= i < front.len() implies #[trigger] ascii_lower(f)[i] == ascii_lower(
        h,
    )[i] by {
        assert(ascii_lower(front)[i] == ascii_lower(home)[i]);
        law_characters_change_one_by_one(front, i);
        law_characters_change_one_by_one(home, i);
    }
    assert(ascii_lower(f) =~= ascii_lower(h));
    assert(path_text =~= f.push('/') + forward_slashes(tail));
    lemma_trim_longer(f.push('/'), forward_slashes(tail));
    lemma_with_slashes(path_text);
    assert(h.last() == home.last());
    assert(h.skip(h.len() as int).len() == 0);
    assert(is_with_slashes(h, h));
    law_what_is_shown(platform, path, home, p, h);
    let cut = h.len() as int;
    assert(p.take(cut) =~= f);
    assert(p.skip(cut + 1) =~= kept);
    assert(path_text.skip(cut + 1) =~= forward_slashes(tail));
    assert(counts_as(p, h, true) == false) by {
        assert(ascii_lower(p).len() != ascii_lower(h).len());
    }
    lemma_stays_below(platform, home, front, mark, tail);
}

/// What stays below the home is located under it.
proof fn lemma_stays_below(
    platform: Platform,
    home: Seq<char>,
    front: Seq<char>,
    mark: char,
    tail: Seq<char>,
)
    requires
        home.len() > 0,
        home.last() != '/',
        home.last() != '\\',
        ascii_lower(front) == ascii_lower(home),
        stays_below(home, mark, tail),
    ensures
        is_located_under(platform, front.push(mark) + tail, home, true),
{
    let path = front.push(mark) + tail;
    let lower = ascii_lower(home);
    let base = encode_utf8(lower);
    let relative = encode_utf8(ascii_lower(tail));
    let byte = if mark == '/' {
        SLASH
    } else {
        BACKSLASH
    };
    assert(ascii_lower(path) =~= lower.push(mark) + ascii_lower(tail));
    assert(ascii_lower(home.push(mark) + tail) =~= lower.push(mark) + ascii_lower(tail));
    lemma_encode_mark(lower, mark, ascii_lower(tail));
    lemma_encode_ends(lower, ascii_lower(tail));
    assert(encode_utf8(ascii_lower(path)) == base.push(byte) + relative);
    if windows_prefix(base).0.is_verbatim() {
        law_verbatim_paths_lie_under(base, relative);
    } else {
        law_windows_paths_lie_under(base, relative, byte);
    }
}

/// The bytes of a text, a separator and another text.
proof fn lemma_encode_mark(front: Seq<char>, mark: char, back: Seq<char>)
    requires
        mark == '/' || mark == '\\',
    ensures
        encode_utf8(front.push(mark) + back) == encode_utf8(front).push(
            if mark == '/' {
                SLASH
            } else {
                BACKSLASH
            },
        ) + encode_utf8(back),
{
    let one = seq![mark];
    let byte = if mark == '/' {
        SLASH
    } else {
        BACKSLASH
    };
    assert(front.push(mark) =~= front + one);
    lemma_encode_concat(front, one);
    lemma_encode_concat(front.push(mark), back);
    lemma_scalar_bytes(mark as u32);
    assert(one.drop_first() =~= Seq::<char>::empty());
    assert(encode_utf8(Seq::<char>::empty()) =~= Seq::<u8>::empty());
    assert(encode_utf8(one) =~= seq![byte]);
    assert(encode_utf8(front) + seq![byte] =~= encode_utf8(front).push(byte));
}

/// Off Windows a location under the user's home is shown by what follows the home, in
/// its own case, where neither starts like a drive.
pub proof fn law_unix_locations_keep_their_tail(
    platform: Platform,
    home: Seq<char>,
    tail: Seq<char>,
)
    requires
        platform != Platform::Windows,
        !starts_like_a_drive(forward_slashes(home)),
        !starts_like_a_drive(forward_slashes(home.push('/') + tail)),
        home.len() > 0,
        home.last() != '/',
        home.last() != '\\',
        tail.len() > 0,
        tail[0] != '/',
        trim_end_mark(forward_slashes(tail), '/').len() > 0,
        !climbs_out(names_from(encode_utf8(tail), 0, Separators::Slash, false)),
    ensures
        redacted_text(platform, home.push('/') + tail, home) == "~/"@ + trim_end_mark(
            forward_slashes(tail),
            '/',
        ),
{
    let path = home.push('/') + tail;
    let path_text = forward_slashes(path);
    let kept = trim_end_mark(forward_slashes(tail), '/');
    let h = forward_slashes(home);
    let p = h.push('/') + kept;
    assert(path_text =~= h.push('/') + forward_slashes(tail));
    lemma_trim_longer(h.push('/'), forward_slashes(tail));
    lemma_with_slashes(path_text);
    assert(h.last() == home.last());
    assert(h.skip(h.len() as int).len() == 0);
    assert(is_with_slashes(h, h));
    law_what_is_shown(platform, path, home, p, h);
    let cut = h.len() as int;
    assert(p.take(cut) =~= h);
    assert(p.skip(cut + 1) =~= kept);
    assert(p.len() != h.len());
    law_what_does_not_climb_out_keeps_to_home(platform, home, tail, false);
}

/// What may be shown of a path goes by canonical forms: that of the path where it has
/// one, and else the path itself, and so of the home. The one that is not known yet is
/// asked for, the path's first. Without a home nothing is asked and nothing is shown.
pub proof fn law_redaction_goes_by_canonical_forms(
    host: Host,
    path: Seq<u8>,
    home: Seq<u8>,
    facts: Facts,
)
    ensures
        home_of(host) is None ==> redact_on(host, path, facts) == Ok::<_, Question>(
            "local path redacted"@,
        ),
        home_of(host) == Some(home) ==> {
            let platform = host.platform;
            let shown = redact_on(host, path, facts);
            if !facts.canonical.contains_key(path) {
                shown == Err::<Seq<char>, _>(Question::Canonicalize(path))
            } else if !facts.canonical.contains_key(home) {
                shown == Err::<Seq<char>, _>(Question::Canonicalize(home))
            } else {
                let real_path = match facts.canonical[path] {
                    Some(canonical) => canonical,
                    None => path,
                };
                let real_home = match facts.canonical[home] {
                    Some(canonical) => canonical,
                    None => home,
                };
                shown == Ok::<_, Question>(
                    redacted_text(
                        platform,
                        path_text(platform, real_path),
                        path_text(platform, real_home),
                    ),
                )
            }
        },
{
}

/// Whether a text starts with two backslashes, a question mark, a backslash, a letter, a
/// colon and a backslash, as the canonical forms of Windows do.
pub open spec fn starts_on_a_verbatim_drive(text: Seq<char>) -> bool {
    &&& text.len() > 7
    &&& text[0] == '\\' && text[1] == '\\' && text[2] == '?' && text[3] == '\\'
    &&& 'A' <= text[4] <= 'Z' || 'a' <= text[4] <= 'z'
    &&& text[5] == ':' && text[6] == '\\'
}

/// The bytes of a text on a verbatim drive have the prefix and the root of one.
proof fn lemma_verbatim_drive(home: Seq<char>)
    requires
        starts_on_a_verbatim_drive(home),
    ensures
        windows_prefix(encode_utf8(ascii_lower(home))).0.is_verbatim(),
        physical_root(Platform::Windows, encode_utf8(ascii_lower(home))),
{
    let lower = ascii_lower(home);
    let (front, back) = (lower.take(7), lower.skip(7));
    let start = encode_utf8(front);
    let base = encode_utf8(lower);
    assert(front + back =~= lower);
    lemma_encode_concat(front, back);
    assert(is_ascii_chars(front)) by {
        assert forall|i: int| 0 <= i < front.len() implies '\0' <= #[trigger] front[i]
            <= '\u{7f}' by {
            assert(front[i] == ascii_lower_char(home[i]));
        }
    }
    is_ascii_chars_encode_utf8(front);
    assert forall|i: int| 0 <= i < 7 implies #[trigger] start[i] == front[i] as u8 by {}
    assert(front[0] == '\\' && front[1] == '\\' && front[2] == '?' && front[3] == '\\');
    assert(front[5] == ':' && front[6] == '\\');
    assert('a' <= front[4] <= 'z');
    let letter = base[4];
    let rest = base.skip(6);
    assert(base =~= seq![BACKSLASH, BACKSLASH, QUESTION_MARK, BACKSLASH, letter, COLON] + rest);
    assert(rest[0] == BACKSLASH);
    let any = seq![0x61u8];
    assert(any[0] != DOT && any[0] != QUESTION_MARK);
    assert(any != seq![DOT] && any != seq![QUESTION_MARK]) by {
        assert(seq![DOT][0] == DOT);
        assert(seq![QUESTION_MARK][0] == QUESTION_MARK);
    }
    law_windows_prefixes(letter, rest, any, any, SLASH);
}

/// A location under a home on a verbatim drive, which is what the canonical forms of
/// existing paths are on Windows, is shown by what follows the home, with slashes turned;
/// and so it is where these are the canonical forms of a path and of the home.
pub proof fn law_canonical_windows_locations(
    host: Host,
    path: Seq<u8>,
    home: Seq<u8>,
    home_text: Seq<char>,
    tail: Seq<char>,
    facts: Facts,
)
    requires
        host.platform == Platform::Windows,
        starts_on_a_verbatim_drive(home_text),
        home_text.last() != '/' && home_text.last() != '\\',
        trim_end_mark(forward_slashes(tail), '/').len() > 0,
        !climbs_out(names_from(encode_utf8(ascii_lower(tail)), 0, Separators::Backslash, true)),
    ensures
        redacted_text(host.platform, home_text.push('\\') + tail, home_text) == "~/"@
            + forward_slashes(tail),
        home_of(host) == Some(home) && facts.canonical.contains_key(path)
            && facts.canonical.contains_key(home) && facts.canonical[path] == Some(
            encode_utf8(home_text.push('\\') + tail),
        ) && facts.canonical[home] == Some(encode_utf8(home_text)) ==> redact_on(host, path, facts)
            == Ok::<_, Question>("~/"@ + forward_slashes(tail)),
{
    lemma_verbatim_drive(home_text);
    law_windows_locations_keep_their_tail(
        host.platform,
        home_text,
        home_text,
        '\\',
        tail,
    );
    law_redaction_goes_by_canonical_forms(host, path, home, facts);
    law_paths_spell_their_text(host.platform, home_text);
    law_paths_spell_their_text(host.platform, home_text.push('\\') + tail);
}

/// Off Windows a location under the user's home, by the canonical forms of the two, is
/// shown by what follows the home.
pub proof fn law_canonical_unix_locations(
    host: Host,
    path: Seq<u8>,
    home: Seq<u8>,
    home_text: Seq<char>,
    tail: Seq<char>,
    facts: Facts,
)
    requires
        host.platform != Platform::Windows,
        home_of(host) == Some(home),
        facts.canonical.contains_key(path),
        facts.canonical.contains_key(home),
        facts.canonical[path] == Some(encode_utf8(home_text.push('/') + tail)),
        facts.canonical[home] == Some(encode_utf8(home_text)),
        !starts_like_a_drive(forward_slashes(home_text)),
        !starts_like_a_drive(forward_slashes(home_text.push('/') + tail)),
        home_text.len() > 0,
        home_text.last() != '/' && home_text.last() != '\\',
        tail.len() > 0,
        tail[0] != '/',
        trim_end_mark(forward_slashes(tail), '/').len() > 0,
        !climbs_out(names_from(encode_utf8(tail), 0, Separators::Slash, false)),
    ensures
        redact_on(host, path, facts) == Ok::<_, Question>(
            "~/"@ + trim_end_mark(forward_slashes(tail), '/'),
        ),
{
    law_unix_locations_keep_their_tail(host.platform, home_text, tail);
    law_redaction_goes_by_canonical_forms(host, path, home, facts);
    law_paths_spell_their_text(host.platform, home_text);
    law_paths_spell_their_text(host.platform, home_text.push('/') + tail);
}

} // verus!
