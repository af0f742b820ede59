//! The three line shapes of a script: `Key: value` entries of the info
//! sections, style definitions and events.
//!
//! Each shape is a pattern whose fields are found the way a leftmost-first
//! (backtracking) pattern matcher finds them: the match starts at the first
//! position where the pattern can match, a lazy field (`.*?`) takes the
//! fewest characters that still let the rest of the line match, a greedy one
//! the most. As in such matchers, `.` stands for any character but a line
//! break. The spec functions below state, field by field, where that puts
//! each field; the `*_is_the_preferred_split` laws show that this is the
//! split, among all splits of the line with the pattern's shape, that such a
//! matcher prefers, and that a line without a match has no such split.

use vstd::prelude::*;
use crate::lexical::is_digit;

verus! {

/// A character of the `[a-z A-Z]` class: an ASCII letter or a space.
pub open spec fn is_format_char(c: char) -> bool {
    ('a' <= c && c <= 'z') || ('A' <= c && c <= 'Z') || c == ' '
}

/// A character of the `[A-Z 0-9]` class: an upper-case ASCII letter, a space
/// or a digit.
pub open spec fn is_colour_char(c: char) -> bool {
    ('A' <= c && c <= 'Z') || c == ' ' || is_digit(c)
}

/// `l[i] == c`, with `i` inside `l`.
pub open spec fn char_is(l: Seq<char>, i: int, c: char) -> bool {
    0 <= i < l.len() && l[i] == c
}

/// `l[i]` is a digit, with `i` inside `l`.
pub open spec fn digit_at(l: Seq<char>, i: int) -> bool {
    0 <= i < l.len() && is_digit(l[i])
}

/// The end of the run of digits that starts at `i`.
pub open spec fn digit_run_end(l: Seq<char>, i: int) -> int
    decreases l.len() - i,
{
    if digit_at(l, i) {
        digit_run_end(l, i + 1)
    } else {
        i
    }
}

/// The end of the run of `[a-z A-Z]` characters that starts at `i`.
pub open spec fn format_run_end(l: Seq<char>, i: int) -> int
    decreases l.len() - i,
{
    if 0 <= i < l.len() && is_format_char(l[i]) {
        format_run_end(l, i + 1)
    } else {
        i
    }
}

/// The end of the run of characters other than a line break that starts at
/// `i` (what `.*` takes).
pub open spec fn line_end(l: Seq<char>, i: int) -> int
    decreases l.len() - i,
{
    if 0 <= i < l.len() && l[i] != '\n' {
        line_end(l, i + 1)
    } else {
        i
    }
}

/// The position of the first comma at or after `i`, if no line break comes
/// before it (where `.*?,` ends).
pub open spec fn next_comma(l: Seq<char>, i: int) -> Option<int>
    decreases l.len() - i,
{
    if i < 0 || i >= l.len() {
        None
    } else if l[i] == ',' {
        Some(i)
    } else if l[i] == '\n' {
        None
    } else {
        next_comma(l, i + 1)
    }
}

/// The position of the colon of the first `": "` at or after `i`, if no
/// line break comes before it (where `.*?: ` ends).
pub open spec fn key_separator(l: Seq<char>, i: int) -> Option<int>
    decreases l.len() - i,
{
    if i < 0 || i + 1 >= l.len() {
        None
    } else if l[i] == ':' && l[i + 1] == ' ' {
        Some(i)
    } else if l[i] == '\n' {
        None
    } else {
        key_separator(l, i + 1)
    }
}

/// `Some(j)` with `l[j] == ','` when the digits starting at `i` are followed
/// by a comma at `j` (the pattern `[0-9]*,` or `[0-9]*?,`).
pub open spec fn digits_then_comma(l: Seq<char>, i: int) -> Option<int> {
    let j = digit_run_end(l, i);
    if char_is(l, j, ',') {
        Some(j)
    } else {
        None
    }
}

/// A clock `[0-9]{1}:[0-9]{2}:[0-9]{2}.[0-9]{2},` starting at `p`: `h:mm:ss.cc`
/// and a comma at `p + 10`; the character between seconds and
/// hundredths may be any character but a line break.
pub open spec fn clock_at(l: Seq<char>, p: int) -> bool {
    &&& 0 <= p && p + 10 < l.len()
    &&& is_digit(l[p])
    &&& l[p + 1] == ':'
    &&& is_digit(l[p + 2]) && is_digit(l[p + 3])
    &&& l[p + 4] == ':'
    &&& is_digit(l[p + 5]) && is_digit(l[p + 6])
    &&& l[p + 7] != '\n'
    &&& is_digit(l[p + 8]) && is_digit(l[p + 9])
    &&& l[p + 10] == ','
}

// ---------------------------------------------------------------------------
// `Key: value`

/// The positions that delimit the fields of an entry `Key: value`: the key
/// is `[start, separator)` and the value `[separator + 2, end)`.
#[derive(Clone, Copy, PartialEq, Eq, Debug)]
pub struct InfoSpans {
    pub start: usize,
    pub separator: usize,
    pub end: usize,
}

/// The leftmost match of `(?<field>.*?): (?<content>.*)` starting at or
/// after `s`: the key runs from the start to the first `": "`, the value
/// from there to the end of the line.
pub open spec fn info_search(l: Seq<char>, s: int) -> Option<InfoSpans>
    decreases l.len() + 1 - s,
{
    if s < 0 || s > l.len() {
        None
    } else {
        match key_separator(l, s) {
            Some(k) => Some(
                InfoSpans { start: s as usize, separator: k as usize, end: line_end(l, k + 2) as usize },
            ),
            None => info_search(l, s + 1),
        }
    }
}

/// The match of the entry pattern in `l`.
pub open spec fn info_match(l: Seq<char>) -> Option<InfoSpans> {
    info_search(l, 0)
}

// ---------------------------------------------------------------------------
// Events

/// The positions that delimit the fields of an event line
/// `Format: Layer,h:mm:ss.cc,h:mm:ss.cc,Style,Name,MarginL,MarginR,MarginV,Effect,Text`.
///
/// With `q == layer_end`: `Format` is `[start, format_end)`, `Layer` is
/// `[format_end + 2, q)`, the start clock's hours, minutes and seconds are
/// `[q + 1, q + 2)`, `[q + 3, q + 5)`, `[q + 6, q + 11)`, the end clock's
/// `[q + 12, q + 13)`, `[q + 14, q + 16)`, `[q + 17, q + 22)`, `Style` is
/// `[q + 23, style_end)`, and each later field runs from just after the
/// previous comma to its own end; `Text` is `[effect_end + 1, text_end)`.
#[derive(Clone, Copy, PartialEq, Eq, Debug)]
pub struct EventSpans {
    pub start: usize,
    pub format_end: usize,
    pub layer_end: usize,
    pub style_end: usize,
    pub name_end: usize,
    pub margin_l_end: usize,
    pub margin_r_end: usize,
    pub margin_v_end: usize,
    pub effect_end: usize,
    pub text_end: usize,
}

/// After the comma `e` that ends the name: `MarginL,MarginR,MarginV,` as
/// digits and an effect up to the next comma. Gives the four commas.
pub open spec fn event_tail(l: Seq<char>, e: int) -> Option<(int, int, int, int)> {
    match digits_then_comma(l, e + 1) {
        None => None,
        Some(a) => match digits_then_comma(l, a + 1) {
            None => None,
            Some(b) => match digits_then_comma(l, b + 1) {
                None => None,
                Some(c) => match next_comma(l, c + 1) {
                    None => None,
                    Some(d) => Some((a, b, c, d)),
                },
            },
        },
    }
}

/// The comma that ends a lazily matched name: the first comma at or after
/// `i` after which the margins and the effect can follow.
pub open spec fn event_name_end(l: Seq<char>, i: int) -> Option<int>
    decreases l.len() - i,
{
    if i < 0 || i >= l.len() {
        None
    } else if l[i] == ',' && event_tail(l, i) is Some {
        Some(i)
    } else if l[i] == '\n' {
        None
    } else {
        event_name_end(l, i + 1)
    }
}

/// The event pattern matched from position `s` on.
pub open spec fn event_at(l: Seq<char>, s: int) -> Option<EventSpans> {
    let f = format_run_end(l, s);
    if !(char_is(l, f, ':') && char_is(l, f + 1, ' ')) {
        None
    } else {
        match digits_then_comma(l, f + 2) {
            None => None,
            Some(q) => if !(clock_at(l, q + 1) && clock_at(l, q + 12)) {
                None
            } else {
                match next_comma(l, q + 23) {
                    None => None,
                    Some(sc) => match event_name_end(l, sc + 1) {
                        None => None,
                        Some(e) => match event_tail(l, e) {
                            None => None,
                            Some((a, b, c, d)) => Some(
                                EventSpans {
                                    start: s as usize,
                                    format_end: f as usize,
                                    layer_end: q as usize,
                                    style_end: sc as usize,
                                    name_end: e as usize,
                                    margin_l_end: a as usize,
                                    margin_r_end: b as usize,
                                    margin_v_end: c as usize,
                                    effect_end: d as usize,
                                    text_end: line_end(l, d + 1) as usize,
                                },
                            ),
                        },
                    },
                }
            },
        }
    }
}

/// The leftmost match of the event pattern starting at or after `s`.
pub open spec fn event_search(l: Seq<char>, s: int) -> Option<EventSpans>
    decreases l.len() + 1 - s,
{
    if s < 0 || s > l.len() {
        None
    } else {
        match event_at(l, s) {
            Some(m) => Some(m),
            None => event_search(l, s + 1),
        }
    }
}

/// The match of the event pattern in `l`.
#[verifier::opaque]
pub open spec fn event_match(l: Seq<char>) -> Option<EventSpans> {
    event_search(l, 0)
}

// ---------------------------------------------------------------------------
// Styles

/// `&` and nine `[A-Z 0-9]` characters starting at `p`, then a comma at
/// `p + 10`.
pub open spec fn colour_at(l: Seq<char>, p: int) -> bool {
    &&& 0 <= p && p + 10 < l.len()
    &&& l[p] == '&'
    &&& forall|k: int| 1 <= k <= 9 ==> is_colour_char(#[trigger] l[p + k])
    &&& l[p + 10] == ','
}

/// `\-?[0-9],` starting at `p`: gives the comma.
pub open spec fn flag_then_comma(l: Seq<char>, p: int) -> Option<int> {
    if char_is(l, p, '-') && digit_at(l, p + 1) && char_is(l, p + 2, ',') {
        Some(p + 2)
    } else if digit_at(l, p) && char_is(l, p + 1, ',') {
        Some(p + 1)
    } else {
        None
    }
}

/// `[0-9]{1,3},` starting at `p`: gives the comma.
pub open spec fn scale_then_comma(l: Seq<char>, p: int) -> Option<int> {
    let j = digit_run_end(l, p);
    if p < j && j <= p + 3 && char_is(l, j, ',') {
        Some(j)
    } else {
        None
    }
}

/// The comma that ends a lazily matched last margin: the first comma at or
/// after `i` that a digit (the encoding) follows.
pub open spec fn encoding_comma(l: Seq<char>, i: int) -> Option<int>
    decreases l.len() - i,
{
    if i < 0 || i >= l.len() {
        None
    } else if l[i] == ',' && digit_at(l, i + 1) {
        Some(i)
    } else if l[i] == '\n' {
        None
    } else {
        encoding_comma(l, i + 1)
    }
}

/// After the comma `h` that ends the shadow: `Alignment,MarginL,MarginR,MarginV,Encoding`,
/// the alignment and the encoding one digit each. Gives the commas that end
/// the three margins.
pub open spec fn style_margins(l: Seq<char>, h: int) -> Option<(int, int, int)> {
    if !(digit_at(l, h + 1) && char_is(l, h + 2, ',')) {
        None
    } else {
        match next_comma(l, h + 3) {
            None => None,
            Some(m1) => match next_comma(l, m1 + 1) {
                None => None,
                Some(m2) => match encoding_comma(l, m2 + 1) {
                    None => None,
                    Some(m3) => Some((m1, m2, m3)),
                },
            },
        }
    }
}

/// The comma that ends a lazily matched shadow: the first comma at or after
/// `i` after which the alignment, margins and encoding can follow.
pub open spec fn shadow_end(l: Seq<char>, i: int) -> Option<int>
    decreases l.len() - i,
{
    if i < 0 || i >= l.len() {
        None
    } else if l[i] == ',' && style_margins(l, i) is Some {
        Some(i)
    } else if l[i] == '\n' {
        None
    } else {
        shadow_end(l, i + 1)
    }
}

/// The positions that delimit the fields of a style line after its font
/// name. With `fs == fontsize_end`: `Fontsize` ends at `fs`, the primary,
/// secondary, outline and back colours are `[fs + 1, fs + 11)`,
/// `[fs + 12, fs + 22)`, `[fs + 23, fs + 33)` and `[fs + 34, fs + 44)`; then
/// each field runs from just after the previous comma to its own end. The
/// alignment is the one character after `shadow_end`, the encoding the one
/// character after `margin_v_end`.
#[derive(Clone, Copy, PartialEq, Eq, Debug)]
pub struct StyleRest {
    pub fontsize_end: usize,
    pub bold_end: usize,
    pub italic_end: usize,
    pub underline_end: usize,
    pub strike_out_end: usize,
    pub scale_x_end: usize,
    pub scale_y_end: usize,
    pub spacing_end: usize,
    pub angle_end: usize,
    pub border_style_end: usize,
    pub outline_end: usize,
    pub shadow_end: usize,
    pub margin_l_end: usize,
    pub margin_r_end: usize,
    pub margin_v_end: usize,
}

/// The positions that delimit the fields of a style line
/// `Format: Name,Fontname,Fontsize,&PrimaryColour,...,Encoding`: `Format` is
/// `[start, format_end)`, `Name` is `[format_end + 2, name_end)`, `Fontname`
/// is `[name_end + 1, fontname_end)`, and `rest` holds the others.
#[derive(Clone, Copy, PartialEq, Eq, Debug)]
pub struct StyleSpans {
    pub start: usize,
    pub format_end: usize,
    pub name_end: usize,
    pub fontname_end: usize,
    pub rest: StyleRest,
}

/// The fields after spacing, angle, border style and outline, from `t` on.
pub open spec fn style_tail(l: Seq<char>, t: int) -> Option<(int, int, int, int, int, int, int, int)> {
    match next_comma(l, t) {
        None => None,
        Some(c1) => match next_comma(l, c1 + 1) {
            None => None,
            Some(c2) => match next_comma(l, c2 + 1) {
                None => None,
                Some(c3) => match next_comma(l, c3 + 1) {
                    None => None,
                    Some(c4) => match shadow_end(l, c4 + 1) {
                        None => None,
                        Some(h) => match style_margins(l, h) {
                            None => None,
                            Some((m1, m2, m3)) => Some((c1, c2, c3, c4, h, m1, m2, m3)),
                        },
                    },
                },
            },
        },
    }
}

/// Everything after the comma `b` that ends the font name.
pub open spec fn style_rest(l: Seq<char>, b: int) -> Option<StyleRest> {
    match digits_then_comma(l, b + 1) {
        None => None,
        Some(fs) => if !(colour_at(l, fs + 1) && colour_at(l, fs + 12) && colour_at(l, fs + 23)
            && colour_at(l, fs + 34)) {
            None
        } else {
            match flag_then_comma(l, fs + 45) {
                None => None,
                Some(bo) => match flag_then_comma(l, bo + 1) {
                    None => None,
                    Some(it) => match flag_then_comma(l, it + 1) {
                        None => None,
                        Some(un) => match flag_then_comma(l, un + 1) {
                            None => None,
                            Some(st) => match scale_then_comma(l, st + 1) {
                                None => None,
                                Some(sx) => match scale_then_comma(l, sx + 1) {
                                    None => None,
                                    Some(sy) => match style_tail(l, sy + 1) {
                                        None => None,
                                        Some((c1, c2, c3, c4, h, m1, m2, m3)) => Some(
                                            StyleRest {
                                                fontsize_end: fs as usize,
                                                bold_end: bo as usize,
                                                italic_end: it as usize,
                                                underline_end: un as usize,
                                                strike_out_end: st as usize,
                                                scale_x_end: sx as usize,
                                                scale_y_end: sy as usize,
                                                spacing_end: c1 as usize,
                                                angle_end: c2 as usize,
                                                border_style_end: c3 as usize,
                                                outline_end: c4 as usize,
                                                shadow_end: h as usize,
                                                margin_l_end: m1 as usize,
                                                margin_r_end: m2 as usize,
                                                margin_v_end: m3 as usize,
                                            },
                                        ),
                                    },
                                },
                            },
                        },
                    },
                },
            }
        },
    }
}

/// The comma that ends a lazily matched font name: the first comma at or
/// after `i` after which the rest of a style can follow.
pub open spec fn fontname_end(l: Seq<char>, i: int) -> Option<int>
    decreases l.len() - i,
{
    if i < 0 || i >= l.len() {
        None
    } else if l[i] == ',' && style_rest(l, i) is Some {
        Some(i)
    } else if l[i] == '\n' {
        None
    } else {
        fontname_end(l, i + 1)
    }
}

/// The style pattern matched from position `s` on.
pub open spec fn style_at(l: Seq<char>, s: int) -> Option<StyleSpans> {
    let f = format_run_end(l, s);
    if !(char_is(l, f, ':') && char_is(l, f + 1, ' ')) {
        None
    } else {
        match next_comma(l, f + 2) {
            None => None,
            Some(n) => match fontname_end(l, n + 1) {
                None => None,
                Some(b) => match style_rest(l, b) {
                    None => None,
                    Some(rest) => Some(
                        StyleSpans {
                            start: s as usize,
                            format_end: f as usize,
                            name_end: n as usize,
                            fontname_end: b as usize,
                            rest,
                        },
                    ),
                },
            },
        }
    }
}

/// The leftmost match of the style pattern starting at or after `s`.
pub open spec fn style_search(l: Seq<char>, s: int) -> Option<StyleSpans>
    decreases l.len() + 1 - s,
{
    if s < 0 || s > l.len() {
        None
    } else {
        match style_at(l, s) {
            Some(m) => Some(m),
            None => style_search(l, s + 1),
        }
    }
}

/// The match of the style pattern in `l`.
#[verifier::opaque]
pub open spec fn style_match(l: Seq<char>) -> Option<StyleSpans> {
    style_search(l, 0)
}

/// The clocks of an event match have the shape `h:mm:ss.cc,`.
pub open spec fn event_clocks(m: EventSpans, l: Seq<char>) -> bool {
    clock_at(l, m.layer_end + 1) && clock_at(l, m.layer_end + 12)
}

/// The positions of an event match lie in order inside a line of length `n`.
pub open spec fn event_spans_wf(m: EventSpans, n: int) -> bool {
    &&& m.start <= m.format_end
    &&& m.format_end + 2 <= m.layer_end
    &&& m.layer_end + 23 <= m.style_end
    &&& m.style_end < m.name_end < m.margin_l_end < m.margin_r_end < m.margin_v_end < m.effect_end
    &&& m.effect_end + 1 <= m.text_end <= n
}

/// The positions after the font name lie in order inside a line of length
/// `n`, the font name ending at `b`.
pub open spec fn style_rest_wf(r: StyleRest, b: int, n: int) -> bool {
    &&& b < r.fontsize_end
    &&& r.fontsize_end + 46 <= r.bold_end <= r.fontsize_end + 47
    &&& r.bold_end + 2 <= r.italic_end <= r.bold_end + 3
    &&& r.italic_end + 2 <= r.underline_end <= r.italic_end + 3
    &&& r.underline_end + 2 <= r.strike_out_end <= r.underline_end + 3
    &&& r.strike_out_end + 1 < r.scale_x_end <= r.strike_out_end + 4
    &&& r.scale_x_end + 1 < r.scale_y_end <= r.scale_x_end + 4
    &&& r.scale_y_end < r.spacing_end < r.angle_end < r.border_style_end < r.outline_end < r.shadow_end
    &&& r.shadow_end + 3 <= r.margin_l_end < r.margin_r_end < r.margin_v_end
    &&& r.margin_v_end + 1 < n
}

/// The alignment and the encoding of a style match are digits.
pub open spec fn style_digits(r: StyleRest, l: Seq<char>) -> bool {
    is_digit(l[r.shadow_end + 1]) && is_digit(l[r.margin_v_end + 1])
}

/// The positions of a style match lie in order inside a line of length `n`.
pub open spec fn style_spans_wf(m: StyleSpans, n: int) -> bool {
    &&& m.start <= m.format_end
    &&& m.format_end + 2 <= m.name_end < m.fontname_end
    &&& style_rest_wf(m.rest, m.fontname_end as int, n)
}

/// A match found from `s` on is the match that starts where it says.
proof fn lemma_event_search_start(l: Seq<char>, s: int)
    requires
        l.len() <= usize::MAX,
    ensures
        event_search(l, s) matches Some(m) ==> event_at(l, m.start as int) == Some(m),
    decreases l.len() + 1 - s,
{
    if !(s < 0 || s > l.len()) {
        if event_at(l, s) is None {
            lemma_event_search_start(l, s + 1);
        }
    }
}

/// A match found from `s` on is the match that starts where it says.
proof fn lemma_style_search_start(l: Seq<char>, s: int)
    requires
        l.len() <= usize::MAX,
    ensures
        style_search(l, s) matches Some(m) ==> style_at(l, m.start as int) == Some(m),
    decreases l.len() + 1 - s,
{
    if !(s < 0 || s > l.len()) {
        if style_at(l, s) is None {
            lemma_style_search_start(l, s + 1);
        }
    }
}

// ---------------------------------------------------------------------------
// What a match says of the line

/// The characters from `i` to the end of the digit run are digits.
proof fn lemma_digit_run(l: Seq<char>, i: int)
    requires
        0 <= i <= l.len(),
    ensures
        i <= digit_run_end(l, i) <= l.len(),
        forall|k: int| i <= k < digit_run_end(l, i) ==> is_digit(#[trigger] l[k]),
    decreases l.len() - i,
{
    if digit_at(l, i) {
        lemma_digit_run(l, i + 1);
    }
}

/// The characters from `i` to the end of the format run are letters or
/// spaces.
proof fn lemma_format_run(l: Seq<char>, i: int)
    requires
        0 <= i <= l.len(),
    ensures
        i <= format_run_end(l, i) <= l.len(),
        forall|k: int| i <= k < format_run_end(l, i) ==> is_format_char(#[trigger] l[k]),
    decreases l.len() - i,
{
    if 0 <= i < l.len() && is_format_char(l[i]) {
        lemma_format_run(l, i + 1);
    }
}

/// No comma and no line break lie between `i` and the next comma.
proof fn lemma_next_comma(l: Seq<char>, i: int)
    requires
        0 <= i,
    ensures
        next_comma(l, i) matches Some(c) ==> i <= c < l.len() && l[c] == ',' && forall|k: int|
            i <= k < c ==> #[trigger] l[k] != ',' && l[k] != '\n',
    decreases l.len() - i,
{
    if 0 <= i < l.len() && l[i] != ',' && l[i] != '\n' {
        lemma_next_comma(l, i + 1);
    }
}

/// The characters from `i` to the end of the line hold no line break, and a
/// line break or the end of `l` follows.
proof fn lemma_line_end(l: Seq<char>, i: int)
    requires
        0 <= i <= l.len(),
    ensures
        i <= line_end(l, i) <= l.len(),
        line_end(l, i) == l.len() || l[line_end(l, i)] == '\n',
        forall|k: int| i <= k < line_end(l, i) ==> #[trigger] l[k] != '\n',
    decreases l.len() - i,
{
    if 0 <= i < l.len() && l[i] != '\n' {
        lemma_line_end(l, i + 1);
    }
}

/// No `": "` starts and no line break lies between `i` and the separator
/// found from `i`.
proof fn lemma_key_separator(l: Seq<char>, i: int)
    requires
        0 <= i,
    ensures
        key_separator(l, i) matches Some(k) ==> i <= k && k + 2 <= l.len() && l[k] == ':' && l[k
            + 1] == ' ' && forall|j: int| i <= j < k ==> !(#[trigger] l[j] == ':' && l[j + 1] == ' ')
            && l[j] != '\n',
    decreases l.len() - i,
{
    if !(i < 0 || i + 1 >= l.len()) && !(l[i] == ':' && l[i + 1] == ' ') && l[i] != '\n' {
        lemma_key_separator(l, i + 1);
    }
}

/// A match found from `s` on is the match that starts where it says.
proof fn lemma_info_search_start(l: Seq<char>, s: int)
    requires
        l.len() <= usize::MAX,
    ensures
        info_search(l, s) matches Some(m) ==> key_separator(l, m.start as int) == Some(
            m.separator as int,
        ) && m.end == line_end(l, m.separator + 2) && 0 <= m.start <= l.len(),
    decreases l.len() + 1 - s,
{
    if !(s < 0 || s > l.len()) {
        if key_separator(l, s) is None {
            lemma_info_search_start(l, s + 1);
        } else {
            lemma_key_separator(l, s);
            lemma_line_end(l, key_separator(l, s).unwrap() + 2);
        }
    }
}

/// A matched entry line, from where the match starts to the end of its
/// line, is its key, `": "` and its value; the key holds no `": "` and no
/// line break, the value no line break, and the match ends at a line break
/// or at the end of `l`.
pub proof fn entry_fields_rebuild_the_line(l: Seq<char>)
    requires
        l.len() <= usize::MAX,
    ensures
        info_match(l) matches Some(m) ==> {
            let (s, k, e) = (m.start as int, m.separator as int, m.end as int);
            &&& l.subrange(s, e) == l.subrange(s, k) + seq![':', ' '] + l.subrange(k + 2, e)
            &&& forall|j: int| s <= j < k ==> !(#[trigger] l[j] == ':' && l[j + 1] == ' ') && l[j] != '\n'
            &&& all_in(l, k + 2, e, |c: char| c != '\n')
            &&& e == l.len() || l[e] == '\n'
        },
{
    lemma_info_search_start(l, 0);
    if let Some(m) = info_match(l) {
        let (s, k) = (m.start as int, m.separator as int);
        lemma_key_separator(l, s);
        lemma_line_end(l, k + 2);
        let e = m.end as int;
        assert(l.subrange(s, e) =~= l.subrange(s, k) + seq![':', ' '] + l.subrange(k + 2, e));
    }
}

/// The characters `l[a..b]` all satisfy `p`.
pub open spec fn all_in(l: Seq<char>, a: int, b: int, p: spec_fn(char) -> bool) -> bool {
    forall|k: int| a <= k < b ==> p(#[trigger] l[k])
}

/// What the name search finds.
proof fn lemma_event_name_end(l: Seq<char>, i: int)
    requires
        0 <= i,
    ensures
        event_name_end(l, i) matches Some(e) ==> i <= e < l.len() && l[e] == ',' && event_tail(l, e) is Some
            && all_in(l, i, e, |c: char| c != '\n'),
    decreases l.len() - i,
{
    if !(i < 0 || i >= l.len()) && !(l[i] == ',' && event_tail(l, i) is Some) {
        lemma_event_name_end(l, i + 1);
    }
}

/// What the margins and effect after a name are.
proof fn lemma_event_tail(l: Seq<char>, e: int)
    requires
        0 <= e < l.len(),
    ensures
        event_tail(l, e) matches Some((a, b, c, d)) ==> {
            &&& e < a < b < c < d < l.len()
            &&& l[a] == ',' && l[b] == ',' && l[c] == ',' && l[d] == ','
            &&& all_in(l, e + 1, a, |ch: char| is_digit(ch))
            &&& all_in(l, a + 1, b, |ch: char| is_digit(ch))
            &&& all_in(l, b + 1, c, |ch: char| is_digit(ch))
            &&& all_in(l, c + 1, d, |ch: char| ch != ',')
            &&& all_in(l, c + 1, d, |ch: char| ch != '\n')
        },
{
    lemma_digit_run(l, e + 1);
    if let Some(a) = digits_then_comma(l, e + 1) {
        lemma_digit_run(l, a + 1);
        if let Some(b) = digits_then_comma(l, a + 1) {
            lemma_digit_run(l, b + 1);
            if let Some(c) = digits_then_comma(l, b + 1) {
                lemma_next_comma(l, c + 1);
            }
        }
    }
}

/// The separators of a matched event line, and the classes of its fields.
proof fn lemma_event_at(l: Seq<char>, s: int)
    requires
        0 <= s <= l.len(),
        l.len() <= usize::MAX,
    ensures
        event_at(l, s) matches Some(m) ==> {
            let f = m.format_end as int;
            let q = m.layer_end as int;
            &&& m.start == s
            &&& s <= f && f + 2 <= q && q + 23 <= m.style_end < m.name_end < m.margin_l_end
                < m.margin_r_end < m.margin_v_end < m.effect_end < l.len()
            &&& m.effect_end + 1 <= m.text_end <= l.len()
            &&& (m.text_end == l.len() || l[m.text_end as int] == '\n')
            &&& all_in(l, m.effect_end + 1, m.text_end as int, |c: char| c != '\n')
            &&& l[f] == ':' && l[f + 1] == ' ' && l[q] == ',' && l[q + 11] == ',' && l[q + 22]
                == ',' && l[m.style_end as int] == ',' && l[m.name_end as int] == ','
            &&& l[m.margin_l_end as int] == ',' && l[m.margin_r_end as int] == ',' && l[m.margin_v_end as int]
                == ',' && l[m.effect_end as int] == ','
            &&& all_in(l, s, f, |c: char| is_format_char(c))
            &&& all_in(l, f + 2, q, |c: char| is_digit(c))
            &&& all_in(l, q + 23, m.style_end as int, |c: char| c != ',')
            &&& all_in(l, m.name_end + 1, m.margin_l_end as int, |c: char| is_digit(c))
            &&& all_in(l, m.margin_l_end + 1, m.margin_r_end as int, |c: char| is_digit(c))
            &&& all_in(l, m.margin_r_end + 1, m.margin_v_end as int, |c: char| is_digit(c))
            &&& all_in(l, m.margin_v_end + 1, m.effect_end as int, |c: char| c != ',')
        },
{
    let f = format_run_end(l, s);
    lemma_format_run(l, s);
    if char_is(l, f, ':') && char_is(l, f + 1, ' ') {
        lemma_digit_run(l, f + 2);
        if let Some(q) = digits_then_comma(l, f + 2) {
            if clock_at(l, q + 1) && clock_at(l, q + 12) {
                lemma_next_comma(l, q + 23);
                if let Some(sc) = next_comma(l, q + 23) {
                    lemma_event_name_end(l, sc + 1);
                    if let Some(e) = event_name_end(l, sc + 1) {
                        lemma_event_tail(l, e);
                        if let Some((a, b, c, d)) = event_tail(l, e) {
                            lemma_line_end(l, d + 1);
                        }
                    }
                }
            }
        }
    }
}

/// The text of an event line rebuilt from the fields of the match `m`:
/// `Format: Layer,Start,End,Style,Name,MarginL,MarginR,MarginV,Effect,Text`.
pub open spec fn event_fields_joined(l: Seq<char>, m: EventSpans) -> Seq<char> {
    let q = m.layer_end as int;
    let comma = seq![','];
    l.subrange(m.start as int, m.format_end as int) + seq![':', ' '] + l.subrange(m.format_end + 2, q)
        + comma + l.subrange(q + 1, q + 11) + comma + l.subrange(q + 12, q + 22) + comma + l.subrange(
        q + 23,
        m.style_end as int,
    ) + comma + l.subrange(m.style_end + 1, m.name_end as int) + comma + l.subrange(
        m.name_end + 1,
        m.margin_l_end as int,
    ) + comma + l.subrange(m.margin_l_end + 1, m.margin_r_end as int) + comma + l.subrange(
        m.margin_r_end + 1,
        m.margin_v_end as int,
    ) + comma + l.subrange(m.margin_v_end + 1, m.effect_end as int) + comma + l.subrange(
        m.effect_end + 1,
        m.text_end as int,
    )
}

/// `l[a..c]` is `l[a..b]` followed by `l[b..c]`.
proof fn lemma_extend(l: Seq<char>, a: int, b: int, c: int)
    requires
        0 <= a <= b <= c <= l.len(),
    ensures
        l.subrange(a, c) == l.subrange(a, b) + l.subrange(b, c),
{
    assert(l.subrange(a, c) =~= l.subrange(a, b) + l.subrange(b, c));
}

/// `l[a..c]` is `l[a..b]` followed by the comma at `b` and `l[b + 1..c]`.
proof fn lemma_extend_comma(l: Seq<char>, a: int, b: int, c: int)
    requires
        0 <= a <= b < c <= l.len(),
        l[b] == ',',
    ensures
        l.subrange(a, b + 1) == l.subrange(a, b) + seq![','],
        l.subrange(a, c) == l.subrange(a, b + 1) + l.subrange(b + 1, c),
{
    assert(l.subrange(a, b + 1) =~= l.subrange(a, b) + seq![',']);
    lemma_extend(l, a, b + 1, c);
}

/// A matched event line, from where the match starts to the end of its
/// line, is its fields joined by the separators of the format. The format
/// holds only letters and spaces, the layer and the margins only digits,
/// the style and the effect no comma, the text no line break, and the match
/// ends at a line break or at the end of `l`.
pub proof fn event_fields_rebuild_the_line(l: Seq<char>)
    requires
        l.len() <= usize::MAX,
    ensures
        event_match(l) matches Some(m) ==> {
            let q = m.layer_end as int;
            &&& l.subrange(m.start as int, m.text_end as int) == event_fields_joined(l, m)
            &&& all_in(l, m.effect_end + 1, m.text_end as int, |c: char| c != '\n')
            &&& (m.text_end == l.len() || l[m.text_end as int] == '\n')
            &&& all_in(l, m.start as int, m.format_end as int, |c: char| is_format_char(c))
            &&& all_in(l, m.format_end + 2, q, |c: char| is_digit(c))
            &&& all_in(l, q + 23, m.style_end as int, |c: char| c != ',')
            &&& all_in(l, m.name_end + 1, m.margin_l_end as int, |c: char| is_digit(c))
            &&& all_in(l, m.margin_l_end + 1, m.margin_r_end as int, |c: char| is_digit(c))
            &&& all_in(l, m.margin_r_end + 1, m.margin_v_end as int, |c: char| is_digit(c))
            &&& all_in(l, m.margin_v_end + 1, m.effect_end as int, |c: char| c != ',')
        },
{
    reveal(event_match);
    lemma_event_search_start(l, 0);
    if let Some(m) = event_match(l) {
        let s = m.start as int;
        let f = m.format_end as int;
        let q = m.layer_end as int;
        let sc = m.style_end as int;
        let e = m.name_end as int;
        let a = m.margin_l_end as int;
        let b = m.margin_r_end as int;
        let c = m.margin_v_end as int;
        let d = m.effect_end as int;
        let n = m.text_end as int;
        lemma_event_at(l, s);
        assert(l.subrange(s, f + 2) =~= l.subrange(s, f) + seq![':', ' ']);
        lemma_extend(l, s, f + 2, q);
        lemma_extend_comma(l, s, q, q + 11);
        lemma_extend_comma(l, s, q + 11, q + 22);
        lemma_extend_comma(l, s, q + 22, sc);
        lemma_extend_comma(l, s, sc, e);
        lemma_extend_comma(l, s, e, a);
        lemma_extend_comma(l, s, a, b);
        lemma_extend_comma(l, s, b, c);
        lemma_extend_comma(l, s, c, d);
        lemma_extend_comma(l, s, d, n);
    }
}

/// The text of a style line rebuilt from the fields of the match `m`:
/// `Format: Name,Fontname,Fontsize,Primary,Secondary,Outline,Back,Bold,Italic,Underline,StrikeOut,ScaleX,ScaleY,Spacing,Angle,BorderStyle,Outline,Shadow,Alignment,MarginL,MarginR,MarginV,Encoding`.
pub open spec fn style_fields_joined(l: Seq<char>, m: StyleSpans) -> Seq<char> {
    let r = m.rest;
    let fs = r.fontsize_end as int;
    let comma = seq![','];
    l.subrange(m.start as int, m.format_end as int) + seq![':', ' '] + l.subrange(
        m.format_end + 2,
        m.name_end as int,
    ) + comma + l.subrange(m.name_end + 1, m.fontname_end as int) + comma + l.subrange(
        m.fontname_end + 1,
        fs,
    ) + comma + l.subrange(fs + 1, fs + 11) + comma + l.subrange(fs + 12, fs + 22) + comma
        + l.subrange(fs + 23, fs + 33) + comma + l.subrange(fs + 34, fs + 44) + comma + l.subrange(
        fs + 45,
        r.bold_end as int,
    ) + comma + l.subrange(r.bold_end + 1, r.italic_end as int) + comma + l.subrange(
        r.italic_end + 1,
        r.underline_end as int,
    ) + comma + l.subrange(r.underline_end + 1, r.strike_out_end as int) + comma + l.subrange(
        r.strike_out_end + 1,
        r.scale_x_end as int,
    ) + comma + l.subrange(r.scale_x_end + 1, r.scale_y_end as int) + comma + l.subrange(
        r.scale_y_end + 1,
        r.spacing_end as int,
    ) + comma + l.subrange(r.spacing_end + 1, r.angle_end as int) + comma + l.subrange(
        r.angle_end + 1,
        r.border_style_end as int,
    ) + comma + l.subrange(r.border_style_end + 1, r.outline_end as int) + comma + l.subrange(
        r.outline_end + 1,
        r.shadow_end as int,
    ) + comma + l.subrange(r.shadow_end + 1, r.shadow_end + 2) + comma + l.subrange(
        r.shadow_end + 3,
        r.margin_l_end as int,
    ) + comma + l.subrange(r.margin_l_end + 1, r.margin_r_end as int) + comma + l.subrange(
        r.margin_r_end + 1,
        r.margin_v_end as int,
    ) + comma + l.subrange(r.margin_v_end + 1, r.margin_v_end + 2)
}

/// A bold, italic, underline or strike-out field: `-?[0-9]`.
pub open spec fn is_flag_field(x: Seq<char>) -> bool {
    (x.len() == 1 && is_digit(x[0])) || (x.len() == 2 && x[0] == '-' && is_digit(x[1]))
}

proof fn lemma_encoding_comma(l: Seq<char>, i: int)
    requires
        0 <= i,
    ensures
        encoding_comma(l, i) matches Some(x) ==> i <= x && x + 1 < l.len() && l[x] == ','
            && is_digit(l[x + 1]),
    decreases l.len() - i,
{
    if !(i < 0 || i >= l.len()) && !(l[i] == ',' && digit_at(l, i + 1)) {
        lemma_encoding_comma(l, i + 1);
    }
}

proof fn lemma_style_margins(l: Seq<char>, h: int)
    requires
        0 <= h,
    ensures
        style_margins(l, h) matches Some((m1, m2, m3)) ==> {
            &&& h + 3 <= m1 < m2 < m3 && m3 + 1 < l.len()
            &&& is_digit(l[h + 1]) && l[h + 2] == ','
            &&& l[m1] == ',' && l[m2] == ',' && l[m3] == ',' && is_digit(l[m3 + 1])
            &&& all_in(l, h + 3, m1, |c: char| c != ',')
            &&& all_in(l, m1 + 1, m2, |c: char| c != ',')
        },
{
    lemma_next_comma(l, h + 3);
    if let Some(m1) = next_comma(l, h + 3) {
        lemma_next_comma(l, m1 + 1);
        if let Some(m2) = next_comma(l, m1 + 1) {
            lemma_encoding_comma(l, m2 + 1);
        }
    }
}

proof fn lemma_shadow_end(l: Seq<char>, i: int)
    requires
        0 <= i,
    ensures
        shadow_end(l, i) matches Some(h) ==> i <= h < l.len() && l[h] == ',' && style_margins(l, h) is Some,
    decreases l.len() - i,
{
    if !(i < 0 || i >= l.len()) && !(l[i] == ',' && style_margins(l, i) is Some) {
        lemma_shadow_end(l, i + 1);
    }
}

proof fn lemma_style_tail(l: Seq<char>, t: int)
    requires
        0 <= t,
    ensures
        style_tail(l, t) matches Some((c1, c2, c3, c4, h, m1, m2, m3)) ==> {
            &&& t <= c1 < c2 < c3 < c4 < h
            &&& l[c1] == ',' && l[c2] == ',' && l[c3] == ',' && l[c4] == ',' && l[h] == ','
            &&& all_in(l, t, c1, |c: char| c != ',')
            &&& all_in(l, c1 + 1, c2, |c: char| c != ',')
            &&& all_in(l, c2 + 1, c3, |c: char| c != ',')
            &&& all_in(l, c3 + 1, c4, |c: char| c != ',')
            &&& style_margins(l, h) == Some((m1, m2, m3))
        },
{
    lemma_next_comma(l, t);
    if let Some(c1) = next_comma(l, t) {
        lemma_next_comma(l, c1 + 1);
        if let Some(c2) = next_comma(l, c1 + 1) {
            lemma_next_comma(l, c2 + 1);
            if let Some(c3) = next_comma(l, c2 + 1) {
                lemma_next_comma(l, c3 + 1);
                if let Some(c4) = next_comma(l, c3 + 1) {
                    lemma_shadow_end(l, c4 + 1);
                }
            }
        }
    }
}

proof fn lemma_flag(l: Seq<char>, p: int)
    requires
        0 <= p,
    ensures
        flag_then_comma(l, p) matches Some(x) ==> p < x < l.len() && l[x] == ',' && is_flag_field(
            l.subrange(p, x),
        ),
{
}

proof fn lemma_scale(l: Seq<char>, p: int)
    requires
        0 <= p <= l.len(),
    ensures
        scale_then_comma(l, p) matches Some(x) ==> p < x <= p + 3 && x < l.len() && l[x] == ','
            && all_in(l, p, x, |c: char| is_digit(c)),
{
    lemma_digit_run(l, p);
}

proof fn lemma_style_rest(l: Seq<char>, b: int)
    requires
        0 <= b < l.len(),
        l.len() <= usize::MAX,
    ensures
        style_rest(l, b) matches Some(r) ==> {
            let fs = r.fontsize_end as int;
            &&& b < fs && fs + 44 < r.bold_end < r.italic_end < r.underline_end < r.strike_out_end
                < r.scale_x_end < r.scale_y_end < r.spacing_end < r.angle_end < r.border_style_end
                < r.outline_end < r.shadow_end
            &&& r.shadow_end + 3 <= r.margin_l_end < r.margin_r_end < r.margin_v_end
            &&& r.margin_v_end + 1 < l.len()
            &&& l[fs] == ',' && l[fs + 11] == ',' && l[fs + 22] == ',' && l[fs + 33] == ',' && l[fs + 44] == ','
            &&& l[r.bold_end as int] == ',' && l[r.italic_end as int] == ',' && l[r.underline_end as int]
                == ',' && l[r.strike_out_end as int] == ','
            &&& l[r.scale_x_end as int] == ',' && l[r.scale_y_end as int] == ','
            &&& l[r.spacing_end as int] == ',' && l[r.angle_end as int] == ',' && l[r.border_style_end as int]
                == ',' && l[r.outline_end as int] == ',' && l[r.shadow_end as int] == ','
            &&& l[r.shadow_end + 2] == ',' && l[r.margin_l_end as int] == ',' && l[r.margin_r_end as int]
                == ',' && l[r.margin_v_end as int] == ','
            &&& all_in(l, b + 1, fs, |c: char| is_digit(c))
            &&& colour_at(l, fs + 1) && colour_at(l, fs + 12) && colour_at(l, fs + 23) && colour_at(l, fs + 34)
            &&& is_flag_field(l.subrange(fs + 45, r.bold_end as int))
            &&& is_flag_field(l.subrange(r.bold_end + 1, r.italic_end as int))
            &&& is_flag_field(l.subrange(r.italic_end + 1, r.underline_end as int))
            &&& is_flag_field(l.subrange(r.underline_end + 1, r.strike_out_end as int))
            &&& r.scale_x_end <= r.strike_out_end + 4 && all_in(l, r.strike_out_end + 1, r.scale_x_end as int, |c: char| is_digit(c))
            &&& r.scale_y_end <= r.scale_x_end + 4 && all_in(l, r.scale_x_end + 1, r.scale_y_end as int, |c: char| is_digit(c))
            &&& all_in(l, r.scale_y_end + 1, r.spacing_end as int, |c: char| c != ',')
            &&& all_in(l, r.spacing_end + 1, r.angle_end as int, |c: char| c != ',')
            &&& all_in(l, r.angle_end + 1, r.border_style_end as int, |c: char| c != ',')
            &&& all_in(l, r.border_style_end + 1, r.outline_end as int, |c: char| c != ',')
            &&& is_digit(l[r.shadow_end + 1])
            &&& all_in(l, r.shadow_end + 3, r.margin_l_end as int, |c: char| c != ',')
            &&& all_in(l, r.margin_l_end + 1, r.margin_r_end as int, |c: char| c != ',')
            &&& is_digit(l[r.margin_v_end + 1])
        },
{
    lemma_digit_run(l, b + 1);
    if let Some(fs) = digits_then_comma(l, b + 1) {
        if colour_at(l, fs + 1) && colour_at(l, fs + 12) && colour_at(l, fs + 23) && colour_at(l, fs + 34) {
            lemma_flag(l, fs + 45);
            if let Some(bo) = flag_then_comma(l, fs + 45) {
                lemma_flag(l, bo + 1);
                if let Some(it) = flag_then_comma(l, bo + 1) {
                    lemma_flag(l, it + 1);
                    if let Some(un) = flag_then_comma(l, it + 1) {
                        lemma_flag(l, un + 1);
                        if let Some(st) = flag_then_comma(l, un + 1) {
                            lemma_scale(l, st + 1);
                            if let Some(sx) = scale_then_comma(l, st + 1) {
                                lemma_scale(l, sx + 1);
                                if let Some(sy) = scale_then_comma(l, sx + 1) {
                                    lemma_style_tail(l, sy + 1);
                                    if let Some((c1, c2, c3, c4, h, m1, m2, m3)) = style_tail(l, sy + 1) {
                                        lemma_style_margins(l, h);
                                    }
                                }
                            }
                        }
                    }
                }
            }
        }
    }
}

proof fn lemma_fontname_end(l: Seq<char>, i: int)
    requires
        0 <= i,
    ensures
        fontname_end(l, i) matches Some(b) ==> i <= b < l.len() && l[b] == ',' && style_rest(l, b) is Some,
    decreases l.len() - i,
{
    if !(i < 0 || i >= l.len()) && !(l[i] == ',' && style_rest(l, i) is Some) {
        lemma_fontname_end(l, i + 1);
    }
}

/// The separators of a style match lie where they should, in order.
pub open spec fn style_separators(l: Seq<char>, m: StyleSpans) -> bool {
    let r = m.rest;
    let fs = r.fontsize_end as int;
    &&& m.start <= m.format_end && m.format_end + 2 <= m.name_end < m.fontname_end < fs
    &&& fs + 44 < r.bold_end < r.italic_end < r.underline_end < r.strike_out_end < r.scale_x_end
        < r.scale_y_end < r.spacing_end < r.angle_end < r.border_style_end < r.outline_end
        < r.shadow_end
    &&& r.shadow_end + 3 <= r.margin_l_end < r.margin_r_end < r.margin_v_end
    &&& r.margin_v_end + 1 < l.len()
    &&& l[m.format_end as int] == ':' && l[m.format_end + 1] == ' '
    &&& l[m.name_end as int] == ',' && l[m.fontname_end as int] == ','
    &&& l[fs] == ',' && l[fs + 11] == ',' && l[fs + 22] == ',' && l[fs + 33] == ',' && l[fs + 44] == ','
    &&& l[r.bold_end as int] == ',' && l[r.italic_end as int] == ',' && l[r.underline_end as int]
        == ',' && l[r.strike_out_end as int] == ','
    &&& l[r.scale_x_end as int] == ',' && l[r.scale_y_end as int] == ','
    &&& l[r.spacing_end as int] == ',' && l[r.angle_end as int] == ',' && l[r.border_style_end as int]
        == ',' && l[r.outline_end as int] == ',' && l[r.shadow_end as int] == ','
    &&& l[r.shadow_end + 2] == ',' && l[r.margin_l_end as int] == ',' && l[r.margin_r_end as int]
        == ',' && l[r.margin_v_end as int] == ','
}

/// The fields of a style match have the classes their places call for.
pub open spec fn style_field_classes(l: Seq<char>, m: StyleSpans) -> bool {
    let r = m.rest;
    let fs = r.fontsize_end as int;
    &&& all_in(l, m.start as int, m.format_end as int, |c: char| is_format_char(c))
    &&& all_in(l, m.format_end + 2, m.name_end as int, |c: char| c != ',')
    &&& all_in(l, m.fontname_end + 1, fs, |c: char| is_digit(c))
    &&& l[fs + 1] == '&' && all_in(l, fs + 2, fs + 11, |c: char| is_colour_char(c))
    &&& l[fs + 12] == '&' && all_in(l, fs + 13, fs + 22, |c: char| is_colour_char(c))
    &&& l[fs + 23] == '&' && all_in(l, fs + 24, fs + 33, |c: char| is_colour_char(c))
    &&& l[fs + 34] == '&' && all_in(l, fs + 35, fs + 44, |c: char| is_colour_char(c))
    &&& is_flag_field(l.subrange(fs + 45, r.bold_end as int))
    &&& is_flag_field(l.subrange(r.bold_end + 1, r.italic_end as int))
    &&& is_flag_field(l.subrange(r.italic_end + 1, r.underline_end as int))
    &&& is_flag_field(l.subrange(r.underline_end + 1, r.strike_out_end as int))
    &&& r.strike_out_end + 1 < r.scale_x_end <= r.strike_out_end + 4
    &&& all_in(l, r.strike_out_end + 1, r.scale_x_end as int, |c: char| is_digit(c))
    &&& r.scale_x_end + 1 < r.scale_y_end <= r.scale_x_end + 4
    &&& all_in(l, r.scale_x_end + 1, r.scale_y_end as int, |c: char| is_digit(c))
    &&& all_in(l, r.scale_y_end + 1, r.spacing_end as int, |c: char| c != ',')
    &&& all_in(l, r.spacing_end + 1, r.angle_end as int, |c: char| c != ',')
    &&& all_in(l, r.angle_end + 1, r.border_style_end as int, |c: char| c != ',')
    &&& all_in(l, r.border_style_end + 1, r.outline_end as int, |c: char| c != ',')
    &&& is_digit(l[r.shadow_end + 1])
    &&& all_in(l, r.shadow_end + 3, r.margin_l_end as int, |c: char| c != ',')
    &&& all_in(l, r.margin_l_end + 1, r.margin_r_end as int, |c: char| c != ',')
    &&& is_digit(l[r.margin_v_end + 1])
}

#[verifier::rlimit(80)]
proof fn lemma_style_at(l: Seq<char>, s: int)
    requires
        0 <= s <= l.len(),
        l.len() <= usize::MAX,
    ensures
        style_at(l, s) matches Some(m) ==> m.start == s && style_separators(l, m) && style_field_classes(l, m),
{
    let f = format_run_end(l, s);
    lemma_format_run(l, s);
    if char_is(l, f, ':') && char_is(l, f + 1, ' ') {
        lemma_next_comma(l, f + 2);
        if let Some(n) = next_comma(l, f + 2) {
            lemma_fontname_end(l, n + 1);
            if let Some(b) = fontname_end(l, n + 1) {
                lemma_style_rest(l, b);
                if let Some(r) = style_rest(l, b) {
                    let fs = r.fontsize_end as int;
                    assert forall|k: int| fs + 2 <= k < fs + 11 implies is_colour_char(#[trigger] l[k]) by {
                        assert(is_colour_char(l[(fs + 1) + (k - (fs + 1))]));
                    }
                    assert forall|k: int| fs + 13 <= k < fs + 22 implies is_colour_char(#[trigger] l[k]) by {
                        assert(is_colour_char(l[(fs + 12) + (k - (fs + 12))]));
                    }
                    assert forall|k: int| fs + 24 <= k < fs + 33 implies is_colour_char(#[trigger] l[k]) by {
                        assert(is_colour_char(l[(fs + 23) + (k - (fs + 23))]));
                    }
                    assert forall|k: int| fs + 35 <= k < fs + 44 implies is_colour_char(#[trigger] l[k]) by {
                        assert(is_colour_char(l[(fs + 34) + (k - (fs + 34))]));
                    }
                }
            }
        }
    }
}

#[verifier::rlimit(80)]
proof fn lemma_style_join(l: Seq<char>, m: StyleSpans)
    requires
        style_separators(l, m),
    ensures
        l.subrange(m.start as int, m.rest.margin_v_end + 2) == style_fields_joined(l, m),
{
    let r = m.rest;
    let fs = r.fontsize_end as int;
    let s = m.start as int;
    let f = m.format_end as int;
    let e = r.margin_v_end + 2;
    assert(l.subrange(s, f + 2) =~= l.subrange(s, f) + seq![':', ' ']);
    lemma_extend(l, s, f + 2, m.name_end as int);
    lemma_extend_comma(l, s, m.name_end as int, e);
    lemma_extend_comma(l, s, m.fontname_end as int, e);
    lemma_extend_comma(l, s, fs, e);
    lemma_extend_comma(l, s, fs + 11, e);
    lemma_extend_comma(l, s, fs + 22, e);
    lemma_extend_comma(l, s, fs + 33, e);
    lemma_extend_comma(l, s, fs + 44, e);
    lemma_extend_comma(l, s, r.bold_end as int, e);
    lemma_extend_comma(l, s, r.italic_end as int, e);
    lemma_extend_comma(l, s, r.underline_end as int, e);
    lemma_extend_comma(l, s, r.strike_out_end as int, e);
    lemma_extend_comma(l, s, r.scale_x_end as int, e);
    lemma_extend_comma(l, s, r.scale_y_end as int, e);
    lemma_extend_comma(l, s, r.spacing_end as int, e);
    lemma_extend_comma(l, s, r.angle_end as int, e);
    lemma_extend_comma(l, s, r.border_style_end as int, e);
    lemma_extend_comma(l, s, r.outline_end as int, e);
    lemma_extend_comma(l, s, r.shadow_end as int, e);
    lemma_extend_comma(l, s, r.shadow_end + 2, e);
    lemma_extend_comma(l, s, r.margin_l_end as int, e);
    lemma_extend_comma(l, s, r.margin_r_end as int, e);
    lemma_extend_comma(l, s, r.margin_v_end as int, e);
}

/// A matched style line, from where the match starts to its encoding, is
/// its fields joined by the separators of the format, and each field has
/// the class its place calls for: the format holds only letters and spaces,
/// the name no comma, the font size only digits; each colour is `&` and nine
/// characters of `[A-Z 0-9]`; bold, italic, underline and strike-out are
/// `-?[0-9]`; the scales are one to three digits; spacing, angle, border
/// style, outline and the left and right margins hold no comma; alignment
/// and encoding are one digit each.
pub proof fn style_fields_rebuild_the_line(l: Seq<char>)
    requires
        l.len() <= usize::MAX,
    ensures
        style_match(l) matches Some(m) ==> {
            &&& l.subrange(m.start as int, m.rest.margin_v_end + 2) == style_fields_joined(l, m)
            &&& style_field_classes(l, m)
        },
{
    reveal(style_match);
    lemma_style_search_start(l, 0);
    if let Some(m) = style_match(l) {
        lemma_style_at(l, m.start as int);
        lemma_style_join(l, m);
    }
}

// ---------------------------------------------------------------------------
// Which split of a line a pattern chooses

/// `m` splits `l` the way the entry pattern `(.*?): (.*)` allows: from
/// `start`, a key of characters other than a line break, `": "`, and a value
/// of characters other than a line break.
pub open spec fn is_entry_split(l: Seq<char>, m: InfoSpans) -> bool {
    &&& m.start <= m.separator
    &&& m.separator + 2 <= m.end <= l.len()
    &&& l[m.separator as int] == ':' && l[m.separator + 1] == ' '
    &&& all_in(l, m.start as int, m.separator as int, |c: char| c != '\n')
    &&& all_in(l, m.separator + 2, m.end as int, |c: char| c != '\n')
}

/// `m` comes no later than `m2` in the order in which a leftmost-first
/// matcher prefers the splits of the entry pattern: the earlier start, then
/// the shorter (lazy) key, then the longer (greedy) value.
pub open spec fn entry_split_first(m: InfoSpans, m2: InfoSpans) -> bool {
    ||| m.start < m2.start
    ||| m.start == m2.start && m.separator < m2.separator
    ||| m.start == m2.start && m.separator == m2.separator && m.end >= m2.end
}

/// A `": "` at `x`, with no line break from `i` to it, is found by the
/// separator search from `i`, there or earlier.
proof fn lemma_key_separator_reaches(l: Seq<char>, i: int, x: int)
    requires
        0 <= i <= x,
        x + 1 < l.len(),
        l[x] == ':' && l[x + 1] == ' ',
        all_in(l, i, x, |c: char| c != '\n'),
    ensures
        key_separator(l, i) matches Some(k) && i <= k <= x,
    decreases x - i,
{
    if !(l[i] == ':' && l[i + 1] == ' ') {
        assert(l[i] != '\n');
        lemma_key_separator_reaches(l, i + 1, x);
    }
}

/// With no line break from `i` to `x`, the line runs at least to `x`.
proof fn lemma_line_end_reaches(l: Seq<char>, i: int, x: int)
    requires
        0 <= i <= x <= l.len(),
        all_in(l, i, x, |c: char| c != '\n'),
    ensures
        line_end(l, i) >= x,
    decreases x - i,
{
    lemma_line_end(l, i);
    if i < x {
        assert(l[i] != '\n');
        lemma_line_end_reaches(l, i + 1, x);
    }
}

/// The search from `s0` on stops at the first position where a separator
/// is found, and finds none only where there is none.
proof fn lemma_info_search_first(l: Seq<char>, s0: int)
    requires
        0 <= s0,
        l.len() <= usize::MAX,
    ensures
        info_search(l, s0) matches Some(m) ==> s0 <= m.start && forall|s: int|
            s0 <= s < m.start ==> #[trigger] key_separator(l, s) is None,
        info_search(l, s0) is None ==> forall|s: int|
            s0 <= s <= l.len() ==> #[trigger] key_separator(l, s) is None,
    decreases l.len() + 1 - s0,
{
    if s0 <= l.len() && key_separator(l, s0) is None {
        lemma_info_search_first(l, s0 + 1);
    }
}

/// The entry pattern matches `l` exactly when some split of `l` has the
/// pattern's shape, and the match is the split that a leftmost-first
/// matcher prefers: it starts first, its key is the shortest and its value
/// the longest.
pub proof fn entry_match_is_the_preferred_split(l: Seq<char>)
    requires
        l.len() <= usize::MAX,
    ensures
        info_match(l) matches Some(m) ==> is_entry_split(l, m) && forall|m2: InfoSpans|
            is_entry_split(l, m2) ==> entry_split_first(m, m2),
        info_match(l) is None ==> forall|m2: InfoSpans| !is_entry_split(l, m2),
{
    lemma_info_search_start(l, 0);
    lemma_info_search_first(l, 0);
    if let Some(m) = info_match(l) {
        lemma_key_separator(l, m.start as int);
        lemma_line_end(l, m.separator + 2);
        assert forall|m2: InfoSpans| is_entry_split(l, m2) implies entry_split_first(m, m2) by {
            lemma_key_separator_reaches(l, m2.start as int, m2.separator as int);
            if m2.start == m.start && m2.separator == m.separator {
                lemma_line_end_reaches(l, m.separator + 2, m2.end as int);
            }
        }
    } else {
        assert forall|m2: InfoSpans| !is_entry_split(l, m2) by {
            if is_entry_split(l, m2) {
                lemma_key_separator_reaches(l, m2.start as int, m2.separator as int);
            }
        }
    }
}

/// `m` splits `l` the way the event pattern allows:
/// `[a-z A-Z]*: [0-9]*?,` then two clocks, then `.*?,` for the style and
/// the name, `[0-9]*?,` for each margin, `.*?,` for the effect and `.*` for
/// the text, where `.` is any character but a line break.
pub open spec fn is_event_split(l: Seq<char>, m: EventSpans) -> bool {
    let q = m.layer_end as int;
    &&& m.start <= m.format_end
    &&& m.format_end + 2 <= q
    &&& q + 23 <= m.style_end < m.name_end < m.margin_l_end < m.margin_r_end < m.margin_v_end < m.effect_end
    &&& m.effect_end + 1 <= m.text_end <= l.len()
    &&& all_in(l, m.start as int, m.format_end as int, |c: char| is_format_char(c))
    &&& l[m.format_end as int] == ':' && l[m.format_end + 1] == ' '
    &&& all_in(l, m.format_end + 2, q, |c: char| is_digit(c)) && l[q] == ','
    &&& clock_at(l, q + 1) && clock_at(l, q + 12)
    &&& all_in(l, q + 23, m.style_end as int, |c: char| c != '\n') && l[m.style_end as int] == ','
    &&& all_in(l, m.style_end + 1, m.name_end as int, |c: char| c != '\n') && l[m.name_end as int] == ','
    &&& all_in(l, m.name_end + 1, m.margin_l_end as int, |c: char| is_digit(c)) && l[m.margin_l_end as int] == ','
    &&& all_in(l, m.margin_l_end + 1, m.margin_r_end as int, |c: char| is_digit(c)) && l[m.margin_r_end as int] == ','
    &&& all_in(l, m.margin_r_end + 1, m.margin_v_end as int, |c: char| is_digit(c)) && l[m.margin_v_end as int] == ','
    &&& all_in(l, m.margin_v_end + 1, m.effect_end as int, |c: char| c != '\n') && l[m.effect_end as int] == ','
    &&& all_in(l, m.effect_end + 1, m.text_end as int, |c: char| c != '\n')
}

/// `m` comes no later than `m2` in the order in which a leftmost-first
/// matcher prefers the splits of the event pattern: the earlier start, then
/// the shorter style, name and effect, in this order (all lazy), then the
/// longer (greedy) text. The format, the layer and the margins have no
/// choice: the start fixes the first two, the name's end the margins.
pub open spec fn event_split_first(m: EventSpans, m2: EventSpans) -> bool {
    ||| m.start < m2.start
    ||| m.start == m2.start && m.style_end < m2.style_end
    ||| m.start == m2.start && m.style_end == m2.style_end && m.name_end < m2.name_end
    ||| m.start == m2.start && m.style_end == m2.style_end && m.name_end == m2.name_end
        && m.effect_end < m2.effect_end
    ||| m.start == m2.start && m.style_end == m2.style_end && m.name_end == m2.name_end
        && m.effect_end == m2.effect_end && m.text_end >= m2.text_end
}

/// A run of letters and spaces from `i` that stops at `x` ends at `x`.
proof fn lemma_format_run_exact(l: Seq<char>, i: int, x: int)
    requires
        0 <= i <= x < l.len(),
        all_in(l, i, x, |c: char| is_format_char(c)),
        !is_format_char(l[x]),
    ensures
        format_run_end(l, i) == x,
    decreases x - i,
{
    if i < x {
        assert(is_format_char(l[i]));
        lemma_format_run_exact(l, i + 1, x);
    }
}

/// A run of digits from `i` that stops at `x` ends at `x`.
proof fn lemma_digit_run_exact(l: Seq<char>, i: int, x: int)
    requires
        0 <= i <= x < l.len(),
        all_in(l, i, x, |c: char| is_digit(c)),
        !is_digit(l[x]),
    ensures
        digit_run_end(l, i) == x,
    decreases x - i,
{
    if i < x {
        assert(is_digit(l[i]));
        lemma_digit_run_exact(l, i + 1, x);
    }
}

/// A comma at `x`, with no line break from `i` to it, is found by the comma
/// search from `i`, there or earlier.
proof fn lemma_next_comma_reaches(l: Seq<char>, i: int, x: int)
    requires
        0 <= i <= x < l.len(),
        l[x] == ',',
        all_in(l, i, x, |c: char| c != '\n'),
    ensures
        next_comma(l, i) matches Some(k) && i <= k <= x,
    decreases x - i,
{
    if l[i] != ',' {
        assert(l[i] != '\n');
        lemma_next_comma_reaches(l, i + 1, x);
    }
}

/// Margins and an effect after the comma that ends the name of `m2` are
/// found: the margins of `m2`, and an effect no longer than that of `m2`.
proof fn lemma_event_tail_reaches(l: Seq<char>, m2: EventSpans)
    requires
        is_event_split(l, m2),
    ensures
        event_tail(l, m2.name_end as int) matches Some((a, b, c, d)) && a == m2.margin_l_end
            && b == m2.margin_r_end && c == m2.margin_v_end && d <= m2.effect_end,
{
    lemma_digit_run_exact(l, m2.name_end + 1, m2.margin_l_end as int);
    lemma_digit_run_exact(l, m2.margin_l_end + 1, m2.margin_r_end as int);
    lemma_digit_run_exact(l, m2.margin_r_end + 1, m2.margin_v_end as int);
    lemma_next_comma_reaches(l, m2.margin_v_end + 1, m2.effect_end as int);
}

/// A comma at `x` after which margins and an effect follow, with no line
/// break from `i` to it, is found by the name search from `i`, there or
/// earlier.
proof fn lemma_event_name_end_reaches(l: Seq<char>, i: int, x: int)
    requires
        0 <= i <= x < l.len(),
        l[x] == ',',
        event_tail(l, x) is Some,
        all_in(l, i, x, |c: char| c != '\n'),
    ensures
        event_name_end(l, i) matches Some(k) && i <= k <= x,
    decreases x - i,
{
    if !(l[i] == ',' && event_tail(l, i) is Some) {
        assert(l[i] != '\n');
        lemma_event_name_end_reaches(l, i + 1, x);
    }
}

/// The search from `s0` on stops at the first position where the pattern
/// matches, and finds nothing only where it matches nowhere.
proof fn lemma_event_search_first(l: Seq<char>, s0: int)
    requires
        0 <= s0,
        l.len() <= usize::MAX,
    ensures
        event_search(l, s0) matches Some(m) ==> s0 <= m.start && forall|s: int|
            s0 <= s < m.start ==> #[trigger] event_at(l, s) is None,
        event_search(l, s0) is None ==> forall|s: int|
            s0 <= s <= l.len() ==> #[trigger] event_at(l, s) is None,
    decreases l.len() + 1 - s0,
{
    if s0 <= l.len() {
        if event_at(l, s0) is None {
            lemma_event_search_first(l, s0 + 1);
        } else {
            lemma_event_at(l, s0);
        }
    }
}

/// What the pattern matches from `s` on is a split of the event pattern.
proof fn lemma_event_at_is_split(l: Seq<char>, s: int)
    requires
        0 <= s <= l.len(),
        l.len() <= usize::MAX,
    ensures
        event_at(l, s) matches Some(m) ==> is_event_split(l, m),
{
    lemma_event_at(l, s);
    if let Some(m) = event_at(l, s) {
        let q = m.layer_end as int;
        lemma_next_comma(l, q + 23);
        lemma_event_name_end(l, m.style_end + 1);
        lemma_event_tail(l, m.name_end as int);
    }
}

/// Where a split of the event pattern starts, the pattern matches, and its
/// match is preferred to that split or is that split.
proof fn lemma_event_at_complete(l: Seq<char>, m2: EventSpans)
    requires
        is_event_split(l, m2),
        l.len() <= usize::MAX,
    ensures
        event_at(l, m2.start as int) matches Some(m) && m.start == m2.start && m.format_end
            == m2.format_end && m.layer_end == m2.layer_end && event_split_first(m, m2)
            && (m.name_end == m2.name_end ==> m.margin_l_end == m2.margin_l_end && m.margin_r_end
            == m2.margin_r_end && m.margin_v_end == m2.margin_v_end),
{
    let s = m2.start as int;
    let f = m2.format_end as int;
    let q = m2.layer_end as int;
    lemma_format_run_exact(l, s, f);
    lemma_digit_run_exact(l, f + 2, q);
    lemma_next_comma_reaches(l, q + 23, m2.style_end as int);
    let sc = next_comma(l, q + 23).unwrap();
    lemma_event_tail_reaches(l, m2);
    lemma_event_name_end_reaches(l, sc + 1, m2.name_end as int);
    let e = event_name_end(l, sc + 1).unwrap();
    lemma_event_name_end(l, sc + 1);
    lemma_event_tail(l, e);
    let (a, b, c, d) = event_tail(l, e).unwrap();
    assert(digits_then_comma(l, f + 2) == Some(q));
    lemma_line_end(l, d + 1);
    if e == m2.name_end && d == m2.effect_end {
        lemma_line_end_reaches(l, d + 1, m2.text_end as int);
    }
}

/// The event pattern matches `l` exactly when some split of `l` has the
/// pattern's shape, and the match is the split that a leftmost-first
/// matcher prefers: it starts first, its style, name and effect are the
/// shortest in this order, and its text the longest.
pub proof fn event_match_is_the_preferred_split(l: Seq<char>)
    requires
        l.len() <= usize::MAX,
    ensures
        event_match(l) matches Some(m) ==> is_event_split(l, m) && forall|m2: EventSpans|
            is_event_split(l, m2) ==> event_split_first(m, m2),
        event_match(l) is None ==> forall|m2: EventSpans| !is_event_split(l, m2),
{
    reveal(event_match);
    lemma_event_search_start(l, 0);
    lemma_event_search_first(l, 0);
    if let Some(m) = event_match(l) {
        lemma_event_at_is_split(l, m.start as int);
        assert forall|m2: EventSpans| is_event_split(l, m2) implies event_split_first(m, m2) by {
            lemma_event_at_complete(l, m2);
        }
    } else {
        assert forall|m2: EventSpans| !is_event_split(l, m2) by {
            if is_event_split(l, m2) {
                lemma_event_at_complete(l, m2);
            }
        }
    }
}

/// `.*?,` from `p`: characters other than a line break up to the comma at
/// `e`.
pub open spec fn lazy_span(l: Seq<char>, p: int, e: int) -> bool {
    &&& 0 <= p <= e < l.len()
    &&& all_in(l, p, e, |c: char| c != '\n')
    &&& l[e] == ','
}

/// `[0-9]*,` from `p`: digits up to the comma at `e`.
pub open spec fn digits_span(l: Seq<char>, p: int, e: int) -> bool {
    &&& 0 <= p <= e < l.len()
    &&& all_in(l, p, e, |c: char| is_digit(c))
    &&& l[e] == ','
}

/// `\-?[0-9],` from `p`, the comma at `e`.
pub open spec fn flag_span(l: Seq<char>, p: int, e: int) -> bool {
    &&& 0 <= p && e < l.len() && l[e] == ','
    &&& (e == p + 2 && l[p] == '-' && is_digit(l[p + 1])) || (e == p + 1 && is_digit(l[p]))
}

/// `[0-9]{1,3},` from `p`, the comma at `e`.
pub open spec fn scale_span(l: Seq<char>, p: int, e: int) -> bool {
    &&& 0 <= p < e <= p + 3 && e < l.len()
    &&& all_in(l, p, e, |c: char| is_digit(c))
    &&& l[e] == ','
}

/// `r` splits what follows the comma `b` that ends a font name the way the
/// style pattern allows: `Fontsize,` as digits, the four colours, the four
/// flags, the two scales, `Spacing,Angle,BorderStyle,Outline,Shadow,` as
/// `.*?,` each, a one-digit alignment, `MarginL,MarginR,MarginV,` as `.*?,`
/// each and a one-digit encoding.
pub open spec fn is_style_rest_split(l: Seq<char>, b: int, r: StyleRest) -> bool {
    let fs = r.fontsize_end as int;
    &&& digits_span(l, b + 1, fs)
    &&& colour_at(l, fs + 1) && colour_at(l, fs + 12) && colour_at(l, fs + 23) && colour_at(l, fs + 34)
    &&& flag_span(l, fs + 45, r.bold_end as int)
    &&& flag_span(l, r.bold_end + 1, r.italic_end as int)
    &&& flag_span(l, r.italic_end + 1, r.underline_end as int)
    &&& flag_span(l, r.underline_end + 1, r.strike_out_end as int)
    &&& scale_span(l, r.strike_out_end + 1, r.scale_x_end as int)
    &&& scale_span(l, r.scale_x_end + 1, r.scale_y_end as int)
    &&& lazy_span(l, r.scale_y_end + 1, r.spacing_end as int)
    &&& lazy_span(l, r.spacing_end + 1, r.angle_end as int)
    &&& lazy_span(l, r.angle_end + 1, r.border_style_end as int)
    &&& lazy_span(l, r.border_style_end + 1, r.outline_end as int)
    &&& lazy_span(l, r.outline_end + 1, r.shadow_end as int)
    &&& digit_at(l, r.shadow_end + 1) && char_is(l, r.shadow_end + 2, ',')
    &&& lazy_span(l, r.shadow_end + 3, r.margin_l_end as int)
    &&& lazy_span(l, r.margin_l_end + 1, r.margin_r_end as int)
    &&& lazy_span(l, r.margin_r_end + 1, r.margin_v_end as int)
    &&& digit_at(l, r.margin_v_end + 1)
}

/// `m` splits `l` the way the style pattern allows: `[a-z A-Z]*: `, then
/// `Name,` and `Fontname,` as `.*?,` each, then the rest of a style.
pub open spec fn is_style_split(l: Seq<char>, m: StyleSpans) -> bool {
    &&& m.start <= m.format_end
    &&& all_in(l, m.start as int, m.format_end as int, |c: char| is_format_char(c))
    &&& char_is(l, m.format_end as int, ':') && char_is(l, m.format_end + 1, ' ')
    &&& lazy_span(l, m.format_end + 2, m.name_end as int)
    &&& lazy_span(l, m.name_end + 1, m.fontname_end as int)
    &&& is_style_rest_split(l, m.fontname_end as int, m.rest)
}

/// `r` comes no later than `r2` in the order in which a leftmost-first
/// matcher prefers them: the shorter spacing, angle, border style, outline,
/// shadow and margins, in this order (all lazy).
pub open spec fn style_rest_first(r: StyleRest, r2: StyleRest) -> bool {
    ||| r.spacing_end < r2.spacing_end
    ||| r.spacing_end == r2.spacing_end && (r.angle_end < r2.angle_end || r.angle_end == r2.angle_end
        && (r.border_style_end < r2.border_style_end || r.border_style_end == r2.border_style_end
        && (r.outline_end < r2.outline_end || r.outline_end == r2.outline_end && (r.shadow_end
        < r2.shadow_end || r.shadow_end == r2.shadow_end && (r.margin_l_end < r2.margin_l_end
        || r.margin_l_end == r2.margin_l_end && (r.margin_r_end < r2.margin_r_end
        || r.margin_r_end == r2.margin_r_end && r.margin_v_end <= r2.margin_v_end))))))
}

/// `m` comes no later than `m2` in the order in which a leftmost-first
/// matcher prefers the splits of the style pattern: the earlier start, then
/// the shorter name and font name, then the rest in its own order. The
/// format, the font size, the colours, the flags and the scales have no
/// choice: the start fixes the format, the font name's end the others.
pub open spec fn style_split_first(m: StyleSpans, m2: StyleSpans) -> bool {
    ||| m.start < m2.start
    ||| m.start == m2.start && m.name_end < m2.name_end
    ||| m.start == m2.start && m.name_end == m2.name_end && m.fontname_end < m2.fontname_end
    ||| m.start == m2.start && m.name_end == m2.name_end && m.fontname_end == m2.fontname_end
        && style_rest_first(m.rest, m2.rest)
}

/// The fields of two splits of the rest of a style that have no choice.
pub open spec fn style_rest_fixed_alike(r: StyleRest, r2: StyleRest) -> bool {
    &&& r.fontsize_end == r2.fontsize_end && r.bold_end == r2.bold_end && r.italic_end == r2.italic_end
    &&& r.underline_end == r2.underline_end && r.strike_out_end == r2.strike_out_end
    &&& r.scale_x_end == r2.scale_x_end && r.scale_y_end == r2.scale_y_end
}

/// No line break lies from `j` to `y` when `[i, x)` is a lazy field ending
/// at the comma `x`, no line break lies from `x + 1` to `y`, and `j` is not
/// before `i`.
proof fn lemma_no_break_across(l: Seq<char>, i: int, j: int, x: int, y: int)
    requires
        i <= j,
        lazy_span(l, i, x),
        all_in(l, x + 1, y, |c: char| c != '\n'),
    ensures
        all_in(l, j, y, |c: char| c != '\n'),
{
    assert forall|k: int| j <= k < y implies #[trigger] l[k] != '\n' by {
        if k < x {
            assert(l[k] != '\n');
        } else if k > x {
            assert(l[k] != '\n');
        }
    }
}

/// A comma at `x` followed by a digit, with no line break from `i` to it,
/// is found by the search for the comma before the encoding, there or
/// earlier.
proof fn lemma_encoding_comma_reaches(l: Seq<char>, i: int, x: int)
    requires
        0 <= i <= x,
        l[x] == ',',
        digit_at(l, x + 1),
        all_in(l, i, x, |c: char| c != '\n'),
    ensures
        encoding_comma(l, i) matches Some(k) && i <= k <= x,
    decreases x - i,
{
    if !(l[i] == ',' && digit_at(l, i + 1)) {
        assert(l[i] != '\n');
        lemma_encoding_comma_reaches(l, i + 1, x);
    }
}

/// Margins after the comma `h` of a split are found, each no longer than
/// in that split.
proof fn lemma_style_margins_reaches(l: Seq<char>, h: int, x1: int, x2: int, x3: int)
    requires
        0 <= h,
        digit_at(l, h + 1) && char_is(l, h + 2, ','),
        lazy_span(l, h + 3, x1),
        lazy_span(l, x1 + 1, x2),
        lazy_span(l, x2 + 1, x3),
        digit_at(l, x3 + 1),
    ensures
        style_margins(l, h) matches Some((a, b, c)) && a <= x1 && b <= x2 && c <= x3,
{
    lemma_no_break_across(l, x1 + 1, x1 + 1, x2, x3);
    lemma_no_break_across(l, h + 3, h + 3, x1, x3);
    lemma_next_comma_reaches(l, h + 3, x1);
    let a = next_comma(l, h + 3).unwrap();
    lemma_next_comma_reaches(l, a + 1, x2);
    let b = next_comma(l, a + 1).unwrap();
    lemma_encoding_comma_reaches(l, b + 1, x3);
}

/// No line break lies between `i` and the comma the shadow search finds.
proof fn lemma_shadow_end_no_break(l: Seq<char>, i: int)
    requires
        0 <= i,
    ensures
        shadow_end(l, i) matches Some(h) ==> all_in(l, i, h, |c: char| c != '\n'),
    decreases l.len() - i,
{
    if !(i < 0 || i >= l.len()) && !(l[i] == ',' && style_margins(l, i) is Some) {
        lemma_shadow_end_no_break(l, i + 1);
    }
}

/// No line break lies between `i` and the comma the font name search finds.
proof fn lemma_fontname_end_no_break(l: Seq<char>, i: int)
    requires
        0 <= i,
    ensures
        fontname_end(l, i) matches Some(b) ==> all_in(l, i, b, |c: char| c != '\n'),
    decreases l.len() - i,
{
    if !(i < 0 || i >= l.len()) && !(l[i] == ',' && style_rest(l, i) is Some) {
        lemma_fontname_end_no_break(l, i + 1);
    }
}

/// No line break lies between `i` and the comma the encoding search finds.
proof fn lemma_encoding_comma_no_break(l: Seq<char>, i: int)
    requires
        0 <= i,
    ensures
        encoding_comma(l, i) matches Some(x) ==> all_in(l, i, x, |c: char| c != '\n'),
    decreases l.len() - i,
{
    if !(i < 0 || i >= l.len()) && !(l[i] == ',' && digit_at(l, i + 1)) {
        lemma_encoding_comma_no_break(l, i + 1);
    }
}

/// A comma at `x` after which the alignment, margins and encoding follow,
/// with no line break from `i` to it, is found by the shadow search from
/// `i`, there or earlier.
proof fn lemma_shadow_end_reaches(l: Seq<char>, i: int, x: int)
    requires
        0 <= i <= x < l.len(),
        l[x] == ',',
        style_margins(l, x) is Some,
        all_in(l, i, x, |c: char| c != '\n'),
    ensures
        shadow_end(l, i) matches Some(k) && i <= k <= x,
    decreases x - i,
{
    if !(l[i] == ',' && style_margins(l, i) is Some) {
        assert(l[i] != '\n');
        lemma_shadow_end_reaches(l, i + 1, x);
    }
}

/// A comma at `x` after which the rest of a style follows, with no line
/// break from `i` to it, is found by the font name search from `i`, there
/// or earlier.
proof fn lemma_fontname_end_reaches(l: Seq<char>, i: int, x: int)
    requires
        0 <= i <= x < l.len(),
        l[x] == ',',
        style_rest(l, x) is Some,
        all_in(l, i, x, |c: char| c != '\n'),
    ensures
        fontname_end(l, i) matches Some(k) && i <= k <= x,
    decreases x - i,
{
    if !(l[i] == ',' && style_rest(l, i) is Some) {
        assert(l[i] != '\n');
        lemma_fontname_end_reaches(l, i + 1, x);
    }
}

/// After the comma `b` of a split, the rest of a style is found: the fields
/// without choice are those of the split, and the others come no later.
#[verifier::rlimit(40)]
proof fn lemma_style_rest_reaches(l: Seq<char>, b: int, r2: StyleRest)
    requires
        0 <= b,
        l.len() <= usize::MAX,
        is_style_rest_split(l, b, r2),
    ensures
        style_rest(l, b) matches Some(r) && style_rest_fixed_alike(r, r2) && style_rest_first(r, r2),
{
    let fs = r2.fontsize_end as int;
    lemma_digit_run_exact(l, b + 1, fs);
    lemma_digit_run_exact(l, r2.strike_out_end + 1, r2.scale_x_end as int);
    lemma_digit_run_exact(l, r2.scale_x_end + 1, r2.scale_y_end as int);
    let sy = r2.scale_y_end as int;
    let x1 = r2.spacing_end as int;
    let x2 = r2.angle_end as int;
    let x3 = r2.border_style_end as int;
    let x4 = r2.outline_end as int;
    let hh = r2.shadow_end as int;
    lemma_no_break_across(l, x3 + 1, x3 + 1, x4, hh);
    lemma_no_break_across(l, x2 + 1, x2 + 1, x3, hh);
    lemma_no_break_across(l, x1 + 1, x1 + 1, x2, hh);
    lemma_no_break_across(l, sy + 1, sy + 1, x1, hh);
    lemma_next_comma_reaches(l, sy + 1, x1);
    let c1 = next_comma(l, sy + 1).unwrap();
    lemma_next_comma_reaches(l, c1 + 1, x2);
    let c2 = next_comma(l, c1 + 1).unwrap();
    lemma_next_comma_reaches(l, c2 + 1, x3);
    let c3 = next_comma(l, c2 + 1).unwrap();
    lemma_next_comma_reaches(l, c3 + 1, x4);
    let c4 = next_comma(l, c3 + 1).unwrap();
    lemma_style_margins_reaches(
        l,
        hh,
        r2.margin_l_end as int,
        r2.margin_r_end as int,
        r2.margin_v_end as int,
    );
    lemma_shadow_end_reaches(l, c4 + 1, hh);
    lemma_shadow_end(l, c4 + 1);
    lemma_style_margins(l, shadow_end(l, c4 + 1).unwrap());
    assert(flag_then_comma(l, fs + 45) == Some(r2.bold_end as int));
    assert(flag_then_comma(l, r2.bold_end + 1) == Some(r2.italic_end as int));
    assert(flag_then_comma(l, r2.italic_end + 1) == Some(r2.underline_end as int));
    assert(flag_then_comma(l, r2.underline_end + 1) == Some(r2.strike_out_end as int));
    // The lazy fields found from `sy + 1` end no later than those of `r2`,
    // and the margins too where the shadow ends where that of `r2` does.
    let (d1, d2, d3, d4, h, m1, m2, m3) = style_tail(l, sy + 1).unwrap();
    assert(d1 == c1 && d2 == c2 && d3 == c3 && d4 == c4 && h <= hh);
    let r = style_rest(l, b).unwrap();
    assert(r.spacing_end == d1 && r.angle_end == d2 && r.border_style_end == d3 && r.outline_end
        == d4 && r.shadow_end == h && r.margin_l_end == m1 && r.margin_r_end == m2
        && r.margin_v_end == m3);
}

/// Where a split of the style pattern starts, the pattern matches, and its
/// match is preferred to that split or is that split.
proof fn lemma_style_at_complete(l: Seq<char>, m2: StyleSpans)
    requires
        is_style_split(l, m2),
        l.len() <= usize::MAX,
    ensures
        style_at(l, m2.start as int) matches Some(m) && m.start == m2.start && m.format_end
            == m2.format_end && style_split_first(m, m2) && (m.fontname_end == m2.fontname_end
            ==> style_rest_fixed_alike(m.rest, m2.rest)),
{
    let s = m2.start as int;
    let f = m2.format_end as int;
    let nn = m2.name_end as int;
    let bb = m2.fontname_end as int;
    lemma_format_run_exact(l, s, f);
    lemma_next_comma_reaches(l, f + 2, nn);
    let n = next_comma(l, f + 2).unwrap();
    lemma_style_rest_reaches(l, bb, m2.rest);
    lemma_no_break_across(l, f + 2, n + 1, nn, bb);
    lemma_fontname_end_reaches(l, n + 1, bb);
    lemma_fontname_end(l, n + 1);
}

/// What the pattern matches after the comma `b` is a split of the rest of
/// a style.
#[verifier::rlimit(40)]
proof fn lemma_style_rest_is_split(l: Seq<char>, b: int)
    requires
        0 <= b < l.len(),
        l.len() <= usize::MAX,
    ensures
        style_rest(l, b) matches Some(r) ==> is_style_rest_split(l, b, r),
{
    lemma_digit_run(l, b + 1);
    if let Some(r) = style_rest(l, b) {
        let fs = r.fontsize_end as int;
        let sy = r.scale_y_end as int;
        lemma_scale(l, r.strike_out_end + 1);
        lemma_scale(l, r.scale_x_end + 1);
        lemma_next_comma(l, sy + 1);
        lemma_next_comma(l, r.spacing_end + 1);
        lemma_next_comma(l, r.angle_end + 1);
        lemma_next_comma(l, r.border_style_end + 1);
        lemma_shadow_end(l, r.outline_end + 1);
        lemma_shadow_end_no_break(l, r.outline_end + 1);
        let h = r.shadow_end as int;
        lemma_next_comma(l, h + 3);
        lemma_next_comma(l, r.margin_l_end + 1);
        lemma_encoding_comma(l, r.margin_r_end + 1);
        lemma_encoding_comma_no_break(l, r.margin_r_end + 1);
    }
}

/// What the pattern matches from `s` on is a split of the style pattern.
#[verifier::rlimit(80)]
proof fn lemma_style_at_is_split(l: Seq<char>, s: int)
    requires
        0 <= s <= l.len(),
        l.len() <= usize::MAX,
    ensures
        style_at(l, s) matches Some(m) ==> is_style_split(l, m),
{
    let f = format_run_end(l, s);
    lemma_format_run(l, s);
    if char_is(l, f, ':') && char_is(l, f + 1, ' ') {
        lemma_next_comma(l, f + 2);
        if let Some(n) = next_comma(l, f + 2) {
            lemma_fontname_end(l, n + 1);
            lemma_fontname_end_no_break(l, n + 1);
            if let Some(b) = fontname_end(l, n + 1) {
                lemma_style_rest_is_split(l, b);
            }
        }
    }
}

/// The search from `s0` on stops at the first position where the pattern
/// matches, and finds nothing only where it matches nowhere.
proof fn lemma_style_search_first(l: Seq<char>, s0: int)
    requires
        0 <= s0,
        l.len() <= usize::MAX,
    ensures
        style_search(l, s0) matches Some(m) ==> s0 <= m.start && forall|s: int|
            s0 <= s < m.start ==> #[trigger] style_at(l, s) is None,
        style_search(l, s0) is None ==> forall|s: int|
            s0 <= s <= l.len() ==> #[trigger] style_at(l, s) is None,
    decreases l.len() + 1 - s0,
{
    if s0 <= l.len() {
        if style_at(l, s0) is None {
            lemma_style_search_first(l, s0 + 1);
        }
    }
}

/// The style pattern matches `l` exactly when some split of `l` has the
/// pattern's shape, and the match is the split that a leftmost-first
/// matcher prefers: it starts first, and its name, font name, spacing,
/// angle, border style, outline, shadow and margins are the shortest, in
/// this order.
pub proof fn style_match_is_the_preferred_split(l: Seq<char>)
    requires
        l.len() <= usize::MAX,
    ensures
        style_match(l) matches Some(m) ==> is_style_split(l, m) && forall|m2: StyleSpans|
            is_style_split(l, m2) ==> style_split_first(m, m2),
        style_match(l) is None ==> forall|m2: StyleSpans| !is_style_split(l, m2),
{
    reveal(style_match);
    lemma_style_search_start(l, 0);
    lemma_style_search_first(l, 0);
    if let Some(m) = style_match(l) {
        lemma_style_at_is_split(l, m.start as int);
        assert forall|m2: StyleSpans| is_style_split(l, m2) implies style_split_first(m, m2) by {
            lemma_style_at_complete(l, m2);
        }
    } else {
        assert forall|m2: StyleSpans| !is_style_split(l, m2) by {
            if is_style_split(l, m2) {
                lemma_style_at_complete(l, m2);
            }
        }
    }
}

// ---------------------------------------------------------------------------
// Executable matching

/// A position given as `usize`, taken as an integer.
pub open spec fn opt_pos(o: Option<usize>) -> Option<int> {
    match o {
        Some(x) => Some(x as int),
        None => None,
    }
}

fn find_digit_run_end(l: &Vec<char>, i: usize) -> (r: usize)
    ensures
        r as int == digit_run_end(l@, i as int),
        i <= r,
        i <= l.len() ==> r <= l.len(),
{
    let mut j = i;
    while j < l.len() && '0' <= l[j] && l[j] <= '9'
        invariant
            i <= j,
            i <= l.len() ==> j <= l.len(),
            digit_run_end(l@, i as int) == digit_run_end(l@, j as int),
        decreases l.len() - j,
    {
        j = j + 1;
    }
    j
}

fn find_format_run_end(l: &Vec<char>, i: usize) -> (r: usize)
    ensures
        r as int == format_run_end(l@, i as int),
        i <= r,
{
    let mut j = i;
    while j < l.len() && (('a' <= l[j] && l[j] <= 'z') || ('A' <= l[j] && l[j] <= 'Z') || l[j]
        == ' ')
        invariant
            i <= j,
            format_run_end(l@, i as int) == format_run_end(l@, j as int),
        decreases l.len() - j,
    {
        j = j + 1;
    }
    j
}

fn find_line_end(l: &Vec<char>, i: usize) -> (r: usize)
    ensures
        r as int == line_end(l@, i as int),
        i <= r,
        i <= l.len() ==> r <= l.len(),
{
    let mut j = i;
    while j < l.len() && l[j] != '\n'
        invariant
            i <= j,
            i <= l.len() ==> j <= l.len(),
            line_end(l@, i as int) == line_end(l@, j as int),
        decreases l.len() - j,
    {
        j = j + 1;
    }
    j
}

fn find_next_comma(l: &Vec<char>, i: usize) -> (r: Option<usize>)
    ensures
        opt_pos(r) == next_comma(l@, i as int),
        r matches Some(x) ==> i <= x < l.len() && l@[x as int] == ',',
{
    let mut j = i;
    while j < l.len()
        invariant
            i <= j,
            next_comma(l@, i as int) == next_comma(l@, j as int),
        decreases l.len() - j,
    {
        if l[j] == ',' {
            return Some(j);
        }
        if l[j] == '\n' {
            return None;
        }
        j = j + 1;
    }
    None
}

fn find_key_separator(l: &Vec<char>, i: usize) -> (r: Option<usize>)
    ensures
        opt_pos(r) == key_separator(l@, i as int),
{
    let mut j = i;
    while j < l.len() && l.len() - j >= 2
        invariant
            i <= j,
            key_separator(l@, i as int) == key_separator(l@, j as int),
        decreases l.len() - j,
    {
        if l[j] == ':' && l[j + 1] == ' ' {
            return Some(j);
        }
        if l[j] == '\n' {
            return None;
        }
        j = j + 1;
    }
    None
}

fn find_digits_then_comma(l: &Vec<char>, i: usize) -> (r: Option<usize>)
    ensures
        opt_pos(r) == digits_then_comma(l@, i as int),
        r matches Some(x) ==> i <= x < l.len(),
{
    let j = find_digit_run_end(l, i);
    if j < l.len() && l[j] == ',' {
        Some(j)
    } else {
        None
    }
}

fn is_digit_char(c: char) -> (r: bool)
    ensures
        r == is_digit(c),
{
    '0' <= c && c <= '9'
}

fn check_clock_at(l: &Vec<char>, p: usize) -> (r: bool)
    ensures
        r == clock_at(l@, p as int),
{
    if !(p < l.len() && l.len() - p > 10) {
        return false;
    }
    is_digit_char(l[p]) && l[p + 1] == ':' && is_digit_char(l[p + 2]) && is_digit_char(l[p + 3])
        && l[p + 4] == ':' && is_digit_char(l[p + 5]) && is_digit_char(l[p + 6]) && l[p + 7]
        != '\n' && is_digit_char(
        l[p + 8],
    ) && is_digit_char(l[p + 9]) && l[p + 10] == ','
}

fn find_event_tail(l: &Vec<char>, e: usize) -> (r: Option<(usize, usize, usize, usize)>)
    requires
        e < l.len(),
    ensures
        match r {
            Some((a, b, c, d)) => event_tail(l@, e as int) == Some(
                (a as int, b as int, c as int, d as int),
            ) && e < a < b < c < d < l.len(),
            None => event_tail(l@, e as int) is None,
        },
{
    let a = match find_digits_then_comma(l, e + 1) {
        Some(a) => a,
        None => return None,
    };
    let b = match find_digits_then_comma(l, a + 1) {
        Some(b) => b,
        None => return None,
    };
    let c = match find_digits_then_comma(l, b + 1) {
        Some(c) => c,
        None => return None,
    };
    let d = match find_next_comma(l, c + 1) {
        Some(d) => d,
        None => return None,
    };
    Some((a, b, c, d))
}

fn find_event_name_end(l: &Vec<char>, i: usize) -> (r: Option<usize>)
    ensures
        opt_pos(r) == event_name_end(l@, i as int),
        r matches Some(x) ==> i <= x < l.len(),
{
    let mut j = i;
    while j < l.len()
        invariant
            i <= j,
            event_name_end(l@, i as int) == event_name_end(l@, j as int),
        decreases l.len() - j,
    {
        if l[j] == ',' && find_event_tail(l, j).is_some() {
            return Some(j);
        }
        if l[j] == '\n' {
            return None;
        }
        j = j + 1;
    }
    None
}

fn match_event_at(l: &Vec<char>, s: usize) -> (r: Option<EventSpans>)
    requires
        s <= l.len(),
    ensures
        r == event_at(l@, s as int),
        r matches Some(m) ==> event_spans_wf(m, l.len() as int) && event_clocks(m, l@),
{
    let f = find_format_run_end(l, s);
    if !(f < l.len() && l[f] == ':' && l.len() - f >= 2 && l[f + 1] == ' ') {
        return None;
    }
    let q = match find_digits_then_comma(l, f + 2) {
        Some(q) => q,
        None => return None,
    };
    if !(check_clock_at(l, q + 1) && check_clock_at(l, q + 12)) {
        return None;
    }
    let sc = match find_next_comma(l, q + 23) {
        Some(sc) => sc,
        None => return None,
    };
    let e = match find_event_name_end(l, sc + 1) {
        Some(e) => e,
        None => return None,
    };
    match find_event_tail(l, e) {
        Some((a, b, c, d)) => Some(
            EventSpans {
                start: s,
                format_end: f,
                layer_end: q,
                style_end: sc,
                name_end: e,
                margin_l_end: a,
                margin_r_end: b,
                margin_v_end: c,
                effect_end: d,
                text_end: find_line_end(l, d + 1),
            },
        ),
        None => None,
    }
}

/// Where the fields of the event line `l` lie, if it is one.
pub fn match_event(l: &Vec<char>) -> (r: Option<EventSpans>)
    ensures
        r == event_match(l@),
        r matches Some(m) ==> event_spans_wf(m, l.len() as int) && event_clocks(m, l@),
{
    reveal(event_match);
    let mut s: usize = 0;
    while s <= l.len()
        invariant
            s <= l.len(),
            event_match(l@) == event_search(l@, s as int),
        decreases l.len() + 1 - s,
    {
        match match_event_at(l, s) {
            Some(m) => return Some(m),
            None => {},
        }
        if s == l.len() {
            assert(event_search(l@, s + 1) is None);
            return None;
        }
        s = s + 1;
    }
    None
}

/// Where the key and the value of the entry `l` lie, if it is one.
pub fn match_info(l: &Vec<char>) -> (r: Option<InfoSpans>)
    ensures
        r == info_match(l@),
        r matches Some(m) ==> m.start <= m.separator && m.separator + 2 <= m.end <= l.len(),
{
    let mut s: usize = 0;
    while s <= l.len()
        invariant
            s <= l.len(),
            info_match(l@) == info_search(l@, s as int),
        decreases l.len() + 1 - s,
    {
        match find_key_separator(l, s) {
            Some(k) => {
                proof {
                    lemma_key_separator(l@, s as int);
                }
                let end = find_line_end(l, k + 2);
                return Some(InfoSpans { start: s, separator: k, end });
            },
            None => {},
        }
        if s == l.len() {
            assert(info_search(l@, s + 1) is None);
            return None;
        }
        s = s + 1;
    }
    None
}

fn check_colour_at(l: &Vec<char>, p: usize) -> (r: bool)
    ensures
        r == colour_at(l@, p as int),
{
    if !(p < l.len() && l.len() - p > 10) {
        return false;
    }
    if l[p] != '&' || l[p + 10] != ',' {
        return false;
    }
    let mut k: usize = 1;
    while k <= 9
        invariant
            1 <= k <= 10,
            p + 10 < l.len(),
            forall|m: int| 1 <= m < k ==> is_colour_char(#[trigger] l@[p + m]),
        decreases 10 - k,
    {
        let c = l[p + k];
        if !(('A' <= c && c <= 'Z') || c == ' ' || is_digit_char(c)) {
            assert(!is_colour_char(l@[p + k]));
            return false;
        }
        k = k + 1;
    }
    true
}

fn find_flag_then_comma(l: &Vec<char>, p: usize) -> (r: Option<usize>)
    ensures
        opt_pos(r) == flag_then_comma(l@, p as int),
        r matches Some(x) ==> p + 1 <= x <= p + 2 && x < l.len(),
{
    if p < l.len() && l.len() - p > 2 && l[p] == '-' && is_digit_char(l[p + 1]) && l[p + 2] == ',' {
        Some(p + 2)
    } else if p < l.len() && l.len() - p > 1 && is_digit_char(l[p]) && l[p + 1] == ',' {
        Some(p + 1)
    } else {
        None
    }
}

fn find_scale_then_comma(l: &Vec<char>, p: usize) -> (r: Option<usize>)
    ensures
        opt_pos(r) == scale_then_comma(l@, p as int),
        r matches Some(x) ==> p < x <= p + 3 && x < l.len(),
{
    let j = find_digit_run_end(l, p);
    if p < j && j - p <= 3 && j < l.len() && l[j] == ',' {
        Some(j)
    } else {
        None
    }
}

fn find_encoding_comma(l: &Vec<char>, i: usize) -> (r: Option<usize>)
    ensures
        opt_pos(r) == encoding_comma(l@, i as int),
        r matches Some(x) ==> i <= x && x + 1 < l.len() && is_digit(l@[x + 1]),
{
    let mut j = i;
    while j < l.len()
        invariant
            i <= j,
            encoding_comma(l@, i as int) == encoding_comma(l@, j as int),
        decreases l.len() - j,
    {
        if l[j] == ',' && l.len() - j > 1 && is_digit_char(l[j + 1]) {
            return Some(j);
        }
        if l[j] == '\n' {
            return None;
        }
        j = j + 1;
    }
    None
}

fn find_style_margins(l: &Vec<char>, h: usize) -> (r: Option<(usize, usize, usize)>)
    requires
        h < l.len(),
    ensures
        match r {
            Some((m1, m2, m3)) => style_margins(l@, h as int) == Some(
                (m1 as int, m2 as int, m3 as int),
            ) && h + 3 <= m1 < m2 < m3 && m3 + 1 < l.len() && is_digit(l@[h + 1]) && is_digit(
                l@[m3 + 1],
            ),
            None => style_margins(l@, h as int) is None,
        },
{
    if !(l.len() - h > 2 && is_digit_char(l[h + 1]) && l[h + 2] == ',') {
        return None;
    }
    let m1 = match find_next_comma(l, h + 3) {
        Some(m1) => m1,
        None => return None,
    };
    let m2 = match find_next_comma(l, m1 + 1) {
        Some(m2) => m2,
        None => return None,
    };
    let m3 = match find_encoding_comma(l, m2 + 1) {
        Some(m3) => m3,
        None => return None,
    };
    Some((m1, m2, m3))
}

fn find_shadow_end(l: &Vec<char>, i: usize) -> (r: Option<usize>)
    ensures
        opt_pos(r) == shadow_end(l@, i as int),
        r matches Some(x) ==> i <= x < l.len(),
{
    let mut j = i;
    while j < l.len()
        invariant
            i <= j,
            shadow_end(l@, i as int) == shadow_end(l@, j as int),
        decreases l.len() - j,
    {
        if l[j] == ',' && find_style_margins(l, j).is_some() {
            return Some(j);
        }
        if l[j] == '\n' {
            return None;
        }
        j = j + 1;
    }
    None
}

fn find_style_tail(l: &Vec<char>, t: usize) -> (r: Option<(usize, usize, usize, usize, usize, usize, usize, usize)>)
    ensures
        match r {
            Some((c1, c2, c3, c4, h, m1, m2, m3)) => style_tail(l@, t as int) == Some(
                (c1 as int, c2 as int, c3 as int, c4 as int, h as int, m1 as int, m2 as int, m3 as int),
            ) && t <= c1 < c2 < c3 < c4 < h && h + 3 <= m1 < m2 < m3 && m3 + 1 < l.len() && is_digit(
                l@[h + 1],
            ) && is_digit(l@[m3 + 1]),
            None => style_tail(l@, t as int) is None,
        },
{
    let c1 = match find_next_comma(l, t) {
        Some(c) => c,
        None => return None,
    };
    let c2 = match find_next_comma(l, c1 + 1) {
        Some(c) => c,
        None => return None,
    };
    let c3 = match find_next_comma(l, c2 + 1) {
        Some(c) => c,
        None => return None,
    };
    let c4 = match find_next_comma(l, c3 + 1) {
        Some(c) => c,
        None => return None,
    };
    let h = match find_shadow_end(l, c4 + 1) {
        Some(h) => h,
        None => return None,
    };
    match find_style_margins(l, h) {
        Some((m1, m2, m3)) => Some((c1, c2, c3, c4, h, m1, m2, m3)),
        None => None,
    }
}

fn find_style_rest(l: &Vec<char>, b: usize) -> (r: Option<StyleRest>)
    requires
        b < l.len(),
    ensures
        r == style_rest(l@, b as int),
        r matches Some(rest) ==> style_rest_wf(rest, b as int, l.len() as int) && style_digits(rest, l@),
{
    let fs = match find_digits_then_comma(l, b + 1) {
        Some(fs) => fs,
        None => return None,
    };
    if !(l.len() - fs > 44) {
        assert(!colour_at(l@, fs + 34));
        return None;
    }
    if !(check_colour_at(l, fs + 1) && check_colour_at(l, fs + 12) && check_colour_at(l, fs + 23)
        && check_colour_at(l, fs + 34)) {
        return None;
    }
    let bo = match find_flag_then_comma(l, fs + 45) {
        Some(x) => x,
        None => return None,
    };
    let it = match find_flag_then_comma(l, bo + 1) {
        Some(x) => x,
        None => return None,
    };
    let un = match find_flag_then_comma(l, it + 1) {
        Some(x) => x,
        None => return None,
    };
    let st = match find_flag_then_comma(l, un + 1) {
        Some(x) => x,
        None => return None,
    };
    let sx = match find_scale_then_comma(l, st + 1) {
        Some(x) => x,
        None => return None,
    };
    let sy = match find_scale_then_comma(l, sx + 1) {
        Some(x) => x,
        None => return None,
    };
    match find_style_tail(l, sy + 1) {
        Some((c1, c2, c3, c4, h, m1, m2, m3)) => Some(
            StyleRest {
                fontsize_end: fs,
                bold_end: bo,
                italic_end: it,
                underline_end: un,
                strike_out_end: st,
                scale_x_end: sx,
                scale_y_end: sy,
                spacing_end: c1,
                angle_end: c2,
                border_style_end: c3,
                outline_end: c4,
                shadow_end: h,
                margin_l_end: m1,
                margin_r_end: m2,
                margin_v_end: m3,
            },
        ),
        None => None,
    }
}

fn find_fontname_end(l: &Vec<char>, i: usize) -> (r: Option<usize>)
    ensures
        opt_pos(r) == fontname_end(l@, i as int),
        r matches Some(x) ==> i <= x < l.len(),
{
    let mut j = i;
    while j < l.len()
        invariant
            i <= j,
            fontname_end(l@, i as int) == fontname_end(l@, j as int),
        decreases l.len() - j,
    {
        if l[j] == ',' && find_style_rest(l, j).is_some() {
            return Some(j);
        }
        if l[j] == '\n' {
            return None;
        }
        j = j + 1;
    }
    None
}

fn match_style_at(l: &Vec<char>, s: usize) -> (r: Option<StyleSpans>)
    requires
        s <= l.len(),
    ensures
        r == style_at(l@, s as int),
        r matches Some(m) ==> style_spans_wf(m, l.len() as int) && style_digits(m.rest, l@),
{
    let f = find_format_run_end(l, s);
    if !(f < l.len() && l[f] == ':' && l.len() - f >= 2 && l[f + 1] == ' ') {
        return None;
    }
    let n = match find_next_comma(l, f + 2) {
        Some(n) => n,
        None => return None,
    };
    let b = match find_fontname_end(l, n + 1) {
        Some(b) => b,
        None => return None,
    };
    match find_style_rest(l, b) {
        Some(rest) => Some(StyleSpans { start: s, format_end: f, name_end: n, fontname_end: b, rest }),
        None => None,
    }
}

/// Where the fields of the style line `l` lie, if it is one.
pub fn match_style(l: &Vec<char>) -> (r: Option<StyleSpans>)
    ensures
        r == style_match(l@),
        r matches Some(m) ==> style_spans_wf(m, l.len() as int) && style_digits(m.rest, l@),
{
    reveal(style_match);
    let mut s: usize = 0;
    while s <= l.len()
        invariant
            s <= l.len(),
            style_match(l@) == style_search(l@, s as int),
        decreases l.len() + 1 - s,
    {
        match match_style_at(l, s) {
            Some(m) => return Some(m),
            None => {},
        }
        if s == l.len() {
            assert(style_search(l@, s + 1) is None);
            return None;
        }
        s = s + 1;
    }
    None
}

} // verus!
