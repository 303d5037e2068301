//! What the lines of output look like.
use vstd::prelude::*;

use crate::action::Style;
use crate::text::{begins, holds, stands_at};

verus! {

/// A colour of text.
#[derive(Clone, Copy, Debug, PartialEq, Eq, Structural)]
pub enum Hue {
    Blue,
    Cyan,
    Green,
    Yellow,
    Red,
}

/// The code that terminals know a colour by.
pub open spec fn hue_code(hue: Hue) -> Seq<char> {
    match hue {
        Hue::Blue => "34"@,
        Hue::Cyan => "36"@,
        Hue::Green => "32"@,
        Hue::Yellow => "33"@,
        Hue::Red => "31"@,
    }
}

/// The sequence that makes a terminal forget all marks.
pub open spec fn reset() -> Seq<char> {
    "\u{1b}[0m"@
}

/// A text whose own sequences for forgetting marks are each followed by the mark.
pub open spec fn remarked(text: Seq<char>, mark: Seq<char>) -> Seq<char>
    decreases text.len(),
{
    if text.len() == 0 || reset().len() == 0 {
        text
    } else if begins(text, reset()) {
        reset() + mark + remarked(text.skip(reset().len() as int), mark)
    } else {
        Seq::empty().push(text[0]) + remarked(text.drop_first(), mark)
    }
}

/// The mark that makes a terminal apply the codes.
pub open spec fn mark(codes: Seq<char>) -> Seq<char> {
    "\u{1b}["@ + codes + "m"@
}

/// A text that a terminal shows marked from its beginning to its end.
pub open spec fn marked(codes: Seq<char>, text: Seq<char>) -> Seq<char> {
    mark(codes) + remarked(text, mark(codes)) + reset()
}

/// What may come of marking a text: the text itself, where the output takes no
/// colours, or the marked text.
pub open spec fn painted(codes: Seq<char>, text: Seq<char>, result: Seq<char>) -> bool {
    result == text || result == marked(codes, text)
}

/// Colours a text by `colored::Colorize::color`. Whether the output takes colours is
/// up to the environment: where it does not, the text stays as it is, else it comes
/// back marked.
#[verifier::external_body]
fn color_text(text: &str, hue: Hue) -> (r: String)
    ensures
        painted(hue_code(hue), text@, r@),
{
    let color = match hue {
        Hue::Blue => colored::Color::Blue,
        Hue::Cyan => colored::Color::Cyan,
        Hue::Green => colored::Color::Green,
        Hue::Yellow => colored::Color::Yellow,
        Hue::Red => colored::Color::Red,
    };
    colored::Colorize::color(text, color).to_string()
}

/// Colours a text and makes it bold, by `colored::Colorize::color` and
/// `colored::Colorize::bold`; the mark for bold comes first. The same holds of it as
/// of colouring alone.
#[verifier::external_body]
fn color_bold_text(text: &str, hue: Hue) -> (r: String)
    ensures
        painted("1;"@ + hue_code(hue), text@, r@),
{
    let color = match hue {
        Hue::Blue => colored::Color::Blue,
        Hue::Cyan => colored::Color::Cyan,
        Hue::Green => colored::Color::Green,
        Hue::Yellow => colored::Color::Yellow,
        Hue::Red => colored::Color::Red,
    };
    colored::Colorize::bold(colored::Colorize::color(text, color)).to_string()
}

/// The codes of a style.
pub open spec fn style_codes(style: Style) -> Seq<char> {
    match style {
        Style::Plain => Seq::empty(),
        Style::Blue => hue_code(Hue::Blue),
        Style::BlueBold => "1;"@ + hue_code(Hue::Blue),
        Style::Cyan => hue_code(Hue::Cyan),
        Style::Green => hue_code(Hue::Green),
        Style::GreenBold => "1;"@ + hue_code(Hue::Green),
        Style::Yellow => hue_code(Hue::Yellow),
        Style::Red => hue_code(Hue::Red),
        Style::RedBold => "1;"@ + hue_code(Hue::Red),
    }
}

/// What a text may look like in a style.
pub open spec fn styled(style: Style, text: Seq<char>, result: Seq<char>) -> bool {
    if style == Style::Plain {
        result == text
    } else {
        painted(style_codes(style), text, result)
    }
}

/// Sets a text in a style.
fn paint(style: Style, text: &str) -> (r: String)
    ensures
        styled(style, text@, r@),
{
    match style {
        Style::Plain => text.to_owned(),
        Style::Blue => color_text(text, Hue::Blue),
        Style::BlueBold => color_bold_text(text, Hue::Blue),
        Style::Cyan => color_text(text, Hue::Cyan),
        Style::Green => color_text(text, Hue::Green),
        Style::GreenBold => color_bold_text(text, Hue::Green),
        Style::Yellow => color_text(text, Hue::Yellow),
        Style::Red => color_text(text, Hue::Red),
        Style::RedBold => color_bold_text(text, Hue::Red),
    }
}

/// A line whose middle part looks like `result`.
pub open spec fn framed(lead: Seq<char>, result: Seq<char>, tail: Seq<char>) -> Seq<char> {
    lead + result + tail
}

/// Puts a line together: `text` is set in the style, what stands before and after it
/// is not.
pub fn render(lead: &str, style: Style, text: &str, tail: &str) -> (r: String)
    ensures
        exists|result: Seq<char>|
            styled(style, text@, result) && r@ == #[trigger] framed(lead@, result, tail@),
{
    let middle: String = paint(style, text);
    let r: String = lead.to_owned().concat(middle.as_str()).concat(tail);
    assert(r@ == framed(lead@, middle@, tail@));
    r
}

// ------------------------------------------------------------------------- laws

/// A text that holds no sequence for forgetting marks stays as it is between the
/// marks.
proof fn lemma_remarked(text: Seq<char>, mark: Seq<char>)
    requires
        !holds(text, reset()),
    ensures
        remarked(text, mark) == text,
    decreases text.len(),
{
    if text.len() > 0 && reset().len() > 0 {
        if begins(text, reset()) {
            assert(stands_at(text, reset(), 0));
        }
        let rest = text.drop_first();
        if holds(rest, reset()) {
            let i = choose|i: int| stands_at(rest, reset(), i);
            assert(text.subrange(i + 1, i + 1 + reset().len()) =~= rest.subrange(
                i,
                i + reset().len(),
            ));
            assert(stands_at(text, reset(), i + 1));
        }
        lemma_remarked(rest, mark);
        assert(Seq::empty().push(text[0]) + rest =~= text);
    }
}

/// The text of a line is there to read whatever the output takes: it stands
/// unbroken in all that may come of it, provided that it holds no marks of its own.
pub proof fn law_text_stays_readable(style: Style, text: Seq<char>, result: Seq<char>)
    requires
        styled(style, text, result),
        !holds(text, reset()),
    ensures
        holds(result, text),
{
    if result == text {
        assert(result.subrange(0, text.len() as int) =~= text);
        assert(stands_at(result, text, 0));
    } else {
        let front = mark(style_codes(style));
        lemma_remarked(text, front);
        let n = front.len() as int;
        assert(result.subrange(n, n + text.len()) =~= text);
        assert(stands_at(result, text, n));
    }
}

/// Each style has its own look: what is set in it is the text itself, or the text between
/// the code of its colour, bold where the style is, and the code that ends it. The plain
/// style leaves the text alone.
pub proof fn law_styles_have_their_look(style: Style, text: Seq<char>, result: Seq<char>)
    requires
        styled(style, text, result),
        !holds(text, "\u{1b}[0m"@),
    ensures
        style == Style::Plain ==> result == text,
        result == text || ({
            let code = match style {
                Style::Plain => ""@,
                Style::Blue => "34"@,
                Style::BlueBold => "1;"@ + "34"@,
                Style::Cyan => "36"@,
                Style::Green => "32"@,
                Style::GreenBold => "1;"@ + "32"@,
                Style::Yellow => "33"@,
                Style::Red => "31"@,
                Style::RedBold => "1;"@ + "31"@,
            };
            result == "\u{1b}["@ + code + "m"@ + text + "\u{1b}[0m"@
        }),
{
    lemma_remarked(text, mark(style_codes(style)));
}

/// A line is what stands before the text, what the text looks like, and what stands behind
/// it.
pub proof fn law_line_is_framed(lead: Seq<char>, result: Seq<char>, tail: Seq<char>)
    ensures
        framed(lead, result, tail) == lead + result + tail,
        begins(framed(lead, result, tail), lead),
        holds(framed(lead, result, tail), result),
{
    crate::text::law_parts_are_found(lead, result, tail);
    crate::text::law_parts_are_found(Seq::empty(), lead, result + tail);
    assert(lead + (result + tail) =~= lead + result + tail);
}

} // verus!
