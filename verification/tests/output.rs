use lsl::action::Style;
use lsl::output::render;

#[test]
fn lines_are_coloured_where_the_output_takes_it() {
    colored::control::set_override(true);
    assert_eq!(render("", Style::Blue, "x", ""), "\u{1b}[34mx\u{1b}[0m");
    assert_eq!(render("", Style::BlueBold, "x", ""), "\u{1b}[1;34mx\u{1b}[0m");
    assert_eq!(render("", Style::Cyan, "x", ""), "\u{1b}[36mx\u{1b}[0m");
    assert_eq!(render("", Style::Green, "x", ""), "\u{1b}[32mx\u{1b}[0m");
    assert_eq!(render("", Style::GreenBold, "x", ""), "\u{1b}[1;32mx\u{1b}[0m");
    assert_eq!(render("", Style::Yellow, "x", ""), "\u{1b}[33mx\u{1b}[0m");
    assert_eq!(render("", Style::Red, "x", ""), "\u{1b}[31mx\u{1b}[0m");
    assert_eq!(render("a ", Style::RedBold, "Error:", " b"), "a \u{1b}[1;31mError:\u{1b}[0m b");
    assert_eq!(render("a", Style::Plain, "x", "b"), "axb");
    assert_eq!(render("a", Style::Blue, "", "b"), "a\u{1b}[34m\u{1b}[0mb");
    let nested = render("", Style::Blue, "a\u{1b}[0mb\u{1b}[0m", "");
    assert_eq!(nested, "\u{1b}[34ma\u{1b}[0m\u{1b}[34mb\u{1b}[0m\u{1b}[34m\u{1b}[0m");
    colored::control::set_override(false);
    assert_eq!(render("a", Style::RedBold, "x", "b"), "axb");
    assert_eq!(render("", Style::Blue, "x", ""), "x");
    assert_eq!(render("a", Style::Plain, "x", "b"), "axb");
}

#[test]
fn texts_stay_readable() {
    for on in [true, false] {
        colored::control::set_override(on);
        for style in [Style::Plain, Style::Blue, Style::GreenBold, Style::Red] {
            assert!(render("", style, "Booting distro 'kali'...", "").contains("Booting distro 'kali'..."));
        }
    }
}
