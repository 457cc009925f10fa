use wove::diff::render;
use wove::{Color, Style};

#[test]
fn diff_separates_unterminated_replacement_lines_and_preserves_styles() {
    let red = Style {
        fg: Color::Indexed(1),
        ..Default::default()
    };
    let green = Style {
        fg: Color::Indexed(2),
        ..Default::default()
    };
    let result = render("old", "new", Style::default(), green, red);
    assert_eq!(
        result.iter().map(|s| s.text.as_str()).collect::<String>(),
        "-old\n+new"
    );
    assert_eq!(result[0].style, red);
    assert_eq!(result[1].style, green);
}

#[test]
fn unchanged_lines_keep_the_base_style_and_no_row_trails() {
    let base = Style {
        dim: true,
        ..Default::default()
    };
    let result = render("a\nb\n", "a\nc\n", base, Style::default(), Style::default());
    let texts: Vec<&str> = result.iter().map(|s| s.text.as_str()).collect();
    assert_eq!(texts, [" a\n", "-b\n", "+c"]);
    assert_eq!(result[0].style, base);
    assert!(render("", "", base, base, base).is_empty());
}
