use mdfrier::frier::{LineIterator, MdFrier};
use mdfrier::lines::{Line, LineKind};
use mdfrier::mapper::{DefaultMapper, Mapper, StyledMapper};
use mdfrier::modifier::Modifier;
use mdfrier::span::{SourceContent, Span};

fn all(mut it: LineIterator) -> Vec<Line> {
    let mut v = Vec::new();
    while let Some(l) = it.next() {
        v.push(l);
    }
    v
}

fn parse<M: Mapper>(width: u16, text: &str, mapper: &M) -> Vec<Line> {
    let mut frier = MdFrier::new().unwrap();
    all(frier.parse(width, text, mapper).unwrap())
}

fn text_of(lines: &[Line]) -> String {
    lines.iter().flat_map(|l| l.spans.iter().map(|s| s.content.clone())).collect()
}

fn m(bits: u32) -> Modifier {
    Modifier::new(bits)
}

#[test]
fn readme_styled_mapper_strips_decorators() {
    let lines = parse(80, "*emphasis* and **strong**", &StyledMapper);
    assert_eq!(text_of(&lines), "emphasis and strong");
}

#[test]
fn readme_default_mapper_preserves_markdown() {
    let lines = parse(80, "*emphasis* and **strong**", &DefaultMapper);
    assert_eq!(text_of(&lines), "*emphasis* and **strong**");
}

struct FancyMapper;
impl Mapper for FancyMapper {
    fn emphasis_open(&self) -> &str {
        "♥"
    }
    fn emphasis_close(&self) -> &str {
        "♥"
    }
    fn strong_open(&self) -> &str {
        "✦"
    }
    fn strong_close(&self) -> &str {
        "✦"
    }
    fn blockquote_bar(&self) -> &str {
        "➤ "
    }
}

#[test]
fn readme_custom_mapper() {
    let lines = parse(80, "Hello *world*!\n\n> Quote\n\n**Bold**", &FancyMapper);
    let mut output = String::new();
    for line in lines {
        for span in line.spans {
            output.push_str(&span.content);
        }
        output.push('\n');
    }
    assert_eq!(output, "Hello ♥world♥!\n\n➤ Quote\n\n✦Bold✦\n");
}

#[test]
fn parse_simple_text() {
    let lines = parse(80, "Hello world!", &DefaultMapper);
    assert_eq!(lines.len(), 1);
    let line = &lines[0];
    assert_eq!(line.spans.len(), 1);
    assert_eq!(line.spans[0].content, "Hello world!");
}

#[test]
fn parse_styled_text() {
    let lines = parse(80, "Hello *world*!", &DefaultMapper);
    assert_eq!(lines.len(), 1);
    let line = &lines[0];
    assert_eq!(line.spans.len(), 5);
    assert_eq!(line.spans[0].content, "Hello ");
    assert_eq!(line.spans[1].content, "*");
    assert!(line.spans[1].modifiers.contains(Modifier::EMPHASIS_WRAPPER));
    assert_eq!(line.spans[2].content, "world");
    assert!(line.spans[2].modifiers.contains(Modifier::EMPHASIS));
    assert_eq!(line.spans[3].content, "*");
    assert!(line.spans[3].modifiers.contains(Modifier::EMPHASIS_WRAPPER));
    assert_eq!(line.spans[4].content, "!");
}

#[test]
fn lib_parse_header() {
    let lines = parse(80, "# Hello\n", &DefaultMapper);
    assert_eq!(lines.len(), 1);
    assert!(matches!(lines[0].kind, LineKind::Header(1)));
}

#[test]
fn parse_code_block() {
    let lines = parse(80, "```rust\nlet x = 1;\n```\n", &DefaultMapper);
    assert_eq!(lines.len(), 1);
    let line = &lines[0];
    assert!(matches!(line.kind, LineKind::CodeBlock { .. }));
    assert!(line.spans[0].content.starts_with("let x = 1;"));
}

#[test]
fn parse_blockquote() {
    let lines = parse(80, "> Hello world", &DefaultMapper);
    assert_eq!(lines.len(), 1);
    let line = &lines[0];
    assert!(line.spans[0].modifiers.contains(Modifier::BLOCKQUOTE_BAR));
    assert_eq!(line.spans[0].content, "> ");
}

#[test]
fn parse_list() {
    let lines = parse(80, "- Item 1\n- Item 2", &DefaultMapper);
    assert_eq!(lines.len(), 2);
}

#[test]
fn paragraph_breaks() {
    let lines = parse(10, "longline1\nlongline2", &DefaultMapper);
    assert_eq!(lines.len(), 2);
    assert_eq!(lines[0].spans[0].content, "longline1");
    assert_eq!(lines[1].spans[0].content, "longline2");
}

#[test]
fn soft_break_with_styling() {
    let lines = parse(80, "This \n*is* a test.", &DefaultMapper);
    assert_eq!(lines.len(), 2);
    assert_eq!(lines[0].spans[0].content, "This");
    assert_eq!(lines[1].spans[0].content, "*");
    assert!(lines[1].spans[0].modifiers.contains(Modifier::EMPHASIS_WRAPPER));
    assert_eq!(lines[1].spans[1].content, "is");
    assert!(lines[1].spans[1].modifiers.contains(Modifier::EMPHASIS));
    assert_eq!(lines[1].spans[2].content, "*");
    assert!(lines[1].spans[2].modifiers.contains(Modifier::EMPHASIS_WRAPPER));
}

#[test]
fn bare_url_line_broken() {
    let spans: Vec<Span> = parse(15, "See https://example.com/path ok?", &DefaultMapper)
        .into_iter()
        .flat_map(|l| l.spans)
        .collect();
    let url_source = SourceContent::from_str("https://example.com/path");
    assert_eq!(
        spans,
        vec![
            Span::new("See ".into(), Modifier::empty()),
            Span::new("(".into(), m(Modifier::LINK_URL_WRAPPER)),
            Span::source_link("https://".into(), m(Modifier::LINK_URL | Modifier::BARE_LINK), url_source.copy()),
            Span::source_link("example.com/".into(), m(Modifier::LINK_URL | Modifier::BARE_LINK), url_source.copy()),
            Span::source_link("path".into(), m(Modifier::LINK_URL | Modifier::BARE_LINK), url_source.copy()),
            Span::new(")".into(), m(Modifier::LINK_URL_WRAPPER)),
            Span::new(" ok?".into(), Modifier::empty()),
        ]
    );
}

#[test]
fn code_block_wrapping() {
    let lines = parse(5, "```\nabcdefghij\n```\n", &DefaultMapper);
    assert_eq!(lines.len(), 2);
    assert_eq!(lines[0].spans[0].content, "abcde");
    assert_eq!(lines[1].spans[0].content, "fghij");
}

#[test]
fn code_block_breaks_words_without_hyphens() {
    let lines = parse(3, "```\nabcdefg hi\n```\n", &DefaultMapper);
    let parts: Vec<String> = lines.iter().map(|l| l.spans[0].content.clone()).collect();
    assert_eq!(parts, vec!["abc".to_owned(), "def".to_owned(), "g".to_owned(), "hi".to_owned()]);
}

#[test]
fn code_block_no_wrap_when_fits() {
    let lines = parse(5, "```\nabcde\n```\n", &DefaultMapper);
    assert_eq!(lines.len(), 1);
    assert_eq!(lines[0].spans[0].content, "abcde");
}

struct HideUrlsMapper;
impl Mapper for HideUrlsMapper {
    fn hide_urls(&self) -> bool {
        true
    }
}

#[test]
fn hide_urls() {
    let lines = parse(80, "[desc](https://url)", &HideUrlsMapper);
    assert_eq!(lines.len(), 1);
    let url_source = SourceContent::from_str("https://url");
    assert_eq!(
        lines[0].spans,
        vec![
            Span::new("[".into(), m(Modifier::LINK | Modifier::LINK_DESCRIPTION_WRAPPER)),
            Span::source_link("desc".into(), m(Modifier::LINK | Modifier::LINK_DESCRIPTION), url_source.copy()),
            Span::new("]".into(), m(Modifier::LINK | Modifier::LINK_DESCRIPTION_WRAPPER)),
        ]
    );
}

#[test]
fn separate_paragraphs_get_a_blank_line() {
    let lines = parse(80, "One\n\nTwo", &DefaultMapper);
    assert_eq!(lines.len(), 3);
    assert_eq!(lines[0].spans[0].content, "One");
    assert!(matches!(lines[1].kind, LineKind::Blank));
    assert_eq!(lines[2].spans[0].content, "Two");
}

#[test]
fn header_has_no_blank_line_after_it() {
    let lines = parse(80, "# Title\nText", &DefaultMapper);
    assert_eq!(lines.len(), 2);
    assert!(matches!(lines[0].kind, LineKind::Header(1)));
    assert_eq!(lines[1].spans[0].content, "Text");
}

#[test]
fn horizontal_rule_fills_the_width() {
    let lines = parse(10, "a\n\n***\n\nb", &DefaultMapper);
    assert_eq!(lines.len(), 5);
    assert!(matches!(lines[1].kind, LineKind::Blank));
    assert!(matches!(lines[2].kind, LineKind::HorizontalRule));
    assert_eq!(lines[2].spans[0].content, "----------");
    assert!(lines[2].spans[0].modifiers.contains(Modifier::HORIZONTAL_RULE));
    assert!(matches!(lines[3].kind, LineKind::Blank));
}

#[test]
fn ordered_list_markers() {
    let lines = parse(80, "1. one\n2. two", &DefaultMapper);
    assert_eq!(lines.len(), 2);
    assert_eq!(lines[0].spans[0].content, "1. ");
    assert!(lines[0].spans[0].modifiers.contains(Modifier::LIST_MARKER));
    assert_eq!(lines[1].spans[0].content, "2. ");
}

#[test]
fn task_list_markers() {
    let lines = parse(80, "- [x] done\n- [ ] todo", &DefaultMapper);
    assert_eq!(lines.len(), 2);
    assert_eq!(lines[0].spans[0].content, "- [x] ");
    assert_eq!(lines[1].spans[0].content, "- [ ] ");
}

#[test]
fn table_with_alignment() {
    let lines = parse(80, "| a | b |\n|:-:|--:|\n| c | dd |\n", &DefaultMapper);
    let rows: Vec<String> = lines
        .iter()
        .map(|l| l.spans.iter().map(|s| s.content.clone()).collect())
        .collect();
    assert_eq!(
        rows,
        vec![
            "+---+----+".to_owned(),
            "| a |  b |".to_owned(),
            "+---+----+".to_owned(),
            "| c | dd |".to_owned(),
            "+---+----+".to_owned(),
        ]
    );
    assert!(matches!(lines[1].kind, LineKind::TableRow { is_header: true }));
    assert!(matches!(lines[3].kind, LineKind::TableRow { is_header: false }));
    assert!(matches!(lines[0].kind, LineKind::TableBorder));
}

fn lines_to_string(lines: &[Line]) -> String {
    lines
        .iter()
        .map(|line| {
            if matches!(line.kind, LineKind::Blank) {
                String::new()
            } else {
                line.spans.iter().map(|s| s.content.as_str()).collect()
            }
        })
        .collect::<Vec<_>>()
        .join("\n")
}

#[test]
fn lib_code_block_spacing() {
    let input = "Paragraph before.\n```rust\nlet x = 1;\n```\nParagraph after.";
    let output = lines_to_string(&parse(80, input, &DefaultMapper));
    let code = format!("{:<80}", "let x = 1;");
    assert_eq!(output, ["Paragraph before.", "", code.as_str(), "", "Paragraph after."].join("\n"));
}

#[test]
fn lib_code_block_before_list_spacing() {
    let input = "```rust\nlet x = 1;\n```\n- list item";
    let output = lines_to_string(&parse(80, input, &DefaultMapper));
    let code = format!("{:<80}", "let x = 1;");
    assert_eq!(output, [code.as_str(), "", "- list item"].join("\n"));
}

#[test]
fn lib_separate_blockquotes_have_blank_lines() {
    let input = "> Blockquotes are very handy in email to emulate reply text.\n> This line is part of the same quote.\n\nQuote break.\n\n> This is a very long line that will still be quoted properly when it wraps. Oh boy let's keep writing to make sure this is long enough to actually wrap for everyone. Oh, you can *put* **Markdown** into a blockquote.\n\n> Blockquotes can also be nested...\n>\n> > ...by using additional greater-than signs right next to each other...\n> >\n> > > ...or with spaces between arrows.";
    let output = lines_to_string(&parse(80, input, &DefaultMapper));
    let expected = [
        "> Blockquotes are very handy in email to emulate reply text.",
        "> This line is part of the same quote.",
        "",
        "Quote break.",
        "",
        "> This is a very long line that will still be quoted properly when it wraps. Oh",
        "> boy let's keep writing to make sure this is long enough to actually wrap for",
        "> everyone. Oh, you can *put* **Markdown** into a blockquote.",
        "",
        "> Blockquotes can also be nested...",
        "",
        "> > ...by using additional greater-than signs right next to each other...",
        "",
        "> > > ...or with spaces between arrows.",
    ];
    assert_eq!(output, expected.join("\n"));
}

#[test]
fn list_preserve_formatting() {
    let input = r#"1. First ordered list item
2. Another item
   - Unordered sub-list.
3. Actual numbers don't matter, just that it's a number
   1. Ordered sub-list
4. And another item.

   You can have properly indented paragraphs within list items. Notice the blank line above, and the leading spaces (at least one, but we'll use three here to also align the raw Markdown).

   To have a line break without a paragraph, you will need to use two trailing spaces.
   Note that this line is separate, but within the same paragraph.
   (This is contrary to the typical GFM line break behaviour, where trailing spaces are not required.)

- Unordered list can use asterisks

* Or minuses

- Or pluses

1. Make my changes
   1. Fix bug
   2. Improve formatting
      - Make the headings bigger
2. Push my commits to GitHub
3. Open a pull request
   - Describe my changes
   - Mention all the members of my team
     - Ask for feedback

- Create a list by starting a line with `+`, `-`, or `*`
- Sub-lists are made by indenting 2 spaces:
  - Marker character change forces new list start:
    - Ac tristique libero volutpat at
    * Facilisis in pretium nisl aliquet
    - Nulla volutpat aliquam velit
  - Task lists
    - [x] Finish my changes
    - [ ] Push my commits to GitHub
    - [ ] Open a pull request
    - [x] @mentions, #refs, [links](), **formatting**, and <del>tags</del> supported
    - [x] list syntax required (any unordered or ordered list supported)
    - [ ] this is a complete item
    - [ ] this is an incomplete item
- Very easy!
"#;
    let output = lines_to_string(&parse(80, input, &DefaultMapper));
    let expected = [
        "1. First ordered list item",
        "2. Another item",
        "   - Unordered sub-list.",
        "3. Actual numbers don't matter, just that it's a number",
        "   1. Ordered sub-list",
        "4. And another item.",
        "",
        "   You can have properly indented paragraphs within list items. Notice the blank",
        "   line above, and the leading spaces (at least one, but we'll use three here to",
        "   also align the raw Markdown).",
        "",
        "   To have a line break without a paragraph, you will need to use two trailing",
        "   spaces.",
        "   Note that this line is separate, but within the same paragraph.",
        "   (This is contrary to the typical GFM line break behaviour, where trailing",
        "   spaces are not required.)",
        "",
        "- Unordered list can use asterisks",
        "",
        "* Or minuses",
        "",
        "- Or pluses",
        "",
        "1. Make my changes",
        "   1. Fix bug",
        "   2. Improve formatting",
        "      - Make the headings bigger",
        "2. Push my commits to GitHub",
        "3. Open a pull request",
        "   - Describe my changes",
        "   - Mention all the members of my team",
        "     - Ask for feedback",
        "",
        "- Create a list by starting a line with `+`, `-`, or `*`",
        "- Sub-lists are made by indenting 2 spaces:",
        "  - Marker character change forces new list start:",
        "    - Ac tristique libero volutpat at",
        "    * Facilisis in pretium nisl aliquet",
        "    - Nulla volutpat aliquam velit",
        "  - Task lists",
        "    - [x] Finish my changes",
        "    - [ ] Push my commits to GitHub",
        "    - [ ] Open a pull request",
        "    - [x] @mentions, #refs, [links](), **formatting**, and <del>tags</del>",
        "          supported",
        "    - [x] list syntax required (any unordered or ordered list supported)",
        "    - [ ] this is a complete item",
        "    - [ ] this is an incomplete item",
        "- Very easy!",
    ];
    assert_eq!(output, expected.join("\n"));
}

#[test]
fn image_gets_a_line_of_its_own() {
    let lines = parse(80, "![alt](http://example.com/img.png)", &DefaultMapper);
    assert_eq!(lines.len(), 2);
    assert!(matches!(lines[0].kind, LineKind::Paragraph));
    match &lines[1].kind {
        LineKind::Image { url, description } => {
            assert_eq!(url, "http://example.com/img.png");
            assert_eq!(description, "alt");
        }
        other => panic!("not an image line: {other:?}"),
    }
}

#[test]
fn optimal_fit_may_leave_a_code_line_one_column_too_long() {
    let code = format!("```\n{} {}\n```\n", "a".repeat(50), "b".repeat(50));
    let lines = parse(100, &code, &DefaultMapper);
    assert_eq!(lines.len(), 1);
    assert_eq!(lines[0].spans[0].content.chars().count(), 101);
}
