use mdfrier::line_blocks::split_headers_and_images as split;
use mdfrier::pipeline::Block;

fn blocks(text: &str) -> Vec<Block> {
    split(text).expect("a syntax tree")
}

fn header(tier: u8, text: &str) -> Block {
    Block::Header(tier, text.to_owned())
}

fn para(text: &str) -> Block {
    Block::Paragraph(text.to_owned())
}

#[test]
fn new_style() {
    assert_eq!(
        blocks("\n# header *stronk*!\n\nblablagraph\n\n## a baby\n"),
        vec![header(1, "header *stronk*!"), para("blablagraph\n"), header(2, "a baby")]
    );
}

#[test]
fn split_headers_and_paragraphs() {
    let text = "\n# header\n\nparagraph\n\nparagraph\n\n# header\n\nparagraph\nparagraph\n\n# header\n\nparagraph\n\n# header\n";
    assert_eq!(
        blocks(text),
        vec![
            header(1, "header"),
            para("paragraph\n"),
            para("paragraph\n"),
            header(1, "header"),
            para("paragraph\nparagraph\n"),
            header(1, "header"),
            para("paragraph\n"),
            header(1, "header"),
        ]
    );
}

#[test]
fn split_headers_and_paragraphs_without_space() {
    let b = blocks("\n# header\nparagraph\n# header\n# header\nparagraph\n# header\n");
    assert_eq!(6, b.len());
    assert_eq!(
        b,
        vec![
            header(1, "header"),
            para("paragraph\n"),
            header(1, "header"),
            header(1, "header"),
            para("paragraph\n"),
            header(1, "header"),
        ]
    );
}

#[test]
fn codefence() {
    let text = "\n# header\n\nparagraph\n\n```c\n#ifdef FOO\nbar();\n#endif\n```\n\nparagraph\n\n  ~~~~\n  x(\"\n  ~~~\n  \");\n  #define Y\n  z();\n  ~~~~\n\n# header\n\nparagraph\n";
    assert_eq!(
        blocks(text),
        vec![
            header(1, "header"),
            para("paragraph\n"),
            Block::FencedCodeBlock("```c\n#ifdef FOO\nbar();\n#endif\n```\n".to_owned()),
            para("paragraph\n"),
            Block::FencedCodeBlock("  ~~~~\n  x(\"\n  ~~~\n  \");\n  #define Y\n  z();\n  ~~~~\n".to_owned()),
            header(1, "header"),
            para("paragraph\n"),
        ]
    );
}

#[test]
fn split_headers_and_images() {
    assert_eq!(
        blocks("\n# header\n\nparagraph\n\n![zherkalo](./mirror.jpg)\n"),
        vec![
            header(1, "header"),
            para("paragraph\n"),
            Block::Image("zherkalo".to_owned(), "./mirror.jpg".to_owned()),
        ]
    );
}

#[test]
fn lone_image_node_makes_an_image_block() {
    assert_eq!(blocks("see ![a](b.png)\n"), vec![Block::Image("a".to_owned(), "b.png".to_owned())]);
    assert_eq!(blocks("![a](b.png) ![c](d.png)\n"), vec![para("![a](b.png) ![c](d.png)\n")]);
    assert_eq!(blocks("x\n"), vec![para("x\n")]);
    assert_eq!(blocks("![a](b.png)\n"), vec![Block::Image("a".to_owned(), "b.png".to_owned())]);
}
