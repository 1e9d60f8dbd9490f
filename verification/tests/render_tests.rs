use forge_display::render::MarkdownRenderer;
use forge_display::render::Segment;
use strip_ansi_escapes::strip_str;

#[test]
fn test_renderer_with_height() {
    let fixture = MarkdownRenderer::new(80, 24);
    assert_eq!(fixture.width, 80);
    assert_eq!(fixture.height, 24);
}

#[test]
fn test_render_plain_text() {
    let fixture = MarkdownRenderer::new(80, 24);
    let input = "This is plain text.\n\nWith multiple lines.";
    let actual = fixture.render(input, None);
    let clean_actual = strip_str(&actual);
    assert!(clean_actual.contains("This is plain text."));
    assert!(clean_actual.contains("With multiple lines."));
}

#[test]
fn test_render_multiple_code_blocks() {
    let fixture = MarkdownRenderer::new(80, 24);
    let input = "Text 1\n\n```\ncode1\n```\n\nText 2\n\n```\ncode2\n```\n\nText 3";
    let actual = fixture.render(input, None);
    let clean_actual = strip_str(&actual);
    assert!(clean_actual.contains("Text 1"));
    assert!(clean_actual.contains("code1"));
    assert!(clean_actual.contains("Text 2"));
    assert!(clean_actual.contains("code2"));
    assert!(clean_actual.contains("Text 3"));
}

#[test]
fn test_render_unclosed_code_block() {
    let fixture = MarkdownRenderer::new(80, 24);
    let input = "Text\n\n```\nunclosed code";
    let actual = fixture.render(input, None);
    let clean_actual = strip_str(&actual);
    assert!(clean_actual.contains("Text"));
    assert!(clean_actual.contains("unclosed code"));
    assert!(actual.contains("\x1b[0m"));
}

#[test]
fn test_segments_plain_text() {
    let fixture = MarkdownRenderer::new(80, 24);
    let input = "This is plain text.\n\nWith multiple lines.";
    let segments = fixture.render_markdown(input);
    assert_eq!(segments.len(), 1);
    assert!(matches!(segments[0], Segment::Text(ref t) if t == input));
}

#[test]
fn test_segments_single_code_block_middle() {
    let fixture = MarkdownRenderer::new(80, 24);
    let input = "Before code.\n\n```\nfn main() {}\n```\n\nAfter code.";
    let segments = fixture.render_markdown(input);
    assert_eq!(segments.len(), 3);
    assert!(matches!(segments[0], Segment::Text(ref t) if t.contains("Before code.")));
    assert!(matches!(segments[1], Segment::Code(ref c) if strip_str(c).contains("fn main() {}")));
    assert!(matches!(segments[2], Segment::Text(ref t) if t.contains("After code.")));
}

#[test]
fn test_segments_multiple_code_blocks() {
    let fixture = MarkdownRenderer::new(80, 24);
    let input = "Text 1\n\n```\ncode1\n```\n\nText 2\n\n```\ncode2\n```\n\nText 3";
    let segments = fixture.render_markdown(input);
    assert_eq!(segments.len(), 5);
    let code_count = segments
        .iter()
        .filter(|s| matches!(s, Segment::Code(_)))
        .count();
    assert_eq!(code_count, 2);
    let text_count = segments
        .iter()
        .filter(|s| matches!(s, Segment::Text(_)))
        .count();
    assert_eq!(text_count, 3);
}

#[test]
fn render_test_render_plain_text() {
    let fixture = MarkdownRenderer::new(80, 24);
    let input = "This is plain text.\n\nWith multiple lines.";
    let actual = fixture.render(input, None);
    let clean_actual = strip_str(&actual);
    assert!(clean_actual.contains("This is plain text."));
    assert!(clean_actual.contains("With multiple lines."));
}

#[test]
fn markdown_test_render_plain_text() {
    let fixture = MarkdownRenderer::new(80, 24);
    let input = "This is plain text.\n\nWith multiple lines.";
    let actual = fixture.render(input, None);
    let clean_actual = strip_str(&actual);
    assert!(clean_actual.contains("This is plain text."));
    assert!(clean_actual.contains("With multiple lines."));
}

#[test]
fn markdown_test_render_multiple_code_blocks() {
    let fixture = MarkdownRenderer::new(80, 24);
    let input = "Text 1\n\n```\ncode1\n```\n\nText 2\n\n```\ncode2\n```\n\nText 3";
    let actual = fixture.render(input, None);
    let clean_actual = strip_str(&actual);
    assert!(clean_actual.contains("Text 1"));
    assert!(clean_actual.contains("code1"));
    assert!(clean_actual.contains("Text 2"));
    assert!(clean_actual.contains("code2"));
    assert!(clean_actual.contains("Text 3"));
    let reset_count = actual.matches("\x1b[0m").count();
    assert_eq!(reset_count, 2);
}

#[test]
fn markdown_test_render_unclosed_code_block() {
    let fixture = MarkdownRenderer::new(80, 24);
    let input = "Text\n\n```\nunclosed code";
    let actual = fixture.render(input, None);
    let clean_actual = strip_str(&actual);
    assert!(clean_actual.contains("Text"));
    assert!(clean_actual.contains("unclosed code"));
    assert!(actual.contains("\x1b[0m"));
}

#[test]
fn markdown_test_segments_plain_text() {
    let fixture = MarkdownRenderer::new(80, 24);
    let input = "This is plain text.\n\nWith multiple lines.";
    let segments = fixture.render_markdown(input);
    assert_eq!(segments.len(), 1);
    assert!(matches!(segments[0], Segment::Text(ref t) if t == input));
}

#[test]
fn markdown_test_segments_single_code_block_middle() {
    let fixture = MarkdownRenderer::new(80, 24);
    let input = "Before code.\n\n```\nfn main() {}\n```\n\nAfter code.";
    let segments = fixture.render_markdown(input);
    assert_eq!(segments.len(), 3);
    assert!(matches!(segments[0], Segment::Text(ref t) if t.contains("Before code.")));
    assert!(matches!(segments[1], Segment::Code(ref c) if strip_str(c).contains("fn main() {}")));
    assert!(matches!(segments[2], Segment::Text(ref t) if t.contains("After code.")));
}

#[test]
fn markdown_test_segments_multiple_code_blocks() {
    let fixture = MarkdownRenderer::new(80, 24);
    let input = "Text 1\n\n```\ncode1\n```\n\nText 2\n\n```\ncode2\n```\n\nText 3";
    let segments = fixture.render_markdown(input);
    assert_eq!(segments.len(), 5);
    let code_count = segments
        .iter()
        .filter(|s| matches!(s, Segment::Code(_)))
        .count();
    assert_eq!(code_count, 2);
    let text_count = segments
        .iter()
        .filter(|s| matches!(s, Segment::Text(_)))
        .count();
    assert_eq!(text_count, 3);
}

#[test]
fn render_test_render_multiple_code_blocks() {
    let fixture = MarkdownRenderer::new(80, 24);
    let input = "Text 1\n\n```\ncode1\n```\n\nText 2\n\n```\ncode2\n```\n\nText 3";
    let actual = fixture.render(input, None);
    let clean_actual = strip_str(&actual);
    assert!(clean_actual.contains("Text 1"));
    assert!(clean_actual.contains("code1"));
    assert!(clean_actual.contains("Text 2"));
    assert!(clean_actual.contains("code2"));
    assert!(clean_actual.contains("Text 3"));
}

#[test]
fn render_test_render_unclosed_code_block() {
    let fixture = MarkdownRenderer::new(80, 24);
    let input = "Text\n\n```\nunclosed code";
    let actual = fixture.render(input, None);
    let clean_actual = strip_str(&actual);
    assert!(clean_actual.contains("Text"));
    assert!(clean_actual.contains("unclosed code"));
    assert!(actual.contains("\x1b[0m"));
}

#[test]
fn render_test_segments_plain_text() {
    let fixture = MarkdownRenderer::new(80, 24);
    let input = "This is plain text.\n\nWith multiple lines.";
    let segments = fixture.render_markdown(input);
    assert_eq!(segments.len(), 1);
    assert!(matches!(segments[0], Segment::Text(ref t) if t == input));
}

#[test]
fn render_test_segments_single_code_block_middle() {
    let fixture = MarkdownRenderer::new(80, 24);
    let input = "Before code.\n\n```\nfn main() {}\n```\n\nAfter code.";
    let segments = fixture.render_markdown(input);
    assert_eq!(segments.len(), 3);
    assert!(matches!(segments[0], Segment::Text(ref t) if t.contains("Before code.")));
    assert!(matches!(segments[1], Segment::Code(ref c) if strip_str(c).contains("fn main() {}")));
    assert!(matches!(segments[2], Segment::Text(ref t) if t.contains("After code.")));
}

#[test]
fn render_test_segments_multiple_code_blocks() {
    let fixture = MarkdownRenderer::new(80, 24);
    let input = "Text 1\n\n```\ncode1\n```\n\nText 2\n\n```\ncode2\n```\n\nText 3";
    let segments = fixture.render_markdown(input);
    assert_eq!(segments.len(), 5);
    let code_count = segments
        .iter()
        .filter(|s| matches!(s, Segment::Code(_)))
        .count();
    assert_eq!(code_count, 2);
}

#[test]
fn writer_test_render_plain_text() {
    let fixture = MarkdownRenderer::new(80, 24);
    let input = "This is plain text.\n\nWith multiple lines.";
    let actual = fixture.render(input, None);
    let clean_actual = strip_str(&actual);
    assert!(clean_actual.contains("This is plain text."));
    assert!(clean_actual.contains("With multiple lines."));
}

#[test]
fn writer_test_render_multiple_code_blocks() {
    let fixture = MarkdownRenderer::new(80, 24);
    let input = "Text 1\n\n```\ncode1\n```\n\nText 2\n\n```\ncode2\n```\n\nText 3";
    let actual = fixture.render(input, None);
    let clean_actual = strip_str(&actual);
    assert!(clean_actual.contains("Text 1"));
    assert!(clean_actual.contains("code1"));
    assert!(clean_actual.contains("Text 2"));
    assert!(clean_actual.contains("code2"));
    assert!(clean_actual.contains("Text 3"));
    let reset_count = actual.matches("\x1b[0m").count();
    assert_eq!(reset_count, 2);
}

#[test]
fn writer_test_render_unclosed_code_block() {
    let fixture = MarkdownRenderer::new(80, 24);
    let input = "Text\n\n```\nunclosed code";
    let actual = fixture.render(input, None);
    let clean_actual = strip_str(&actual);
    assert!(clean_actual.contains("Text"));
    assert!(clean_actual.contains("unclosed code"));
    assert!(actual.contains("\x1b[0m"));
}

#[test]
fn test_render_idempotent() {
    let fixture = MarkdownRenderer::new(60, 24);
    let input = "# Title\n\nsome *text* with `code`\n\n```rust\nfn x() {}\n```\n";
    let first = fixture.render(input, None);
    let second = fixture.render(input, None);
    assert_eq!(first, second);
    assert_eq!(first.as_bytes(), second.as_bytes());
}

#[test]
fn test_render_code_is_colored() {
    let fixture = MarkdownRenderer::new(80, 24);
    let input = "```rust\nfn main() { let x = 1; }\n```\n";
    let actual = fixture.render(input, None);
    // 24-bit color escapes come from the highlighter, not from the input
    assert!(actual.contains("\x1b[38;2;"));
}

#[test]
fn test_render_prose_is_styled() {
    let fixture = MarkdownRenderer::new(80, 24);
    let input = "some **bold** words";
    let actual = fixture.render(input, None);
    let clean = strip_str(&actual);
    assert!(clean.contains("bold"));
    // the markdown markers themselves are consumed by the skin
    assert!(!clean.contains("**"));
}

#[test]
fn test_render_unterminated_fence_ends_with_reset() {
    let fixture = MarkdownRenderer::new(80, 24);
    let actual = fixture.render("```\ncode with no closing fence", None);
    let clean = strip_str(&actual);
    assert!(clean.contains("code with no closing fence"));
    assert!(actual.ends_with("\x1b[0m"));
}

#[test]
fn test_render_empty_input() {
    let fixture = MarkdownRenderer::new(80, 24);
    let actual = fixture.render("", None);
    assert_eq!(actual, "");
}

#[test]
fn test_render_fence_with_language_tag() {
    let fixture = MarkdownRenderer::new(80, 24);
    let input = "```python\nprint(1)\n```\n";
    let segments = fixture.render_markdown(input);
    // the code block, and the newline left after the closing fence
    assert_eq!(segments.len(), 2);
    assert!(matches!(segments[0], Segment::Code(ref c) if strip_str(c).contains("print(1)")));
    assert!(matches!(segments[1], Segment::Text(ref t) if t == "\n"));
}
