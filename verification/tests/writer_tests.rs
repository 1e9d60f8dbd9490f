use forge_display::render::MarkdownRenderer;
use forge_display::sink::RecordingWriter;
use forge_display::sink::WriteError;
use forge_display::sink::Writer;
use forge_display::writer::MarkdownWriter;
use forge_display::writer::diff_payload;
use forge_display::writer::split_lines_exec;

#[test]
fn test_markdown_writer_basic_incremental_update() {
    let renderer = MarkdownRenderer::new(80, 24);
    let mut output = RecordingWriter::new();
    let previous_rendered = {
        let mut writer = MarkdownWriter::new(renderer);
        writer.stream("Line 1\nLine 2\nLine 3", &mut output).unwrap();
        writer.previous_rendered.clone()
    };
    assert_eq!(previous_rendered, "Line 1\nLine 2\nLine 3");
    let output_str = output.content;
    assert!(output_str.contains("Line 1"));
    assert!(output_str.contains("Line 2"));
    assert!(output_str.contains("Line 3"));
}

#[test]
fn markdown_test_markdown_writer_basic_incremental_update() {
    let renderer = MarkdownRenderer::new(80, 24);
    let mut output = RecordingWriter::new();
    let previous_rendered = {
        let mut writer = MarkdownWriter::new(renderer);
        writer.stream("Line 1\nLine 2\nLine 3", &mut output).unwrap();
        writer.previous_rendered.clone()
    };
    assert_eq!(previous_rendered, "Line 1\nLine 2\nLine 3");
    let output_str = output.content;
    assert!(output_str.contains("Line 1"));
    assert!(output_str.contains("Line 2"));
    assert!(output_str.contains("Line 3"));
}

#[test]
fn test_markdown_writer_full_clear_with_height_cap() {
    let renderer = MarkdownRenderer::new(80, 2);
    let mut output = RecordingWriter::new();
    {
        let mut writer = MarkdownWriter::new(renderer);
        writer.previous_rendered = "Old 1\nOld 2\nOld 3\nOld 4\nOld 5".to_string();
        writer
            .stream("new 1\nnew 2\nnew3\nnew 4\n new 5\n new6", &mut output)
            .unwrap();
    }
    let output_str = output.content;
    // common=0, five stale lines but a height cap of 2: move up exactly 2
    assert!(output_str.contains("\x1b[2A"));
    assert!(output_str.contains("\x1b[0J"));
}

#[test]
fn markdown_test_markdown_writer_full_clear_with_height_cap() {
    let renderer = MarkdownRenderer::new(80, 2);
    let mut output = RecordingWriter::new();
    {
        let mut writer = MarkdownWriter::new(renderer);
        writer.previous_rendered = "Old 1\nOld 2\nOld 3\nOld 4\nOld 5".to_string();
        writer
            .stream("new 1\nnew 2\nnew3\nnew 4\n new 5\n new6", &mut output)
            .unwrap();
    }
    let output_str = output.content;
    assert!(output_str.contains("\x1b[2A"));
    assert!(output_str.contains("\x1b[0J"));
}

#[test]
fn test_markdown_writer_long_text_chunk_by_chunk() {
    let renderer = MarkdownRenderer::new(80, 24);
    let mut fixture = MarkdownWriter::new(renderer);
    let mut sink = RecordingWriter::new();

    let long_text = r#"# Header

This is a long paragraph with multiple sentences. It contains various types of content including some code examples.

```rust
fn main() {
    println!("Hello, world!");
    let x = 42;
    println!("The answer is {}", x);
}
```

And some more text after the code block."#;

    let chunks = long_text.split_whitespace().collect::<Vec<_>>();
    for chunk in chunks {
        fixture.add_chunk(&format!("{} ", chunk), &mut sink).unwrap();
    }

    assert!(fixture.buffer.contains("Header"));
    assert!(fixture.buffer.contains("println!"));
    assert!(fixture.buffer.contains("Hello, world!"));
    assert!(fixture.buffer.contains("more text"));
}

#[test]
fn markdown_test_markdown_writer_long_text_chunk_by_chunk() {
    let renderer = MarkdownRenderer::new(80, 24);
    let mut fixture = MarkdownWriter::new(renderer);
    let mut sink = RecordingWriter::new();

    let long_text = r#"# Header

This is a long paragraph with multiple sentences. It contains various types of content including some code examples.

```rust
fn main() {
    println!("Hello, world!");
    let x = 42;
    println!("The answer is {}", x);
}
```

And some more text after the code block."#;

    let chunks = long_text.split_whitespace().collect::<Vec<_>>();
    for chunk in chunks {
        fixture.add_chunk(&format!("{} ", chunk), &mut sink).unwrap();
    }

    assert!(fixture.buffer.contains("Header"));
    assert!(fixture.buffer.contains("println!"));
    assert!(fixture.buffer.contains("Hello, world!"));
    assert!(fixture.buffer.contains("more text"));
}

#[test]
fn test_diff_payload_exact() {
    let prev = vec!["a".to_string(), "b".to_string()];
    let new = vec!["a".to_string(), "c".to_string()];
    let payload = diff_payload(&prev, &new, 10);
    assert_eq!(payload, "\x1b[1A\x1b[0Jc\n");
}

#[test]
fn test_diff_payload_no_shared_prefix_capped() {
    // five stale lines, no shared prefix, cap 2: up 2, skip 3, print from 2
    let prev: Vec<String> = (1..=5).map(|i| format!("Old {i}")).collect();
    let new: Vec<String> = (1..=6).map(|i| format!("new {i}")).collect();
    let payload = diff_payload(&prev, &new, 2);
    assert!(payload.starts_with("\x1b[2A\x1b[0J"));
    assert!(!payload.contains("new 1"));
    assert!(!payload.contains("new 3"));
    assert!(payload.contains("new 4"));
    assert!(payload.contains("new 6"));
}

#[test]
fn test_diff_payload_identical_lines() {
    let prev = vec!["a".to_string(), "b".to_string()];
    let new = vec!["a".to_string(), "b".to_string()];
    let payload = diff_payload(&prev, &new, 10);
    // nothing to move up, nothing to reprint
    assert_eq!(payload, "\x1b[0J");
}

#[test]
fn test_split_lines_exec_semantics() {
    let lines = split_lines_exec("a\r\nb\nc");
    assert_eq!(lines, vec!["a".to_string(), "b".to_string(), "c".to_string()]);
    let lines = split_lines_exec("a\n");
    assert_eq!(lines, vec!["a".to_string()]);
    let lines = split_lines_exec("");
    assert!(lines.is_empty());
}

#[test]
fn test_writer_mode_switch_resets() {
    let renderer = MarkdownRenderer::new(80, 24);
    let mut writer = MarkdownWriter::new(renderer);
    let mut sink = RecordingWriter::new();
    writer.add_chunk("normal text", &mut sink).unwrap();
    assert_eq!(writer.buffer, "normal text");
    // switching to dimmed output flushes the old mode's state away
    writer.add_chunk_dimmed("dim text", &mut sink).unwrap();
    assert_eq!(writer.buffer, "dim text");
    assert!(writer.last_was_dimmed);
    // and back
    writer.add_chunk("fresh", &mut sink).unwrap();
    assert_eq!(writer.buffer, "fresh");
    assert!(!writer.last_was_dimmed);
}

#[test]
fn test_writer_flush_renders_buffer() {
    let renderer = MarkdownRenderer::new(80, 24);
    let mut writer = MarkdownWriter::new(renderer);
    let mut sink = RecordingWriter::new();
    writer.add_chunk("hello world", &mut sink).unwrap();
    writer.flush(&mut sink).unwrap();
    assert!(writer.previous_rendered.contains("hello world"));
}

struct FailWriter;

impl Writer for FailWriter {
    fn write(&mut self, _s: &str) -> Result<(), WriteError> {
        Err(WriteError)
    }

    fn writeln(&mut self, _s: &str) -> Result<(), WriteError> {
        Err(WriteError)
    }
}

#[test]
fn test_writer_propagates_write_failure() {
    let renderer = MarkdownRenderer::new(80, 24);
    let mut writer = MarkdownWriter::new(renderer);
    let mut sink = FailWriter;
    let r = writer.stream("anything", &mut sink);
    assert_eq!(r, Err(WriteError));
    // the baseline is not advanced on failure
    assert_eq!(writer.previous_rendered, "");
}
