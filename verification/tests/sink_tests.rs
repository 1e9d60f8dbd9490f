use forge_display::sink::RecordingWriter;
use forge_display::sink::WriteError;
use forge_display::sink::Writer;
use forge_display::sink::WriterWrapper;

#[derive(Default)]
struct MockWriter {
    content: String,
}

impl Writer for MockWriter {
    fn write(&mut self, s: &str) -> Result<(), WriteError> {
        self.content.push_str(s);
        Ok(())
    }

    fn writeln(&mut self, s: &str) -> Result<(), WriteError> {
        self.content.push_str(s);
        self.content.push_str("\n");
        Ok(())
    }
}

#[test]
fn test_is_new_line_required_when_no_message() {
    let fixture = WriterWrapper::new(MockWriter::default());
    let actual = fixture.is_new_line_required();
    let expected = false;
    assert_eq!(actual, expected);
}

#[test]
fn test_is_new_line_required_when_message_ends_with_newline() {
    let mut fixture = WriterWrapper::new(MockWriter::default());
    fixture.message = Some("hello\n".to_string());
    let actual = fixture.is_new_line_required();
    let expected = false;
    assert_eq!(actual, expected);
}

#[test]
fn test_is_new_line_required_when_message_does_not_end_with_newline() {
    let mut fixture = WriterWrapper::new(MockWriter::default());
    fixture.message = Some("hello".to_string());
    let actual = fixture.is_new_line_required();
    let expected = true;
    assert_eq!(actual, expected);
}

#[test]
fn test_write_outputs_correct_content() {
    let mut fixture = WriterWrapper::new(MockWriter::default());
    fixture.write("test message").unwrap();
    let actual = fixture.message.as_ref().unwrap();
    let expected = "test message".to_string();
    assert_eq!(*actual, expected);
}

#[test]
fn test_writeln_outputs_correct_content() {
    let mut fixture = WriterWrapper::new(MockWriter::default());
    fixture.writeln("test message").unwrap();
    let actual = fixture.message.as_ref().unwrap();
    let expected = "test message\n".to_string();
    assert_eq!(*actual, expected);
}

#[test]
fn test_writeln_opens_fresh_line_after_partial_write() {
    let mut fixture = WriterWrapper::new(MockWriter::default());
    fixture.write("partial").unwrap();
    fixture.writeln("full line").unwrap();
    assert_eq!(fixture.writer.content, "partial\nfull line\n");
}

#[test]
fn test_recording_writer_accumulates() {
    let mut rec = RecordingWriter::new();
    rec.write("a").unwrap();
    rec.writeln("b").unwrap();
    assert_eq!(rec.content, "ab\n");
    assert_eq!(rec.contents().as_str(), "ab\n");
}
