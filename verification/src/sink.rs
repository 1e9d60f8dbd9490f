//! The terminal sink: a place bytes can be written. The production adapter
//! writes to standard output; a recording adapter keeps everything in memory
//! for tests. A wrapper tracks the cursor's line position.

use vstd::prelude::*;

use crate::text::push_char;
use crate::text::str_chars;

verus! {

/// A failed terminal write. Writes that fail are reported to the caller and
/// never swallowed.
#[derive(Clone, Copy, Debug, PartialEq, Eq, Structural)]
pub struct WriteError;

/// A place characters can be written. `recorded` is the abstract history of
/// everything successfully written.
pub trait Writer {
    /// The abstract history; an implementation that tracks nothing may leave
    /// the default, which records an empty history.
    open spec fn recorded(&self) -> Seq<char> {
        Seq::<char>::empty()
    }

    /// Write the string as given and flush. On failure nothing is accounted
    /// as written.
    fn write(&mut self, s: &str) -> (r: Result<(), WriteError>)
        ensures
            r is Ok ==> final(self).recorded() == old(self).recorded() + s@,
            r is Err ==> final(self).recorded() == old(self).recorded(),
    ;

    /// Write the string followed by a newline and flush. A failure may land
    /// after the string but before its newline, so the history grows by at
    /// most the string.
    fn writeln(&mut self, s: &str) -> (r: Result<(), WriteError>)
        ensures
            r is Ok ==> final(self).recorded() == old(self).recorded() + s@ + seq!['\n'],
            r is Err ==> final(self).recorded() == old(self).recorded() || final(self).recorded()
                == old(self).recorded() + s@,
    ;
}

/// Relies on std::io::Write::write_all on standard output; any error is
/// reported as a write failure.
#[verifier::external_body]
fn stdout_write_str(s: &str) -> (r: Result<(), WriteError>) {
    match std::io::Write::write_all(&mut std::io::stdout(), s.as_bytes()) {
        Ok(()) => Ok(()),
        Err(_) => Err(WriteError),
    }
}

/// Relies on std::io::Write::flush on standard output; best effort.
#[verifier::external_body]
fn stdout_flush() {
    let _ = std::io::Write::flush(&mut std::io::stdout());
}

/// The production sink: standard output. The history of successful writes is
/// carried as ghost state.
pub struct StdoutWriter {
    pub history: Ghost<Seq<char>>,
}

impl StdoutWriter {
    pub fn new() -> (r: Self)
        ensures
            r.recorded() == Seq::<char>::empty(),
    {
        StdoutWriter { history: Ghost(Seq::empty()) }
    }
}

impl Default for StdoutWriter {
    fn default() -> (r: Self)
        ensures
            r.recorded() == Seq::<char>::empty(),
    {
        StdoutWriter::new()
    }
}

impl Writer for StdoutWriter {
    open spec fn recorded(&self) -> Seq<char> {
        self.history@
    }

    fn write(&mut self, s: &str) -> (r: Result<(), WriteError>) {
        let r = stdout_write_str(s);
        match r {
            Ok(()) => {
                stdout_flush();
                proof {
                    self.history@ = self.history@ + s@;
                }
                Ok(())
            },
            Err(e) => Err(e),
        }
    }

    fn writeln(&mut self, s: &str) -> (r: Result<(), WriteError>) {
        match self.write(s) {
            Ok(()) => {
                let r = stdout_write_str("\n");
                match r {
                    Ok(()) => {
                        stdout_flush();
                        proof {
                            reveal_strlit("\n");
                            self.history@ = self.history@ + "\n"@;
                            assert(self.history@ =~= old(self).recorded() + s@ + seq!['\n']);
                        }
                        Ok(())
                    },
                    Err(e) => Err(e),
                }
            },
            Err(e) => Err(e),
        }
    }
}

/// The test sink: records every write in memory.
pub struct RecordingWriter {
    pub content: String,
}

impl RecordingWriter {
    pub fn new() -> (r: Self)
        ensures
            r.recorded() == Seq::<char>::empty(),
    {
        RecordingWriter { content: String::new() }
    }

    /// Everything written so far.
    pub fn contents(&self) -> (r: &String)
        ensures
            r@ == self.recorded(),
    {
        &self.content
    }
}

impl Writer for RecordingWriter {
    open spec fn recorded(&self) -> Seq<char> {
        self.content@
    }

    /// This sink cannot fail: every write succeeds and is recorded.
    fn write(&mut self, s: &str) -> (r: Result<(), WriteError>)
        ensures
            r is Ok,
    {
        let cs = str_chars(s);
        let n = cs.len();
        let mut i: usize = 0;
        while i < n
            invariant
                i <= n == cs@.len(),
                self.content@ == old(self).content@ + cs@.subrange(0, i as int),
            decreases n - i,
        {
            push_char(&mut self.content, cs[i]);
            i = i + 1;
            proof {
                assert(self.content@ =~= old(self).content@ + cs@.subrange(0, i as int));
            }
        }
        proof {
            assert(self.content@ =~= old(self).content@ + s@);
        }
        Ok(())
    }

    /// This sink cannot fail: every write succeeds and is recorded.
    fn writeln(&mut self, s: &str) -> (r: Result<(), WriteError>)
        ensures
            r is Ok,
    {
        match self.write(s) {
            Ok(()) => {
                push_char(&mut self.content, '\n');
                Ok(())
            },
            Err(e) => Err(e),
        }
    }
}

/// A console writer that tracks the last message written, so that a fresh
/// line can be opened before a full-line write when needed.
pub struct WriterWrapper<W: Writer> {
    pub message: Option<String>,
    pub writer: W,
}

/// The last message as a character sequence, if any.
pub open spec fn msg_view<W: Writer>(w: WriterWrapper<W>) -> Option<Seq<char>> {
    match w.message {
        Some(m) => Some(m@),
        None => None,
    }
}

impl<W: Writer> WriterWrapper<W> {
    pub fn new(writer: W) -> (r: Self)
        ensures
            r.message is None,
            r.writer == writer,
    {
        WriterWrapper { message: None, writer }
    }

    /// A full-line write must first close a line that was left open.
    pub open spec fn needs_newline(self) -> bool {
        match self.message {
            Some(m) => m@.len() == 0 || m@.last() != '\n',
            None => false,
        }
    }

    /// Whether the next full-line write must open a fresh line.
    pub fn is_new_line_required(&self) -> (r: bool)
        ensures
            r == self.needs_newline(),
    {
        match &self.message {
            None => false,
            Some(m) => {
                let mc = str_chars(m.as_str());
                if mc.len() == 0 {
                    true
                } else {
                    mc[mc.len() - 1] != '\n'
                }
            },
        }
    }

    /// Writes the string as-is and remembers it; a failure leaves both the
    /// remembered message and the history unchanged.
    pub fn write(&mut self, s: &str) -> (r: Result<(), WriteError>)
        ensures
            r is Ok ==> final(self).writer.recorded() == old(self).writer.recorded() + s@
                && msg_view(*final(self)) == Some(s@),
            r is Err ==> final(self).message == old(self).message
                && final(self).writer.recorded() == old(self).writer.recorded(),
    {
        match self.writer.write(s) {
            Ok(()) => {
                let copy = to_owned_str(s);
                self.message = Some(copy);
                Ok(())
            },
            Err(e) => Err(e),
        }
    }

    /// Writes the string as a full line, opening a fresh line first when the
    /// previous message left one open; remembers the message with its
    /// newline.
    pub fn writeln(&mut self, s: &str) -> (r: Result<(), WriteError>)
        ensures
            r is Ok ==> final(self).writer.recorded() == old(self).writer.recorded() + (
            if old(self).needs_newline() {
                seq!['\n']
            } else {
                Seq::<char>::empty()
            }) + s@ + seq!['\n'] && msg_view(*final(self)) == Some(s@ + seq!['\n']),
            r is Err ==> final(self).message == old(self).message && (
            final(self).writer.recorded() == old(self).writer.recorded()
                || final(self).writer.recorded() == old(self).writer.recorded() + seq!['\n']
                || final(self).writer.recorded() == old(self).writer.recorded() + seq!['\n'] + s@
                || final(self).writer.recorded() == old(self).writer.recorded() + s@),
    {
        if self.is_new_line_required() {
            match self.writer.writeln("") {
                Ok(()) => {
                    proof {
                        reveal_strlit("");
                        assert(""@ =~= Seq::<char>::empty());
                    }
                },
                Err(e) => {
                    proof {
                        reveal_strlit("");
                        assert(""@ =~= Seq::<char>::empty());
                        assert(old(self).writer.recorded() + ""@ =~= old(
                            self,
                        ).writer.recorded());
                    }
                    return Err(e);
                },
            }
        }
        match self.writer.writeln(s) {
            Ok(()) => {
                let mut copy = to_owned_str(s);
                push_char(&mut copy, '\n');
                self.message = Some(copy);
                proof {
                    assert(final(self).writer.recorded() =~= old(self).writer.recorded() + (
                    if old(self).needs_newline() {
                        seq!['\n']
                    } else {
                        Seq::<char>::empty()
                    }) + s@ + seq!['\n']);
                }
                Ok(())
            },
            Err(e) => Err(e),
        }
    }
}

/// An owned copy of a string slice.
fn to_owned_str(s: &str) -> (r: String)
    ensures
        r@ == s@,
{
    s.to_owned()
}

} // verus!
