//! The incremental writer: buffers streamed markdown chunks, re-renders the
//! whole buffer, diffs against the previously emitted lines, and writes a
//! minimal terminal update through a sink.

use vstd::prelude::*;

use crate::ansi::first_char_from;
use crate::ansi::split_lines;
use crate::ansi::strip_cr;
use crate::render::MarkdownRenderer;
use crate::render::StyleAttr;
use crate::render::render_spec;
use crate::sink::WriteError;
use crate::sink::Writer;
use crate::text::append_str;
use crate::text::chars_to_string;
use crate::text::dec_str;
use crate::text::push_range;
use crate::text::str_chars;
use crate::text::str_eq;
use crate::text::sub_string;
use crate::text::u64_dec_chars;

verus! {

/// Length of the longest shared prefix of two line lists.
pub open spec fn common_prefix_len(a: Seq<Seq<char>>, b: Seq<Seq<char>>) -> nat
    decreases a.len(),
{
    if a.len() == 0 || b.len() == 0 || a.first() != b.first() {
        0
    } else {
        1 + common_prefix_len(a.drop_first(), b.drop_first())
    }
}

/// The common prefix length is the largest index below which the two line
/// lists agree.
pub proof fn lemma_common_prefix(a: Seq<Seq<char>>, b: Seq<Seq<char>>)
    ensures
        common_prefix_len(a, b) <= a.len(),
        common_prefix_len(a, b) <= b.len(),
        forall|j: int| 0 <= j < common_prefix_len(a, b) ==> a[j] == b[j],
        common_prefix_len(a, b) < a.len() && common_prefix_len(a, b) < b.len() ==> a[
            common_prefix_len(a, b) as int
        ] != b[common_prefix_len(a, b) as int],
    decreases a.len(),
{
    if a.len() > 0 && b.len() > 0 && a.first() == b.first() {
        lemma_common_prefix(a.drop_first(), b.drop_first());
        let c = common_prefix_len(a, b);
        assert forall|j: int| 0 <= j < c implies a[j] == b[j] by {
            if j > 0 {
                assert(a.drop_first()[j - 1] == b.drop_first()[j - 1]);
            }
        }
        if c < a.len() && c < b.len() {
            assert(a.drop_first()[c - 1] != b.drop_first()[c - 1]);
        }
    }
}

/// The redrawn lines, each closed with a newline.
pub open spec fn lines_nl(ls: Seq<Seq<char>>) -> Seq<char>
    decreases ls.len(),
{
    if ls.len() == 0 {
        Seq::<char>::empty()
    } else {
        ls.first() + seq!['\n'] + lines_nl(ls.drop_first())
    }
}

/// The cursor-up escape: nothing when no line is redrawn in place.
pub open spec fn cursor_up_seq(up: nat) -> Seq<char> {
    if up > 0 {
        seq!['\x1b', '['] + dec_str(up) + seq!['A']
    } else {
        Seq::<char>::empty()
    }
}

/// The clear-from-cursor-to-end-of-screen escape.
pub open spec fn clear_down_seq() -> Seq<char> {
    seq!['\x1b', '[', '0', 'J']
}

/// The terminal update for a redraw: with `common` shared leading lines and
/// `skip` off-screen lines left alone, move the cursor up by exactly
/// `min(prev.len() - common, height)`, clear to the end of the screen, and
/// reprint exactly the new lines from `common + skip` on.
pub open spec fn diff_payload_spec(prev: Seq<Seq<char>>, new: Seq<Seq<char>>, height: nat) -> Seq<
    char,
> {
    let common = common_prefix_len(prev, new);
    let up_base = (prev.len() - common) as nat;
    let up = if up_base > height {
        height
    } else {
        up_base
    };
    let skip = (up_base - up) as nat;
    let from = if common + skip > new.len() {
        new.len()
    } else {
        common + skip
    };
    cursor_up_seq(up) + clear_down_seq() + lines_nl(new.skip(from as int))
}

/// Diff minimality: the update of `diff_payload_spec` moves the cursor up by
/// exactly `min(N - k, H)` and reprints exactly the tail of the new lines
/// beyond `common + skip`, where `k` is the shared prefix length, `N` the
/// previous line count and `H` the height cap.
pub proof fn lemma_diff_minimality(prev: Seq<Seq<char>>, new: Seq<Seq<char>>, height: nat, k: nat)
    requires
        k <= prev.len(),
        k <= new.len(),
        forall|j: int| 0 <= j < k ==> prev[j] == new[j],
        k < prev.len() && k < new.len() ==> prev[k as int] != new[k as int],
    ensures
        common_prefix_len(prev, new) == k,
        diff_payload_spec(prev, new, height) == cursor_up_seq(
            if prev.len() - k > height {
                height
            } else {
                (prev.len() - k) as nat
            },
        ) + clear_down_seq() + lines_nl(
            new.skip(
                if k + ((prev.len() - k) as nat - (if prev.len() - k > height {
                    height
                } else {
                    (prev.len() - k) as nat
                })) > new.len() {
                    new.len() as int
                } else {
                    (k + ((prev.len() - k) as nat - (if prev.len() - k > height {
                        height
                    } else {
                        (prev.len() - k) as nat
                    }))) as int
                },
            ),
        ),
    decreases k,
{
    lemma_common_prefix(prev, new);
    lemma_common_prefix_unique(prev, new, k);
}

proof fn lemma_common_prefix_unique(prev: Seq<Seq<char>>, new: Seq<Seq<char>>, k: nat)
    requires
        k <= prev.len(),
        k <= new.len(),
        forall|j: int| 0 <= j < k ==> prev[j] == new[j],
        k < prev.len() && k < new.len() ==> prev[k as int] != new[k as int],
    ensures
        common_prefix_len(prev, new) == k,
    decreases k,
{
    if k == 0 {
    } else {
        assert(prev.first() == new.first());
        assert forall|j: int| 0 <= j < k - 1 implies prev.drop_first()[j] == new.drop_first()[j]
            by {
            assert(prev[j + 1] == new[j + 1]);
        }
        if k - 1 < prev.drop_first().len() && k - 1 < new.drop_first().len() {
            assert(prev.drop_first()[k - 1] == prev[k as int]);
            assert(new.drop_first()[k - 1] == new[k as int]);
        }
        lemma_common_prefix_unique(prev.drop_first(), new.drop_first(), (k - 1) as nat);
    }
}

/// The lines of a string, as owned strings.
pub fn split_lines_exec(s: &str) -> (r: Vec<String>)
    ensures
        r@.map_values(|l: String| l@) == split_lines(s@),
{
    let cs = str_chars(s);
    let n = cs.len();
    let mut out: Vec<String> = Vec::new();
    let mut pos: usize = 0;
    let ghost f = |l: String| l@;
    proof {
        assert(cs@.subrange(0, n as int) =~= cs@);
        assert(out@.map_values(f) =~= Seq::<Seq<char>>::empty());
    }
    while pos < n
        invariant
            pos <= n == cs@.len(),
            split_lines(cs@) == out@.map_values(|l: String| l@) + split_lines(
                cs@.subrange(pos as int, n as int),
            ),
        decreases n - pos,
    {
        let ghost rest = cs@.subrange(pos as int, n as int);
        let mut i = pos;
        while i < n && cs[i] != '\n'
            invariant
                pos <= i <= n == cs@.len(),
                first_char_from(rest, 0, '\n') == first_char_from(rest, (i - pos) as nat, '\n'),
                rest == cs@.subrange(pos as int, n as int),
            decreases n - i,
        {
            i = i + 1;
        }
        let e = if i < n && i > pos && cs[i - 1] == '\r' {
            i - 1
        } else {
            i
        };
        proof {
            if i < n {
                assert(rest[i - pos as int] == '\n');
                assert(first_char_from(rest, (i - pos) as nat, '\n') == i - pos);
                assert(strip_cr(rest.subrange(0, i - pos as int)) =~= cs@.subrange(
                    pos as int,
                    e as int,
                ));
                assert(rest.subrange(i - pos as int + 1, rest.len() as int) =~= cs@.subrange(
                    i as int + 1,
                    n as int,
                ));
            } else {
                assert(first_char_from(rest, (i - pos) as nat, '\n') == rest.len());
                assert(rest =~= cs@.subrange(pos as int, e as int));
                assert(cs@.subrange(n as int, n as int) =~= Seq::<char>::empty());
            }
        }
        let line = sub_string(&cs, pos, e);
        out.push(line);
        proof {
            let f2 = |l: String| l@;
            assert(out@.map_values(f2) =~= out@.drop_last().map_values(f2) + seq![out@.last()@]);
            if i >= n {
                assert(split_lines(cs@.subrange(n as int, n as int)) =~= Seq::<Seq<char>>::empty());
            }
        }
        pos = if i < n {
            i + 1
        } else {
            n
        };
    }
    proof {
        assert(cs@.subrange(pos as int, n as int) =~= Seq::<char>::empty());
        assert(out@.map_values(|l: String| l@) =~= split_lines(cs@));
    }
    out
}

/// Builds the terminal update for a redraw from the previous lines to the
/// new ones, bounded by the visible height.
pub fn diff_payload(lines_prev: &Vec<String>, lines_new: &Vec<String>, height: usize) -> (r:
    String)
    ensures
        r@ == diff_payload_spec(
            lines_prev@.map_values(|l: String| l@),
            lines_new@.map_values(|l: String| l@),
            height as nat,
        ),
{
    let ghost pv = lines_prev@.map_values(|l: String| l@);
    let ghost nv = lines_new@.map_values(|l: String| l@);
    let np = lines_prev.len();
    let nn = lines_new.len();
    // longest shared prefix
    let mut common: usize = 0;
    proof {
        assert(pv.skip(0) =~= pv);
        assert(nv.skip(0) =~= nv);
    }
    while common < np && common < nn && str_eq(
        lines_prev[common].as_str(),
        lines_new[common].as_str(),
    )
        invariant
            common <= np == lines_prev@.len(),
            common <= nn == lines_new@.len(),
            pv == lines_prev@.map_values(|l: String| l@),
            nv == lines_new@.map_values(|l: String| l@),
            common_prefix_len(pv, nv) == common + common_prefix_len(
                pv.skip(common as int),
                nv.skip(common as int),
            ),
        decreases np - common,
    {
        proof {
            assert(pv.skip(common as int).first() == pv[common as int]);
            assert(nv.skip(common as int).first() == nv[common as int]);
            assert(pv.skip(common as int).drop_first() =~= pv.skip(common as int + 1));
            assert(nv.skip(common as int).drop_first() =~= nv.skip(common as int + 1));
        }
        common = common + 1;
    }
    proof {
        if common < np && common < nn {
            assert(pv.skip(common as int).first() == pv[common as int]);
            assert(nv.skip(common as int).first() == nv[common as int]);
        }
        assert(common_prefix_len(pv, nv) == common);
    }
    let up_base = np - common;
    let up = if up_base > height {
        height
    } else {
        up_base
    };
    let skip = up_base - up;
    let mut out: Vec<char> = Vec::new();
    if up > 0 {
        out.push('\x1b');
        out.push('[');
        let digits = u64_dec_chars(up as u64);
        push_range(&mut out, &digits, 0, digits.len());
        out.push('A');
        proof {
            assert(digits@.subrange(0, digits@.len() as int) =~= digits@);
            assert(out@ =~= cursor_up_seq(up as nat));
        }
    } else {
        proof {
            assert(out@ =~= cursor_up_seq(up as nat));
        }
    }
    out.push('\x1b');
    out.push('[');
    out.push('0');
    out.push('J');
    proof {
        assert(out@ =~= cursor_up_seq(up as nat) + clear_down_seq());
    }
    let from = if common + skip > nn {
        nn
    } else {
        common + skip
    };
    let mut t = from;
    proof {
        assert(lines_nl(nv.skip(nn as int)) =~= Seq::<char>::empty());
    }
    while t < nn
        invariant
            from <= t <= nn == lines_new@.len(),
            nv == lines_new@.map_values(|l: String| l@),
            out@ + lines_nl(nv.skip(t as int)) == cursor_up_seq(up as nat) + clear_down_seq()
                + lines_nl(nv.skip(from as int)),
        decreases nn - t,
    {
        proof {
            assert(nv.skip(t as int).first() == nv[t as int]);
            assert(nv.skip(t as int).drop_first() =~= nv.skip(t as int + 1));
        }
        let lc = str_chars(lines_new[t].as_str());
        push_range(&mut out, &lc, 0, lc.len());
        out.push('\n');
        t = t + 1;
        proof {
            assert(lc@.subrange(0, lc@.len() as int) =~= lc@);
            assert(out@ + lines_nl(nv.skip(t as int)) =~= cursor_up_seq(up as nat)
                + clear_down_seq() + lines_nl(nv.skip(from as int)));
        }
    }
    proof {
        assert(nv.skip(nn as int) =~= Seq::<Seq<char>>::empty());
        assert(out@ =~= diff_payload_spec(pv, nv, height as nat));
    }
    chars_to_string(&out)
}

/// Buffers streamed markdown, re-renders the whole buffer on each chunk, and
/// redraws only what changed since the previous render. The stored
/// `previous_rendered` always equals the full latest render, even though
/// only a bounded suffix is physically redrawn.
pub struct MarkdownWriter {
    pub buffer: String,
    pub renderer: MarkdownRenderer,
    pub previous_rendered: String,
    pub last_was_dimmed: bool,
}

impl MarkdownWriter {
    /// A fresh writer around a renderer: empty buffer, no previous render.
    pub fn new(renderer: MarkdownRenderer) -> (r: Self)
        ensures
            r.buffer@ == Seq::<char>::empty(),
            r.previous_rendered@ == Seq::<char>::empty(),
            r.last_was_dimmed == false,
            r.renderer == renderer,
    {
        MarkdownWriter {
            buffer: String::new(),
            renderer,
            previous_rendered: String::new(),
            last_was_dimmed: false,
        }
    }

    /// Clears the buffer and the previous-render baseline; used on a mode
    /// switch or a new message boundary.
    pub fn reset(&mut self)
        ensures
            final(self).buffer@ == Seq::<char>::empty(),
            final(self).previous_rendered@ == Seq::<char>::empty(),
            final(self).renderer == old(self).renderer,
            final(self).last_was_dimmed == old(self).last_was_dimmed,
    {
        self.buffer = String::new();
        self.previous_rendered = String::new();
    }

    /// Renders and diffs `content` against the previous render, writes the
    /// update through the sink, and stores `content` in full as the new
    /// baseline. A write failure leaves the writer unchanged and propagates.
    pub fn stream<W: Writer>(&mut self, content: &str, out: &mut W) -> (r: Result<
        (),
        WriteError,
    >)
        ensures
            r is Ok ==> final(out).recorded() == old(out).recorded() + diff_payload_spec(
                split_lines(old(self).previous_rendered@),
                split_lines(content@),
                old(self).renderer.height as nat,
            ),
            r is Ok ==> final(self).previous_rendered@ == content@,
            r is Err ==> *final(self) == *old(self),
            r is Err ==> final(out).recorded() == old(out).recorded(),
            final(self).buffer == old(self).buffer,
            final(self).renderer == old(self).renderer,
            final(self).last_was_dimmed == old(self).last_was_dimmed,
    {
        let lines_new = split_lines_exec(content);
        let lines_prev = split_lines_exec(self.previous_rendered.as_str());
        let payload = diff_payload(&lines_prev, &lines_new, self.renderer.height);
        match out.write(payload.as_str()) {
            Ok(()) => {
                self.previous_rendered = to_owned_str(content);
                Ok(())
            },
            Err(e) => Err(e),
        }
    }

    /// Appends a normal-mode chunk: a dimmed-to-normal switch first resets
    /// the state, the whole buffer is re-rendered, and the difference is
    /// written through the sink.
    pub fn add_chunk<W: Writer>(&mut self, chunk: &str, out: &mut W) -> (r: Result<
        (),
        WriteError,
    >)
        ensures
            r is Ok ==> ({
                let buf0 = if old(self).last_was_dimmed {
                    Seq::<char>::empty()
                } else {
                    old(self).buffer@
                };
                let prev0 = if old(self).last_was_dimmed {
                    Seq::<char>::empty()
                } else {
                    old(self).previous_rendered@
                };
                let rendered = render_spec(
                    buf0 + chunk@,
                    old(self).renderer.width as nat,
                    false,
                );
                &&& final(self).buffer@ == buf0 + chunk@
                &&& final(self).previous_rendered@ == rendered
                &&& final(self).last_was_dimmed == false
                &&& final(self).renderer == old(self).renderer
                &&& final(out).recorded() == old(out).recorded() + diff_payload_spec(
                    split_lines(prev0),
                    split_lines(rendered),
                    old(self).renderer.height as nat,
                )
            }),
    {
        self.add_chunk_with(chunk, false, out)
    }

    /// Appends a dimmed chunk: a normal-to-dimmed switch first resets the
    /// state; otherwise as `add_chunk`, rendering with the dim attribute.
    pub fn add_chunk_dimmed<W: Writer>(&mut self, chunk: &str, out: &mut W) -> (r: Result<
        (),
        WriteError,
    >)
        ensures
            r is Ok ==> ({
                let buf0 = if !old(self).last_was_dimmed {
                    Seq::<char>::empty()
                } else {
                    old(self).buffer@
                };
                let prev0 = if !old(self).last_was_dimmed {
                    Seq::<char>::empty()
                } else {
                    old(self).previous_rendered@
                };
                let rendered = render_spec(buf0 + chunk@, old(self).renderer.width as nat, true);
                &&& final(self).buffer@ == buf0 + chunk@
                &&& final(self).previous_rendered@ == rendered
                &&& final(self).last_was_dimmed == true
                &&& final(self).renderer == old(self).renderer
                &&& final(out).recorded() == old(out).recorded() + diff_payload_spec(
                    split_lines(prev0),
                    split_lines(rendered),
                    old(self).renderer.height as nat,
                )
            }),
    {
        self.add_chunk_with(chunk, true, out)
    }

    /// The shared chunk path: resets on a mode switch, appends the chunk,
    /// re-renders the whole buffer and streams the difference.
    fn add_chunk_with<W: Writer>(&mut self, chunk: &str, dimmed: bool, out: &mut W) -> (r: Result<
        (),
        WriteError,
    >)
        ensures
            r is Ok ==> ({
                let buf0 = if old(self).last_was_dimmed != dimmed {
                    Seq::<char>::empty()
                } else {
                    old(self).buffer@
                };
                let prev0 = if old(self).last_was_dimmed != dimmed {
                    Seq::<char>::empty()
                } else {
                    old(self).previous_rendered@
                };
                let rendered = render_spec(buf0 + chunk@, old(self).renderer.width as nat, dimmed);
                &&& final(self).buffer@ == buf0 + chunk@
                &&& final(self).previous_rendered@ == rendered
                &&& final(self).last_was_dimmed == dimmed
                &&& final(self).renderer == old(self).renderer
                &&& final(out).recorded() == old(out).recorded() + diff_payload_spec(
                    split_lines(prev0),
                    split_lines(rendered),
                    old(self).renderer.height as nat,
                )
            }),
            r is Err ==> ({
                let buf0 = if old(self).last_was_dimmed != dimmed {
                    Seq::<char>::empty()
                } else {
                    old(self).buffer@
                };
                let prev0 = if old(self).last_was_dimmed != dimmed {
                    Seq::<char>::empty()
                } else {
                    old(self).previous_rendered@
                };
                &&& final(self).buffer@ == buf0 + chunk@
                &&& final(self).previous_rendered@ == prev0
                &&& final(self).last_was_dimmed == old(self).last_was_dimmed
                &&& final(self).renderer == old(self).renderer
                &&& final(out).recorded() == old(out).recorded()
            }),
    {
        if self.last_was_dimmed != dimmed {
            self.reset();
        }
        append_str(&mut self.buffer, chunk);
        let attr = if dimmed {
            Some(StyleAttr::Dim)
        } else {
            None
        };
        let rendered = self.renderer.render(self.buffer.as_str(), attr);
        match self.stream(rendered.as_str(), out) {
            Ok(()) => {
                self.last_was_dimmed = dimmed;
                Ok(())
            },
            Err(e) => Err(e),
        }
    }

    /// Forces an immediate render-and-diff pass of the buffered content, in
    /// the mode of the last chunk; used at stream end.
    pub fn flush<W: Writer>(&mut self, out: &mut W) -> (r: Result<(), WriteError>)
        ensures
            r is Ok ==> ({
                let rendered = render_spec(
                    old(self).buffer@,
                    old(self).renderer.width as nat,
                    old(self).last_was_dimmed,
                );
                &&& final(self).buffer@ == old(self).buffer@
                &&& final(self).previous_rendered@ == rendered
                &&& final(self).last_was_dimmed == old(self).last_was_dimmed
                &&& final(out).recorded() == old(out).recorded() + diff_payload_spec(
                    split_lines(old(self).previous_rendered@),
                    split_lines(rendered),
                    old(self).renderer.height as nat,
                )
            }),
            r is Err ==> *final(self) == *old(self) && final(out).recorded() == old(
                out,
            ).recorded(),
    {
        let attr = if self.last_was_dimmed {
            Some(StyleAttr::Dim)
        } else {
            None
        };
        let rendered = self.renderer.render(self.buffer.as_str(), attr);
        self.stream(rendered.as_str(), out)
    }
}

/// An owned copy of a string slice.
fn to_owned_str(s: &str) -> (r: String)
    ensures
        r@ == s@,
{
    s.to_owned()
}

} // verus!
