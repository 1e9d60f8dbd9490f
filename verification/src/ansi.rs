//! ANSI-aware text surgery: splitting a line into SGR escape sequences and
//! visible text, trimming trailing visible whitespace without touching the
//! escapes, and hard-wrapping at a visible column count.
//!
//! The model: a string is scanned left to right; a run starting with
//! ESC `[` whose first following `m` exists is one SGR sequence (up to and
//! including that `m`); everything else is visible text. `sgr_segs_spec`
//! is that segmentation, and all functions here are specified against it.

use vstd::prelude::*;

use crate::text::chars_to_string;
use crate::text::is_subseq_of;
use crate::text::push_range;
use crate::text::str_chars;

verus! {

/// One run of a segmented line: either an SGR escape sequence or visible
/// text, as the half-open character range `[start, end)`.
#[derive(Clone, Copy, Debug, PartialEq, Eq, Structural)]
pub struct SgrSeg {
    pub is_sgr: bool,
    pub start: usize,
    pub end: usize,
}

/// Index of the first occurrence of `c` at or after `j`, or `s.len()`.
pub open spec fn first_char_from(s: Seq<char>, j: nat, c: char) -> nat
    decreases s.len() - j,
{
    if j >= s.len() {
        s.len()
    } else if s[j as int] == c {
        j
    } else {
        first_char_from(s, j + 1, c)
    }
}

pub proof fn lemma_first_char_from_bounds(s: Seq<char>, j: nat, c: char)
    requires
        j <= s.len(),
    ensures
        j <= first_char_from(s, j, c) <= s.len(),
        first_char_from(s, j, c) < s.len() ==> s[first_char_from(s, j, c) as int] == c,
    decreases s.len() - j,
{
    if j < s.len() && s[j as int] != c {
        lemma_first_char_from_bounds(s, j + 1, c);
    }
}

/// An SGR sequence starts here: ESC then `[`.
pub open spec fn is_sgr_start(s: Seq<char>, i: nat) -> bool {
    i + 1 < s.len() && s[i as int] == '\x1b' && s[i as int + 1] == '['
}

/// The scan underlying the segmentation: `i` is the cursor, `ts` the start
/// of the pending text run.
pub open spec fn sgr_scan(s: Seq<char>, i: nat, ts: nat) -> Seq<SgrSeg>
    decreases s.len() - i,
    via sgr_scan_decreases
{
    if i >= s.len() {
        if ts < s.len() {
            seq![SgrSeg { is_sgr: false, start: ts as usize, end: s.len() as usize }]
        } else {
            seq![]
        }
    } else if is_sgr_start(s, i) && first_char_from(s, i + 2, 'm') < s.len() {
        let j = first_char_from(s, i + 2, 'm');
        let head = if ts < i {
            seq![SgrSeg { is_sgr: false, start: ts as usize, end: i as usize }]
        } else {
            seq![]
        };
        head + seq![SgrSeg { is_sgr: true, start: i as usize, end: (j + 1) as usize }]
            + sgr_scan(s, j + 1, j + 1)
    } else {
        sgr_scan(s, i + 1, ts)
    }
}

#[via_fn]
proof fn sgr_scan_decreases(s: Seq<char>, i: nat, ts: nat) {
    if i < s.len() && is_sgr_start(s, i) && first_char_from(s, i + 2, 'm') < s.len() {
        lemma_first_char_from_bounds(s, i + 2, 'm');
    }
}

/// The segmentation of a whole line.
pub open spec fn sgr_segs_spec(s: Seq<char>) -> Seq<SgrSeg> {
    sgr_scan(s, 0, 0)
}

/// A segment is a non-empty range inside a string of length `n`.
pub open spec fn seg_wf(g: SgrSeg, n: nat) -> bool {
    g.start < g.end <= n
}

pub open spec fn segs_wf(segs: Seq<SgrSeg>, n: nat) -> bool {
    forall|k: int| 0 <= k < segs.len() ==> seg_wf(#[trigger] segs[k], n)
}

pub proof fn lemma_scan_wf(s: Seq<char>, i: nat, ts: nat)
    requires
        ts <= i <= s.len(),
        s.len() <= usize::MAX,
    ensures
        segs_wf(sgr_scan(s, i, ts), s.len()),
    decreases s.len() - i,
{
    if i >= s.len() {
    } else if is_sgr_start(s, i) && first_char_from(s, i + 2, 'm') < s.len() {
        let j = first_char_from(s, i + 2, 'm');
        lemma_first_char_from_bounds(s, i + 2, 'm');
        lemma_scan_wf(s, j + 1, j + 1);
        let head = if ts < i {
            seq![SgrSeg { is_sgr: false, start: ts as usize, end: i as usize }]
        } else {
            Seq::<SgrSeg>::empty()
        };
        let mid = seq![SgrSeg { is_sgr: true, start: i as usize, end: (j + 1) as usize }];
        let rest = sgr_scan(s, j + 1, j + 1);
        let whole = sgr_scan(s, i, ts);
        assert(whole == head + mid + rest);
        assert forall|k: int| 0 <= k < whole.len() implies seg_wf(#[trigger] whole[k], s.len())
            by {
            if k >= head.len() + 1 {
                assert(whole[k] == rest[k - head.len() - 1]);
            }
        }
    } else {
        lemma_scan_wf(s, i + 1, ts);
    }
}

/// Splits a line into SGR escape sequences and visible-text runs, in order.
pub fn parse_sgr_segments(s: &str) -> (r: Vec<SgrSeg>)
    ensures
        r@ == sgr_segs_spec(s@),
        segs_wf(r@, s@.len()),
{
    let cs = str_chars(s);
    let r = parse_segs(&cs);
    proof {
        lemma_scan_wf(s@, 0, 0);
    }
    r
}

/// The segmentation scan on a character vector.
pub(crate) fn parse_segs(cs: &Vec<char>) -> (r: Vec<SgrSeg>)
    ensures
        r@ == sgr_segs_spec(cs@),
{
    let n = cs.len();
    let mut out: Vec<SgrSeg> = Vec::new();
    let mut i: usize = 0;
    let mut ts: usize = 0;
    while i < n
        invariant
            n == cs@.len(),
            i <= n,
            ts <= i,
            sgr_segs_spec(cs@) == out@ + sgr_scan(cs@, i as nat, ts as nat),
        decreases n - i,
    {
        let mut stepped = false;
        if cs[i] == '\x1b' && i + 1 < n && cs[i + 1] == '[' {
            let mut j: usize = i + 2;
            while j < n && cs[j] != 'm'
                invariant
                    n == cs@.len(),
                    i + 2 <= j <= n,
                    first_char_from(cs@, (i + 2) as nat, 'm') == first_char_from(
                        cs@,
                        j as nat,
                        'm',
                    ),
                decreases n - j,
            {
                j = j + 1;
            }
            if j < n {
                proof {
                    assert(first_char_from(cs@, j as nat, 'm') == j);
                }
                if ts < i {
                    out.push(SgrSeg { is_sgr: false, start: ts, end: i });
                }
                out.push(SgrSeg { is_sgr: true, start: i, end: j + 1 });
                proof {
                    assert(out@ + sgr_scan(cs@, (j + 1) as nat, (j + 1) as nat)
                        =~= sgr_segs_spec(cs@));
                }
                i = j + 1;
                ts = i;
                stepped = true;
            } else {
                proof {
                    assert(first_char_from(cs@, j as nat, 'm') == n);
                }
            }
        }
        if !stepped {
            proof {
                assert(sgr_scan(cs@, i as nat, ts as nat) == sgr_scan(
                    cs@,
                    (i + 1) as nat,
                    ts as nat,
                ));
            }
            i = i + 1;
        }
    }
    if ts < n {
        out.push(SgrSeg { is_sgr: false, start: ts, end: n });
    }
    proof {
        assert(out@ =~= sgr_segs_spec(cs@));
    }
    out
}

/// Largest index in `[start, end)` holding a character other than space or
/// tab, if any.
pub open spec fn last_visible_in(s: Seq<char>, start: nat, end: nat) -> Option<nat>
    decreases end,
{
    if end <= start {
        None
    } else if s[end - 1] != ' ' && s[end - 1] != '\t' {
        Some((end - 1) as nat)
    } else {
        last_visible_in(s, start, (end - 1) as nat)
    }
}

pub proof fn lemma_last_visible_bounds(s: Seq<char>, start: nat, end: nat)
    ensures
        match last_visible_in(s, start, end) {
            Some(k) => start <= k < end && s[k as int] != ' ' && s[k as int] != '\t',
            None => true,
        },
    decreases end,
{
    if end > start && (s[end - 1] == ' ' || s[end - 1] == '\t') {
        lemma_last_visible_bounds(s, start, (end - 1) as nat);
    }
}

/// The cut point of the trim: one past the last visible non-whitespace
/// character, looking at text runs from the right.
pub open spec fn cut_of(s: Seq<char>, segs: Seq<SgrSeg>) -> Option<nat>
    decreases segs.len(),
{
    if segs.len() == 0 {
        None
    } else {
        let last = segs.last();
        if last.is_sgr {
            cut_of(s, segs.drop_last())
        } else {
            match last_visible_in(s, last.start as nat, last.end as nat) {
                Some(k) => Some(k + 1),
                None => cut_of(s, segs.drop_last()),
            }
        }
    }
}

pub proof fn lemma_cut_le(s: Seq<char>, segs: Seq<SgrSeg>)
    requires
        segs_wf(segs, s.len()),
    ensures
        match cut_of(s, segs) {
            Some(c) => 0 < c <= s.len(),
            None => true,
        },
    decreases segs.len(),
{
    if segs.len() > 0 {
        let last = segs.last();
        assert(seg_wf(segs[segs.len() - 1], s.len()));
        lemma_last_visible_bounds(s, last.start as nat, last.end as nat);
        assert(segs_wf(segs.drop_last(), s.len()));
        lemma_cut_le(s, segs.drop_last());
    }
}

/// What each run contributes after the trim: SGR runs stay whole, text runs
/// keep only what lies before the cut.
pub open spec fn rebuild(s: Seq<char>, segs: Seq<SgrSeg>, cut: nat) -> Seq<char>
    decreases segs.len(),
{
    if segs.len() == 0 {
        seq![]
    } else {
        let h = segs.first();
        let piece = if h.is_sgr {
            s.subrange(h.start as int, h.end as int)
        } else if h.end <= cut {
            s.subrange(h.start as int, h.end as int)
        } else if h.start < cut {
            s.subrange(h.start as int, cut as int)
        } else {
            seq![]
        };
        piece + rebuild(s, segs.drop_first(), cut)
    }
}

/// The trimmed line: every SGR run verbatim and the text runs cut at the
/// trim point; when no visible character remains, only the SGR runs are
/// kept.
pub open spec fn rtrim_spec(s: Seq<char>) -> Seq<char> {
    match cut_of(s, sgr_segs_spec(s)) {
        None => rebuild(s, sgr_segs_spec(s), 0),
        Some(cut) => rebuild(s, sgr_segs_spec(s), cut),
    }
}

fn last_visible(cs: &Vec<char>, start: usize, end: usize) -> (r: Option<usize>)
    requires
        start <= end <= cs@.len(),
    ensures
        match r {
            Some(k) => last_visible_in(cs@, start as nat, end as nat) == Some(k as nat) && k
                < end,
            None => last_visible_in(cs@, start as nat, end as nat) is None,
        },
{
    let mut e = end;
    while e > start
        invariant
            start <= e <= end <= cs@.len(),
            last_visible_in(cs@, start as nat, end as nat) == last_visible_in(
                cs@,
                start as nat,
                e as nat,
            ),
        decreases e,
    {
        let c = cs[e - 1];
        if c != ' ' && c != '\t' {
            return Some(e - 1);
        }
        e = e - 1;
    }
    None
}

fn find_cut(cs: &Vec<char>, segs: &Vec<SgrSeg>) -> (r: Option<usize>)
    requires
        segs_wf(segs@, cs@.len()),
    ensures
        match r {
            Some(c) => cut_of(cs@, segs@) == Some(c as nat) && 0 < c <= cs@.len(),
            None => cut_of(cs@, segs@) is None,
        },
{
    let mut k = segs.len();
    proof {
        assert(segs@.take(k as int) =~= segs@);
    }
    while k > 0
        invariant
            k <= segs@.len(),
            segs_wf(segs@, cs@.len()),
            cut_of(cs@, segs@) == cut_of(cs@, segs@.take(k as int)),
        decreases k,
    {
        let seg = segs[k - 1];
        proof {
            assert(seg_wf(segs@[k - 1], cs@.len()));
            assert(segs@.take(k as int).last() == seg);
            assert(segs@.take(k as int).drop_last() =~= segs@.take(k as int - 1));
        }
        if !seg.is_sgr {
            let found = last_visible(cs, seg.start, seg.end);
            match found {
                Some(j) => {
                    return Some(j + 1);
                },
                None => {},
            }
        }
        k = k - 1;
    }
    None
}

fn rebuild_exec(cs: &Vec<char>, segs: &Vec<SgrSeg>, cut: usize) -> (out: Vec<char>)
    requires
        segs_wf(segs@, cs@.len()),
        cut <= cs@.len(),
    ensures
        out@ == rebuild(cs@, segs@, cut as nat),
{
    let mut out: Vec<char> = Vec::new();
    let n = segs.len();
    let mut t: usize = 0;
    proof {
        assert(segs@.skip(0) =~= segs@);
    }
    while t < n
        invariant
            t <= n == segs@.len(),
            segs_wf(segs@, cs@.len()),
            cut <= cs@.len(),
            rebuild(cs@, segs@, cut as nat) == out@ + rebuild(
                cs@,
                segs@.skip(t as int),
                cut as nat,
            ),
        decreases n - t,
    {
        let seg = segs[t];
        proof {
            assert(seg_wf(segs@[t as int], cs@.len()));
            assert(segs@.skip(t as int).first() == seg);
            assert(segs@.skip(t as int).drop_first() =~= segs@.skip(t as int + 1));
        }
        if seg.is_sgr {
            push_range(&mut out, cs, seg.start, seg.end);
        } else if seg.end <= cut {
            push_range(&mut out, cs, seg.start, seg.end);
        } else if seg.start < cut {
            push_range(&mut out, cs, seg.start, cut);
        }
        t = t + 1;
    }
    proof {
        assert(rebuild(cs@, segs@.skip(n as int), cut as nat) =~= Seq::<char>::empty());
        assert(out@ =~= rebuild(cs@, segs@, cut as nat));
    }
    out
}

/// Strips trailing visible spaces and tabs from one line while keeping every
/// SGR escape sequence, verbatim and in order.
pub fn rtrim_visible_preserve_sgr(s: &str) -> (r: String)
    ensures
        r@ == rtrim_spec(s@),
{
    let cs = str_chars(s);
    let segs = parse_segs(&cs);
    proof {
        lemma_scan_wf(cs@, 0, 0);
    }
    let cut = match find_cut(&cs, &segs) {
        None => 0,
        Some(c) => c,
    };
    let out = rebuild_exec(&cs, &segs, cut);
    chars_to_string(&out)
}

/// Wrapping of one visible-text run: `col` is the current visible column.
/// A newline resets the column, a carriage return is zero-width, and a
/// break is inserted before any character that would start past the width.
pub open spec fn wrap_text(t: Seq<char>, col: nat, width: nat) -> (Seq<char>, nat)
    decreases t.len(),
{
    if t.len() == 0 {
        (Seq::<char>::empty(), col)
    } else {
        let c = t[0];
        if c == '\n' {
            let r = wrap_text(t.drop_first(), 0, width);
            (seq!['\n'] + r.0, r.1)
        } else if c == '\r' {
            let r = wrap_text(t.drop_first(), col, width);
            (seq!['\r'] + r.0, r.1)
        } else if col >= width {
            let r = wrap_text(t.drop_first(), 1, width);
            (seq!['\n', c] + r.0, r.1)
        } else {
            let r = wrap_text(t.drop_first(), col + 1, width);
            (seq![c] + r.0, r.1)
        }
    }
}

/// Wrapping across the runs of a line: SGR runs pass through with zero
/// width, text runs thread the column.
pub open spec fn wrap_segs(s: Seq<char>, segs: Seq<SgrSeg>, col: nat, width: nat) -> Seq<char>
    decreases segs.len(),
{
    if segs.len() == 0 {
        Seq::<char>::empty()
    } else {
        let h = segs.first();
        if h.is_sgr {
            s.subrange(h.start as int, h.end as int) + wrap_segs(s, segs.drop_first(), col, width)
        } else {
            let r = wrap_text(s.subrange(h.start as int, h.end as int), col, width);
            r.0 + wrap_segs(s, segs.drop_first(), r.1, width)
        }
    }
}

/// The wrapped form of a whole string; a width of zero leaves it unchanged.
pub open spec fn wrap_ansi_spec(s: Seq<char>, width: nat) -> Seq<char> {
    if width == 0 {
        s
    } else {
        wrap_segs(s, sgr_segs_spec(s), 0, width)
    }
}

/// Wraps the text run `cs[a..b]` starting at column `col0`, appending to
/// `out`; returns the column after the run.
fn wrap_text_exec(cs: &Vec<char>, a: usize, b: usize, col0: usize, width: usize, out: &mut Vec<
    char,
>) -> (colr: usize)
    requires
        a <= b <= cs@.len(),
        width > 0,
    ensures
        final(out)@ == old(out)@ + wrap_text(
            cs@.subrange(a as int, b as int),
            col0 as nat,
            width as nat,
        ).0,
        colr as nat == wrap_text(cs@.subrange(a as int, b as int), col0 as nat, width as nat).1,
{
    let ghost whole = cs@.subrange(a as int, b as int);
    let mut k = a;
    let mut col = col0;
    while k < b
        invariant
            a <= k <= b <= cs@.len(),
            width > 0,
            wrap_text(whole, col0 as nat, width as nat) == {
                let r = wrap_text(cs@.subrange(k as int, b as int), col as nat, width as nat);
                (out@.skip(old(out)@.len() as int) + r.0, r.1)
            },
            out@.len() >= old(out)@.len(),
            out@.subrange(0, old(out)@.len() as int) == old(out)@,
            whole == cs@.subrange(a as int, b as int),
        decreases b - k,
    {
        let c = cs[k];
        proof {
            assert(cs@.subrange(k as int, b as int).drop_first() =~= cs@.subrange(
                k as int + 1,
                b as int,
            ));
        }
        if c == '\n' {
            out.push('\n');
            col = 0;
        } else if c == '\r' {
            out.push('\r');
        } else if col >= width {
            out.push('\n');
            out.push(c);
            col = 1;
        } else {
            out.push(c);
            col = col + 1;
        }
        k = k + 1;
        proof {
            assert(out@.subrange(0, old(out)@.len() as int) =~= old(out)@);
            let r = wrap_text(cs@.subrange(k as int, b as int), col as nat, width as nat);
            assert(out@.skip(old(out)@.len() as int) + r.0 =~= wrap_text(whole, col0 as nat, width as nat).0);
        }
    }
    proof {
        assert(cs@.subrange(k as int, b as int) =~= Seq::<char>::empty());
        assert(out@ =~= old(out)@ + wrap_text(whole, col0 as nat, width as nat).0);
    }
    col
}

/// Hard-wraps a string at `width` visible columns: SGR escape sequences are
/// zero-width and never broken; an explicit newline starts a fresh line.
pub fn wrap_ansi_simple(s: &str, width: usize) -> (r: String)
    ensures
        r@ == wrap_ansi_spec(s@, width as nat),
{
    if width == 0 {
        return s.to_owned();
    }
    let cs = str_chars(s);
    let ncs = cs.len();
    let segs = parse_segs(&cs);
    proof {
        assert(cs@.len() == ncs);
        lemma_scan_wf(cs@, 0, 0);
    }
    let mut out: Vec<char> = Vec::new();
    let mut col: usize = 0;
    let n = segs.len();
    let mut t: usize = 0;
    proof {
        assert(segs@.skip(0) =~= segs@);
    }
    while t < n
        invariant
            t <= n == segs@.len(),
            segs_wf(segs@, cs@.len()),
            width > 0,
            wrap_segs(cs@, segs@, 0, width as nat) == out@ + wrap_segs(
                cs@,
                segs@.skip(t as int),
                col as nat,
                width as nat,
            ),
        decreases n - t,
    {
        let seg = segs[t];
        proof {
            assert(seg_wf(segs@[t as int], cs@.len()));
            assert(segs@.skip(t as int).first() == seg);
            assert(segs@.skip(t as int).drop_first() =~= segs@.skip(t as int + 1));
        }
        if seg.is_sgr {
            push_range(&mut out, &cs, seg.start, seg.end);
        } else {
            col = wrap_text_exec(&cs, seg.start, seg.end, col, width, &mut out);
        }
        t = t + 1;
        proof {
            assert(wrap_segs(cs@, segs@, 0, width as nat) =~= out@ + wrap_segs(
                cs@,
                segs@.skip(t as int),
                col as nat,
                width as nat,
            ));
        }
    }
    proof {
        assert(wrap_segs(cs@, segs@.skip(n as int), col as nat, width as nat) =~= Seq::<
            char,
        >::empty());
        assert(out@ =~= wrap_segs(cs@, segs@, 0, width as nat));
    }
    chars_to_string(&out)
}

/// One trailing carriage return is removed from a line piece that ended at
/// a newline, matching how lines are conventionally split.
pub open spec fn strip_cr(l: Seq<char>) -> Seq<char> {
    if l.len() > 0 && l.last() == '\r' {
        l.drop_last()
    } else {
        l
    }
}

/// The lines of a string: pieces between newlines, a trailing carriage
/// return removed from each piece that ends at a newline; a final newline
/// closes the last line rather than opening an empty one.
pub open spec fn split_lines(s: Seq<char>) -> Seq<Seq<char>>
    decreases s.len(),
{
    if s.len() == 0 {
        Seq::<Seq<char>>::empty()
    } else {
        let i = first_char_from(s, 0, '\n');
        if i >= s.len() {
            seq![s]
        } else {
            seq![strip_cr(s.subrange(0, i as int))] + split_lines(
                s.subrange(i as int + 1, s.len() as int),
            )
        }
    }
}

/// One source line cut into pieces of at most `width` characters, each piece
/// closed with a newline.
pub open spec fn chunk_line(l: Seq<char>, width: nat) -> Seq<char>
    decreases l.len(),
{
    if width == 0 {
        l + seq!['\n']
    } else if l.len() <= width {
        l + seq!['\n']
    } else {
        l.subrange(0, width as int) + seq!['\n'] + chunk_line(l.skip(width as int), width)
    }
}

pub open spec fn wrap_lines(ls: Seq<Seq<char>>, width: nat) -> Seq<char>
    decreases ls.len(),
{
    if ls.len() == 0 {
        Seq::<char>::empty()
    } else {
        chunk_line(ls.first(), width) + wrap_lines(ls.drop_first(), width)
    }
}

/// The pre-wrapped form of a raw code block: each source line cut at `width`
/// characters; a width of zero leaves the block unchanged.
pub open spec fn wrap_code_spec(code: Seq<char>, width: nat) -> Seq<char> {
    if width == 0 {
        code
    } else {
        wrap_lines(split_lines(code), width)
    }
}

/// Appends `chunk_line(cs[a..b])` to `out`.
fn emit_chunks(out: &mut Vec<char>, cs: &Vec<char>, a: usize, b: usize, width: usize)
    requires
        a <= b <= cs@.len(),
        width > 0,
    ensures
        final(out)@ == old(out)@ + chunk_line(cs@.subrange(a as int, b as int), width as nat),
{
    let mut k = a;
    while b - k > width
        invariant
            a <= k <= b <= cs@.len(),
            width > 0,
            old(out)@ + chunk_line(cs@.subrange(a as int, b as int), width as nat) == out@
                + chunk_line(cs@.subrange(k as int, b as int), width as nat),
        decreases b - k,
    {
        push_range(out, cs, k, k + width);
        out.push('\n');
        proof {
            let l = cs@.subrange(k as int, b as int);
            assert(l.subrange(0, width as int) =~= cs@.subrange(k as int, k as int + width));
            assert(l.skip(width as int) =~= cs@.subrange(k as int + width, b as int));
        }
        k = k + width;
    }
    push_range(out, cs, k, b);
    out.push('\n');
    proof {
        assert(out@ =~= old(out)@ + chunk_line(cs@.subrange(a as int, b as int), width as nat));
    }
}

/// Pre-wraps raw code by character count: every line longer than `width`
/// characters is cut into pieces of exactly `width`, so no multi-byte
/// character is ever split. A width of zero leaves the code unchanged.
pub fn wrap_code_simple(code: &str, width: usize) -> (r: String)
    ensures
        r@ == wrap_code_spec(code@, width as nat),
{
    if width == 0 {
        return code.to_owned();
    }
    let cs = str_chars(code);
    let n = cs.len();
    let mut out: Vec<char> = Vec::new();
    let mut pos: usize = 0;
    proof {
        assert(cs@.subrange(0, n as int) =~= cs@);
    }
    while pos < n
        invariant
            pos <= n == cs@.len(),
            width > 0,
            wrap_code_spec(cs@, width as nat) == out@ + wrap_lines(
                split_lines(cs@.subrange(pos as int, n as int)),
                width as nat,
            ),
        decreases n - pos,
    {
        let ghost rest = cs@.subrange(pos as int, n as int);
        let mut i = pos;
        while i < n && cs[i] != '\n'
            invariant
                pos <= i <= n == cs@.len(),
                first_char_from(rest, 0, '\n') == first_char_from(rest, (i - pos) as nat, '\n'),
                rest == cs@.subrange(pos as int, n as int),
            decreases n - i,
        {
            i = i + 1;
        }
        if i < n {
            proof {
                assert(rest[i - pos as int] == '\n');
                assert(first_char_from(rest, (i - pos) as nat, '\n') == i - pos);
            }
            let e = if i > pos && cs[i - 1] == '\r' {
                i - 1
            } else {
                i
            };
            proof {
                assert(strip_cr(rest.subrange(0, i - pos as int)) =~= cs@.subrange(
                    pos as int,
                    e as int,
                ));
            }
            proof {
                assert(rest.subrange(i - pos as int + 1, rest.len() as int) =~= cs@.subrange(
                    i as int + 1,
                    n as int,
                ));
                let ls = split_lines(rest);
                assert(ls == seq![strip_cr(rest.subrange(0, i - pos as int))] + split_lines(
                    cs@.subrange(i as int + 1, n as int),
                ));
                assert(ls.first() == strip_cr(rest.subrange(0, i - pos as int)));
                assert(ls.drop_first() =~= split_lines(cs@.subrange(i as int + 1, n as int)));
                assert(wrap_lines(ls, width as nat) == chunk_line(cs@.subrange(
                    pos as int,
                    e as int,
                ), width as nat) + wrap_lines(
                    split_lines(cs@.subrange(i as int + 1, n as int)),
                    width as nat,
                ));
            }
            emit_chunks(&mut out, &cs, pos, e, width);
            pos = i + 1;
        } else {
            proof {
                assert(first_char_from(rest, (i - pos) as nat, '\n') == rest.len());
                assert(rest.len() > 0);
            }
            proof {
                let ls = split_lines(rest);
                assert(ls == seq![rest]);
                assert(ls.first() == rest);
                assert(ls.drop_first() =~= Seq::<Seq<char>>::empty());
                assert(wrap_lines(Seq::<Seq<char>>::empty(), width as nat) == Seq::<
                    char,
                >::empty());
                assert(wrap_lines(ls, width as nat) =~= chunk_line(rest, width as nat));
            }
            emit_chunks(&mut out, &cs, pos, n, width);
            pos = n;
            proof {
                assert(cs@.subrange(pos as int, n as int) =~= Seq::<char>::empty());
                assert(wrap_lines(split_lines(cs@.subrange(pos as int, n as int)), width as nat)
                    == Seq::<char>::empty());
            }
        }
    }
    proof {
        assert(cs@.subrange(pos as int, n as int) =~= Seq::<char>::empty());
        assert(out@ =~= wrap_code_spec(cs@, width as nat));
    }
    chars_to_string(&out)
}


/// The SGR escape sequences of a segmented line, concatenated in order.
pub open spec fn sgr_concat(s: Seq<char>, segs: Seq<SgrSeg>) -> Seq<char>
    decreases segs.len(),
{
    if segs.len() == 0 {
        Seq::<char>::empty()
    } else {
        let h = segs.first();
        (if h.is_sgr {
            s.subrange(h.start as int, h.end as int)
        } else {
            Seq::<char>::empty()
        }) + sgr_concat(s, segs.drop_first(), )
    }
}

proof fn lemma_subseq_refl(q: Seq<char>)
    ensures
        is_subseq_of(q, q),
    decreases q.len(),
{
    if q.len() > 0 {
        lemma_subseq_refl(q.drop_first());
    }
}

/// Dropping the head of the pattern keeps it a subsequence.
proof fn lemma_subseq_drop_pattern(q: Seq<char>, t: Seq<char>)
    requires
        is_subseq_of(q, t),
        q.len() > 0,
    ensures
        is_subseq_of(q.drop_first(), t),
    decreases t.len(), q.len(),
{
    if t.len() > 0 {
        if q.first() == t.first() {
            lemma_subseq_tail_to_whole(q.drop_first(), t);
        } else {
            lemma_subseq_drop_pattern(q, t.drop_first());
            lemma_subseq_tail_to_whole(q.drop_first(), t);
        }
    }
}

/// A subsequence of the tail is a subsequence of the whole.
proof fn lemma_subseq_tail_to_whole(q: Seq<char>, t: Seq<char>)
    requires
        t.len() > 0,
        is_subseq_of(q, t.drop_first()),
    ensures
        is_subseq_of(q, t),
    decreases t.len(), q.len(),
{
    if q.len() > 0 {
        if q.first() == t.first() {
            lemma_subseq_drop_pattern(q, t.drop_first());
        }
    }
}

/// A subsequence stays one under any prefix added to the text.
proof fn lemma_subseq_skip_head(q: Seq<char>, x: Seq<char>, t: Seq<char>)
    requires
        is_subseq_of(q, t),
    ensures
        is_subseq_of(q, x + t),
    decreases x.len(),
{
    if x.len() == 0 {
        assert(x + t =~= t);
    } else {
        lemma_subseq_skip_head(q, x.drop_first(), t);
        assert((x + t).drop_first() =~= x.drop_first() + t);
        lemma_subseq_tail_to_whole(q, x + t);
    }
}

/// Subsequences concatenate.
proof fn lemma_subseq_concat(a: Seq<char>, x: Seq<char>, b: Seq<char>, y: Seq<char>)
    requires
        is_subseq_of(a, x),
        is_subseq_of(b, y),
    ensures
        is_subseq_of(a + b, x + y),
    decreases x.len(),
{
    if a.len() == 0 {
        assert(a + b =~= b);
        lemma_subseq_skip_head(b, x, y);
    } else {
        if a.first() == x.first() {
            lemma_subseq_concat(a.drop_first(), x.drop_first(), b, y);
            assert((a + b).drop_first() =~= a.drop_first() + b);
            assert((x + y).drop_first() =~= x.drop_first() + y);
            assert((a + b).first() == (x + y).first());
        } else {
            lemma_subseq_concat(a, x.drop_first(), b, y);
            assert((x + y).drop_first() =~= x.drop_first() + y);
            lemma_subseq_tail_to_whole(a + b, x + y);
        }
    }
}

/// The concatenated SGR runs are a subsequence of the rebuilt line.
proof fn lemma_rebuild_subseq(s: Seq<char>, segs: Seq<SgrSeg>, cut: nat)
    ensures
        is_subseq_of(sgr_concat(s, segs), rebuild(s, segs, cut)),
    decreases segs.len(),
{
    if segs.len() == 0 {
    } else {
        let h = segs.first();
        lemma_rebuild_subseq(s, segs.drop_first(), cut);
        if h.is_sgr {
            let content = s.subrange(h.start as int, h.end as int);
            lemma_subseq_refl(content);
            lemma_subseq_concat(
                content,
                content,
                sgr_concat(s, segs.drop_first()),
                rebuild(s, segs.drop_first(), cut),
            );
        } else {
            let piece = if h.end <= cut {
                s.subrange(h.start as int, h.end as int)
            } else if h.start < cut {
                s.subrange(h.start as int, cut as int)
            } else {
                Seq::<char>::empty()
            };
            lemma_subseq_skip_head(
                sgr_concat(s, segs.drop_first()),
                piece,
                rebuild(s, segs.drop_first(), cut),
            );
            assert(sgr_concat(s, segs) =~= sgr_concat(s, segs.drop_first()));
        }
    }
}

/// Within one run, everything from `k+1` on is whitespace when the last
/// visible search stopped at `k`.
proof fn lemma_last_visible_ws(s: Seq<char>, start: nat, end: nat)
    ensures
        forall|p: int|
            (match last_visible_in(s, start, end) {
                Some(k) => k < p < end,
                None => start <= p < end,
            }) ==> s[p] == ' ' || s[p] == '\t',
    decreases end,
{
    if end > start && (s[end - 1] == ' ' || s[end - 1] == '\t') {
        lemma_last_visible_ws(s, start, (end - 1) as nat);
    }
}

/// The runs a scan yields start at or after the pending text start and are
/// ordered left to right.
proof fn lemma_scan_ordered(s: Seq<char>, i: nat, ts: nat)
    requires
        ts <= i <= s.len(),
        s.len() <= usize::MAX,
    ensures
        forall|k: int|
            0 <= k < sgr_scan(s, i, ts).len() ==> (#[trigger] sgr_scan(s, i, ts)[k]).start >= ts,
        forall|k: int, l: int|
            0 <= k < l < sgr_scan(s, i, ts).len() ==> (#[trigger] sgr_scan(s, i, ts)[k]).end <= (
            #[trigger] sgr_scan(s, i, ts)[l]).start,
    decreases s.len() - i,
{
    if i >= s.len() {
        if ts < s.len() {
            assert(sgr_scan(s, i, ts) == seq![
                SgrSeg { is_sgr: false, start: ts as usize, end: s.len() as usize },
            ]);
        }
    } else if is_sgr_start(s, i) && first_char_from(s, i + 2, 'm') < s.len() {
        let j = first_char_from(s, i + 2, 'm');
        lemma_first_char_from_bounds(s, i + 2, 'm');
        lemma_scan_ordered(s, j + 1, j + 1);
        lemma_scan_wf(s, j + 1, j + 1);
        let head = if ts < i {
            seq![SgrSeg { is_sgr: false, start: ts as usize, end: i as usize }]
        } else {
            Seq::<SgrSeg>::empty()
        };
        let mid = seq![SgrSeg { is_sgr: true, start: i as usize, end: (j + 1) as usize }];
        let rest = sgr_scan(s, j + 1, j + 1);
        let whole = sgr_scan(s, i, ts);
        assert(whole == head + mid + rest);
        assert forall|k: int| 0 <= k < whole.len() implies (#[trigger] whole[k]).start >= ts by {
            if k >= head.len() + 1 {
                assert(whole[k] == rest[k - head.len() - 1]);
            }
        }
        assert forall|k: int, l: int| 0 <= k < l < whole.len() implies (
        #[trigger] whole[k]).end <= (#[trigger] whole[l]).start by {
            if l >= head.len() + 1 {
                assert(whole[l] == rest[l - head.len() - 1]);
                if k >= head.len() + 1 {
                    assert(whole[k] == rest[k - head.len() - 1]);
                } else if k == head.len() {
                    assert(whole[k] == mid[0]);
                }
            } else if l == head.len() {
                assert(whole[l] == mid[0]);
                assert(whole[k] == head[k]);
            }
        }
    } else {
        lemma_scan_ordered(s, i + 1, ts);
        assert(sgr_scan(s, i, ts) == sgr_scan(s, i + 1, ts));
    }
}

/// Everything the cut discards from a text run is whitespace.
proof fn lemma_cut_ws(s: Seq<char>, segs: Seq<SgrSeg>, cut: nat)
    requires
        cut_of(s, segs) == Some(cut),
        forall|k: int, l: int|
            0 <= k < l < segs.len() ==> (#[trigger] segs[k]).end <= (#[trigger] segs[l]).start,
    ensures
        forall|k: int, p: int|
            #![trigger segs[k], s[p]]
            0 <= k < segs.len() && !segs[k].is_sgr && segs[k].start <= p < segs[k].end && cut
                <= p ==> s[p] == ' ' || s[p] == '\t',
    decreases segs.len(),
{
    if segs.len() > 0 {
        let last = segs.last();
        if last.is_sgr {
            lemma_cut_ws(s, segs.drop_last(), cut);
            assert forall|k: int, p: int|
                #![trigger segs[k], s[p]]
                0 <= k < segs.len() && !segs[k].is_sgr && segs[k].start <= p < segs[k].end && cut
                    <= p implies s[p] == ' ' || s[p] == '\t' by {
                if k < segs.len() - 1 {
                    assert(segs.drop_last()[k] == segs[k]);
                }
            }
        } else {
            match last_visible_in(s, last.start as nat, last.end as nat) {
                Some(kv) => {
                    lemma_last_visible_bounds(s, last.start as nat, last.end as nat);
                    lemma_last_visible_ws(s, last.start as nat, last.end as nat);
                    assert(cut == kv + 1);
                    assert forall|k: int, p: int|
                        #![trigger segs[k], s[p]]
                        0 <= k < segs.len() && !segs[k].is_sgr && segs[k].start <= p < segs[k].end
                            && cut <= p implies s[p] == ' ' || s[p] == '\t' by {
                        if k < segs.len() - 1 {
                            assert(segs[k].end <= segs[segs.len() - 1].start);
                        }
                    }
                },
                None => {
                    lemma_cut_ws(s, segs.drop_last(), cut);
                    lemma_last_visible_ws(s, last.start as nat, last.end as nat);
                    assert forall|k: int, p: int|
                        #![trigger segs[k], s[p]]
                        0 <= k < segs.len() && !segs[k].is_sgr && segs[k].start <= p < segs[k].end
                            && cut <= p implies s[p] == ' ' || s[p] == '\t' by {
                        if k < segs.len() - 1 {
                            assert(segs.drop_last()[k] == segs[k]);
                        }
                    }
                },
            }
        }
    }
}

/// Trim preserve: on a line with at least one visible non-whitespace
/// character, every SGR escape sequence survives the trim, whole and in
/// order — their concatenation is a subsequence of the trimmed line — and
/// the only characters the trim drops are visible spaces and tabs lying at
/// or past the cut.
pub proof fn lemma_trim_preserves_sgr(s: Seq<char>)
    requires
        s.len() <= usize::MAX,
    ensures
        is_subseq_of(sgr_concat(s, sgr_segs_spec(s)), rtrim_spec(s)),
        forall|k: int, p: int|
            #![trigger sgr_segs_spec(s)[k], s[p]]
            ({
                let segs = sgr_segs_spec(s);
                let cut = match cut_of(s, segs) {
                    Some(c) => c,
                    None => 0,
                };
                0 <= k < segs.len() && !segs[k].is_sgr && segs[k].start <= p < segs[k].end && cut
                    <= p ==> s[p] == ' ' || s[p] == '\t'
            }),
{
    let segs = sgr_segs_spec(s);
    let cut = match cut_of(s, segs) {
        Some(c) => c,
        None => 0,
    };
    lemma_rebuild_subseq(s, segs, cut);
    lemma_scan_ordered(s, 0, 0);
    match cut_of(s, segs) {
        Some(_) => {
            lemma_cut_ws(s, segs, cut);
        },
        None => {
            lemma_cut_none_ws(s, segs);
        },
    }
}

/// When no run holds a visible non-whitespace character, every text
/// character of the line is whitespace.
proof fn lemma_cut_none_ws(s: Seq<char>, segs: Seq<SgrSeg>)
    requires
        cut_of(s, segs) is None,
    ensures
        forall|k: int, p: int|
            #![trigger segs[k], s[p]]
            0 <= k < segs.len() && !segs[k].is_sgr && segs[k].start <= p < segs[k].end ==> s[p]
                == ' ' || s[p] == '\t',
    decreases segs.len(),
{
    if segs.len() > 0 {
        let last = segs.last();
        if !last.is_sgr {
            lemma_last_visible_ws(s, last.start as nat, last.end as nat);
        }
        lemma_cut_none_ws(s, segs.drop_last());
        assert forall|k: int, p: int|
            #![trigger segs[k], s[p]]
            0 <= k < segs.len() && !segs[k].is_sgr && segs[k].start <= p
                < segs[k].end implies s[p] == ' ' || s[p] == '\t' by {
            if k < segs.len() - 1 {
                assert(segs.drop_last()[k] == segs[k]);
            }
        }
    }
}


/// Scanning from `col`, no visible character lands past the width: a
/// newline resets the column, a carriage return occupies nothing, any other
/// character occupies one column which must lie within the width.
pub open spec fn cols_ok(out: Seq<char>, col: nat, width: nat) -> bool
    decreases out.len(),
{
    if out.len() == 0 {
        true
    } else if out.first() == '\n' {
        cols_ok(out.drop_first(), 0, width)
    } else if out.first() == '\r' {
        cols_ok(out.drop_first(), col, width)
    } else {
        col + 1 <= width && cols_ok(out.drop_first(), col + 1, width)
    }
}

/// Wrap safety for a visible-text run: starting at any column within a
/// positive width, no character of the wrapped run ever lands past the
/// width, and the run ends at a column within the width.
pub proof fn lemma_wrap_text_safe(t: Seq<char>, col: nat, width: nat)
    requires
        width > 0,
        col <= width,
    ensures
        cols_ok(wrap_text(t, col, width).0, col, width),
        wrap_text(t, col, width).1 <= width,
    decreases t.len(),
{
    if t.len() == 0 {
        assert(cols_ok(Seq::<char>::empty(), col, width));
    } else {
        let c = t.first();
        if c == '\n' {
            lemma_wrap_text_safe(t.drop_first(), 0, width);
            let r = wrap_text(t.drop_first(), 0, width);
            assert((seq!['\n'] + r.0).drop_first() =~= r.0);
            assert(cols_ok(seq!['\n'] + r.0, col, width));
        } else if c == '\r' {
            lemma_wrap_text_safe(t.drop_first(), col, width);
            let r = wrap_text(t.drop_first(), col, width);
            assert((seq!['\r'] + r.0).drop_first() =~= r.0);
            assert(cols_ok(seq!['\r'] + r.0, col, width));
        } else if col >= width {
            lemma_wrap_text_safe(t.drop_first(), 1, width);
            let r = wrap_text(t.drop_first(), 1, width);
            assert((seq!['\n', c] + r.0).drop_first() =~= seq![c] + r.0);
            assert((seq![c] + r.0).drop_first() =~= r.0);
            assert(cols_ok(seq![c] + r.0, 0, width));
            assert(cols_ok(seq!['\n', c] + r.0, col, width));
        } else {
            lemma_wrap_text_safe(t.drop_first(), col + 1, width);
            let r = wrap_text(t.drop_first(), col + 1, width);
            assert((seq![c] + r.0).drop_first() =~= r.0);
            assert(cols_ok(seq![c] + r.0, col, width));
        }
    }
}

/// The characters of a string with every newline removed.
pub open spec fn drop_nl(s: Seq<char>) -> Seq<char>
    decreases s.len(),
{
    if s.len() == 0 {
        Seq::<char>::empty()
    } else {
        (if s.first() == '\n' {
            Seq::<char>::empty()
        } else {
            seq![s.first()]
        }) + drop_nl(s.drop_first())
    }
}

proof fn lemma_drop_nl_app(a: Seq<char>, b: Seq<char>)
    ensures
        drop_nl(a + b) == drop_nl(a) + drop_nl(b),
    decreases a.len(),
{
    if a.len() == 0 {
        assert(a + b =~= b);
        assert(drop_nl(a) + drop_nl(b) =~= drop_nl(b));
    } else {
        assert((a + b).drop_first() =~= a.drop_first() + b);
        lemma_drop_nl_app(a.drop_first(), b);
        assert(drop_nl(a + b) =~= drop_nl(a) + drop_nl(b));
    }
}

proof fn lemma_wrap_text_chars(t: Seq<char>, col: nat, width: nat)
    ensures
        drop_nl(wrap_text(t, col, width).0) == drop_nl(t),
    decreases t.len(),
{
    if t.len() > 0 {
        let c = t.first();
        if c == '\n' {
            lemma_wrap_text_chars(t.drop_first(), 0, width);
            lemma_drop_nl_app(seq!['\n'], wrap_text(t.drop_first(), 0, width).0);
            assert(seq!['\n'].drop_first() =~= Seq::<char>::empty());
            assert(drop_nl(Seq::<char>::empty()) == Seq::<char>::empty());
            assert(drop_nl(seq!['\n']) =~= Seq::<char>::empty());
            assert(drop_nl(wrap_text(t, col, width).0) =~= drop_nl(t));
        } else if c == '\r' {
            lemma_wrap_text_chars(t.drop_first(), col, width);
            lemma_drop_nl_app(seq!['\r'], wrap_text(t.drop_first(), col, width).0);
            assert(seq!['\r'].drop_first() =~= Seq::<char>::empty());
            assert(drop_nl(Seq::<char>::empty()) == Seq::<char>::empty());
            assert(drop_nl(seq!['\r']) =~= seq!['\r']);
            assert(drop_nl(wrap_text(t, col, width).0) =~= drop_nl(t));
        } else if col >= width {
            lemma_wrap_text_chars(t.drop_first(), 1, width);
            lemma_drop_nl_app(seq!['\n', c], wrap_text(t.drop_first(), 1, width).0);
            assert(drop_nl(seq!['\n', c]) =~= seq![c]) by {
                assert(seq!['\n', c].drop_first() =~= seq![c]);
                assert(seq![c].drop_first() =~= Seq::<char>::empty());
                assert(drop_nl(Seq::<char>::empty()) == Seq::<char>::empty());
                assert(drop_nl(seq![c]) =~= seq![c]);
            }
            assert(drop_nl(wrap_text(t, col, width).0) =~= drop_nl(t));
        } else {
            lemma_wrap_text_chars(t.drop_first(), col + 1, width);
            lemma_drop_nl_app(seq![c], wrap_text(t.drop_first(), col + 1, width).0);
            assert(seq![c].drop_first() =~= Seq::<char>::empty());
            assert(drop_nl(Seq::<char>::empty()) == Seq::<char>::empty());
            assert(drop_nl(seq![c]) =~= seq![c]);
            assert(drop_nl(wrap_text(t, col, width).0) =~= drop_nl(t));
        }
    }
}

/// The contents of all runs, SGR and text alike, in order.
pub open spec fn segs_cat(s: Seq<char>, segs: Seq<SgrSeg>) -> Seq<char>
    decreases segs.len(),
{
    if segs.len() == 0 {
        Seq::<char>::empty()
    } else {
        let h = segs.first();
        s.subrange(h.start as int, h.end as int) + segs_cat(s, segs.drop_first())
    }
}

proof fn lemma_wrap_segs_chars(s: Seq<char>, segs: Seq<SgrSeg>, col: nat, width: nat)
    ensures
        drop_nl(wrap_segs(s, segs, col, width)) == drop_nl(segs_cat(s, segs)),
    decreases segs.len(),
{
    if segs.len() > 0 {
        let h = segs.first();
        let content = s.subrange(h.start as int, h.end as int);
        if h.is_sgr {
            lemma_wrap_segs_chars(s, segs.drop_first(), col, width);
            lemma_drop_nl_app(content, wrap_segs(s, segs.drop_first(), col, width));
            lemma_drop_nl_app(content, segs_cat(s, segs.drop_first()));
        } else {
            let r = wrap_text(content, col, width);
            lemma_wrap_segs_chars(s, segs.drop_first(), r.1, width);
            lemma_wrap_text_chars(content, col, width);
            lemma_drop_nl_app(r.0, wrap_segs(s, segs.drop_first(), r.1, width));
            lemma_drop_nl_app(content, segs_cat(s, segs.drop_first()));
        }
    }
}

/// The scan's runs tile the string from the pending text start to its end.
proof fn lemma_scan_cat(s: Seq<char>, i: nat, ts: nat)
    requires
        ts <= i <= s.len(),
        s.len() <= usize::MAX,
    ensures
        segs_cat(s, sgr_scan(s, i, ts)) == s.subrange(ts as int, s.len() as int),
    decreases s.len() - i,
{
    if i >= s.len() {
        if ts < s.len() {
            let single = seq![SgrSeg { is_sgr: false, start: ts as usize, end: s.len() as usize }];
            assert(sgr_scan(s, i, ts) == single);
            assert(single.drop_first() =~= Seq::<SgrSeg>::empty());
            assert(segs_cat(s, Seq::<SgrSeg>::empty()) == Seq::<char>::empty());
            assert(segs_cat(s, single) =~= s.subrange(ts as int, s.len() as int));
        } else {
            assert(sgr_scan(s, i, ts) == Seq::<SgrSeg>::empty());
            assert(segs_cat(s, Seq::<SgrSeg>::empty()) == Seq::<char>::empty());
            assert(s.subrange(ts as int, s.len() as int) =~= Seq::<char>::empty());
        }
    } else if is_sgr_start(s, i) && first_char_from(s, i + 2, 'm') < s.len() {
        let j = first_char_from(s, i + 2, 'm');
        lemma_first_char_from_bounds(s, i + 2, 'm');
        lemma_scan_cat(s, j + 1, j + 1);
        let head = if ts < i {
            seq![SgrSeg { is_sgr: false, start: ts as usize, end: i as usize }]
        } else {
            Seq::<SgrSeg>::empty()
        };
        let mid = seq![SgrSeg { is_sgr: true, start: i as usize, end: (j + 1) as usize }];
        let rest = sgr_scan(s, j + 1, j + 1);
        let whole = sgr_scan(s, i, ts);
        assert(whole == head + mid + rest);
        assert(segs_cat(s, rest) == s.subrange((j + 1) as int, s.len() as int));
        if ts < i {
            assert(whole.first() == head[0]);
            assert(whole.drop_first() =~= mid + rest);
            assert((mid + rest).first() == mid[0]);
            assert((mid + rest).drop_first() =~= rest);
            assert(segs_cat(s, mid + rest) == s.subrange(i as int, (j + 1) as int) + segs_cat(
                s,
                rest,
            ));
            assert(segs_cat(s, whole) == s.subrange(ts as int, i as int) + segs_cat(
                s,
                mid + rest,
            ));
            assert(segs_cat(s, whole) =~= s.subrange(ts as int, s.len() as int));
        } else {
            assert(whole =~= mid + rest);
            assert((mid + rest).first() == mid[0]);
            assert((mid + rest).drop_first() =~= rest);
            assert(segs_cat(s, mid + rest) == s.subrange(i as int, (j + 1) as int) + segs_cat(
                s,
                rest,
            ));
            assert(segs_cat(s, whole) =~= s.subrange(ts as int, s.len() as int));
        }
    } else {
        lemma_scan_cat(s, i + 1, ts);
        assert(sgr_scan(s, i, ts) == sgr_scan(s, i + 1, ts));
    }
}

/// Wrapping never splits or loses a character: the wrapped string is the
/// original with newlines inserted and nothing else, so stripping all
/// newlines from both sides leaves the same character sequence. Characters
/// are whole by construction, so no multi-byte code point is ever split at
/// a wrap boundary.
pub proof fn lemma_wrap_preserves_chars(s: Seq<char>, width: nat)
    requires
        s.len() <= usize::MAX,
    ensures
        drop_nl(wrap_ansi_spec(s, width)) == drop_nl(s),
{
    if width > 0 {
        lemma_wrap_segs_chars(s, sgr_segs_spec(s), 0, width);
        lemma_scan_cat(s, 0, 0);
        assert(s.subrange(0, s.len() as int) =~= s);
    }
}


/// A string without the escape character parses as one visible-text run.
proof fn lemma_scan_plain(s: Seq<char>, i: nat, ts: nat)
    requires
        ts <= i <= s.len(),
        s.len() <= usize::MAX,
        forall|p: int| 0 <= p < s.len() ==> s[p] != '\x1b',
    ensures
        sgr_scan(s, i, ts) == if ts < s.len() {
            seq![SgrSeg { is_sgr: false, start: ts as usize, end: s.len() as usize }]
        } else {
            Seq::<SgrSeg>::empty()
        },
    decreases s.len() - i,
{
    if i < s.len() {
        assert(!is_sgr_start(s, i));
        lemma_scan_plain(s, i + 1, ts);
    }
}

/// Wrap safety for a string without escape sequences: at a positive width,
/// scanning the wrapped output from column zero never places a character
/// past the width — no output line exceeds `width` visible columns.
pub proof fn lemma_wrap_plain_safe(s: Seq<char>, width: nat)
    requires
        width > 0,
        s.len() <= usize::MAX,
        forall|p: int| 0 <= p < s.len() ==> s[p] != '\x1b',
    ensures
        cols_ok(wrap_ansi_spec(s, width), 0, width),
{
    lemma_scan_plain(s, 0, 0);
    if s.len() == 0 {
        assert(wrap_segs(s, sgr_segs_spec(s), 0, width) == Seq::<char>::empty());
        assert(cols_ok(Seq::<char>::empty(), 0, width));
    } else {
        let segs = sgr_segs_spec(s);
        let whole = SgrSeg { is_sgr: false, start: 0, end: s.len() as usize };
        assert(segs == seq![whole]);
        assert(segs.drop_first() =~= Seq::<SgrSeg>::empty());
        assert(wrap_segs(s, segs.drop_first(), wrap_text(
            s.subrange(0, s.len() as int),
            0,
            width,
        ).1, width) == Seq::<char>::empty());
        assert(s.subrange(0, s.len() as int) =~= s);
        lemma_wrap_text_safe(s, 0, width);
        assert(wrap_segs(s, segs, 0, width) =~= wrap_text(s, 0, width).0);
    }
}


/// Everything before the first occurrence of `c` is not `c`.
pub proof fn lemma_first_char_from_none_before(s: Seq<char>, j: nat, c: char)
    requires
        j <= s.len(),
    ensures
        forall|p: int| j <= p < first_char_from(s, j, c) ==> s[p] != c,
    decreases s.len() - j,
{
    if j < s.len() && s[j as int] != c {
        lemma_first_char_from_none_before(s, j + 1, c);
    }
}

/// A line piece holds no newline.
pub open spec fn nl_free(l: Seq<char>) -> bool {
    forall|p: int| 0 <= p < l.len() ==> l[p] != '\n'
}

/// Every piece `split_lines` yields is free of newlines.
pub proof fn lemma_split_lines_nl_free(s: Seq<char>)
    ensures
        forall|k: int|
            0 <= k < split_lines(s).len() ==> nl_free(#[trigger] split_lines(s)[k]),
    decreases s.len(),
{
    if s.len() > 0 {
        let i = first_char_from(s, 0, '\n');
        lemma_first_char_from_bounds(s, 0, '\n');
        lemma_first_char_from_none_before(s, 0, '\n');
        if i >= s.len() {
            assert(nl_free(s));
        } else {
            let piece = strip_cr(s.subrange(0, i as int));
            assert(nl_free(piece));
            lemma_split_lines_nl_free(s.subrange(i as int + 1, s.len() as int));
            let ls = split_lines(s);
            assert forall|k: int| 0 <= k < ls.len() implies nl_free(#[trigger] ls[k]) by {
                if k > 0 {
                    assert(ls[k] == split_lines(s.subrange(i as int + 1, s.len() as int))[k - 1]);
                }
            }
        }
    }
}

/// Scanning a newline-free piece that fits the remaining room, then a
/// newline, stays within the width.
proof fn lemma_cols_piece(piece: Seq<char>, rest: Seq<char>, col: nat, width: nat)
    requires
        nl_free(piece),
        col + piece.len() <= width,
        cols_ok(rest, 0, width),
    ensures
        cols_ok(piece + seq!['\n'] + rest, col, width),
    decreases piece.len(),
{
    if piece.len() == 0 {
        assert(piece + seq!['\n'] + rest =~= seq!['\n'] + rest);
        assert((seq!['\n'] + rest).drop_first() =~= rest);
        assert(cols_ok(seq!['\n'] + rest, col, width));
    } else {
        let c = piece.first();
        assert(nl_free(piece.drop_first()));
        if c == '\r' {
            lemma_cols_piece(piece.drop_first(), rest, col, width);
        } else {
            lemma_cols_piece(piece.drop_first(), rest, col + 1, width);
        }
        assert((piece + seq!['\n'] + rest).drop_first() =~= piece.drop_first() + seq!['\n']
            + rest);
        assert(cols_ok(piece + seq!['\n'] + rest, col, width));
    }
}

/// The chunks of a newline-free line scan safely before whatever follows.
proof fn lemma_chunk_safe(l: Seq<char>, rest: Seq<char>, width: nat)
    requires
        nl_free(l),
        width > 0,
        cols_ok(rest, 0, width),
    ensures
        cols_ok(chunk_line(l, width) + rest, 0, width),
    decreases l.len(),
{
    if l.len() <= width {
        lemma_cols_piece(l, rest, 0, width);
        assert(chunk_line(l, width) + rest =~= l + seq!['\n'] + rest);
    } else {
        assert(nl_free(l.skip(width as int)));
        lemma_chunk_safe(l.skip(width as int), rest, width);
        let piece = l.subrange(0, width as int);
        assert(nl_free(piece));
        lemma_cols_piece(piece, chunk_line(l.skip(width as int), width) + rest, 0, width);
        assert(chunk_line(l, width) + rest =~= piece + seq!['\n'] + (chunk_line(
            l.skip(width as int),
            width,
        ) + rest));
    }
}

/// Wrap safety for pre-wrapped code: at a positive width, scanning the
/// wrapped code from column zero never places a character past the width —
/// every emitted line holds at most `width` characters and is closed by a
/// newline.
pub proof fn lemma_wrap_code_safe(code: Seq<char>, width: nat)
    requires
        width > 0,
    ensures
        cols_ok(wrap_code_spec(code, width), 0, width),
{
    lemma_split_lines_nl_free(code);
    lemma_wrap_lines_safe(split_lines(code), width);
}

proof fn lemma_wrap_lines_safe(ls: Seq<Seq<char>>, width: nat)
    requires
        width > 0,
        forall|k: int| 0 <= k < ls.len() ==> nl_free(#[trigger] ls[k]),
    ensures
        cols_ok(wrap_lines(ls, width), 0, width),
    decreases ls.len(),
{
    if ls.len() == 0 {
        assert(cols_ok(Seq::<char>::empty(), 0, width));
    } else {
        lemma_wrap_lines_safe(ls.drop_first(), width);
        lemma_chunk_safe(ls.first(), wrap_lines(ls.drop_first(), width), width);
    }
}

/// Cutting a line into chunks loses nothing: deleting the inserted newlines
/// restores the line's characters in order (one trailing newline included
/// by the cut itself).
pub proof fn lemma_chunk_line_restores(l: Seq<char>, width: nat)
    requires
        nl_free(l),
    ensures
        drop_nl(chunk_line(l, width)) == l,
    decreases l.len(),
{
    if width == 0 || l.len() <= width {
        lemma_drop_nl_app(l, seq!['\n']);
        lemma_drop_nl_nl_free(l);
        assert(seq!['\n'].drop_first() =~= Seq::<char>::empty());
        assert(drop_nl(Seq::<char>::empty()) == Seq::<char>::empty());
        assert(drop_nl(seq!['\n']) =~= Seq::<char>::empty());
        assert(drop_nl(chunk_line(l, width)) =~= l);
    } else {
        assert(nl_free(l.skip(width as int)));
        lemma_chunk_line_restores(l.skip(width as int), width);
        let piece = l.subrange(0, width as int);
        assert(nl_free(piece));
        lemma_drop_nl_nl_free(piece);
        lemma_drop_nl_app(piece, seq!['\n'] + chunk_line(l.skip(width as int), width));
        lemma_drop_nl_app(seq!['\n'], chunk_line(l.skip(width as int), width));
        assert(seq!['\n'].drop_first() =~= Seq::<char>::empty());
        assert(drop_nl(Seq::<char>::empty()) == Seq::<char>::empty());
        assert(drop_nl(seq!['\n']) =~= Seq::<char>::empty());
        assert(chunk_line(l, width) =~= piece + (seq!['\n'] + chunk_line(
            l.skip(width as int),
            width,
        )));
        assert(drop_nl(chunk_line(l, width)) =~= piece + l.skip(width as int));
        assert(piece + l.skip(width as int) =~= l);
    }
}

/// A newline-free sequence survives newline stripping unchanged.
proof fn lemma_drop_nl_nl_free(l: Seq<char>)
    requires
        nl_free(l),
    ensures
        drop_nl(l) == l,
    decreases l.len(),
{
    if l.len() > 0 {
        assert(nl_free(l.drop_first()));
        lemma_drop_nl_nl_free(l.drop_first());
        assert(drop_nl(l) =~= l);
    }
}


/// A column-occupying character: anything but a space or a tab.
pub open spec fn is_ws(c: char) -> bool {
    c == ' ' || c == '\t'
}

pub open spec fn all_ws(t: Seq<char>) -> bool {
    forall|p: int| 0 <= p < t.len() ==> is_ws(#[trigger] t[p])
}

/// The string with every trailing space and tab removed.
pub open spec fn strip_ws_suffix(t: Seq<char>) -> Seq<char>
    decreases t.len(),
{
    if t.len() > 0 && is_ws(t.last()) {
        strip_ws_suffix(t.drop_last())
    } else {
        t
    }
}

/// The visible text of a segmented line: its text runs, concatenated.
pub open spec fn vis_concat(s: Seq<char>, segs: Seq<SgrSeg>) -> Seq<char>
    decreases segs.len(),
{
    if segs.len() == 0 {
        Seq::<char>::empty()
    } else {
        let h = segs.first();
        (if h.is_sgr {
            Seq::<char>::empty()
        } else {
            s.subrange(h.start as int, h.end as int)
        }) + vis_concat(s, segs.drop_first())
    }
}

/// What one run contributes to the trimmed line's visible text.
pub open spec fn kept_piece(s: Seq<char>, g: SgrSeg, cut: nat) -> Seq<char> {
    if g.is_sgr {
        Seq::<char>::empty()
    } else if g.end <= cut {
        s.subrange(g.start as int, g.end as int)
    } else if g.start < cut {
        s.subrange(g.start as int, cut as int)
    } else {
        Seq::<char>::empty()
    }
}

/// The visible text the trim keeps, run by run.
pub open spec fn vis_kept(s: Seq<char>, segs: Seq<SgrSeg>, cut: nat) -> Seq<char>
    decreases segs.len(),
{
    if segs.len() == 0 {
        Seq::<char>::empty()
    } else {
        kept_piece(s, segs.first(), cut) + vis_kept(s, segs.drop_first(), cut)
    }
}

proof fn lemma_vis_concat_app(s: Seq<char>, x: Seq<SgrSeg>, y: Seq<SgrSeg>)
    ensures
        vis_concat(s, x + y) == vis_concat(s, x) + vis_concat(s, y),
    decreases x.len(),
{
    if x.len() == 0 {
        assert(x + y =~= y);
        assert(vis_concat(s, x) + vis_concat(s, y) =~= vis_concat(s, y));
    } else {
        assert((x + y).drop_first() =~= x.drop_first() + y);
        lemma_vis_concat_app(s, x.drop_first(), y);
        assert(vis_concat(s, x + y) =~= vis_concat(s, x) + vis_concat(s, y));
    }
}

proof fn lemma_vis_kept_app(s: Seq<char>, x: Seq<SgrSeg>, y: Seq<SgrSeg>, cut: nat)
    ensures
        vis_kept(s, x + y, cut) == vis_kept(s, x, cut) + vis_kept(s, y, cut),
    decreases x.len(),
{
    if x.len() == 0 {
        assert(x + y =~= y);
        assert(vis_kept(s, x, cut) + vis_kept(s, y, cut) =~= vis_kept(s, y, cut));
    } else {
        assert((x + y).drop_first() =~= x.drop_first() + y);
        lemma_vis_kept_app(s, x.drop_first(), y, cut);
        assert(vis_kept(s, x + y, cut) =~= vis_kept(s, x, cut) + vis_kept(s, y, cut));
    }
}

/// Runs that end at or before the cut keep their whole visible text.
proof fn lemma_vis_kept_full(s: Seq<char>, segs: Seq<SgrSeg>, cut: nat)
    requires
        forall|k: int| 0 <= k < segs.len() ==> (#[trigger] segs[k]).end <= cut,
    ensures
        vis_kept(s, segs, cut) == vis_concat(s, segs),
    decreases segs.len(),
{
    if segs.len() > 0 {
        assert(segs[0].end <= cut);
        assert(forall|k: int|
            0 <= k < segs.drop_first().len() ==> (#[trigger] segs.drop_first()[k]).end <= cut);
        lemma_vis_kept_full(s, segs.drop_first(), cut);
    }
}


/// Appending whitespace does not change the stripped form.
proof fn lemma_strip_ws_app(x: Seq<char>, w: Seq<char>)
    requires
        all_ws(w),
    ensures
        strip_ws_suffix(x + w) == strip_ws_suffix(x),
    decreases w.len(),
{
    if w.len() == 0 {
        assert(x + w =~= x);
    } else {
        assert(is_ws(w.last()));
        assert((x + w).last() == w.last());
        assert((x + w).drop_last() =~= x + w.drop_last());
        assert(all_ws(w.drop_last()));
        lemma_strip_ws_app(x, w.drop_last());
    }
}

/// A string ending in a visible character is already stripped.
proof fn lemma_strip_ws_ends_visible(x: Seq<char>)
    requires
        x.len() > 0,
        !is_ws(x.last()),
    ensures
        strip_ws_suffix(x) == x,
{
}



/// Where the cut sits: inside a text run, just past a visible character.
proof fn lemma_cut_within(s: Seq<char>, segs: Seq<SgrSeg>, cut: nat)
    requires
        cut_of(s, segs) == Some(cut),
    ensures
        exists|j: int|
            0 <= j < segs.len() && !(#[trigger] segs[j]).is_sgr && segs[j].start < cut && cut
                <= segs[j].end,
    decreases segs.len(),
{
    if segs.len() > 0 {
        let last = segs.last();
        if last.is_sgr {
            lemma_cut_within(s, segs.drop_last(), cut);
            let j = choose|j: int|
                0 <= j < segs.drop_last().len() && !(#[trigger] segs.drop_last()[j]).is_sgr
                    && segs.drop_last()[j].start < cut && cut <= segs.drop_last()[j].end;
            assert(segs[j] == segs.drop_last()[j]);
        } else {
            match last_visible_in(s, last.start as nat, last.end as nat) {
                Some(k) => {
                    lemma_last_visible_bounds(s, last.start as nat, last.end as nat);
                    assert(segs[segs.len() - 1] == last);
                },
                None => {
                    lemma_cut_within(s, segs.drop_last(), cut);
                    let j = choose|j: int|
                        0 <= j < segs.drop_last().len() && !(
                        #[trigger] segs.drop_last()[j]).is_sgr && segs.drop_last()[j].start < cut
                            && cut <= segs.drop_last()[j].end;
                    assert(segs[j] == segs.drop_last()[j]);
                },
            }
        }
    }
}

/// The heart of the visible-text law, by induction from the right.
proof fn lemma_trim_vis_main(s: Seq<char>, segs: Seq<SgrSeg>)
    requires
        segs_wf(segs, s.len()),
        forall|k: int, l: int|
            0 <= k < l < segs.len() ==> (#[trigger] segs[k]).end <= (#[trigger] segs[l]).start,
    ensures
        vis_kept(
            s,
            segs,
            match cut_of(s, segs) {
                Some(c) => c,
                None => 0,
            },
        ) == strip_ws_suffix(vis_concat(s, segs)),
    decreases segs.len(),
{
    if segs.len() == 0 {
    } else {
        let last = segs.last();
        let dl = segs.drop_last();
        assert(segs =~= dl + seq![last]);
        assert(forall|k: int, l: int|
            0 <= k < l < dl.len() ==> (#[trigger] dl[k]).end <= (#[trigger] dl[l]).start) by {
            assert(forall|k: int| 0 <= k < dl.len() ==> #[trigger] dl[k] == segs[k]);
        }
        assert(segs_wf(dl, s.len())) by {
            assert(forall|k: int| 0 <= k < dl.len() ==> #[trigger] dl[k] == segs[k]);
        }
        assert(seg_wf(segs[segs.len() - 1], s.len()));
        lemma_trim_vis_main(s, dl);
        let cutv = match cut_of(s, segs) {
            Some(c) => c,
            None => 0nat,
        };
        lemma_vis_kept_app(s, dl, seq![last], cutv);
        lemma_vis_concat_app(s, dl, seq![last]);
        assert(seq![last].first() == last);
        assert(seq![last].drop_first() =~= Seq::<SgrSeg>::empty());
        assert(vis_kept(s, Seq::<SgrSeg>::empty(), cutv) == Seq::<char>::empty());
        assert(vis_concat(s, Seq::<SgrSeg>::empty()) == Seq::<char>::empty());
        assert(vis_kept(s, seq![last], cutv) =~= kept_piece(s, last, cutv));
        assert(vis_concat(s, seq![last]) =~= (if last.is_sgr {
            Seq::<char>::empty()
        } else {
            s.subrange(last.start as int, last.end as int)
        }));
        if last.is_sgr {
            assert(cut_of(s, segs) == cut_of(s, dl));
            assert(vis_concat(s, segs) =~= vis_concat(s, dl));
            assert(vis_kept(s, segs, cutv) =~= vis_kept(s, dl, cutv));
        } else {
            let a = last.start as nat;
            let b = last.end as nat;
            match last_visible_in(s, a, b) {
                Some(k) => {
                    lemma_last_visible_bounds(s, a, b);
                    lemma_last_visible_ws(s, a, b);
                    assert(cut_of(s, segs) == Some((k + 1) as nat));
                    assert(cutv == k + 1);
                    // every earlier run ends at or before this run's start
                    assert(forall|j: int|
                        0 <= j < dl.len() ==> (#[trigger] dl[j]).end <= cutv) by {
                        assert(forall|j: int|
                            0 <= j < dl.len() ==> (#[trigger] segs[j]).end <= segs[
                                segs.len() - 1
                            ].start);
                        assert(forall|j: int| 0 <= j < dl.len() ==> #[trigger] dl[j] == segs[j]);
                    }
                    lemma_vis_kept_full(s, dl, cutv);
                    assert(kept_piece(s, last, cutv) =~= s.subrange(a as int, cutv as int));
                    // the tail past the cut is whitespace
                    let w = s.subrange(cutv as int, b as int);
                    assert forall|q: int| 0 <= q < w.len() implies is_ws(#[trigger] w[q]) by {
                        assert(w[q] == s[cutv as int + q]);
                    }
                    let x = vis_concat(s, dl) + s.subrange(a as int, cutv as int);
                    assert(s.subrange(a as int, b as int) =~= s.subrange(a as int, cutv as int)
                        + s.subrange(cutv as int, b as int));
                    assert(vis_concat(s, segs) =~= x + w);
                    lemma_strip_ws_app(x, w);
                    assert(x.last() == s[k as int]);
                    lemma_strip_ws_ends_visible(x);
                    assert(vis_kept(s, segs, cutv) =~= strip_ws_suffix(vis_concat(s, segs)));
                },
                None => {
                    assert(cut_of(s, segs) == cut_of(s, dl));
                    lemma_last_visible_ws(s, a, b);
                    let w = s.subrange(a as int, b as int);
                    assert forall|q: int| 0 <= q < w.len() implies is_ws(#[trigger] w[q]) by {
                        assert(w[q] == s[a as int + q]);
                    }
                    lemma_strip_ws_app(vis_concat(s, dl), w);
                    assert(vis_concat(s, segs) =~= vis_concat(s, dl) + w);
                    match cut_of(s, dl) {
                        Some(c) => {
                            lemma_cut_within(s, dl, c);
                            let j = choose|j: int|
                                0 <= j < dl.len() && !(#[trigger] dl[j]).is_sgr && dl[j].start < c
                                    && c <= dl[j].end;
                            assert(dl[j] == segs[j]);
                            assert(segs[j].end <= segs[segs.len() - 1].start);
                            assert(kept_piece(s, last, cutv) =~= Seq::<char>::empty());
                        },
                        None => {
                            assert(cutv == 0);
                            assert(kept_piece(s, last, cutv) =~= Seq::<char>::empty());
                        },
                    }
                    assert(vis_kept(s, segs, cutv) =~= vis_kept(s, dl, cutv));
                },
            }
        }
    }
}

/// Trim strips the visible text exactly: over the runs of the line, what the
/// trim keeps of the visible (non-escape) characters is the line's visible
/// text with every trailing space and tab removed — and nothing before that
/// trailing run changes.
pub proof fn lemma_trim_strips_visible(s: Seq<char>)
    requires
        s.len() <= usize::MAX,
    ensures
        vis_kept(
            s,
            sgr_segs_spec(s),
            match cut_of(s, sgr_segs_spec(s)) {
                Some(c) => c,
                None => 0,
            },
        ) == strip_ws_suffix(vis_concat(s, sgr_segs_spec(s))),
{
    lemma_scan_ordered(s, 0, 0);
    lemma_scan_wf(s, 0, 0);
    lemma_trim_vis_main(s, sgr_segs_spec(s));
}


/// The first characters of a (suffix) string open an SGR sequence.
pub open spec fn sgr_head(out: Seq<char>) -> bool {
    out.len() >= 2 && out[0] == '\x1b' && out[1] == '['
}

/// Scanning visible columns with SGR sequences at zero width: a complete
/// escape sequence is skipped whole, a newline resets the column, a carriage
/// return is free, and any other character occupies one column that must lie
/// within the width.
pub open spec fn vis_cols_ok(out: Seq<char>, col: nat, width: nat) -> bool
    decreases out.len(),
    via vis_cols_ok_decreases
{
    if out.len() == 0 {
        true
    } else if sgr_head(out) && first_char_from(out, 2, 'm') < out.len() {
        let j = first_char_from(out, 2, 'm');
        vis_cols_ok(out.skip(j as int + 1), col, width)
    } else if out.first() == '\n' {
        vis_cols_ok(out.drop_first(), 0, width)
    } else if out.first() == '\r' {
        vis_cols_ok(out.drop_first(), col, width)
    } else {
        col + 1 <= width && vis_cols_ok(out.drop_first(), col + 1, width)
    }
}

#[via_fn]
proof fn vis_cols_ok_decreases(out: Seq<char>, col: nat, width: nat) {
    if out.len() > 0 && sgr_head(out) && first_char_from(out, 2, 'm') < out.len() {
        lemma_first_char_from_bounds(out, 2, 'm');
    }
}

/// The first occurrence is where a witness stands with none before it.
proof fn lemma_first_char_at(s: Seq<char>, j: nat, c: char, r: nat)
    requires
        j <= r < s.len(),
        s[r as int] == c,
        forall|p: int| j <= p < r ==> s[p] != c,
    ensures
        first_char_from(s, j, c) == r,
    decreases r - j,
{
    if j < r {
        lemma_first_char_at(s, j + 1, c, r);
    }
}

/// No text run of the segmentation holds an escape character.
pub open spec fn text_esc_free(s: Seq<char>, segs: Seq<SgrSeg>) -> bool {
    forall|k: int, p: int|
        #![trigger segs[k], s[p]]
        0 <= k < segs.len() && !segs[k].is_sgr && segs[k].start <= p < segs[k].end ==> s[p]
            != '\x1b'
}

/// Every SGR run of the scan has the escape shape: ESC, `[`, a body free of
/// `m`, and a final `m`.
proof fn lemma_scan_sgr_shape(s: Seq<char>, i: nat, ts: nat)
    requires
        ts <= i <= s.len(),
        s.len() <= usize::MAX,
    ensures
        forall|k: int|
            #![trigger sgr_scan(s, i, ts)[k]]
            0 <= k < sgr_scan(s, i, ts).len() && sgr_scan(s, i, ts)[k].is_sgr ==> {
                let g = sgr_scan(s, i, ts)[k];
                &&& g.end >= g.start + 3
                &&& s[g.start as int] == '\x1b'
                &&& s[g.start as int + 1] == '['
                &&& s[g.end as int - 1] == 'm'
                &&& forall|p: int| g.start + 2 <= p < g.end - 1 ==> s[p] != 'm'
            },
    decreases s.len() - i,
{
    if i >= s.len() {
    } else if is_sgr_start(s, i) && first_char_from(s, i + 2, 'm') < s.len() {
        let j = first_char_from(s, i + 2, 'm');
        lemma_first_char_from_bounds(s, i + 2, 'm');
        lemma_first_char_from_none_before(s, i + 2, 'm');
        lemma_scan_sgr_shape(s, j + 1, j + 1);
        let head = if ts < i {
            seq![SgrSeg { is_sgr: false, start: ts as usize, end: i as usize }]
        } else {
            Seq::<SgrSeg>::empty()
        };
        let mid = seq![SgrSeg { is_sgr: true, start: i as usize, end: (j + 1) as usize }];
        let rest = sgr_scan(s, j + 1, j + 1);
        let whole = sgr_scan(s, i, ts);
        assert(whole == head + mid + rest);
        assert forall|k: int|
            0 <= k < whole.len() && (#[trigger] whole[k]).is_sgr implies {
            let g = whole[k];
            &&& g.end >= g.start + 3
            &&& s[g.start as int] == '\x1b'
            &&& s[g.start as int + 1] == '['
            &&& s[g.end as int - 1] == 'm'
            &&& forall|p: int| g.start + 2 <= p < g.end - 1 ==> s[p] != 'm'
        } by {
            if k >= head.len() + 1 {
                assert(whole[k] == rest[k - head.len() - 1]);
            } else if k == head.len() {
                assert(whole[k] == mid[0]);
            }
        }
    } else {
        lemma_scan_sgr_shape(s, i + 1, ts);
        assert(sgr_scan(s, i, ts) == sgr_scan(s, i + 1, ts));
    }
}

/// Scanning a complete SGR sequence costs no columns.
proof fn lemma_vis_cols_sgr(g: Seq<char>, v: Seq<char>, col: nat, width: nat)
    requires
        g.len() >= 3,
        g[0] == '\x1b',
        g[1] == '[',
        g[g.len() - 1] == 'm',
        forall|p: int| 2 <= p < g.len() - 1 ==> g[p] != 'm',
        vis_cols_ok(v, col, width),
    ensures
        vis_cols_ok(g + v, col, width),
{
    let out = g + v;
    assert(sgr_head(out));
    assert(out[g.len() - 1] == 'm');
    assert forall|p: int| 2 <= p < g.len() - 1 implies out[p] != 'm' by {
        assert(out[p] == g[p]);
    }
    lemma_first_char_at(out, 2, 'm', (g.len() - 1) as nat);
    assert(first_char_from(out, 2, 'm') == g.len() - 1);
    assert(out.skip(g.len() as int) =~= v);
}

/// Scanning a wrapped, escape-free text run stays within the width and
/// hands the following output its ending column.
proof fn lemma_vis_cols_text(t: Seq<char>, v: Seq<char>, col: nat, width: nat)
    requires
        width > 0,
        col <= width,
        forall|p: int| 0 <= p < t.len() ==> t[p] != '\x1b',
        vis_cols_ok(v, wrap_text(t, col, width).1, width),
    ensures
        vis_cols_ok(wrap_text(t, col, width).0 + v, col, width),
    decreases t.len(),
{
    if t.len() == 0 {
        assert(wrap_text(t, col, width).0 + v =~= v);
    } else {
        let c = t.first();
        assert(forall|p: int| 0 <= p < t.drop_first().len() ==> t.drop_first()[p] != '\x1b');
        if c == '\n' {
            lemma_vis_cols_text(t.drop_first(), v, 0, width);
            let r = wrap_text(t.drop_first(), 0, width);
            assert((seq!['\n'] + r.0 + v).drop_first() =~= r.0 + v);
            assert(wrap_text(t, col, width).0 + v =~= seq!['\n'] + r.0 + v);
            assert(!sgr_head(seq!['\n'] + r.0 + v));
            assert(vis_cols_ok(seq!['\n'] + r.0 + v, col, width));
        } else if c == '\r' {
            lemma_vis_cols_text(t.drop_first(), v, col, width);
            let r = wrap_text(t.drop_first(), col, width);
            assert((seq!['\r'] + r.0 + v).drop_first() =~= r.0 + v);
            assert(wrap_text(t, col, width).0 + v =~= seq!['\r'] + r.0 + v);
            assert(!sgr_head(seq!['\r'] + r.0 + v));
            assert(vis_cols_ok(seq!['\r'] + r.0 + v, col, width));
        } else if col >= width {
            lemma_vis_cols_text(t.drop_first(), v, 1, width);
            let r = wrap_text(t.drop_first(), 1, width);
            assert((seq!['\n', c] + r.0 + v).drop_first() =~= seq![c] + r.0 + v);
            assert((seq![c] + r.0 + v).drop_first() =~= r.0 + v);
            assert(wrap_text(t, col, width).0 + v =~= seq!['\n', c] + r.0 + v);
            assert(!sgr_head(seq!['\n', c] + r.0 + v));
            assert(!sgr_head(seq![c] + r.0 + v));
            assert(vis_cols_ok(seq![c] + r.0 + v, 0, width));
            assert(vis_cols_ok(seq!['\n', c] + r.0 + v, col, width));
        } else {
            lemma_vis_cols_text(t.drop_first(), v, col + 1, width);
            let r = wrap_text(t.drop_first(), col + 1, width);
            assert((seq![c] + r.0 + v).drop_first() =~= r.0 + v);
            assert(wrap_text(t, col, width).0 + v =~= seq![c] + r.0 + v);
            assert(!sgr_head(seq![c] + r.0 + v));
            assert(vis_cols_ok(seq![c] + r.0 + v, col, width));
        }
    }
}

proof fn lemma_wrap_segs_vis(s: Seq<char>, segs: Seq<SgrSeg>, col: nat, width: nat)
    requires
        width > 0,
        col <= width,
        segs_wf(segs, s.len()),
        text_esc_free(s, segs),
        forall|k: int|
            #![trigger segs[k]]
            0 <= k < segs.len() && segs[k].is_sgr ==> {
                let g = segs[k];
                &&& g.end >= g.start + 3
                &&& s[g.start as int] == '\x1b'
                &&& s[g.start as int + 1] == '['
                &&& s[g.end as int - 1] == 'm'
                &&& forall|p: int| g.start + 2 <= p < g.end - 1 ==> s[p] != 'm'
            },
    ensures
        vis_cols_ok(wrap_segs(s, segs, col, width), col, width),
    decreases segs.len(),
{
    if segs.len() == 0 {
        assert(vis_cols_ok(Seq::<char>::empty(), col, width));
    } else {
        let h = segs.first();
        assert(segs[0] == h);
        let dl = segs.drop_first();
        assert(segs_wf(dl, s.len()) && text_esc_free(s, dl) && (forall|k: int|
            #![trigger dl[k]]
            0 <= k < dl.len() && dl[k].is_sgr ==> {
                let g = dl[k];
                &&& g.end >= g.start + 3
                &&& s[g.start as int] == '\x1b'
                &&& s[g.start as int + 1] == '['
                &&& s[g.end as int - 1] == 'm'
                &&& forall|p: int| g.start + 2 <= p < g.end - 1 ==> s[p] != 'm'
            })) by {
            assert(forall|k: int| 0 <= k < dl.len() ==> #[trigger] dl[k] == segs[k + 1]);
        }
        let content = s.subrange(h.start as int, h.end as int);
        if h.is_sgr {
            lemma_wrap_segs_vis(s, dl, col, width);
            assert forall|p: int| 2 <= p < content.len() - 1 implies content[p] != 'm' by {
                assert(content[p] == s[h.start as int + p]);
            }
            lemma_vis_cols_sgr(content, wrap_segs(s, dl, col, width), col, width);
        } else {
            let r = wrap_text(content, col, width);
            lemma_wrap_text_safe(content, col, width);
            lemma_wrap_segs_vis(s, dl, r.1, width);
            assert forall|p: int| 0 <= p < content.len() implies content[p] != '\x1b' by {
                assert(content[p] == s[h.start as int + p]);
            }
            lemma_vis_cols_text(content, wrap_segs(s, dl, r.1, width), col, width);
        }
    }
}

/// Wrap safety for the whole output, escapes included: when every escape
/// character of the line begins a complete SGR sequence, scanning the
/// wrapped output — SGR sequences at zero width, newlines resetting the
/// column — never places a visible character past the width.
pub proof fn lemma_wrap_ansi_visible_safe(s: Seq<char>, width: nat)
    requires
        width > 0,
        s.len() <= usize::MAX,
        text_esc_free(s, sgr_segs_spec(s)),
    ensures
        vis_cols_ok(wrap_ansi_spec(s, width), 0, width),
{
    lemma_scan_wf(s, 0, 0);
    lemma_scan_sgr_shape(s, 0, 0);
    lemma_wrap_segs_vis(s, sgr_segs_spec(s), 0, width);
}

} // verus!
