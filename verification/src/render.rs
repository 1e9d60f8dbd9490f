//! The markdown renderer: fenced-code detection, syntax coloring through a
//! highlighter, markdown styling through a terminal skin, and an ANSI-safe
//! trim-and-wrap pass over the result.

use vstd::prelude::*;

use termimad::crossterm::style::Attribute;
use termimad::crossterm::style::Color;

use crate::ansi::rtrim_spec;
use crate::ansi::rtrim_visible_preserve_sgr;
use crate::ansi::split_lines;
use crate::ansi::strip_cr;
use crate::ansi::first_char_from;
use crate::ansi::wrap_ansi_simple;
use crate::ansi::wrap_ansi_spec;
use crate::ansi::wrap_code_simple;
use crate::ansi::wrap_code_spec;
use crate::text::chars_to_string;
use crate::text::push_range;
use crate::text::str_chars;
use crate::text::sub_string;

verus! {

/// One rendered piece of a markdown document: styled prose, or an already
/// colored code block.
#[derive(Debug)]
pub enum Segment {
    Text(String),
    Code(String),
}

/// The mathematical shape of a `Segment`.
pub enum SegView {
    Text(Seq<char>),
    Code(Seq<char>),
}

impl View for Segment {
    type V = SegView;

    open spec fn view(&self) -> SegView {
        match self {
            Segment::Text(s) => SegView::Text(s@),
            Segment::Code(s) => SegView::Code(s@),
        }
    }
}

/// An extra style applied on top of the default skin.
#[derive(Clone, Copy, Debug, PartialEq, Eq, Structural)]
pub enum StyleAttr {
    Dim,
}

/// What the skin produces for a piece of prose at a width.
///
/// Relied upon below: with a fixed skin and crossterm's color switch pinned
/// on, the result depends on the source text, the width and the dim flag
/// alone.
pub uninterp spec fn styled_text_of(text: Seq<char>, width: nat, dim: bool) -> Seq<char>;

/// Relies on termimad's `MadSkin::text`: renders markdown prose at the given
/// width with this crate's fixed skin, dimmed when asked to. The skin is
/// built here from constants of outside style types, and crossterm's
/// process-wide color switch is pinned on first (it would otherwise obey an
/// environment variable, memoized per process), so the result is a function
/// of the three arguments alone.
///
/// The width bound excludes a panic in termimad's fitting, which subtracts
/// a list item's first-line indent from the width: the indent is at most 15
/// (an ordered index of at most ten digits, a dot, a space, and a nesting
/// level its parser caps below four).
#[verifier::external_body]
fn styled_text(text: &str, width: usize, dim: bool) -> (r: String)
    requires
        width >= 16,
    ensures
        r@ == styled_text_of(text@, width as nat, dim),
{
    termimad::crossterm::style::Colored::set_ansi_color_disabled(false);
    let mut skin = termimad::MadSkin::default();
    skin.inline_code = termimad::CompoundStyle::new(Some(Color::Cyan), None, Attribute::Bold.into());
    let plain = termimad::CompoundStyle::new(None, None, Default::default());
    skin.code_block = termimad::LineStyle::new(plain, Default::default());
    skin.strikeout = termimad::CompoundStyle::with_attr(Attribute::CrossedOut);
    skin.strikeout.add_attr(Attribute::Dim);
    skin.set_headers_fg(Color::Green);
    if dim {
        skin.paragraph.add_attr(Attribute::Dim);
        skin.inline_code.add_attr(Attribute::Dim);
        skin.code_block.compound_style.add_attr(Attribute::Dim);
        skin.strikeout.add_attr(Attribute::Dim);
    }
    skin.text(text, Some(width)).to_string()
}

/// What the highlighter produces for a code block.
///
/// Relied upon below: with the bundled default syntaxes and a fixed theme,
/// the result depends on the language tag and the code alone.
pub uninterp spec fn highlighted_of(lang: Seq<char>, code: Seq<char>) -> Seq<char>;

/// Relies on syntect: tokenizes the code line by line under the syntax found
/// for `lang` (the plain-text syntax when the tag is unknown) and emits
/// 24-bit color escape codes for each token. The highlighter threads its
/// parse state across the lines, so the whole block is one outside
/// computation and the per-line loop lives here with it. Empty code yields
/// an empty result, as the line iterator visits nothing.
#[verifier::external_body]
fn highlight_code(lang: &str, code: &str) -> (r: String)
    ensures
        r@ == highlighted_of(lang@, code@),
        code@.len() == 0 ==> r@.len() == 0,
{
    let ss = syntect::parsing::SyntaxSet::load_defaults_newlines();
    let ts = syntect::highlighting::ThemeSet::load_defaults();
    let theme = &ts.themes["Solarized (dark)"];
    let syntax = ss.find_syntax_by_token(lang).unwrap_or_else(|| ss.find_syntax_plain_text());
    let mut h = syntect::easy::HighlightLines::new(syntax, theme);
    let mut out = String::new();
    for line in syntect::util::LinesWithEndings::from(code) {
        let ranges = h.highlight_line(line, &ss).unwrap_or_default();
        out.push_str(&syntect::util::as_24_bit_terminal_escaped(&ranges[..], false));
    }
    out
}

/// A word character of a fence's language tag.
pub open spec fn is_word_char(c: char) -> bool {
    ('a' <= c && c <= 'z') || ('A' <= c && c <= 'Z') || ('0' <= c && c <= '9') || c == '_'
}

/// End of the run of word characters starting at `j`.
pub open spec fn word_run_end(s: Seq<char>, j: nat) -> nat
    decreases s.len() - j,
{
    if j >= s.len() {
        s.len()
    } else if is_word_char(s[j as int]) {
        word_run_end(s, j + 1)
    } else {
        j
    }
}

pub proof fn lemma_word_run_bounds(s: Seq<char>, j: nat)
    requires
        j <= s.len(),
    ensures
        j <= word_run_end(s, j) <= s.len(),
    decreases s.len() - j,
{
    if j < s.len() && is_word_char(s[j as int]) {
        lemma_word_run_bounds(s, j + 1);
    }
}

/// A position at the beginning of a line.
pub open spec fn is_line_start(s: Seq<char>, p: nat) -> bool {
    p == 0 || s[p as int - 1] == '\n'
}

/// A fence opens here: a line starting with three backticks, an optional
/// language tag of word characters, and a newline.
pub open spec fn fence_open_at(s: Seq<char>, p: nat) -> bool {
    &&& is_line_start(s, p)
    &&& p + 3 <= s.len()
    &&& s[p as int] == '`'
    &&& s[p as int + 1] == '`'
    &&& s[p as int + 2] == '`'
    &&& {
        let q = word_run_end(s, p + 3);
        q < s.len() && s[q as int] == '\n'
    }
}

/// A fence closes here: a line starting with three backticks.
pub open spec fn fence_close_at(s: Seq<char>, c: nat) -> bool {
    &&& is_line_start(s, c)
    &&& c + 3 <= s.len()
    &&& s[c as int] == '`'
    &&& s[c as int + 1] == '`'
    &&& s[c as int + 2] == '`'
}

/// First fence opening at or after `p`, or `s.len()`.
pub open spec fn find_open(s: Seq<char>, p: nat) -> nat
    decreases s.len() - p,
{
    if p >= s.len() {
        s.len()
    } else if fence_open_at(s, p) {
        p
    } else {
        find_open(s, p + 1)
    }
}

pub proof fn lemma_find_open_bounds(s: Seq<char>, p: nat)
    requires
        p <= s.len(),
    ensures
        p <= find_open(s, p) <= s.len(),
        find_open(s, p) < s.len() ==> fence_open_at(s, find_open(s, p)),
    decreases s.len() - p,
{
    if p < s.len() && !fence_open_at(s, p) {
        lemma_find_open_bounds(s, p + 1);
    }
}

/// First fence closing at or after `b`, or `s.len()`.
pub open spec fn find_close(s: Seq<char>, b: nat) -> nat
    decreases s.len() - b,
{
    if b >= s.len() {
        s.len()
    } else if fence_close_at(s, b) {
        b
    } else {
        find_close(s, b + 1)
    }
}

pub proof fn lemma_find_close_bounds(s: Seq<char>, b: nat)
    requires
        b <= s.len(),
    ensures
        b <= find_close(s, b) <= s.len(),
        find_close(s, b) < s.len() ==> fence_close_at(s, find_close(s, b)),
    decreases s.len() - b,
{
    if b < s.len() && !fence_close_at(s, b) {
        lemma_find_close_bounds(s, b + 1);
    }
}

/// The language tag used for lookup: a missing tag falls back to plain text.
pub open spec fn lang_or_txt(lang: Seq<char>) -> Seq<char> {
    if lang.len() == 0 {
        seq!['t', 'x', 't']
    } else {
        lang
    }
}

/// The SGR reset that closes every highlighted code block.
pub open spec fn reset_seq() -> Seq<char> {
    seq!['\x1b', '[', '0', 'm']
}

/// The view of a rendered code block: a leading newline, the highlighted
/// pre-wrapped code, and an SGR reset.
pub open spec fn code_view(lang: Seq<char>, body: Seq<char>, width: nat) -> Seq<char> {
    seq!['\n'] + highlighted_of(lang_or_txt(lang), wrap_code_spec(body, width)) + reset_seq()
}

/// The segments of a document, scanning for fenced code from `p`: prose
/// between fences stays text; a fence without a closing line consumes the
/// rest of the document as code.
pub open spec fn fence_scan(s: Seq<char>, p: nat, width: nat) -> Seq<SegView>
    decreases s.len() - p,
    via fence_scan_decreases
{
    let o = find_open(s, p);
    if o >= s.len() {
        if p < s.len() {
            seq![SegView::Text(s.subrange(p as int, s.len() as int))]
        } else {
            seq![]
        }
    } else {
        let q = word_run_end(s, o + 3);
        let lang = s.subrange(o as int + 3, q as int);
        let b = q + 1;
        let c = find_close(s, b);
        let body = s.subrange(b as int, c as int);
        let e = if c >= s.len() {
            s.len()
        } else {
            c + 3
        };
        let head = if o > p {
            seq![SegView::Text(s.subrange(p as int, o as int))]
        } else {
            seq![]
        };
        head + seq![SegView::Code(code_view(lang, body, width))] + fence_scan(s, e, width)
    }
}

#[via_fn]
proof fn fence_scan_decreases(s: Seq<char>, p: nat, width: nat) {
    if p <= s.len() {
        lemma_find_open_bounds(s, p);
        let o = find_open(s, p);
        if o < s.len() {
            lemma_word_run_bounds(s, o + 3);
            let q = word_run_end(s, o + 3);
            lemma_find_close_bounds(s, q + 1);
        }
    }
}

/// The segment views of a whole document.
pub open spec fn segments_spec(s: Seq<char>, width: nat) -> Seq<SegView> {
    fence_scan(s, 0, width)
}

/// The width prose is fitted at: never below the bound the skin's fitting
/// needs, so pathological list indents cannot outgrow it.
pub open spec fn text_fit_width(width: nat) -> nat {
    if width < 16 {
        16
    } else {
        width
    }
}

/// The concatenation of the rendered segments: prose goes through the skin,
/// code blocks are already final.
pub open spec fn cat_segs(views: Seq<SegView>, width: nat, dim: bool) -> Seq<char>
    decreases views.len(),
{
    if views.len() == 0 {
        Seq::<char>::empty()
    } else {
        let piece = match views.first() {
            SegView::Text(t) => styled_text_of(t, width, dim),
            SegView::Code(c) => c,
        };
        piece + cat_segs(views.drop_first(), width, dim)
    }
}

/// The trimmed lines joined by single newlines, without a trailing newline.
pub open spec fn trim_join_nl(ls: Seq<Seq<char>>) -> Seq<char> {
    if ls.len() == 0 {
        Seq::<char>::empty()
    } else {
        rtrim_spec(ls.first()) + trim_join_pre(ls.drop_first())
    }
}

/// The trimmed lines, each preceded by a newline.
pub open spec fn trim_join_pre(ls: Seq<Seq<char>>) -> Seq<char>
    decreases ls.len(),
{
    if ls.len() == 0 {
        Seq::<char>::empty()
    } else {
        seq!['\n'] + rtrim_spec(ls.first()) + trim_join_pre(ls.drop_first())
    }
}

/// Every line trimmed of trailing visible whitespace, joined back together.
pub open spec fn trim_lines_spec(s: Seq<char>) -> Seq<char> {
    trim_join_nl(split_lines(s))
}

/// The full rendering pipeline on a document: prose is fitted at the width
/// (lifted to the skin's minimum), code is pre-wrapped at the width itself,
/// and the whole result is trimmed per line and wrapped at the width.
pub open spec fn render_spec(content: Seq<char>, width: nat, dim: bool) -> Seq<char> {
    wrap_ansi_spec(
        trim_lines_spec(cat_segs(segments_spec(content, width), text_fit_width(width), dim)),
        width,
    )
}

/// Rendering is a function of the content, the width and the attribute
/// alone: two calls with identical arguments yield identical output.
pub proof fn lemma_render_idempotent(c1: Seq<char>, c2: Seq<char>, width: nat, dim: bool)
    requires
        c1 == c2,
    ensures
        render_spec(c1, width, dim) == render_spec(c2, width, dim),
{
}

/// Turns markdown into styled terminal output: fenced code is colored by the
/// highlighter, prose by the skin; the result is trimmed per line and
/// wrapped at the width.
pub struct MarkdownRenderer {
    pub width: usize,
    pub height: usize,
}

impl MarkdownRenderer {
    /// A renderer for the given terminal width and height.
    pub fn new(width: usize, height: usize) -> (r: Self)
        ensures
            r.width == width,
            r.height == height,
    {
        MarkdownRenderer { width, height }
    }

    /// Splits `text` into prose and fenced-code segments; code segments come
    /// back highlighted, pre-wrapped, and closed by an SGR reset. A fence
    /// with no closing line takes the rest of the input as code.
    pub fn render_markdown(&self, text: &str) -> (segs: Vec<Segment>)
        ensures
            segs@.map_values(|g: Segment| g@) == segments_spec(text@, self.width as nat),
    {
        let cs = str_chars(text);
        let n = cs.len();
        let mut segs: Vec<Segment> = Vec::new();
        let mut p: usize = 0;
        let ghost total = segments_spec(text@, self.width as nat);
        proof {
            assert(segs@.map_values(|g: Segment| g@) =~= Seq::<SegView>::empty());
        }
        while p < n
            invariant
                p <= n == cs@.len(),
                cs@ == text@,
                total == segments_spec(text@, self.width as nat),
                total == segs@.map_values(|g: Segment| g@) + fence_scan(
                    cs@,
                    p as nat,
                    self.width as nat,
                ),
            decreases n - p,
        {
            let ghost width = self.width as nat;
            // scan for the next fence opening
            let scan = self.find_open_exec(&cs, p);
            let o = scan.0;
            let q_found = scan.1;
            if o >= n {
                proof {
                    assert(fence_scan(cs@, p as nat, width) == seq![
                        SegView::Text(cs@.subrange(p as int, n as int)),
                    ]);
                }
                let t = sub_string(&cs, p, n);
                segs.push(Segment::Text(t));
                proof {
                    lemma_map_push(segs@, |g: Segment| g@);
                    assert(segs@.map_values(|g: Segment| g@) + fence_scan(cs@, n as nat, width)
                        =~= total);
                }
                p = n;
            } else {
                let q = q_found;
                let b = q + 1;
                // scan for the closing fence
                let mut c = b;
                while c < n && !(
                    (c == 0 || cs[c - 1] == '\n')
                    && n - c >= 3
                    && cs[c] == '`' && cs[c + 1] == '`' && cs[c + 2] == '`'
                )
                    invariant
                        b <= c <= n == cs@.len(),
                        find_close(cs@, b as nat) == find_close(cs@, c as nat),
                    decreases n - c,
                {
                    proof {
                        assert(!fence_close_at(cs@, c as nat));
                    }
                    c = c + 1;
                }
                proof {
                    if c < n {
                        assert(fence_close_at(cs@, c as nat));
                        assert(find_close(cs@, c as nat) == c);
                    }
                    assert(find_close(cs@, b as nat) == c);
                }
                if o > p {
                    let t = sub_string(&cs, p, o);
                    segs.push(Segment::Text(t));
                    proof {
                        lemma_map_push(segs@, |g: Segment| g@);
                    }
                }
                let lang_s = if q == o + 3 {
                    let mut lv: Vec<char> = Vec::new();
                    lv.push('t');
                    lv.push('x');
                    lv.push('t');
                    let r = chars_to_string(&lv);
                    proof {
                        assert(r@ =~= lang_or_txt(cs@.subrange(o as int + 3, q as int)));
                    }
                    r
                } else {
                    let r = sub_string(&cs, o + 3, q);
                    proof {
                        assert(r@ == lang_or_txt(cs@.subrange(o as int + 3, q as int)));
                    }
                    r
                };
                let body = sub_string(&cs, b, c);
                let wrapped = wrap_code_simple(body.as_str(), self.width);
                let colored = highlight_code(lang_s.as_str(), wrapped.as_str());
                let hc = str_chars(colored.as_str());
                let mut cv: Vec<char> = Vec::new();
                cv.push('\n');
                push_range(&mut cv, &hc, 0, hc.len());
                cv.push('\x1b');
                cv.push('[');
                cv.push('0');
                cv.push('m');
                proof {
                    assert(hc@.subrange(0, hc@.len() as int) =~= hc@);
                    assert(cv@ =~= code_view(
                        cs@.subrange(o as int + 3, q as int),
                        cs@.subrange(b as int, c as int),
                        width,
                    ));
                }
                let code_str = chars_to_string(&cv);
                segs.push(Segment::Code(code_str));
                proof {
                    lemma_map_push(segs@, |g: Segment| g@);
                }
                let e = if c < n {
                    c + 3
                } else {
                    n
                };
                proof {
                    assert(segs@.map_values(|g: Segment| g@) + fence_scan(cs@, e as nat, width)
                        =~= total);
                }
                p = e;
            }
        }
        proof {
            assert(fence_scan(cs@, p as nat, self.width as nat) =~= Seq::<SegView>::empty());
            assert(segs@.map_values(|g: Segment| g@) =~= total);
        }
        segs
    }

    /// Finds the next fence opening at or after `p`: returns its position
    /// (or the length when there is none) and the end of its language tag.
    fn find_open_exec(&self, cs: &Vec<char>, p: usize) -> (r: (usize, usize))
        requires
            p <= cs@.len(),
        ensures
            r.0 as nat == find_open(cs@, p as nat),
            p <= r.0 <= cs@.len(),
            r.0 < cs@.len() ==> fence_open_at(cs@, r.0 as nat) && r.1 as nat == word_run_end(
                cs@,
                r.0 as nat + 3,
            ) && r.0 + 3 <= r.1 && r.1 < cs@.len(),
    {
        let n = cs.len();
        let mut o = p;
        while o < n
            invariant
                p <= o <= n == cs@.len(),
                find_open(cs@, p as nat) == find_open(cs@, o as nat),
            decreases n - o,
        {
            match self.open_q(cs, o) {
                Some(q) => {
                    proof {
                        assert(find_open(cs@, o as nat) == o);
                    }
                    return (o, q);
                },
                None => {
                    o = o + 1;
                },
            }
        }
        (n, 0)
    }

    /// Checks for a fence opening at `o`: on success returns the end of the
    /// language-tag run, whose following character is the opening newline.
    fn open_q(&self, cs: &Vec<char>, o: usize) -> (r: Option<usize>)
        requires
            o < cs@.len(),
        ensures
            match r {
                Some(q) => fence_open_at(cs@, o as nat) && q as nat == word_run_end(
                    cs@,
                    o as nat + 3,
                ) && o + 3 <= q && q < cs@.len(),
                None => !fence_open_at(cs@, o as nat),
            },
    {
        let n = cs.len();
        if !(o == 0 || cs[o - 1] == '\n') {
            return None;
        }
        if n - o < 3 || cs[o] != '`' || cs[o + 1] != '`' || cs[o + 2] != '`' {
            return None;
        }
        let mut q = o + 3;
        while q < n && is_word_char_exec(cs[q])
            invariant
                o + 3 <= q <= n == cs@.len(),
                word_run_end(cs@, o as nat + 3) == word_run_end(cs@, q as nat),
            decreases n - q,
        {
            q = q + 1;
        }
        proof {
            assert(word_run_end(cs@, q as nat) == q);
        }
        if q < n && cs[q] == '\n' {
            Some(q)
        } else {
            None
        }
    }

    /// Renders markdown to a terminal string: segments are rendered and
    /// concatenated, every line is trimmed of trailing visible whitespace,
    /// and the whole output is wrapped at the width.
    pub fn render(&self, content: &str, attr: Option<StyleAttr>) -> (r: String)
        ensures
            r@ == render_spec(content@, self.width as nat, attr is Some),
    {
        let dim = match attr {
            Some(StyleAttr::Dim) => true,
            None => false,
        };
        let segs = self.render_markdown(content);
        let fit: usize = if self.width < 16 {
            16
        } else {
            self.width
        };
        let ghost views = segments_spec(content@, self.width as nat);
        let mut result: Vec<char> = Vec::new();
        let n = segs.len();
        let mut i: usize = 0;
        proof {
            assert(segs@.map_values(|g: Segment| g@).skip(0) =~= segs@.map_values(
                |g: Segment| g@,
            ));
        }
        while i < n
            invariant
                i <= n == segs@.len(),
                fit as nat == text_fit_width(self.width as nat),
                fit >= 16,
                segs@.map_values(|g: Segment| g@) == views,
                cat_segs(views, fit as nat, dim) == result@ + cat_segs(
                    views.skip(i as int),
                    fit as nat,
                    dim,
                ),
            decreases n - i,
        {
            proof {
                assert(views.skip(i as int).first() == views[i as int]);
                assert(views[i as int] == segs@.map_values(|g: Segment| g@)[i as int]);
                assert(views.skip(i as int).drop_first() =~= views.skip(i as int + 1));
            }
            let piece: String = match &segs[i] {
                Segment::Text(t) => styled_text(t.as_str(), fit, dim),
                Segment::Code(code) => {
                    let copy = sub_copy(code);
                    copy
                },
            };
            let pc = str_chars(piece.as_str());
            push_range(&mut result, &pc, 0, pc.len());
            proof {
                assert(pc@.subrange(0, pc@.len() as int) =~= pc@);
            }
            i = i + 1;
        }
        proof {
            assert(cat_segs(views.skip(n as int), fit as nat, dim) =~= Seq::<char>::empty());
            assert(result@ =~= cat_segs(views, fit as nat, dim));
        }
        let flat = chars_to_string(&result);
        let cleaned = trim_lines(flat.as_str());
        wrap_ansi_simple(cleaned.as_str(), self.width)
    }
}

/// A fresh copy of a string.
fn sub_copy(s: &String) -> (r: String)
    ensures
        r@ == s@,
{
    let cs = str_chars(s.as_str());
    chars_to_string(&cs)
}

fn is_word_char_exec(c: char) -> (r: bool)
    ensures
        r == is_word_char(c),
{
    ('a' <= c && c <= 'z') || ('A' <= c && c <= 'Z') || ('0' <= c && c <= '9') || c == '_'
}

proof fn lemma_map_push(v: Seq<Segment>, f: spec_fn(Segment) -> SegView)
    requires
        v.len() > 0,
    ensures
        v.map_values(f) == v.drop_last().map_values(f) + seq![f(v.last())],
{
    assert(v.map_values(f) =~= v.drop_last().map_values(f) + seq![f(v.last())]);
}

/// Trims every line of trailing visible whitespace and joins the lines with
/// single newlines.
pub fn trim_lines(s: &str) -> (r: String)
    ensures
        r@ == trim_lines_spec(s@),
{
    let cs = str_chars(s);
    let n = cs.len();
    let mut out: Vec<char> = Vec::new();
    let mut pos: usize = 0;
    let mut first = true;
    proof {
        assert(cs@.subrange(0, n as int) =~= cs@);
    }
    while pos < n
        invariant
            pos <= n == cs@.len(),
            trim_lines_spec(cs@) == out@ + (if first {
                trim_join_nl(split_lines(cs@.subrange(pos as int, n as int)))
            } else {
                trim_join_pre(split_lines(cs@.subrange(pos as int, n as int)))
            }),
        decreases n - pos,
    {
        let ghost rest = cs@.subrange(pos as int, n as int);
        let mut i = pos;
        while i < n && cs[i] != '\n'
            invariant
                pos <= i <= n == cs@.len(),
                first_char_from(rest, 0, '\n') == first_char_from(rest, (i - pos) as nat, '\n'),
                rest == cs@.subrange(pos as int, n as int),
            decreases n - i,
        {
            i = i + 1;
        }
        let e = if i < n && i > pos && cs[i - 1] == '\r' {
            i - 1
        } else {
            i
        };
        proof {
            if i < n {
                assert(rest[i - pos as int] == '\n');
                assert(first_char_from(rest, (i - pos) as nat, '\n') == i - pos);
                assert(strip_cr(rest.subrange(0, i - pos as int)) =~= cs@.subrange(
                    pos as int,
                    e as int,
                ));
            } else {
                assert(first_char_from(rest, (i - pos) as nat, '\n') == rest.len());
                assert(rest =~= cs@.subrange(pos as int, e as int));
            }
        }
        let line = sub_string(&cs, pos, e);
        let trimmed = rtrim_visible_preserve_sgr(line.as_str());
        if !first {
            out.push('\n');
        }
        let tc = str_chars(trimmed.as_str());
        push_range(&mut out, &tc, 0, tc.len());
        proof {
            assert(tc@.subrange(0, tc@.len() as int) =~= tc@);
            let ls = split_lines(rest);
            if i < n {
                assert(ls == seq![strip_cr(rest.subrange(0, i - pos as int))] + split_lines(
                    rest.subrange(i - pos as int + 1, rest.len() as int),
                ));
                assert(rest.subrange(i - pos as int + 1, rest.len() as int) =~= cs@.subrange(
                    i as int + 1,
                    n as int,
                ));
                assert(ls.first() == cs@.subrange(pos as int, e as int));
                assert(ls.drop_first() =~= split_lines(cs@.subrange(i as int + 1, n as int)));
            } else {
                assert(ls == seq![rest]);
                assert(ls.first() == cs@.subrange(pos as int, e as int));
                assert(ls.drop_first() =~= Seq::<Seq<char>>::empty());
                assert(cs@.subrange(n as int, n as int) =~= Seq::<char>::empty());
                assert(split_lines(cs@.subrange(n as int, n as int)) =~= Seq::<Seq<char>>::empty());
            }
        }
        first = false;
        pos = if i < n {
            i + 1
        } else {
            n
        };
    }
    proof {
        assert(cs@.subrange(pos as int, n as int) =~= Seq::<char>::empty());
        if first {
            assert(out@ =~= trim_lines_spec(cs@));
        } else {
            assert(out@ =~= trim_lines_spec(cs@));
        }
    }
    chars_to_string(&out)
}

} // verus!
