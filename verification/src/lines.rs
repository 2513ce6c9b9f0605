//! Lines of output: spans of text in palette colours, their painting, and
//! word wrapping to the terminal width.
use vstd::prelude::*;

use crate::text::{
    byte_len, joined, push_char, split_words, utf8_len, words, words_from, concat2, owned,
};
use crate::themes::{paint, paint_outcome, ColorsModel, ThemeColors};

verus! {

/// A piece of a line as plain values: its text and its palette colour name
/// (a name that is no palette colour, such as the empty one, leaves it plain).
pub type SpanModel = (Seq<char>, Seq<char>);

/// A line as plain values.
pub struct LineModel {
    pub spans: Seq<SpanModel>,
    /// Whether the line is wrapped to the terminal width when printed.
    pub wrap: bool,
}

/// A piece of a line and the palette colour it is painted in.
pub struct Span {
    pub text: String,
    pub color: String,
}

impl View for Span {
    type V = SpanModel;

    open spec fn view(&self) -> SpanModel {
        (self.text@, self.color@)
    }
}

/// A line of output before painting.
pub struct Line {
    pub spans: Vec<Span>,
    pub wrap: bool,
}

impl View for Line {
    type V = LineModel;

    open spec fn view(&self) -> LineModel {
        LineModel { spans: self.spans@.map_values(|s: Span| s@), wrap: self.wrap }
    }
}

/// The views of a sequence of lines.
pub open spec fn line_models(ls: Seq<Line>) -> Seq<LineModel> {
    ls.map_values(|l: Line| l@)
}

/// The views of a sequence of strings.
pub open spec fn string_models(ss: Seq<String>) -> Seq<Seq<char>> {
    ss.map_values(|s: String| s@)
}

/// The unpainted text of a line.
pub open spec fn plain(spans: Seq<SpanModel>) -> Seq<char> {
    joined(spans.map_values(|s: SpanModel| s.0))
}

/// `r` is a painting of `spans`: each span painted on its own (see
/// [`paint_outcome`]), the results concatenated.
pub open spec fn rendered(spans: Seq<SpanModel>, no_color: bool, r: Seq<char>) -> bool {
    exists|pieces: Seq<Seq<char>>|
        #![trigger joined(pieces)]
        pieces.len() == spans.len() && (forall|i: int|
            0 <= i < spans.len() ==> paint_outcome(
                spans[i].0,
                spans[i].1,
                no_color,
                #[trigger] pieces[i],
            )) && r == joined(pieces)
}

/// The words of `ws` (from index 0) laid out greedily in lines: a word goes
/// on the current line, after a space, unless the line is not empty and the
/// line, the space and the word together take more than `width` bytes.
pub open spec fn wrap_from(ws: Seq<Seq<char>>, width: nat, cur: Seq<char>) -> Seq<Seq<char>>
    decreases ws.len(),
{
    if ws.len() == 0 {
        if cur.len() == 0 {
            seq![]
        } else {
            seq![cur]
        }
    } else if cur.len() != 0 && byte_len(cur) + byte_len(ws[0]) + 1 > width {
        seq![cur] + wrap_from(ws.drop_first(), width, ws[0])
    } else if cur.len() != 0 {
        wrap_from(ws.drop_first(), width, cur + seq![' '] + ws[0])
    } else {
        wrap_from(ws.drop_first(), width, ws[0])
    }
}

/// The lines printed for `text` on a terminal `width` bytes wide (if the width
/// is known): the text itself when it fits or the width is unknown, else
/// its words wrapped greedily.
pub open spec fn wrapped_lines(text: Seq<char>, width: Option<usize>) -> Seq<Seq<char>> {
    match width {
        Some(w) => if byte_len(text) > w {
            wrap_from(words(text), w as nat, seq![])
        } else {
            seq![text]
        },
        None => seq![text],
    }
}

/// The printed lines for `lines` whose paintings are `renders`.
pub open spec fn lines_out(lines: Seq<LineModel>, renders: Seq<Seq<char>>, width: Option<usize>) -> Seq<
    Seq<char>,
>
    decreases lines.len(),
{
    if lines.len() == 0 || renders.len() == 0 {
        seq![]
    } else {
        lines_out(lines.drop_last(), renders.drop_last(), width) + if lines.last().wrap {
            wrapped_lines(renders.last(), width)
        } else {
            seq![renders.last()]
        }
    }
}

/// `out` is what is printed for `lines`: each line painted (see [`rendered`]),
/// then wrapped where the line asks for it.
pub open spec fn output_of(
    lines: Seq<LineModel>,
    no_color: bool,
    width: Option<usize>,
    out: Seq<Seq<char>>,
) -> bool {
    exists|renders: Seq<Seq<char>>|
        #![trigger lines_out(lines, renders, width)]
        renders.len() == lines.len() && (forall|i: int|
            0 <= i < lines.len() ==> rendered(lines[i].spans, no_color, #[trigger] renders[i]))
            && out == lines_out(lines, renders, width)
}

/// Paints each span of `spans` and concatenates the results.
pub fn render(spans: &Vec<Span>, no_color: bool) -> (r: String)
    ensures
        rendered(spans@.map_values(|s: Span| s@), no_color, r@),
        no_color ==> r@ == plain(spans@.map_values(|s: Span| s@)),
{
    let ghost sm = spans@.map_values(|s: Span| s@);
    let mut r = String::new();
    let ghost mut pieces: Seq<Seq<char>> = Seq::empty();
    let n = spans.len();
    let mut i: usize = 0;
    while i < n
        invariant
            i <= n == spans@.len() == sm.len(),
            sm == spans@.map_values(|s: Span| s@),
            pieces.len() == i,
            forall|j: int|
                0 <= j < i ==> paint_outcome(sm[j].0, sm[j].1, no_color, #[trigger] pieces[j]),
            r@ == joined(pieces),
            no_color ==> r@ == joined(sm.map_values(|s: SpanModel| s.0).take(i as int)),
        decreases n - i,
    {
        let p = paint(spans[i].text.as_str(), spans[i].color.as_str(), no_color);
        assert(sm[i as int] == spans@[i as int]@);
        proof {
            let np = pieces.push(p@);
            assert(np.drop_last() =~= pieces);
            let texts = sm.map_values(|s: SpanModel| s.0);
            assert(texts.take(i + 1).drop_last() =~= texts.take(i as int));
            pieces = np;
        }
        r.append(p.as_str());
        i = i + 1;
    }
    assert(sm.map_values(|s: SpanModel| s.0).take(n as int) =~= sm.map_values(|s: SpanModel| s.0));
    r
}

proof fn lemma_wrap_step(ws: Seq<Seq<char>>, i: int, width: nat, cur: Seq<char>)
    requires
        0 <= i < ws.len(),
    ensures
        wrap_from(ws.skip(i), width, cur) == if cur.len() != 0 && byte_len(cur) + byte_len(ws[i])
            + 1 > width {
            seq![cur] + wrap_from(ws.skip(i + 1), width, ws[i])
        } else if cur.len() != 0 {
            wrap_from(ws.skip(i + 1), width, cur + seq![' '] + ws[i])
        } else {
            wrap_from(ws.skip(i + 1), width, ws[i])
        },
{
    assert(ws.skip(i).drop_first() =~= ws.skip(i + 1));
    assert(ws.skip(i)[0] == ws[i]);
}

/// The lines that `text` is printed as on a terminal `width` bytes wide
/// (see [`wrapped_lines`]).
pub fn wrap_text(text: &str, width: Option<usize>) -> (r: Vec<String>)
    ensures
        string_models(r@) == wrapped_lines(text@, width),
{
    let mut out: Vec<String> = Vec::new();
    match width {
        Some(w) => {
            if utf8_len(text) > w {
                let ws = split_words(text);
                let ghost wm = ws@.map_values(|x: String| x@);
                let n = ws.len();
                let mut cur = String::new();
                let mut i: usize = 0;
                assert(wm.skip(0) =~= wm);
                while i < n
                    invariant
                        i <= n == ws@.len() == wm.len(),
                        wm == ws@.map_values(|x: String| x@),
                        wrap_from(wm, w as nat, seq![]) == string_models(out@) + wrap_from(
                            wm.skip(i as int),
                            w as nat,
                            cur@,
                        ),
                    decreases n - i,
                {
                    proof {
                        lemma_wrap_step(wm, i as int, w as nat, cur@);
                    }
                    let word = &ws[i];
                    assert(word@ == wm[i as int]);
                    let cl = utf8_len(cur.as_str());
                    let wl = utf8_len(word.as_str());
                    let too_long = (cl as u128) + (wl as u128) + 1 > (w as u128);
                    let ghost old_cur = cur@;
                    let ghost before = string_models(out@);
                    if !cur.as_str().is_empty() && too_long {
                        out.push(cur);
                        assert(string_models(out@) =~= before.push(old_cur));
                        cur = String::new();
                        cur.append(word.as_str());
                        assert(cur@ =~= wm[i as int]);
                        assert(before + (seq![old_cur] + wrap_from(wm.skip(i + 1), w as nat, cur@))
                            =~= before.push(old_cur) + wrap_from(wm.skip(i + 1), w as nat, cur@));
                    } else if !cur.as_str().is_empty() {
                        push_char(&mut cur, ' ');
                        cur.append(word.as_str());
                        assert(cur@ =~= old_cur + seq![' '] + wm[i as int]);
                    } else {
                        cur.append(word.as_str());
                        assert(cur@ =~= wm[i as int]);
                    }
                    i = i + 1;
                }
                assert(wm.skip(n as int) =~= Seq::<Seq<char>>::empty());
                if !cur.as_str().is_empty() {
                    let ghost before = string_models(out@);
                    out.push(cur);
                    assert(string_models(out@) =~= before.push(out@[out@.len() - 1]@));
                } else {
                    assert(string_models(out@) + Seq::<Seq<char>>::empty() =~= string_models(
                        out@,
                    ));
                }
                return out;
            }
        },
        None => {},
    }
    let t = crate::text::owned(text);
    out.push(t);
    assert(string_models(out@) =~= seq![text@]);
    out
}

proof fn lemma_lines_out_push(
    lines: Seq<LineModel>,
    renders: Seq<Seq<char>>,
    l: LineModel,
    r: Seq<char>,
    width: Option<usize>,
)
    requires
        lines.len() == renders.len(),
    ensures
        lines_out(lines.push(l), renders.push(r), width) == lines_out(lines, renders, width) + if l.wrap {
            wrapped_lines(r, width)
        } else {
            seq![r]
        },
{
    assert(lines.push(l).drop_last() =~= lines);
    assert(renders.push(r).drop_last() =~= renders);
}

/// Paints every line of `lines` and wraps those that ask for it to a
/// terminal `width` bytes wide; the result is the text lines to print.
pub fn emit_lines(lines: &Vec<Line>, no_color: bool, width: Option<usize>) -> (r: Vec<String>)
    ensures
        output_of(line_models(lines@), no_color, width, string_models(r@)),
{
    let ghost lm = line_models(lines@);
    let mut out: Vec<String> = Vec::new();
    let ghost mut renders: Seq<Seq<char>> = Seq::empty();
    let n = lines.len();
    let mut i: usize = 0;
    assert(lines_out(lm.take(0), renders, width) =~= string_models(out@));
    while i < n
        invariant
            i <= n == lines@.len() == lm.len(),
            lm == line_models(lines@),
            renders.len() == i,
            forall|j: int| 0 <= j < i ==> rendered(lm[j].spans, no_color, #[trigger] renders[j]),
            string_models(out@) == lines_out(lm.take(i as int), renders, width),
        decreases n - i,
    {
        let line = &lines[i];
        assert(lm[i as int] == line@);
        let text = render(&line.spans, no_color);
        proof {
            lemma_lines_out_push(lm.take(i as int), renders, lm[i as int], text@, width);
            assert(lm.take(i + 1) =~= lm.take(i as int).push(lm[i as int]));
            renders = renders.push(text@);
        }
        if line.wrap {
            let parts = wrap_text(text.as_str(), width);
            let m = parts.len();
            let mut k: usize = 0;
            let ghost base = string_models(out@);
            while k < m
                invariant
                    k <= m == parts@.len(),
                    string_models(out@) == base + string_models(parts@).take(k as int),
                decreases m - k,
            {
                let ghost b = string_models(out@);
                out.push(crate::text::owned(parts[k].as_str()));
                assert(string_models(out@) =~= b.push(parts@[k as int]@));
                assert(string_models(parts@).take(k + 1) =~= string_models(parts@).take(
                    k as int,
                ).push(parts@[k as int]@));
                k = k + 1;
            }
            assert(string_models(parts@).take(m as int) =~= string_models(parts@));
        } else {
            let ghost b = string_models(out@);
            out.push(text);
            assert(string_models(out@) =~= b + seq![out@[out@.len() - 1]@]);
        }
        i = i + 1;
    }
    assert(lm.take(n as int) =~= lm);
    proof {
        output_witness(lm, no_color, width, renders, string_models(out@));
    }
    out
}

/// A witness for [`output_of`].
proof fn output_witness(
    lm: Seq<LineModel>,
    no_color: bool,
    width: Option<usize>,
    renders: Seq<Seq<char>>,
    out: Seq<Seq<char>>,
)
    requires
        renders.len() == lm.len(),
        forall|j: int| 0 <= j < lm.len() ==> rendered(lm[j].spans, no_color, #[trigger] renders[j]),
        out == lines_out(lm, renders, width),
    ensures
        output_of(lm, no_color, width, out),
{
}

// ---------------------------------------------------------------------------
// Building blocks of the reports

/// A span painted in a palette colour.
pub open spec fn colored(text: Seq<char>, color: Seq<char>) -> SpanModel {
    (text, color)
}

/// A span left plain.
pub open spec fn unpainted(text: Seq<char>) -> SpanModel {
    (text, Seq::empty())
}

/// An empty line.
pub open spec fn blank() -> LineModel {
    LineModel { spans: seq![], wrap: false }
}

/// A section title followed by a colon, in the label colour.
pub open spec fn header(title: Seq<char>, c: ColorsModel) -> LineModel {
    LineModel { spans: seq![colored(title + ":"@, c.info_label)], wrap: false }
}

/// An indented `label: value` line, the label in the label colour and the
/// value in `value_color`.
pub open spec fn info(label: Seq<char>, value: Seq<char>, value_color: Seq<char>, c: ColorsModel) -> LineModel {
    LineModel {
        spans: seq![
            unpainted("  "@),
            colored(label, c.info_label),
            unpainted(": "@),
            colored(value, value_color),
        ],
        wrap: false,
    }
}

/// A span painted in a palette colour.
pub fn colored_span(text: &str, color: &str) -> (s: Span)
    ensures
        s@ == colored(text@, color@),
{
    Span { text: owned(text), color: owned(color) }
}

/// A span left plain.
pub fn plain_span(text: &str) -> (s: Span)
    ensures
        s@ == unpainted(text@),
{
    Span { text: owned(text), color: String::new() }
}

/// An empty line.
pub fn blank_line() -> (l: Line)
    ensures
        l@ == blank(),
{
    let l = Line { spans: Vec::new(), wrap: false };
    assert(l@.spans =~= Seq::<SpanModel>::empty());
    l
}

/// A section title line.
pub fn header_line(title: &str, colors: &ThemeColors) -> (l: Line)
    ensures
        l@ == header(title@, colors@),
{
    let t = concat2(title, ":");
    let mut spans = Vec::new();
    spans.push(colored_span(t.as_str(), colors.info_label.as_str()));
    let l = Line { spans, wrap: false };
    assert(l@.spans =~= header(title@, colors@).spans);
    l
}

/// An indented `label: value` line.
pub fn info_line(label: &str, value: &str, value_color: &str, colors: &ThemeColors) -> (l: Line)
    ensures
        l@ == info(label@, value@, value_color@, colors@),
{
    let mut spans = Vec::new();
    spans.push(plain_span("  "));
    spans.push(colored_span(label, colors.info_label.as_str()));
    spans.push(plain_span(": "));
    spans.push(colored_span(value, value_color));
    let l = Line { spans, wrap: false };
    assert(l@.spans =~= info(label@, value@, value_color@, colors@).spans);
    l
}



// ---------------------------------------------------------------------------
// Laws

/// The plain texts of `lines`.
pub open spec fn plain_texts(lines: Seq<LineModel>) -> Seq<Seq<char>> {
    lines.map_values(|l: LineModel| plain(l.spans))
}

proof fn lemma_joined_eq(a: Seq<Seq<char>>, b: Seq<Seq<char>>)
    requires
        a.len() == b.len(),
        forall|i: int| 0 <= i < a.len() ==> a[i] == b[i],
    ensures
        joined(a) == joined(b),
{
    assert(a =~= b);
}

/// With colour off a line is painted as its plain text.
pub proof fn law_no_color_line_is_plain(spans: Seq<SpanModel>, r: Seq<char>)
    requires
        rendered(spans, true, r),
    ensures
        r == plain(spans),
{
    let pieces = choose|pieces: Seq<Seq<char>>|
        #![trigger joined(pieces)]
        pieces.len() == spans.len() && (forall|i: int|
            0 <= i < spans.len() ==> paint_outcome(
                spans[i].0,
                spans[i].1,
                true,
                #[trigger] pieces[i],
            )) && r == joined(pieces);
    let texts = spans.map_values(|s: SpanModel| s.0);
    assert forall|i: int| 0 <= i < pieces.len() implies pieces[i] == texts[i] by {
        assert(paint_outcome(spans[i].0, spans[i].1, true, pieces[i]));
    }
    lemma_joined_eq(pieces, texts);
}

/// With colour off, what is printed for a report is its plain text, wrapped
/// where the lines ask for it.
pub proof fn law_no_color_output_is_plain(
    lines: Seq<LineModel>,
    width: Option<usize>,
    out: Seq<Seq<char>>,
)
    requires
        output_of(lines, true, width, out),
    ensures
        out == lines_out(lines, plain_texts(lines), width),
{
    let renders = choose|renders: Seq<Seq<char>>|
        #![trigger lines_out(lines, renders, width)]
        renders.len() == lines.len() && (forall|i: int|
            0 <= i < lines.len() ==> rendered(lines[i].spans, true, #[trigger] renders[i]))
            && out == lines_out(lines, renders, width);
    assert forall|i: int| 0 <= i < renders.len() implies renders[i] == plain_texts(lines)[i] by {
        law_no_color_line_is_plain(lines[i].spans, renders[i]);
    }
    assert(renders =~= plain_texts(lines));
}

/// A text that fits the terminal, or printed where the width is unknown,
/// is printed as one line, unchanged.
pub proof fn law_fitting_text_is_one_line(text: Seq<char>, width: Option<usize>)
    requires
        width matches Some(w) ==> byte_len(text) <= w,
    ensures
        wrapped_lines(text, width) == seq![text],
{
}

/// `parts` with `sepr` between each two neighbours.
pub open spec fn joined_with(parts: Seq<Seq<char>>, sepr: Seq<char>) -> Seq<char>
    decreases parts.len(),
{
    if parts.len() == 0 {
        seq![]
    } else if parts.len() == 1 {
        parts[0]
    } else {
        joined_with(parts.drop_last(), sepr) + sepr + parts.last()
    }
}

pub(crate) proof fn lemma_joined_concat(x: Seq<Seq<char>>, y: Seq<Seq<char>>)
    ensures
        joined(x + y) == joined(x) + joined(y),
    decreases y.len(),
{
    if y.len() == 0 {
        assert(x + y =~= x);
        assert(joined(x) + joined(y) =~= joined(x));
    } else {
        lemma_joined_concat(x, y.drop_last());
        assert((x + y).drop_last() =~= x + y.drop_last());
        assert(joined(x) + (joined(y.drop_last()) + y.last()) =~= joined(x) + joined(
            y.drop_last(),
        ) + y.last());
    }
}

pub(crate) proof fn lemma_plain_concat(a: Seq<SpanModel>, b: Seq<SpanModel>)
    ensures
        plain(a + b) == plain(a) + plain(b),
{
    assert((a + b).map_values(|s: SpanModel| s.0) =~= a.map_values(|s: SpanModel| s.0)
        + b.map_values(|s: SpanModel| s.0));
    lemma_joined_concat(a.map_values(|s: SpanModel| s.0), b.map_values(|s: SpanModel| s.0));
}

pub(crate) proof fn lemma_plain_small(a: SpanModel, b: SpanModel)
    ensures
        plain(seq![a]) == a.0,
        plain(seq![a, b]) == a.0 + b.0,
        plain(Seq::<SpanModel>::empty()) == Seq::<char>::empty(),
{
    let e = Seq::<Seq<char>>::empty();
    assert(seq![a].map_values(|s: SpanModel| s.0) =~= seq![a.0]);
    assert(seq![a.0].drop_last() =~= e);
    assert(joined(e) == Seq::<char>::empty());
    assert(joined(seq![a.0]) == joined(e) + a.0);
    assert(Seq::<char>::empty() + a.0 =~= a.0);
    assert(seq![a, b].map_values(|s: SpanModel| s.0) =~= seq![a.0, b.0]);
    assert(seq![a.0, b.0].drop_last() =~= seq![a.0]);
    assert(joined(seq![a.0, b.0]) == joined(seq![a.0]) + b.0);
    assert(Seq::<SpanModel>::empty().map_values(|s: SpanModel| s.0) =~= e);
}

pub(crate) proof fn lemma_joined_with_push(parts: Seq<Seq<char>>, x: Seq<char>, sepr: Seq<char>)
    ensures
        joined_with(parts.push(x), sepr) == if parts.len() == 0 {
            x
        } else {
            joined_with(parts, sepr) + sepr + x
        },
{
    assert(parts.push(x).drop_last() =~= parts);
}

proof fn lemma_joined_with_prepend(x: Seq<char>, rest: Seq<Seq<char>>, sepr: Seq<char>)
    ensures
        joined_with(seq![x] + rest, sepr) == if rest.len() == 0 {
            x
        } else {
            x + sepr + joined_with(rest, sepr)
        },
    decreases rest.len(),
{
    assert(joined_with(seq![x], sepr) == seq![x][0]);
    if rest.len() == 0 {
        assert(seq![x] + rest =~= seq![x]);
    } else if rest.len() == 1 {
        assert((seq![x] + rest).drop_last() =~= seq![x]);
        assert((seq![x] + rest).len() == 2);
        assert((seq![x] + rest).last() == rest[0]);
        assert(joined_with(rest, sepr) == rest[0]);
    } else {
        assert(joined_with(rest, sepr) == joined_with(rest.drop_last(), sepr) + sepr + rest.last());
        lemma_joined_with_prepend(x, rest.drop_last(), sepr);
        assert((seq![x] + rest).drop_last() =~= seq![x] + rest.drop_last());
        assert((seq![x] + rest).last() == rest.last());
        assert(x + sepr + joined_with(rest.drop_last(), sepr) + sepr + rest.last() =~= x + sepr + (
        joined_with(rest.drop_last(), sepr) + sepr + rest.last()));
    }
}

proof fn lemma_wrap_nonempty(ws: Seq<Seq<char>>, width: nat, cur: Seq<char>)
    requires
        cur.len() > 0,
    ensures
        wrap_from(ws, width, cur).len() > 0,
    decreases ws.len(),
{
    if ws.len() > 0 {
        if byte_len(cur) + byte_len(ws[0]) + 1 > width {
        } else {
            lemma_wrap_nonempty(ws.drop_first(), width, cur + seq![' '] + ws[0]);
        }
    }
}

proof fn lemma_wrap_joined(ws: Seq<Seq<char>>, width: nat, cur: Seq<char>)
    requires
        forall|i: int| 0 <= i < ws.len() ==> (#[trigger] ws[i]).len() > 0,
    ensures
        joined_with(wrap_from(ws, width, cur), seq![' ']) == if cur.len() == 0 {
            joined_with(ws, seq![' '])
        } else if ws.len() == 0 {
            cur
        } else {
            cur + seq![' '] + joined_with(ws, seq![' '])
        },
    decreases ws.len(),
{
    let sp = seq![' '];
    if ws.len() == 0 {
        if cur.len() == 0 {
            assert(wrap_from(ws, width, cur) =~= Seq::<Seq<char>>::empty());
        } else {
            assert(wrap_from(ws, width, cur) == seq![cur]);
        }
    } else {
        let w = ws[0];
        let rest = ws.drop_first();
        assert(ws =~= seq![w] + rest);
        lemma_joined_with_prepend(w, rest, sp);
        assert forall|i: int| 0 <= i < rest.len() implies (#[trigger] rest[i]).len() > 0 by {
            assert(rest[i] == ws[i + 1]);
        }
        assert(w.len() > 0);
        if cur.len() != 0 && byte_len(cur) + byte_len(w) + 1 > width {
            lemma_wrap_joined(rest, width, w);
            lemma_wrap_nonempty(rest, width, w);
            let tail = wrap_from(rest, width, w);
            lemma_joined_with_prepend(cur, tail, sp);
            assert(wrap_from(ws, width, cur) == seq![cur] + tail);
            if rest.len() > 0 {
                assert(cur + sp + (w + sp + joined_with(rest, sp)) =~= cur + sp + (w + sp
                    + joined_with(rest, sp)));
            }
        } else if cur.len() != 0 {
            let next = cur + sp + w;
            lemma_wrap_joined(rest, width, next);
            if rest.len() > 0 {
                assert(next + sp + joined_with(rest, sp) =~= cur + sp + (w + sp + joined_with(
                    rest,
                    sp,
                )));
            }
        } else {
            lemma_wrap_joined(rest, width, w);
        }
    }
}

proof fn lemma_words_nonempty(s: Seq<char>, cur: Seq<char>, i: int)
    requires
        0 <= i < words_from(s, cur).len(),
    ensures
        words_from(s, cur)[i].len() > 0,
    decreases s.len(),
{
    let ws = words_from(s, cur);
    if s.len() == 0 {
        assert(ws == seq![cur]);
    } else if crate::text::is_space(s[0]) {
        if cur.len() == 0 {
            lemma_words_nonempty(s.drop_first(), cur, i);
        } else {
            let rest = words_from(s.drop_first(), seq![]);
            assert(ws == seq![cur] + rest);
            if i > 0 {
                assert(ws[i] == rest[i - 1]);
                lemma_words_nonempty(s.drop_first(), seq![], i - 1);
            }
        }
    } else {
        lemma_words_nonempty(s.drop_first(), cur.push(s[0]), i);
    }
}

/// Wrapping only moves line breaks: the printed lines, joined by single
/// spaces, are the words of the text joined by single spaces.
pub proof fn law_wrapping_keeps_words(text: Seq<char>, width: Option<usize>)
    requires
        width matches Some(w) && byte_len(text) > w,
    ensures
        joined_with(wrapped_lines(text, width), seq![' ']) == joined_with(words(text), seq![' ']),
{
    let ws = words(text);
    assert forall|i: int| 0 <= i < ws.len() implies (#[trigger] ws[i]).len() > 0 by {
        lemma_words_nonempty(text, seq![], i);
    }
    let w = width.unwrap();
    lemma_wrap_joined(ws, w as nat, seq![]);
}

/// The number of bytes in the UTF-8 encoding of `s`, as a mathematical number.
pub open spec fn encoded_len(s: Seq<char>) -> nat {
    vstd::utf8::encode_utf8(s).len()
}

proof fn lemma_encode_concat(a: Seq<char>, b: Seq<char>)
    ensures
        vstd::utf8::encode_utf8(a + b) == vstd::utf8::encode_utf8(a) + vstd::utf8::encode_utf8(b),
    decreases a.len(),
{
    if a.len() == 0 {
        assert(a + b =~= b);
        assert(vstd::utf8::encode_utf8(a) + vstd::utf8::encode_utf8(b) =~= vstd::utf8::encode_utf8(
            b,
        ));
    } else {
        lemma_encode_concat(a.drop_first(), b);
        assert((a + b)[0] == a[0]);
        assert((a + b).drop_first() =~= a.drop_first() + b);
        assert(vstd::utf8::encode_scalar(a[0] as u32) + (vstd::utf8::encode_utf8(a.drop_first())
            + vstd::utf8::encode_utf8(b)) =~= vstd::utf8::encode_scalar(a[0] as u32)
            + vstd::utf8::encode_utf8(a.drop_first()) + vstd::utf8::encode_utf8(b));
    }
}

proof fn lemma_encode_space()
    ensures
        encoded_len(seq![' ']) == 1,
{
    let s = seq![' '];
    assert(s[0] as u32 == 32);
    assert(s.drop_first() =~= Seq::<char>::empty());
    assert(vstd::utf8::encode_utf8(Seq::<char>::empty()) == Seq::<u8>::empty());
    assert(vstd::utf8::has_width_1_encoding(32));
    assert(vstd::utf8::encode_scalar(32).len() == 1);
}

proof fn lemma_words_bounded(s: Seq<char>, cur: Seq<char>, i: int)
    requires
        0 <= i < words_from(s, cur).len(),
    ensures
        encoded_len(words_from(s, cur)[i]) <= encoded_len(cur) + encoded_len(s),
    decreases s.len(),
{
    let ws = words_from(s, cur);
    if s.len() == 0 {
        assert(ws == seq![cur]);
    } else {
        lemma_encode_concat(seq![s[0]], s.drop_first());
        assert(seq![s[0]] + s.drop_first() =~= s);
        if crate::text::is_space(s[0]) {
            if cur.len() == 0 {
                lemma_words_bounded(s.drop_first(), cur, i);
            } else {
                let rest = words_from(s.drop_first(), seq![]);
                assert(ws == seq![cur] + rest);
                if i > 0 {
                    assert(ws[i] == rest[i - 1]);
                    lemma_words_bounded(s.drop_first(), seq![], i - 1);
                    assert(vstd::utf8::encode_utf8(Seq::<char>::empty()) == Seq::<u8>::empty());
                }
            }
        } else {
            lemma_words_bounded(s.drop_first(), cur.push(s[0]), i);
            assert(cur.push(s[0]) =~= cur + seq![s[0]]);
            lemma_encode_concat(cur, seq![s[0]]);
        }
    }
}

/// A line that fits in `width` bytes, or is one of the words `all`.
pub open spec fn fits_or_word(l: Seq<char>, width: nat, all: Seq<Seq<char>>) -> bool {
    encoded_len(l) <= width || all.contains(l)
}

proof fn lemma_wrap_fits(ws: Seq<Seq<char>>, width: nat, cur: Seq<char>, all: Seq<Seq<char>>, i: int)
    requires
        width <= usize::MAX,
        forall|j: int| 0 <= j < ws.len() ==> all.contains(#[trigger] ws[j]),
        forall|j: int| 0 <= j < ws.len() ==> encoded_len(#[trigger] ws[j]) <= usize::MAX,
        encoded_len(cur) <= usize::MAX,
        cur.len() == 0 || fits_or_word(cur, width, all),
        0 <= i < wrap_from(ws, width, cur).len(),
    ensures
        fits_or_word(wrap_from(ws, width, cur)[i], width, all),
    decreases ws.len(),
{
    let r = wrap_from(ws, width, cur);
    if ws.len() == 0 {
        assert(r == seq![cur]);
    } else {
        let w = ws[0];
        let rest = ws.drop_first();
        assert(all.contains(w));
        assert(encoded_len(w) <= usize::MAX);
        assert(forall|j: int| 0 <= j < rest.len() ==> #[trigger] rest[j] == ws[j + 1]);
        assert(byte_len(cur) == encoded_len(cur));
        assert(byte_len(w) == encoded_len(w));
        if cur.len() != 0 && byte_len(cur) + byte_len(w) + 1 > width {
            let tail = wrap_from(rest, width, w);
            assert(r == seq![cur] + tail);
            if i > 0 {
                assert(r[i] == tail[i - 1]);
                lemma_wrap_fits(rest, width, w, all, i - 1);
            }
        } else if cur.len() != 0 {
            let next = cur + seq![' '] + w;
            lemma_encode_concat(cur, seq![' ']);
            lemma_encode_concat(cur + seq![' '], w);
            lemma_encode_space();
            lemma_wrap_fits(rest, width, next, all, i);
        } else {
            lemma_wrap_fits(rest, width, w, all, i);
        }
    }
}

/// Every printed line fits the terminal width, except a single word that is
/// wider than the terminal on its own (for a text whose encoding, as for
/// any string in memory, fits in `usize`).
pub proof fn law_wrapped_lines_fit(text: Seq<char>, width: usize)
    requires
        encoded_len(text) <= usize::MAX,
    ensures
        forall|i: int|
            0 <= i < wrapped_lines(text, Some(width)).len() ==> fits_or_word(
                #[trigger] wrapped_lines(text, Some(width))[i],
                width as nat,
                words(text),
            ),
{
    let ws = words(text);
    assert(byte_len(text) == encoded_len(text));
    if byte_len(text) > width {
        assert forall|j: int| 0 <= j < ws.len() implies encoded_len(#[trigger] ws[j])
            <= usize::MAX by {
            lemma_words_bounded(text, seq![], j);
            assert(vstd::utf8::encode_utf8(Seq::<char>::empty()) == Seq::<u8>::empty());
        }
        assert(forall|j: int| 0 <= j < ws.len() ==> ws.contains(#[trigger] ws[j]));
        assert(vstd::utf8::encode_utf8(Seq::<char>::empty()) == Seq::<u8>::empty());
        assert forall|i: int| 0 <= i < wrapped_lines(text, Some(width)).len() implies fits_or_word(
            #[trigger] wrapped_lines(text, Some(width))[i],
            width as nat,
            ws,
        ) by {
            lemma_wrap_fits(ws, width as nat, seq![], ws, i);
        }
    } else {
        assert(wrapped_lines(text, Some(width)) == seq![text]);
    }
}

} // verus!
