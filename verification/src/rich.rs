//! Text with a style: the runs of which a line of the screen is made, and how
//! a style is laid over a part of such a line.

use crate::text::{chars_of, text_of};
use vstd::prelude::*;
use vstd::string::StringExecFns;

verus! {

/// A colour of the terminal.
#[derive(Debug, Clone, Copy, PartialEq, Eq)]
pub enum Color {
    Reset,
    Black,
    Red,
    Green,
    Yellow,
    Blue,
    Magenta,
    Cyan,
    Gray,
    DarkGray,
    LightRed,
    LightGreen,
    LightYellow,
    LightBlue,
    LightMagenta,
    LightCyan,
    White,
    Rgb(u8, u8, u8),
    Indexed(u8),
}

/// How a run of text is shown. A colour that is `None` leaves the colour as
/// it is; the two sets of modifiers, as bits, are those to switch on and
/// those to switch off.
#[derive(Debug, Clone, Copy, PartialEq, Eq)]
pub struct Style {
    pub fg: Option<Color>,
    pub bg: Option<Color>,
    pub add_modifier: u16,
    pub sub_modifier: u16,
}

impl Default for Style {
    /// The style that changes nothing.
    fn default() -> (r: Style)
        ensures
            r == Style::plain(),
    {
        Style { fg: None, bg: None, add_modifier: 0, sub_modifier: 0 }
    }
}

impl Style {
    /// The style that changes nothing.
    pub open spec fn plain() -> Style {
        Style { fg: None, bg: None, add_modifier: 0, sub_modifier: 0 }
    }

    /// The style that sets the foreground colour `color` and nothing else.
    pub open spec fn in_color(color: Color) -> Style {
        Style { fg: Some(color), bg: None, add_modifier: 0, sub_modifier: 0 }
    }

    /// `self` with what `over` sets laid over it: the colours that `over`
    /// has, and its modifiers to switch on, which are no longer switched off.
    pub open spec fn overlaid(self, over: Style) -> Style {
        Style {
            fg: if over.fg is Some {
                over.fg
            } else {
                self.fg
            },
            bg: if over.bg is Some {
                over.bg
            } else {
                self.bg
            },
            add_modifier: self.add_modifier | over.add_modifier,
            sub_modifier: self.sub_modifier & !over.add_modifier,
        }
    }

    /// The style that changes nothing.
    pub fn new() -> (r: Style)
        ensures
            r == Style::plain(),
    {
        Style { fg: None, bg: None, add_modifier: 0, sub_modifier: 0 }
    }

    /// The style with the foreground colour `color`.
    pub fn fg(self, color: Color) -> (r: Style)
        ensures
            r == (Style { fg: Some(color), ..self }),
    {
        Style { fg: Some(color), ..self }
    }

    /// The style with the background colour `color`.
    pub fn bg(self, color: Color) -> (r: Style)
        ensures
            r == (Style { bg: Some(color), ..self }),
    {
        Style { bg: Some(color), ..self }
    }

    /// The style that switches the modifiers `modifier` on, and no longer
    /// off.
    pub fn add_modifier(self, modifier: u16) -> (r: Style)
        ensures
            r == (Style {
                add_modifier: self.add_modifier | modifier,
                sub_modifier: self.sub_modifier & !modifier,
                ..self
            }),
    {
        Style {
            add_modifier: self.add_modifier | modifier,
            sub_modifier: self.sub_modifier & !modifier,
            ..self
        }
    }

    /// `self` with what `over` sets laid over it.
    pub fn overlay(self, over: Style) -> (r: Style)
        ensures
            r == self.overlaid(over),
    {
        let new_style = match over.fg {
            Some(fg) => self.fg(fg),
            None => self,
        };
        let new_style = match over.bg {
            Some(bg) => new_style.bg(bg),
            None => new_style,
        };
        let r = if over.add_modifier == 0 {
            new_style
        } else {
            new_style.add_modifier(over.add_modifier)
        };
        proof {
            let a = self.add_modifier;
            let s = self.sub_modifier;
            assert(a | 0u16 == a) by (bit_vector);
            assert(s & !0u16 == s) by (bit_vector);
        }
        r
    }
}

/// A run of text in one style, as plain values.
pub ghost struct RichTextView {
    pub text: Seq<char>,
    pub style: Style,
}

/// A run of text in one style.
#[derive(Debug)]
pub struct RichText {
    pub text: String,
    pub style: Style,
}

impl View for RichText {
    type V = RichTextView;

    open spec fn view(&self) -> RichTextView {
        RichTextView { text: self.text@, style: self.style }
    }
}

impl Clone for RichText {
    fn clone(&self) -> (r: Self)
        ensures
            r@ == self@,
    {
        RichText { text: self.text.clone(), style: self.style }
    }
}

/// The characters of `t` from `from` up to `to`, in the style of `t`.
pub open spec fn part(t: RichTextView, from: int, to: int) -> RichTextView {
    RichTextView { text: t.text.subrange(from, to), style: t.style }
}

/// `t` with `style` laid over its own.
pub open spec fn styled(t: RichTextView, style: Style) -> RichTextView {
    RichTextView { text: t.text, style: t.style.overlaid(style) }
}

impl RichText {
    /// The text `text` in the foreground colour `color`.
    pub fn new(text: String, color: Color) -> (r: Self)
        ensures
            r@ == (RichTextView { text: text@, style: Style::in_color(color) }),
    {
        let style = Style::new().fg(color);
        RichText { text, style }
    }

    /// The number of characters.
    pub fn len(&self) -> (n: usize)
        ensures
            n == self@.text.len(),
    {
        self.text.as_str().unicode_len()
    }

    /// The characters from `start` up to `end`, in the same style.
    pub fn subtext(&self, start: usize, end: usize) -> (r: Self)
        requires
            start <= end <= self@.text.len(),
        ensures
            r@ == part(self@, start as int, end as int),
    {
        let chars = chars_of(self.text.as_str());
        RichText { text: text_of(&chars, start, end), style: self.style }
    }

    /// The same text with `style` laid over its own style.
    pub fn restyled(&self, style: Style) -> (r: Self)
        ensures
            r@ == styled(self@, style),
    {
        RichText { text: self.text.clone(), style: self.style.overlay(style) }
    }

    /// The run cut in two before the character at `pos`.
    pub fn split_at(&self, pos: usize) -> (r: (Self, Self))
        requires
            pos <= self@.text.len(),
        ensures
            r.0@ == part(self@, 0, pos as int),
            r.1@ == part(self@, pos as int, self@.text.len() as int),
    {
        let chars = chars_of(self.text.as_str());
        let left = RichText { text: text_of(&chars, 0, pos), style: self.style };
        let right = RichText { text: text_of(&chars, pos, chars.len()), style: self.style };
        (left, right)
    }

    /// The run cut in three, before the characters at `pos0` and at `pos1`.
    pub fn split3_at(&self, pos0: usize, pos1: usize) -> (r: (Self, Self, Self))
        requires
            pos0 <= pos1 <= self@.text.len(),
        ensures
            r.0@ == part(self@, 0, pos0 as int),
            r.1@ == part(self@, pos0 as int, pos1 as int),
            r.2@ == part(self@, pos1 as int, self@.text.len() as int),
    {
        let chars = chars_of(self.text.as_str());
        let left = RichText { text: text_of(&chars, 0, pos0), style: self.style };
        let middle = RichText { text: text_of(&chars, pos0, pos1), style: self.style };
        let right = RichText { text: text_of(&chars, pos1, chars.len()), style: self.style };
        (left, middle, right)
    }
}

/// The views of a sequence of runs, one for one.
pub open spec fn runs(v: Seq<RichText>) -> Seq<RichTextView> {
    Seq::new(v.len(), |i: int| v[i]@)
}

/// The text of the runs of `ts`, one after the other.
pub open spec fn raw(ts: Seq<RichTextView>) -> Seq<char>
    decreases ts.len(),
{
    if ts.len() == 0 {
        Seq::empty()
    } else {
        raw(ts.drop_last()) + ts.last().text
    }
}

/// The runs of `ts` with `style` laid over the characters of the line from
/// `start` up to `end`, where the run in which `start` lies is yet to come.
///
/// That run is cut before `start`. Where `end` lies in it too, it is cut
/// again before `end`, and the middle of the three parts gets the style;
/// else the second of its two parts gets the style, and so do the runs that
/// follow, up to `end`.
pub open spec fn restyle_from(ts: Seq<RichTextView>, start: int, end: int, style: Style) -> Seq<
    RichTextView,
>
    decreases ts.len(),
{
    if ts.len() == 0 {
        ts
    } else {
        let t = ts[0];
        let n = t.text.len() as int;
        if n <= start {
            seq![t] + restyle_from(ts.drop_first(), start - n, end - n, style)
        } else if n >= end {
            seq![part(t, 0, start), styled(part(t, start, end), style), part(t, end, n)]
                + ts.drop_first()
        } else {
            seq![part(t, 0, start), styled(part(t, start, n), style)] + restyle_to(
                ts.drop_first(),
                end - n,
                style,
            )
        }
    }
}

/// The runs of `ts` with `style` laid over the characters of the line up to
/// `end`: whole runs get the style as long as they end before `end`; the run
/// in which `end` lies is cut before it, and its first part gets the style.
pub open spec fn restyle_to(ts: Seq<RichTextView>, end: int, style: Style) -> Seq<RichTextView>
    decreases ts.len(),
{
    if ts.len() == 0 {
        ts
    } else {
        let t = ts[0];
        let n = t.text.len() as int;
        if n >= end {
            seq![styled(part(t, 0, end), style), part(t, end, n)] + ts.drop_first()
        } else {
            seq![styled(t, style)] + restyle_to(ts.drop_first(), end - n, style)
        }
    }
}

/// A line of the screen: runs of text, one after the other.
#[derive(Debug)]
pub struct RichLine {
    pub texts: Vec<RichText>,
}

impl View for RichLine {
    type V = Seq<RichTextView>;

    open spec fn view(&self) -> Seq<RichTextView> {
        runs(self.texts@)
    }
}

/// Appending a run appends its view.
pub proof fn lemma_runs_push(v: Seq<RichText>, t: RichText)
    ensures
        runs(v.push(t)) == runs(v).push(t@),
{
    assert(runs(v.push(t)) =~= runs(v).push(t@));
}

impl Clone for RichLine {
    fn clone(&self) -> (r: Self)
        ensures
            r@ == self@,
    {
        let mut texts: Vec<RichText> = Vec::new();
        let mut i: usize = 0;
        while i < self.texts.len()
            invariant
                i <= self.texts.len(),
                runs(texts@) == self@.take(i as int),
            decreases self.texts.len() - i,
        {
            let t = self.texts[i].clone();
            proof {
                lemma_runs_push(texts@, t);
                assert(self@.take(i + 1) =~= self@.take(i as int).push(t@));
            }
            texts.push(t);
            i += 1;
        }
        proof {
            assert(self@.take(self.texts@.len() as int) =~= self@);
        }
        RichLine { texts }
    }
}

impl RichLine {
    /// The empty line.
    pub fn new() -> (r: Self)
        ensures
            r@ == Seq::<RichTextView>::empty(),
    {
        let r = RichLine { texts: Vec::new() };
        assert(r@ =~= Seq::<RichTextView>::empty());
        r
    }

    /// The line made of the runs `texts`.
    pub fn from_texts(texts: Vec<RichText>) -> (r: Self)
        ensures
            r@ == runs(texts@),
    {
        RichLine { texts }
    }

    /// The line made of one white run for each of `texts`.
    pub fn from_strings(texts: Vec<String>) -> (r: Self)
        ensures
            r@ == Seq::new(
                texts@.len(),
                |i: int|
                    RichTextView { text: texts@[i]@, style: Style::in_color(Color::White) },
            ),
    {
        let mut out: Vec<RichText> = Vec::new();
        let mut i: usize = 0;
        while i < texts.len()
            invariant
                i <= texts.len(),
                out@.len() == i,
                forall|j: int|
                    0 <= j < i ==> (#[trigger] out@[j])@ == (RichTextView {
                        text: texts@[j]@,
                        style: Style::in_color(Color::White),
                    }),
            decreases texts.len() - i,
        {
            out.push(RichText::new(texts[i].clone(), Color::White));
            i += 1;
        }
        let r = RichLine { texts: out };
        proof {
            assert(r@ =~= Seq::new(
                texts@.len(),
                |i: int|
                    RichTextView { text: texts@[i]@, style: Style::in_color(Color::White) },
            ));
        }
        r
    }

    /// Appends the run `text`.
    pub fn push(&mut self, text: RichText)
        ensures
            final(self)@ == old(self)@.push(text@),
    {
        proof {
            lemma_runs_push(self.texts@, text);
        }
        self.texts.push(text);
    }

    /// The runs, in order.
    pub fn iter_texts(&self) -> (r: Vec<&RichText>)
        ensures
            r@.len() == self@.len(),
            forall|i: int| 0 <= i < r@.len() ==> (#[trigger] r@[i])@ == self@[i],
    {
        let mut out: Vec<&RichText> = Vec::new();
        let mut i: usize = 0;
        while i < self.texts.len()
            invariant
                i <= self.texts.len(),
                out@.len() == i,
                forall|j: int| 0 <= j < i ==> (#[trigger] out@[j])@ == self@[j],
            decreases self.texts.len() - i,
        {
            out.push(&self.texts[i]);
            i += 1;
        }
        out
    }

    /// The text of the line without its styles.
    pub fn raw_text(&self) -> (r: String)
        ensures
            r@ == raw(self@),
    {
        let mut text = String::new();
        let mut i: usize = 0;
        proof {
            assert(self@.take(0) =~= Seq::<RichTextView>::empty());
        }
        while i < self.texts.len()
            invariant
                i <= self.texts.len(),
                text@ == raw(self@.take(i as int)),
            decreases self.texts.len() - i,
        {
            proof {
                assert(self@.take(i + 1).drop_last() =~= self@.take(i as int));
                assert(self@.take(i + 1).last() == self.texts@[i as int]@);
            }
            text.append(self.texts[i].text.as_str());
            i += 1;
        }
        proof {
            assert(self@.take(self.texts@.len() as int) =~= self@);
        }
        text
    }

    /// Appends copies of the runs of `other` to `out`.
    fn push_all(out: &mut Vec<RichText>, other: &Vec<RichText>, from: usize)
        requires
            from <= other@.len(),
        ensures
            runs(final(out)@) == runs(old(out)@) + runs(other@).skip(from as int),
    {
        let mut i: usize = from;
        proof {
            assert(runs(out@) =~= runs(old(out)@) + runs(other@).subrange(from as int, i as int));
        }
        while i < other.len()
            invariant
                from <= i <= other.len(),
                runs(out@) == runs(old(out)@) + runs(other@).subrange(from as int, i as int),
            decreases other.len() - i,
        {
            let t = other[i].clone();
            proof {
                lemma_runs_push(out@, t);
                assert(runs(other@).subrange(from as int, i + 1) =~= runs(other@).subrange(
                    from as int,
                    i as int,
                ).push(t@));
                assert((runs(old(out)@) + runs(other@).subrange(from as int, i as int)).push(t@)
                    =~= runs(old(out)@) + runs(other@).subrange(from as int, i + 1));
            }
            out.push(t);
            i += 1;
        }
        proof {
            assert(runs(other@).subrange(from as int, other@.len() as int) =~= runs(other@).skip(
                from as int,
            ));
        }
    }

    /// This line followed by `other`.
    pub fn join(&self, other: Self) -> (r: Self)
        ensures
            r@ == self@ + other@,
    {
        let mut texts: Vec<RichText> = Vec::new();
        Self::push_all(&mut texts, &self.texts, 0);
        Self::push_all(&mut texts, &other.texts, 0);
        proof {
            assert(runs(Seq::<RichText>::empty()) =~= Seq::<RichTextView>::empty());
            assert(self@.skip(0) =~= self@);
            assert(other@.skip(0) =~= other@);
            assert(Seq::<RichTextView>::empty() + self@ =~= self@);
        }
        RichLine { texts }
    }

    /// Appends the runs of `line`.
    pub fn extend(&mut self, line: Self)
        ensures
            final(self)@ == old(self)@ + line@,
    {
        Self::push_all(&mut self.texts, &line.texts, 0);
        proof {
            assert(line@.skip(0) =~= line@);
        }
    }

    /// The line with `style` laid over its characters from `start` up to
    /// `end`. The runs in which `start` and `end` lie are cut there; a range
    /// that begins behind the line changes nothing.
    pub fn restyled(&self, start: usize, end: usize, style: Style) -> (r: Self)
        requires
            start <= end,
        ensures
            r@ == restyle_from(self@, start as int, end as int, style),
    {
        let n = self.texts.len();
        let mut out: Vec<RichText> = Vec::new();
        let mut i: usize = 0;
        let mut s: usize = start;
        let mut e: usize = end;
        let ghost whole = restyle_from(self@, start as int, end as int, style);
        proof {
            assert(runs(out@) =~= Seq::<RichTextView>::empty());
            assert(self@.skip(0) =~= self@);
            assert(Seq::<RichTextView>::empty() + whole =~= whole);
        }
        // The runs that end before the range begins.
        while i < n && self.texts[i].len() <= s
            invariant
                i <= n,
                n == self.texts@.len(),
                s <= e,
                whole == runs(out@) + restyle_from(self@.skip(i as int), s as int, e as int, style),
            decreases n - i,
        {
            let t = self.texts[i].clone();
            let len = t.len();
            proof {
                let rest = self@.skip(i as int);
                assert(rest[0] == t@);
                assert(rest.drop_first() =~= self@.skip(i + 1));
                lemma_runs_push(out@, t);
                assert(runs(out@) + (seq![t@] + restyle_from(
                    self@.skip(i + 1),
                    s - len,
                    e - len,
                    style,
                )) =~= runs(out@).push(t@) + restyle_from(self@.skip(i + 1), s - len, e - len, style));
            }
            out.push(t);
            s -= len;
            e -= len;
            i += 1;
        }
        if i == n {
            proof {
                assert(self@.skip(n as int) =~= Seq::<RichTextView>::empty());
                assert(runs(out@) + Seq::<RichTextView>::empty() =~= runs(out@));
            }
            return RichLine { texts: out };
        }
        let len = self.texts[i].len();
        proof {
            let rest = self@.skip(i as int);
            assert(rest[0] == self.texts@[i as int]@);
            assert(rest.drop_first() =~= self@.skip(i + 1));
        }
        if len >= e {
            let (a, b, c) = self.texts[i].split3_at(s, e);
            let b = b.restyled(style);
            let ghost before = runs(out@);
            proof {
                lemma_runs_push(out@, a);
                lemma_runs_push(out@.push(a), b);
                lemma_runs_push(out@.push(a).push(b), c);
            }
            out.push(a);
            out.push(b);
            out.push(c);
            Self::push_all(&mut out, &self.texts, i + 1);
            proof {
                assert(runs(out@) =~= before + (seq![a@, b@, c@] + self@.skip(i + 1)));
            }
            return RichLine { texts: out };
        }
        let (a, b) = self.texts[i].split_at(s);
        let b = b.restyled(style);
        proof {
            lemma_runs_push(out@, a);
            lemma_runs_push(out@.push(a), b);
            assert(runs(out@) + (seq![a@, b@] + restyle_to(self@.skip(i + 1), e - len, style))
                =~= runs(out@).push(a@).push(b@) + restyle_to(self@.skip(i + 1), e - len, style));
        }
        out.push(a);
        out.push(b);
        e -= len;
        i += 1;
        // The runs that lie in the range as a whole.
        while i < n && self.texts[i].len() < e
            invariant
                i <= n,
                n == self.texts@.len(),
                whole == runs(out@) + restyle_to(self@.skip(i as int), e as int, style),
            decreases n - i,
        {
            let t = self.texts[i].restyled(style);
            let len = self.texts[i].len();
            proof {
                let rest = self@.skip(i as int);
                assert(rest[0] == self.texts@[i as int]@);
                assert(rest.drop_first() =~= self@.skip(i + 1));
                lemma_runs_push(out@, t);
                assert(runs(out@) + (seq![t@] + restyle_to(self@.skip(i + 1), e - len, style))
                    =~= runs(out@).push(t@) + restyle_to(self@.skip(i + 1), e - len, style));
            }
            out.push(t);
            e -= len;
            i += 1;
        }
        if i == n {
            proof {
                assert(self@.skip(n as int) =~= Seq::<RichTextView>::empty());
                assert(runs(out@) + Seq::<RichTextView>::empty() =~= runs(out@));
            }
            return RichLine { texts: out };
        }
        let (a, b) = self.texts[i].split_at(e);
        let a = a.restyled(style);
        let ghost before = runs(out@);
        proof {
            let rest = self@.skip(i as int);
            assert(rest[0] == self.texts@[i as int]@);
            assert(rest.drop_first() =~= self@.skip(i + 1));
            lemma_runs_push(out@, a);
            lemma_runs_push(out@.push(a), b);
        }
        out.push(a);
        out.push(b);
        Self::push_all(&mut out, &self.texts, i + 1);
        proof {
            assert(runs(out@) =~= before + (seq![a@, b@] + self@.skip(i + 1)));
        }
        RichLine { texts: out }
    }
}

/// The text of two lines, one after the other, is the text of the one
/// followed by the text of the other.
pub proof fn lemma_raw_concat(a: Seq<RichTextView>, b: Seq<RichTextView>)
    ensures
        raw(a + b) == raw(a) + raw(b),
    decreases b.len(),
{
    if b.len() == 0 {
        assert(a + b =~= a);
        assert(raw(a) + raw(b) =~= raw(a));
    } else {
        lemma_raw_concat(a, b.drop_last());
        assert((a + b).drop_last() =~= a + b.drop_last());
        assert((a + b).last() == b.last());
        assert(raw(a) + raw(b.drop_last()) + b.last().text =~= raw(a) + (raw(b.drop_last())
            + b.last().text));
    }
}

/// The text of a line of one run is the text of that run.
pub proof fn lemma_raw_one(t: RichTextView)
    ensures
        raw(seq![t]) == t.text,
{
    assert(seq![t].drop_last() =~= Seq::<RichTextView>::empty());
    assert(raw(seq![t].drop_last()) + t.text =~= t.text);
}

/// A new style up to some character leaves the text of the line as it is.
pub proof fn lemma_restyle_to_keeps_text(ts: Seq<RichTextView>, end: int, style: Style)
    requires
        0 <= end,
    ensures
        raw(restyle_to(ts, end, style)) == raw(ts),
    decreases ts.len(),
{
    if ts.len() > 0 {
        let t = ts[0];
        let n = t.text.len() as int;
        let rest = ts.drop_first();
        assert(ts =~= seq![t] + rest);
        lemma_raw_concat(seq![t], rest);
        lemma_raw_one(t);
        if n >= end {
            let a = styled(part(t, 0, end), style);
            let b = part(t, end, n);
            assert(seq![a, b] =~= seq![a] + seq![b]);
            lemma_raw_concat(seq![a, b], rest);
            lemma_raw_concat(seq![a], seq![b]);
            lemma_raw_one(a);
            lemma_raw_one(b);
            assert(a.text + b.text =~= t.text);
        } else {
            let a = styled(t, style);
            lemma_restyle_to_keeps_text(rest, end - n, style);
            lemma_raw_concat(seq![a], restyle_to(rest, end - n, style));
            lemma_raw_one(a);
        }
    }
}

/// A new style leaves the text of the line as it is: whatever the range and
/// the style, `restyled` changes how the line looks and not what it says.
pub proof fn law_restyle_keeps_text(ts: Seq<RichTextView>, start: int, end: int, style: Style)
    requires
        0 <= start <= end,
    ensures
        raw(restyle_from(ts, start, end, style)) == raw(ts),
    decreases ts.len(),
{
    if ts.len() > 0 {
        let t = ts[0];
        let n = t.text.len() as int;
        let rest = ts.drop_first();
        assert(ts =~= seq![t] + rest);
        lemma_raw_concat(seq![t], rest);
        lemma_raw_one(t);
        if n <= start {
            law_restyle_keeps_text(rest, start - n, end - n, style);
            lemma_raw_concat(seq![t], restyle_from(rest, start - n, end - n, style));
        } else if n >= end {
            let a = part(t, 0, start);
            let b = styled(part(t, start, end), style);
            let c = part(t, end, n);
            assert(seq![a, b, c] =~= seq![a] + seq![b] + seq![c]);
            lemma_raw_concat(seq![a, b, c], rest);
            lemma_raw_concat(seq![a] + seq![b], seq![c]);
            lemma_raw_concat(seq![a], seq![b]);
            lemma_raw_one(a);
            lemma_raw_one(b);
            lemma_raw_one(c);
            assert(a.text + b.text + c.text =~= t.text);
        } else {
            let a = part(t, 0, start);
            let b = styled(part(t, start, n), style);
            assert(seq![a, b] =~= seq![a] + seq![b]);
            lemma_restyle_to_keeps_text(rest, end - n, style);
            lemma_raw_concat(seq![a, b], restyle_to(rest, end - n, style));
            lemma_raw_concat(seq![a], seq![b]);
            lemma_raw_one(a);
            lemma_raw_one(b);
            assert(a.text + b.text =~= t.text);
        }
    }
}

} // verus!
