//! What a session in the terminal holds and how typing changes it: the lines
//! on the screen, the line that is being typed with its caret, and the tree.

use crate::completer::TabCompleter;
use crate::cursor::Cursor;
use crate::history::{added, History};
use crate::model::TreeModel;
use crate::parser::{is_quote, is_white, parse_string_raw, pieces_of};
use crate::rich::{restyle_from, Color, RichLine, RichText, RichTextView, Style};
use crate::text::{
    begins_with, chars_of, lemma_lines_nonempty, lines_of, splice_text, spliced, split_lines,
    text_of, texts,
};
use vstd::prelude::*;
use vstd::string::StringExecFns;

verus! {

/// The state of a session.
pub struct App {
    /// The lines on the screen, oldest first.
    pub lines: History<RichLine>,
    /// The line that is being typed.
    pub buffer: String,
    /// The caret and the selection in `buffer`, counted in characters.
    pub cursor: Cursor,
    /// The tree that the session works on.
    pub tree: TreeModel,
    /// The lines that were entered.
    pub history: History<String>,
    /// The candidates for completing the word at the caret.
    pub tab_completion: TabCompleter,
    /// How many lines the screen is scrolled up.
    pub scroll_pos: usize,
}

/// The views of a sequence of lines, one for one.
pub open spec fn line_views(v: Seq<RichLine>) -> Seq<Seq<RichTextView>> {
    Seq::new(v.len(), |i: int| v[i]@)
}

/// The style of the character under the caret.
pub open spec fn caret_style() -> Style {
    Style { fg: Some(Color::Black), bg: Some(Color::Rgb(108, 108, 108)), add_modifier: 0, sub_modifier: 0 }
}

/// The style of the selection.
pub open spec fn selection_style() -> Style {
    Style { fg: Some(Color::Black), bg: Some(Color::Rgb(128, 128, 128)), add_modifier: 0, sub_modifier: 0 }
}

/// A run of `text` in the colour `color`.
pub open spec fn run_of(text: Seq<char>, color: Color) -> RichTextView {
    RichTextView { text, style: Style::in_color(color) }
}

/// The colour in which the `i`-th piece of a typed line is shown: the verb
/// yellow, a piece that begins with a quote blue, any other white.
pub open spec fn piece_color(i: int, piece: Seq<char>) -> Color {
    if i == 0 {
        Color::Yellow
    } else if piece.len() > 0 && is_quote(piece[0]) {
        Color::Blue
    } else {
        Color::White
    }
}

/// The place just behind `pos`, as far as the machine can count.
pub open spec fn behind(pos: usize) -> int {
    if pos < usize::MAX {
        pos + 1
    } else {
        pos as int
    }
}

/// The typed line `buffer` as it is shown: its pieces in their colours, the
/// selection and the character under the caret set off. A caret behind the
/// last character stands on a blank of its own; an empty line is that blank
/// alone.
pub open spec fn rich_line(buffer: Seq<char>, cursor: Cursor) -> Seq<RichTextView> {
    let pieces = pieces_of(buffer);
    if pieces.len() == 0 {
        seq![
            RichTextView {
                text: seq![' '],
                style: Style::in_color(Color::Black).overlaid(caret_style()),
            },
        ]
    } else {
        let base = Seq::new(pieces.len(), |i: int| run_of(pieces[i], piece_color(i, pieces[i])));
        let selected = if cursor.high() > cursor.low() {
            restyle_from(base, cursor.low(), cursor.high(), selection_style())
        } else {
            base
        };
        let open = if cursor.pos < buffer.len() {
            selected
        } else {
            selected.push(run_of(seq![' '], Color::Black))
        };
        restyle_from(open, cursor.pos as int, behind(cursor.pos), caret_style())
    }
}

/// The screen after the lines `parts` were printed in the colour `color`,
/// one after the other, where at most `max` lines are kept.
pub open spec fn printed(
    h: Seq<Seq<RichTextView>>,
    parts: Seq<Seq<char>>,
    color: Color,
    max: nat,
) -> Seq<Seq<RichTextView>>
    decreases parts.len(),
{
    if parts.len() == 0 {
        h
    } else {
        added(printed(h, parts.drop_last(), color, max), seq![run_of(parts.last(), color)], max)
    }
}

/// The caret after a step of `dx` characters in a line of `len` characters:
/// at the new place, with the anchor kept where `keep` is set; a step that
/// would leave the line is not taken, and drops the selection.
pub open spec fn stepped(cursor: Cursor, len: int, dx: int, keep: bool) -> Cursor {
    let target = cursor.pos + dx;
    if 0 <= target <= len {
        placed(cursor, target, keep)
    } else {
        Cursor { start: cursor.pos, pos: cursor.pos }
    }
}

/// The caret at `pos`, with the anchor kept where `keep` is set.
pub open spec fn placed(cursor: Cursor, pos: int, keep: bool) -> Cursor {
    if keep {
        Cursor { start: cursor.start, pos: pos as usize }
    } else {
        Cursor { start: pos as usize, pos: pos as usize }
    }
}

/// Where the next word begins, seen from `at`: at the first character that
/// is no white space and stands behind a white space; at the end of the line
/// where there is none. `seen_blank` says whether a white space was passed.
pub open spec fn word_after(s: Seq<char>, at: int, seen_blank: bool) -> int
    decreases s.len() - at,
{
    if at < 0 || at >= s.len() {
        s.len() as int
    } else if is_white(s[at]) {
        word_after(s, at + 1, true)
    } else if seen_blank {
        at
    } else {
        word_after(s, at + 1, false)
    }
}

/// Where the word before `at` begins: behind the first white space, going
/// back, that has a character which is none behind it; at the beginning of
/// the line where there is none. `seen_char` says whether such a character
/// was passed.
pub open spec fn word_before(s: Seq<char>, at: int, seen_char: bool) -> int
    decreases at,
{
    if at <= 0 || at > s.len() {
        0
    } else if !is_white(s[at - 1]) {
        word_before(s, at - 1, true)
    } else if seen_char {
        at
    } else {
        word_before(s, at - 1, false)
    }
}

/// What is seen of the screen: the last `nlines` lines above the scroll
/// position, fewer where there are not so many, and what is being typed
/// behind the last of them. Nothing is seen where the screen is scrolled past
/// its first line, or has no room.
pub open spec fn shown(
    lines: Seq<Seq<RichTextView>>,
    scroll: int,
    nlines: int,
    typed: Seq<RichTextView>,
) -> Seq<Seq<RichTextView>> {
    if lines.len() <= scroll || nlines <= 0 {
        Seq::empty()
    } else {
        let stop = lines.len() - scroll;
        let start = if stop >= nlines {
            stop - nlines
        } else {
            0
        };
        lines.subrange(start, stop - 1).push(lines[stop - 1] + typed)
    }
}

impl App {
    /// The caret and the anchor lie within the typed line, and the parts of
    /// the session are well formed.
    pub open spec fn wf(&self) -> bool {
        &&& self.cursor.start <= self.buffer@.len()
        &&& self.cursor.pos <= self.buffer@.len()
        &&& self.lines.wf()
        &&& self.history.wf()
        &&& self.tab_completion.wf()
    }

    /// Whether `self` and `other` differ at most in the typed line and its
    /// caret.
    pub open spec fn same_but_typed(&self, other: &App) -> bool {
        &&& self.lines == other.lines
        &&& self.tree == other.tree
        &&& self.history == other.history
        &&& self.tab_completion == other.tab_completion
        &&& self.scroll_pos == other.scroll_pos
    }

    /// A session on `tree`, with an empty screen and nothing typed.
    pub fn new(tree: TreeModel) -> (r: Self)
        ensures
            r.wf(),
            r.tree == tree,
            r.buffer@ == Seq::<char>::empty(),
            r.cursor == (Cursor { start: 0, pos: 0 }),
            r.lines.history@ == Seq::<RichLine>::empty(),
            r.lines.max == 1000,
            r.history.history@ == Seq::<String>::empty(),
            r.history.max == 500,
            r.scroll_pos == 0,
    {
        App {
            lines: History::new(1000),
            buffer: String::new(),
            cursor: Cursor::new(),
            tree,
            history: History::new(500),
            tab_completion: TabCompleter::new(),
            scroll_pos: 0,
        }
    }

    /// Empties the typed line.
    pub fn clear_buffer(&mut self)
        ensures
            final(self).same_but_typed(old(self)),
            final(self).buffer@ == Seq::<char>::empty(),
            final(self).cursor == (Cursor { start: 0, pos: 0 }),
            old(self).wf() ==> final(self).wf(),
    {
        self.buffer = String::new();
        self.cursor.move_to(0);
    }

    /// Takes `buf` as the typed line, with the caret behind it.
    pub fn set_buffer(&mut self, buf: String)
        ensures
            final(self).same_but_typed(old(self)),
            final(self).buffer@ == buf@,
            final(self).cursor.start == buf@.len(),
            final(self).cursor.pos == buf@.len(),
            old(self).wf() ==> final(self).wf(),
    {
        let n = buf.as_str().unicode_len();
        self.buffer = buf;
        self.cursor.move_to(n);
    }

    /// The typed line as it is shown.
    pub fn rich_buffer(&self) -> (r: RichLine)
        ensures
            r@ == rich_line(self.buffer@, self.cursor),
    {
        let caret = Style::new().fg(Color::Black).bg(Color::Rgb(108, 108, 108));
        proof {
            reveal_strlit(" ");
            assert(" "@ =~= seq![' ']);
        }
        let strs = parse_string_raw(&self.buffer);
        let nstr = strs.len();
        if nstr == 0 {
            let text = RichText::new(String::from_str(" "), Color::Black).restyled(caret);
            let mut line = RichLine::new();
            line.push(text);
            proof {
                assert(line@ =~= rich_line(self.buffer@, self.cursor));
            }
            return line;
        }
        let ghost pieces = pieces_of(self.buffer@);
        let mut args: Vec<RichText> = Vec::new();
        let mut i: usize = 0;
        while i < nstr
            invariant
                i <= nstr,
                nstr == strs@.len(),
                pieces == texts(strs@),
                args@.len() == i,
                forall|j: int|
                    0 <= j < i ==> (#[trigger] args@[j])@ == run_of(
                        pieces[j],
                        piece_color(j, pieces[j]),
                    ),
            decreases nstr - i,
        {
            let s = &strs[i];
            let color = if i == 0 {
                Color::Yellow
            } else if begins_with(s.as_str(), '"') || begins_with(s.as_str(), '\'') {
                Color::Blue
            } else {
                Color::White
            };
            args.push(RichText::new(s.clone(), color));
            i += 1;
        }
        let mut line = RichLine::from_texts(args);
        proof {
            assert(line@ =~= Seq::new(
                pieces.len(),
                |i: int| run_of(pieces[i], piece_color(i, pieces[i])),
            ));
        }
        if self.cursor.selection_size() > 0 {
            let (start, end) = self.cursor.selection();
            line = line.restyled(
                start,
                end,
                Style::new().fg(Color::Black).bg(Color::Rgb(128, 128, 128)),
            );
        }
        let pos = self.cursor.pos;
        if pos >= self.buffer.as_str().unicode_len() {
            line.push(RichText::new(String::from_str(" "), Color::Black));
        }
        let end = if pos < usize::MAX {
            pos + 1
        } else {
            pos
        };
        line.restyled(pos, end, caret)
    }

    /// Moves what is typed to the end of the last line of the screen, and
    /// empties the typed line.
    pub fn flush_buffer(&mut self)
        requires
            old(self).lines.history@.len() > 0,
        ensures
            final(self).tree == old(self).tree,
            final(self).history == old(self).history,
            final(self).tab_completion == old(self).tab_completion,
            final(self).scroll_pos == old(self).scroll_pos,
            final(self).buffer@ == Seq::<char>::empty(),
            final(self).cursor == (Cursor { start: 0, pos: 0 }),
            final(self).lines.index == old(self).lines.index,
            final(self).lines.max == old(self).lines.max,
            line_views(final(self).lines.history@) == line_views(old(self).lines.history@).update(
                old(self).lines.history@.len() - 1,
                old(self).lines.history@.last()@ + rich_line(old(self).buffer@, old(self).cursor),
            ),
            old(self).wf() ==> final(self).wf(),
    {
        let buf = self.rich_buffer();
        let ghost before = self.lines.history@;
        match self.lines.history.pop_back() {
            Some(last) => {
                let mut last = last;
                last.extend(buf);
                self.lines.history.push_back(last);
                proof {
                    assert(line_views(self.lines.history@) =~= line_views(before).update(
                        before.len() - 1,
                        before.last()@ + buf@,
                    ));
                }
            },
            None => {},
        }
        self.clear_buffer();
    }

    /// Records the typed line among the lines that were entered, and moves
    /// it to the screen.
    pub fn run_buffer(&mut self)
        requires
            old(self).lines.history@.len() > 0,
        ensures
            final(self).tree == old(self).tree,
            final(self).tab_completion == old(self).tab_completion,
            final(self).scroll_pos == old(self).scroll_pos,
            final(self).buffer@ == Seq::<char>::empty(),
            final(self).cursor == (Cursor { start: 0, pos: 0 }),
            texts(final(self).history.history@) == added(
                texts(old(self).history.history@),
                old(self).buffer@,
                old(self).history.max as nat,
            ),
            final(self).history.index == final(self).history.history@.len(),
            final(self).history.max == old(self).history.max,
            line_views(final(self).lines.history@) == line_views(old(self).lines.history@).update(
                old(self).lines.history@.len() - 1,
                old(self).lines.history@.last()@ + rich_line(old(self).buffer@, old(self).cursor),
            ),
            old(self).wf() ==> final(self).wf(),
    {
        let buf = self.buffer.clone();
        let ghost before = self.history.history@;
        self.history.add(buf);
        proof {
            assert(texts(added(before, buf, self.history.max as nat)) =~= added(
                texts(before),
                buf@,
                self.history.max as nat,
            ));
        }
        self.flush_buffer();
    }

    /// Prints `s` in the colour `color`, each of its lines as a line of the
    /// screen, and scrolls back down.
    fn print_colored(&mut self, s: &str, color: Color)
        ensures
            final(self).buffer == old(self).buffer,
            final(self).cursor == old(self).cursor,
            final(self).tree == old(self).tree,
            final(self).history == old(self).history,
            final(self).tab_completion == old(self).tab_completion,
            final(self).scroll_pos == 0,
            final(self).lines.max == old(self).lines.max,
            final(self).lines.index == final(self).lines.history@.len(),
            line_views(final(self).lines.history@) == printed(
                line_views(old(self).lines.history@),
                lines_of(s@),
                color,
                old(self).lines.max as nat,
            ),
            old(self).wf() ==> final(self).wf(),
    {
        let parts = split_lines(s);
        proof {
            lemma_lines_nonempty(s@);
        }
        let mut i: usize = 0;
        proof {
            assert(texts(parts@).take(0) =~= Seq::<Seq<char>>::empty());
        }
        while i < parts.len()
            invariant
                i <= parts.len(),
                parts@.len() > 0,
                self.buffer == old(self).buffer,
                self.cursor == old(self).cursor,
                self.tree == old(self).tree,
                self.history == old(self).history,
                self.tab_completion == old(self).tab_completion,
                self.lines.max == old(self).lines.max,
                i > 0 ==> self.lines.index == self.lines.history@.len(),
                line_views(self.lines.history@) == printed(
                    line_views(old(self).lines.history@),
                    texts(parts@).take(i as int),
                    color,
                    old(self).lines.max as nat,
                ),
            decreases parts.len() - i,
        {
            let mut line = RichLine::new();
            line.push(RichText::new(parts[i].clone(), color));
            let ghost before = self.lines.history@;
            proof {
                let next = texts(parts@).take(i + 1);
                assert(next.drop_last() =~= texts(parts@).take(i as int));
                assert(next.last() == parts@[i as int]@);
                assert(line@ =~= seq![run_of(parts@[i as int]@, color)]);
            }
            self.lines.add(line);
            proof {
                assert(line_views(added(before, line, self.lines.max as nat)) =~= added(
                    line_views(before),
                    line@,
                    self.lines.max as nat,
                ));
            }
            i += 1;
        }
        proof {
            assert(texts(parts@).take(parts@.len() as int) =~= texts(parts@));
        }
        self.scroll_pos = 0;
    }

    /// Prints `s` in white, each of its lines as a line of the screen.
    pub fn print_text(&mut self, s: String)
        ensures
            final(self).buffer == old(self).buffer,
            final(self).cursor == old(self).cursor,
            final(self).tree == old(self).tree,
            final(self).history == old(self).history,
            final(self).tab_completion == old(self).tab_completion,
            final(self).scroll_pos == 0,
            final(self).lines.max == old(self).lines.max,
            final(self).lines.index == final(self).lines.history@.len(),
            line_views(final(self).lines.history@) == printed(
                line_views(old(self).lines.history@),
                lines_of(s@),
                Color::White,
                old(self).lines.max as nat,
            ),
            old(self).wf() ==> final(self).wf(),
    {
        self.print_colored(s.as_str(), Color::White);
    }

    /// Prints the message of a failure in red, each of its lines as a line
    /// of the screen.
    pub fn print_error(&mut self, message: String)
        ensures
            final(self).buffer == old(self).buffer,
            final(self).cursor == old(self).cursor,
            final(self).tree == old(self).tree,
            final(self).history == old(self).history,
            final(self).tab_completion == old(self).tab_completion,
            final(self).scroll_pos == 0,
            final(self).lines.max == old(self).lines.max,
            final(self).lines.index == final(self).lines.history@.len(),
            line_views(final(self).lines.history@) == printed(
                line_views(old(self).lines.history@),
                lines_of(message@),
                Color::Red,
                old(self).lines.max as nat,
            ),
            old(self).wf() ==> final(self).wf(),
    {
        self.print_colored(message.as_str(), Color::Red);
    }

    /// Removes the selected characters and puts the caret where they stood.
    fn clear_selected_text(&mut self)
        requires
            old(self).wf(),
        ensures
            final(self).wf(),
            final(self).same_but_typed(old(self)),
            final(self).buffer@ == spliced(
                old(self).buffer@,
                old(self).cursor.low(),
                old(self).cursor.high(),
                Seq::empty(),
            ),
            final(self).cursor.start == old(self).cursor.low(),
            final(self).cursor.pos == old(self).cursor.low(),
    {
        proof {
            reveal_strlit("");
            assert(""@ =~= Seq::<char>::empty());
        }
        let (start, end) = self.cursor.selection();
        self.buffer = splice_text(self.buffer.as_str(), start, end, "");
        self.cursor.move_to(start);
    }

    /// What the backspace key does: it removes the selection, or else the
    /// character before the caret.
    pub fn text_backspace_event(&mut self)
        requires
            old(self).wf(),
        ensures
            final(self).wf(),
            final(self).same_but_typed(old(self)),
            old(self).cursor.high() > old(self).cursor.low() ==> final(self).buffer@ == spliced(
                old(self).buffer@,
                old(self).cursor.low(),
                old(self).cursor.high(),
                Seq::empty(),
            ) && final(self).cursor == (Cursor {
                start: old(self).cursor.low() as usize,
                pos: old(self).cursor.low() as usize,
            }),
            old(self).cursor.high() == old(self).cursor.low() && old(self).cursor.pos == 0
                ==> final(self).buffer@ == old(self).buffer@ && final(self).cursor == old(
                self,
            ).cursor,
            old(self).cursor.high() == old(self).cursor.low() && old(self).cursor.pos > 0
                ==> final(self).buffer@ == spliced(
                old(self).buffer@,
                old(self).cursor.pos - 1,
                old(self).cursor.pos as int,
                Seq::empty(),
            ) && final(self).cursor == (Cursor {
                start: (old(self).cursor.pos - 1) as usize,
                pos: (old(self).cursor.pos - 1) as usize,
            }),
    {
        proof {
            reveal_strlit("");
            assert(""@ =~= Seq::<char>::empty());
        }
        if self.cursor.selection_size() > 0 {
            self.clear_selected_text();
            return;
        }
        if self.cursor.pos == 0 {
            return;
        }
        let at = self.cursor.pos - 1;
        self.cursor.move_to(at);
        self.buffer = splice_text(self.buffer.as_str(), at, at + 1, "");
    }

    /// What the delete key does: it removes the selection, or else the
    /// character under the caret.
    pub fn text_delete_event(&mut self)
        requires
            old(self).wf(),
        ensures
            final(self).wf(),
            final(self).same_but_typed(old(self)),
            old(self).cursor.high() > old(self).cursor.low() ==> final(self).buffer@ == spliced(
                old(self).buffer@,
                old(self).cursor.low(),
                old(self).cursor.high(),
                Seq::empty(),
            ) && final(self).cursor == (Cursor {
                start: old(self).cursor.low() as usize,
                pos: old(self).cursor.low() as usize,
            }),
            old(self).cursor.high() == old(self).cursor.low() && old(self).cursor.pos == old(
                self,
            ).buffer@.len() ==> final(self).buffer@ == old(self).buffer@ && final(self).cursor
                == old(self).cursor,
            old(self).cursor.high() == old(self).cursor.low() && old(self).cursor.pos < old(
                self,
            ).buffer@.len() ==> final(self).buffer@ == spliced(
                old(self).buffer@,
                old(self).cursor.pos as int,
                old(self).cursor.pos + 1,
                Seq::empty(),
            ) && final(self).cursor == old(self).cursor,
    {
        proof {
            reveal_strlit("");
            assert(""@ =~= Seq::<char>::empty());
        }
        if self.cursor.selection_size() > 0 {
            self.clear_selected_text();
            return;
        }
        let at = self.cursor.pos;
        if at == self.buffer.as_str().unicode_len() {
            return;
        }
        self.buffer = splice_text(self.buffer.as_str(), at, at + 1, "");
    }

    /// Puts the caret at `pos`, and keeps the anchor where `keep_selection`
    /// is set.
    fn place_cursor(&mut self, pos: usize, keep_selection: bool)
        requires
            old(self).wf(),
            pos <= old(self).buffer@.len(),
        ensures
            final(self).wf(),
            final(self).same_but_typed(old(self)),
            final(self).buffer == old(self).buffer,
            final(self).cursor == placed(old(self).cursor, pos as int, keep_selection),
    {
        if keep_selection {
            self.cursor.select_to(pos);
        } else {
            self.cursor.move_to(pos);
        }
    }

    /// Moves the caret by `dx` characters, to the right where `dx` is
    /// positive. With `keep_selection` the anchor stays, so that the
    /// selection grows or shrinks. A step that would leave the line is not
    /// taken, and drops the selection.
    pub fn text_move_cursor(&mut self, dx: i16, keep_selection: bool)
        requires
            old(self).wf(),
        ensures
            final(self).wf(),
            final(self).same_but_typed(old(self)),
            final(self).buffer == old(self).buffer,
            final(self).cursor == stepped(
                old(self).cursor,
                old(self).buffer@.len() as int,
                dx as int,
                keep_selection,
            ),
    {
        let len = self.buffer.as_str().unicode_len();
        let pos = self.cursor.pos;
        if 0 <= dx {
            let n: usize = dx as usize;
            if n <= len - pos {
                self.place_cursor(pos + n, keep_selection);
            } else {
                self.cursor.clear_selection();
            }
        } else {
            let n: usize = (0 - (dx as i32)) as usize;
            if pos >= n {
                self.place_cursor(pos - n, keep_selection);
            } else {
                self.cursor.clear_selection();
            }
        }
    }

    /// Moves the caret to the beginning of the next word, or to the end of
    /// the line where no word follows.
    pub fn text_move_cursor_to_next_word(&mut self, keep_selection: bool)
        requires
            old(self).wf(),
        ensures
            final(self).wf(),
            final(self).same_but_typed(old(self)),
            final(self).buffer == old(self).buffer,
            final(self).cursor == placed(
                old(self).cursor,
                word_after(old(self).buffer@, old(self).cursor.pos as int, false),
                keep_selection,
            ),
    {
        let chars = chars_of(self.buffer.as_str());
        let n = chars.len();
        let mut at: usize = self.cursor.pos;
        let mut seen_blank = false;
        let ghost s = self.buffer@;
        let ghost goal = word_after(s, self.cursor.pos as int, false);
        while at < n && (chars[at].is_whitespace() || !seen_blank)
            invariant
                at <= n,
                n == s.len(),
                chars@ == s,
                goal == word_after(s, at as int, seen_blank),
            decreases n - at,
        {
            if chars[at].is_whitespace() {
                seen_blank = true;
            }
            at += 1;
        }
        self.place_cursor(at, keep_selection);
    }

    /// Moves the caret to the beginning of the word before it, or to the
    /// beginning of the line where there is none.
    pub fn text_move_cursor_to_prev_word(&mut self, keep_selection: bool)
        requires
            old(self).wf(),
        ensures
            final(self).wf(),
            final(self).same_but_typed(old(self)),
            final(self).buffer == old(self).buffer,
            final(self).cursor == placed(
                old(self).cursor,
                word_before(old(self).buffer@, old(self).cursor.pos as int, false),
                keep_selection,
            ),
    {
        let chars = chars_of(self.buffer.as_str());
        let mut at: usize = self.cursor.pos;
        let mut seen_char = false;
        let ghost s = self.buffer@;
        let ghost goal = word_before(s, self.cursor.pos as int, false);
        while at > 0 && (!chars[at - 1].is_whitespace() || !seen_char)
            invariant
                at <= s.len(),
                chars@ == s,
                goal == word_before(s, at as int, seen_char),
            decreases at,
        {
            if !chars[at - 1].is_whitespace() {
                seen_char = true;
            }
            at -= 1;
        }
        self.place_cursor(at, keep_selection);
    }

    /// Types the character `c`: it takes the place of the selection, or
    /// goes in at the caret, and the caret goes behind it.
    pub fn text_add_char(&mut self, c: char)
        requires
            old(self).wf(),
            old(self).buffer@.len() < usize::MAX,
        ensures
            final(self).wf(),
            final(self).same_but_typed(old(self)),
            old(self).cursor.high() > old(self).cursor.low() ==> final(self).buffer@ == spliced(
                old(self).buffer@,
                old(self).cursor.low(),
                old(self).cursor.high(),
                seq![c],
            ) && final(self).cursor.pos == old(self).cursor.low() + 1,
            old(self).cursor.high() == old(self).cursor.low() ==> final(self).buffer@ == spliced(
                old(self).buffer@,
                old(self).cursor.pos as int,
                old(self).cursor.pos as int,
                seq![c],
            ) && final(self).cursor.pos == old(self).cursor.pos + 1,
            final(self).cursor.start == final(self).cursor.pos,
    {
        if self.cursor.selection_size() > 0 {
            self.clear_selected_text();
        }
        let at = self.cursor.pos;
        let mut one = String::new();
        one.push(c);
        proof {
            assert(one@ =~= seq![c]);
        }
        let ghost mid = self.buffer@;
        self.buffer = splice_text(self.buffer.as_str(), at, at, one.as_str());
        self.cursor.move_to(at + 1);
        proof {
            if old(self).cursor.high() > old(self).cursor.low() {
                let lo = old(self).cursor.low();
                let hi = old(self).cursor.high();
                assert(spliced(mid, lo, lo, seq![c]) =~= spliced(old(self).buffer@, lo, hi, seq![c]));
            }
        }
    }

    /// The selected characters.
    pub fn text_selected(&mut self) -> (r: String)
        requires
            old(self).wf(),
        ensures
            *final(self) == *old(self),
            r@ == old(self).buffer@.subrange(old(self).cursor.low(), old(self).cursor.high()),
    {
        let (start, end) = self.cursor.selection();
        let chars = chars_of(self.buffer.as_str());
        text_of(&chars, start, end)
    }

    /// Puts `text` in at the caret, and the caret behind it.
    pub fn insert_text(&mut self, text: String)
        requires
            old(self).wf(),
            old(self).buffer@.len() + text@.len() <= usize::MAX,
        ensures
            final(self).wf(),
            final(self).same_but_typed(old(self)),
            final(self).buffer@ == spliced(
                old(self).buffer@,
                old(self).cursor.pos as int,
                old(self).cursor.pos as int,
                text@,
            ),
            final(self).cursor.start == old(self).cursor.pos + text@.len(),
            final(self).cursor.pos == old(self).cursor.pos + text@.len(),
    {
        let at = self.cursor.pos;
        let n = text.as_str().unicode_len();
        self.buffer = splice_text(self.buffer.as_str(), at, at, text.as_str());
        self.cursor.move_to(at + n);
    }

    /// What is seen of the screen in `nlines` lines: the lines above the
    /// scroll position, and what is being typed behind the last of them.
    pub fn get_text(&self, nlines: usize) -> (r: Vec<RichLine>)
        ensures
            line_views(r@) == shown(
                line_views(self.lines.history@),
                self.scroll_pos as int,
                nlines as int,
                rich_line(self.buffer@, self.cursor),
            ),
    {
        let mut text: Vec<RichLine> = Vec::new();
        let nlines_total = self.lines.len();
        let ghost all = line_views(self.lines.history@);
        if nlines_total <= self.scroll_pos || nlines == 0 {
            proof {
                assert(line_views(text@) =~= Seq::<Seq<RichTextView>>::empty());
            }
            return text;
        }
        let stop = nlines_total - self.scroll_pos;
        let start = if stop >= nlines {
            stop - nlines
        } else {
            0
        };
        let mut i: usize = start;
        proof {
            assert(line_views(text@) =~= all.subrange(start as int, i as int));
        }
        while i < stop - 1
            invariant
                start <= i <= stop - 1,
                stop <= self.lines.history@.len(),
                all == line_views(self.lines.history@),
                line_views(text@) == all.subrange(start as int, i as int),
            decreases stop - i,
        {
            let line = self.lines.history[i].clone();
            proof {
                assert(line@ == all[i as int]);
                assert(line_views(text@.push(line)) =~= line_views(text@).push(line@));
                assert(all.subrange(start as int, i as int).push(all[i as int]) =~= all.subrange(
                    start as int,
                    i + 1,
                ));
            }
            text.push(line);
            i += 1;
        }
        let mut last_line = self.lines.history[stop - 1].clone();
        last_line.extend(self.rich_buffer());
        proof {
            assert(line_views(text@.push(last_line)) =~= line_views(text@).push(last_line@));
        }
        text.push(last_line);
        text
    }
}

} // verus!
