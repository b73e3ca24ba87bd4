//! Taking a typed line apart into its words, in the manner of a shell: blanks
//! separate, and a pair of quotes keeps what stands between them together.

use crate::text::{chars_of, lemma_texts_push, text_of, texts};
use vstd::prelude::*;
use vstd::string::StringExecFns;

verus! {

/// Whether `char::is_whitespace` holds of `c`.
pub uninterp spec fn is_white(c: char) -> bool;

/// `char::is_whitespace` tells whether a character is white space as Unicode
/// defines it; the answer depends on the character alone.
pub assume_specification[ char::is_whitespace ](c: char) -> (b: bool)
    ensures
        b == is_white(c),
;

/// `s` without the white space at its beginning.
pub open spec fn trim_start(s: Seq<char>) -> Seq<char>
    decreases s.len(),
{
    if s.len() > 0 && is_white(s[0]) {
        trim_start(s.drop_first())
    } else {
        s
    }
}

/// `s` without the white space at its end.
pub open spec fn trim_end(s: Seq<char>) -> Seq<char>
    decreases s.len(),
{
    if s.len() > 0 && is_white(s.last()) {
        trim_end(s.drop_last())
    } else {
        s
    }
}

/// `s` without the white space at its beginning and at its end.
pub open spec fn trim(s: Seq<char>) -> Seq<char> {
    trim_end(trim_start(s))
}

/// `s` without the white space at its beginning and at its end.
pub fn trim_text(s: &str) -> (r: String)
    ensures
        r@ == trim(s@),
{
    let chars = chars_of(s);
    let n = chars.len();
    let mut lo: usize = 0;
    proof {
        assert(s@.skip(0) =~= s@);
    }
    while lo < n && chars[lo].is_whitespace()
        invariant
            lo <= n,
            n == chars.len(),
            chars@ == s@,
            trim_start(s@) == trim_start(s@.skip(lo as int)),
        decreases n - lo,
    {
        proof {
            assert(s@.skip(lo as int).drop_first() =~= s@.skip(lo + 1));
        }
        lo += 1;
    }
    let ghost rest = s@.skip(lo as int);
    proof {
        assert(trim_start(s@) == rest);
        assert(rest.take(n - lo) =~= rest);
    }
    let mut hi: usize = n;
    while hi > lo && chars[hi - 1].is_whitespace()
        invariant
            lo <= hi <= n,
            n == chars.len(),
            chars@ == s@,
            rest == s@.skip(lo as int),
            trim_end(rest) == trim_end(rest.take(hi - lo)),
        decreases hi,
    {
        proof {
            assert(rest.take(hi - lo).drop_last() =~= rest.take(hi - lo - 1));
        }
        hi -= 1;
    }
    proof {
        assert(rest.take(hi - lo) =~= s@.subrange(lo as int, hi as int));
    }
    text_of(&chars, lo, hi)
}

/// Where the reading of a line stands: the words that are complete, the
/// characters of the word that is being read, and the quote that is open.
pub ghost struct Scan {
    pub words: Seq<Seq<char>>,
    pub buf: Seq<char>,
    pub quote: Option<char>,
}

/// Whether `c` is one of the two quotes.
pub open spec fn is_quote(c: char) -> bool {
    c == '"' || c == '\''
}

/// The reading of a line before its first character.
pub open spec fn scan_start() -> Scan {
    Scan { words: Seq::empty(), buf: Seq::empty(), quote: None }
}

/// One character further, for a reading that leaves the quotes out.
///
/// A quote opens a quoted run where none is open, and closes the one that the
/// same quote opened, which completes the word, an empty one too; the other
/// quote inside a run is a character like any other. A blank inside a run
/// belongs to the word; outside it completes the word, if there is one.
pub open spec fn step(st: Scan, c: char) -> Scan {
    if c == ' ' {
        match st.quote {
            None => if st.buf.len() > 0 {
                Scan { words: st.words.push(st.buf), buf: Seq::empty(), ..st }
            } else {
                st
            },
            Some(_) => Scan { buf: st.buf.push(' '), ..st },
        }
    } else if is_quote(c) {
        match st.quote {
            Some(q) => if q == c {
                Scan { words: st.words.push(st.buf), buf: Seq::empty(), quote: None }
            } else {
                Scan { buf: st.buf.push(c), ..st }
            },
            None => Scan { quote: Some(c), ..st },
        }
    } else {
        Scan { buf: st.buf.push(c), ..st }
    }
}

/// One character further, for a reading that keeps the quotes and the
/// blanks.
///
/// Every character but a blank belongs to the word, the quotes too. A quote
/// that closes the run which it opened completes the word. A blank inside a
/// run belongs to the word; outside it completes the word, if there is one,
/// and is a word of its own.
pub open spec fn step_raw(st: Scan, c: char) -> Scan {
    if c == ' ' {
        match st.quote {
            None => if st.buf.len() > 0 {
                Scan { words: st.words.push(st.buf).push(seq![' ']), buf: Seq::empty(), ..st }
            } else {
                Scan { words: st.words.push(seq![' ']), ..st }
            },
            Some(_) => Scan { buf: st.buf.push(' '), ..st },
        }
    } else if is_quote(c) {
        match st.quote {
            Some(q) => if q == c {
                Scan { words: st.words.push(st.buf.push(c)), buf: Seq::empty(), quote: None }
            } else {
                Scan { buf: st.buf.push(c), ..st }
            },
            None => Scan { buf: st.buf.push(c), quote: Some(c), ..st },
        }
    } else {
        Scan { buf: st.buf.push(c), ..st }
    }
}

/// The reading of `s` from its first character to its last.
pub open spec fn scan(s: Seq<char>, raw: bool) -> Scan
    decreases s.len(),
{
    if s.len() == 0 {
        scan_start()
    } else if raw {
        step_raw(scan(s.drop_last(), raw), s.last())
    } else {
        step(scan(s.drop_last(), raw), s.last())
    }
}

/// The words of the line `s`, without the quotes. What is left at the end of
/// the line, a run whose quote was never closed too, is a word once the white
/// space around it is taken off.
pub open spec fn words_of(s: Seq<char>) -> Seq<Seq<char>> {
    let st = scan(s, false);
    if st.buf.len() > 0 {
        st.words.push(trim(st.buf))
    } else {
        st.words
    }
}

/// The pieces of the line `s`, with the quotes kept and every blank outside
/// quotes as a piece of its own: written one after the other, the pieces give
/// the line back.
pub open spec fn pieces_of(s: Seq<char>) -> Seq<Seq<char>> {
    let st = scan(s, true);
    if st.buf.len() > 0 {
        st.words.push(st.buf)
    } else {
        st.words
    }
}

/// Takes a line apart into its words, as a shell does: `cd "dir name"` gives
/// `cd` and `dir name`.
pub fn parse_string(str: &String) -> (r: Vec<String>)
    ensures
        texts(r@) == words_of(str@),
{
    let mut inputs: Vec<String> = Vec::new();
    let mut buf = String::new();
    let mut stack: Option<char> = None;
    proof {
        assert(texts(inputs@) =~= Seq::<Seq<char>>::empty());
        assert(str@.take(0) =~= Seq::<char>::empty());
    }
    for c in it: str.as_str().chars()
        invariant
            it.seq() == str@,
            scan(str@.take(it.index@), false) == (Scan {
                words: texts(inputs@),
                buf: buf@,
                quote: stack,
            }),
    {
        proof {
            let next = str@.take(it.index@ + 1);
            assert(next.drop_last() =~= str@.take(it.index@));
            assert(next.last() == c);
        }
        if c != ' ' {
            if c == '"' || c == '\'' {
                match stack {
                    Some(stack_char) => {
                        if stack_char == c {
                            stack = None;
                            proof {
                                lemma_texts_push(inputs@, buf);
                            }
                            inputs.push(buf);
                            buf = String::new();
                        } else {
                            buf.push(c);
                        }
                    },
                    None => {
                        stack = Some(c);
                    },
                }
            } else {
                buf.push(c);
            }
        } else {
            match stack {
                None => {
                    if !buf.as_str().is_empty() {
                        proof {
                            lemma_texts_push(inputs@, buf);
                        }
                        inputs.push(buf);
                        buf = String::new();
                    }
                },
                Some(_) => {
                    buf.push(' ');
                },
            }
        }
    }
    proof {
        assert(str@.take(str@.len() as int) =~= str@);
    }
    if !buf.as_str().is_empty() {
        let last = trim_text(buf.as_str());
        proof {
            lemma_texts_push(inputs@, last);
        }
        inputs.push(last);
    }
    inputs
}

/// Takes a line apart into pieces that keep every character of it: the
/// quotes stay with their words, and every blank outside quotes is a piece.
pub fn parse_string_raw(str: &String) -> (r: Vec<String>)
    ensures
        texts(r@) == pieces_of(str@),
{
    let mut inputs: Vec<String> = Vec::new();
    let mut buf = String::new();
    let mut stack: Option<char> = None;
    proof {
        assert(texts(inputs@) =~= Seq::<Seq<char>>::empty());
        assert(str@.take(0) =~= Seq::<char>::empty());
        reveal_strlit(" ");
        assert(" "@ =~= seq![' ']);
    }
    for c in it: str.as_str().chars()
        invariant
            it.seq() == str@,
            " "@ == seq![' '],
            scan(str@.take(it.index@), true) == (Scan {
                words: texts(inputs@),
                buf: buf@,
                quote: stack,
            }),
    {
        proof {
            let next = str@.take(it.index@ + 1);
            assert(next.drop_last() =~= str@.take(it.index@));
            assert(next.last() == c);
        }
        if c != ' ' {
            buf.push(c);
            if c == '"' || c == '\'' {
                match stack {
                    Some(stack_char) => {
                        if stack_char == c {
                            stack = None;
                            proof {
                                lemma_texts_push(inputs@, buf);
                            }
                            inputs.push(buf);
                            buf = String::new();
                        }
                    },
                    None => {
                        stack = Some(c);
                    },
                }
            }
        } else {
            match stack {
                None => {
                    if !buf.as_str().is_empty() {
                        proof {
                            lemma_texts_push(inputs@, buf);
                        }
                        inputs.push(buf);
                        buf = String::new();
                    }
                    let blank = String::from_str(" ");
                    proof {
                        lemma_texts_push(inputs@, blank);
                    }
                    inputs.push(blank);
                },
                Some(_) => {
                    buf.push(' ');
                },
            }
        }
    }
    proof {
        assert(str@.take(str@.len() as int) =~= str@);
    }
    if !buf.as_str().is_empty() {
        proof {
            lemma_texts_push(inputs@, buf);
        }
        inputs.push(buf);
    }
    inputs
}

} // verus!
