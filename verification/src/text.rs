//! Operations on text, stated over sequences of characters.

use vstd::prelude::*;
use vstd::string::StringExecFns;

verus! {

/// `String::push` appends one character to the end of the string.
pub assume_specification[ String::push ](s: &mut String, ch: char)
    ensures
        final(s)@ == old(s)@.push(ch),
;

/// The views of a sequence of strings, one for one.
pub open spec fn texts(v: Seq<String>) -> Seq<Seq<char>> {
    Seq::new(v.len(), |i: int| v[i]@)
}

/// Appending a string appends its view.
pub proof fn lemma_texts_push(v: Seq<String>, s: String)
    ensures
        texts(v.push(s)) == texts(v).push(s@),
{
    assert(texts(v.push(s)) =~= texts(v).push(s@));
}

/// Dropping the last string drops the last view.
pub proof fn lemma_texts_drop_last(v: Seq<String>)
    requires
        v.len() > 0,
    ensures
        texts(v.drop_last()) == texts(v).drop_last(),
{
    assert(texts(v.drop_last()) =~= texts(v).drop_last());
}

/// Whether `c` separates the segments of a path. The slash always does; the
/// backslash does where `backslash` is set.
pub open spec fn is_sep(c: char, backslash: bool) -> bool {
    c == '/' || (backslash && c == '\\')
}

/// The segments of `s`: a separator closes the running segment and opens a
/// new, empty one; any other character extends the running segment. A text
/// with `n` separators has `n + 1` segments, of which any may be empty.
pub open spec fn split(s: Seq<char>, backslash: bool) -> Seq<Seq<char>>
    decreases s.len(),
{
    if s.len() == 0 {
        seq![Seq::empty()]
    } else {
        let head = split(s.drop_last(), backslash);
        if is_sep(s.last(), backslash) {
            head.push(Seq::empty())
        } else {
            head.drop_last().push(head.last().push(s.last()))
        }
    }
}

/// The parts written one after another with `sep` between each two.
pub open spec fn join(parts: Seq<Seq<char>>, sep: Seq<char>) -> Seq<char>
    decreases parts.len(),
{
    if parts.len() == 0 {
        Seq::empty()
    } else if parts.len() == 1 {
        parts[0]
    } else {
        join(parts.drop_last(), sep) + sep + parts.last()
    }
}

/// A split text is never without segments.
pub proof fn lemma_split_nonempty(s: Seq<char>, backslash: bool)
    ensures
        split(s, backslash).len() >= 1,
    decreases s.len(),
{
    if s.len() > 0 {
        lemma_split_nonempty(s.drop_last(), backslash);
    }
}

/// The characters of `s`, in order.
pub fn chars_of(s: &str) -> (v: Vec<char>)
    ensures
        v@ == s@,
{
    let mut v: Vec<char> = Vec::new();
    for c in it: s.chars()
        invariant
            it.seq() == s@,
            v@ == it.seq().take(it.index@),
    {
        v.push(c);
    }
    v
}

/// The text made of the characters of `v` from `from` up to `to`.
pub fn text_of(v: &Vec<char>, from: usize, to: usize) -> (s: String)
    requires
        from <= to <= v.len(),
    ensures
        s@ == v@.subrange(from as int, to as int),
{
    let mut s = String::new();
    let mut i: usize = from;
    while i < to
        invariant
            from <= i <= to <= v.len(),
            s@ == v@.subrange(from as int, i as int),
        decreases to - i,
    {
        s.push(v[i]);
        i += 1;
        assert(v@.subrange(from as int, i as int) == v@.subrange(from as int, i - 1).push(
            v@[i - 1],
        ));
    }
    s
}

/// Splits `s` at every slash and, where `backslash` is set, at every
/// backslash too.
pub fn split_text(s: &str, backslash: bool) -> (r: Vec<String>)
    ensures
        texts(r@) == split(s@, backslash),
{
    let mut done: Vec<String> = Vec::new();
    let mut cur = String::new();
    proof {
        assert(s@.take(0) == Seq::<char>::empty());
        assert(texts(done@).push(cur@) == split(s@.take(0), backslash));
    }
    for c in it: s.chars()
        invariant
            it.seq() == s@,
            texts(done@).push(cur@) == split(s@.take(it.index@), backslash),
    {
        let ghost before = s@.take(it.index@);
        let ghost after = s@.take(it.index@ + 1);
        proof {
            assert(after.drop_last() == before);
            assert(after.last() == c);
        }
        if c == '/' || (backslash && c == '\\') {
            let ghost old_done = done@;
            done.push(cur);
            cur = String::new();
            proof {
                assert(texts(done@) == texts(old_done).push(done@.last()@));
            }
        } else {
            let ghost old_cur = cur@;
            cur.push(c);
            proof {
                let head = texts(done@).push(old_cur);
                assert(head.drop_last() == texts(done@));
            }
        }
    }
    let ghost old_done = done@;
    done.push(cur);
    proof {
        assert(s@.take(s@.len() as int) == s@);
        assert(texts(done@) == texts(old_done).push(done@.last()@));
    }
    done
}

/// Writes the parts one after another with `sep` between each two.
pub fn join_text(parts: &Vec<String>, sep: &str) -> (r: String)
    ensures
        r@ == join(texts(parts@), sep@),
{
    let mut out = String::new();
    let mut i: usize = 0;
    while i < parts.len()
        invariant
            i <= parts.len(),
            out@ == join(texts(parts@).take(i as int), sep@),
        decreases parts.len() - i,
    {
        let ghost prefix = texts(parts@).take(i as int);
        let ghost next = texts(parts@).take(i + 1);
        proof {
            assert(next.drop_last() == prefix);
            assert(next.last() == parts@[i as int]@);
        }
        if i > 0 {
            out.append(sep);
        }
        out.append(parts[i].as_str());
        proof {
            if i == 0 {
                assert(out@ == parts@[0]@);
            }
        }
        i += 1;
    }
    proof {
        assert(texts(parts@).take(parts.len() as int) == texts(parts@));
    }
    out
}

/// The character that writes the digit `d`.
pub open spec fn digit_char(d: nat) -> char {
    if d == 0 {
        '0'
    } else if d == 1 {
        '1'
    } else if d == 2 {
        '2'
    } else if d == 3 {
        '3'
    } else if d == 4 {
        '4'
    } else if d == 5 {
        '5'
    } else if d == 6 {
        '6'
    } else if d == 7 {
        '7'
    } else if d == 8 {
        '8'
    } else {
        '9'
    }
}

/// The decimal digits of `n`, without leading zeros.
pub open spec fn decimal(n: nat) -> Seq<char>
    decreases n,
{
    if n < 10 {
        seq![digit_char(n)]
    } else {
        decimal(n / 10).push(digit_char(n % 10))
    }
}

/// Appends the decimal digits of `n` to `s`.
pub fn push_decimal(s: &mut String, n: usize)
    ensures
        final(s)@ == old(s)@ + decimal(n as nat),
    decreases n,
{
    if n >= 10 {
        push_decimal(s, n / 10);
    }
    let d: usize = n % 10;
    let c: char = if d == 0 {
        '0'
    } else if d == 1 {
        '1'
    } else if d == 2 {
        '2'
    } else if d == 3 {
        '3'
    } else if d == 4 {
        '4'
    } else if d == 5 {
        '5'
    } else if d == 6 {
        '6'
    } else if d == 7 {
        '7'
    } else if d == 8 {
        '8'
    } else {
        '9'
    };
    s.push(c);
    assert(s@ == old(s)@ + decimal(n as nat));
}

/// Whether `s` reads exactly as `lit` does.
pub fn is_text(s: &String, lit: &str) -> (r: bool)
    ensures
        r == (s@ == lit@),
{
    *s == String::from_str(lit)
}

/// Whether `s` begins with the character `c`.
pub fn begins_with(s: &str, c: char) -> (r: bool)
    ensures
        r == (s@.len() > 0 && s@[0] == c),
{
    !s.is_empty() && s.get_char(0) == c
}

/// The lines of `s`: a line feed closes the running line and opens a new,
/// empty one. A text with `n` line feeds has `n + 1` lines.
pub open spec fn lines_of(s: Seq<char>) -> Seq<Seq<char>>
    decreases s.len(),
{
    if s.len() == 0 {
        seq![Seq::empty()]
    } else {
        let head = lines_of(s.drop_last());
        if s.last() == '\n' {
            head.push(Seq::empty())
        } else {
            head.drop_last().push(head.last().push(s.last()))
        }
    }
}

/// A text is never without lines.
pub proof fn lemma_lines_nonempty(s: Seq<char>)
    ensures
        lines_of(s).len() >= 1,
    decreases s.len(),
{
    if s.len() > 0 {
        lemma_lines_nonempty(s.drop_last());
    }
}

/// Splits `s` at every line feed.
pub fn split_lines(s: &str) -> (r: Vec<String>)
    ensures
        texts(r@) == lines_of(s@),
{
    let mut done: Vec<String> = Vec::new();
    let mut cur = String::new();
    proof {
        assert(s@.take(0) == Seq::<char>::empty());
        assert(texts(done@).push(cur@) == lines_of(s@.take(0)));
    }
    for c in it: s.chars()
        invariant
            it.seq() == s@,
            texts(done@).push(cur@) == lines_of(s@.take(it.index@)),
    {
        proof {
            let after = s@.take(it.index@ + 1);
            assert(after.drop_last() == s@.take(it.index@));
            assert(after.last() == c);
        }
        if c == '\n' {
            proof {
                lemma_texts_push(done@, cur);
            }
            done.push(cur);
            cur = String::new();
        } else {
            proof {
                assert(texts(done@).push(cur@).drop_last() == texts(done@));
            }
            cur.push(c);
        }
    }
    proof {
        assert(s@.take(s@.len() as int) == s@);
        lemma_texts_push(done@, cur);
    }
    done.push(cur);
    done
}

/// `s` with the characters from `from` up to `to` replaced by `ins`.
pub open spec fn spliced(s: Seq<char>, from: int, to: int, ins: Seq<char>) -> Seq<char> {
    s.take(from) + ins + s.skip(to)
}

/// `s` with the characters from `from` up to `to` replaced by `ins`.
pub fn splice_text(s: &str, from: usize, to: usize, ins: &str) -> (r: String)
    requires
        from <= to <= s@.len(),
    ensures
        r@ == spliced(s@, from as int, to as int, ins@),
{
    let chars = chars_of(s);
    let mut out = text_of(&chars, 0, from);
    out.append(ins);
    let tail = text_of(&chars, to, chars.len());
    out.append(tail.as_str());
    proof {
        assert(out@ =~= spliced(s@, from as int, to as int, ins@));
    }
    out
}

} // verus!
