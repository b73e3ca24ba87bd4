//! The grammar of a node's name: which characters it may hold, and the `#n`
//! suffix that tells apart siblings of one name.

use crate::text::{chars_of, text_of};
use vstd::prelude::*;

verus! {

/// The characters that no directory name may hold.
pub open spec fn reserved(c: char) -> bool {
    c == '\\' || c == '/' || c == '#' || c == '|' || c == '"' || c == '*' || c == '?' || c == '<'
        || c == '>' || c == ':'
}

/// A name is valid where none of its characters is reserved.
pub open spec fn valid_name(name: Seq<char>) -> bool {
    forall|i: int| 0 <= i < name.len() ==> !reserved(#[trigger] name[i])
}

/// Whether `name` may be given to a directory.
pub fn is_valid_item_name(name: &String) -> (r: bool)
    ensures
        r == valid_name(name@),
{
    let chars = chars_of(name.as_str());
    let mut i: usize = 0;
    while i < chars.len()
        invariant
            i <= chars.len(),
            chars@ == name@,
            forall|j: int| 0 <= j < i ==> !reserved(#[trigger] chars@[j]),
        decreases chars.len() - i,
    {
        let c = chars[i];
        if c == '\\' || c == '/' || c == '#' || c == '|' || c == '"' || c == '*' || c == '?' || c
            == '<' || c == '>' || c == ':' {
            return false;
        }
        i += 1;
    }
    true
}

/// Whether `c` is one of the ten decimal digits.
pub open spec fn is_digit(c: char) -> bool {
    '0' <= c <= '9'
}

/// Whether `s` is made of decimal digits only.
pub open spec fn all_digits(s: Seq<char>) -> bool {
    forall|i: int| 0 <= i < s.len() ==> is_digit(#[trigger] s[i])
}

/// The number that the decimal digits of `s` write.
pub open spec fn digits_value(s: Seq<char>) -> nat
    decreases s.len(),
{
    if s.len() == 0 {
        0
    } else {
        digits_value(s.drop_last()) * 10 + (s.last() as nat - '0' as nat) as nat
    }
}

/// The number that `s` writes, where `s` is an optional sign followed by one
/// or more decimal digits and the number fits in 32 bits with a sign.
pub open spec fn parse_index(s: Seq<char>) -> Option<int> {
    let negative = s.len() > 0 && s[0] == '-';
    let signed = s.len() > 0 && (s[0] == '-' || s[0] == '+');
    let digits = if signed {
        s.skip(1)
    } else {
        s
    };
    if digits.len() == 0 || !all_digits(digits) {
        None
    } else {
        let v = if negative {
            -(digits_value(digits) as int)
        } else {
            digits_value(digits) as int
        };
        if i32::MIN <= v <= i32::MAX {
            Some(v)
        } else {
            None
        }
    }
}

/// Whether the last `#` of `s` stands at `h`.
pub open spec fn is_last_hash(s: Seq<char>, h: int) -> bool {
    &&& 0 <= h < s.len()
    &&& s[h] == '#'
    &&& forall|j: int| h < j < s.len() ==> s[j] != '#'
}

/// A name taken apart into the name proper and the occurrence asked for.
///
/// Where the text behind the last `#` writes a number, the result is the text
/// before that `#` and the number. In every other case, a name without `#`
/// among them, it is the whole name and `-1`.
pub open spec fn split_nth(name: Seq<char>) -> (Seq<char>, int) {
    if exists|h: int| is_last_hash(name, h) {
        let h = choose|h: int| is_last_hash(name, h);
        match parse_index(name.skip(h + 1)) {
            Some(n) => (name.take(h), n),
            None => (name, -1),
        }
    } else {
        (name, -1)
    }
}

/// A longer run of digits writes no smaller number than its beginning.
pub proof fn lemma_digits_value_grows(s: Seq<char>, k: int)
    requires
        0 <= k <= s.len(),
        all_digits(s),
    ensures
        digits_value(s.take(k)) <= digits_value(s),
    decreases s.len() - k,
{
    if k == s.len() {
        assert(s.take(k) == s);
    } else {
        lemma_digits_value_grows(s, k + 1);
        assert(s.take(k + 1).drop_last() == s.take(k));
        assert(is_digit(s[k]));
    }
}

/// Reads the number behind the sign, if `digits` writes one of at most
/// `limit`.
fn read_digits(chars: &Vec<char>, from: usize, limit: u64) -> (r: Option<u64>)
    requires
        from <= chars.len(),
        limit <= 0x8000_0000,
    ensures
        r == (if from < chars.len() && all_digits(chars@.skip(from as int)) && digits_value(
            chars@.skip(from as int),
        ) <= limit {
            Some(digits_value(chars@.skip(from as int)) as u64)
        } else {
            None
        }),
{
    let ghost digits = chars@.skip(from as int);
    if from == chars.len() {
        return None;
    }
    let mut acc: u64 = 0;
    let mut i: usize = from;
    proof {
        assert(digits.take(0) == Seq::<char>::empty());
    }
    while i < chars.len()
        invariant
            from <= i <= chars.len(),
            limit <= 0x8000_0000,
            digits == chars@.skip(from as int),
            all_digits(digits.take(i - from)),
            acc == digits_value(digits.take(i - from)),
            acc <= limit,
        decreases chars.len() - i,
    {
        let c = chars[i];
        proof {
            assert(digits[i - from] == c);
            assert(digits.take(i - from + 1).drop_last() == digits.take(i - from));
        }
        if !('0' <= c && c <= '9') {
            return None;
        }
        let d: u64 = (c as u64) - ('0' as u64);
        proof {
            assert(all_digits(digits.take(i - from + 1))) by {
                assert forall|j: int| 0 <= j < i - from + 1 implies is_digit(
                    #[trigger] digits.take(i - from + 1)[j],
                ) by {
                    if j < i - from {
                        assert(digits.take(i - from)[j] == digits[j]);
                    }
                }
            }
        }
        let next: u64 = acc * 10 + d;
        if next > limit {
            proof {
                if all_digits(digits) {
                    lemma_digits_value_grows(digits, i - from + 1);
                }
            }
            return None;
        }
        acc = next;
        i += 1;
    }
    proof {
        assert(digits.take(chars.len() - from) == digits);
    }
    Some(acc)
}

/// Takes a name apart into the name proper and the occurrence that its `#n`
/// suffix asks for; `-1` stands for a name without such a suffix.
pub fn split_nth_item(name: &String) -> (r: (String, i32))
    ensures
        r.0@ == split_nth(name@).0,
        r.1 as int == split_nth(name@).1,
{
    let chars = chars_of(name.as_str());
    let mut h: usize = chars.len();
    while h > 0 && chars[h - 1] != '#'
        invariant
            h <= chars.len(),
            chars@ == name@,
            forall|j: int| h <= j < chars.len() ==> chars@[j] != '#',
        decreases h,
    {
        h -= 1;
    }
    if h == 0 {
        proof {
            assert(!exists|k: int| is_last_hash(name@, k));
        }
        return (name.clone(), -1);
    }
    let at: usize = h - 1;
    proof {
        assert(is_last_hash(name@, at as int));
        let k = choose|k: int| is_last_hash(name@, k);
        assert(k == at) by {
            if k < at {
                assert(name@[at as int] == '#');
            }
        }
    }
    let ghost tail = chars@.skip(h as int);
    let negative = h < chars.len() && chars[h] == '-';
    let signed = h < chars.len() && (chars[h] == '-' || chars[h] == '+');
    let from: usize = if signed {
        h + 1
    } else {
        h
    };
    let limit: u64 = if negative {
        0x8000_0000
    } else {
        0x7fff_ffff
    };
    proof {
        if signed {
            assert(tail.skip(1) == chars@.skip(from as int));
            assert(tail[0] == chars@[h as int]);
        }
    }
    match read_digits(&chars, from, limit) {
        Some(v) => {
            let n: i32 = if negative {
                (0 - (v as i64)) as i32
            } else {
                v as i32
            };
            (text_of(&chars, 0, at), n)
        },
        None => (name.clone(), -1),
    }
}

} // verus!
