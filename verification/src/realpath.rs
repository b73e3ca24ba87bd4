//! Paths of the real file system, as texts: how a stored path is made
//! absolute, and how the name of a backing file is taken apart to find one
//! that is free.

use crate::disk::Disk;
use crate::text::{chars_of, decimal, is_sep, push_decimal, text_of};
use vstd::prelude::*;
use vstd::string::StringExecFns;

verus! {

/// A stored path that begins with `.` or `/` is meant from the working
/// directory; any other is taken as it stands.
pub open spec fn looks_relative(p: Seq<char>) -> bool {
    p.len() > 0 && (p[0] == '.' || p[0] == '/')
}

/// `p` without a leading `./` or a leading `/`. A path that begins with a dot
/// and no slash behind it keeps the dot.
pub open spec fn strip_lead(p: Seq<char>) -> Seq<char> {
    if p.len() >= 2 && p[0] == '.' && p[1] == '/' {
        p.skip(2)
    } else if p.len() >= 1 && p[0] == '/' {
        p.skip(1)
    } else {
        p
    }
}

/// `rel` seen from the directory `base`: `rel` itself where it begins with
/// `/`, else `base`, one `/` where `base` does not end in one, and `rel`.
pub open spec fn join_real(base: Seq<char>, rel: Seq<char>) -> Seq<char> {
    if rel.len() > 0 && rel[0] == '/' {
        rel
    } else if base.len() == 0 || base.last() == '/' {
        base + rel
    } else {
        base + seq!['/'] + rel
    }
}

/// The absolute path that the stored path `p` stands for while the working
/// directory is `curdir`.
pub open spec fn absolute(p: Seq<char>, curdir: Seq<char>) -> Seq<char> {
    if looks_relative(p) {
        join_real(curdir, strip_lead(p))
    } else {
        p
    }
}

/// The absolute path that the stored path `path` stands for while the
/// working directory is `curdir`.
pub fn resolve_path(path: &str, curdir: &str) -> (r: String)
    ensures
        r@ == absolute(path@, curdir@),
{
    let chars = chars_of(path);
    let n = chars.len();
    if n == 0 || !(chars[0] == '.' || chars[0] == '/') {
        return String::from_str(path);
    }
    let start: usize = if n >= 2 && chars[0] == '.' && chars[1] == '/' {
        2
    } else if chars[0] == '/' {
        1
    } else {
        0
    };
    let rel = text_of(&chars, start, n);
    proof {
        assert(chars@.subrange(start as int, n as int) =~= strip_lead(path@));
    }
    join_paths(curdir, rel.as_str())
}

/// Where the file name of `c` begins: behind the last separator, or at 0.
pub open spec fn name_start(c: Seq<char>) -> int
    decreases c.len(),
{
    if c.len() == 0 {
        0
    } else if is_sep(c.last(), true) {
        c.len() as int
    } else {
        name_start(c.drop_last())
    }
}

/// The place of the last dot of `name`, or -1.
pub open spec fn last_dot(name: Seq<char>) -> int
    decreases name.len(),
{
    if name.len() == 0 {
        -1
    } else if name.last() == '.' {
        name.len() - 1
    } else {
        last_dot(name.drop_last())
    }
}

/// Where the extension of the file name `name` begins: at its last dot,
/// unless that dot is the first character or there is none; then the name has
/// no extension, and this is its length.
pub open spec fn ext_start(name: Seq<char>) -> int {
    if last_dot(name) > 0 {
        last_dot(name)
    } else {
        name.len() as int
    }
}

/// The `k`-th name to try for a backing file that was asked for as `c`: the
/// directory and the stem of `c`, then `-`, then `k`, then the extension.
pub open spec fn alternative(c: Seq<char>, k: nat) -> Seq<char> {
    let start = name_start(c);
    let name = c.skip(start);
    let dot = ext_start(name);
    c.take(start) + name.take(dot) + seq!['-'] + decimal(k) + name.skip(dot)
}

/// The least `k` from `from` on, and below `bound`, whose alternative is not
/// on the disk.
pub open spec fn first_free(c: Seq<char>, present: Set<Seq<char>>, from: nat, bound: nat) -> Option<
    nat,
>
    decreases bound - from,
{
    if from >= bound {
        None
    } else if !present.contains(alternative(c, from)) {
        Some(from)
    } else {
        first_free(c, present, from + 1, bound)
    }
}

/// A path for a new backing file that is not on the disk: the first free one
/// among `stem-0.ext`, `stem-1.ext` and so on, in the directory of
/// `candidate`. `None` only where all of them are taken.
pub fn unique_backing_path(candidate: &String, disk: &Disk) -> (r: Option<String>)
    ensures
        match r {
            Some(p) => first_free(candidate@, disk@.present, 0, usize::MAX as nat) matches Some(k)
                && p@ == alternative(candidate@, k),
            None => first_free(candidate@, disk@.present, 0, usize::MAX as nat) is None,
        },
{
    let chars = chars_of(candidate.as_str());
    let n = chars.len();
    let ghost c = candidate@;
    let mut start: usize = n;
    proof {
        assert(c.take(n as int) =~= c);
    }
    while start > 0 && !(chars[start - 1] == '/' || chars[start - 1] == '\\')
        invariant
            start <= n,
            n == chars.len(),
            chars@ == c,
            name_start(c) == name_start(c.take(start as int)),
        decreases start,
    {
        proof {
            assert(c.take(start as int).drop_last() =~= c.take(start - 1));
        }
        start -= 1;
    }
    let ghost name = c.skip(start as int);
    let mut dot: usize = n;
    proof {
        assert(name_start(c) == start);
        assert(name.take(n - start) =~= name);
    }
    while dot > start && chars[dot - 1] != '.'
        invariant
            start <= dot <= n,
            n == chars.len(),
            chars@ == c,
            name == c.skip(start as int),
            last_dot(name) == last_dot(name.take(dot - start)),
        decreases dot,
    {
        proof {
            assert(name.take(dot - start).drop_last() =~= name.take(dot - start - 1));
        }
        dot -= 1;
    }
    // `dot` now stands behind the last dot of the name, or at its start.
    let cut: usize = if dot - start > 1 {
        dot - 1
    } else {
        n
    };
    proof {
        if dot > start {
            assert(name.take(dot - start).last() == '.');
        } else {
            assert(name.take(0).len() == 0);
        }
        assert(ext_start(name) == cut - start);
    }
    let head = text_of(&chars, 0, cut);
    let ext = text_of(&chars, cut, n);
    proof {
        assert(head@ =~= c.take(start as int) + name.take(cut - start));
        assert(ext@ =~= name.skip(cut - start));
    }
    let mut k: usize = 0;
    while k < usize::MAX
        invariant
            head@ == c.take(name_start(c)) + c.skip(name_start(c)).take(
                ext_start(c.skip(name_start(c))),
            ),
            ext@ == c.skip(name_start(c)).skip(ext_start(c.skip(name_start(c)))),
            c == candidate@,
            first_free(c, disk@.present, 0, usize::MAX as nat) == first_free(
                c,
                disk@.present,
                k as nat,
                usize::MAX as nat,
            ),
        decreases usize::MAX - k,
    {
        let mut p = head.clone();
        p.push('-');
        push_decimal(&mut p, k);
        p.append(ext.as_str());
        proof {
            assert(p@ =~= alternative(c, k as nat));
        }
        if !disk.is_present(&p) {
            return Some(p);
        }
        k += 1;
    }
    None
}

/// Where the document of the tree named `name` is kept, below the storage
/// directory `vtree`.
pub open spec fn json_path(vtree: Seq<char>, name: Seq<char>) -> Seq<char> {
    join_real(join_real(vtree, seq!['t', 'r', 'e', 'e', 's']), name + seq!['.', 'j', 's', 'o', 'n'])
}

/// `rel` seen from the directory `base`.
pub fn join_paths(base: &str, rel: &str) -> (r: String)
    ensures
        r@ == join_real(base@, rel@),
{
    if crate::text::begins_with(rel, '/') {
        return String::from_str(rel);
    }
    let chars = chars_of(base);
    let mut out = String::from_str(base);
    if chars.len() > 0 && chars[chars.len() - 1] != '/' {
        out.push('/');
    }
    out.append(rel);
    proof {
        assert(out@ =~= join_real(base@, rel@));
    }
    out
}

/// The path of the document of the tree named `name`, below the storage
/// directory `vtree`: `trees/<name>.json`.
pub fn get_json_path(vtree: &str, name: &String) -> (r: String)
    ensures
        r@ == json_path(vtree@, name@),
{
    proof {
        reveal_strlit("trees");
        reveal_strlit(".json");
        assert("trees"@ =~= seq!['t', 'r', 'e', 'e', 's']);
        assert(".json"@ =~= seq!['.', 'j', 's', 'o', 'n']);
    }
    let dir = join_paths(vtree, "trees");
    let mut file = name.clone();
    file.append(".json");
    join_paths(dir.as_str(), file.as_str())
}

} // verus!
