//! Laws that hold of the operations of the tree, stated over more than one
//! call or over all inputs.

use crate::commands::names_of;
use crate::disk::Disk;
use crate::error::{ErrorKind, TreeError};
use crate::item::{
    count_named, find_child, find_dir, first_dir_named, is_dir, is_first_dir, is_nth_named, leaf,
    lemma_nth_found, lemma_nth_missing, make_directory_result, ItemView,
};
use crate::name::{
    all_digits, digits_value, is_digit, is_last_hash, parse_index, split_nth,
};
use crate::text::{decimal, digit_char};
use crate::model::{apply_segments, is_parent, is_skipped, parent_of, resolve, TreeModel};
use crate::text::{is_sep, lemma_split_nonempty, split};
use vstd::prelude::*;

verus! {

/// A separator behind a text opens a new, empty segment.
pub proof fn lemma_split_push_sep(s: Seq<char>, c: char, backslash: bool)
    requires
        is_sep(c, backslash),
    ensures
        split(s.push(c), backslash) == split(s, backslash).push(Seq::empty()),
{
    assert(s.push(c).drop_last() =~= s);
}

/// A text without separators behind another extends its last segment.
pub proof fn lemma_split_append_plain(s: Seq<char>, t: Seq<char>, backslash: bool)
    requires
        forall|i: int| 0 <= i < t.len() ==> !is_sep(#[trigger] t[i], backslash),
    ensures
        split(s + t, backslash) == split(s, backslash).drop_last().push(
            split(s, backslash).last() + t,
        ),
    decreases t.len(),
{
    lemma_split_nonempty(s, backslash);
    let whole = split(s, backslash);
    if t.len() == 0 {
        assert(s + t =~= s);
        assert(whole.last() + t =~= whole.last());
        assert(whole.drop_last().push(whole.last()) =~= whole);
    } else {
        let head = t.drop_last();
        lemma_split_append_plain(s, head, backslash);
        assert((s + t).drop_last() =~= s + head);
        assert((s + t).last() == t.last());
        let before = split(s + head, backslash);
        assert(before.drop_last() =~= whole.drop_last());
        assert(before.last().push(t.last()) =~= whole.last() + t);
    }
}

/// To go into a directory and straight back out is to stay: a typed path that
/// is followed by a name and then by `..` names the position that the path
/// alone names. So `a/b/..` names what `a` names.
pub proof fn law_resolve_there_and_back(current: Seq<Seq<char>>, path: Seq<char>, name: Seq<char>)
    requires
        !is_skipped(name),
        !is_parent(name),
        forall|i: int| 0 <= i < name.len() ==> !is_sep(#[trigger] name[i], true),
    ensures
        resolve(current, path + seq!['/'] + name + seq!['/', '.', '.']) == resolve(current, path),
{
    let a = path.push('/');
    let b = a + name;
    let c = b.push('/');
    let up = seq!['.', '.'];
    let d = c + up;
    assert(path + seq!['/'] + name + seq!['/', '.', '.'] =~= d);
    let segs = split(path, true);
    lemma_split_nonempty(path, true);
    lemma_split_push_sep(path, '/', true);
    lemma_split_append_plain(a, name, true);
    assert(split(b, true) =~= segs.push(name)) by {
        assert(split(a, true).drop_last() =~= segs);
        assert(Seq::<char>::empty() + name =~= name);
    }
    lemma_split_push_sep(b, '/', true);
    lemma_split_append_plain(c, up, true);
    assert(split(d, true) =~= segs.push(name).push(up)) by {
        assert(split(c, true).drop_last() =~= segs.push(name));
        assert(Seq::<char>::empty() + up =~= up);
    }
    let base = if path.len() > 0 && path[0] == '~' {
        Seq::<Seq<char>>::empty()
    } else {
        current
    };
    assert(d[0] == '~' <==> path.len() > 0 && path[0] == '~');
    let all = segs.push(name).push(up);
    assert(all.drop_last() =~= segs.push(name));
    assert(segs.push(name).drop_last() =~= segs);
    assert(apply_segments(base, segs.push(name)) == apply_segments(base, segs).push(name));
    assert(apply_segments(base, all) == parent_of(apply_segments(base, segs).push(name)));
    assert(apply_segments(base, segs).push(name).drop_last() =~= apply_segments(base, segs));
}

/// A listing says the same when it is asked again: two answers of
/// `ls_simple` to one question, of one tree and one disk, are the same text,
/// or fail alike.
pub proof fn law_ls_simple_repeats(
    tree: &TreeModel,
    path: Option<String>,
    disk: &Disk,
    first: Result<String, TreeError>,
    second: Result<String, TreeError>,
)
    requires
        call_ensures(TreeModel::ls_simple, (tree, path, disk), first),
        call_ensures(TreeModel::ls_simple, (tree, path, disk), second),
    ensures
        first is Ok <==> second is Ok,
        first is Ok ==> first->Ok_0@ == second->Ok_0@,
        first is Err ==> first->Err_0.kind == second->Err_0.kind,
{
}

/// Where some node of `s` is a directory named `name`, one of them is the
/// first.
pub proof fn lemma_first_dir_exists(
    s: Seq<ItemView>,
    name: Seq<char>,
    files: Set<Seq<char>>,
    j: int,
)
    requires
        0 <= j < s.len(),
        s[j].name == name,
        is_dir(s[j], files),
    ensures
        first_dir_named(s, name, files) is Some,
    decreases j,
{
    if exists|k: int| 0 <= k < j && (#[trigger] s[k]).name == name && is_dir(s[k], files) {
        let k = choose|k: int| 0 <= k < j && (#[trigger] s[k]).name == name && is_dir(s[k], files);
        lemma_first_dir_exists(s, name, files, k);
    } else {
        assert(is_first_dir(s, name, files, j));
    }
}

/// A directory that was made stands last among the children, and cannot be
/// made a second time: the second attempt fails with `AlreadyExists`.
pub proof fn law_made_directory_is_there(n: ItemView, name: Seq<char>, files: Set<Seq<char>>)
    requires
        make_directory_result(n, name, files) is Ok,
    ensures
        names_of(make_directory_result(n, name, files)->Ok_0.children) == names_of(
            n.children,
        ).push(name),
        make_directory_result(make_directory_result(n, name, files)->Ok_0, name, files) == Err::<
            ItemView,
            ErrorKind,
        >(ErrorKind::AlreadyExists),
{
    let m = make_directory_result(n, name, files)->Ok_0;
    assert(m.children == n.children.push(leaf(name)));
    assert(names_of(m.children) =~= names_of(n.children).push(name));
    lemma_first_dir_exists(m.children, name, files, n.children.len() as int);
}

/// A name without `#` has no suffix: it is taken as it stands.
pub proof fn law_name_without_hash(name: Seq<char>)
    requires
        forall|i: int| 0 <= i < name.len() ==> name[i] != '#',
    ensures
        split_nth(name) == (name, -1int),
{
    assert(!exists|h: int| is_last_hash(name, h));
}

/// Where no node of `s` bears a name, the count of that name is 0.
pub proof fn lemma_count_none(s: Seq<ItemView>, name: Seq<char>)
    requires
        forall|j: int| 0 <= j < s.len() ==> (#[trigger] s[j]).name != name,
    ensures
        count_named(s, name) == 0,
    decreases s.len(),
{
    if s.len() > 0 {
        lemma_count_none(s.drop_last(), name);
    }
}

/// A name without `#` selects the first child of exactly that name: where
/// several children bear it, the one that was added first wins.
pub proof fn law_plain_name_selects_first(n: ItemView, name: Seq<char>, i: int)
    requires
        forall|k: int| 0 <= k < name.len() ==> name[k] != '#',
        0 <= i < n.children.len(),
        n.children[i].name == name,
        forall|j: int| 0 <= j < i ==> (#[trigger] n.children[j]).name != name,
    ensures
        find_child(n, name) == Ok::<int, ErrorKind>(i),
{
    law_name_without_hash(name);
    lemma_count_none(n.children.take(i), name);
    assert(is_nth_named(n.children, name, 0, i));
    lemma_nth_found(n.children, name, 0, i);
}

/// A name without `#` that no child bears is not found.
pub proof fn law_missing_name_is_not_found(n: ItemView, name: Seq<char>)
    requires
        forall|k: int| 0 <= k < name.len() ==> name[k] != '#',
        forall|j: int| 0 <= j < n.children.len() ==> (#[trigger] n.children[j]).name != name,
    ensures
        find_child(n, name) == Err::<int, ErrorKind>(ErrorKind::NotFound),
{
    law_name_without_hash(name);
    lemma_count_none(n.children, name);
    lemma_nth_missing(n.children, name, 0);
}

/// The decimal digits of a number are digits, and write that number.
pub proof fn lemma_decimal_reads_back(k: nat)
    ensures
        decimal(k).len() > 0,
        all_digits(decimal(k)),
        digits_value(decimal(k)) == k,
        forall|i: int| 0 <= i < decimal(k).len() ==> decimal(k)[i] != '#',
        decimal(k)[0] != '-' && decimal(k)[0] != '+',
    decreases k,
{
    if k < 10 {
        let d = decimal(k);
        assert(d.drop_last() =~= Seq::<char>::empty());
        assert(digits_value(d.drop_last()) == 0);
        assert(is_digit(digit_char(k)));
        assert(digit_char(k) as nat - '0' as nat == k);
    } else {
        lemma_decimal_reads_back(k / 10);
        let d = decimal(k);
        let head = decimal(k / 10);
        assert(d.drop_last() =~= head);
        assert(is_digit(digit_char(k % 10)));
        assert(digit_char(k % 10) as nat - '0' as nat == k % 10);
        assert forall|i: int| 0 <= i < d.len() implies is_digit(#[trigger] d[i]) && d[i] != '#' by {
            if i < head.len() {
                assert(d[i] == head[i]);
            }
        }
        assert(d[0] == head[0]);
    }
}

/// The suffix `#n` asks for the `n`-th of a name: a name followed by `#` and
/// the decimal digits of a number that fits in 32 bits with a sign is taken
/// apart into that name and that number.
pub proof fn law_suffix_names_occurrence(base: Seq<char>, k: nat)
    requires
        k <= i32::MAX,
    ensures
        split_nth(base + seq!['#'] + decimal(k)) == (base, k as int),
{
    lemma_decimal_reads_back(k);
    let name = base + seq!['#'] + decimal(k);
    let h = base.len() as int;
    assert(is_last_hash(name, h)) by {
        assert(name[h] == '#');
        assert forall|j: int| h < j < name.len() implies name[j] != '#' by {
            assert(name[j] == decimal(k)[j - h - 1]);
        }
    }
    let c = choose|c: int| is_last_hash(name, c);
    assert(c == h) by {
        if c < h {
            assert(name[h] == '#');
        }
    }
    assert(name.skip(h + 1) =~= decimal(k));
    assert(name.take(h) =~= base);
    assert(parse_index(decimal(k)) == Some(k as int));
}

/// With the suffix `#k`, a name selects the child that bears it and has
/// exactly `k` children of that name before it, in the order in which they
/// were added.
pub proof fn law_suffix_selects_occurrence(n: ItemView, base: Seq<char>, k: nat, i: int)
    requires
        k <= i32::MAX,
        is_nth_named(n.children, base, k as int, i),
    ensures
        find_child(n, base + seq!['#'] + decimal(k)) == Ok::<int, ErrorKind>(i),
{
    law_suffix_names_occurrence(base, k);
    lemma_nth_found(n.children, base, k as int, i);
}

/// With the suffix `#k`, a name that fewer than `k + 1` children bear
/// selects none: the failure says how many bear it, or that none does.
pub proof fn law_suffix_past_the_last(n: ItemView, base: Seq<char>, k: nat)
    requires
        k <= i32::MAX,
        count_named(n.children, base) <= k,
    ensures
        find_child(n, base + seq!['#'] + decimal(k)) == Err::<int, ErrorKind>(
            if count_named(n.children, base) > 0 {
                ErrorKind::Ambiguous(count_named(n.children, base) as usize)
            } else {
                ErrorKind::NotFound
            },
        ),
{
    law_suffix_names_occurrence(base, k);
    lemma_nth_missing(n.children, base, k as int);
}

/// Among the directories, a name selects the first child of that name that
/// is no file, whatever files of the name stand before it.
pub proof fn law_first_directory_is_found(
    n: ItemView,
    name: Seq<char>,
    files: Set<Seq<char>>,
    i: int,
)
    requires
        is_first_dir(n.children, name, files, i),
    ensures
        find_dir(n, name, files) == Ok::<int, ErrorKind>(i),
{
    let k = choose|k: int| is_first_dir(n.children, name, files, k);
    assert(k == i) by {
        if k < i {
            assert(n.children[k].name == name && is_dir(n.children[k], files));
        } else if i < k {
            assert(n.children[i].name == name && is_dir(n.children[i], files));
        }
    }
}

} // verus!
