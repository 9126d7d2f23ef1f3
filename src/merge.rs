//! The merge stage: the per-disk store files of the output folder, grouped by
//! the first character of their name, each group merged into one sorted file.

use vstd::prelude::*;
use vstd::relations::{sorted_by, total_ordering};

use crate::error::{Error, Errors};
use crate::pattern::{regex_compiles, regex_matches, Pattern};
use crate::store::{lines_of, split_lines};
use crate::text::{push_char, push_str, string_of};

verus! {

/// The pattern of a disk id: an upper-case letter and then ASCII digits. Store files
/// are named by it.
pub const DISK_ID_PATTERN: &'static str = "^[A-Z][0-9]+$";

/// Lexicographic order of lines by code point, which is the order of their
/// UTF-8 bytes.
pub open spec fn line_le(a: Seq<char>, b: Seq<char>) -> bool
    decreases a.len(),
{
    if a.len() == 0 {
        true
    } else if b.len() == 0 {
        false
    } else if (a[0] as u32) < (b[0] as u32) {
        true
    } else if (a[0] as u32) > (b[0] as u32) {
        false
    } else {
        line_le(a.drop_first(), b.drop_first())
    }
}

pub open spec fn line_order() -> spec_fn(Seq<char>, Seq<char>) -> bool {
    |a: Seq<char>, b: Seq<char>| line_le(a, b)
}

proof fn lemma_line_le_reflexive(a: Seq<char>)
    ensures
        line_le(a, a),
    decreases a.len(),
{
    if a.len() > 0 {
        lemma_line_le_reflexive(a.drop_first());
    }
}

proof fn lemma_line_le_antisymmetric(a: Seq<char>, b: Seq<char>)
    requires
        line_le(a, b),
        line_le(b, a),
    ensures
        a == b,
    decreases a.len(),
{
    if a.len() > 0 && b.len() > 0 {
        lemma_line_le_antisymmetric(a.drop_first(), b.drop_first());
        vstd::utf8::char_u32_cast(a[0], a[0] as u32);
        vstd::utf8::char_u32_cast(b[0], b[0] as u32);
        assert(a[0] == b[0]);
        assert(a =~= seq![a[0]] + a.drop_first());
        assert(b =~= seq![b[0]] + b.drop_first());
    }
}

proof fn lemma_line_le_transitive(a: Seq<char>, b: Seq<char>, c: Seq<char>)
    requires
        line_le(a, b),
        line_le(b, c),
    ensures
        line_le(a, c),
    decreases a.len(),
{
    if a.len() > 0 && b.len() > 0 && c.len() > 0 {
        if a[0] as u32 == b[0] as u32 && b[0] as u32 == c[0] as u32 {
            lemma_line_le_transitive(a.drop_first(), b.drop_first(), c.drop_first());
        }
    }
}

proof fn lemma_line_le_connected(a: Seq<char>, b: Seq<char>)
    ensures
        line_le(a, b) || line_le(b, a),
    decreases a.len(),
{
    if a.len() > 0 && b.len() > 0 {
        lemma_line_le_connected(a.drop_first(), b.drop_first());
    }
}

/// Lexicographic order of lines is a total order.
pub proof fn lemma_line_order_total()
    ensures
        total_ordering(line_order()),
{
    let r = line_order();
    assert forall|x: Seq<char>| #[trigger] r(x, x) by {
        lemma_line_le_reflexive(x);
    }
    assert forall|x: Seq<char>, y: Seq<char>| #[trigger] r(x, y) && #[trigger] r(y, x) implies x
        == y by {
        lemma_line_le_antisymmetric(x, y);
    }
    assert forall|x: Seq<char>, y: Seq<char>, z: Seq<char>|
        #[trigger] r(x, y) && #[trigger] r(y, z) implies r(x, z) by {
        lemma_line_le_transitive(x, y, z);
    }
    assert forall|x: Seq<char>, y: Seq<char>| #[trigger] r(x, y) || #[trigger] r(y, x) by {
        lemma_line_le_connected(x, y);
    }
}

/// The characters of the strings of `v`.
pub open spec fn texts(v: Seq<String>) -> Seq<Seq<char>> {
    v.map_values(|s: String| s@)
}

/// The texts of `cs`, one after the other.
pub open spec fn concat_all(cs: Seq<Seq<char>>) -> Seq<char>
    decreases cs.len(),
{
    if cs.len() == 0 {
        Seq::empty()
    } else {
        concat_all(cs.drop_last()) + cs.last()
    }
}

/// Each of `ls` followed by `'\n'`.
pub open spec fn join_lines(ls: Seq<Seq<char>>) -> Seq<char>
    decreases ls.len(),
{
    if ls.len() == 0 {
        Seq::empty()
    } else {
        join_lines(ls.drop_last()) + ls.last() + seq!['\n']
    }
}

/// The merged file of a group whose store files hold `cs`: all their lines,
/// sorted, each ending in `'\n'`.
pub open spec fn merged_text(cs: Seq<Seq<char>>) -> Seq<char> {
    join_lines(lines_of(concat_all(cs)).sort_by(line_order()))
}

/// Relies on `slice::sort` of `String`s: afterwards the strings stand in
/// ascending order, which for strings compares the UTF-8 bytes
/// lexicographically (the order of code points), and they are the same
/// strings, rearranged.
#[verifier::external_body]
fn sort_strings(v: &mut Vec<String>)
    ensures
        texts(final(v)@).to_multiset() == texts(old(v)@).to_multiset(),
        sorted_by(texts(final(v)@), line_order()),
{
    v.sort();
}

/// The lines of `t`, as `lines_of` splits them.
pub fn split_text_lines(t: &str) -> (r: Vec<String>)
    ensures
        texts(r@) == lines_of(t@),
{
    let cs = crate::text::chars_of(t);
    let ghost tv = cs@;
    let mut out: Vec<String> = Vec::new();
    let mut cur: Vec<char> = Vec::new();
    let mut i: usize = 0;
    assert(tv.take(0) =~= Seq::<char>::empty());
    assert(texts(out@) =~= Seq::<Seq<char>>::empty());
    while i < cs.len()
        invariant
            i <= cs.len(),
            tv == cs@,
            tv == t@,
            split_lines(tv.take(i as int)) == (texts(out@), cur@),
        decreases cs.len() - i,
    {
        assert(tv.take(i + 1).drop_last() == tv.take(i as int));
        let c = cs[i];
        if c == '\n' {
            let line = string_of(&cur);
            out.push(line);
            cur = Vec::new();
            assert(texts(out@) =~= split_lines(tv.take(i + 1)).0);
        } else {
            cur.push(c);
        }
        i = i + 1;
    }
    assert(tv.take(cs.len() as int) == tv);
    if cur.len() > 0 {
        let line = string_of(&cur);
        out.push(line);
        assert(texts(out@) =~= lines_of(tv));
    }
    out
}

/// The contents of the store files of one group merged into one text: their
/// lines, sorted by code point, each ending in `'\n'`.
pub fn merge_hash_files_contents(contents: &Vec<String>) -> (r: String)
    ensures
        r@ == merged_text(texts(contents@)),
{
    let ghost cs = texts(contents@);
    let mut all = String::new();
    let mut i: usize = 0;
    assert(cs.take(0) =~= Seq::<Seq<char>>::empty());
    while i < contents.len()
        invariant
            i <= contents.len(),
            cs == texts(contents@),
            all@ == concat_all(cs.take(i as int)),
        decreases contents.len() - i,
    {
        assert(cs.take(i + 1).drop_last() == cs.take(i as int));
        push_str(&mut all, contents[i].as_str());
        i = i + 1;
    }
    assert(cs.take(i as int) == cs);
    let mut lines = split_text_lines(all.as_str());
    let ghost unsorted = texts(lines@);
    sort_strings(&mut lines);
    proof {
        lemma_line_order_total();
        unsorted.lemma_sort_by_ensures(line_order());
        vstd::seq_lib::lemma_sorted_unique(texts(lines@), unsorted.sort_by(line_order()), line_order());
    }
    let ghost sorted = texts(lines@);
    let mut merged = String::new();
    let mut j: usize = 0;
    assert(sorted.take(0) =~= Seq::<Seq<char>>::empty());
    while j < lines.len()
        invariant
            j <= lines.len(),
            sorted == texts(lines@),
            merged@ == join_lines(sorted.take(j as int)),
        decreases lines.len() - j,
    {
        assert(sorted.take(j + 1).drop_last() == sorted.take(j as int));
        push_str(&mut merged, lines[j].as_str());
        push_char(&mut merged, '\n');
        assert(merged@ =~= join_lines(sorted.take(j + 1)));
        j = j + 1;
    }
    assert(sorted.take(j as int) == sorted);
    merged
}

/// The names among `ns` that the disk id pattern matches, in order.
pub open spec fn store_names(ns: Seq<Seq<char>>) -> Seq<Seq<char>> {
    ns.filter(|n: Seq<char>| regex_matches(DISK_ID_PATTERN@, n))
}

/// The names of `file_names` that name a store file: those that the disk id
/// pattern matches.
pub fn select_hash_files(file_names: Vec<String>) -> (r: Result<Vec<String>, Errors>)
    ensures
        r is Ok <==> regex_compiles(DISK_ID_PATTERN@),
        r matches Ok(v) ==> texts(v@) == store_names(texts(file_names@)),
{
    let pattern = match Pattern::new(DISK_ID_PATTERN) {
        Some(p) => p,
        None => {
            return Err(Error::new("the disk id pattern does not compile").as_errors());
        },
    };
    let ghost ns = texts(file_names@);
    let ghost pred = |n: Seq<char>| regex_matches(DISK_ID_PATTERN@, n);
    let mut selected: Vec<String> = Vec::new();
    assert(ns.take(0).filter(pred) =~= Seq::<Seq<char>>::empty()) by {
        reveal(Seq::filter);
    }
    assert(texts(selected@) =~= Seq::<Seq<char>>::empty());
    for name in it: file_names
        invariant
            ns == texts(it.seq()),
            pred == (|n: Seq<char>| regex_matches(DISK_ID_PATTERN@, n)),
            pattern.source() == DISK_ID_PATTERN@,
            texts(selected@) == ns.take(it.index() as int).filter(pred),
    {
        let ghost i = it.index() as int;
        assert(ns.take(i + 1).drop_last() == ns.take(i));
        assert(ns[i] == name@);
        assert(ns.take(i + 1).filter(pred) == if pred(name@) {
            ns.take(i).filter(pred).push(name@)
        } else {
            ns.take(i).filter(pred)
        }) by {
            reveal(Seq::filter);
        }
        if pattern.is_match(name.as_str()) {
            selected.push(name);
            assert(texts(selected@) =~= ns.take(i + 1).filter(pred));
        }
    }
    assert(ns.take(ns.len() as int) == ns);
    assert(store_names(ns) == ns.filter(pred));
    Ok(selected)
}

/// Whether `n` starts with `c`.
pub open spec fn starts_with_char(n: Seq<char>, c: char) -> bool {
    n.len() > 0 && n[0] == c
}

/// The names of `ns` that start with `c`, in order.
pub open spec fn group_of(ns: Seq<Seq<char>>, c: char) -> Seq<Seq<char>> {
    ns.filter(|n: Seq<char>| starts_with_char(n, c))
}

proof fn lemma_group_of_push(ns: Seq<Seq<char>>, n: Seq<char>, c: char)
    ensures
        group_of(ns.push(n), c) == if starts_with_char(n, c) {
            group_of(ns, c).push(n)
        } else {
            group_of(ns, c)
        },
{
    reveal(Seq::filter);
    assert(ns.push(n).drop_last() == ns);
}

proof fn lemma_group_of_empty(ns: Seq<Seq<char>>, c: char)
    requires
        forall|i: int| 0 <= i < ns.len() ==> !starts_with_char(#[trigger] ns[i], c),
    ensures
        group_of(ns, c) == Seq::<Seq<char>>::empty(),
    decreases ns.len(),
{
    reveal(Seq::filter);
    if ns.len() > 0 {
        assert forall|i: int| 0 <= i < ns.drop_last().len() implies !starts_with_char(
            #[trigger] ns.drop_last()[i],
            c,
        ) by {
            assert(ns.drop_last()[i] == ns[i]);
        }
        lemma_group_of_empty(ns.drop_last(), c);
        assert(!starts_with_char(ns[ns.len() - 1], c));
    }
}

/// Groups store file names by their first character: one group per
/// character that starts a name, holding those names in order. Groups stand
/// in the order in which their character first appears.
pub fn group_hash_files(hash_files: Vec<String>) -> (r: Vec<(char, Vec<String>)>)
    ensures
        forall|j: int, k: int|
            0 <= j < r.len() && 0 <= k < r.len() && j != k ==> #[trigger] r@[j].0 != #[trigger] r@[k].0,
        forall|j: int|
            0 <= j < r.len() ==> texts((#[trigger] r@[j]).1@) == group_of(
                texts(hash_files@),
                r@[j].0,
            ) && r@[j].1.len() > 0,
        forall|i: int|
            0 <= i < hash_files.len() && (#[trigger] hash_files@[i])@.len() > 0 ==> exists|j: int|
                0 <= j < r.len() && (#[trigger] r@[j]).0 == hash_files@[i]@[0],
{
    let ghost ns = texts(hash_files@);
    let mut groups: Vec<(char, Vec<String>)> = Vec::new();
    for name in it: hash_files
        invariant
            ns == texts(it.seq()),
            forall|j: int, k: int|
                0 <= j < groups.len() && 0 <= k < groups.len() && j != k ==> #[trigger] groups@[j].0
                    != #[trigger] groups@[k].0,
            forall|j: int|
                0 <= j < groups.len() ==> texts((#[trigger] groups@[j]).1@) == group_of(
                    ns.take(it.index() as int),
                    groups@[j].0,
                ) && groups@[j].1.len() > 0,
            forall|i: int|
                0 <= i < it.index() && (#[trigger] ns[i]).len() > 0 ==> exists|j: int|
                    0 <= j < groups.len() && (#[trigger] groups@[j]).0 == ns[i][0],
    {
        let ghost i = it.index() as int;
        let ghost before = ns.take(i);
        assert(ns.take(i + 1) == before.push(name@));
        assert(ns[i] == name@);
        let ghost old_groups = groups@;
        if name.as_str().unicode_len() > 0 {
            let c = name.as_str().get_char(0);
            let mut found: Option<usize> = None;
            let mut j: usize = 0;
            while j < groups.len()
                invariant
                    j <= groups.len(),
                    found matches Some(x) ==> x < groups.len() && groups@[x as int].0 == c,
                    found is None ==> forall|k: int| 0 <= k < j ==> (#[trigger] groups@[k]).0 != c,
                decreases groups.len() - j,
            {
                if found.is_none() && groups[j].0 == c {
                    found = Some(j);
                }
                j = j + 1;
            }
            proof {
                assert forall|k: int| 0 <= k < groups.len() implies group_of(
                    ns.take(i + 1),
                    (#[trigger] groups@[k]).0,
                ) == if groups@[k].0 == c {
                    group_of(before, groups@[k].0).push(name@)
                } else {
                    group_of(before, groups@[k].0)
                } by {
                    lemma_group_of_push(before, name@, groups@[k].0);
                }
            }
            match found {
                Some(j) => {
                    let ghost gj = groups@[j as int];
                    let mut members = Vec::new();
                    std::mem::swap(&mut members, &mut groups[j].1);
                    members.push(name);
                    groups[j] = (c, members);
                    proof {
                        assert forall|k: int| 0 <= k < groups.len() && k != j implies groups@[k]
                            == old_groups[k] by {}
                        assert(texts(groups@[j as int].1@) =~= texts(gj.1@).push(name@));
                        assert forall|x: int|
                            0 <= x <= i && (#[trigger] ns[x]).len() > 0 implies exists|k: int|
                            0 <= k < groups.len() && (#[trigger] groups@[k]).0 == ns[x][0] by {
                            if x < i {
                                let k = choose|k: int|
                                    0 <= k < old_groups.len() && (#[trigger] old_groups[k]).0
                                        == ns[x][0];
                                assert(groups@[k].0 == old_groups[k].0);
                            } else {
                                assert(groups@[j as int].0 == ns[x][0]);
                            }
                        }
                    }
                },
                None => {
                    proof {
                        assert forall|x: int| 0 <= x < before.len() implies !starts_with_char(
                            #[trigger] before[x],
                            c,
                        ) by {
                            assert(before[x] == ns[x]);
                            if before[x].len() > 0 && before[x][0] == c {
                                let k = choose|k: int|
                                    0 <= k < old_groups.len() && (#[trigger] old_groups[k]).0
                                        == ns[x][0];
                                assert(groups@[k].0 != c);
                            }
                        }
                        lemma_group_of_empty(before, c);
                        lemma_group_of_push(before, name@, c);
                    }
                    let mut members = Vec::new();
                    members.push(name);
                    groups.push((c, members));
                    proof {
                        let last = groups.len() - 1;
                        assert(texts(groups@[last].1@) =~= seq![ns[i]]);
                        assert(group_of(ns.take(i + 1), c) =~= seq![ns[i]]);
                        assert forall|k: int| 0 <= k < last implies groups@[k] == old_groups[k] by {}
                        assert forall|x: int|
                            0 <= x <= i && (#[trigger] ns[x]).len() > 0 implies exists|k: int|
                            0 <= k < groups.len() && (#[trigger] groups@[k]).0 == ns[x][0] by {
                            if x < i {
                                let k = choose|k: int|
                                    0 <= k < old_groups.len() && (#[trigger] old_groups[k]).0
                                        == ns[x][0];
                                assert(groups@[k].0 == old_groups[k].0);
                            } else {
                                assert(groups@[last].0 == ns[x][0]);
                            }
                        }
                    }
                },
            }
        } else {
            proof {
                assert forall|k: int| 0 <= k < groups.len() implies group_of(
                    ns.take(i + 1),
                    (#[trigger] groups@[k]).0,
                ) == group_of(before, groups@[k].0) by {
                    lemma_group_of_push(before, name@, groups@[k].0);
                }
            }
        }
    }
    proof {
        assert(ns.take(ns.len() as int) == ns);
        assert forall|i: int|
            0 <= i < hash_files.len() && (#[trigger] hash_files@[i])@.len() > 0 implies exists|j: int|
            0 <= j < groups.len() && (#[trigger] groups@[j]).0 == hash_files@[i]@[0] by {
            assert(ns[i] == hash_files@[i]@);
        }
    }
    groups
}

/// The name of the merged file of the group whose names start with `c`.
pub fn merged_file_name(disk_group: char) -> (r: String)
    ensures
        r@ == seq![disk_group],
{
    let mut r = String::new();
    push_char(&mut r, disk_group);
    r
}

/// The groups of store files to merge, among the names of the files of the
/// output folder: the names that the disk id pattern matches, grouped by
/// their first character.
pub fn integrate_hash_files(file_names: Vec<String>) -> (r: Result<Vec<(char, Vec<String>)>, Errors>)
    ensures
        r is Ok <==> regex_compiles(DISK_ID_PATTERN@),
        r matches Ok(groups) ==> {
            let selected = store_names(texts(file_names@));
            &&& forall|j: int, k: int|
                0 <= j < groups.len() && 0 <= k < groups.len() && j != k ==> #[trigger] groups@[j].0
                    != #[trigger] groups@[k].0
            &&& forall|j: int|
                0 <= j < groups.len() ==> texts((#[trigger] groups@[j]).1@) == group_of(
                    selected,
                    groups@[j].0,
                ) && groups@[j].1.len() > 0
            &&& forall|i: int|
                0 <= i < selected.len() && (#[trigger] selected[i]).len() > 0 ==> exists|j: int|
                    0 <= j < groups.len() && (#[trigger] groups@[j]).0 == selected[i][0]
        },
{
    let selected = select_hash_files(file_names)?;
    let ghost sel = selected@;
    let groups = group_hash_files(selected);
    proof {
        let st = texts(sel);
        assert forall|i: int| 0 <= i < st.len() && (#[trigger] st[i]).len() > 0 implies exists|j: int|
            0 <= j < groups.len() && (#[trigger] groups@[j]).0 == st[i][0] by {
            assert(st[i] == sel[i]@);
        }
    }
    Ok(groups)
}

// ---------------------------------------------------------------------------
// Independence of the listing order

/// A text that is empty or ends with a line break, as every store file does.
pub open spec fn terminated(c: Seq<char>) -> bool {
    c.len() == 0 || c.last() == '\n'
}

/// The lines of each of `cs`, one text after the other.
pub open spec fn all_lines(cs: Seq<Seq<char>>) -> Seq<Seq<char>>
    decreases cs.len(),
{
    if cs.len() == 0 {
        Seq::empty()
    } else {
        all_lines(cs.drop_last()) + split_lines(cs.last()).0
    }
}

proof fn lemma_split_concat(a: Seq<char>, b: Seq<char>)
    requires
        split_lines(a).1.len() == 0,
    ensures
        split_lines(a + b) == (split_lines(a).0 + split_lines(b).0, split_lines(b).1),
    decreases b.len(),
{
    if b.len() == 0 {
        assert(a + b == a);
        assert(split_lines(a).0 + split_lines(b).0 == split_lines(a).0);
        assert(split_lines(a).1 =~= split_lines(b).1);
    } else {
        lemma_split_concat(a, b.drop_last());
        assert((a + b).drop_last() == a + b.drop_last());
        let (bl, br) = split_lines(b.drop_last());
        if b.last() == '\n' {
            assert((split_lines(a).0 + bl).push(br) == split_lines(a).0 + bl.push(br));
        }
    }
}

proof fn lemma_terminated_split(c: Seq<char>)
    requires
        terminated(c),
    ensures
        split_lines(c).1.len() == 0,
        lines_of(c) == split_lines(c).0,
{
}

proof fn lemma_concat_lines(cs: Seq<Seq<char>>)
    requires
        forall|i: int| 0 <= i < cs.len() ==> terminated(#[trigger] cs[i]),
    ensures
        split_lines(concat_all(cs)).1.len() == 0,
        lines_of(concat_all(cs)) == all_lines(cs),
    decreases cs.len(),
{
    if cs.len() > 0 {
        assert forall|i: int| 0 <= i < cs.drop_last().len() implies terminated(
            #[trigger] cs.drop_last()[i],
        ) by {
            assert(cs.drop_last()[i] == cs[i]);
        }
        lemma_concat_lines(cs.drop_last());
        assert(terminated(cs[cs.len() - 1]));
        lemma_terminated_split(cs.last());
        lemma_split_concat(concat_all(cs.drop_last()), cs.last());
    }
}

proof fn lemma_all_lines_remove(cs: Seq<Seq<char>>, j: int)
    requires
        0 <= j < cs.len(),
    ensures
        all_lines(cs).to_multiset() =~= all_lines(cs.remove(j)).to_multiset().add(
            split_lines(cs[j]).0.to_multiset(),
        ),
    decreases cs.len(),
{
    broadcast use vstd::seq_lib::lemma_multiset_commutative;
    broadcast use vstd::multiset::group_multiset_axioms;

    if j == cs.len() - 1 {
        assert(cs.remove(j) == cs.drop_last());
    } else {
        let dl = cs.drop_last();
        lemma_all_lines_remove(dl, j);
        assert(cs.remove(j).drop_last() == dl.remove(j));
        assert(cs.remove(j).last() == cs.last());
        assert(dl[j] == cs[j]);
        let a = all_lines(dl.remove(j)).to_multiset();
        let x = split_lines(cs[j]).0.to_multiset();
        let y = split_lines(cs.last()).0.to_multiset();
        assert(a.add(x).add(y) =~= a.add(y).add(x));
    }
}

proof fn lemma_all_lines_permutation(cs1: Seq<Seq<char>>, cs2: Seq<Seq<char>>)
    requires
        cs1.to_multiset() == cs2.to_multiset(),
    ensures
        all_lines(cs1).to_multiset() == all_lines(cs2).to_multiset(),
    decreases cs1.len(),
{
    broadcast use vstd::seq_lib::group_to_multiset_ensures;
    broadcast use vstd::seq_lib::lemma_multiset_commutative;
    broadcast use vstd::multiset::group_multiset_axioms;

    if cs1.len() == 0 {
        assert(cs1.to_multiset().len() == cs1.len());
        assert(cs2.to_multiset().len() == cs2.len());
        assert(cs2.len() == 0);
        assert(cs1 =~= cs2);
    } else {
        let x = cs1.last();
        assert(cs1 == cs1.drop_last().push(x));
        assert(cs1.to_multiset().count(x) > 0);
        assert(cs2.to_multiset().count(x) > 0);
        assert(cs2.contains(x));
        let j = choose|j: int| 0 <= j < cs2.len() && cs2[j] == x;
        assert(cs2.remove(j).to_multiset() == cs2.to_multiset().remove(x));
        assert(cs1.drop_last().to_multiset() =~= cs1.to_multiset().remove(x));
        lemma_all_lines_permutation(cs1.drop_last(), cs2.remove(j));
        lemma_all_lines_remove(cs2, j);
    }
}

/// The merged text of a group does not depend on the order in which its
/// store files were listed: where each file is empty or ends with a line
/// break, any rearrangement of the files gives the same text.
pub proof fn lemma_merge_order_independent(cs1: Seq<Seq<char>>, cs2: Seq<Seq<char>>)
    requires
        cs1.to_multiset() == cs2.to_multiset(),
        forall|i: int| 0 <= i < cs1.len() ==> terminated(#[trigger] cs1[i]),
    ensures
        merged_text(cs1) == merged_text(cs2),
{
    broadcast use vstd::seq_lib::group_to_multiset_ensures;

    assert forall|i: int| 0 <= i < cs2.len() implies terminated(#[trigger] cs2[i]) by {
        assert(cs2.contains(cs2[i]));
        assert(cs2.to_multiset().count(cs2[i]) > 0);
        assert(cs1.to_multiset().count(cs2[i]) > 0);
        assert(cs1.contains(cs2[i]));
    }
    lemma_concat_lines(cs1);
    lemma_concat_lines(cs2);
    lemma_all_lines_permutation(cs1, cs2);
    let l1 = lines_of(concat_all(cs1));
    let l2 = lines_of(concat_all(cs2));
    lemma_line_order_total();
    l1.lemma_sort_by_ensures(line_order());
    l2.lemma_sort_by_ensures(line_order());
    vstd::seq_lib::lemma_sorted_unique(l1.sort_by(line_order()), l2.sort_by(line_order()), line_order());
}

} // verus!
