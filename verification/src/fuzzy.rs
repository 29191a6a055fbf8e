//! Fuzzy matching of a lost symlink target against the entries of a tree.

use vstd::prelude::*;
use crate::text::{chars_of, owned, string_seqs};
use crate::path::{
    file_name, dir_components, same_path, depth_below, spec_file_name, spec_dir_components,
    spec_depth_below, components,
};
use crate::scanner::BrokenSymlink;

verus! {

/// The smallest of three numbers.
pub open spec fn min3(x: int, y: int, z: int) -> int {
    if x <= y && x <= z {
        x
    } else if y <= z {
        y
    } else {
        z
    }
}

/// Levenshtein distance: the least number of single-character insertions,
/// deletions and substitutions that turn `a` into `b`, defined on prefixes.
pub open spec fn edit_distance(a: Seq<char>, b: Seq<char>) -> nat
    decreases a.len() + b.len(),
{
    if a.len() == 0 {
        b.len()
    } else if b.len() == 0 {
        a.len()
    } else {
        let cost: int = if a.last() == b.last() { 0 } else { 1 };
        min3(
            edit_distance(a.drop_last(), b.drop_last()) + cost,
            edit_distance(a.drop_last(), b) + 1int,
            edit_distance(a, b.drop_last()) + 1int,
        ) as nat
    }
}

/// The distance never exceeds the length of the longer string.
pub proof fn lemma_edit_distance_at_most_longer(a: Seq<char>, b: Seq<char>)
    ensures
        edit_distance(a, b) <= if a.len() >= b.len() { a.len() } else { b.len() },
    decreases a.len() + b.len(),
{
    if a.len() > 0 && b.len() > 0 {
        lemma_edit_distance_at_most_longer(a.drop_last(), b.drop_last());
    }
}

/// A string is at distance zero from itself, and only from itself.
pub proof fn lemma_edit_distance_zero_iff_equal(a: Seq<char>, b: Seq<char>)
    ensures
        edit_distance(a, b) == 0 <==> a == b,
    decreases a.len() + b.len(),
{
    if a.len() > 0 && b.len() > 0 {
        lemma_edit_distance_zero_iff_equal(a.drop_last(), b.drop_last());
        lemma_edit_distance_zero_iff_equal(a.drop_last(), b);
        lemma_edit_distance_zero_iff_equal(a, b.drop_last());
        if a == b {
            assert(a.drop_last() == b.drop_last());
        }
        if edit_distance(a, b) == 0 {
            assert(a =~= a.drop_last().push(a.last()));
            assert(b =~= b.drop_last().push(b.last()));
        }
    } else if a.len() == 0 && b.len() == 0 {
        assert(a =~= b);
    }
}

/// The distance from `a` to `b` equals the distance from `b` to `a`.
pub proof fn lemma_edit_distance_symmetric(a: Seq<char>, b: Seq<char>)
    ensures
        edit_distance(a, b) == edit_distance(b, a),
    decreases a.len() + b.len(),
{
    if a.len() > 0 && b.len() > 0 {
        lemma_edit_distance_symmetric(a.drop_last(), b.drop_last());
        lemma_edit_distance_symmetric(a.drop_last(), b);
        lemma_edit_distance_symmetric(a, b.drop_last());
    }
}

/// The distance is at least the difference of the two lengths.
pub proof fn lemma_edit_distance_at_least_length_gap(a: Seq<char>, b: Seq<char>)
    ensures
        edit_distance(a, b) >= a.len() - b.len(),
        edit_distance(a, b) >= b.len() - a.len(),
    decreases a.len() + b.len(),
{
    if a.len() > 0 && b.len() > 0 {
        lemma_edit_distance_at_least_length_gap(a.drop_last(), b.drop_last());
        lemma_edit_distance_at_least_length_gap(a.drop_last(), b);
        lemma_edit_distance_at_least_length_gap(a, b.drop_last());
    }
}

/// Against the empty string the distance is the other string's length.
pub proof fn lemma_edit_distance_to_empty(a: Seq<char>)
    ensures
        edit_distance(a, Seq::empty()) == a.len(),
        edit_distance(Seq::empty(), a) == a.len(),
{
}

/// One more character on either side costs at most one more edit, and
/// the same character added to both sides costs nothing more.
pub proof fn lemma_edit_distance_append(a: Seq<char>, b: Seq<char>, c: char)
    ensures
        edit_distance(a.push(c), b) <= edit_distance(a, b) + 1,
        edit_distance(a, b.push(c)) <= edit_distance(a, b) + 1,
        edit_distance(a.push(c), b.push(c)) <= edit_distance(a, b),
{
    assert(a.push(c).drop_last() =~= a);
    assert(b.push(c).drop_last() =~= b);
    if a.len() == 0 {
        assert(edit_distance(a, b) == b.len());
        lemma_edit_distance_at_most_longer(a.push(c), b);
        lemma_edit_distance_at_most_longer(a.push(c), b.push(c));
    }
    if b.len() == 0 {
        assert(edit_distance(a, b) == a.len());
        lemma_edit_distance_at_most_longer(a, b.push(c));
        lemma_edit_distance_at_most_longer(a.push(c), b.push(c));
    }
}

/// Levenshtein distance between the characters of `a` and of `b`.
pub fn levenshtein(a: &str, b: &str) -> (d: usize)
    requires
        a@.len() < usize::MAX,
        b@.len() < usize::MAX,
    ensures
        d == edit_distance(a@, b@),
{
    let a = chars_of(a);
    let b = chars_of(b);
    let m = a.len();
    let n = b.len();
    if m == 0 {
        return n;
    }
    if n == 0 {
        return m;
    }
    let mut prev: Vec<usize> = Vec::new();
    let mut j: usize = 0;
    while j <= n
        invariant
            j <= n + 1,
            n < usize::MAX,
            prev@.len() == j,
            forall|k: int| 0 <= k < j ==> prev@[k] == k,
        decreases n + 1 - j,
    {
        prev.push(j);
        j = j + 1;
    }
    let mut curr: Vec<usize> = Vec::new();
    let mut j: usize = 0;
    while j <= n
        invariant
            j <= n + 1,
            n < usize::MAX,
            curr@.len() == j,
        decreases n + 1 - j,
    {
        curr.push(0);
        j = j + 1;
    }
    assert forall|k: int| 0 <= k <= n implies prev@[k] == edit_distance(
        a@.take(0),
        b@.take(k),
    ) by {
        assert(a@.take(0).len() == 0);
    }
    let mut i: usize = 0;
    while i < m
        invariant
            i <= m,
            m == a@.len(),
            n == b@.len(),
            0 < m < usize::MAX,
            0 < n < usize::MAX,
            prev@.len() == n + 1,
            curr@.len() == n + 1,
            forall|k: int|
                0 <= k <= n ==> #[trigger] prev@[k] == edit_distance(a@.take(i as int), b@.take(k)),
        decreases m - i,
    {
        let ca = a[i];
        proof {
            lemma_edit_distance_at_most_longer(a@.take(i + 1), b@.take(0));
            assert(a@.take(i + 1).len() == i + 1);
            assert(b@.take(0).len() == 0);
        }
        curr.set(0, i + 1);
        let mut j: usize = 0;
        while j < n
            invariant
                i < m,
                j <= n,
                m == a@.len(),
                n == b@.len(),
                0 < m < usize::MAX,
                0 < n < usize::MAX,
                ca == a@[i as int],
                prev@.len() == n + 1,
                curr@.len() == n + 1,
                forall|k: int|
                    0 <= k <= n ==> #[trigger] prev@[k] == edit_distance(
                        a@.take(i as int),
                        b@.take(k),
                    ),
                forall|k: int|
                    0 <= k <= j ==> #[trigger] curr@[k] == edit_distance(
                        a@.take(i + 1),
                        b@.take(k),
                    ),
            decreases n - j,
        {
            let cb = b[j];
            let cost: usize = if ca == cb { 0 } else { 1 };
            let ghost ai = a@.take(i + 1);
            let ghost bj = b@.take(j + 1);
            proof {
                assert(ai.drop_last() =~= a@.take(i as int));
                assert(bj.drop_last() =~= b@.take(j as int));
                assert(ai.last() == ca);
                assert(bj.last() == cb);
                lemma_edit_distance_at_most_longer(a@.take(i as int), b@.take(j + 1));
                lemma_edit_distance_at_most_longer(a@.take(i as int), b@.take(j as int));
                lemma_edit_distance_at_most_longer(ai, b@.take(j as int));
            }
            let sub = prev[j] + cost;
            let del = prev[j + 1] + 1;
            let ins = curr[j] + 1;
            let best = if sub <= del && sub <= ins {
                sub
            } else if del <= ins {
                del
            } else {
                ins
            };
            curr.set(j + 1, best);
            j = j + 1;
        }
        std::mem::swap(&mut prev, &mut curr);
        i = i + 1;
    }
    assert(a@.take(m as int) =~= a@);
    assert(b@.take(n as int) =~= b@);
    prev[n]
}

/// `needle` occurs in `hay` as a run of consecutive characters.
pub open spec fn contains_seq(hay: Seq<char>, needle: Seq<char>) -> bool {
    exists|i: int| 0 <= i <= hay.len() - needle.len() && #[trigger] hay.subrange(i, i + needle.len()) == needle
}

/// Whether `needle` occurs in `hay`, as `str::contains` answers it.
pub fn contains_chars(hay: &Vec<char>, needle: &Vec<char>) -> (r: bool)
    ensures
        r == contains_seq(hay@, needle@),
{
    let h = hay.len();
    let n = needle.len();
    if n > h {
        return false;
    }
    let mut i: usize = 0;
    while i <= h - n
        invariant
            h == hay@.len(),
            n == needle@.len(),
            n <= h,
            i <= h - n + 1,
            forall|k: int| 0 <= k < i ==> #[trigger] hay@.subrange(k, k + n) != needle@,
        decreases h - n + 1 - i,
    {
        let mut j: usize = 0;
        let mut same = true;
        while j < n
            invariant
                h == hay@.len(),
                n == needle@.len(),
                i + n <= h,
                j <= n,
                same == (forall|q: int| 0 <= q < j ==> hay@[i + q] == needle@[q]),
            decreases n - j,
        {
            if hay[i + j] != needle[j] {
                same = false;
            }
            j = j + 1;
        }
        if same {
            assert(hay@.subrange(i as int, i + n) =~= needle@);
            return true;
        }
        assert(hay@.subrange(i as int, i + n) != needle@) by {
            let q = choose|q: int| 0 <= q < n && hay@[i + q] != needle@[q];
            assert(hay@.subrange(i as int, i + n)[q] == hay@[i + q]);
        }
        i = i + 1;
    }
    assert forall|k: int| 0 <= k <= h - n implies #[trigger] hay@.subrange(k, k + n) != needle@ by {}
    false
}

/// How far a name may be from the target name and still be offered: a
/// third of the target's length, and never less than three.
pub open spec fn spec_threshold(target: Seq<char>) -> nat {
    if target.len() / 3 >= 3 { target.len() / 3 } else { 3 }
}

/// A name is offered for a target name when the two are equal, when one
/// holds the other, or when they are within `spec_threshold` edits.
pub open spec fn spec_name_matches(name: Seq<char>, target: Seq<char>) -> bool {
    ||| name == target
    ||| contains_seq(name, target)
    ||| contains_seq(target, name)
    ||| edit_distance(name, target) <= spec_threshold(target)
}

/// When neither name holds the other, a name is offered exactly when its
/// edit distance to the target is at most a third of the target's length,
/// or at most three where that third is smaller.
pub proof fn lemma_name_matches_by_distance(name: Seq<char>, target: Seq<char>)
    requires
        !contains_seq(name, target),
        !contains_seq(target, name),
    ensures
        spec_name_matches(name, target) <==> edit_distance(name, target) <= (if target.len() / 3
            > 3 {
            target.len() / 3
        } else {
            3
        }),
{
    if name == target {
        assert(name.subrange(0, 0int + target.len()) =~= target);
        assert(contains_seq(name, target));
    }
}

/// A name within three edits of the target, or within a third of the
/// target's length, is always offered.
pub proof fn lemma_close_names_offered(name: Seq<char>, target: Seq<char>)
    requires
        edit_distance(name, target) <= 3 || edit_distance(name, target) <= target.len() / 3,
    ensures
        spec_name_matches(name, target),
{
}

/// A name that holds neither the target nor is held by it, and is more
/// than three edits and more than a third of the target's length away from
/// it, is never offered.
pub proof fn lemma_far_names_refused(name: Seq<char>, target: Seq<char>)
    requires
        !contains_seq(name, target),
        !contains_seq(target, name),
        edit_distance(name, target) > 3,
        edit_distance(name, target) > target.len() / 3,
    ensures
        !spec_name_matches(name, target),
{
    lemma_name_matches_by_distance(name, target);
}

/// Whether the entry name `name` is close enough to the target name `target`.
pub fn name_matches(name: &str, target: &str) -> (r: bool)
    requires
        name@.len() < usize::MAX,
        target@.len() < usize::MAX,
    ensures
        r == spec_name_matches(name@, target@),
{
    let n = chars_of(name);
    let t = chars_of(target);
    if crate::text::chars_eq(&n, &t) {
        return true;
    }
    if contains_chars(&n, &t) || contains_chars(&t, &n) {
        return true;
    }
    let third = t.len() / 3;
    let threshold = if third >= 3 { third } else { 3 };
    levenshtein(name, target) <= threshold
}

/// Whether a walk descends into, and yields, an entry: a directory whose
/// name is one of `ignore` is left out together with all that it holds.
pub fn walk_admits(is_dir: bool, name: &str, ignore: &Vec<String>) -> (r: bool)
    ensures
        r == !(is_dir && string_seqs(ignore@).contains(name@)),
{
    if !is_dir {
        return true;
    }
    let mut i: usize = 0;
    while i < ignore.len()
        invariant
            is_dir,
            i <= ignore@.len(),
            forall|k: int| 0 <= k < i ==> ignore@[k]@ != name@,
        decreases ignore@.len() - i,
    {
        if crate::text::str_eq(ignore[i].as_str(), name) {
            proof {
                assert(string_seqs(ignore@).len() == ignore@.len());
                assert(string_seqs(ignore@)[i as int] == name@);
                assert(string_seqs(ignore@).contains(name@));
            }
            return false;
        }
        i = i + 1;
    }
    proof {
        if string_seqs(ignore@).contains(name@) {
            let k = choose|k: int| 0 <= k < ignore@.len() && string_seqs(ignore@)[k] == name@;
            assert(ignore@[k]@ == name@);
        }
    }
    true
}

/// The file name of a path, or the empty string where it has none.
pub open spec fn name_or_empty(p: Seq<char>) -> Seq<char> {
    match spec_file_name(p) {
        Some(n) => n,
        None => Seq::empty(),
    }
}

/// The larger of two numbers, and at least one.
pub open spec fn max_or_one(x: nat, y: nat) -> nat {
    if x >= y && x >= 1 { x } else if y >= 1 { y } else { 1 }
}

/// How many entries of `dirs` (counted with repetition) also occur in `other`.
pub open spec fn count_shared(dirs: Seq<Seq<char>>, other: Seq<Seq<char>>) -> nat
    decreases dirs.len(),
{
    if dirs.len() == 0 {
        0
    } else {
        count_shared(dirs.drop_last(), other) + if other.contains(dirs.last()) { 1nat } else { 0 }
    }
}

/// The whole-number parts from which a candidate's rank is computed: the
/// edit distance between the file names and the longer name's length, the
/// number of the target's directories that the candidate shares and the
/// larger directory count, and the candidate's depth below the search root.
/// The rank is `10 * edit_distance / name_len + 3 * (1 - shared_dirs /
/// dir_count) + depth / 10`; lower is better.
#[derive(Debug, Clone, Copy)]
pub struct Score {
    pub edit_distance: usize,
    pub name_len: usize,
    pub shared_dirs: usize,
    pub dir_count: usize,
    pub depth: usize,
}

/// Ten times the product of the two denominators of the rank: the rank is
/// `rank_numerator(s) / rank_denominator(s)` as an exact fraction.
pub open spec fn rank_denominator(s: Score) -> int {
    10 * s.name_len * s.dir_count
}

/// `10 * e / L + 3 * (D - shared) / D + depth / 10`, over the common
/// denominator `10 * L * D`.
pub open spec fn rank_numerator(s: Score) -> int {
    100 * s.edit_distance * s.dir_count + 30 * (s.dir_count - s.shared_dirs) * s.name_len + s.depth
        * s.name_len * s.dir_count
}

/// `a` ranks strictly before `b`, the ranks taken as exact fractions.
pub open spec fn ranks_before(a: Score, b: Score) -> bool {
    rank_numerator(a) * rank_denominator(b) < rank_numerator(b) * rank_denominator(a)
}

proof fn lemma_same_denominator_order(a: Score, b: Score)
    requires
        a.name_len == b.name_len,
        a.dir_count == b.dir_count,
        a.name_len >= 1,
        a.dir_count >= 1,
        rank_numerator(a) < rank_numerator(b),
    ensures
        ranks_before(a, b),
{
    let den = rank_denominator(a);
    assert(den > 0) by (nonlinear_arith)
        requires
            den == 10 * a.name_len * a.dir_count,
            a.name_len >= 1,
            a.dir_count >= 1,
    ;
    assert(rank_numerator(a) * den < rank_numerator(b) * den) by (nonlinear_arith)
        requires
            den > 0,
            rank_numerator(a) < rank_numerator(b),
    ;
}

/// Of two candidates alike in all but the edits their name needs, the one
/// with fewer edits ranks first; in particular an exact name ranks before
/// any other name of the same length at the same place.
pub proof fn lemma_fewer_edits_rank_first(a: Score, b: Score)
    requires
        a.name_len == b.name_len,
        a.dir_count == b.dir_count,
        a.shared_dirs == b.shared_dirs,
        a.depth == b.depth,
        a.name_len >= 1,
        a.dir_count >= 1,
        a.edit_distance < b.edit_distance,
    ensures
        ranks_before(a, b),
{
    assert(100 * a.edit_distance * a.dir_count < 100 * b.edit_distance * a.dir_count) by (nonlinear_arith)
        requires
            a.edit_distance < b.edit_distance,
            a.dir_count >= 1,
    ;
    lemma_same_denominator_order(a, b);
}

/// Of two candidates alike in all but depth, the shallower ranks first.
pub proof fn lemma_shallower_ranks_first(a: Score, b: Score)
    requires
        a.edit_distance == b.edit_distance,
        a.name_len == b.name_len,
        a.dir_count == b.dir_count,
        a.shared_dirs == b.shared_dirs,
        a.name_len >= 1,
        a.dir_count >= 1,
        a.depth < b.depth,
    ensures
        ranks_before(a, b),
{
    assert(a.depth * a.name_len * a.dir_count < b.depth * a.name_len * a.dir_count) by (nonlinear_arith)
        requires
            a.depth < b.depth,
            a.name_len >= 1,
            a.dir_count >= 1,
    ;
    lemma_same_denominator_order(a, b);
}

/// Of two candidates alike in all but the directories they share with the
/// target, the one sharing more ranks first.
pub proof fn lemma_more_shared_dirs_rank_first(a: Score, b: Score)
    requires
        a.edit_distance == b.edit_distance,
        a.name_len == b.name_len,
        a.dir_count == b.dir_count,
        a.depth == b.depth,
        a.name_len >= 1,
        a.dir_count >= 1,
        a.shared_dirs > b.shared_dirs,
    ensures
        ranks_before(a, b),
{
    assert(30 * (a.dir_count - a.shared_dirs) * a.name_len < 30 * (a.dir_count - b.shared_dirs)
        * a.name_len) by (nonlinear_arith)
        requires
            a.shared_dirs > b.shared_dirs,
            a.name_len >= 1,
    ;
    lemma_same_denominator_order(a, b);
}

/// The target's directories that occur anywhere among the candidate's
/// directories, in order.
pub open spec fn dirs_found_in(dirs: Seq<Seq<char>>, other: Seq<Seq<char>>) -> Seq<Seq<char>> {
    dirs.filter(|d: Seq<char>| other.contains(d))
}

/// The shared count is the number of entries of `dirs` that occur anywhere
/// in `other`: all of them where each occurs, none where none does.
pub proof fn lemma_count_shared_counts_occurrences(dirs: Seq<Seq<char>>, other: Seq<Seq<char>>)
    ensures
        count_shared(dirs, other) == dirs_found_in(dirs, other).len(),
        (forall|k: int| 0 <= k < dirs.len() ==> other.contains(#[trigger] dirs[k]))
            ==> count_shared(dirs, other) == dirs.len(),
        (forall|k: int| 0 <= k < dirs.len() ==> !other.contains(#[trigger] dirs[k]))
            ==> count_shared(dirs, other) == 0,
    decreases dirs.len(),
{
    reveal(Seq::filter);
    if dirs.len() > 0 {
        let rest = dirs.drop_last();
        lemma_count_shared_counts_occurrences(rest, other);
        assert(dirs_found_in(dirs, other) == {
            let sub = dirs_found_in(rest, other);
            if other.contains(dirs.last()) {
                sub.push(dirs.last())
            } else {
                sub
            }
        });
        assert(dirs.last() == dirs[dirs.len() - 1]);
        assert forall|k: int| 0 <= k < rest.len() implies rest[k] == #[trigger] dirs[k] by {}
    }
}

/// The score parts of `candidate` for a link whose target is `target`, with
/// the tree searched from `root`.
pub open spec fn spec_score_matches(s: Score, target: Seq<char>, candidate: Seq<char>, root: Seq<char>) -> bool {
    let tn = name_or_empty(target);
    let cn = name_or_empty(candidate);
    let td = spec_dir_components(target);
    let cd = spec_dir_components(candidate);
    &&& s.edit_distance == edit_distance(tn, cn)
    &&& s.name_len == max_or_one(tn.len(), cn.len())
    &&& s.shared_dirs == count_shared(td, cd)
    &&& s.dir_count == max_or_one(td.len(), cd.len())
    &&& s.depth == spec_depth_below(candidate, root)
}

/// The name of a walked entry: its file name, or the whole path where it
/// has none (as for `/`).
pub open spec fn entry_name(p: Seq<char>) -> Seq<char> {
    match spec_file_name(p) {
        Some(n) => n,
        None => p,
    }
}

/// The file name of `path`, or `fallback` where it has none.
fn name_or(path: &str, fallback: &str) -> (r: String)
    ensures
        r@ == match spec_file_name(path@) {
            Some(n) => n,
            None => fallback@,
        },
        r@.len() <= path@.len() || r@ == fallback@,
{
    proof {
        crate::path::lemma_file_name_short(path@);
    }
    match file_name(path) {
        Some(n) => n,
        None => owned(fallback),
    }
}

/// Whether one of `dirs` is `d`.
fn has_dir(dirs: &Vec<String>, d: &String) -> (r: bool)
    ensures
        r == string_seqs(dirs@).contains(d@),
{
    let mut i: usize = 0;
    while i < dirs.len()
        invariant
            i <= dirs@.len(),
            forall|k: int| 0 <= k < i ==> dirs@[k]@ != d@,
        decreases dirs@.len() - i,
    {
        if crate::text::str_eq(dirs[i].as_str(), d.as_str()) {
            proof {
                assert(string_seqs(dirs@).len() == dirs@.len());
                assert(string_seqs(dirs@)[i as int] == d@);
            }
            return true;
        }
        i = i + 1;
    }
    proof {
        if string_seqs(dirs@).contains(d@) {
            let k = choose|k: int| 0 <= k < dirs@.len() && string_seqs(dirs@)[k] == d@;
            assert(dirs@[k]@ == d@);
        }
    }
    false
}

/// How many of `dirs` also occur in `other`.
fn shared_count(dirs: &Vec<String>, other: &Vec<String>) -> (r: usize)
    ensures
        r == count_shared(string_seqs(dirs@), string_seqs(other@)),
{
    let ghost ds = string_seqs(dirs@);
    let mut count: usize = 0;
    let mut i: usize = 0;
    while i < dirs.len()
        invariant
            i <= dirs@.len(),
            ds == string_seqs(dirs@),
            count == count_shared(ds.take(i as int), string_seqs(other@)),
            count <= i,
        decreases dirs@.len() - i,
    {
        proof {
            assert(ds.take(i + 1).drop_last() =~= ds.take(i as int));
            assert(ds.take(i + 1).last() == dirs@[i as int]@);
        }
        if has_dir(other, &dirs[i]) {
            count = count + 1;
        }
        i = i + 1;
    }
    assert(ds.take(dirs@.len() as int) =~= ds);
    count
}

/// The score parts of `candidate` for `broken`, with the tree searched from
/// `search_root`.
pub fn score_candidate(broken: &BrokenSymlink, candidate: &str, search_root: &str) -> (s: Score)
    requires
        broken.target@.len() < usize::MAX,
        candidate@.len() < usize::MAX,
    ensures
        spec_score_matches(s, broken.target@, candidate@, search_root@),
{
    let target_name = name_or(broken.target.as_str(), "");
    let cand_name = name_or(candidate, "");
    proof {
        reveal_strlit("");
    }
    let edit = levenshtein(target_name.as_str(), cand_name.as_str());
    let tl = chars_of(target_name.as_str()).len();
    let cl = chars_of(cand_name.as_str()).len();
    let name_len = if tl >= cl && tl >= 1 { tl } else if cl >= 1 { cl } else { 1 };
    let target_dirs = dir_components(broken.target.as_str());
    let cand_dirs = dir_components(candidate);
    let shared = shared_count(&target_dirs, &cand_dirs);
    let tdl = target_dirs.len();
    let cdl = cand_dirs.len();
    let dir_count = if tdl >= cdl && tdl >= 1 { tdl } else if cdl >= 1 { cdl } else { 1 };
    let depth = depth_below(candidate, search_root);
    Score { edit_distance: edit, name_len, shared_dirs: shared, dir_count, depth }
}

/// A candidate has no edits to make on its file name exactly when that name
/// is the target's file name.
pub proof fn lemma_no_edits_iff_same_name(s: Score, target: Seq<char>, candidate: Seq<char>, root: Seq<char>)
    requires
        spec_score_matches(s, target, candidate, root),
    ensures
        s.edit_distance == 0 <==> name_or_empty(target) == name_or_empty(candidate),
{
    lemma_edit_distance_zero_iff_equal(name_or_empty(target), name_or_empty(candidate));
}

/// The score parts stay in range: no more edits than the longer name has
/// characters, no more shared directories than the larger directory count.
pub proof fn lemma_score_parts_bounded(s: Score, target: Seq<char>, candidate: Seq<char>, root: Seq<char>)
    requires
        spec_score_matches(s, target, candidate, root),
    ensures
        s.edit_distance <= s.name_len,
        s.shared_dirs <= s.dir_count,
        s.name_len >= 1,
        s.dir_count >= 1,
{
    lemma_edit_distance_at_most_longer(name_or_empty(target), name_or_empty(candidate));
    lemma_count_shared_at_most(spec_dir_components(target), spec_dir_components(candidate));
}

/// A candidate's shared directory count is the number of the target's
/// directories that occur anywhere among the candidate's directories.
pub proof fn lemma_shared_dirs_counts_occurrences(
    s: Score,
    target: Seq<char>,
    candidate: Seq<char>,
    root: Seq<char>,
)
    requires
        spec_score_matches(s, target, candidate, root),
    ensures
        s.shared_dirs == dirs_found_in(spec_dir_components(target), spec_dir_components(candidate)).len(),
{
    lemma_count_shared_counts_occurrences(spec_dir_components(target), spec_dir_components(candidate));
}

proof fn lemma_count_shared_at_most(dirs: Seq<Seq<char>>, other: Seq<Seq<char>>)
    ensures
        count_shared(dirs, other) <= dirs.len(),
    decreases dirs.len(),
{
    if dirs.len() > 0 {
        lemma_count_shared_at_most(dirs.drop_last(), other);
    }
}

/// A walked entry together with its score parts.
#[derive(Debug)]
pub struct ScoredCandidate {
    pub path: String,
    pub score: Score,
}

/// A walked path is offered for a link at `link` whose target's file name is
/// `target_name`: it is not the link itself, and its name is close enough.
pub open spec fn is_offered(p: Seq<char>, link: Seq<char>, target_name: Seq<char>) -> bool {
    components(p) != components(link) && spec_name_matches(entry_name(p), target_name)
}

/// The walked paths that are offered, in the order of the walk.
pub open spec fn offered(walked: Seq<Seq<char>>, link: Seq<char>, target_name: Seq<char>) -> Seq<Seq<char>>
    decreases walked.len(),
{
    if walked.len() == 0 {
        Seq::empty()
    } else if is_offered(walked.last(), link, target_name) {
        offered(walked.drop_last(), link, target_name).push(walked.last())
    } else {
        offered(walked.drop_last(), link, target_name)
    }
}

/// Every offered path was walked, is not the link itself, and has a name
/// close to the target's; no path that meets these is left out.
pub proof fn lemma_offered_exactly(walked: Seq<Seq<char>>, link: Seq<char>, target_name: Seq<char>)
    ensures
        forall|k: int| 0 <= k < offered(walked, link, target_name).len() ==> {
            let p = #[trigger] offered(walked, link, target_name)[k];
            &&& walked.contains(p)
            &&& components(p) != components(link)
            &&& spec_name_matches(entry_name(p), target_name)
        },
        forall|k: int| 0 <= k < walked.len() && is_offered(#[trigger] walked[k], link, target_name)
            ==> offered(walked, link, target_name).contains(walked[k]),
    decreases walked.len(),
{
    if walked.len() > 0 {
        let rest = walked.drop_last();
        lemma_offered_exactly(rest, link, target_name);
        let o = offered(walked, link, target_name);
        let ro = offered(rest, link, target_name);
        assert forall|k: int| 0 <= k < o.len() implies walked.contains(#[trigger] o[k]) by {
            if k < ro.len() {
                assert(o[k] == ro[k]);
                let j = choose|j: int| 0 <= j < rest.len() && rest[j] == ro[k];
                assert(walked[j] == rest[j]);
            } else {
                assert(walked[walked.len() - 1] == walked.last());
            }
        }
        assert forall|k: int| 0 <= k < o.len() implies is_offered(#[trigger] o[k], link, target_name) by {
            if k < ro.len() {
                assert(o[k] == ro[k]);
            }
        }
        assert forall|k: int| 0 <= k < walked.len() && is_offered(#[trigger] walked[k], link, target_name)
            implies o.contains(walked[k]) by {
            if k < rest.len() {
                assert(rest[k] == walked[k]);
                let j = choose|j: int| 0 <= j < ro.len() && ro[j] == rest[k];
                assert(o[j] == ro[j]);
            } else {
                assert(o[o.len() - 1] == walked.last());
            }
        }
    }
}

/// The paths of scored candidates.
pub open spec fn candidate_paths(c: Seq<ScoredCandidate>) -> Seq<Seq<char>> {
    c.map_values(|sc: ScoredCandidate| sc.path@)
}

/// The candidates for repairing `broken` among the paths that a walk of
/// `search_root` yielded (`walked`, in walk order): every path whose name
/// is close to the file name of the lost target, except the link itself,
/// each with its score parts, in walk order. A target without a file name
/// has no candidates.
pub fn find_candidates(broken: &BrokenSymlink, search_root: &str, walked: &Vec<String>) -> (r: Vec<ScoredCandidate>)
    requires
        broken.target@.len() < usize::MAX,
        forall|k: int| 0 <= k < walked@.len() ==> (#[trigger] walked@[k])@.len() < usize::MAX,
    ensures
        match spec_file_name(broken.target@) {
            None => r@.len() == 0,
            Some(t) => candidate_paths(r@) == offered(string_seqs(walked@), broken.link@, t),
        },
        forall|k: int| 0 <= k < r@.len() ==> spec_score_matches(
            (#[trigger] r@[k]).score,
            broken.target@,
            r@[k].path@,
            search_root@,
        ),
{
    let target_name = match file_name(broken.target.as_str()) {
        Some(n) => n,
        None => return Vec::new(),
    };
    proof {
        crate::path::lemma_file_name_short(broken.target@);
    }
    let ghost t = target_name@;
    let ghost ws = string_seqs(walked@);
    let mut r: Vec<ScoredCandidate> = Vec::new();
    let mut i: usize = 0;
    proof {
        assert(ws.take(0) =~= Seq::<Seq<char>>::empty());
        assert(candidate_paths(r@) =~= Seq::<Seq<char>>::empty());
    }
    while i < walked.len()
        invariant
            i <= walked@.len(),
            ws == string_seqs(walked@),
            t == target_name@,
            t.len() < usize::MAX,
            spec_file_name(broken.target@) == Some(t),
            broken.target@.len() < usize::MAX,
            forall|k: int| 0 <= k < walked@.len() ==> (#[trigger] walked@[k])@.len() < usize::MAX,
            candidate_paths(r@) == offered(ws.take(i as int), broken.link@, t),
            forall|k: int| 0 <= k < r@.len() ==> spec_score_matches(
                (#[trigger] r@[k]).score,
                broken.target@,
                r@[k].path@,
                search_root@,
            ),
        decreases walked@.len() - i,
    {
        let path = &walked[i];
        proof {
            assert(ws.take(i + 1).drop_last() =~= ws.take(i as int));
            assert(ws.take(i + 1).last() == path@);
            assert(walked@[i as int]@.len() < usize::MAX);
        }
        if !same_path(path.as_str(), broken.link.as_str()) {
            let name = name_or(path.as_str(), path.as_str());
            if name_matches(name.as_str(), target_name.as_str()) {
                let score = score_candidate(broken, path.as_str(), search_root);
                let ghost before = r@;
                r.push(ScoredCandidate { path: path.clone(), score });
                proof {
                    assert(candidate_paths(r@) =~= candidate_paths(before).push(path@));
                }
            }
        }
        i = i + 1;
    }
    assert(ws.take(walked@.len() as int) =~= ws);
    r
}


/// The directory names that a walk skips unless told otherwise: version
/// control, dependency and build directories, and caches.
pub fn default_ignore() -> (v: Vec<String>)
    ensures
        string_seqs(v@) == seq![
            ".git"@,
            "node_modules"@,
            "target"@,
            ".hg"@,
            ".svn"@,
            "__pycache__"@,
            ".DS_Store"@,
        ],
{
    let mut v: Vec<String> = Vec::new();
    v.push(owned(".git"));
    v.push(owned("node_modules"));
    v.push(owned("target"));
    v.push(owned(".hg"));
    v.push(owned(".svn"));
    v.push(owned("__pycache__"));
    v.push(owned(".DS_Store"));
    assert(string_seqs(v@) =~= seq![
        ".git"@,
        "node_modules"@,
        "target"@,
        ".hg"@,
        ".svn"@,
        "__pycache__"@,
        ".DS_Store"@,
    ]);
    v
}

} // verus!
