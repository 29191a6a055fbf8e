//! Unix paths held as strings, read the way `std::path::Path` reads them:
//! `/` separates components, repeated separators count once, `.` is dropped
//! except at the very start of a relative path, and `..` is kept.

use vstd::prelude::*;
use crate::text::{chars_of, chars_eq, string_from_chars, char_seqs, string_seqs, split_on, split_chars};

verus! {

/// `s` cut at every `/`; empty pieces are kept.
pub open spec fn split_slash(s: Seq<char>) -> Seq<Seq<char>> {
    split_on(s, '/')
}

/// The current-directory marker `.`.
pub open spec fn dot() -> Seq<char> {
    seq!['.']
}

/// The parent-directory marker `..`.
pub open spec fn dot_dot() -> Seq<char> {
    seq!['.', '.']
}

/// The root-directory marker `/`.
pub open spec fn slash() -> Seq<char> {
    seq!['/']
}

/// A piece that names something: neither empty nor `.`.
pub open spec fn is_named(seg: Seq<char>) -> bool {
    seg.len() > 0 && seg != dot()
}

/// The pieces of `parts` that name something, in order.
pub open spec fn named(parts: Seq<Seq<char>>) -> Seq<Seq<char>>
    decreases parts.len(),
{
    if parts.len() == 0 {
        Seq::empty()
    } else if is_named(parts.last()) {
        named(parts.drop_last()).push(parts.last())
    } else {
        named(parts.drop_last())
    }
}

/// The named pieces of a path: its components other than the root and a
/// leading `.`, each `..` kept as it is.
pub open spec fn named_segments(p: Seq<char>) -> Seq<Seq<char>> {
    named(split_slash(p))
}

/// The path starts at the root.
pub open spec fn has_root(p: Seq<char>) -> bool {
    p.len() > 0 && p[0] == '/'
}

/// A relative path that begins with the component `.`.
pub open spec fn leading_cur_dir(p: Seq<char>) -> bool {
    !has_root(p) && p.len() > 0 && p[0] == '.' && (p.len() == 1 || p[1] == '/')
}

/// The components of a path, each as a token: `/` for the root, `.` for a
/// leading current directory, `..` for a parent directory, and the name
/// itself for a normal component.
pub open spec fn components(p: Seq<char>) -> Seq<Seq<char>> {
    (if has_root(p) { seq![slash()] } else { Seq::empty() }) + (if leading_cur_dir(p) {
        seq![dot()]
    } else {
        Seq::empty()
    }) + named_segments(p)
}

/// The last component, where it is a normal one.
pub open spec fn spec_file_name(p: Seq<char>) -> Option<Seq<char>> {
    let f = named_segments(p);
    if f.len() == 0 || f.last() == dot_dot() {
        None
    } else {
        Some(f.last())
    }
}

/// The pieces of `parts` other than `..`, in order.
pub open spec fn without_dot_dot(parts: Seq<Seq<char>>) -> Seq<Seq<char>>
    decreases parts.len(),
{
    if parts.len() == 0 {
        Seq::empty()
    } else if parts.last() == dot_dot() {
        without_dot_dot(parts.drop_last())
    } else {
        without_dot_dot(parts.drop_last()).push(parts.last())
    }
}

/// The normal components of the parent of `p` (none where `p` has no parent).
pub open spec fn spec_dir_components(p: Seq<char>) -> Seq<Seq<char>> {
    let f = named_segments(p);
    if f.len() == 0 {
        Seq::empty()
    } else {
        without_dot_dot(f.drop_last())
    }
}

/// `pre` is a prefix of `s`.
pub open spec fn is_prefix_of(pre: Seq<Seq<char>>, s: Seq<Seq<char>>) -> bool {
    pre.len() <= s.len() && s.take(pre.len() as int) == pre
}

/// The number of components of `p` below `root`, or zero where `p` does not
/// lie under `root`.
pub open spec fn spec_depth_below(p: Seq<char>, root: Seq<char>) -> nat {
    if is_prefix_of(components(root), components(p)) {
        (components(p).len() - components(root).len()) as nat
    } else {
        0
    }
}

/// A path that lies under `root` is as deep below it as it has components
/// beyond those of `root`, however many that is; a path that does not lie
/// under `root` has depth zero.
pub proof fn lemma_depth_is_components_beyond_root(p: Seq<char>, root: Seq<char>)
    ensures
        is_prefix_of(components(root), components(p)) ==> spec_depth_below(p, root) + components(
            root,
        ).len() == components(p).len(),
        !is_prefix_of(components(root), components(p)) ==> spec_depth_below(p, root) == 0,
{
}

/// The named pieces of a path, each as a vector of characters.
fn named_pieces(s: &Vec<char>) -> (r: Vec<Vec<char>>)
    ensures
        char_seqs(r@) == named_segments(s@),
{
    let parts = split_chars(s, '/');
    let ghost sp = char_seqs(parts@);
    let mut r: Vec<Vec<char>> = Vec::new();
    let mut i: usize = 0;
    proof {
        assert(sp.take(0) =~= Seq::<Seq<char>>::empty());
        assert(char_seqs(r@) =~= Seq::<Seq<char>>::empty());
    }
    while i < parts.len()
        invariant
            i <= parts@.len(),
            sp == char_seqs(parts@),
            sp == split_slash(s@),
            char_seqs(r@) == named(sp.take(i as int)),
        decreases parts@.len() - i,
    {
        let piece = &parts[i];
        let keep = piece.len() > 0 && !(piece.len() == 1 && piece[0] == '.');
        proof {
            assert(sp.take(i + 1).drop_last() =~= sp.take(i as int));
            assert(sp.take(i + 1).last() == piece@);
            assert(keep == is_named(piece@)) by {
                if piece@.len() == 1 && piece@[0] == '.' {
                    assert(piece@ =~= dot());
                }
                if piece@ == dot() {
                    assert(piece@[0] == '.');
                }
            }
        }
        if keep {
            let ghost before = r@;
            r.push(copy_chars(piece));
            proof {
                assert(char_seqs(r@) =~= char_seqs(before).push(piece@));
            }
        }
        i = i + 1;
    }
    assert(sp.take(parts@.len() as int) =~= sp);
    r
}

/// The components of `p` as tokens (see `components`).
fn component_tokens(p: &Vec<char>) -> (r: Vec<Vec<char>>)
    ensures
        char_seqs(r@) == components(p@),
{
    let mut r: Vec<Vec<char>> = Vec::new();
    let rooted = p.len() > 0 && p[0] == '/';
    if rooted {
        let mut t: Vec<char> = Vec::new();
        t.push('/');
        r.push(t);
    }
    let cur_dir = !rooted && p.len() > 0 && p[0] == '.' && (p.len() == 1 || p[1] == '/');
    if cur_dir {
        let mut t: Vec<char> = Vec::new();
        t.push('.');
        r.push(t);
    }
    let ghost head = char_seqs(r@);
    proof {
        assert(head =~= (if has_root(p@) { seq![slash()] } else { Seq::empty() }) + (
        if leading_cur_dir(p@) {
            seq![dot()]
        } else {
            Seq::empty()
        }));
    }
    let named = named_pieces(p);
    let mut i: usize = 0;
    while i < named.len()
        invariant
            i <= named@.len(),
            char_seqs(named@) == named_segments(p@),
            char_seqs(r@) == head + char_seqs(named@).take(i as int),
        decreases named@.len() - i,
    {
        let ghost before = r@;
        r.push(copy_chars(&named[i]));
        proof {
            assert(char_seqs(r@) =~= char_seqs(before).push(named@[i as int]@));
            assert(char_seqs(named@).take(i + 1) =~= char_seqs(named@).take(i as int).push(
                named@[i as int]@,
            ));
        }
        i = i + 1;
    }
    assert(char_seqs(named@).take(named@.len() as int) =~= char_seqs(named@));
    r
}

/// A copy of `v`.
fn copy_chars(v: &Vec<char>) -> (r: Vec<char>)
    ensures
        r@ == v@,
{
    let mut r: Vec<char> = Vec::new();
    let mut i: usize = 0;
    while i < v.len()
        invariant
            i <= v@.len(),
            r@ == v@.take(i as int),
        decreases v@.len() - i,
    {
        r.push(v[i]);
        assert(v@.take(i + 1) =~= v@.take(i as int).push(v@[i as int]));
        i = i + 1;
    }
    assert(v@.take(v@.len() as int) =~= v@);
    r
}

/// Whether `v` is the two characters `..`.
fn is_dot_dot(v: &Vec<char>) -> (r: bool)
    ensures
        r == (v@ == dot_dot()),
{
    let r = v.len() == 2 && v[0] == '.' && v[1] == '.';
    proof {
        if r {
            assert(v@ =~= dot_dot());
        }
    }
    r
}

/// The last component of `path` where it is a normal one, as
/// `Path::file_name` gives it.
pub fn file_name(path: &str) -> (r: Option<String>)
    ensures
        match r {
            Some(name) => spec_file_name(path@) == Some(name@),
            None => spec_file_name(path@) is None,
        },
{
    let p = chars_of(path);
    let named = named_pieces(&p);
    let k = named.len();
    if k == 0 {
        return None;
    }
    assert(char_seqs(named@).last() == named@[k - 1]@);
    if is_dot_dot(&named[k - 1]) {
        return None;
    }
    Some(string_from_chars(&named[k - 1]))
}

/// The normal components of the parent of `path`, in order: the directories
/// that lead to the file that `path` names.
pub fn dir_components(path: &str) -> (r: Vec<String>)
    ensures
        string_seqs(r@) == spec_dir_components(path@),
{
    let p = chars_of(path);
    let named = named_pieces(&p);
    let mut r: Vec<String> = Vec::new();
    let k = named.len();
    if k == 0 {
        assert(string_seqs(r@) =~= Seq::<Seq<char>>::empty());
        return r;
    }
    let ghost parents = char_seqs(named@).drop_last();
    let mut i: usize = 0;
    proof {
        assert(parents.take(0) =~= Seq::<Seq<char>>::empty());
        assert(string_seqs(r@) =~= Seq::<Seq<char>>::empty());
    }
    while i < k - 1
        invariant
            k == named@.len(),
            k > 0,
            i <= k - 1,
            parents == char_seqs(named@).drop_last(),
            string_seqs(r@) == without_dot_dot(parents.take(i as int)),
        decreases k - 1 - i,
    {
        let ghost before = r@;
        proof {
            assert(parents.take(i + 1).drop_last() =~= parents.take(i as int));
            assert(parents.take(i + 1).last() == named@[i as int]@);
        }
        if !is_dot_dot(&named[i]) {
            r.push(string_from_chars(&named[i]));
            proof {
                assert(string_seqs(r@) =~= string_seqs(before).push(named@[i as int]@));
            }
        }
        i = i + 1;
    }
    assert(parents.take((k - 1) as int) =~= parents);
    r
}

/// Whether two paths have the same components, as `Path`'s `==` compares them.
pub fn same_path(a: &str, b: &str) -> (r: bool)
    ensures
        r == (components(a@) == components(b@)),
{
    let ca = component_tokens(&chars_of(a));
    let cb = component_tokens(&chars_of(b));
    tokens_eq(&ca, &cb)
}

/// Whether two token lists are equal.
fn tokens_eq(a: &Vec<Vec<char>>, b: &Vec<Vec<char>>) -> (r: bool)
    ensures
        r == (char_seqs(a@) == char_seqs(b@)),
{
    if a.len() != b.len() {
        proof {
            if char_seqs(a@) == char_seqs(b@) {
                assert(char_seqs(a@).len() == char_seqs(b@).len());
            }
        }
        return false;
    }
    assert(char_seqs(b@).take(a@.len() as int) =~= char_seqs(b@));
    tokens_prefix(a, b)
}

/// Whether the tokens of `pre` begin the tokens of `s`.
fn tokens_prefix(pre: &Vec<Vec<char>>, s: &Vec<Vec<char>>) -> (r: bool)
    ensures
        r == is_prefix_of(char_seqs(pre@), char_seqs(s@)),
{
    if pre.len() > s.len() {
        return false;
    }
    let mut i: usize = 0;
    while i < pre.len()
        invariant
            i <= pre@.len(),
            pre@.len() <= s@.len(),
            forall|k: int| 0 <= k < i ==> pre@[k]@ == s@[k]@,
        decreases pre@.len() - i,
    {
        if !chars_eq(&pre[i], &s[i]) {
            proof {
                assert(char_seqs(s@).take(pre@.len() as int)[i as int] == s@[i as int]@);
                assert(char_seqs(pre@)[i as int] == pre@[i as int]@);
            }
            return false;
        }
        i = i + 1;
    }
    assert(char_seqs(s@).take(pre@.len() as int) =~= char_seqs(pre@));
    true
}

/// The number of components of `path` below `root`, as
/// `path.strip_prefix(root)` and a count of the rest's components give it,
/// or zero where `path` does not lie under `root`.
pub fn depth_below(path: &str, root: &str) -> (r: usize)
    ensures
        r == spec_depth_below(path@, root@),
{
    let cp = component_tokens(&chars_of(path));
    let cr = component_tokens(&chars_of(root));
    if tokens_prefix(&cr, &cp) {
        cp.len() - cr.len()
    } else {
        0
    }
}

/// No piece of a split is longer than what was split.
pub proof fn lemma_split_on_pieces_short(s: Seq<char>, sep: char)
    ensures
        forall|k: int| 0 <= k < split_on(s, sep).len() ==> #[trigger] split_on(s, sep)[k].len() <= s.len(),
    decreases s.len(),
{
    crate::text::lemma_split_on_nonempty(s, sep);
    if s.len() > 0 {
        lemma_split_on_pieces_short(s.drop_last(), sep);
        crate::text::lemma_split_on_nonempty(s.drop_last(), sep);
    }
}

/// Every named piece is one of the pieces.
pub proof fn lemma_named_from_parts(parts: Seq<Seq<char>>)
    ensures
        forall|k: int| 0 <= k < named(parts).len() ==> parts.contains(#[trigger] named(parts)[k]),
    decreases parts.len(),
{
    if parts.len() > 0 {
        lemma_named_from_parts(parts.drop_last());
        assert forall|k: int| 0 <= k < named(parts).len() implies parts.contains(#[trigger] named(parts)[k]) by {
            if k < named(parts.drop_last()).len() {
                let x = named(parts.drop_last())[k];
                assert(parts.drop_last().contains(x));
                let j = choose|j: int| 0 <= j < parts.drop_last().len() && parts.drop_last()[j] == x;
                assert(parts[j] == x);
            } else {
                assert(parts[parts.len() - 1] == parts.last());
            }
        }
    }
}

/// No piece of a split holds the separator.
pub proof fn lemma_split_on_pieces_lack_sep(s: Seq<char>, sep: char)
    ensures
        forall|k: int| 0 <= k < split_on(s, sep).len() ==> !(#[trigger] split_on(s, sep)[k]).contains(sep),
    decreases s.len(),
{
    crate::text::lemma_split_on_nonempty(s, sep);
    if s.len() > 0 {
        let parts = split_on(s.drop_last(), sep);
        lemma_split_on_pieces_lack_sep(s.drop_last(), sep);
        crate::text::lemma_split_on_nonempty(s.drop_last(), sep);
        if s.last() != sep {
            let piece = parts.last().push(s.last());
            assert(parts.last() == parts[parts.len() - 1]);
            assert(!piece.contains(sep)) by {
                if piece.contains(sep) {
                    let j = choose|j: int| 0 <= j < piece.len() && piece[j] == sep;
                    assert(parts.last()[j] == sep);
                }
            }
        } else {
            assert(!Seq::<char>::empty().contains(sep));
        }
    }
}

/// A file name is a normal component: not empty, neither `.` nor `..`, and
/// free of `/`.
pub proof fn lemma_file_name_is_normal(p: Seq<char>)
    ensures
        spec_file_name(p) matches Some(n) ==> n.len() > 0 && n != dot() && n != dot_dot() && !n.contains('/'),
{
    let parts = split_slash(p);
    lemma_split_on_pieces_lack_sep(p, '/');
    lemma_named_from_parts(parts);
    lemma_named_are_named(parts);
    let f = named_segments(p);
    if f.len() > 0 {
        assert(f.last() == f[f.len() - 1]);
        assert(parts.contains(f[f.len() - 1]));
        let j = choose|j: int| 0 <= j < parts.len() && parts[j] == f[f.len() - 1];
        assert(!parts[j].contains('/'));
    }
}

/// Every piece kept by `named` names something.
proof fn lemma_named_are_named(parts: Seq<Seq<char>>)
    ensures
        forall|k: int| 0 <= k < named(parts).len() ==> is_named(#[trigger] named(parts)[k]),
    decreases parts.len(),
{
    if parts.len() > 0 {
        let rest = named(parts.drop_last());
        lemma_named_are_named(parts.drop_last());
        assert forall|k: int| 0 <= k < named(parts).len() implies is_named(#[trigger] named(parts)[k]) by {
            if k < rest.len() {
                assert(named(parts)[k] == rest[k]);
            }
        }
    }
}

/// A file name is no longer than the path it comes from.
pub proof fn lemma_file_name_short(p: Seq<char>)
    ensures
        spec_file_name(p) matches Some(n) ==> n.len() <= p.len(),
{
    let parts = split_slash(p);
    lemma_split_on_pieces_short(p, '/');
    lemma_named_from_parts(parts);
    let f = named_segments(p);
    if f.len() > 0 {
        assert(f.last() == f[f.len() - 1]);
        assert(parts.contains(f[f.len() - 1]));
        let j = choose|j: int| 0 <= j < parts.len() && parts[j] == f[f.len() - 1];
        assert(parts[j].len() <= p.len());
    }
}

} // verus!
