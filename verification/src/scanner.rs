//! Broken symbolic links as the scan reports them.

use vstd::prelude::*;
use crate::text::{append_str, chars_of, string_from_chars, string_seqs, split_on};

verus! {

/// A symbolic link whose target no longer exists.
pub struct BrokenSymlink {
    /// Where the link itself lives.
    pub link: String,
    /// What the link points at.
    pub target: String,
}

impl BrokenSymlink {
    /// `link -> target`, as the listing shows a broken link.
    pub fn to_string(&self) -> (s: String)
        ensures
            s@ == self.link@ + " -> "@ + self.target@,
    {
        let mut s = String::new();
        append_str(&mut s, self.link.as_str());
        append_str(&mut s, " -> ");
        append_str(&mut s, self.target.as_str());
        proof {
            assert(s@ =~= self.link@ + " -> "@ + self.target@);
        }
        s
    }
}

/// `line` without one carriage return at its end, if it has one.
pub open spec fn strip_cr(line: Seq<char>) -> Seq<char> {
    if line.len() > 0 && line.last() == '\r' {
        line.drop_last()
    } else {
        line
    }
}

/// The lines of `s` as `str::lines` yields them: `s` is cut after every
/// `\n`, a line ending (`\n` or `\r\n`) is removed from each piece, and no
/// empty line follows a final line ending.
pub open spec fn spec_lines(s: Seq<char>) -> Seq<Seq<char>> {
    let parts = split_on(s, '\n');
    let ended = parts.drop_last().map_values(|line: Seq<char>| strip_cr(line));
    if parts.last().len() == 0 {
        ended
    } else {
        ended.push(parts.last())
    }
}

/// The lines of the scan's output, one path per line.
pub fn output_lines(stdout: &str) -> (r: Vec<String>)
    ensures
        string_seqs(r@) == spec_lines(stdout@),
{
    let cs = chars_of(stdout);
    let parts = crate::text::split_chars(&cs, '\n');
    let k = parts.len();
    let ghost sp = split_on(stdout@, '\n');
    let ghost ended = sp.drop_last().map_values(|line: Seq<char>| strip_cr(line));
    let mut r: Vec<String> = Vec::new();
    let mut i: usize = 0;
    proof {
        assert(string_seqs(r@) =~= ended.take(0));
    }
    while i + 1 < k
        invariant
            k == parts@.len(),
            k >= 1,
            i + 1 <= k,
            crate::text::char_seqs(parts@) == sp,
            ended == sp.drop_last().map_values(|line: Seq<char>| strip_cr(line)),
            string_seqs(r@) == ended.take(i as int),
        decreases k - i,
    {
        let piece = &parts[i];
        let n = piece.len();
        let ghost before = r@;
        assert(sp[i as int] == piece@);
        let line = if n > 0 && piece[n - 1] == '\r' {
            let mut t: Vec<char> = Vec::new();
            let mut j: usize = 0;
            while j < n - 1
                invariant
                    n == piece@.len(),
                    n > 0,
                    j <= n - 1,
                    t@ == piece@.take(j as int),
                decreases n - 1 - j,
            {
                t.push(piece[j]);
                assert(piece@.take(j + 1) =~= piece@.take(j as int).push(piece@[j as int]));
                j = j + 1;
            }
            assert(t@ =~= piece@.drop_last());
            string_from_chars(&t)
        } else {
            string_from_chars(piece)
        };
        r.push(line);
        proof {
            assert(string_seqs(r@) =~= string_seqs(before).push(strip_cr(piece@)));
            assert(ended.take(i + 1) =~= ended.take(i as int).push(ended[i as int]));
        }
        i = i + 1;
    }
    assert(ended.take((k - 1) as int) =~= ended);
    assert(sp.last() == parts@[k - 1]@);
    if parts[k - 1].len() > 0 {
        let ghost before = r@;
        r.push(string_from_chars(&parts[k - 1]));
        assert(string_seqs(r@) =~= string_seqs(before).push(sp.last()));
    }
    r
}

/// No line holds a line feed, and there are no more lines than pieces of
/// the output between line feeds.
pub proof fn lemma_lines_hold_no_line_feed(s: Seq<char>)
    ensures
        forall|k: int| 0 <= k < spec_lines(s).len() ==> !(#[trigger] spec_lines(s)[k]).contains('\n'),
        spec_lines(s).len() <= split_on(s, '\n').len(),
{
    let parts = split_on(s, '\n');
    crate::path::lemma_split_on_pieces_lack_sep(s, '\n');
    crate::text::lemma_split_on_nonempty(s, '\n');
    let ended = parts.drop_last().map_values(|line: Seq<char>| strip_cr(line));
    assert forall|k: int| 0 <= k < ended.len() implies !(#[trigger] ended[k]).contains('\n') by {
        let piece = parts[k];
        assert(!piece.contains('\n'));
        if strip_cr(piece).contains('\n') {
            let j = choose|j: int| 0 <= j < strip_cr(piece).len() && strip_cr(piece)[j] == '\n';
            assert(piece[j] == '\n');
        }
    }
    assert(parts.last() == parts[parts.len() - 1]);
    let lines = spec_lines(s);
    assert forall|k: int| 0 <= k < lines.len() implies !(#[trigger] lines[k]).contains('\n') by {
        if k < ended.len() {
            assert(lines[k] == ended[k]);
        }
    }
}

} // verus!
