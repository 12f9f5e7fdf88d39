//! Text as sequences of characters: splitting, searching, trimming and
//! replacing.
//!
//! Strings are modelled by their view, a `Seq<char>`. The executable functions
//! work on `Vec<char>` and slices of it, and each is specified by a spec
//! function over sequences.

use vstd::prelude::*;
use crate::std_text::is_space;

verus! {

/// The views of the elements of `parts`, in order.
pub open spec fn views(parts: Seq<Vec<char>>) -> Seq<Seq<char>> {
    Seq::new(parts.len(), |i: int| parts[i]@)
}

/// The pieces of `s` that lie between occurrences of `sep`. Empty pieces are
/// kept, so the result is never empty and has one more element than `s` has
/// separators.
pub open spec fn split_on(s: Seq<char>, sep: char) -> Seq<Seq<char>>
    decreases s.len(),
{
    if s.len() == 0 {
        seq![Seq::<char>::empty()]
    } else {
        let before = split_on(s.drop_last(), sep);
        if s.last() == sep {
            before.push(Seq::<char>::empty())
        } else {
            before.drop_last().push(before.last().push(s.last()))
        }
    }
}

/// `split_on` always yields at least one piece.
pub proof fn lemma_split_on_nonempty(s: Seq<char>, sep: char)
    ensures
        split_on(s, sep).len() >= 1,
    decreases s.len(),
{
    if s.len() > 0 {
        lemma_split_on_nonempty(s.drop_last(), sep);
    }
}

/// The elements of `parts` that are not empty, in order.
pub open spec fn nonempty_parts(parts: Seq<Seq<char>>) -> Seq<Seq<char>>
    decreases parts.len(),
{
    if parts.len() == 0 {
        parts
    } else if parts.last().len() > 0 {
        nonempty_parts(parts.drop_last()).push(parts.last())
    } else {
        nonempty_parts(parts.drop_last())
    }
}

/// The non-empty pieces of `s` between occurrences of `sep`.
pub open spec fn segments(s: Seq<char>, sep: char) -> Seq<Seq<char>> {
    nonempty_parts(split_on(s, sep))
}

/// The first index at or after `from` at which `items` holds `wanted`, or the
/// length of `items` if there is none.
pub open spec fn seek(items: Seq<Seq<char>>, wanted: Seq<char>, from: nat) -> nat
    decreases items.len() - from,
{
    if from >= items.len() {
        items.len()
    } else if items[from as int] == wanted {
        from
    } else {
        seek(items, wanted, from + 1)
    }
}

/// Whether `pat` occurs in `s` as a contiguous run. The empty pattern occurs
/// in every sequence.
pub open spec fn has_substring(s: Seq<char>, pat: Seq<char>) -> bool {
    exists|i: int| occurs_at(s, pat, i)
}

/// Whether `pat` occurs in `s` starting at index `i`.
pub open spec fn occurs_at(s: Seq<char>, pat: Seq<char>, i: int) -> bool {
    0 <= i && i + pat.len() <= s.len() && s.subrange(i, i + pat.len()) == pat
}

/// `s` without its trailing run of `c`.
pub open spec fn trim_end(s: Seq<char>, c: char) -> Seq<char>
    decreases s.len(),
{
    if s.len() > 0 && s.last() == c {
        trim_end(s.drop_last(), c)
    } else {
        s
    }
}

/// `s` without its leading run of `c`.
pub open spec fn trim_start(s: Seq<char>, c: char) -> Seq<char>
    decreases s.len(),
{
    if s.len() > 0 && s.first() == c {
        trim_start(s.drop_first(), c)
    } else {
        s
    }
}

/// `s` without the runs of `c` at either end.
pub open spec fn trim_both(s: Seq<char>, c: char) -> Seq<char> {
    trim_start(trim_end(s, c), c)
}

/// Copies the characters of `s` into a vector, one element per `char`.
pub fn to_chars(s: &str) -> (v: Vec<char>)
    ensures
        v@ == s@,
{
    let mut v: Vec<char> = Vec::new();
    for c in it: s.chars()
        invariant
            it.seq() == s@,
            v@ == it.seq().take(it.index() as int),
    {
        v.push(c);
    }
    v
}

/// Compares two runs of characters element by element.
pub fn chars_eq(a: &[char], b: &[char]) -> (same: bool)
    ensures
        same == (a@ == b@),
{
    if a.len() != b.len() {
        return false;
    }
    let mut i: usize = 0;
    while i < a.len()
        invariant
            a.len() == b.len(),
            i <= a.len(),
            a@.take(i as int) == b@.take(i as int),
        decreases a.len() - i,
    {
        if a[i] != b[i] {
            return false;
        }
        assert(a@.take(i + 1) == a@.take(i as int).push(a@[i as int]));
        assert(b@.take(i + 1) == b@.take(i as int).push(b@[i as int]));
        i += 1;
    }
    assert(a@.take(a.len() as int) == a@);
    assert(b@.take(b.len() as int) == b@);
    true
}

/// Splits `s` at every `sep`, keeping empty pieces.
pub fn split_chars(s: &[char], sep: char) -> (parts: Vec<Vec<char>>)
    ensures
        views(parts@) == split_on(s@, sep),
{
    let mut parts: Vec<Vec<char>> = Vec::new();
    let mut piece: Vec<char> = Vec::new();
    let mut i: usize = 0;
    while i < s.len()
        invariant
            i <= s.len(),
            views(parts@).push(piece@) == split_on(s@.take(i as int), sep),
        decreases s.len() - i,
    {
        let ghost before = s@.take(i as int);
        let ghost upto = s@.take(i + 1);
        assert(upto.drop_last() == before);
        assert(upto.last() == s@[i as int]);
        let ghost done = views(parts@);
        if s[i] == sep {
            parts.push(piece);
            piece = Vec::new();
            assert(views(parts@) == split_on(before, sep));
            assert(views(parts@).push(piece@) == split_on(upto, sep));
        } else {
            piece.push(s[i]);
            assert(split_on(before, sep).drop_last() == done);
            assert(views(parts@).push(piece@) == split_on(upto, sep));
        }
        i += 1;
    }
    assert(s@.take(s.len() as int) == s@);
    parts.push(piece);
    assert(views(parts@) == split_on(s@, sep));
    parts
}

/// The non-empty pieces of `s` between occurrences of `sep`.
pub fn split_segments(s: &[char], sep: char) -> (segs: Vec<Vec<char>>)
    ensures
        views(segs@) == segments(s@, sep),
{
    let mut segs: Vec<Vec<char>> = Vec::new();
    let mut piece: Vec<char> = Vec::new();
    let ghost mut closed: Seq<Seq<char>> = Seq::empty();
    let mut i: usize = 0;
    while i < s.len()
        invariant
            i <= s.len(),
            closed.push(piece@) == split_on(s@.take(i as int), sep),
            views(segs@) == nonempty_parts(closed),
        decreases s.len() - i,
    {
        let ghost before = s@.take(i as int);
        let ghost upto = s@.take(i + 1);
        assert(upto.drop_last() == before);
        assert(upto.last() == s@[i as int]);
        if s[i] == sep {
            let ghost ended = closed.push(piece@);
            assert(ended.drop_last() == closed);
            assert(ended.last() == piece@);
            if piece.len() > 0 {
                segs.push(piece);
                assert(views(segs@) == nonempty_parts(ended));
            }
            piece = Vec::new();
            proof {
                closed = ended;
            }
            assert(closed.push(piece@) == split_on(upto, sep));
        } else {
            piece.push(s[i]);
            assert(split_on(before, sep).drop_last() == closed);
            assert(closed.push(piece@) == split_on(upto, sep));
        }
        i += 1;
    }
    assert(s@.take(s.len() as int) == s@);
    let ghost all = closed.push(piece@);
    assert(all.drop_last() == closed);
    assert(all.last() == piece@);
    if piece.len() > 0 {
        segs.push(piece);
        assert(views(segs@) == nonempty_parts(all));
    }
    segs
}

/// Whether `pat` stands in `s` at index `at`.
fn occurs_here(s: &[char], pat: &[char], at: usize) -> (hit: bool)
    requires
        at + pat.len() <= s.len(),
    ensures
        hit == occurs_at(s@, pat@, at as int),
{
    let mut j: usize = 0;
    while j < pat.len()
        invariant
            at + pat.len() <= s.len(),
            j <= pat.len(),
            forall|k: int| 0 <= k < j ==> s@[at + k] == pat@[k],
        decreases pat.len() - j,
    {
        if s[at + j] != pat[j] {
            assert(s@.subrange(at as int, at + pat.len())[j as int] != pat@[j as int]);
            return false;
        }
        j += 1;
    }
    assert(s@.subrange(at as int, at + pat.len()) =~= pat@);
    true
}

/// Whether `pat` stands in `s` at index `at`, wherever `at` lies.
pub fn stands_at(s: &[char], pat: &[char], at: usize) -> (hit: bool)
    ensures
        hit == occurs_at(s@, pat@, at as int),
{
    if at > s.len() || s.len() - at < pat.len() {
        false
    } else {
        occurs_here(s, pat, at)
    }
}

/// Whether `pat` occurs anywhere in `s`.
pub fn contains_chars(s: &[char], pat: &[char]) -> (found: bool)
    ensures
        found == has_substring(s@, pat@),
{
    if pat.len() > s.len() {
        return false;
    }
    let last: usize = s.len() - pat.len();
    let mut i: usize = 0;
    while i < last
        invariant
            last == s.len() - pat.len(),
            i <= last,
            forall|k: int| 0 <= k < i ==> !occurs_at(s@, pat@, k),
        decreases last - i,
    {
        if occurs_here(s, pat, i) {
            return true;
        }
        i += 1;
    }
    occurs_here(s, pat, last)
}

/// The bounds `(lo, hi)` of `s` without the runs of `c` at either end.
pub fn trim_bounds(s: &[char], c: char) -> (bounds: (usize, usize))
    ensures
        bounds.0 <= bounds.1 <= s.len(),
        s@.subrange(bounds.0 as int, bounds.1 as int) == trim_both(s@, c),
{
    let mut hi: usize = s.len();
    assert(s@.take(hi as int) == s@);
    while hi > 0 && s[hi - 1] == c
        invariant
            hi <= s.len(),
            trim_end(s@, c) == trim_end(s@.take(hi as int), c),
        decreases hi,
    {
        assert(s@.take(hi as int).drop_last() == s@.take(hi - 1));
        hi -= 1;
    }
    let ghost kept = s@.take(hi as int);
    assert(trim_end(s@, c) == kept);
    let mut lo: usize = 0;
    assert(s@.subrange(0, hi as int) == kept);
    while lo < hi && s[lo] == c
        invariant
            lo <= hi <= s.len(),
            kept == s@.take(hi as int),
            trim_start(kept, c) == trim_start(s@.subrange(lo as int, hi as int), c),
        decreases hi - lo,
    {
        assert(s@.subrange(lo as int, hi as int).drop_first() == s@.subrange(lo + 1, hi as int));
        lo += 1;
    }
    (lo, hi)
}

/// Whether `a` and `b` agree once the runs of `c` at either end of each are
/// left out.
pub fn trimmed_eq(a: &[char], b: &[char], c: char) -> (same: bool)
    ensures
        same == (trim_both(a@, c) == trim_both(b@, c)),
{
    let (alo, ahi) = trim_bounds(a, c);
    let (blo, bhi) = trim_bounds(b, c);
    let ghost ta = a@.subrange(alo as int, ahi as int);
    let ghost tb = b@.subrange(blo as int, bhi as int);
    if ahi - alo != bhi - blo {
        assert(ta.len() != tb.len());
        return false;
    }
    let n: usize = ahi - alo;
    let mut k: usize = 0;
    while k < n
        invariant
            alo + n == ahi <= a.len(),
            blo + n == bhi <= b.len(),
            k <= n,
            ta == a@.subrange(alo as int, ahi as int),
            tb == b@.subrange(blo as int, bhi as int),
            ta == trim_both(a@, c),
            tb == trim_both(b@, c),
            forall|j: int| 0 <= j < k ==> ta[j] == tb[j],
        decreases n - k,
    {
        if a[alo + k] != b[blo + k] {
            assert(ta[k as int] != tb[k as int]);
            return false;
        }
        k += 1;
    }
    assert(ta =~= tb);
    true
}

/// Whether `a` and `b` hold the same characters.
pub fn str_eq(a: &str, b: &str) -> (same: bool)
    ensures
        same == (a@ == b@),
{
    a.to_owned() == b.to_owned()
}

/// `s` without its trailing white space.
pub open spec fn trim_space_end(s: Seq<char>) -> Seq<char>
    decreases s.len(),
{
    if s.len() > 0 && is_space(s.last()) {
        trim_space_end(s.drop_last())
    } else {
        s
    }
}

/// `s` without its leading white space.
pub open spec fn trim_space_start(s: Seq<char>) -> Seq<char>
    decreases s.len(),
{
    if s.len() > 0 && is_space(s.first()) {
        trim_space_start(s.drop_first())
    } else {
        s
    }
}

/// `s` without the white space at either end.
pub open spec fn trim_space(s: Seq<char>) -> Seq<char> {
    trim_space_start(trim_space_end(s))
}

/// The bounds `(lo, hi)` of `s` without the white space at either end.
pub fn trim_space_bounds(s: &[char]) -> (bounds: (usize, usize))
    ensures
        bounds.0 <= bounds.1 <= s.len(),
        s@.subrange(bounds.0 as int, bounds.1 as int) == trim_space(s@),
{
    let mut hi: usize = s.len();
    assert(s@.take(hi as int) == s@);
    while hi > 0 && s[hi - 1].is_whitespace()
        invariant
            hi <= s.len(),
            trim_space_end(s@) == trim_space_end(s@.take(hi as int)),
        decreases hi,
    {
        assert(s@.take(hi as int).drop_last() == s@.take(hi - 1));
        hi -= 1;
    }
    let ghost kept = s@.take(hi as int);
    assert(trim_space_end(s@) == kept);
    let mut lo: usize = 0;
    assert(s@.subrange(0, hi as int) == kept);
    while lo < hi && s[lo].is_whitespace()
        invariant
            lo <= hi <= s.len(),
            kept == s@.take(hi as int),
            trim_space_start(kept) == trim_space_start(s@.subrange(lo as int, hi as int)),
        decreases hi - lo,
    {
        assert(s@.subrange(lo as int, hi as int).drop_first() == s@.subrange(lo + 1, hi as int));
        lo += 1;
    }
    (lo, hi)
}

/// Whether `a` and `b` agree once the white space at either end of each is
/// left out.
pub fn trimmed_space_eq(a: &str, b: &str) -> (same: bool)
    ensures
        same == (trim_space(a@) == trim_space(b@)),
{
    let ac = to_chars(a);
    let bc = to_chars(b);
    let (alo, ahi) = trim_space_bounds(ac.as_slice());
    let (blo, bhi) = trim_space_bounds(bc.as_slice());
    let ghost ta = ac@.subrange(alo as int, ahi as int);
    let ghost tb = bc@.subrange(blo as int, bhi as int);
    if ahi - alo != bhi - blo {
        assert(ta.len() != tb.len());
        return false;
    }
    let n: usize = ahi - alo;
    let mut k: usize = 0;
    while k < n
        invariant
            alo + n == ahi <= ac.len(),
            blo + n == bhi <= bc.len(),
            k <= n,
            ta == ac@.subrange(alo as int, ahi as int),
            tb == bc@.subrange(blo as int, bhi as int),
            ta == trim_space(a@),
            tb == trim_space(b@),
            forall|j: int| 0 <= j < k ==> ta[j] == tb[j],
        decreases n - k,
    {
        if ac[alo + k] != bc[blo + k] {
            assert(ta[k as int] != tb[k as int]);
            return false;
        }
        k += 1;
    }
    assert(ta =~= tb);
    true
}

/// `c` in lower case if it is one of the letters `A` to `Z`, else `c`.
pub open spec fn lower_ascii_char(c: char) -> char {
    if 'A' <= c && c <= 'Z' {
        ((c as u8 + 32) as u8) as char
    } else {
        c
    }
}

/// `s` with the letters `A` to `Z` in lower case.
pub open spec fn lower_ascii(s: Seq<char>) -> Seq<char> {
    Seq::new(s.len(), |i: int| lower_ascii_char(s[i]))
}

/// The characters of `s` with the letters `A` to `Z` in lower case.
pub fn lower_ascii_chars(s: &str) -> (lowered: Vec<char>)
    ensures
        lowered@ == lower_ascii(s@),
{
    let chars = to_chars(s);
    let mut lowered: Vec<char> = Vec::new();
    let mut i: usize = 0;
    while i < chars.len()
        invariant
            i <= chars.len(),
            chars@ == s@,
            lowered@ == lower_ascii(s@).take(i as int),
        decreases chars.len() - i,
    {
        let c = chars[i];
        let low: char = if c >= 'A' && c <= 'Z' {
            (c as u8 + 32u8) as char
        } else {
            c
        };
        lowered.push(low);
        assert(lowered@ =~= lower_ascii(s@).take(i + 1));
        i += 1;
    }
    assert(lower_ascii(s@).take(i as int) =~= lower_ascii(s@));
    lowered
}

/// The first piece of `pieces` with `head` put before it.
pub open spec fn with_head(head: Seq<char>, pieces: Seq<Seq<char>>) -> Seq<Seq<char>> {
    pieces.update(0, head + pieces[0])
}

/// The pieces of `s` that lie between occurrences of `::`, found from the
/// left. Empty pieces are kept, so the result is never empty.
pub open spec fn split_on_colons(s: Seq<char>) -> Seq<Seq<char>>
    decreases s.len(),
{
    if s.len() < 2 {
        seq![s]
    } else if s[0] == ':' && s[1] == ':' {
        seq![Seq::<char>::empty()] + split_on_colons(s.skip(2))
    } else {
        with_head(seq![s[0]], split_on_colons(s.skip(1)))
    }
}

/// `split_on_colons` always yields at least one piece.
pub proof fn lemma_split_on_colons_nonempty(s: Seq<char>)
    ensures
        split_on_colons(s).len() >= 1,
    decreases s.len(),
{
    if s.len() >= 2 {
        if s[0] == ':' && s[1] == ':' {
            lemma_split_on_colons_nonempty(s.skip(2));
        } else {
            lemma_split_on_colons_nonempty(s.skip(1));
        }
    }
}

/// Splits `s` at every `::`, keeping empty pieces.
pub fn split_at_colons(s: &[char]) -> (parts: Vec<Vec<char>>)
    ensures
        views(parts@) == split_on_colons(s@),
        parts@.len() >= 1,
{
    let mut parts: Vec<Vec<char>> = Vec::new();
    let mut piece: Vec<char> = Vec::new();
    let mut i: usize = 0;
    proof {
        lemma_split_on_colons_nonempty(s@);
        assert(s@.skip(0) == s@);
        assert(views(parts@) + with_head(piece@, split_on_colons(s@)) =~= split_on_colons(s@));
    }
    while i < s.len()
        invariant
            i <= s.len(),
            split_on_colons(s@) == views(parts@) + with_head(
                piece@,
                split_on_colons(s@.skip(i as int)),
            ),
        decreases s.len() - i,
    {
        let ghost rest = s@.skip(i as int);
        let ghost closed = views(parts@);
        let ghost head = piece@;
        if s[i] == ':' && i + 1 < s.len() && s[i + 1] == ':' {
            proof {
                assert(rest.skip(2) == s@.skip(i + 2));
                lemma_split_on_colons_nonempty(rest.skip(2));
            }
            parts.push(piece);
            piece = Vec::new();
            i += 2;
            assert(split_on_colons(s@) =~= views(parts@) + with_head(
                piece@,
                split_on_colons(s@.skip(i as int)),
            )) by {
                let tail = split_on_colons(s@.skip(i as int));
                assert(views(parts@) =~= closed.push(head));
                assert(with_head(head, seq![Seq::<char>::empty()] + tail) =~= seq![head] + tail);
                assert(with_head(piece@, tail) =~= tail);
            }
        } else {
            proof {
                assert(rest.skip(1) == s@.skip(i + 1));
                lemma_split_on_colons_nonempty(rest.skip(1));
                if rest.len() < 2 {
                    assert(rest.skip(1).len() == 0);
                    assert(split_on_colons(rest.skip(1)) == seq![rest.skip(1)]);
                    assert(seq![rest[0]] + rest.skip(1) =~= rest);
                    assert(split_on_colons(rest) =~= with_head(
                        seq![rest[0]],
                        split_on_colons(rest.skip(1)),
                    ));
                }
            }
            piece.push(s[i]);
            i += 1;
            assert(split_on_colons(s@) =~= views(parts@) + with_head(
                piece@,
                split_on_colons(s@.skip(i as int)),
            )) by {
                let tail = split_on_colons(s@.skip(i as int));
                assert(head + (seq![rest[0]] + tail[0]) =~= head.push(rest[0]) + tail[0]);
                assert(with_head(head, with_head(seq![rest[0]], tail)) =~= with_head(
                    head.push(rest[0]),
                    tail,
                ));
            }
        }
    }
    assert(s@.skip(s.len() as int) =~= Seq::<char>::empty());
    assert(with_head(piece@, seq![Seq::<char>::empty()]) =~= seq![piece@]);
    parts.push(piece);
    assert(views(parts@) =~= split_on_colons(s@));
    parts
}

/// `s` with every occurrence of `pat`, found from the left, replaced by
/// `with`. An empty pattern occurs nowhere.
pub open spec fn replace_all(s: Seq<char>, pat: Seq<char>, with: Seq<char>) -> Seq<char>
    decreases s.len(),
{
    if pat.len() == 0 || s.len() < pat.len() {
        s
    } else if s.take(pat.len() as int) == pat {
        with + replace_all(s.skip(pat.len() as int), pat, with)
    } else {
        seq![s[0]] + replace_all(s.skip(1), pat, with)
    }
}

/// Replaces every occurrence of `pat` in `s`, found from the left, by `with`.
pub fn replace_chars(s: &[char], pat: &[char], with: &[char]) -> (replaced: Vec<char>)
    ensures
        replaced@ == replace_all(s@, pat@, with@),
{
    let mut replaced: Vec<char> = Vec::new();
    let mut i: usize = 0;
    assert(s@.skip(0) == s@);
    while pat.len() > 0 && i < s.len() && s.len() - i >= pat.len()
        invariant
            i <= s.len(),
            replace_all(s@, pat@, with@) == replaced@ + replace_all(
                s@.skip(i as int),
                pat@,
                with@,
            ),
        decreases s.len() - i,
    {
        let ghost rest = s@.skip(i as int);
        let ghost done = replaced@;
        let hit = occurs_here(s, pat, i);
        assert(hit == (rest.take(pat.len() as int) == pat@)) by {
            assert(rest.take(pat.len() as int) =~= s@.subrange(i as int, i + pat.len()));
        }
        if hit {
            let mut k: usize = 0;
            while k < with.len()
                invariant
                    k <= with.len(),
                    replaced@ == done + with@.take(k as int),
                decreases with.len() - k,
            {
                replaced.push(with[k]);
                assert(replaced@ =~= done + with@.take(k + 1));
                k += 1;
            }
            assert(with@.take(with.len() as int) == with@);
            assert(rest.skip(pat.len() as int) == s@.skip(i + pat.len()));
            i += pat.len();
            assert(replace_all(s@, pat@, with@) =~= replaced@ + replace_all(
                s@.skip(i as int),
                pat@,
                with@,
            ));
        } else {
            replaced.push(s[i]);
            assert(rest.skip(1) == s@.skip(i + 1));
            i += 1;
            assert(replace_all(s@, pat@, with@) =~= replaced@ + replace_all(
                s@.skip(i as int),
                pat@,
                with@,
            ));
        }
    }
    let ghost done = replaced@;
    let ghost left = s@.skip(i as int);
    assert(replace_all(left, pat@, with@) == left);
    while i < s.len()
        invariant
            i <= s.len(),
            replaced@ + s@.skip(i as int) == done + left,
        decreases s.len() - i,
    {
        let ghost before = replaced@;
        replaced.push(s[i]);
        assert(before.push(s@[i as int]) + s@.skip(i + 1) =~= before + s@.skip(i as int));
        i += 1;
    }
    assert(s@.skip(s.len() as int) =~= Seq::<char>::empty());
    assert(replaced@ =~= done + left);
    replaced
}

/// The string that holds the characters `chars`.
pub fn string_of(chars: &[char]) -> (text: String)
    ensures
        text@ == chars@,
{
    let mut text = String::new();
    let mut i: usize = 0;
    while i < chars.len()
        invariant
            i <= chars.len(),
            text@ == chars@.take(i as int),
        decreases chars.len() - i,
    {
        text.push(chars[i]);
        assert(text@ =~= chars@.take(i + 1));
        i += 1;
    }
    assert(chars@.take(chars.len() as int) == chars@);
    text
}

} // verus!
