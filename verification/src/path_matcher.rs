//! Matching of request paths against a configured path template.
//!
//! A template is a `/`-delimited list of segments. A segment is either a
//! literal or the wildcard marker, which stands for one or more request
//! segments: a request that ends before the template does is no match. A
//! template is only usable if its first segment is the required prefix
//! literal.

use vstd::prelude::*;
use crate::text::{
    chars_eq, contains_chars, has_substring, lemma_split_on_nonempty, nonempty_parts, seek,
    segments, split_chars, split_on, split_segments, to_chars, trim_both, trim_end, trimmed_eq,
    views,
};

verus! {

/// The character that delimits path segments.
pub const SEPARATOR: char = '/';

/// The segment that stands for one or more request segments.
pub const WILDCARD: &'static str = "...";

/// The prefix literal of the paths on which webhook calls arrive.
pub const CALLBACK_PATH: &'static str = "callhook";

/// The prefix literal of the paths on which consumers poll.
pub const POLLING_PATH: &'static str = "pollhook";

/// Whether the template begins with the prefix literal: its first piece is
/// the prefix, or its first piece is empty (the template starts with a
/// slash) and its second piece is the prefix.
pub open spec fn has_prefix_segment(template: Seq<char>, prefix: Seq<char>) -> bool {
    let parts = split_on(template, SEPARATOR);
    if parts[0].len() == 0 {
        parts.len() > 1 && parts[1] == prefix
    } else {
        parts[0] == prefix
    }
}

/// Whether the first segment of the template is the wildcard marker.
pub open spec fn has_leading_wildcard(template: Seq<char>, wildcard: Seq<char>) -> bool {
    let tpl = segments(template, SEPARATOR);
    tpl.len() > 0 && tpl[0] == wildcard
}

/// The lock-step walk over template segments `tpl` and request segments
/// `req`, with the template cursor at `ci` and the request cursor at `ri`.
///
/// - Once the template is used up, the walk has succeeded.
/// - Where the request is used up and template segments are left, the walk
///   fails: every segment of the template, a wildcard too, takes at least
///   one segment of the request.
/// - A wildcard in last position takes what is left of the request.
/// - A wildcard followed by another wildcard is passed over.
/// - A wildcard followed by a literal moves the request cursor to the next
///   occurrence of that literal, which must exist and must not be where the
///   search began.
/// - A literal must equal the request segment under the cursor.
pub open spec fn walk(
    tpl: Seq<Seq<char>>,
    req: Seq<Seq<char>>,
    wildcard: Seq<char>,
    ci: nat,
    ri: nat,
) -> bool
    decreases tpl.len() - ci,
{
    if ci >= tpl.len() {
        true
    } else if ri >= req.len() {
        false
    } else if tpl[ci as int] == wildcard {
        if ci == tpl.len() - 1 {
            true
        } else if tpl[(ci + 1) as int] == wildcard {
            walk(tpl, req, wildcard, ci + 1, ri)
        } else {
            let found = seek(req, tpl[(ci + 1) as int], ri);
            found < req.len() && found != ri && walk(tpl, req, wildcard, ci + 1, found)
        }
    } else {
        tpl[ci as int] == req[ri as int] && walk(tpl, req, wildcard, ci + 1, ri + 1)
    }
}

/// Whether the request path `path` matches `template`, for the required
/// prefix literal `prefix` and the wildcard marker `wildcard`.
///
/// A template that does not begin with the prefix, or whose first segment is
/// the wildcard, matches nothing. A template in which the marker does not
/// occur matches exactly the paths equal to it once the slashes at either end
/// of both are left out. Any other template is walked segment by segment.
pub open spec fn matches_template(
    template: Seq<char>,
    path: Seq<char>,
    prefix: Seq<char>,
    wildcard: Seq<char>,
) -> bool {
    &&& has_prefix_segment(template, prefix)
    &&& !has_leading_wildcard(template, wildcard)
    &&& if has_substring(template, wildcard) {
        walk(segments(template, SEPARATOR), segments(path, SEPARATOR), wildcard, 0, 0)
    } else {
        trim_both(template, SEPARATOR) == trim_both(path, SEPARATOR)
    }
}

/// Whether `template` begins with the prefix literal.
pub fn starts_with_prefix(template: &[char], prefix: &[char]) -> (valid: bool)
    ensures
        valid == has_prefix_segment(template@, prefix@),
{
    let parts = split_chars(template, SEPARATOR);
    proof {
        lemma_split_on_nonempty(template@, SEPARATOR);
        assert(views(parts@).len() == parts@.len());
        assert(views(parts@)[0] == parts@[0]@);
    }
    if parts[0].len() == 0 {
        if parts.len() > 1 {
            assert(views(parts@)[1] == parts@[1]@);
            chars_eq(parts[1].as_slice(), prefix)
        } else {
            false
        }
    } else {
        chars_eq(parts[0].as_slice(), prefix)
    }
}

/// Walks the template segments against the request segments from the start.
pub fn walk_segments(
    tpl: &Vec<Vec<char>>,
    req: &Vec<Vec<char>>,
    wildcard: &[char],
) -> (matched: bool)
    ensures
        matched == walk(views(tpl@), views(req@), wildcard@, 0, 0),
{
    let ghost t = views(tpl@);
    let ghost r = views(req@);
    let ghost w = wildcard@;
    let mut ci: usize = 0;
    let mut ri: usize = 0;
    while ci < tpl.len() && ri < req.len()
        invariant
            t == views(tpl@),
            r == views(req@),
            w == wildcard@,
            ci <= tpl.len(),
            ri <= req.len(),
            walk(t, r, w, 0, 0) == walk(t, r, w, ci as nat, ri as nat),
        decreases tpl.len() - ci,
    {
        assert(t[ci as int] == tpl@[ci as int]@);
        assert(r[ri as int] == req@[ri as int]@);
        if chars_eq(tpl[ci].as_slice(), wildcard) {
            if ci == tpl.len() - 1 {
                return true;
            }
            assert(t[ci + 1] == tpl@[ci + 1]@);
            if chars_eq(tpl[ci + 1].as_slice(), wildcard) {
                ci += 1;
                continue;
            }
            let start: usize = ri;
            while ri < req.len() && !chars_eq(req[ri].as_slice(), tpl[ci + 1].as_slice())
                invariant
                    t == views(tpl@),
                    r == views(req@),
                    ci + 1 < tpl.len(),
                    start <= ri <= req.len(),
                    seek(r, t[ci + 1], start as nat) == seek(r, t[ci + 1], ri as nat),
                decreases req.len() - ri,
            {
                assert(r[ri as int] == req@[ri as int]@);
                ri += 1;
            }
            if ri >= req.len() {
                return false;
            }
            assert(r[ri as int] == req@[ri as int]@);
            if ri == start {
                return false;
            }
            ci += 1;
        } else if chars_eq(tpl[ci].as_slice(), req[ri].as_slice()) {
            ri += 1;
            ci += 1;
        } else {
            return false;
        }
    }
    ci >= tpl.len()
}

/// Decides whether the request path `path` matches `template`.
pub fn path_matches(template: &str, path: &str, prefix: &str, wildcard: &str) -> (matched: bool)
    ensures
        matched == matches_template(template@, path@, prefix@, wildcard@),
{
    let t = to_chars(template);
    let p = to_chars(path);
    let pre = to_chars(prefix);
    let w = to_chars(wildcard);
    if !starts_with_prefix(t.as_slice(), pre.as_slice()) {
        return false;
    }
    let tpl = split_segments(t.as_slice(), SEPARATOR);
    if tpl.len() > 0 {
        assert(views(tpl@)[0] == tpl@[0]@);
        if chars_eq(tpl[0].as_slice(), w.as_slice()) {
            return false;
        }
    }
    if contains_chars(t.as_slice(), w.as_slice()) {
        let req = split_segments(p.as_slice(), SEPARATOR);
        walk_segments(&tpl, &req, w.as_slice())
    } else {
        trimmed_eq(t.as_slice(), p.as_slice(), SEPARATOR)
    }
}

/// A template whose first segment is the wildcard matches no path.
pub proof fn lemma_leading_wildcard_rejected(
    template: Seq<char>,
    path: Seq<char>,
    prefix: Seq<char>,
    wildcard: Seq<char>,
)
    requires
        has_leading_wildcard(template, wildcard),
    ensures
        !matches_template(template, path, prefix, wildcard),
{
}

/// The first piece that is not empty is the first segment.
pub proof fn lemma_first_segment(parts: Seq<Seq<char>>, at: int)
    requires
        0 <= at < parts.len(),
        parts[at].len() > 0,
        forall|i: int| 0 <= i < at ==> parts[i].len() == 0,
    ensures
        nonempty_parts(parts).len() > 0,
        nonempty_parts(parts)[0] == parts[at],
    decreases parts.len(),
{
    let init = parts.drop_last();
    if at < parts.len() - 1 {
        assert(init[at] == parts[at]);
        assert forall|i: int| 0 <= i < at implies init[i].len() == 0 by {
            assert(init[i] == parts[i]);
        }
        lemma_first_segment(init, at);
    } else {
        lemma_no_segments(init);
    }
}

/// Empty pieces make no segments.
pub proof fn lemma_no_segments(parts: Seq<Seq<char>>)
    requires
        forall|i: int| 0 <= i < parts.len() ==> parts[i].len() == 0,
    ensures
        nonempty_parts(parts).len() == 0,
    decreases parts.len(),
{
    if parts.len() > 0 {
        let init = parts.drop_last();
        assert forall|i: int| 0 <= i < init.len() implies init[i].len() == 0 by {
            assert(init[i] == parts[i]);
        }
        lemma_no_segments(init);
    }
}

/// A template that begins with the prefix does not begin with the wildcard,
/// as long as the prefix is a segment other than the wildcard.
pub proof fn lemma_prefix_is_first_segment(
    template: Seq<char>,
    prefix: Seq<char>,
    wildcard: Seq<char>,
)
    requires
        has_prefix_segment(template, prefix),
        prefix.len() > 0,
        prefix != wildcard,
    ensures
        !has_leading_wildcard(template, wildcard),
        segments(template, SEPARATOR)[0] == prefix,
{
    let parts = split_on(template, SEPARATOR);
    lemma_split_on_nonempty(template, SEPARATOR);
    if parts[0].len() == 0 {
        lemma_first_segment(parts, 1);
    } else {
        lemma_first_segment(parts, 0);
    }
}

/// A template that begins with the callback prefix does not begin with the
/// wildcard: for the paths on which webhook calls arrive, the rule on leading
/// wildcards asks nothing beyond the rule on the prefix.
pub proof fn lemma_callback_template_has_no_leading_wildcard(template: Seq<char>)
    requires
        has_prefix_segment(template, CALLBACK_PATH@),
    ensures
        !has_leading_wildcard(template, WILDCARD@),
{
    reveal_strlit("callhook");
    reveal_strlit("...");
    assert(CALLBACK_PATH@.len() != WILDCARD@.len());
    lemma_prefix_is_first_segment(template, CALLBACK_PATH@, WILDCARD@);
}

/// A wildcard does not stand for nothing: where the literal after it is the
/// request segment under the cursor, the walk fails.
pub proof fn lemma_wildcard_takes_a_segment(
    tpl: Seq<Seq<char>>,
    req: Seq<Seq<char>>,
    wildcard: Seq<char>,
    ci: nat,
    ri: nat,
)
    requires
        ci + 1 < tpl.len(),
        ri < req.len(),
        tpl[ci as int] == wildcard,
        tpl[(ci + 1) as int] != wildcard,
        req[ri as int] == tpl[(ci + 1) as int],
    ensures
        !walk(tpl, req, wildcard, ci, ri),
{
}

/// A request that is used up before the template fails the walk.
pub proof fn lemma_request_used_up(
    tpl: Seq<Seq<char>>,
    req: Seq<Seq<char>>,
    wildcard: Seq<char>,
    ci: nat,
    ri: nat,
)
    requires
        ci < tpl.len(),
        ri >= req.len(),
    ensures
        !walk(tpl, req, wildcard, ci, ri),
{
}

/// Literal segments followed by one wildcard do not match the request made
/// of the same literals and nothing more: the wildcard is left with nothing
/// to take.
pub proof fn lemma_trailing_wildcard_takes_a_segment(
    literals: Seq<Seq<char>>,
    wildcard: Seq<char>,
    from: nat,
)
    requires
        from <= literals.len(),
        forall|i: int| 0 <= i < literals.len() ==> literals[i] != wildcard,
    ensures
        !walk(literals.push(wildcard), literals, wildcard, from, from),
    decreases literals.len() - from,
{
    let tpl = literals.push(wildcard);
    if from < literals.len() {
        assert(tpl[from as int] == literals[from as int]);
        lemma_trailing_wildcard_takes_a_segment(literals, wildcard, from + 1);
    }
}

/// Literal segments followed by one wildcard match every request that begins
/// with the same literals and goes on after them.
pub proof fn lemma_literals_then_wildcard(
    literals: Seq<Seq<char>>,
    rest: Seq<Seq<char>>,
    wildcard: Seq<char>,
    from: nat,
)
    requires
        from <= literals.len(),
        rest.len() > 0,
        forall|i: int| 0 <= i < literals.len() ==> literals[i] != wildcard,
    ensures
        walk(literals.push(wildcard), literals + rest, wildcard, from, from),
    decreases literals.len() - from,
{
    let tpl = literals.push(wildcard);
    let req = literals + rest;
    if from < literals.len() {
        assert(tpl[from as int] == literals[from as int]);
        assert(req[from as int] == literals[from as int]);
        lemma_literals_then_wildcard(literals, rest, wildcard, from + 1);
    } else {
        assert(tpl[from as int] == wildcard);
    }
}

/// A slash before a text does not change what is left of it once the
/// slashes at either end are left out.
pub proof fn lemma_leading_slash(s: Seq<char>)
    ensures
        trim_both(seq![SEPARATOR] + s, SEPARATOR) == trim_both(s, SEPARATOR),
{
    lemma_trim_end_after_slash(s);
    let kept = trim_end(s, SEPARATOR);
    if kept.len() > 0 {
        assert((seq![SEPARATOR] + kept).drop_first() == kept);
    }
}

/// The trailing slashes of a text leave as they do without a slash before
/// the text, unless the text is made of slashes only.
pub proof fn lemma_trim_end_after_slash(s: Seq<char>)
    ensures
        trim_end(seq![SEPARATOR] + s, SEPARATOR) == if trim_end(s, SEPARATOR).len() == 0 {
            Seq::<char>::empty()
        } else {
            seq![SEPARATOR] + trim_end(s, SEPARATOR)
        },
    decreases s.len(),
{
    let whole = seq![SEPARATOR] + s;
    assert(whole.last() == if s.len() == 0 {
        SEPARATOR
    } else {
        s.last()
    });
    if s.len() == 0 {
        assert(whole.drop_last() == Seq::<char>::empty());
        assert(trim_end(whole, SEPARATOR) == trim_end(whole.drop_last(), SEPARATOR));
    } else if s.last() == SEPARATOR {
        assert(whole.drop_last() == seq![SEPARATOR] + s.drop_last());
        lemma_trim_end_after_slash(s.drop_last());
        assert(trim_end(whole, SEPARATOR) == trim_end(whole.drop_last(), SEPARATOR));
        assert(trim_end(s, SEPARATOR) == trim_end(s.drop_last(), SEPARATOR));
    } else {
        assert(trim_end(whole, SEPARATOR) == whole);
        assert(trim_end(s, SEPARATOR) == s);
    }
}

/// For a template without a wildcard, slashes at either end of the request
/// path do not matter.
pub proof fn lemma_literal_ignores_outer_slashes(
    template: Seq<char>,
    path: Seq<char>,
    prefix: Seq<char>,
    wildcard: Seq<char>,
)
    requires
        !has_substring(template, wildcard),
    ensures
        matches_template(template, seq![SEPARATOR] + path, prefix, wildcard) == matches_template(
            template,
            path,
            prefix,
            wildcard,
        ),
        matches_template(template, path.push(SEPARATOR), prefix, wildcard) == matches_template(
            template,
            path,
            prefix,
            wildcard,
        ),
{
    lemma_leading_slash(path);
    assert(path.push(SEPARATOR).drop_last() == path);
}

} // verus!
