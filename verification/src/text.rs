//! Character-level text rules: what counts as white space, trimming, the first
//! white-space-separated token of a string, and joining strings with a separator.
//!
//! Every rule is stated over `Seq<char>` and implemented on `&str` / `String`.

use vstd::prelude::*;
use vstd::string::StrSliceExecFns;
use vstd::string::StringExecFns;

verus! {

/// `==` on string slices (`<str as PartialEq>::eq`) holds exactly when the
/// two slices hold the same characters.
pub assume_specification[ <str as PartialEq>::eq ](a: &str, b: &str) -> (r: bool)
    ensures
        r == (a@ == b@),
;

/// The characters that carry the Unicode `White_Space` property.
pub open spec fn spec_is_white_space(c: char) -> bool {
    ||| '\u{9}' <= c <= '\u{D}'
    ||| c == ' '
    ||| c == '\u{85}'
    ||| c == '\u{A0}'
    ||| c == '\u{1680}'
    ||| '\u{2000}' <= c <= '\u{200A}'
    ||| c == '\u{2028}'
    ||| c == '\u{2029}'
    ||| c == '\u{202F}'
    ||| c == '\u{205F}'
    ||| c == '\u{3000}'
}

/// Length of the longest prefix of `s` whose characters all are white space
/// (`white == true`) or all are not (`white == false`).
pub open spec fn leading_run(s: Seq<char>, white: bool) -> nat
    decreases s.len(),
{
    if s.len() > 0 && spec_is_white_space(s[0]) == white {
        1 + leading_run(s.drop_first(), white)
    } else {
        0
    }
}

/// Length of the longest suffix of `s` whose characters all are white space
/// (`white == true`) or all are not (`white == false`).
pub open spec fn trailing_run(s: Seq<char>, white: bool) -> nat
    decreases s.len(),
{
    if s.len() > 0 && spec_is_white_space(s.last()) == white {
        1 + trailing_run(s.drop_last(), white)
    } else {
        0
    }
}

/// `s` without its leading and trailing white space.
pub open spec fn trimmed(s: Seq<char>) -> Seq<char> {
    if leading_run(s, true) == s.len() {
        Seq::empty()
    } else {
        s.subrange(leading_run(s, true) as int, s.len() - trailing_run(s, true))
    }
}

/// The first maximal run of characters of `s` that are not white space; empty
/// when `s` holds nothing but white space.
pub open spec fn spec_first_token(s: Seq<char>) -> Seq<char> {
    let rest = s.skip(leading_run(s, true) as int);
    rest.take(leading_run(rest, false) as int)
}

/// The parts in order, with `sep` between each two neighbours.
pub open spec fn joined(parts: Seq<Seq<char>>, sep: Seq<char>) -> Seq<char>
    decreases parts.len(),
{
    if parts.len() == 0 {
        Seq::empty()
    } else if parts.len() == 1 {
        parts[0]
    } else {
        joined(parts.drop_last(), sep) + sep + parts.last()
    }
}

/// The character sequences of a sequence of strings.
pub open spec fn string_views(strings: Seq<String>) -> Seq<Seq<char>> {
    strings.map_values(|s: String| s@)
}

/// A prefix run is pinned down by its length `k`: the first `k` characters
/// belong to the run and the next one, if there is one, does not.
pub proof fn lemma_leading_run(s: Seq<char>, white: bool, k: int)
    requires
        0 <= k <= s.len(),
        forall|i: int| 0 <= i < k ==> spec_is_white_space(#[trigger] s[i]) == white,
        k < s.len() ==> spec_is_white_space(s[k]) != white,
    ensures
        leading_run(s, white) == k,
    decreases k,
{
    if k > 0 {
        let rest = s.drop_first();
        assert forall|i: int| 0 <= i < k - 1 implies spec_is_white_space(#[trigger] rest[i])
            == white by {}
        lemma_leading_run(rest, white, k - 1);
    }
}

/// A suffix run is pinned down by its length `k`: the last `k` characters
/// belong to the run and the one before them, if there is one, does not.
pub proof fn lemma_trailing_run(s: Seq<char>, white: bool, k: int)
    requires
        0 <= k <= s.len(),
        forall|i: int| s.len() - k <= i < s.len() ==> spec_is_white_space(#[trigger] s[i]) == white,
        k < s.len() ==> spec_is_white_space(s[s.len() - k - 1]) != white,
    ensures
        trailing_run(s, white) == k,
    decreases k,
{
    if k > 0 {
        let rest = s.drop_last();
        assert forall|i: int| rest.len() - (k - 1) <= i < rest.len() implies spec_is_white_space(
            #[trigger] rest[i],
        ) == white by {}
        lemma_trailing_run(rest, white, k - 1);
    }
}

/// The run lengths stay within the string, every character inside a run
/// belongs to it, and the character next to a run does not.
pub proof fn lemma_run_bounds(s: Seq<char>, white: bool)
    ensures
        leading_run(s, white) <= s.len(),
        trailing_run(s, white) <= s.len(),
        forall|i: int|
            0 <= i < leading_run(s, white) ==> spec_is_white_space(#[trigger] s[i]) == white,
        forall|i: int|
            s.len() - trailing_run(s, white) <= i < s.len() ==> spec_is_white_space(
                #[trigger] s[i],
            ) == white,
        leading_run(s, white) < s.len() ==> spec_is_white_space(s[leading_run(s, white) as int])
            != white,
        trailing_run(s, white) < s.len() ==> spec_is_white_space(
            s[s.len() - trailing_run(s, white) - 1],
        ) != white,
    decreases s.len(),
{
    if s.len() > 0 {
        let front = s.drop_first();
        let back = s.drop_last();
        lemma_run_bounds(front, white);
        lemma_run_bounds(back, white);
        if spec_is_white_space(s[0]) == white {
            assert forall|i: int| 0 <= i < leading_run(s, white) implies spec_is_white_space(
                #[trigger] s[i],
            ) == white by {
                if i > 0 {
                    assert(s[i] == front[i - 1]);
                }
            }
        }
        if spec_is_white_space(s.last()) == white {
            assert forall|i: int|
                s.len() - trailing_run(s, white) <= i < s.len() implies spec_is_white_space(
                #[trigger] s[i],
            ) == white by {
                if i < s.len() - 1 {
                    assert(s[i] == back[i]);
                }
            }
        }
    }
}

/// A string that is not all white space keeps at least one character when
/// trimmed: its leading and trailing white space do not overlap.
pub proof fn lemma_trim_bounds(s: Seq<char>)
    ensures
        leading_run(s, true) < s.len() ==> leading_run(s, true) + trailing_run(s, true) < s.len(),
        trimmed(s).len() <= s.len(),
        leading_run(s, true) < s.len() ==> trimmed(s).len() == s.len() - leading_run(s, true)
            - trailing_run(s, true),
{
    lemma_run_bounds(s, true);
}

/// Trimming leaves no white space at either end, so trimming again changes
/// nothing.
pub proof fn lemma_trimmed_is_trim(s: Seq<char>)
    ensures
        trimmed(trimmed(s)) == trimmed(s),
        trimmed(s).len() > 0 ==> !spec_is_white_space(trimmed(s).first())
            && !spec_is_white_space(trimmed(s).last()),
{
    lemma_run_bounds(s, true);
    lemma_trim_bounds(s);
    let t = trimmed(s);
    if t.len() > 0 {
        lemma_leading_run(t, true, 0);
        lemma_trailing_run(t, true, 0);
    }
}

/// The first token holds no white space, and it is empty exactly when the
/// string holds nothing else.
pub proof fn lemma_first_token(s: Seq<char>)
    ensures
        forall|i: int|
            0 <= i < spec_first_token(s).len() ==> !spec_is_white_space(
                #[trigger] spec_first_token(s)[i],
            ),
        spec_first_token(s).len() == 0 <==> leading_run(s, true) == s.len(),
        spec_first_token(s).len() <= s.len(),
{
    lemma_run_bounds(s, true);
    let rest = s.skip(leading_run(s, true) as int);
    lemma_run_bounds(rest, false);
}

/// Joining distributes over adding one more part at the end.
pub proof fn lemma_joined_push(parts: Seq<Seq<char>>, sep: Seq<char>, last: Seq<char>)
    ensures
        joined(parts.push(last), sep) == if parts.len() == 0 {
            last
        } else {
            joined(parts, sep) + sep + last
        },
{
    assert(parts.push(last).drop_last() =~= parts);
}

/// Whether `c` is white space.
#[verifier::when_used_as_spec(spec_is_white_space)]
pub fn is_white_space(c: char) -> (b: bool)
    ensures
        b == spec_is_white_space(c),
{
    ('\u{9}' <= c && c <= '\u{D}') || c == ' ' || c == '\u{85}' || c == '\u{A0}' || c
        == '\u{1680}' || ('\u{2000}' <= c && c <= '\u{200A}') || c == '\u{2028}' || c
        == '\u{2029}' || c == '\u{202F}' || c == '\u{205F}' || c == '\u{3000}'
}

/// The characters of `s`, one by one.
pub fn to_chars(s: &str) -> (chars: Vec<char>)
    ensures
        chars@ == s@,
{
    broadcast use vstd::string::group_string_axioms;

    let mut chars: Vec<char> = Vec::new();
    for c in it: s.chars()
        invariant
            it.seq() == s@,
            chars@ == s@.take(it.index()),
    {
        chars.push(c);
    }
    chars
}

/// The end of the run that starts at `from`: the first position from there
/// on whose character is not white space (`white == true`) or is white space
/// (`white == false`), or the length where there is none.
fn run_end(chars: &Vec<char>, from: usize, white: bool) -> (end: usize)
    requires
        from <= chars@.len(),
    ensures
        from <= end <= chars@.len(),
        end - from == leading_run(chars@.skip(from as int), white),
{
    let mut end: usize = from;
    while end < chars.len() && is_white_space(chars[end]) == white
        invariant
            from <= end <= chars@.len(),
            forall|i: int| from <= i < end ==> spec_is_white_space(#[trigger] chars@[i]) == white,
        decreases chars@.len() - end,
    {
        end = end + 1;
    }
    proof {
        let rest = chars@.skip(from as int);
        assert forall|i: int| 0 <= i < end - from implies spec_is_white_space(#[trigger] rest[i])
            == white by {}
        lemma_leading_run(rest, white, end - from);
    }
    end
}

/// Counts the trailing characters of `chars` that are white space.
fn count_trailing_white_space(chars: &Vec<char>) -> (k: usize)
    ensures
        k == trailing_run(chars@, true),
        k <= chars@.len(),
{
    let mut start: usize = chars.len();
    while start > 0 && is_white_space(chars[start - 1])
        invariant
            start <= chars@.len(),
            forall|i: int| start <= i < chars@.len() ==> spec_is_white_space(#[trigger] chars@[i]),
        decreases start,
    {
        start = start - 1;
    }
    proof {
        lemma_trailing_run(chars@, true, chars@.len() - start);
    }
    chars.len() - start
}

/// `s` without its leading and trailing white space.
pub fn trim(s: &str) -> (t: String)
    ensures
        t@ == trimmed(s@),
{
    let chars = to_chars(s);
    let start = run_end(&chars, 0, true);
    assert(chars@.skip(0) =~= chars@);
    if start == chars.len() {
        String::new()
    } else {
        let trail = count_trailing_white_space(&chars);
        proof {
            lemma_trim_bounds(s@);
        }
        s.substring_char(start, chars.len() - trail).to_owned()
    }
}

/// The first white-space-separated token of `s`, if it holds one.
pub fn first_token(s: &str) -> (token: Option<String>)
    ensures
        match token {
            Some(t) => t@ == spec_first_token(s@) && t@.len() > 0,
            None => spec_first_token(s@).len() == 0,
        },
{
    let chars = to_chars(s);
    let start = run_end(&chars, 0, true);
    assert(chars@.skip(0) =~= chars@);
    let end = run_end(&chars, start, false);
    proof {
        lemma_first_token(s@);
    }
    if end == start {
        None
    } else {
        Some(s.substring_char(start, end).to_owned())
    }
}

/// Joins `parts` with `sep` between each two neighbours.
pub fn join(parts: &Vec<String>, sep: &str) -> (out: String)
    ensures
        out@ == joined(string_views(parts@), sep@),
{
    let mut out = String::new();
    let ghost views = string_views(parts@);
    for i in 0..parts.len()
        invariant
            views == string_views(parts@),
            out@ == joined(views.take(i as int), sep@),
    {
        if i > 0 {
            out.append(sep);
        }
        out.append(parts[i].as_str());
        proof {
            assert(views.take(i + 1) =~= views.take(i as int).push(views[i as int]));
            lemma_joined_push(views.take(i as int), sep@, views[i as int]);
        }
    }
    assert(views.take(parts@.len() as int) =~= views);
    out
}

} // verus!
