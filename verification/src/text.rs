//! Text handling shared by the device enumerator and the cleanup pass.
//!
//! The audio client prints one record per line, with fields separated by
//! tabs.  This module models splitting as a function on sequences of
//! characters and provides verified executable splitters and a verified
//! substring search over them.

use vstd::prelude::*;

verus! {

use vstd::string::StrSliceExecFns;

/// The views of a sequence of owned strings.
pub open spec fn views_of(strings: Seq<String>) -> Seq<Seq<char>> {
    strings.map_values(|s: String| s@)
}

/// `s` split on the separator `sep`.  Splitting never yields an empty
/// sequence of fields; a separator at the end yields a trailing empty field,
/// matching how the listings are read.
pub open spec fn split_on(s: Seq<char>, sep: char) -> Seq<Seq<char>>
    decreases s.len(),
{
    if s.len() == 0 {
        seq![Seq::<char>::empty()]
    } else if s[0] == sep {
        seq![Seq::<char>::empty()] + split_on(s.drop_first(), sep)
    } else {
        let rest = split_on(s.drop_first(), sep);
        seq![seq![s[0]] + rest[0]] + rest.drop_first()
    }
}

pub broadcast proof fn lemma_split_on_nonempty(s: Seq<char>, sep: char)
    ensures
        #[trigger] split_on(s, sep).len() >= 1,
    decreases s.len(),
{
    if s.len() != 0 {
        lemma_split_on_nonempty(s.drop_first(), sep);
    }
}

/// A string without the separator is a single field.
pub proof fn lemma_split_on_no_sep(s: Seq<char>, sep: char)
    requires
        forall|i: int| 0 <= i < s.len() ==> s[i] != sep,
    ensures
        split_on(s, sep) == seq![s],
    decreases s.len(),
{
    if s.len() == 0 {
        assert(s =~= Seq::<char>::empty());
        assert(split_on(s, sep) =~~= seq![s]);
    } else {
        lemma_split_on_no_sep(s.drop_first(), sep);
        broadcast use lemma_split_on_nonempty;

        let rest = split_on(s.drop_first(), sep);
        assert(rest[0] == s.drop_first());
        assert(seq![s[0]] + s.drop_first() =~= s);
        assert(rest.drop_first() =~~= Seq::<Seq<char>>::empty());
        assert(split_on(s, sep) =~~= seq![s]);
    }
}

/// Splitting at the first separator: the part before it is the first field
/// and the rest splits on its own.
pub proof fn lemma_split_on_first_sep(s: Seq<char>, sep: char, k: int)
    requires
        0 <= k < s.len(),
        s[k] == sep,
        forall|i: int| 0 <= i < k ==> s[i] != sep,
    ensures
        split_on(s, sep) == seq![s.subrange(0, k)] + split_on(
            s.subrange(k + 1, s.len() as int),
            sep,
        ),
    decreases k,
{
    if k == 0 {
        assert(s.subrange(0, 0) =~= Seq::<char>::empty());
        assert(s.subrange(1, s.len() as int) =~= s.drop_first());
        assert(split_on(s, sep) =~~= seq![s.subrange(0, 0)] + split_on(
            s.subrange(1, s.len() as int),
            sep,
        ));
    } else {
        let tail = s.drop_first();
        assert(tail[k - 1] == sep);
        assert(forall|i: int| 0 <= i < k - 1 ==> tail[i] != sep);
        lemma_split_on_first_sep(tail, sep, k - 1);
        let rest = split_on(tail, sep);
        assert(rest == seq![tail.subrange(0, k - 1)] + split_on(
            tail.subrange(k, tail.len() as int),
            sep,
        ));
        assert(rest[0] == tail.subrange(0, k - 1));
        assert(seq![s[0]] + tail.subrange(0, k - 1) =~= s.subrange(0, k));
        assert(tail.subrange(k, tail.len() as int) =~= s.subrange(k + 1, s.len() as int));
        assert(rest.drop_first() =~~= split_on(s.subrange(k + 1, s.len() as int), sep));
        assert(split_on(s, sep) =~~= seq![s.subrange(0, k)] + split_on(
            s.subrange(k + 1, s.len() as int),
            sep,
        ));
    }
}

/// Splits `s` on the character `sep`, returning the fields in order.
pub fn split_on_char(s: &str, sep: char) -> (fields: Vec<String>)
    ensures
        views_of(fields@) == split_on(s@, sep),
{
    let n = s.unicode_len();
    let mut fields: Vec<String> = Vec::new();
    proof {
        assert(s@.subrange(0, n as int) =~= s@);
        assert(views_of(fields@) + split_on(s@, sep) =~~= split_on(s@, sep));
    }
    let mut start: usize = 0;
    let mut i: usize = 0;
    while i < n
        invariant
            n == s@.len(),
            start <= i <= n,
            forall|j: int| start <= j < i ==> s@[j] != sep,
            split_on(s@, sep) == views_of(fields@) + split_on(
                s@.subrange(start as int, n as int),
                sep,
            ),
        decreases n - i,
    {
        if s.get_char(i) == sep {
            let field = s.substring_char(start, i).to_owned();
            let ghost before = fields@;
            fields.push(field);
            proof {
                let whole = s@.subrange(start as int, n as int);
                lemma_split_on_first_sep(whole, sep, i - start);
                assert(whole.subrange(0, i - start) =~= s@.subrange(start as int, i as int));
                assert(whole.subrange(i - start + 1, whole.len() as int) =~= s@.subrange(
                    i as int + 1,
                    n as int,
                ));
                assert(views_of(fields@) =~~= views_of(before).push(s@.subrange(
                    start as int,
                    i as int,
                )));
                assert(views_of(fields@) + split_on(s@.subrange(i as int + 1, n as int), sep)
                    =~~= views_of(before) + split_on(whole, sep));
            }
            start = i + 1;
        }
        i += 1;
    }
    let last = s.substring_char(start, n).to_owned();
    let ghost before = fields@;
    fields.push(last);
    proof {
        let whole = s@.subrange(start as int, n as int);
        lemma_split_on_no_sep(whole, sep);
        assert(views_of(fields@) =~~= views_of(before).push(whole));
        assert(views_of(before) + seq![whole] =~~= views_of(before).push(whole));
    }
    fields
}

/// A line with its one trailing carriage return removed: what the line
/// reader does to a line that a newline ended.
pub open spec fn strip_cr(line: Seq<char>) -> Seq<char> {
    if line.len() > 0 && line.last() == '\r' {
        line.drop_last()
    } else {
        line
    }
}

/// Every line stripped of its trailing carriage return.
pub open spec fn strip_all(lines: Seq<Seq<char>>) -> Seq<Seq<char>> {
    lines.map_values(|l: Seq<char>| strip_cr(l))
}

/// The lines of `text`: split on newlines, each line that a newline ended
/// stripped of one trailing carriage return before it.  The final line
/// ending is optional; a final line without one keeps its characters as
/// they stand.
pub open spec fn split_lines(text: Seq<char>) -> Seq<Seq<char>> {
    if text.len() == 0 {
        Seq::empty()
    } else {
        let raw = split_on(text, '\n');
        if text.last() == '\n' {
            strip_all(raw.drop_last())
        } else {
            strip_all(raw.drop_last()).push(raw.last())
        }
    }
}

/// Splits `text` into its lines.
pub fn lines_of(text: &str) -> (lines: Vec<String>)
    ensures
        views_of(lines@) == split_lines(text@),
{
    let n = text.unicode_len();
    if n == 0 {
        let lines: Vec<String> = Vec::new();
        proof {
            assert(views_of(lines@) =~~= split_lines(text@));
        }
        return lines;
    }
    let mut raw = split_on_char(text, '\n');
    let ghost raw_views = views_of(raw@);
    proof {
        broadcast use lemma_split_on_nonempty;

        assert(raw_views.len() == split_on(text@, '\n').len());
    }
    let last_raw = match raw.pop() {
        Some(field) => field,
        None => String::new(),
    };
    let ghost kept_views = views_of(raw@);
    proof {
        assert(kept_views =~~= raw_views.drop_last());
        assert(last_raw@ == raw_views.last());
    }
    let mut lines: Vec<String> = Vec::new();
    let mut i: usize = 0;
    while i < raw.len()
        invariant
            kept_views == views_of(raw@),
            i <= raw@.len(),
            views_of(lines@) == strip_all(kept_views.take(i as int)),
        decreases raw@.len() - i,
    {
        let ghost lines_before = lines@;
        let line = &raw[i];
        let len = line.as_str().unicode_len();
        if len > 0 && line.as_str().get_char(len - 1) == '\r' {
            lines.push(line.as_str().substring_char(0, len - 1).to_owned());
            proof {
                assert(line@.subrange(0, len - 1) =~= strip_cr(kept_views[i as int]));
            }
        } else {
            lines.push(line.clone());
            proof {
                assert(line@ =~= strip_cr(kept_views[i as int]));
            }
        }
        proof {
            assert(views_of(lines@) =~~= views_of(lines_before).push(strip_cr(
                kept_views[i as int],
            )));
            assert(views_of(lines@) =~~= strip_all(kept_views.take(i as int + 1)));
        }
        i += 1;
    }
    proof {
        assert(kept_views.take(kept_views.len() as int) =~~= kept_views);
        assert(views_of(lines@) =~~= strip_all(raw_views.drop_last()));
    }
    if text.get_char(n - 1) != '\n' {
        let ghost lines_before = lines@;
        lines.push(last_raw);
        proof {
            assert(views_of(lines@) =~~= views_of(lines_before).push(raw_views.last()));
        }
    }
    proof {
        assert(views_of(lines@) =~~= split_lines(text@));
    }
    lines
}

/// `pat` occurs in `s` starting at position `k`.
pub open spec fn matches_at(s: Seq<char>, pat: Seq<char>, k: int) -> bool {
    0 <= k && k + pat.len() <= s.len() && s.subrange(k, k + pat.len()) == pat
}

/// `pat` occurs somewhere in `s`.
pub open spec fn has_substring(s: Seq<char>, pat: Seq<char>) -> bool {
    exists|k: int| matches_at(s, pat, k)
}

fn match_at(s: &str, pat: &str, k: usize) -> (r: bool)
    requires
        k + pat@.len() <= s@.len(),
        s@.len() <= usize::MAX,
    ensures
        r == matches_at(s@, pat@, k as int),
{
    let m = pat.unicode_len();
    let mut t: usize = 0;
    while t < m
        invariant
            m == pat@.len(),
            k + m <= s@.len(),
            s@.len() <= usize::MAX,
            t <= m,
            forall|u: int| 0 <= u < t ==> s@[k + u] == pat@[u],
        decreases m - t,
    {
        if s.get_char(k + t) != pat.get_char(t) {
            proof {
                assert(s@.subrange(k as int, k + m) != pat@) by {
                    assert(s@.subrange(k as int, k + m)[t as int] == s@[k + t]);
                }
            }
            return false;
        }
        t += 1;
    }
    proof {
        assert(s@.subrange(k as int, k + m) =~= pat@);
    }
    true
}

/// Whether `pat` occurs in `s`: the containment test of the cleanup pass.
pub fn contains_str(s: &str, pat: &str) -> (r: bool)
    ensures
        r == has_substring(s@, pat@),
{
    let n = s.unicode_len();
    let m = pat.unicode_len();
    if m > n {
        proof {
            assert(forall|k: int| !matches_at(s@, pat@, k));
        }
        return false;
    }
    if m == 0 {
        proof {
            assert(s@.subrange(0, 0) =~= pat@);
            assert(matches_at(s@, pat@, 0));
        }
        return true;
    }
    let mut k: usize = 0;
    while k <= n - m
        invariant
            n == s@.len(),
            m == pat@.len(),
            1 <= m <= n,
            k <= n - m + 1,
            forall|j: int| 0 <= j < k ==> !matches_at(s@, pat@, j),
        decreases n - m + 1 - k,
    {
        if match_at(s, pat, k) {
            proof {
                assert(matches_at(s@, pat@, k as int));
            }
            return true;
        }
        k += 1;
    }
    proof {
        assert(forall|j: int| matches_at(s@, pat@, j) ==> 0 <= j <= n - m);
        assert(!has_substring(s@, pat@));
    }
    false
}

} // verus!
