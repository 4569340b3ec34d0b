//! Facts about patterns in texts that are put together from parts, about
//! the lines of such texts and about trimming them.

use crate::text::{
    first_occurrence, free_of, has_no, is_first_occurrence, is_whitespace,
    lemma_first_occurrence, lemma_first_occurrence_is, line_feed, lines, occurs_at, single_line,
    split, strip_cr, trim, trim_end, trim_start,
};
use vstd::prelude::*;

verus! {

/// Whether `s` is empty or ends with a line feed.
pub open spec fn closed(s: Seq<char>) -> bool {
    s.len() == 0 || s.last() == '\n'
}

/// Whether `s` holds white space only.
pub open spec fn all_whitespace(s: Seq<char>) -> bool {
    forall|i: int| 0 <= i < s.len() ==> is_whitespace(#[trigger] s[i])
}

/// The given lines, each followed by a line feed.
pub open spec fn join_lines(ls: Seq<Seq<char>>) -> Seq<char>
    decreases ls.len(),
{
    if ls.len() == 0 {
        Seq::empty()
    } else {
        ls[0] + line_feed() + join_lines(ls.skip(1))
    }
}

/// Where a pattern stands, the text holds its characters one by one.
pub proof fn lemma_occurrence_chars(s: Seq<char>, pat: Seq<char>, i: int)
    requires
        occurs_at(s, pat, i),
    ensures
        forall|k: int| 0 <= k < pat.len() ==> s[i + k] == #[trigger] pat[k],
{
    assert forall|k: int| 0 <= k < pat.len() implies s[i + k] == #[trigger] pat[k] by {
        assert(s.subrange(i, i + pat.len())[k] == s[i + k]);
    }
}

/// A text that lacks a character of the pattern is free of the pattern.
pub proof fn lemma_free_without_char(s: Seq<char>, pat: Seq<char>, k: int)
    requires
        0 <= k < pat.len(),
        has_no(s, pat[k]),
    ensures
        free_of(s, pat),
{
    assert forall|i: int| !occurs_at(s, pat, i) by {
        if occurs_at(s, pat, i) {
            lemma_occurrence_chars(s, pat, i);
            assert(s[i + k] == pat[k]);
        }
    }
}

/// A pattern that stands in a part stands in the whole.
pub proof fn lemma_occurrence_in_part(s: Seq<char>, from: int, to: int, pat: Seq<char>, i: int)
    requires
        0 <= from <= to <= s.len(),
        occurs_at(s.subrange(from, to), pat, i),
    ensures
        occurs_at(s, pat, from + i),
{
    assert(s.subrange(from + i, from + i + pat.len()) =~= s.subrange(from, to).subrange(
        i,
        i + pat.len(),
    ));
}

/// After a closed text that is free of a pattern without line feed, the
/// pattern stands only where it stands in what follows.
pub proof fn lemma_occurrence_after_closed(a: Seq<char>, b: Seq<char>, pat: Seq<char>, i: int)
    requires
        closed(a),
        free_of(a, pat),
        has_no(pat, '\n'),
        pat.len() > 0,
        occurs_at(a + b, pat, i),
    ensures
        i >= a.len(),
        occurs_at(b, pat, i - a.len()),
{
    let s = a + b;
    lemma_occurrence_chars(s, pat, i);
    if i + pat.len() <= a.len() {
        assert(a.subrange(i, i + pat.len()) =~= s.subrange(i, i + pat.len()));
        assert(occurs_at(a, pat, i));
    } else if i < a.len() {
        let k = a.len() - 1 - i;
        assert(s[i + k] == pat[k]);
        assert(s[i + k] == a.last());
    } else {
        assert(b.subrange(i - a.len(), i - a.len() + pat.len()) =~= s.subrange(i, i + pat.len()));
    }
}

/// Two texts free of a pattern without line feed make a text free of it,
/// where the first is closed.
pub proof fn lemma_free_concat(a: Seq<char>, b: Seq<char>, pat: Seq<char>)
    requires
        closed(a),
        free_of(a, pat),
        free_of(b, pat),
        has_no(pat, '\n'),
        pat.len() > 0,
    ensures
        free_of(a + b, pat),
{
    assert forall|i: int| !occurs_at(a + b, pat, i) by {
        if occurs_at(a + b, pat, i) {
            lemma_occurrence_after_closed(a, b, pat, i);
        }
    }
}

/// A text free of a pattern without line feed stays so when line feeds
/// follow it.
pub proof fn lemma_free_before_feeds(a: Seq<char>, feeds: Seq<char>, pat: Seq<char>)
    requires
        free_of(a, pat),
        has_no(pat, '\n'),
        forall|i: int| 0 <= i < feeds.len() ==> feeds[i] == '\n',
    ensures
        free_of(a + feeds, pat),
{
    let s = a + feeds;
    assert forall|i: int| !occurs_at(s, pat, i) by {
        if occurs_at(s, pat, i) {
            lemma_occurrence_chars(s, pat, i);
            if i + pat.len() <= a.len() {
                assert(a.subrange(i, i + pat.len()) =~= s.subrange(i, i + pat.len()));
                assert(occurs_at(a, pat, i));
            } else if pat.len() > 0 {
                let k = pat.len() - 1;
                assert(s[i + k] == pat[k]);
                assert(s[i + k] == feeds[i + k - a.len()]);
            } else {
                assert(a.subrange(a.len() as int, a.len() as int) =~= pat);
                assert(occurs_at(a, pat, a.len() as int));
            }
        }
    }
}

/// A value free of a pattern stays so behind a key that lacks the first
/// character of the pattern.
pub proof fn lemma_free_behind_key(key: Seq<char>, value: Seq<char>, pat: Seq<char>)
    requires
        pat.len() > 0,
        has_no(key, pat[0]),
        free_of(value, pat),
    ensures
        free_of(key + value, pat),
{
    let s = key + value;
    assert forall|i: int| !occurs_at(s, pat, i) by {
        if occurs_at(s, pat, i) {
            lemma_occurrence_chars(s, pat, i);
            if i < key.len() {
                assert(s[i + 0] == pat[0]);
            } else {
                assert(value.subrange(i - key.len(), i - key.len() + pat.len()) =~= s.subrange(
                    i,
                    i + pat.len(),
                ));
                assert(occurs_at(value, pat, i - key.len()));
            }
        }
    }
}

/// Lines free of a pattern without line feed join to a closed text free
/// of it.
pub proof fn lemma_join_free(ls: Seq<Seq<char>>, pat: Seq<char>)
    requires
        forall|k: int| 0 <= k < ls.len() ==> free_of(#[trigger] ls[k], pat),
        has_no(pat, '\n'),
        pat.len() > 0,
    ensures
        free_of(join_lines(ls), pat),
        closed(join_lines(ls)),
    decreases ls.len(),
{
    if ls.len() > 0 {
        let rest = ls.skip(1);
        assert forall|k: int| 0 <= k < rest.len() implies free_of(#[trigger] rest[k], pat) by {
            assert(rest[k] == ls[k + 1]);
        }
        lemma_join_free(rest, pat);
        lemma_free_before_feeds(ls[0], line_feed(), pat);
        let head = ls[0] + line_feed();
        assert(head.last() == '\n');
        lemma_free_concat(head, join_lines(rest), pat);
        let all = join_lines(ls);
        assert(all =~= head + join_lines(rest));
        if join_lines(rest).len() == 0 {
            assert(all =~= head);
        } else {
            assert(all.last() == join_lines(rest).last());
        }
    }
}

/// A further line joins behind the lines before it.
pub proof fn lemma_join_push(ls: Seq<Seq<char>>, l: Seq<char>)
    ensures
        join_lines(ls.push(l)) == join_lines(ls) + (l + line_feed()),
    decreases ls.len(),
{
    let all = ls.push(l);
    if ls.len() == 0 {
        assert(all.skip(1) =~= Seq::<Seq<char>>::empty());
        assert(join_lines(all.skip(1)) =~= Seq::<char>::empty());
        assert(join_lines(all) =~= join_lines(ls) + (l + line_feed()));
    } else {
        assert(all.skip(1) =~= ls.skip(1).push(l));
        lemma_join_push(ls.skip(1), l);
        assert(join_lines(all) =~= join_lines(ls) + (l + line_feed()));
    }
}

/// Behind a closed text free of a pattern without line feed, the pattern
/// stands first where the text ends.
pub proof fn lemma_first_behind_closed(a: Seq<char>, c: Seq<char>, pat: Seq<char>)
    requires
        closed(a),
        free_of(a, pat),
        has_no(pat, '\n'),
        pat.len() > 0,
    ensures
        is_first_occurrence(a + (pat + c), pat, a.len() as int),
        first_occurrence(a + (pat + c), pat) == Some(a.len() as int),
{
    let s = a + (pat + c);
    assert(s.subrange(a.len() as int, (a.len() + pat.len()) as int) =~= pat);
    assert forall|j: int| 0 <= j < a.len() implies !occurs_at(s, pat, j) by {
        if occurs_at(s, pat, j) {
            lemma_occurrence_after_closed(a, pat + c, pat, j);
        }
    }
    lemma_first_occurrence_is(s, pat, a.len() as int);
}

/// A text free of a pattern is one piece.
pub proof fn lemma_split_free(s: Seq<char>, pat: Seq<char>)
    requires
        free_of(s, pat),
    ensures
        split(s, pat) == seq![s],
        first_occurrence(s, pat) is None,
{
}

/// Where a pattern stands first at `i`, the first piece ends there and the
/// further pieces are those of what follows the pattern.
pub proof fn lemma_split_at_first(s: Seq<char>, pat: Seq<char>, i: int)
    requires
        is_first_occurrence(s, pat, i),
        pat.len() > 0,
    ensures
        split(s, pat) == seq![s.subrange(0, i)] + split(
            s.subrange(i + pat.len(), s.len() as int),
            pat,
        ),
{
    lemma_first_occurrence_is(s, pat, i);
}

/// What stands at the end of a closed text is closed.
pub proof fn lemma_closed_tail(s: Seq<char>, from: int)
    requires
        closed(s),
        0 <= from <= s.len(),
    ensures
        closed(s.subrange(from, s.len() as int)),
{
    let tail = s.subrange(from, s.len() as int);
    if tail.len() > 0 {
        assert(tail.last() == s.last());
    }
}

/// Behind a closed text, a pattern without line feed and a text free of
/// it add one piece: that text.
pub proof fn lemma_split_append(x: Seq<char>, y: Seq<char>, pat: Seq<char>)
    requires
        closed(x),
        free_of(y, pat),
        has_no(pat, '\n'),
        pat.len() > 0,
    ensures
        split(x + (pat + y), pat) == split(x, pat).push(y),
    decreases x.len(),
{
    let whole = x + (pat + y);
    lemma_first_occurrence(x, pat);
    match first_occurrence(x, pat) {
        None => {
            lemma_first_behind_closed(x, y, pat);
            lemma_split_at_first(whole, pat, x.len() as int);
            assert(whole.subrange(0, x.len() as int) =~= x);
            assert(whole.subrange((x.len() + pat.len()) as int, whole.len() as int) =~= y);
            lemma_split_free(y, pat);
            assert(seq![x] + seq![y] =~= seq![x].push(y));
        },
        Some(i) => {
            assert(whole.subrange(i, i + pat.len()) =~= x.subrange(i, i + pat.len()));
            assert forall|j: int| 0 <= j < i implies !occurs_at(whole, pat, j) by {
                if occurs_at(whole, pat, j) {
                    assert(x.subrange(j, j + pat.len()) =~= whole.subrange(j, j + pat.len()));
                    assert(occurs_at(x, pat, j));
                }
            }
            lemma_split_at_first(whole, pat, i);
            lemma_split_at_first(x, pat, i);
            let rest = x.subrange(i + pat.len(), x.len() as int);
            lemma_closed_tail(x, i + pat.len());
            lemma_split_append(rest, y, pat);
            assert(whole.subrange(i + pat.len(), whole.len() as int) =~= rest + (pat + y));
            assert(whole.subrange(0, i) =~= x.subrange(0, i));
            assert(seq![x.subrange(0, i)] + split(rest, pat).push(y) =~= (seq![x.subrange(0, i)]
                + split(rest, pat)).push(y));
        },
    }
}

/// The first piece of a text is a part of it at its start.
pub proof fn lemma_first_piece(s: Seq<char>, pat: Seq<char>)
    ensures
        split(s, pat).len() >= 1,
        exists|n: int| 0 <= n <= s.len() && split(s, pat)[0] == #[trigger] s.subrange(0, n),
{
    lemma_first_occurrence(s, pat);
    match first_occurrence(s, pat) {
        Some(i) => {
            if pat.len() > 0 && 0 <= i && i + pat.len() <= s.len() {
                assert(split(s, pat)[0] == s.subrange(0, i));
            } else {
                assert(s.subrange(0, s.len() as int) =~= s);
            }
        },
        None => {
            assert(s.subrange(0, s.len() as int) =~= s);
        },
    }
}

/// A line without line feed, followed by one, is the first line of a text.
pub proof fn lemma_lines_first(l: Seq<char>, rest: Seq<char>)
    requires
        has_no(l, '\n'),
    ensures
        lines(l + line_feed() + rest) == seq![strip_cr(l)] + lines(rest),
{
    let s = l + line_feed() + rest;
    let n = l.len() as int;
    assert(s.subrange(n, n + 1) =~= line_feed());
    assert forall|j: int| 0 <= j < n implies !occurs_at(s, line_feed(), j) by {
        if occurs_at(s, line_feed(), j) {
            lemma_occurrence_chars(s, line_feed(), j);
            assert(s[j + 0] == line_feed()[0]);
            assert(s[j] == l[j]);
        }
    }
    lemma_first_occurrence_is(s, line_feed(), n);
    assert(s.subrange(0, n) =~= l);
    assert(s.subrange(n + 1, s.len() as int) =~= rest);
}

/// A text without line feed that is not empty is one line.
pub proof fn lemma_lines_single(l: Seq<char>)
    requires
        has_no(l, '\n'),
        l.len() > 0,
    ensures
        lines(l) == seq![l],
{
    assert forall|j: int| !occurs_at(l, line_feed(), j) by {
        if occurs_at(l, line_feed(), j) {
            lemma_occurrence_chars(l, line_feed(), j);
            assert(l[j + 0] == line_feed()[0]);
        }
    }
}

/// Joined lines that can each be written as one line are read back as
/// they are, also where a last line without line feed follows them.
pub proof fn lemma_lines_of_joined(ls: Seq<Seq<char>>, last: Seq<char>)
    requires
        forall|k: int| 0 <= k < ls.len() ==> single_line(#[trigger] ls[k]),
        has_no(last, '\n'),
    ensures
        lines(join_lines(ls) + last) == if last.len() > 0 {
            ls.push(last)
        } else {
            ls
        },
    decreases ls.len(),
{
    if ls.len() == 0 {
        assert(join_lines(ls) + last =~= last);
        if last.len() > 0 {
            lemma_lines_single(last);
            assert(ls.push(last) =~= seq![last]);
        } else {
            assert(ls =~= Seq::<Seq<char>>::empty());
        }
    } else {
        let rest = ls.skip(1);
        assert forall|k: int| 0 <= k < rest.len() implies single_line(#[trigger] rest[k]) by {
            assert(rest[k] == ls[k + 1]);
        }
        lemma_lines_of_joined(rest, last);
        lemma_lines_first(ls[0], join_lines(rest) + last);
        assert(join_lines(ls) + last =~= ls[0] + line_feed() + (join_lines(rest) + last));
        assert(strip_cr(ls[0]) == ls[0]);
        if last.len() > 0 {
            assert(seq![ls[0]] + rest.push(last) =~= ls.push(last));
        } else {
            assert(seq![ls[0]] + rest =~= ls);
        }
    }
}

/// White space at the start of a text does not count when trimming it.
pub proof fn lemma_trim_start_skips(a: Seq<char>, x: Seq<char>)
    requires
        all_whitespace(a),
    ensures
        trim_start(a + x) == trim_start(x),
    decreases a.len(),
{
    if a.len() == 0 {
        assert(a + x =~= x);
    } else {
        assert((a + x)[0] == a[0]);
        assert((a + x).drop_first() =~= a.drop_first() + x);
        lemma_trim_start_skips(a.drop_first(), x);
    }
}

/// White space at the end of a text does not count when trimming it.
pub proof fn lemma_trim_end_skips(x: Seq<char>, b: Seq<char>)
    requires
        all_whitespace(b),
    ensures
        trim_end(x + b) == trim_end(x),
    decreases b.len(),
{
    if b.len() == 0 {
        assert(x + b =~= x);
    } else {
        assert((x + b).last() == b.last());
        assert((x + b).drop_last() =~= x + b.drop_last());
        lemma_trim_end_skips(x, b.drop_last());
    }
}

/// Trimming does not make a text longer.
pub proof fn lemma_trim_lengths(s: Seq<char>)
    ensures
        trim_start(s).len() <= s.len(),
        trim_end(s).len() <= s.len(),
        trim_start(s).len() == s.len() ==> trim_start(s) == s,
        trim_end(s).len() == s.len() ==> trim_end(s) == s,
    decreases s.len(),
{
    if s.len() > 0 {
        lemma_trim_lengths(s.drop_first());
        lemma_trim_lengths(s.drop_last());
    }
}

/// A text that trimming leaves as it is has no white space at either end.
pub proof fn lemma_trimmed_ends(c: Seq<char>)
    requires
        trim(c) == c,
        c.len() > 0,
    ensures
        !is_whitespace(c[0]),
        !is_whitespace(c.last()),
{
    lemma_trim_lengths(c);
    lemma_trim_lengths(trim_start(c));
    assert(trim_start(c) == c);
    assert(trim_end(c) == c);
    if is_whitespace(c[0]) {
        lemma_trim_lengths(c.drop_first());
    }
    if is_whitespace(c.last()) {
        lemma_trim_lengths(c.drop_last());
    }
}

/// A text that trimming leaves as it is comes back when white space is
/// put around it and trimmed off again.
pub proof fn lemma_trim_padded(a: Seq<char>, c: Seq<char>, b: Seq<char>)
    requires
        all_whitespace(a),
        all_whitespace(b),
        trim(c) == c,
    ensures
        trim(a + c + b) == c,
{
    assert(a + c + b =~= a + (c + b));
    lemma_trim_start_skips(a, c + b);
    if c.len() == 0 {
        assert(c + b =~= b);
        assert(b =~= b + Seq::<char>::empty());
        lemma_trim_start_skips(b, Seq::<char>::empty());
        assert(trim_start(Seq::<char>::empty()) =~= Seq::<char>::empty());
        assert(trim_end(Seq::<char>::empty()) =~= Seq::<char>::empty());
        assert(c =~= Seq::<char>::empty());
    } else {
        lemma_trimmed_ends(c);
        assert((c + b)[0] == c[0]);
        assert(trim_start(c + b) == c + b);
        lemma_trim_end_skips(c, b);
        lemma_trim_lengths(c);
        lemma_trim_lengths(trim_start(c));
    }
}

} // verus!
