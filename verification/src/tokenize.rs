//! Line tokenization: splitting a line on a separator character and locating
//! a cursor within the resulting token list.
//!
//! The tokenizer has no quoting or escaping support: a literal separator
//! always splits tokens. The cursor's token index is the number of separator
//! characters strictly before the cursor, and its character index is the
//! length of the trailing separator-free run of the text before the cursor.

use vstd::prelude::*;
use vstd::string::StrSliceExecFns;

verus! {

/// Number of occurrences of `c` in `s`.
pub open spec fn count_char(s: Seq<char>, c: char) -> nat
    decreases s.len(),
{
    if s.len() == 0 {
        0
    } else {
        (if s[0] == c {
            1nat
        } else {
            0nat
        }) + count_char(s.drop_first(), c)
    }
}

/// Length of the longest suffix of `s` that contains no `c`.
pub open spec fn trailing_run(s: Seq<char>, c: char) -> nat
    decreases s.len(),
{
    if s.len() == 0 {
        0
    } else if s.last() == c {
        0
    } else {
        trailing_run(s.drop_last(), c) + 1
    }
}

/// The tokens of `s`, split on every occurrence of `c`. Splitting the empty
/// string gives one empty token; a separator at either end or two adjacent
/// separators likewise give empty tokens, so the result always has exactly
/// one token more than `s` has separators.
pub open spec fn split_char(s: Seq<char>, c: char) -> Seq<Seq<char>>
    decreases s.len(),
{
    if s.len() == 0 {
        seq![Seq::<char>::empty()]
    } else if s[0] == c {
        seq![Seq::<char>::empty()] + split_char(s.drop_first(), c)
    } else {
        let rest = split_char(s.drop_first(), c);
        seq![seq![s[0]] + rest[0]] + rest.skip(1)
    }
}

pub proof fn lemma_split_char_len(s: Seq<char>, c: char)
    ensures
        split_char(s, c).len() == count_char(s, c) + 1,
    decreases s.len(),
{
    if s.len() > 0 {
        lemma_split_char_len(s.drop_first(), c);
    }
}

/// `count_char` is zero exactly when no character of `s` is `c`.
pub proof fn lemma_count_char_zero(s: Seq<char>, c: char)
    ensures
        count_char(s, c) == 0 <==> (forall|i: int| 0 <= i < s.len() ==> s[i] != c),
    decreases s.len(),
{
    if s.len() > 0 {
        lemma_count_char_zero(s.drop_first(), c);
        if count_char(s, c) == 0 {
            assert forall|i: int| 0 <= i < s.len() implies s[i] != c by {
                if i > 0 {
                    assert(s.drop_first()[i - 1] != c);
                }
            }
        } else {
            if s[0] != c {
                let j = choose|j: int| 0 <= j < s.drop_first().len() && s.drop_first()[j] == c;
                assert(s[j + 1] == c);
            }
        }
    }
}

/// The trailing run never exceeds the string, and is the whole string exactly
/// when `s` contains no `c`.
pub proof fn lemma_trailing_run_bounds(s: Seq<char>, c: char)
    ensures
        trailing_run(s, c) <= s.len(),
        trailing_run(s, c) == s.len() <==> count_char(s, c) == 0,
    decreases s.len(),
{
    lemma_count_char_zero(s, c);
    if s.len() > 0 {
        lemma_trailing_run_bounds(s.drop_last(), c);
        lemma_count_char_zero(s.drop_last(), c);
        if s.last() == c {
            assert(s[s.len() - 1] == c);
        } else {
            if trailing_run(s, c) == s.len() {
                assert forall|i: int| 0 <= i < s.len() implies s[i] != c by {
                    if i < s.len() - 1 {
                        assert(s.drop_last()[i] != c);
                    }
                }
            } else {
                assert(trailing_run(s.drop_last(), c) < s.drop_last().len());
                let j = choose|j: int|
                    0 <= j < s.drop_last().len() && s.drop_last()[j] == c;
                assert(s[j] == c);
            }
        }
    }
}

/// Dropping the first character does not change the trailing run, as long as
/// the run does not span the whole string.
pub proof fn lemma_trailing_run_drop_first(s: Seq<char>, c: char)
    requires
        s.len() >= 1,
        trailing_run(s, c) < s.len(),
    ensures
        trailing_run(s.drop_first(), c) == trailing_run(s, c),
    decreases s.len(),
{
    if s.last() == c {
        if s.len() >= 2 {
            assert(s.drop_first().last() == c);
        }
    } else {
        lemma_trailing_run_bounds(s.drop_last(), c);
        if s.len() == 1 {
            // trailing_run(s, c) >= 1 contradicts trailing_run(s, c) < 1
            assert(false);
        } else {
            assert(s.drop_last().len() >= 1);
            if trailing_run(s.drop_last(), c) < s.drop_last().len() {
                lemma_trailing_run_drop_first(s.drop_last(), c);
                assert(s.drop_last().drop_first() =~= s.drop_first().drop_last());
                assert(s.drop_first().last() == s.last());
            } else {
                // the whole of s.drop_last() is separator-free, so
                // trailing_run(s, c) == s.len(), contradicting the bound
                assert(trailing_run(s, c) == s.len());
            }
        }
    }
}

/// A string whose characters are all distinct from `c` is its own trailing run.
pub proof fn lemma_trailing_run_full(s: Seq<char>, c: char)
    requires
        forall|i: int| 0 <= i < s.len() ==> s[i] != c,
    ensures
        trailing_run(s, c) == s.len(),
{
    lemma_count_char_zero(s, c);
    lemma_trailing_run_bounds(s, c);
}

/// Cursor placement is consistent with tokenization: for a cursor inside the
/// line, the count of separators before it indexes a token of the split, the
/// trailing separator-free run before it fits inside that token, and the text
/// of that run is exactly the token's prefix of that length.
pub proof fn lemma_cursor_in_token(line: Seq<char>, cursor: int, c: char)
    requires
        0 <= cursor <= line.len(),
    ensures
        ({
            let pre = line.take(cursor);
            let k = count_char(pre, c) as int;
            let t = trailing_run(pre, c) as int;
            let toks = split_char(line, c);
            &&& 0 <= k < toks.len()
            &&& 0 <= t <= toks[k].len()
            &&& toks[k].take(t) == pre.skip(cursor - t)
        }),
    decreases line.len(),
{
    let pre = line.take(cursor);
    let k = count_char(pre, c) as int;
    let t = trailing_run(pre, c) as int;
    let toks = split_char(line, c);
    lemma_trailing_run_bounds(pre, c);
    lemma_count_char_zero(pre, c);
    lemma_split_char_len(line, c);
    if cursor == 0 {
        assert(pre =~= Seq::<char>::empty());
        assert(toks[0].take(0) =~= pre.skip(0));
    } else {
        let line1 = line.drop_first();
        let cursor1 = cursor - 1;
        let pre1 = line1.take(cursor1);
        assert(pre1 =~= pre.drop_first());
        lemma_cursor_in_token(line1, cursor1, c);
        let k1 = count_char(pre1, c) as int;
        let t1 = trailing_run(pre1, c) as int;
        let toks1 = split_char(line1, c);
        lemma_trailing_run_bounds(pre1, c);
        lemma_split_char_len(line1, c);
        if line[0] == c {
            assert(pre[0] == c);
            assert(k == 1 + k1);
            assert(toks == seq![Seq::<char>::empty()] + toks1);
            assert(toks[k] == toks1[k1]);
            // the trailing run is unchanged by dropping the separator in front
            assert(t < pre.len());
            lemma_trailing_run_drop_first(pre, c);
            assert(t == t1);
            assert(pre.skip(cursor - t) =~= pre1.skip(cursor1 - t1));
        } else {
            assert(pre[0] == line[0]);
            assert(pre[0] != c);
            assert(k == k1);
            let rest = toks1;
            assert(toks == seq![seq![line[0]] + rest[0]] + rest.skip(1));
            assert(toks.len() == rest.len());
            if k == 0 {
                // no separator before the cursor: the run is everything typed
                assert forall|i: int| 0 <= i < pre1.len() implies pre1[i] != c by {
                    assert(pre[i + 1] != c);
                }
                lemma_trailing_run_full(pre, c);
                lemma_trailing_run_full(pre1, c);
                assert(t == cursor);
                assert(t1 == cursor1);
                assert(toks[0] == seq![line[0]] + rest[0]);
                assert(toks1[0].take(t1) == pre1.skip(0));
                assert(toks[0].take(t) =~= seq![line[0]] + rest[0].take(t1));
                assert(toks[0].take(t) =~= pre.skip(0));
            } else {
                // a separator exists before the cursor, so the trailing run
                // is strictly inside `pre` and survives dropping its head
                assert(t < pre.len());
                lemma_trailing_run_drop_first(pre, c);
                assert(t == t1);
                assert(toks[k] == rest.skip(1)[k - 1]);
                assert(rest.skip(1)[k - 1] == rest[k]);
                assert(pre.skip(cursor - t) =~= pre1.skip(cursor1 - t1));
            }
        }
    }
}

/// Split a line into its tokens, one per separator-free stretch.
pub fn split_line(s: &str, c: char) -> (r: Vec<String>)
    ensures
        r.deep_view() == split_char(s@, c),
{
    let n = s.unicode_len();
    let mut r: Vec<String> = Vec::new();
    let mut start: usize = 0;
    let mut i: usize = 0;
    proof {
        lemma_split_char_len(s@, c);
        assert(s@.skip(0) =~= s@);
        assert(split_char(s@, c) =~= Seq::<Seq<char>>::empty() + seq![
            s@.subrange(0, 0) + split_char(s@, c)[0],
        ] + split_char(s@, c).skip(1));
    }
    while i < n
        invariant
            start <= i <= n,
            n == s@.len(),
            split_char(s@, c) == r.deep_view() + seq![
                s@.subrange(start as int, i as int) + split_char(s@.skip(i as int), c)[0],
            ] + split_char(s@.skip(i as int), c).skip(1),
            split_char(s@.skip(i as int), c).len() >= 1,
        decreases n - i,
    {
        proof {
            lemma_split_char_len(s@.skip(i as int), c);
            lemma_split_char_len(s@.skip(i as int + 1), c);
            assert(s@.skip(i as int).drop_first() =~= s@.skip(i as int + 1));
        }
        let ghost rest = split_char(s@.skip(i as int), c);
        let ghost rest1 = split_char(s@.skip(i as int + 1), c);
        if s.get_char(i) == c {
            let tok = s.substring_char(start, i).to_owned();
            proof {
                assert(s@.skip(i as int)[0] == s@[i as int]);
                assert(rest == seq![Seq::<char>::empty()] + rest1);
                assert(tok@ == s@.subrange(start as int, i as int));
                assert(r.deep_view().push(tok@) + seq![
                    s@.subrange(i as int + 1, i as int + 1) + rest1[0],
                ] + rest1.skip(1) =~= r.deep_view() + seq![tok@ + rest[0]] + rest.skip(1));
            }
            r.push(tok);
            start = i + 1;
        } else {
            proof {
                assert(s@.skip(i as int)[0] == s@[i as int]);
                assert(rest == seq![seq![s@[i as int]] + rest1[0]] + rest1.skip(1));
                assert(rest.skip(1) =~= rest1.skip(1));
                assert(s@.subrange(start as int, i as int + 1) + rest1[0] =~= s@.subrange(
                    start as int,
                    i as int,
                ) + rest[0]);
            }
        }
        i += 1;
    }
    let tok = s.substring_char(start, n).to_owned();
    proof {
        assert(s@.skip(n as int) =~= Seq::<char>::empty());
        assert(split_char(s@.skip(n as int), c) == seq![Seq::<char>::empty()]);
        assert(r.deep_view().push(tok@) =~= r.deep_view() + seq![
            s@.subrange(start as int, n as int) + split_char(s@.skip(n as int), c)[0],
        ] + split_char(s@.skip(n as int), c).skip(1));
    }
    r.push(tok);
    r
}

/// Count the occurrences of `c` among the first `upto` characters of `s`.
pub fn count_char_upto(s: &str, c: char, upto: usize) -> (r: usize)
    requires
        upto <= s@.len(),
    ensures
        r == count_char(s@.take(upto as int), c),
{
    let ghost pre = s@.take(upto as int);
    let mut cnt: usize = 0;
    let mut i: usize = 0;
    proof {
        assert(pre.skip(0) =~= pre);
    }
    while i < upto
        invariant
            i <= upto <= s@.len(),
            cnt <= i,
            pre == s@.take(upto as int),
            cnt + count_char(pre.skip(i as int), c) == count_char(pre, c),
        decreases upto - i,
    {
        proof {
            assert(pre.skip(i as int).drop_first() =~= pre.skip(i as int + 1));
            assert(pre.skip(i as int)[0] == s@[i as int]);
        }
        if s.get_char(i) == c {
            cnt += 1;
        }
        i += 1;
    }
    proof {
        assert(pre.skip(upto as int) =~= Seq::<char>::empty());
    }
    cnt
}

/// Length of the trailing `c`-free run of the first `upto` characters of `s`.
pub fn trailing_run_upto(s: &str, c: char, upto: usize) -> (r: usize)
    requires
        upto <= s@.len(),
    ensures
        r == trailing_run(s@.take(upto as int), c),
{
    let ghost pre = s@.take(upto as int);
    let mut j: usize = upto;
    proof {
        assert(pre.take(upto as int) =~= pre);
    }
    loop
        invariant
            j <= upto <= s@.len(),
            pre == s@.take(upto as int),
            trailing_run(pre, c) == trailing_run(pre.take(j as int), c) + (upto - j),
        ensures
            j <= upto,
            trailing_run(pre, c) == trailing_run(pre.take(j as int), c) + (upto - j),
            trailing_run(pre.take(j as int), c) == 0,
        decreases j,
    {
        if j == 0 {
            proof {
                assert(pre.take(0) =~= Seq::<char>::empty());
            }
            break;
        }
        let ch = s.get_char(j - 1);
        proof {
            assert(pre.take(j as int).last() == s@[j - 1]);
            assert(pre.take(j as int).drop_last() =~= pre.take(j as int - 1));
        }
        if ch == c {
            break;
        }
        j -= 1;
    }
    upto - j
}

} // verus!
