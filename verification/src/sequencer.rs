use vstd::prelude::*;

use crate::text::{chars_of, parse_unsigned, parse_unsigned_chars, string_from_chars, trim, trim_chars};

verus! {

/// What an inline repetitions edit gives: the trimmed text read as a number, at least 1.
pub open spec fn repetitions_of(input: Seq<char>) -> Option<nat> {
    match parse_unsigned(trim(input), usize::MAX as nat) {
        Some(n) => Some(if n < 1 {
            1nat
        } else {
            n
        }),
        None => None,
    }
}

/// Reads the text of an inline repetitions edit (see [`repetitions_of`]).
pub fn parse_inline_repetitions(input: &str) -> (r: Option<usize>)
    ensures
        match repetitions_of(input@) {
            Some(n) => r == Some(n as usize),
            None => r is None,
        },
{
    let t = trim_chars(&chars_of(input));
    match parse_unsigned_chars(&t, usize::MAX) {
        Some(n) => Some(
            if n < 1 {
                1
            } else {
                n
            },
        ),
        None => None,
    }
}

/// How many line breaks `s` holds.
pub open spec fn newline_count(s: Seq<char>) -> nat
    decreases s.len(),
{
    if s.len() == 0 {
        0
    } else {
        newline_count(s.drop_last()) + if s.last() == '\n' {
            1nat
        } else {
            0nat
        }
    }
}

/// `(kept, hidden)` is `s` cut to its first `max_lines` lines, and the number of lines cut
/// off: with fewer line breaks than `max_lines` all of `s` is kept and nothing is hidden;
/// otherwise `s` is cut at its `max_lines`-th line break. With `max_lines` 0 nothing is cut
/// and every line counts as hidden.
pub open spec fn truncated(s: Seq<char>, max_lines: nat, kept: Seq<char>, hidden: nat) -> bool {
    let n = newline_count(s);
    if max_lines == 0 {
        kept == s && hidden == n + 1
    } else if n < max_lines {
        kept == s && hidden == 0
    } else {
        &&& kept.len() < s.len()
        &&& kept == s.take(kept.len() as int)
        &&& s[kept.len() as int] == '\n'
        &&& newline_count(kept) == max_lines - 1
        &&& hidden == n + 1 - max_lines
    }
}

proof fn lemma_newline_count_take(s: Seq<char>, i: int)
    requires
        0 <= i < s.len(),
    ensures
        newline_count(s.take(i + 1)) == newline_count(s.take(i)) + if s[i] == '\n' {
            1nat
        } else {
            0nat
        },
{
    assert(s.take(i + 1).drop_last() =~= s.take(i));
}

proof fn lemma_newline_count_le(s: Seq<char>, i: int)
    requires
        0 <= i <= s.len(),
    ensures
        newline_count(s.take(i)) <= newline_count(s),
    decreases s.len() - i,
{
    if i < s.len() {
        lemma_newline_count_take(s, i);
        lemma_newline_count_le(s, i + 1);
    } else {
        assert(s.take(i) =~= s);
    }
}

/// Cuts a code preview to its first `max_lines` lines (see [`truncated`]); gives the kept
/// text and how many lines were cut off.
pub fn truncate_to_lines(text: &str, max_lines: usize) -> (r: (String, usize))
    requires
        text@.len() < usize::MAX,
    ensures
        truncated(text@, max_lines as nat, r.0@, r.1 as nat),
{
    let s = chars_of(text);
    let mut count: usize = 0;
    let mut cut: usize = s.len();
    let mut i: usize = 0;
    while i < s.len()
        invariant_except_break
            cut == s@.len(),
            count == newline_count(s@.take(i as int)),
            count <= i,
            max_lines > 0 ==> count < max_lines,
        invariant
            i <= s@.len(),
            s@ == text@,
            s@.len() < usize::MAX,
        ensures
            (i == s@.len() && cut == s@.len() && count == newline_count(s@.take(i as int)) && (
            max_lines > 0 ==> count < max_lines)) || (max_lines > 0 && count == max_lines && cut
                < s@.len() && s@[cut as int] == '\n' && newline_count(s@.take(cut as int + 1))
                == max_lines && newline_count(s@.take(cut as int)) == max_lines - 1),
        decreases s@.len() - i,
    {
        proof {
            lemma_newline_count_take(s@, i as int);
        }
        if s[i] == '\n' {
            count += 1;
            if count == max_lines {
                cut = i;
                break;
            }
        }
        i += 1;
    }
    let mut total: usize = 0;
    let mut k: usize = 0;
    while k < s.len()
        invariant
            k <= s@.len(),
            total == newline_count(s@.take(k as int)),
            total <= k,
            s@.len() < usize::MAX,
        decreases s@.len() - k,
    {
        proof {
            lemma_newline_count_take(s@, k as int);
        }
        if s[k] == '\n' {
            total += 1;
        }
        k += 1;
    }
    proof {
        assert(s@.take(k as int) =~= s@);
    }
    if cut == s.len() {
        proof {
            assert(s@.take(i as int) =~= s@);
        }
        if max_lines > 0 {
            return (string_from_chars(&s), 0);
        }
    } else {
        proof {
            lemma_newline_count_le(s@, cut as int + 1);
        }
    }
    let mut kept: Vec<char> = Vec::new();
    let mut j: usize = 0;
    while j < cut
        invariant
            j <= cut <= s@.len(),
            kept@ == s@.take(j as int),
        decreases cut - j,
    {
        kept.push(s[j]);
        proof {
            assert(kept@ =~= s@.take(j as int + 1));
        }
        j += 1;
    }
    proof {
        if max_lines == 0 {
            assert(s@.take(cut as int) =~= s@);
        }
    }
    (string_from_chars(&kept), total + 1 - max_lines)
}

/// The highest repetition count among the heads `heads` (frame, repetition) that play
/// frame `fi`.
pub open spec fn max_repetition(heads: Seq<(usize, usize)>, fi: usize) -> Option<usize>
    decreases heads.len(),
{
    if heads.len() == 0 {
        None
    } else {
        let rest = max_repetition(heads.drop_last(), fi);
        let h = heads.last();
        if h.0 != fi {
            rest
        } else {
            match rest {
                Some(m) => Some(if h.1 > m {
                    h.1
                } else {
                    m
                }),
                None => Some(h.1),
            }
        }
    }
}

/// The repetition frame `fi` is on: the highest among the play heads of its line
/// (given as (frame, repetition) pairs) that are on it.
pub fn current_repetition(heads: Option<&Vec<(usize, usize)>>, fi: usize) -> (r: Option<usize>)
    ensures
        r == match heads {
            Some(h) => max_repetition(h@, fi),
            None => None,
        },
{
    let hs = match heads {
        Some(h) => h,
        None => return None,
    };
    let mut best: Option<usize> = None;
    let mut i: usize = 0;
    while i < hs.len()
        invariant
            i <= hs@.len(),
            best == max_repetition(hs@.take(i as int), fi),
        decreases hs@.len() - i,
    {
        proof {
            assert(hs@.take(i as int + 1).drop_last() =~= hs@.take(i as int));
        }
        let (hfi, rep) = hs[i];
        if hfi == fi {
            best = match best {
                Some(m) => Some(
                    if rep > m {
                        rep
                    } else {
                        m
                    },
                ),
                None => Some(rep),
            };
        }
        i += 1;
    }
    proof {
        assert(hs@.take(i as int) =~= hs@);
    }
    best
}

} // verus!
