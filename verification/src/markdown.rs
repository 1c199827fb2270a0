use vstd::prelude::*;

use crate::text::{ascii_lowercase, ascii_lowercase_chars, blank, chars_eq, chars_of, is_ws, is_ws_exec, trim, trim_chars};

verus! {

/// Whether a fenced code block with info string `info` can be run in language `lang`: a
/// block without a tag, or tagged with the language (case aside), or a `forth` block in
/// `cagire`. Other tags (`text`, `txt`, `output` among them) mark samples that do not run.
pub open spec fn runnable(info: Seq<char>, lang: Seq<char>) -> bool {
    let tag = ascii_lowercase(trim(info));
    tag.len() == 0 || tag == lang || (lang == "cagire"@ && tag == "forth"@)
}

/// Whether a fenced code block with info string `info` gets a run button in language
/// `lang` (see [`runnable`]).
pub fn is_runnable(info: &str, lang: &str) -> (r: bool)
    ensures
        r == runnable(info@, lang@),
{
    let tag = ascii_lowercase_chars(&trim_chars(&chars_of(info)));
    if tag.len() == 0 {
        return true;
    }
    let lang_chars = chars_of(lang);
    if chars_eq(&tag, &lang_chars) {
        return true;
    }
    let cagire = chars_of("cagire");
    let forth = chars_of("forth");
    chars_eq(&lang_chars, &cagire) && chars_eq(&tag, &forth)
}

/// A piece of a markdown text, by character positions: prose, or a fenced code block with
/// its info string (the rest of the opening fence's line) and its code.
#[derive(Clone, Copy, PartialEq, Eq, Structural, Debug)]
pub enum MdPiece {
    Prose { start: usize, end: usize },
    Code { info_start: usize, info_end: usize, code_start: usize, code_end: usize },
}

/// A code fence (three backquotes) starts at `k`.
pub open spec fn fence_at(s: Seq<char>, k: int) -> bool {
    0 <= k && k + 3 <= s.len() && s[k] == '`' && s[k + 1] == '`' && s[k + 2] == '`'
}

/// Where the first fence at or after `from` starts.
pub open spec fn first_fence(s: Seq<char>, from: int) -> Option<int>
    decreases s.len() - from,
{
    if from < 0 || from + 3 > s.len() {
        None
    } else if fence_at(s, from) {
        Some(from)
    } else {
        first_fence(s, from + 1)
    }
}

/// Where the first line break at or after `from` is.
pub open spec fn first_newline(s: Seq<char>, from: int) -> Option<int>
    decreases s.len() - from,
{
    if from < 0 || from >= s.len() {
        None
    } else if s[from] == '\n' {
        Some(from)
    } else {
        first_newline(s, from + 1)
    }
}

/// The prose `s[from..to]`, unless it is all white space.
pub open spec fn prose(s: Seq<char>, from: int, to: int) -> Seq<MdPiece> {
    if blank(s, from, to) {
        Seq::empty()
    } else {
        seq![MdPiece::Prose { start: from as usize, end: to as usize }]
    }
}

/// The end of the code `s[start..end]` once one final line break is dropped.
pub open spec fn code_end(s: Seq<char>, start: int, end: int) -> int {
    if end > start && s[end - 1] == '\n' {
        end - 1
    } else {
        end
    }
}

/// The pieces of `s[from..]`: prose up to the next fence; a fence whose line does not end
/// is skipped; otherwise the info string runs to the end of the line and the code to the
/// closing fence (or to the end of the text), without a final line break; after a closing
/// fence, one line break is skipped.
pub open spec fn pieces_from(s: Seq<char>, from: int) -> Seq<MdPiece>
    decreases s.len() - from,
{
    if from < 0 || from > s.len() {
        Seq::empty()
    } else {
        match first_fence(s, from) {
            None => prose(s, from, s.len() as int),
            Some(p) => {
                proof {
                    lemma_first_fence(s, from);
                }
                let a = p + 3;
                match first_newline(s, a) {
                    None => prose(s, from, p) + pieces_from(s, a),
                    Some(nl) => {
                        proof {
                            lemma_first_newline(s, a);
                        }
                        let t = nl + 1;
                        match first_fence(s, t) {
                            Some(e) => {
                                proof {
                                    lemma_first_fence(s, t);
                                }
                                let r = if e + 3 < s.len() && s[e + 3] == '\n' {
                                    e + 4
                                } else {
                                    e + 3
                                };
                                prose(s, from, p) + seq![
                                    MdPiece::Code {
                                        info_start: a as usize,
                                        info_end: nl as usize,
                                        code_start: t as usize,
                                        code_end: code_end(s, t, e) as usize,
                                    },
                                ] + pieces_from(s, r)
                            },
                            None => prose(s, from, p) + seq![
                                MdPiece::Code {
                                    info_start: a as usize,
                                    info_end: nl as usize,
                                    code_start: t as usize,
                                    code_end: code_end(s, t, s.len() as int) as usize,
                                },
                            ],
                        }
                    },
                }
            },
        }
    }
}


/// A fence found from `from` on lies at or after `from`.
pub proof fn lemma_first_fence(s: Seq<char>, from: int)
    requires
        0 <= from,
    ensures
        match first_fence(s, from) {
            Some(p) => from <= p && fence_at(s, p),
            None => true,
        },
    decreases s.len() - from,
{
    if from + 3 <= s.len() && !fence_at(s, from) {
        lemma_first_fence(s, from + 1);
    }
}

/// A line break found from `from` on lies at or after `from`, inside the text.
pub proof fn lemma_first_newline(s: Seq<char>, from: int)
    requires
        0 <= from,
    ensures
        match first_newline(s, from) {
            Some(p) => from <= p < s.len() && s[p] == '\n',
            None => true,
        },
    decreases s.len() - from,
{
    if from < s.len() && s[from] != '\n' {
        lemma_first_newline(s, from + 1);
    }
}

fn find_fence(s: &Vec<char>, from: usize) -> (r: Option<usize>)
    ensures
        match first_fence(s@, from as int) {
            Some(p) => r == Some(p as usize),
            None => r is None,
        },
{
    let mut k = from;
    while k < s.len() && s.len() - k >= 3
        invariant
            from <= k,
            first_fence(s@, from as int) == first_fence(s@, k as int),
        decreases s@.len() - k,
    {
        if s[k] == '`' && s[k + 1] == '`' && s[k + 2] == '`' {
            return Some(k);
        }
        k += 1;
    }
    None
}

fn find_newline(s: &Vec<char>, from: usize) -> (r: Option<usize>)
    ensures
        match first_newline(s@, from as int) {
            Some(p) => r == Some(p as usize),
            None => r is None,
        },
{
    let mut k = from;
    while k < s.len()
        invariant
            from <= k,
            first_newline(s@, from as int) == first_newline(s@, k as int),
        decreases s@.len() - k,
    {
        if s[k] == '\n' {
            return Some(k);
        }
        k += 1;
    }
    None
}

fn is_blank(s: &Vec<char>, from: usize, to: usize) -> (r: bool)
    requires
        from <= to <= s@.len(),
    ensures
        r == blank(s@, from as int, to as int),
{
    let mut k = from;
    while k < to
        invariant
            from <= k <= to,
            to <= s@.len(),
            blank(s@, from as int, k as int),
        decreases to - k,
    {
        if !is_ws_exec(s[k]) {
            return false;
        }
        k += 1;
    }
    true
}

fn push_prose(s: &Vec<char>, from: usize, to: usize, out: &mut Vec<MdPiece>)
    requires
        from <= to <= s@.len(),
    ensures
        final(out)@ == old(out)@ + prose(s@, from as int, to as int),
{
    if is_blank(s, from, to) {
        proof {
            assert(out@ =~= old(out)@ + Seq::<MdPiece>::empty());
        }
    } else {
        out.push(MdPiece::Prose { start: from, end: to });
        proof {
            assert(out@ =~= old(out)@ + seq![MdPiece::Prose { start: from, end: to }]);
        }
    }
}

/// Splits a markdown text into prose and fenced code blocks (see [`pieces_from`]), by
/// character positions in `md`.
pub fn split_markdown(md: &str) -> (r: Vec<MdPiece>)
    ensures
        r@ == pieces_from(md@, 0),
{
    let s = chars_of(md);
    let mut out: Vec<MdPiece> = Vec::new();
    let mut from: usize = 0;
    loop
        invariant
            from <= s@.len(),
            s@ == md@,
            out@ + pieces_from(s@, from as int) == pieces_from(s@, 0),
        decreases s@.len() - from,
    {
        let ghost before = out@;
        let p = match find_fence(&s, from) {
            Some(p) => p,
            None => {
                push_prose(&s, from, s.len(), &mut out);
                return out;
            },
        };
        proof {
            lemma_first_fence(s@, from as int);
        }
        let a = p + 3;
        match find_newline(&s, a) {
            None => {
                push_prose(&s, from, p, &mut out);
                proof {
                    assert(out@ + pieces_from(s@, a as int) =~= before + pieces_from(s@, from as int));
                }
                from = a;
            },
            Some(nl) => {
                proof {
                    lemma_first_newline(s@, a as int);
                }
                let t = nl + 1;
                match find_fence(&s, t) {
                    Some(e) => {
                        proof {
                            lemma_first_fence(s@, t as int);
                        }
                        let ce = if e > t && s[e - 1] == '\n' {
                            e - 1
                        } else {
                            e
                        };
                        let r = if e + 3 < s.len() && s[e + 3] == '\n' {
                            e + 4
                        } else {
                            e + 3
                        };
                        push_prose(&s, from, p, &mut out);
                        let piece = MdPiece::Code {
                            info_start: a,
                            info_end: nl,
                            code_start: t,
                            code_end: ce,
                        };
                        out.push(piece);
                        proof {
                            assert(out@ + pieces_from(s@, r as int) =~= before + pieces_from(
                                s@,
                                from as int,
                            ));
                        }
                        from = r;
                    },
                    None => {
                        let ce = if s.len() > t && s[s.len() - 1] == '\n' {
                            s.len() - 1
                        } else {
                            s.len()
                        };
                        push_prose(&s, from, p, &mut out);
                        out.push(
                            MdPiece::Code { info_start: a, info_end: nl, code_start: t, code_end: ce },
                        );
                        proof {
                            assert(out@ =~= before + pieces_from(s@, from as int));
                        }
                        return out;
                    },
                }
            },
        }
    }
}


/// Where a piece starts (for code, at its info string).
pub open spec fn piece_start(p: MdPiece) -> int {
    match p {
        MdPiece::Prose { start, .. } => start as int,
        MdPiece::Code { info_start, .. } => info_start as int,
    }
}

/// Where a piece ends (for code, at the end of its code).
pub open spec fn piece_end(p: MdPiece) -> int {
    match p {
        MdPiece::Prose { end, .. } => end as int,
        MdPiece::Code { code_end, .. } => code_end as int,
    }
}

/// The pieces lie within `lo..hi`, each well formed (a code block's info string before its
/// code), one after the other without overlapping.
pub open spec fn ordered(ps: Seq<MdPiece>, lo: int, hi: int) -> bool {
    &&& forall|i: int|
        0 <= i < ps.len() ==> lo <= piece_start(#[trigger] ps[i]) <= piece_end(ps[i]) <= hi
    &&& forall|i: int|
        0 <= i < ps.len() ==> (#[trigger] ps[i] matches MdPiece::Code {
            info_start,
            info_end,
            code_start,
            code_end,
        } ==> info_start <= info_end < code_start <= code_end)
    &&& forall|i: int, j: int|
        0 <= i < j < ps.len() ==> piece_end(#[trigger] ps[i]) <= piece_start(#[trigger] ps[j])
}

proof fn lemma_ordered_concat(a: Seq<MdPiece>, b: Seq<MdPiece>, lo: int, mid: int, hi: int)
    requires
        lo <= mid <= hi,
        ordered(a, lo, mid),
        ordered(b, mid, hi),
    ensures
        ordered(a + b, lo, hi),
{
    let c = a + b;
    assert forall|i: int, j: int| 0 <= i < j < c.len() implies piece_end(#[trigger] c[i])
        <= piece_start(#[trigger] c[j]) by {
        if j < a.len() {
            assert(c[i] == a[i] && c[j] == a[j]);
        } else if i >= a.len() {
            assert(c[i] == b[i - a.len()] && c[j] == b[j - a.len()]);
        } else {
            assert(c[i] == a[i] && c[j] == b[j - a.len()]);
        }
    }
    assert forall|i: int| 0 <= i < c.len() implies lo <= piece_start(#[trigger] c[i]) <= piece_end(
        c[i],
    ) <= hi by {
        if i < a.len() {
            assert(c[i] == a[i]);
        } else {
            assert(c[i] == b[i - a.len()]);
        }
    }
    assert forall|i: int| 0 <= i < c.len() implies (#[trigger] c[i] matches MdPiece::Code {
        info_start,
        info_end,
        code_start,
        code_end,
    } ==> info_start <= info_end < code_start <= code_end) by {
        if i < a.len() {
            assert(c[i] == a[i]);
        } else {
            assert(c[i] == b[i - a.len()]);
        }
    }
}

/// The pieces a markdown text splits into come in document order, inside the text, without
/// overlapping, each code block's info string before its code.
pub proof fn lemma_pieces_ordered(s: Seq<char>, from: int)
    requires
        0 <= from <= s.len(),
        s.len() <= usize::MAX,
    ensures
        ordered(pieces_from(s, from), from, s.len() as int),
    decreases s.len() - from,
{
    match first_fence(s, from) {
        None => {},
        Some(p) => {
            lemma_first_fence(s, from);
            let a = p + 3;
            let pre = prose(s, from, p);
            assert(ordered(pre, from, a));
            match first_newline(s, a) {
                None => {
                    lemma_pieces_ordered(s, a);
                    lemma_ordered_concat(pre, pieces_from(s, a), from, a, s.len() as int);
                },
                Some(nl) => {
                    lemma_first_newline(s, a);
                    let t = nl + 1;
                    match first_fence(s, t) {
                        Some(e) => {
                            lemma_first_fence(s, t);
                            let r = if e + 3 < s.len() && s[e + 3] == '\n' {
                                e + 4
                            } else {
                                e + 3
                            };
                            let code = seq![
                                MdPiece::Code {
                                    info_start: a as usize,
                                    info_end: nl as usize,
                                    code_start: t as usize,
                                    code_end: code_end(s, t, e) as usize,
                                },
                            ];
                            assert(ordered(code, a, r));
                            lemma_pieces_ordered(s, r);
                            lemma_ordered_concat(pre, code, from, a, r);
                            lemma_ordered_concat(pre + code, pieces_from(s, r), from, r, s.len() as int);
                        },
                        None => {
                            let code = seq![
                                MdPiece::Code {
                                    info_start: a as usize,
                                    info_end: nl as usize,
                                    code_start: t as usize,
                                    code_end: code_end(s, t, s.len() as int) as usize,
                                },
                            ];
                            assert(ordered(code, a, s.len() as int));
                            lemma_ordered_concat(pre, code, from, a, s.len() as int);
                        },
                    }
                },
            }
        },
    }
}

/// No code fence starts within `s[lo..hi]`.
pub open spec fn fence_free(s: Seq<char>, lo: int, hi: int) -> bool {
    forall|k: int| lo <= k < hi ==> !#[trigger] fence_at(s, k)
}

/// Piece `p` is a proper piece of the text `s`. Prose holds no fence and is not all white
/// space. A code block's info string follows an opening fence and runs to the end of that
/// line; its code starts on the next line, holds no fence, and ends at a closing fence (or
/// just before the line break in front of it), or at the end of the text (or just before a
/// final line break).
pub open spec fn piece_fits(s: Seq<char>, p: MdPiece) -> bool {
    match p {
        MdPiece::Prose { start, end } => fence_free(s, start as int, end as int) && !blank(
            s,
            start as int,
            end as int,
        ),
        MdPiece::Code { info_start, info_end, code_start, code_end } => {
            let (a, nl, t, c) = (info_start as int, info_end as int, code_start as int, code_end as int);
            &&& fence_at(s, a - 3)
            &&& nl < s.len() && s[nl] == '\n'
            &&& forall|k: int| a <= k < nl ==> #[trigger] s[k] != '\n'
            &&& t == nl + 1
            &&& fence_free(s, t, c)
            &&& {
                ||| c == s.len()
                ||| c + 1 == s.len() && s[c] == '\n'
                ||| fence_at(s, c)
                ||| c + 1 < s.len() && s[c] == '\n' && fence_at(s, c + 1)
            }
        },
    }
}

/// Character `k` of `s` is accounted for by the pieces `ps`: it lies in a piece, or in a
/// code fence, or is white space.
pub open spec fn accounted(s: Seq<char>, ps: Seq<MdPiece>, k: int) -> bool {
    ||| is_ws(s[k])
    ||| exists|i: int| 0 <= i < ps.len() && piece_start(#[trigger] ps[i]) <= k < piece_end(ps[i])
    ||| exists|j: int| #[trigger] fence_at(s, j) && j <= k < j + 3
}

proof fn lemma_fence_min(s: Seq<char>, from: int)
    requires
        0 <= from,
    ensures
        match first_fence(s, from) {
            Some(p) => fence_free(s, from, p),
            None => fence_free(s, from, s.len() as int),
        },
    decreases s.len() - from,
{
    if from + 3 <= s.len() && !fence_at(s, from) {
        lemma_fence_min(s, from + 1);
    }
}

proof fn lemma_newline_min(s: Seq<char>, from: int)
    requires
        0 <= from,
    ensures
        match first_newline(s, from) {
            Some(p) => forall|k: int| from <= k < p ==> #[trigger] s[k] != '\n',
            None => forall|k: int| from <= k < s.len() ==> #[trigger] s[k] != '\n',
        },
    decreases s.len() - from,
{
    if from < s.len() && s[from] != '\n' {
        lemma_newline_min(s, from + 1);
    }
}

proof fn lemma_accounted_concat(s: Seq<char>, a: Seq<MdPiece>, b: Seq<MdPiece>, k: int)
    requires
        accounted(s, a, k) || accounted(s, b, k),
    ensures
        accounted(s, a + b, k),
{
    let c = a + b;
    if exists|i: int| 0 <= i < a.len() && piece_start(#[trigger] a[i]) <= k < piece_end(a[i]) {
        let i = choose|i: int| 0 <= i < a.len() && piece_start(#[trigger] a[i]) <= k < piece_end(a[i]);
        assert(c[i] == a[i]);
    } else if exists|i: int| 0 <= i < b.len() && piece_start(#[trigger] b[i]) <= k < piece_end(b[i]) {
        let i = choose|i: int| 0 <= i < b.len() && piece_start(#[trigger] b[i]) <= k < piece_end(b[i]);
        assert(c[a.len() + i] == b[i]);
    }
}

proof fn lemma_fits_concat(s: Seq<char>, a: Seq<MdPiece>, b: Seq<MdPiece>)
    requires
        forall|i: int| 0 <= i < a.len() ==> piece_fits(s, #[trigger] a[i]),
        forall|i: int| 0 <= i < b.len() ==> piece_fits(s, #[trigger] b[i]),
    ensures
        forall|i: int| 0 <= i < (a + b).len() ==> piece_fits(s, #[trigger] (a + b)[i]),
{
    assert forall|i: int| 0 <= i < (a + b).len() implies piece_fits(s, #[trigger] (a + b)[i]) by {
        if i < a.len() {
            assert((a + b)[i] == a[i]);
        } else {
            assert((a + b)[i] == b[i - a.len()]);
        }
    }
}

proof fn lemma_prose_fits(s: Seq<char>, from: int, to: int)
    requires
        0 <= from <= to <= s.len(),
        s.len() <= usize::MAX,
        fence_free(s, from, to),
    ensures
        forall|i: int| 0 <= i < prose(s, from, to).len() ==> piece_fits(s, #[trigger] prose(s, from, to)[i]),
        forall|k: int| from <= k < to ==> accounted(s, prose(s, from, to), k),
{
    let ps = prose(s, from, to);
    assert forall|k: int| from <= k < to implies accounted(s, ps, k) by {
        if !blank(s, from, to) {
            assert(piece_start(ps[0]) <= k < piece_end(ps[0]));
        } else {
            assert(is_ws(s[k]));
        }
    }
}

proof fn lemma_pieces_account(s: Seq<char>, from: int)
    requires
        0 <= from <= s.len(),
        s.len() <= usize::MAX,
    ensures
        forall|i: int| 0 <= i < pieces_from(s, from).len() ==> piece_fits(s, #[trigger] pieces_from(s, from)[i]),
        forall|k: int| from <= k < s.len() ==> accounted(s, pieces_from(s, from), k),
    decreases s.len() - from,
{
    let all = pieces_from(s, from);
    lemma_fence_min(s, from);
    lemma_first_fence(s, from);
    match first_fence(s, from) {
        None => {
            lemma_prose_fits(s, from, s.len() as int);
        },
        Some(p) => {
            let a = p + 3;
            let pre = prose(s, from, p);
            lemma_prose_fits(s, from, p);
            lemma_first_newline(s, a);
            lemma_newline_min(s, a);
            match first_newline(s, a) {
                None => {
                    lemma_pieces_account(s, a);
                    let rest = pieces_from(s, a);
                    lemma_fits_concat(s, pre, rest);
                    assert forall|k: int| from <= k < s.len() implies accounted(s, all, k) by {
                        if k < p {
                            lemma_accounted_concat(s, pre, rest, k);
                        } else if k < a {
                            assert(fence_at(s, p) && p <= k < p + 3);
                        } else {
                            lemma_accounted_concat(s, pre, rest, k);
                        }
                    }
                },
                Some(nl) => {
                    let t = nl + 1;
                    lemma_fence_min(s, t);
                    lemma_first_fence(s, t);
                    match first_fence(s, t) {
                        Some(e) => {
                            let r = if e + 3 < s.len() && s[e + 3] == '\n' {
                                e + 4
                            } else {
                                e + 3
                            };
                            let ce = code_end(s, t, e);
                            let piece = MdPiece::Code {
                                info_start: a as usize,
                                info_end: nl as usize,
                                code_start: t as usize,
                                code_end: ce as usize,
                            };
                            let code = seq![piece];
                            assert(piece_fits(s, piece));
                            lemma_pieces_account(s, r);
                            let rest = pieces_from(s, r);
                            lemma_fits_concat(s, pre, code);
                            lemma_fits_concat(s, pre + code, rest);
                            assert(all == pre + code + rest);
                            assert forall|k: int| from <= k < s.len() implies accounted(s, all, k) by {
                                if k < p {
                                    lemma_accounted_concat(s, pre, code, k);
                                    lemma_accounted_concat(s, pre + code, rest, k);
                                } else if k < a {
                                    assert(fence_at(s, p) && p <= k < p + 3);
                                } else if k < ce {
                                    assert(piece_start(code[0]) <= k < piece_end(code[0]));
                                    lemma_accounted_concat(s, pre, code, k);
                                    lemma_accounted_concat(s, pre + code, rest, k);
                                } else if k < e {
                                    assert(is_ws(s[k]));
                                } else if k < e + 3 {
                                    assert(fence_at(s, e) && e <= k < e + 3);
                                } else if k < r {
                                    assert(is_ws(s[k]));
                                } else {
                                    lemma_accounted_concat(s, pre + code, rest, k);
                                }
                            }
                        },
                        None => {
                            let ce = code_end(s, t, s.len() as int);
                            let piece = MdPiece::Code {
                                info_start: a as usize,
                                info_end: nl as usize,
                                code_start: t as usize,
                                code_end: ce as usize,
                            };
                            let code = seq![piece];
                            assert(piece_fits(s, piece));
                            lemma_fits_concat(s, pre, code);
                            assert(all == pre + code);
                            assert forall|k: int| from <= k < s.len() implies accounted(s, all, k) by {
                                if k < p {
                                    lemma_accounted_concat(s, pre, code, k);
                                } else if k < a {
                                    assert(fence_at(s, p) && p <= k < p + 3);
                                } else if k < ce {
                                    assert(piece_start(code[0]) <= k < piece_end(code[0]));
                                    lemma_accounted_concat(s, pre, code, k);
                                } else {
                                    assert(is_ws(s[k]));
                                }
                            }
                        },
                    }
                },
            }
        },
    }
}

/// Every piece a markdown text splits into is a proper piece of it (see [`piece_fits`]):
/// prose never holds a code fence, so each fenced block whose opening line ends becomes its
/// own code block; and every character of the text that is not white space lies in a piece
/// or in a fence.
pub proof fn lemma_markdown_pieces(s: Seq<char>)
    requires
        s.len() <= usize::MAX,
    ensures
        forall|i: int| 0 <= i < pieces_from(s, 0).len() ==> piece_fits(s, #[trigger] pieces_from(s, 0)[i]),
        forall|k: int| 0 <= k < s.len() ==> accounted(s, pieces_from(s, 0), k),
{
    lemma_pieces_account(s, 0);
}

} // verus!
