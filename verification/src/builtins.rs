//! The pure text builtins of the command library: repetition, literal
//! substitution, splitting, line selection and the plural stripper used by
//! loop bindings. Each is specified exactly over character sequences.

use vstd::prelude::*;

use crate::text;

verus! {

/// `TEXT` repeated `n` times.
pub open spec fn repeat_text(s: Seq<char>, n: int) -> Seq<char>
    decreases n,
{
    if n <= 0 {
        Seq::empty()
    } else {
        repeat_text(s, n - 1) + s
    }
}

#[verifier::loop_isolation(false)]
pub fn repeat(s: &Vec<char>, n: usize) -> (r: Vec<char>)
    requires
        n * s@.len() <= usize::MAX,
    ensures
        r@ == repeat_text(s@, n as int),
{
    let mut r: Vec<char> = Vec::new();
    let mut i: usize = 0;
    proof {
        assert(r@ =~= repeat_text(s@, 0));
    }
    while i < n
        invariant
            i <= n,
            r@ == repeat_text(s@, i as int),
            r@.len() == i * s@.len(),
        decreases n - i,
    {
        proof {
            assert((i + 1) * s@.len() == i * s@.len() + s@.len()) by (nonlinear_arith);
            assert((i + 1) * s@.len() <= n * s@.len()) by (nonlinear_arith)
                requires
                    i + 1 <= n,
                    s@.len() >= 0,
            ;
        }
        text::push_all(&mut r, s);
        i += 1;
    }
    r
}

/// `to` interleaved before every character and at the end, which is what
/// replacing the empty pattern does.
pub open spec fn intersperse(s: Seq<char>, to: Seq<char>) -> Seq<char>
    decreases s.len(),
{
    if s.len() == 0 {
        to
    } else {
        intersperse(s.drop_last(), to) + seq![s.last()] + to
    }
}

/// Literal, non-overlapping, left-to-right substitution of `from` by `to`,
/// as `str::replace` performs it.
pub open spec fn spec_replace(s: Seq<char>, from: Seq<char>, to: Seq<char>) -> Seq<char>
    decreases s.len(),
    via spec_replace_dec
{
    if from.len() == 0 {
        intersperse(s, to)
    } else {
        match text::find_from(s, from, 0) {
            None => s,
            Some(i) => s.subrange(0, i) + to + spec_replace(
                s.subrange(i + from.len(), s.len() as int),
                from,
                to,
            ),
        }
    }
}

proof fn lemma_find_from_props(s: Seq<char>, pat: Seq<char>, from: int)
    requires
        0 <= from,
    ensures
        match text::find_from(s, pat, from) {
            Some(j) => from <= j && text::matches_at(s, pat, j),
            None => true,
        },
    decreases s.len() - from + 1,
{
    if !(from < 0 || from + pat.len() > s.len()) && !(s.subrange(from, from + pat.len()) == pat) {
        lemma_find_from_props(s, pat, from + 1);
    }
}

#[via_fn]
proof fn spec_replace_dec(s: Seq<char>, from: Seq<char>, to: Seq<char>) {
    lemma_find_from_props(s, from, 0);
}

pub fn replace(s: &Vec<char>, from: &Vec<char>, to: &Vec<char>) -> (r: Vec<char>)
    ensures
        r@ == spec_replace(s@, from@, to@),
    decreases s@.len(),
{
    if from.len() == 0 {
        let mut r: Vec<char> = Vec::new();
        text::push_all(&mut r, to);
        let mut i: usize = 0;
        proof {
            assert(s@.subrange(0, 0) =~= Seq::<char>::empty());
        }
        while i < s.len()
            invariant
                i <= s@.len(),
                r@ == intersperse(s@.subrange(0, i as int), to@),
            decreases s@.len() - i,
        {
            r.push(s[i]);
            text::push_all(&mut r, to);
            i += 1;
            proof {
                let ghost pfx = s@.subrange(0, i as int);
                assert(pfx.drop_last() =~= s@.subrange(0, i - 1));
                assert(r@ =~= intersperse(pfx.drop_last(), to@) + seq![pfx.last()] + to@);
            }
        }
        proof {
            assert(s@.subrange(0, s@.len() as int) =~= s@);
        }
        r
    } else {
        proof {
            lemma_find_from_props(s@, from@, 0);
        }
        match text::find_sub(s, from, 0) {
            None => text::sub_vec(s, 0, s.len()),
            Some(i) => {
                let n = s.len();
                let mut r = text::sub_vec(s, 0, i);
                text::push_all(&mut r, to);
                let tail = text::sub_vec(s, i + from.len(), n);
                let rec = replace(&tail, from, to);
                text::push_all(&mut r, &rec);
                proof {
                    assert(r@ =~= spec_replace(s@, from@, to@));
                }
                r
            },
        }
    }
}

/// The first split of `s` on `pat`: the parts before and after the first
/// occurrence, as `str::split_once`.
pub open spec fn split_first(s: Seq<char>, pat: Seq<char>) -> Option<(Seq<char>, Seq<char>)> {
    match text::find_from(s, pat, 0) {
        None => None,
        Some(i) => Some((s.subrange(0, i), s.subrange(i + pat.len(), s.len() as int))),
    }
}

/// The last split of `s` on `pat`, as `str::rsplit_once`: the part after is
/// the text following the last occurrence.
pub open spec fn split_last(s: Seq<char>, pat: Seq<char>) -> Option<(Seq<char>, Seq<char>)> {
    match text::rfind_upto(s, pat, s.len() - pat.len()) {
        None => None,
        Some(i) => Some((s.subrange(0, i), s.subrange(i + pat.len(), s.len() as int))),
    }
}

proof fn lemma_rfind_props(s: Seq<char>, pat: Seq<char>, i: int)
    ensures
        match text::rfind_upto(s, pat, i) {
            Some(j) => j <= i && text::matches_at(s, pat, j),
            None => true,
        },
    decreases i + 1,
{
    if !(i < 0 || i + pat.len() > s.len()) && !(s.subrange(i, i + pat.len()) == pat) {
        lemma_rfind_props(s, pat, i - 1);
    }
}

/// Splits on the first occurrence and keeps the requested side; empty text
/// when the pattern is absent.
pub fn split_first_part(s: &Vec<char>, pat: &Vec<char>, keep_before: bool) -> (r: Vec<char>)
    ensures
        r@ == (match split_first(s@, pat@) {
            None => Seq::<char>::empty(),
            Some(p) => if keep_before {
                p.0
            } else {
                p.1
            },
        }),
{
    proof {
        lemma_find_from_props(s@, pat@, 0);
    }
    let n = s.len();
    match text::find_sub(s, pat, 0) {
        None => Vec::new(),
        Some(i) => {
            if keep_before {
                text::sub_vec(s, 0, i)
            } else {
                text::sub_vec(s, i + pat.len(), n)
            }
        },
    }
}

/// Splits on the last occurrence and keeps the requested side; empty text
/// when the pattern is absent.
pub fn split_last_part(s: &Vec<char>, pat: &Vec<char>, keep_before: bool) -> (r: Vec<char>)
    ensures
        r@ == (match split_last(s@, pat@) {
            None => Seq::<char>::empty(),
            Some(p) => if keep_before {
                p.0
            } else {
                p.1
            },
        }),
{
    proof {
        lemma_rfind_props(s@, pat@, s@.len() - pat@.len());
    }
    let n = s.len();
    match text::rfind_sub(s, pat) {
        None => Vec::new(),
        Some(i) => {
            if keep_before {
                text::sub_vec(s, 0, i)
            } else {
                text::sub_vec(s, i + pat.len(), n)
            }
        },
    }
}

/// The first line of the text, empty if there is none.
pub fn first_line(s: &Vec<char>) -> (r: Vec<char>)
    ensures
        r@ == (if text::spec_lines(s@).len() == 0 {
            Seq::<char>::empty()
        } else {
            text::spec_lines(s@)[0]
        }),
{
    let lines = text::text_lines(s);
    if lines.len() == 0 {
        Vec::new()
    } else {
        text::sub_vec(&lines[0], 0, lines[0].len())
    }
}

/// The last line of the text, empty if there is none.
pub fn last_line(s: &Vec<char>) -> (r: Vec<char>)
    ensures
        r@ == (if text::spec_lines(s@).len() == 0 {
            Seq::<char>::empty()
        } else {
            text::spec_lines(s@)[text::spec_lines(s@).len() - 1]
        }),
{
    let lines = text::text_lines(s);
    if lines.len() == 0 {
        Vec::new()
    } else {
        let k = lines.len() - 1;
        text::sub_vec(&lines[k], 0, lines[k].len())
    }
}

/// The number of lines of the text, as `str::lines().count()`.
pub fn count_lines(s: &Vec<char>) -> (n: usize)
    ensures
        n == text::spec_lines(s@).len(),
{
    let lines = text::text_lines(s);
    lines.len()
}

/// The reverse of pluralisation: a trailing `ies` or `s` removed, in that
/// order of preference; nothing for a text with neither suffix.
pub open spec fn spec_depluralise(s: Seq<char>) -> Option<Seq<char>> {
    if s.len() >= 3 && s[s.len() - 3] == 'i' && s[s.len() - 2] == 'e' && s[s.len() - 1] == 's' {
        Some(s.subrange(0, s.len() - 3))
    } else if s.len() >= 1 && s[s.len() - 1] == 's' {
        Some(s.subrange(0, s.len() - 1))
    } else {
        None
    }
}

pub fn depluralise_text(s: &Vec<char>) -> (r: Option<Vec<char>>)
    ensures
        match r {
            Some(v) => spec_depluralise(s@) == Some(v@),
            None => spec_depluralise(s@) is None,
        },
{
    if s.len() >= 3 && s[s.len() - 3] == 'i' && s[s.len() - 2] == 'e' && s[s.len() - 1] == 's' {
        Some(text::sub_vec(s, 0, s.len() - 3))
    } else if s.len() >= 1 && s[s.len() - 1] == 's' {
        Some(text::sub_vec(s, 0, s.len() - 1))
    } else {
        None
    }
}

/// Strips a plural suffix from a word, as loop bindings derive a singular
/// name from an iterated constant.
pub fn depluralise(on: &str) -> (r: Option<String>)
    ensures
        match r {
            Some(v) => spec_depluralise(on@) == Some(v@),
            None => spec_depluralise(on@) is None,
        },
{
    let s = text::str_to_chars(on);
    match depluralise_text(&s) {
        Some(v) => Some(text::chars_to_string(&v)),
        None => None,
    }
}

} // verus!
