//! Small string-position helpers: locating a fragment inside a larger text
//! and recovering the whole line it sits on.

use vstd::prelude::*;

use crate::text;

verus! {

/// The byte offset of the first occurrence of `right` in `whole`: the
/// UTF-8 length of the text before it. The fragment must occur in the
/// text.
pub fn offset(whole: &str, right: &str) -> (r: usize)
    requires
        text::find_from(whole@, right@, 0) is Some,
    ensures
        ({
            let i = text::find_from(whole@, right@, 0)->Some_0;
            r == text::utf8_len(whole@.subrange(0, i))
        }),
{
    let w = text::str_to_chars(whole);
    let p = text::str_to_chars(right);
    proof {
        lemma_find_in_range(whole@, right@, 0);
    }
    let i = match text::find_sub(&w, &p, 0) {
        Some(i) => i,
        None => 0,
    };
    let prefix = whole.substring_char(0, i);
    let bytes = prefix.as_bytes();
    proof {
        broadcast use vstd::slice::axiom_spec_len;

        text::lemma_utf8_len_is_encoding_len(whole@.subrange(0, i as int));
    }
    bytes.len()
}

/// The line of `whole` that the first occurrence of `inner` sits on: from
/// just after the previous newline up to the end of that line.
pub open spec fn spec_whole_line(whole: Seq<char>, inner: Seq<char>) -> Seq<char> {
    let off = text::find_from(whole, inner, 0)->Some_0;
    let start = match text::rfind_upto(whole.subrange(0, off), seq!['\n'], off - 1) {
        Some(p) => p + 1,
        None => 0,
    };
    let rest = whole.subrange(start, whole.len() as int);
    if text::spec_lines(rest).len() == 0 {
        Seq::empty()
    } else {
        text::spec_lines(rest)[0]
    }
}

pub fn whole_line(whole: &str, inner: &str) -> (r: String)
    requires
        text::find_from(whole@, inner@, 0) is Some,
    ensures
        r@ == spec_whole_line(whole@, inner@),
{
    let w = text::str_to_chars(whole);
    let p = text::str_to_chars(inner);
    proof {
        lemma_find_in_range(whole@, inner@, 0);
    }
    let off = match text::find_sub(&w, &p, 0) {
        Some(i) => i,
        None => 0,
    };
    let head = text::sub_vec(&w, 0, off);
    let nl: Vec<char> = vec!['\n'];
    proof {
        assert(nl@ =~= seq!['\n']);
        lemma_rfind_in_range(head@, nl@, off - 1);
    }
    let start: usize = match text::rfind_sub(&head, &nl) {
        Some(q) => q + 1,
        None => 0,
    };
    proof {
        lemma_rfind_in_range(head@, nl@, head@.len() - 1);
    }
    let rest = text::sub_vec(&w, start, w.len());
    let line = crate::builtins::first_line(&rest);
    text::chars_to_string(&line)
}

proof fn lemma_find_in_range(s: Seq<char>, pat: Seq<char>, i: int)
    requires
        0 <= i,
    ensures
        match text::find_from(s, pat, i) {
            Some(j) => i <= j && j + pat.len() <= s.len(),
            None => true,
        },
    decreases s.len() - i + 1,
{
    if !(i < 0 || i + pat.len() > s.len()) && !(s.subrange(i, i + pat.len()) == pat) {
        lemma_find_in_range(s, pat, i + 1);
    }
}

proof fn lemma_rfind_in_range(s: Seq<char>, pat: Seq<char>, i: int)
    ensures
        match text::rfind_upto(s, pat, i) {
            Some(j) => 0 <= j && j + pat.len() <= s.len() && j <= i,
            None => true,
        },
    decreases i + 1,
{
    if !(i < 0 || i + pat.len() > s.len()) && !(s.subrange(i, i + pat.len()) == pat) {
        lemma_rfind_in_range(s, pat, i - 1);
    }
}

} // verus!
