//! Character-level text helpers shared by the parser, the interpolator and
//! the builtin command library. All interpreter text is held as `Vec<char>`;
//! the boundary functions here convert from and to `String`.

use vstd::prelude::*;

verus! {

/// The Unicode `White_Space` characters, the set `char::is_whitespace`
/// is documented to recognise.
pub open spec fn is_space_char(c: char) -> bool {
    let u = c as u32;
    u == 0x09 || u == 0x0A || u == 0x0B || u == 0x0C || u == 0x0D || u == 0x20 || u == 0x85
        || u == 0xA0 || u == 0x1680 || (0x2000 <= u && u <= 0x200A) || u == 0x2028 || u == 0x2029
        || u == 0x202F || u == 0x205F || u == 0x3000
}

pub fn is_space(c: char) -> (b: bool)
    ensures
        b == is_space_char(c),
{
    let u = c as u32;
    u == 0x09 || u == 0x0A || u == 0x0B || u == 0x0C || u == 0x0D || u == 0x20 || u == 0x85
        || u == 0xA0 || u == 0x1680 || (0x2000 <= u && u <= 0x200A) || u == 0x2028 || u == 0x2029
        || u == 0x202F || u == 0x205F || u == 0x3000
}

/// Whether `c` counts as part of a `$NAME` variable reference. Alphanumeric
/// per Unicode is beyond stating here, so the set is named and the library
/// relies on `char::is_alphanumeric` to decide it.
pub uninterp spec fn is_alphanumeric_char(c: char) -> bool;

/// Relies on `char::is_alphanumeric`: the Unicode `Alphabetic` and `Number`
/// categories, which contain the ASCII letters and digits and no ASCII
/// punctuation or whitespace.
#[verifier::external_body]
pub fn char_alphanumeric(c: char) -> (b: bool)
    ensures
        b == is_alphanumeric_char(c),
        ('a' <= c && c <= 'z') || ('A' <= c && c <= 'Z') || ('0' <= c && c <= '9') ==> b,
        c == ' ' || c == '$' || c == '\\' || c == '_' || c == '"' || c == '#' ==> !b,
{
    c.is_alphanumeric()
}

pub fn str_to_chars(s: &str) -> (v: Vec<char>)
    ensures
        v@ == s@,
{
    let n = s.unicode_len();
    let mut v: Vec<char> = Vec::new();
    let mut i: usize = 0;
    while i < n
        invariant
            n == s@.len(),
            i <= n,
            v@ == s@.subrange(0, i as int),
        decreases n - i,
    {
        v.push(s.get_char(i));
        i += 1;
        proof {
            assert(v@ =~= s@.subrange(0, i as int));
        }
    }
    proof {
        assert(v@ =~= s@);
    }
    v
}

/// Relies on `String: FromIterator<char>`: collecting characters in order.
#[verifier::external_body]
pub fn chars_to_string(v: &Vec<char>) -> (s: String)
    ensures
        s@ == v@,
{
    v.iter().collect()
}

pub fn chars_eq(a: &Vec<char>, b: &Vec<char>) -> (r: bool)
    ensures
        r == (a@ == b@),
{
    if a.len() != b.len() {
        proof {
            assert(a@ != b@);
        }
        return false;
    }
    let mut i: usize = 0;
    while i < a.len()
        invariant
            a@.len() == b@.len(),
            i <= a@.len(),
            forall|j: int| 0 <= j < i ==> a@[j] == b@[j],
        decreases a@.len() - i,
    {
        if a[i] != b[i] {
            return false;
        }
        i += 1;
    }
    proof {
        assert(a@ =~= b@);
    }
    true
}

pub fn sub_vec(v: &Vec<char>, a: usize, b: usize) -> (r: Vec<char>)
    requires
        a <= b <= v@.len(),
    ensures
        r@ == v@.subrange(a as int, b as int),
{
    let mut r: Vec<char> = Vec::new();
    let mut i: usize = a;
    while i < b
        invariant
            a <= i <= b <= v@.len(),
            r@ == v@.subrange(a as int, i as int),
        decreases b - i,
    {
        r.push(v[i]);
        i += 1;
        proof {
            assert(r@ =~= v@.subrange(a as int, i as int));
        }
    }
    r
}

pub fn push_all(dst: &mut Vec<char>, src: &Vec<char>)
    ensures
        final(dst)@ == old(dst)@ + src@,
{
    let mut i: usize = 0;
    while i < src.len()
        invariant
            i <= src@.len(),
            dst@ == old(dst)@ + src@.subrange(0, i as int),
        decreases src@.len() - i,
    {
        dst.push(src[i]);
        i += 1;
        proof {
            assert(dst@ =~= old(dst)@ + src@.subrange(0, i as int));
        }
    }
    proof {
        assert(dst@ =~= old(dst)@ + src@);
    }
}

/// Whether `pat` occurs in `s` starting at index `i`.
pub open spec fn matches_at(s: Seq<char>, pat: Seq<char>, i: int) -> bool {
    0 <= i && i + pat.len() <= s.len() && s.subrange(i, i + pat.len()) == pat
}

/// The first index at or after `i` where `pat` occurs in `s`.
pub open spec fn find_from(s: Seq<char>, pat: Seq<char>, i: int) -> Option<int>
    decreases s.len() - i + 1,
{
    if i < 0 || i + pat.len() > s.len() {
        None
    } else if s.subrange(i, i + pat.len()) == pat {
        Some(i)
    } else {
        find_from(s, pat, i + 1)
    }
}

/// The last index at or below `i` where `pat` occurs in `s`.
pub open spec fn rfind_upto(s: Seq<char>, pat: Seq<char>, i: int) -> Option<int>
    decreases i + 1,
{
    if i < 0 || i + pat.len() > s.len() {
        None
    } else if s.subrange(i, i + pat.len()) == pat {
        Some(i)
    } else {
        rfind_upto(s, pat, i - 1)
    }
}

proof fn lemma_rfind_step(s: Seq<char>, pat: Seq<char>, i: int)
    requires
        !matches_at(s, pat, i),
        i + pat.len() <= s.len(),
    ensures
        rfind_upto(s, pat, i) == rfind_upto(s, pat, i - 1),
{
}

pub fn window_eq(s: &Vec<char>, i: usize, pat: &Vec<char>) -> (r: bool)
    requires
        i + pat@.len() <= s@.len(),
    ensures
        r == matches_at(s@, pat@, i as int),
{
    let n = s.len();
    let mut j: usize = 0;
    while j < pat.len()
        invariant
            n == s@.len(),
            i + pat@.len() <= s@.len(),
            j <= pat@.len(),
            forall|k: int| 0 <= k < j ==> s@[i + k] == pat@[k],
        decreases pat@.len() - j,
    {
        if s[i + j] != pat[j] {
            proof {
                assert(s@.subrange(i as int, i + pat@.len())[j as int] == s@[i + j]);
            }
            return false;
        }
        j += 1;
    }
    proof {
        assert(s@.subrange(i as int, i + pat@.len()) =~= pat@);
    }
    true
}

/// The first occurrence of `pat` in `s` at or after `from`.
pub fn find_sub(s: &Vec<char>, pat: &Vec<char>, from: usize) -> (r: Option<usize>)
    ensures
        match r {
            Some(idx) => find_from(s@, pat@, from as int) == Some(idx as int),
            None => find_from(s@, pat@, from as int) is None,
        },
{
    let n = s.len();
    let m = pat.len();
    if m > n || from > n - m {
        proof {
            assert(find_from(s@, pat@, from as int) is None);
        }
        return None;
    }
    if m == 0 {
        proof {
            assert(s@.subrange(from as int, from as int) =~= pat@);
        }
        return Some(from);
    }
    let mut i: usize = from;
    while i <= n - m
        invariant
            n == s@.len(),
            m == pat@.len(),
            1 <= m <= n,
            from <= i,
            i <= n - m + 1,
            find_from(s@, pat@, from as int) == find_from(s@, pat@, i as int),
        decreases n - i + 1,
    {
        if window_eq(s, i, pat) {
            return Some(i);
        }
        i += 1;
    }
    None
}

/// The last occurrence of `pat` in `s`.
pub fn rfind_sub(s: &Vec<char>, pat: &Vec<char>) -> (r: Option<usize>)
    ensures
        match r {
            Some(idx) => rfind_upto(s@, pat@, s@.len() - pat@.len()) == Some(idx as int),
            None => rfind_upto(s@, pat@, s@.len() - pat@.len()) is None,
        },
{
    if pat.len() > s.len() {
        return None;
    }
    let mut i: usize = s.len() - pat.len();
    loop
        invariant
            pat@.len() <= s@.len(),
            i + pat@.len() <= s@.len(),
            rfind_upto(s@, pat@, s@.len() - pat@.len()) == rfind_upto(s@, pat@, i as int),
        decreases i,
    {
        if window_eq(s, i, pat) {
            return Some(i);
        }
        proof {
            lemma_rfind_step(s@, pat@, i as int);
        }
        if i == 0 {
            return None;
        }
        i -= 1;
    }
}

/// The first index at or after `i` holding character `c`.
pub open spec fn find_char_from(s: Seq<char>, c: char, i: int) -> Option<int>
    decreases s.len() - i,
{
    if i < 0 || i >= s.len() {
        None
    } else if s[i] == c {
        Some(i)
    } else {
        find_char_from(s, c, i + 1)
    }
}

pub fn find_char(s: &Vec<char>, c: char, from: usize) -> (r: Option<usize>)
    ensures
        match r {
            Some(idx) => find_char_from(s@, c, from as int) == Some(idx as int),
            None => find_char_from(s@, c, from as int) is None,
        },
{
    let mut i: usize = from;
    while i < s.len()
        invariant
            from <= i,
            find_char_from(s@, c, from as int) == find_char_from(s@, c, i as int),
        decreases s@.len() - i,
    {
        if s[i] == c {
            return Some(i);
        }
        i += 1;
    }
    None
}

/// Index of the first character that is not whitespace; the length if all are.
pub open spec fn first_non_space(s: Seq<char>, i: int) -> int
    decreases s.len() - i,
{
    if i < 0 || i >= s.len() {
        s.len() as int
    } else if is_space_char(s[i]) {
        first_non_space(s, i + 1)
    } else {
        i
    }
}

/// One past the index of the last character that is not whitespace; 0 if all are.
pub open spec fn last_non_space(s: Seq<char>, i: int) -> int
    decreases i,
{
    if i <= 0 || i > s.len() {
        0
    } else if is_space_char(s[i - 1]) {
        last_non_space(s, i - 1)
    } else {
        i
    }
}

/// `str::trim`: the text with leading and trailing whitespace removed.
pub open spec fn spec_trim(s: Seq<char>) -> Seq<char> {
    let a = first_non_space(s, 0);
    let b = last_non_space(s, s.len() as int);
    if a >= b {
        Seq::empty()
    } else {
        s.subrange(a, b)
    }
}

/// Whether the text holds only whitespace, as `str::trim` + `is_empty` test it.
pub open spec fn is_blank(s: Seq<char>) -> bool {
    forall|i: int| 0 <= i < s.len() ==> is_space_char(s[i])
}

proof fn lemma_first_non_space_bounds(s: Seq<char>, i: int)
    requires
        0 <= i <= s.len(),
    ensures
        i <= first_non_space(s, i) <= s.len(),
        forall|j: int| i <= j < first_non_space(s, i) ==> is_space_char(s[j]),
        first_non_space(s, i) < s.len() ==> !is_space_char(s[first_non_space(s, i)]),
    decreases s.len() - i,
{
    if i < s.len() && is_space_char(s[i]) {
        lemma_first_non_space_bounds(s, i + 1);
    }
}

proof fn lemma_last_non_space_bounds(s: Seq<char>, i: int)
    requires
        0 <= i <= s.len(),
    ensures
        0 <= last_non_space(s, i) <= i,
        forall|j: int| last_non_space(s, i) <= j < i ==> is_space_char(s[j]),
        last_non_space(s, i) > 0 ==> !is_space_char(s[last_non_space(s, i) - 1]),
    decreases i,
{
    if i > 0 && is_space_char(s[i - 1]) {
        lemma_last_non_space_bounds(s, i - 1);
    }
}

pub fn trim(s: &Vec<char>) -> (r: Vec<char>)
    ensures
        r@ == spec_trim(s@),
{
    proof {
        lemma_first_non_space_bounds(s@, 0);
        lemma_last_non_space_bounds(s@, s@.len() as int);
    }
    let mut a: usize = 0;
    while a < s.len() && is_space(s[a])
        invariant
            a <= s@.len(),
            first_non_space(s@, 0) == first_non_space(s@, a as int),
        decreases s@.len() - a,
    {
        a += 1;
    }
    let mut b: usize = s.len();
    while b > 0 && is_space(s[b - 1])
        invariant
            b <= s@.len(),
            last_non_space(s@, s@.len() as int) == last_non_space(s@, b as int),
        decreases b,
    {
        b -= 1;
    }
    if a >= b {
        proof {
            assert(spec_trim(s@) =~= Seq::<char>::empty());
        }
        Vec::new()
    } else {
        sub_vec(s, a, b)
    }
}

pub fn is_blank_text(s: &Vec<char>) -> (r: bool)
    ensures
        r == is_blank(s@),
{
    let t = trim(s);
    proof {
        lemma_first_non_space_bounds(s@, 0);
        lemma_last_non_space_bounds(s@, s@.len() as int);
    }
    t.len() == 0
}

/// The records obtained by splitting on `'\n'`; always at least one record.
pub open spec fn split_newlines(s: Seq<char>) -> Seq<Seq<char>>
    decreases s.len(),
    via split_newlines_dec
{
    match find_char_from(s, '\n', 0) {
        Option::None => seq![s],
        Option::Some(i) => seq![s.subrange(0, i)] + split_newlines(
            s.subrange(i + 1, s.len() as int),
        ),
    }
}

#[via_fn]
proof fn split_newlines_dec(s: Seq<char>) {
    lemma_find_char_bounds(s, '\n', 0);
}

#[via_fn]
proof fn spec_lines_dec(s: Seq<char>) {
    lemma_find_char_bounds(s, '\n', 0);
}

proof fn lemma_find_char_bounds(s: Seq<char>, c: char, i: int)
    requires
        0 <= i <= s.len(),
    ensures
        match find_char_from(s, c, i) {
            Option::Some(j) => i <= j < s.len() && s[j] == c,
            Option::None => true,
        },
    decreases s.len() - i,
{
    if i < s.len() && s[i] != c {
        lemma_find_char_bounds(s, c, i + 1);
    }
}

pub fn split_on_newlines(s: &Vec<char>) -> (r: Vec<Vec<char>>)
    ensures
        r@.len() == split_newlines(s@).len(),
        forall|i: int| 0 <= i < r@.len() ==> r@[i]@ == split_newlines(s@)[i],
    decreases s@.len(),
{
    proof {
        lemma_find_char_bounds(s@, '\n', 0);
    }
    match find_char(s, '\n', 0) {
        Option::None => {
            let mut r: Vec<Vec<char>> = Vec::new();
            r.push(sub_vec(s, 0, s.len()));
            proof {
                assert(s@.subrange(0, s@.len() as int) =~= s@);
            }
            r
        },
        Option::Some(i) => {
            let n = s.len();
            let head = sub_vec(s, 0, i);
            let tail = sub_vec(s, i + 1, n);
            let rest = split_on_newlines(&tail);
            let mut r: Vec<Vec<char>> = Vec::new();
            r.push(head);
            let mut k: usize = 0;
            while k < rest.len()
                invariant
                    r@.len() == 1 + k,
                    k <= rest@.len(),
                    r@[0]@ == s@.subrange(0, i as int),
                    forall|j: int| 0 <= j < k ==> r@[j + 1]@ == rest@[j]@,
                decreases rest@.len() - k,
            {
                let item = sub_vec(&rest[k], 0, rest[k].len());
                proof {
                    let ghost kk = k as int;
                    assert(rest@[kk]@.subrange(0, rest@[kk]@.len() as int) =~= rest@[kk]@);
                }
                r.push(item);
                k += 1;
            }
            r
        },
    }
}

/// One trailing carriage return removed, as the evaluator strips loop lines.
pub open spec fn strip_cr(s: Seq<char>) -> Seq<char> {
    if s.len() > 0 && s[s.len() - 1] == '\r' {
        s.drop_last()
    } else {
        s
    }
}

pub fn strip_trailing_cr(s: &Vec<char>) -> (r: Vec<char>)
    ensures
        r@ == strip_cr(s@),
{
    if s.len() > 0 && s[s.len() - 1] == '\r' {
        let r = sub_vec(s, 0, s.len() - 1);
        proof {
            assert(s@.subrange(0, s@.len() - 1) =~= s@.drop_last());
        }
        r
    } else {
        sub_vec(s, 0, s.len())
    }
}

/// The lines of a text as `str::lines` yields them: split on `'\n'`, a
/// carriage return before each newline removed, no final empty line.
pub open spec fn spec_lines(s: Seq<char>) -> Seq<Seq<char>>
    decreases s.len(),
    via spec_lines_dec
{
    if s.len() == 0 {
        Seq::empty()
    } else {
        match find_char_from(s, '\n', 0) {
            Option::None => seq![s],
            Option::Some(i) => seq![strip_cr(s.subrange(0, i))] + spec_lines(
                s.subrange(i + 1, s.len() as int),
            ),
        }
    }
}

pub fn text_lines(s: &Vec<char>) -> (r: Vec<Vec<char>>)
    ensures
        r@.len() == spec_lines(s@).len(),
        forall|i: int| 0 <= i < r@.len() ==> r@[i]@ == spec_lines(s@)[i],
    decreases s@.len(),
{
    proof {
        lemma_find_char_bounds(s@, '\n', 0);
    }
    if s.len() == 0 {
        Vec::new()
    } else {
        match find_char(s, '\n', 0) {
            Option::None => {
                let mut r: Vec<Vec<char>> = Vec::new();
                r.push(sub_vec(s, 0, s.len()));
                proof {
                    assert(s@.subrange(0, s@.len() as int) =~= s@);
                }
                r
            },
            Option::Some(i) => {
                let n = s.len();
                let head = strip_trailing_cr(&sub_vec(s, 0, i));
                let tail = sub_vec(s, i + 1, n);
                let rest = text_lines(&tail);
                let mut r: Vec<Vec<char>> = Vec::new();
                r.push(head);
                let mut k: usize = 0;
                while k < rest.len()
                    invariant
                        r@.len() == 1 + k,
                        k <= rest@.len(),
                        r@[0]@ == strip_cr(s@.subrange(0, i as int)),
                        forall|j: int| 0 <= j < k ==> r@[j + 1]@ == rest@[j]@,
                    decreases rest@.len() - k,
                {
                    let item = sub_vec(&rest[k], 0, rest[k].len());
                    proof {
                        assert(rest@[k as int]@.subrange(0, rest@[k as int]@.len() as int)
                            =~= rest@[k as int]@);
                    }
                    r.push(item);
                    k += 1;
                }
                r
            },
        }
    }
}

/// The character for a decimal digit value.
pub open spec fn digit_char(d: int) -> char {
    ((0x30 + d) as u32) as char
}

/// The decimal digits of a non-negative integer, most significant first.
pub open spec fn dec_digits(n: int) -> Seq<char>
    decreases n,
{
    if n < 10 {
        seq![digit_char(if n < 0 { 0int } else { n })]
    } else {
        dec_digits(n / 10).push(digit_char(n % 10))
    }
}

/// The decimal text of an integer, with a leading minus sign if negative.
pub open spec fn int_dec(n: int) -> Seq<char> {
    if n < 0 {
        seq!['-'] + dec_digits(-n)
    } else {
        dec_digits(n)
    }
}

fn digit_to_char(d: u8) -> (c: char)
    requires
        d < 10,
    ensures
        c == digit_char(d as int),
{
    match d {
        0 => '0',
        1 => '1',
        2 => '2',
        3 => '3',
        4 => '4',
        5 => '5',
        6 => '6',
        7 => '7',
        8 => '8',
        _ => '9',
    }
}

pub fn push_u128_dec(dst: &mut Vec<char>, n: u128)
    ensures
        final(dst)@ == old(dst)@ + dec_digits(n as int),
    decreases n,
{
    if n < 10 {
        dst.push(digit_to_char(n as u8));
        proof {
            assert(dst@ =~= old(dst)@ + dec_digits(n as int));
        }
    } else {
        push_u128_dec(dst, n / 10);
        dst.push(digit_to_char((n % 10) as u8));
        proof {
            assert(dst@ =~= old(dst)@ + dec_digits(n as int));
        }
    }
}

/// The decimal text of an `i32`, as the evaluator writes exit codes.
pub fn i32_dec(n: i32) -> (r: Vec<char>)
    ensures
        r@ == int_dec(n as int),
{
    let mut r: Vec<char> = Vec::new();
    if n < 0 {
        r.push('-');
        let m: u128 = (-(n as i64)) as u128;
        push_u128_dec(&mut r, m);
        proof {
            assert(r@ =~= int_dec(n as int));
        }
    } else {
        push_u128_dec(&mut r, n as u128);
    }
    r
}

pub open spec fn is_digit_char(c: char) -> bool {
    0x30 <= c as u32 <= 0x39
}

pub open spec fn digit_val(c: char) -> int {
    c as u32 - 0x30
}

pub open spec fn all_digits(s: Seq<char>) -> bool {
    forall|i: int| 0 <= i < s.len() ==> is_digit_char(s[i])
}

/// The value of a run of decimal digits, most significant first.
pub open spec fn digits_val(s: Seq<char>) -> int
    decreases s.len(),
{
    if s.len() == 0 {
        0
    } else {
        digits_val(s.drop_last()) * 10 + digit_val(s.last())
    }
}

proof fn lemma_digits_val_nonneg(s: Seq<char>)
    requires
        all_digits(s),
    ensures
        digits_val(s) >= 0,
    decreases s.len(),
{
    if s.len() > 0 {
        assert(all_digits(s.drop_last()));
        lemma_digits_val_nonneg(s.drop_last());
    }
}

proof fn lemma_digits_val_mono(s: Seq<char>, i: int)
    requires
        all_digits(s),
        0 <= i <= s.len(),
    ensures
        digits_val(s.subrange(0, i)) <= digits_val(s),
    decreases s.len() - i,
{
    if i < s.len() {
        lemma_digits_val_mono(s, i + 1);
        let a = s.subrange(0, i);
        let b = s.subrange(0, i + 1);
        assert(b.drop_last() =~= a);
        assert(all_digits(a));
        lemma_digits_val_nonneg(a);
        assert(digits_val(b) == digits_val(a) * 10 + digit_val(b.last()));
    } else {
        assert(s.subrange(0, i) =~= s);
    }
}

/// How `usize::from_str` reads a repeat count: an optional leading plus
/// sign, then one or more decimal digits, the value fitting in `usize`.
pub open spec fn spec_parse_count(s: Seq<char>) -> Option<int> {
    let body = if s.len() > 0 && s[0] == '+' {
        s.subrange(1, s.len() as int)
    } else {
        s
    };
    if body.len() == 0 || !all_digits(body) || digits_val(body) > usize::MAX {
        Option::None
    } else {
        Option::Some(digits_val(body))
    }
}

pub fn parse_count(s: &Vec<char>) -> (r: Option<usize>)
    ensures
        match r {
            Option::Some(v) => spec_parse_count(s@) == Option::Some(v as int),
            Option::None => spec_parse_count(s@) is None,
        },
{
    let start: usize = if s.len() > 0 && s[0] == '+' {
        1
    } else {
        0
    };
    let ghost body = if s@.len() > 0 && s@[0] == '+' {
        s@.subrange(1, s@.len() as int)
    } else {
        s@
    };
    if s.len() == start {
        return None;
    }
    let mut acc: usize = 0;
    let mut i: usize = start;
    while i < s.len()
        invariant
            start <= i <= s@.len(),
            start <= 1,
            s@.len() > start,
            body == (if s@.len() > 0 && s@[0] == '+' {
                s@.subrange(1, s@.len() as int)
            } else {
                s@
            }),
            body.len() == s@.len() - start,
            forall|j: int| 0 <= j < body.len() ==> body[j] == s@[j + start],
            all_digits(body.subrange(0, i - start)),
            acc == digits_val(body.subrange(0, i - start)),
        decreases s@.len() - i,
    {
        let c = s[i];
        let u = c as u32;
        if !(0x30 <= u && u <= 0x39) {
            proof {
                assert(!is_digit_char(body[i - start]));
            }
            return None;
        }
        let d: usize = (u - 0x30) as usize;
        proof {
            assert(body.subrange(0, i + 1 - start).drop_last() =~= body.subrange(0, i - start));
        }
        if acc > (usize::MAX - d) / 10 {
            proof {
                let pfx = body.subrange(0, i + 1 - start);
                assert(digits_val(pfx) == acc * 10 + d);
                assert(digits_val(pfx) > usize::MAX);
                assert(forall|j: int| 0 <= j < pfx.len() ==> is_digit_char(pfx[j]));
                lemma_digits_val_mono(pfx, 0);
                if all_digits(body) {
                    lemma_digits_val_mono(body, i + 1 - start);
                    assert(body.subrange(0, i + 1 - start) == pfx);
                }
            }
            return None;
        }
        acc = acc * 10 + d;
        i += 1;
    }
    proof {
        assert(body.subrange(0, s@.len() - start) =~= body);
    }
    Some(acc)
}

/// The UTF-8 encoded length of one character.
pub open spec fn char_utf8_len(c: char) -> int {
    let u = c as u32;
    if u < 0x80 {
        1int
    } else if u < 0x800 {
        2int
    } else if u < 0x10000 {
        3int
    } else {
        4int
    }
}

/// The UTF-8 byte length of a text, which `str::len` reports.
pub open spec fn utf8_len(s: Seq<char>) -> int
    decreases s.len(),
{
    if s.len() == 0 {
        0
    } else {
        utf8_len(s.drop_last()) + char_utf8_len(s.last())
    }
}

proof fn lemma_utf8_len_additive(a: Seq<char>, b: Seq<char>)
    ensures
        utf8_len(a + b) == utf8_len(a) + utf8_len(b),
    decreases b.len(),
{
    if b.len() == 0 {
        assert(a + b =~= a);
    } else {
        lemma_utf8_len_additive(a, b.drop_last());
        assert((a + b).drop_last() =~= a + b.drop_last());
        assert((a + b).last() == b.last());
    }
}

/// The character-wise byte count agrees with the UTF-8 encoding itself, so
/// `utf8_len` of a string's view is the byte length `str::len` reports.
pub proof fn lemma_utf8_len_is_encoding_len(s: Seq<char>)
    ensures
        utf8_len(s) == vstd::utf8::encode_utf8(s).len(),
    decreases s.len(),
{
    if s.len() > 0 {
        lemma_utf8_len_is_encoding_len(s.drop_first());
        vstd::utf8::char_is_scalar(s[0]);
        assert(vstd::utf8::encode_scalar(s[0] as u32).len() == char_utf8_len(s[0]));
        assert(seq![s[0]] + s.drop_first() =~= s);
        lemma_utf8_len_additive(seq![s[0]], s.drop_first());
        assert(utf8_len(seq![s[0]]) == char_utf8_len(s[0])) by {
            reveal_with_fuel(utf8_len, 2);
            assert(seq![s[0]].drop_last() =~= Seq::<char>::empty());
            assert(seq![s[0]].last() == s[0]);
        }
    }
}

pub fn utf8_byte_len(s: &Vec<char>) -> (n: u128)
    ensures
        n == utf8_len(s@),
{
    let mut acc: u128 = 0;
    let mut i: usize = 0;
    while i < s.len()
        invariant
            i <= s@.len(),
            acc == utf8_len(s@.subrange(0, i as int)),
            acc <= 4 * i,
        decreases s@.len() - i,
    {
        let c = s[i];
        let u = c as u32;
        let l: u128 = if u < 0x80 {
            1
        } else if u < 0x800 {
            2
        } else if u < 0x10000 {
            3
        } else {
            4
        };
        proof {
            assert(s@.subrange(0, i + 1).drop_last() =~= s@.subrange(0, i as int));
        }
        acc = acc + l;
        i += 1;
    }
    proof {
        assert(s@.subrange(0, s@.len() as int) =~= s@);
    }
    acc
}

/// Whether the text begins with the characters of `lit`.
pub open spec fn starts_with(s: Seq<char>, pfx: Seq<char>) -> bool {
    s.len() >= pfx.len() && s.subrange(0, pfx.len() as int) == pfx
}

/// Whether the text ends with the characters of `lit`.
pub open spec fn ends_with(s: Seq<char>, sfx: Seq<char>) -> bool {
    s.len() >= sfx.len() && s.subrange(s.len() - sfx.len(), s.len() as int) == sfx
}

pub fn has_prefix(s: &Vec<char>, lit: &str) -> (r: bool)
    ensures
        r == starts_with(s@, lit@),
{
    let m = lit.unicode_len();
    if m > s.len() {
        return false;
    }
    let mut j: usize = 0;
    while j < m
        invariant
            m == lit@.len(),
            m <= s@.len(),
            j <= m,
            forall|k: int| 0 <= k < j ==> s@[k] == lit@[k],
        decreases m - j,
    {
        if s[j] != lit.get_char(j) {
            proof {
                assert(s@.subrange(0, lit@.len() as int)[j as int] == s@[j as int]);
            }
            return false;
        }
        j += 1;
    }
    proof {
        assert(s@.subrange(0, lit@.len() as int) =~= lit@);
    }
    true
}

pub fn has_suffix(s: &Vec<char>, lit: &str) -> (r: bool)
    ensures
        r == ends_with(s@, lit@),
{
    let m = lit.unicode_len();
    let n = s.len();
    if m > n {
        return false;
    }
    let off = n - m;
    let mut j: usize = 0;
    while j < m
        invariant
            m == lit@.len(),
            n == s@.len(),
            m <= n,
            off == n - m,
            j <= m,
            forall|k: int| 0 <= k < j ==> s@[off + k] == lit@[k],
        decreases m - j,
    {
        if s[off + j] != lit.get_char(j) {
            proof {
                assert(s@.subrange(s@.len() - lit@.len(), s@.len() as int)[j as int] == s@[off
                    + j]);
            }
            return false;
        }
        j += 1;
    }
    proof {
        assert(s@.subrange(s@.len() - lit@.len(), s@.len() as int) =~= lit@);
    }
    true
}

/// The views of a sequence of texts.
pub open spec fn text_views(v: Seq<Vec<char>>) -> Seq<Seq<char>> {
    v.map_values(|l: Vec<char>| l@)
}

/// Appends a sequence of texts to another, preserving order.
pub fn append_texts(dst: &mut Vec<Vec<char>>, src: Vec<Vec<char>>)
    ensures
        text_views(final(dst)@) == text_views(old(dst)@) + text_views(src@),
{
    let mut s = src;
    let ghost d0 = text_views(dst@);
    let ghost sv = text_views(s@);
    let mut j: usize = 0;
    proof {
        assert(text_views(dst@) =~= d0 + sv.subrange(0, 0));
    }
    while j < s.len()
        invariant
            j <= s@.len(),
            sv == text_views(s@),
            text_views(dst@) == d0 + sv.subrange(0, j as int),
        decreases s@.len() - j,
    {
        let ghost dprev = dst@;
        dst.push(copy_text(&s[j]));
        proof {
            let ghost jj = j as int;
            let ghost rhs = d0 + sv.subrange(0, jj + 1);
            assert(sv.len() == s@.len());
            assert(text_views(dprev).len() == dprev.len());
            assert(dprev.len() == d0.len() + jj);
            assert(dst@[dprev.len() as int]@ == s@[jj]@);
            assert(text_views(dst@).len() == rhs.len());
            assert forall|k: int| 0 <= k < dst@.len() implies text_views(dst@)[k] == rhs[k] by {
                if k < dprev.len() {
                    assert(dst@[k] == dprev[k]);
                    assert(text_views(dprev)[k] == (d0 + sv.subrange(0, jj))[k]);
                    if k >= d0.len() {
                        assert((d0 + sv.subrange(0, jj))[k] == sv.subrange(0, jj)[k - d0.len()]);
                        assert(rhs[k] == sv.subrange(0, jj + 1)[k - d0.len()]);
                    }
                } else {
                    assert(text_views(dst@)[k] == dst@[k]@);
                    assert(rhs[k] == sv.subrange(0, jj + 1)[jj]);
                }
            }
            assert(text_views(dst@) =~= rhs);
        }
        j += 1;
    }
    proof {
        assert(sv.subrange(0, s@.len() as int) =~= sv);
    }
}

/// The views of a sequence of strings.
pub open spec fn string_views(v: Seq<String>) -> Seq<Seq<char>> {
    v.map_values(|s: String| s@)
}

/// An owned copy of a text.
pub fn copy_text(v: &Vec<char>) -> (r: Vec<char>)
    ensures
        r@ == v@,
{
    let r = sub_vec(v, 0, v.len());
    proof {
        assert(r@ =~= v@);
    }
    r
}

/// Whether the text equals the characters of `lit`.
pub fn equals_str(s: &Vec<char>, lit: &str) -> (r: bool)
    ensures
        r == (s@ == lit@),
{
    let m = lit.unicode_len();
    if m != s.len() {
        proof {
            assert(s@ != lit@);
        }
        return false;
    }
    let mut j: usize = 0;
    while j < m
        invariant
            m == lit@.len(),
            m == s@.len(),
            j <= m,
            forall|k: int| 0 <= k < j ==> s@[k] == lit@[k],
        decreases m - j,
    {
        if s[j] != lit.get_char(j) {
            return false;
        }
        j += 1;
    }
    proof {
        assert(s@ =~= lit@);
    }
    true
}

/// Appends the characters of a string literal to a character buffer.
pub fn push_str(dst: &mut Vec<char>, src: &str)
    ensures
        final(dst)@ == old(dst)@ + src@,
{
    let n = src.unicode_len();
    let mut i: usize = 0;
    while i < n
        invariant
            n == src@.len(),
            i <= n,
            dst@ == old(dst)@ + src@.subrange(0, i as int),
        decreases n - i,
    {
        dst.push(src.get_char(i));
        i += 1;
        proof {
            assert(dst@ =~= old(dst)@ + src@.subrange(0, i as int));
        }
    }
    proof {
        assert(dst@ =~= old(dst)@ + src@);
    }
}

} // verus!
