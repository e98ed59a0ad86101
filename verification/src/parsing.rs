//! The parser: source text to statement tree. Lines are processed in order;
//! blank lines and `#` comments yield nothing, `let NAME = CMD` lines bind,
//! `for CMD each` lines open an indentation-delimited block, and every other
//! line is a plain command. Command text is tokenized left to right with
//! single spaces as separators and quoted spans taken verbatim.

use vstd::prelude::*;

use crate::ast::{Argument, Command, Program, Statement, StatementView, CommandView, stmt_views_from,
    lemma_stmt_views_from};
use crate::text;

verus! {

/// A structural parse error aborts the run before any evaluation.
#[derive(Clone, Copy, Debug, PartialEq, Eq, Structural)]
pub enum ParseError {
    /// A `let ` line without the ` = ` separator.
    MissingDeclarationSeparator,
}

/// One scanning step of command tokenization: `i` is the cursor, `last` the
/// start of the pending span, `quoted` whether a quote is open. Outside
/// quotes a space ends a token (trimmed, dropped if empty); either quote
/// character closes a quoted span, whose content is one verbatim token; what
/// remains at the end is one trimmed token.
pub open spec fn tok_scan(s: Seq<char>, i: int, last: int, quoted: bool) -> Seq<Seq<char>>
    decreases s.len() - i,
{
    if i < 0 || i >= s.len() {
        let t = text::spec_trim(s.subrange(last, s.len() as int));
        if t.len() == 0 {
            Seq::empty()
        } else {
            seq![t]
        }
    } else {
        let c = s[i];
        if quoted {
            if c == '"' || c == '\'' {
                seq![s.subrange(last, i)] + tok_scan(s, i + 1, i + 1, false)
            } else {
                tok_scan(s, i + 1, last, true)
            }
        } else {
            if c == '"' || c == '\'' {
                tok_scan(s, i + 1, i + 1, true)
            } else if c == ' ' {
                let t = text::spec_trim(s.subrange(last, i));
                if t.len() == 0 {
                    tok_scan(s, i + 1, i + 1, false)
                } else {
                    seq![t] + tok_scan(s, i + 1, i + 1, false)
                }
            } else {
                tok_scan(s, i + 1, last, false)
            }
        }
    }
}

/// The tokens of a command line, in order.
pub open spec fn spec_tokens(s: Seq<char>) -> Seq<Seq<char>> {
    tok_scan(s, 0, 0, false)
}

/// The first non-empty token from index `i` on.
pub open spec fn first_nonempty(toks: Seq<Seq<char>>, i: int) -> Option<int>
    decreases toks.len() - i,
{
    if i < 0 || i >= toks.len() {
        None
    } else if toks[i].len() > 0 {
        Some(i)
    } else {
        first_nonempty(toks, i + 1)
    }
}

/// A command line as a command: the first non-empty token is the name, all
/// other tokens are the arguments in order.
pub open spec fn spec_command(s: Seq<char>) -> CommandView {
    let toks = spec_tokens(s);
    match first_nonempty(toks, 0) {
        None => CommandView { name: Seq::empty(), arguments: toks },
        Some(i) => CommandView {
            name: toks[i],
            arguments: toks.subrange(0, i) + toks.subrange(i + 1, toks.len() as int),
        },
    }
}

/// The views of a vector of texts.
pub open spec fn views_of(lines: Seq<Vec<char>>) -> Seq<Seq<char>> {
    crate::text::text_views(lines)
}

spec fn tok_step_ok(s: Seq<char>, i: int, last: int) -> bool {
    0 <= last <= i <= s.len()
}

/// Splits a command line into its raw tokens.
#[verifier::loop_isolation(false)]
pub fn tokenize(s: &Vec<char>) -> (r: Vec<Vec<char>>)
    ensures
        views_of(r@) == spec_tokens(s@),
{
    let mut toks: Vec<Vec<char>> = Vec::new();
    let mut i: usize = 0;
    let mut last: usize = 0;
    let mut quoted: bool = false;
    proof {
        assert(views_of(toks@) + tok_scan(s@, 0, 0, false) =~= spec_tokens(s@));
    }
    while i < s.len()
        invariant
            tok_step_ok(s@, i as int, last as int),
            spec_tokens(s@) == views_of(toks@) + tok_scan(s@, i as int, last as int, quoted),
        decreases s@.len() - i,
    {
        let c = s[i];
        if quoted {
            if c == '"' || c == '\'' {
                let t = text::sub_vec(s, last, i);
                let ghost before = toks@;
                toks.push(t);
                proof {
                    assert(views_of(toks@) =~= views_of(before) + seq![s@.subrange(
                        last as int,
                        i as int,
                    )]);
                }
                last = i + 1;
                quoted = false;
            }
        } else {
            if c == '"' || c == '\'' {
                last = i + 1;
                quoted = true;
            } else if c == ' ' {
                let t = text::trim(&text::sub_vec(s, last, i));
                if t.len() > 0 {
                    let ghost before = toks@;
                    toks.push(t);
                    proof {
                        assert(views_of(toks@) =~= views_of(before) + seq![text::spec_trim(
                            s@.subrange(last as int, i as int),
                        )]);
                    }
                }
                last = i + 1;
            }
        }
        i += 1;
    }
    let t = text::trim(&text::sub_vec(s, last, s.len()));
    if t.len() > 0 {
        let ghost before = toks@;
        toks.push(t);
        proof {
            assert(views_of(toks@) =~= views_of(before) + seq![text::spec_trim(
                s@.subrange(last as int, s@.len() as int),
            )]);
        }
    }
    proof {
        assert(views_of(toks@) =~= spec_tokens(s@));
    }
    toks
}

/// Parses one command line held as characters.
#[verifier::loop_isolation(false)]
pub fn parse_command_text(on: &Vec<char>) -> (r: Command)
    ensures
        r@ == spec_command(on@),
{
    let toks = tokenize(on);
    let ghost tv = spec_tokens(on@);
    let mut sel: Option<usize> = None;
    let mut i: usize = 0;
    while i < toks.len()
        invariant
            sel is None,
            i <= toks@.len(),
            first_nonempty(tv, 0) == first_nonempty(tv, i as int),
        decreases toks@.len() - i,
    {
        if toks[i].len() > 0 {
            proof {
                assert(first_nonempty(tv, i as int) == Some(i as int));
            }
            sel = Some(i);
            break ;
        }
        i += 1;
    }
    match sel {
        None => {
            let mut arguments: Vec<Argument> = Vec::new();
            let mut k: usize = 0;
            while k < toks.len()
                invariant
                    k <= toks@.len(),
                    arguments@.len() == k,
                    forall|j: int| 0 <= j < k ==> arguments@[j]@ == tv[j],
                decreases toks@.len() - k,
            {
                arguments.push(Argument(text::sub_vec(&toks[k], 0, toks[k].len())));
                proof {
                    let ghost kk = k as int;
                    assert(toks@[kk]@.subrange(0, toks@[kk]@.len() as int) =~= toks@[kk]@);
                }
                k += 1;
            }
            let r = Command { name: Vec::new(), arguments };
            proof {
                assert(r@.arguments =~= spec_command(on@).arguments);
                assert(r@.name =~= spec_command(on@).name);
            }
            r
        },
        Some(ni) => {
            let name = text::sub_vec(&toks[ni], 0, toks[ni].len());
            let mut arguments: Vec<Argument> = Vec::new();
            let mut k: usize = 0;
            while k < toks.len()
                invariant
                    ni < toks@.len(),
                    k <= toks@.len(),
                    arguments@.len() == (if k <= ni {
                        k as int
                    } else {
                        k - 1
                    }),
                    forall|j: int| 0 <= j < k && j < ni ==> arguments@[j]@ == tv[j],
                    forall|j: int| ni < j < k ==> arguments@[j - 1]@ == tv[j],
                decreases toks@.len() - k,
            {
                if k != ni {
                    arguments.push(Argument(text::sub_vec(&toks[k], 0, toks[k].len())));
                    proof {
                        let ghost kk = k as int;
                        assert(toks@[kk]@.subrange(0, toks@[kk]@.len() as int) =~= toks@[kk]@);
                    }
                }
                k += 1;
            }
            let r = Command { name, arguments };
            proof {
                assert(toks@[ni as int]@.subrange(0, toks@[ni as int]@.len() as int) =~= toks@[
                    ni as int]@);
                assert(r@.name =~= spec_command(on@).name);
                assert(r@.arguments =~= spec_command(on@).arguments);
            }
            r
        },
    }
}

/// Parses one command line.
pub fn parse_command(on: &str) -> (r: Command)
    ensures
        r@ == spec_command(on@),
{
    parse_command_text(&text::str_to_chars(on))
}

/// Whether a line is a `#` comment.
pub open spec fn line_is_comment(l: Seq<char>) -> bool {
    l.len() > 0 && l[0] == '#'
}

/// Whether a line begins a declaration: the prefix `let `.
pub open spec fn is_declaration_line(l: Seq<char>) -> bool {
    l.len() >= 4 && l[0] == 'l' && l[1] == 'e' && l[2] == 't' && l[3] == ' '
}

/// Whether a line opens a loop block: the prefix `for ` and the suffix
/// ` each` around a non-overlapping middle.
pub open spec fn is_for_line(l: Seq<char>) -> bool {
    l.len() >= 9 && l[0] == 'f' && l[1] == 'o' && l[2] == 'r' && l[3] == ' ' && l[l.len() - 5]
        == ' ' && l[l.len() - 4] == 'e' && l[l.len() - 3] == 'a' && l[l.len() - 2] == 'c' && l[
        l.len() - 1] == 'h'
}

/// Whether a line belongs to an open block: indented by one tab or two
/// spaces, or blank.
pub open spec fn is_block_line(l: Seq<char>) -> bool {
    (l.len() >= 1 && l[0] == '\t') || (l.len() >= 2 && l[0] == ' ' && l[1] == ' ') || text::is_blank(
        l,
    )
}

/// A block line with its indentation prefix removed; blank lines are kept
/// whole.
pub open spec fn strip_indent(l: Seq<char>) -> Seq<char> {
    if l.len() >= 1 && l[0] == '\t' {
        l.subrange(1, l.len() as int)
    } else if l.len() >= 2 && l[0] == ' ' && l[1] == ' ' {
        l.subrange(2, l.len() as int)
    } else {
        l
    }
}

/// The index of the first line at or after `i` that does not belong to a
/// block; the length if all do.
pub open spec fn block_extent(lines: Seq<Seq<char>>, i: int) -> int
    decreases lines.len() - i,
{
    if i < 0 || i >= lines.len() {
        lines.len() as int
    } else if is_block_line(lines[i]) {
        block_extent(lines, i + 1)
    } else {
        i
    }
}

proof fn lemma_block_extent_bounds(lines: Seq<Seq<char>>, i: int)
    requires
        0 <= i <= lines.len(),
    ensures
        i <= block_extent(lines, i) <= lines.len(),
    decreases lines.len() - i,
{
    if i < lines.len() && is_block_line(lines[i]) {
        lemma_block_extent_bounds(lines, i + 1);
    }
}

/// The statements parsed from a sequence of logical lines. The first
/// non-blank, non-indented line after a `for` header ends its block and is
/// parsed as the next statement at the same level.
pub open spec fn spec_parse(lines: Seq<Seq<char>>) -> Result<Seq<StatementView>, ParseError>
    decreases lines.len(),
    via spec_parse_dec
{
    if lines.len() == 0 {
        Ok(Seq::empty())
    } else {
        let l = lines[0];
        let rest = lines.drop_first();
        if line_is_comment(l) || text::is_blank(l) {
            spec_parse(rest)
        } else if is_declaration_line(l) {
            let r = l.subrange(4, l.len() as int);
            match text::find_from(r, seq![' ', '=', ' '], 0) {
                None => Err(ParseError::MissingDeclarationSeparator),
                Some(j) => {
                    let name = r.subrange(0, j);
                    let value = spec_command(r.subrange(j + 3, r.len() as int));
                    match spec_parse(rest) {
                        Err(e) => Err(e),
                        Ok(t) => Ok(seq![StatementView::Declaration { name, value }] + t),
                    }
                },
            }
        } else if is_for_line(l) {
            let iterator = spec_command(l.subrange(4, l.len() - 5));
            let k = block_extent(lines, 1);
            let body_lines = lines.subrange(1, k).map_values(|b: Seq<char>| strip_indent(b));
            match spec_parse(body_lines) {
                Err(e) => Err(e),
                Ok(body) => match spec_parse(lines.subrange(k, lines.len() as int)) {
                    Err(e) => Err(e),
                    Ok(t) => Ok(seq![StatementView::For { iterator, statements: body }] + t),
                },
            }
        } else {
            match spec_parse(rest) {
                Err(e) => Err(e),
                Ok(t) => Ok(seq![StatementView::Command(spec_command(l))] + t),
            }
        }
    }
}

#[via_fn]
proof fn spec_parse_dec(lines: Seq<Seq<char>>) {
    if lines.len() > 0 {
        lemma_block_extent_bounds(lines, 1);
    }
}

/// What `spec_parse` yields once a prefix is already parsed.
pub open spec fn parse_after(acc: Seq<StatementView>, r: Result<Seq<StatementView>, ParseError>)
    -> Result<Seq<StatementView>, ParseError> {
    match r {
        Ok(t) => Ok(acc + t),
        Err(e) => Err(e),
    }
}

/// Parses the lines from index `from` on.
#[verifier::loop_isolation(false)]
fn parse_lines(lines: &Vec<Vec<char>>, from: usize) -> (r: Result<Vec<Statement>, ParseError>)
    requires
        from <= lines@.len(),
    ensures
        match r {
            Ok(v) => spec_parse(views_of(lines@).subrange(from as int, lines@.len() as int)) == Ok::<
                Seq<StatementView>,
                ParseError,
            >(stmt_views_from(v@, 0)),
            Err(e) => spec_parse(views_of(lines@).subrange(from as int, lines@.len() as int))
                == Err::<Seq<StatementView>, ParseError>(e),
        },
    decreases lines@.len() - from,
{
    let ghost vs = views_of(lines@);
    let n = lines.len();
    let mut acc: Vec<Statement> = Vec::new();
    let mut i: usize = from;
    proof {
        lemma_stmt_views_from(acc@, 0);
        assert(stmt_views_from(acc@, 0) =~= Seq::<StatementView>::empty());
        match spec_parse(vs.subrange(from as int, n as int)) {
            Ok(t) => {
                assert(stmt_views_from(acc@, 0) + t =~= t);
            },
            Err(_) => {},
        }
    }
    while i < n
        invariant
            from <= i <= n,
            n == lines@.len(),
            vs == views_of(lines@),
            spec_parse(vs.subrange(from as int, n as int)) == parse_after(
                stmt_views_from(acc@, 0),
                spec_parse(vs.subrange(i as int, n as int)),
            ),
        decreases n - i,
    {
        let ghost suffix = vs.subrange(i as int, n as int);
        proof {
            assert(suffix.len() > 0);
            assert(suffix[0] == lines@[i as int]@);
            assert(suffix.drop_first() =~= vs.subrange(i + 1, n as int));
        }
        let line = &lines[i];
        let comment = line.len() > 0 && line[0] == '#';
        if comment || text::is_blank_text(line) {
            i += 1;
        } else if line.len() >= 4 && line[0] == 'l' && line[1] == 'e' && line[2] == 't' && line[3]
            == ' ' {
            let r = text::sub_vec(line, 4, line.len());
            let sep: Vec<char> = vec![' ', '=', ' '];
            proof {
                assert(sep@ =~= seq![' ', '=', ' ']);
            }
            match text::find_sub(&r, &sep, 0) {
                None => {
                    return Err(ParseError::MissingDeclarationSeparator);
                },
                Some(j) => {
                    proof {
                        lemma_find_props(r@, sep@, 0, j as int);
                    }
                    let name = text::sub_vec(&r, 0, j);
                    let value = parse_command_text(&text::sub_vec(&r, j + 3, r.len()));
                    let stmt = Statement::Declaration { name, value };
                    let ghost before = acc@;
                    acc.push(stmt);
                    proof {
                        lemma_views_push(before, acc@, stmt@);
                        lemma_after_push(
                            stmt_views_from(before, 0),
                            stmt@,
                            spec_parse(vs.subrange(i + 1, n as int)),
                        );
                    }
                    i += 1;
                },
            }
        } else if line.len() >= 9 && line[0] == 'f' && line[1] == 'o' && line[2] == 'r' && line[3]
            == ' ' && line[line.len() - 5] == ' ' && line[line.len() - 4] == 'e' && line[line.len()
            - 3] == 'a' && line[line.len() - 2] == 'c' && line[line.len() - 1] == 'h' {
            let iterator = parse_command_text(&text::sub_vec(line, 4, line.len() - 5));
            let mut k: usize = i + 1;
            while k < n && block_line_check(&lines[k])
                invariant
                    i + 1 <= k <= n,
                    block_extent(suffix, 1) == block_extent(suffix, k - i),
                decreases n - k,
            {
                proof {
                    assert(suffix[k - i] == lines@[k as int]@);
                }
                k += 1;
            }
            proof {
                if k < n {
                    assert(suffix[k - i] == lines@[k as int]@);
                }
                assert(block_extent(suffix, k - i) == k - i);
                lemma_block_extent_bounds(suffix, 1);
            }
            let mut body: Vec<Vec<char>> = Vec::new();
            let mut m: usize = i + 1;
            while m < k
                invariant
                    i + 1 <= m <= k,
                    k <= n,
                    body@.len() == m - i - 1,
                    forall|j: int|
                        0 <= j < body@.len() ==> body@[j]@ == strip_indent(
                            vs.subrange(i as int, n as int)[1 + j],
                        ),
                decreases k - m,
            {
                let l = &lines[m];
                let stripped: Vec<char> = if l.len() >= 1 && l[0] == '\t' {
                    text::sub_vec(l, 1, l.len())
                } else if l.len() >= 2 && l[0] == ' ' && l[1] == ' ' {
                    text::sub_vec(l, 2, l.len())
                } else {
                    text::sub_vec(l, 0, l.len())
                };
                proof {
                    assert(lines@[m as int]@.subrange(0, lines@[m as int]@.len() as int) =~= lines@[
                        m as int]@);
                    assert(suffix[1 + (m - i - 1)] == lines@[m as int]@);
                }
                body.push(stripped);
                m += 1;
            }
            proof {
                assert(views_of(body@) =~= suffix.subrange(1, k - i).map_values(
                    |b: Seq<char>| strip_indent(b),
                ));
            }
            match parse_lines(&body, 0) {
                Err(e) => {
                    proof {
                        assert(views_of(body@).subrange(0, body@.len() as int) =~= views_of(body@));
                    }
                    return Err(e);
                },
                Ok(stmts) => {
                    proof {
                        assert(views_of(body@).subrange(0, body@.len() as int) =~= views_of(body@));
                    }
                    let stmt = Statement::For { iterator, statements: stmts };
                    let ghost before = acc@;
                    acc.push(stmt);
                    proof {
                        assert(stmt@ == StatementView::For {
                            iterator: iterator@,
                            statements: stmt_views_from(stmts@, 0),
                        });
                        lemma_views_push(before, acc@, stmt@);
                        assert(vs.subrange(k as int, n as int) =~= suffix.subrange(
                            k - i,
                            suffix.len() as int,
                        ));
                        lemma_after_push(
                            stmt_views_from(before, 0),
                            stmt@,
                            spec_parse(vs.subrange(k as int, n as int)),
                        );
                    }
                    i = k;
                },
            }
        } else {
            let cmd = parse_command_text(&text::sub_vec(line, 0, line.len()));
            proof {
                assert(lines@[i as int]@.subrange(0, lines@[i as int]@.len() as int) =~= lines@[
                    i as int]@);
            }
            let stmt = Statement::Command(cmd);
            let ghost before = acc@;
            acc.push(stmt);
            proof {
                lemma_views_push(before, acc@, stmt@);
                lemma_after_push(
                    stmt_views_from(before, 0),
                    stmt@,
                    spec_parse(vs.subrange(i + 1, n as int)),
                );
            }
            i += 1;
        }
    }
    proof {
        assert(vs.subrange(n as int, n as int) =~= Seq::<Seq<char>>::empty());
        assert(stmt_views_from(acc@, 0) + Seq::<StatementView>::empty() =~= stmt_views_from(
            acc@,
            0,
        ));
    }
    Ok(acc)
}

proof fn lemma_after_push(
    a: Seq<StatementView>,
    d: StatementView,
    r: Result<Seq<StatementView>, ParseError>,
)
    ensures
        parse_after(
            a,
            match r {
                Ok(t) => Ok(seq![d] + t),
                Err(e) => Err(e),
            },
        ) == parse_after(a + seq![d], r),
{
    match r {
        Ok(t) => {
            assert(a + (seq![d] + t) =~= (a + seq![d]) + t);
        },
        Err(_) => {},
    }
}

proof fn lemma_find_props(s: Seq<char>, pat: Seq<char>, from: int, j: int)
    requires
        text::find_from(s, pat, from) == Some(j),
        from >= 0,
    ensures
        from <= j,
        text::matches_at(s, pat, j),
    decreases s.len() - from + 1,
{
    if !(from < 0 || from + pat.len() > s.len()) && !(s.subrange(from, from + pat.len()) == pat) {
        lemma_find_props(s, pat, from + 1, j);
    }
}

proof fn lemma_views_push(before: Seq<Statement>, after: Seq<Statement>, v: StatementView)
    requires
        after.len() == before.len() + 1,
        forall|j: int| 0 <= j < before.len() ==> after[j] == before[j],
        after[after.len() - 1]@ == v,
    ensures
        stmt_views_from(after, 0) == stmt_views_from(before, 0) + seq![v],
{
    lemma_stmt_views_from(before, 0);
    lemma_stmt_views_from(after, 0);
    assert(stmt_views_from(after, 0) =~= stmt_views_from(before, 0) + seq![v]);
}

fn block_line_check(l: &Vec<char>) -> (r: bool)
    ensures
        r == is_block_line(l@),
{
    if l.len() >= 1 && l[0] == '\t' {
        true
    } else if l.len() >= 2 && l[0] == ' ' && l[1] == ' ' {
        true
    } else {
        text::is_blank_text(l)
    }
}

/// Blank lines and comment lines never produce statements: a line sequence
/// of nothing else parses to the empty program.
pub proof fn lemma_blank_and_comment_lines_yield_nothing(lines: Seq<Seq<char>>)
    requires
        forall|i: int|
            0 <= i < lines.len() ==> text::is_blank(lines[i]) || line_is_comment(lines[i]),
    ensures
        spec_parse(lines) == Ok::<Seq<StatementView>, ParseError>(Seq::empty()),
    decreases lines.len(),
{
    if lines.len() > 0 {
        let rest = lines.drop_first();
        assert(forall|i: int| 0 <= i < rest.len() ==> rest[i] == lines[i + 1]);
        lemma_blank_and_comment_lines_yield_nothing(rest);
    }
}

/// Parsing is deterministic and idempotent: what a text parses to is a
/// function of the text alone, so equal texts parse equally however often
/// the parse is repeated.
pub proof fn lemma_parse_deterministic(a: Seq<char>, b: Seq<char>)
    requires
        a == b,
    ensures
        spec_parse_source(a) == spec_parse_source(b),
{
}

/// What a whole source text parses to.
pub open spec fn spec_parse_source(s: Seq<char>) -> Result<Seq<StatementView>, ParseError> {
    spec_parse(text::spec_lines(s))
}

/// Parses a script: its lines, in order, to a statement tree. Parsing is a
/// function of the text alone; a malformed declaration is the one structural
/// error and aborts before any evaluation.
pub fn parse_program(on: &str) -> (r: Result<Program, ParseError>)
    ensures
        match r {
            Ok(p) => spec_parse_source(on@) == Ok::<Seq<StatementView>, ParseError>(p@),
            Err(e) => spec_parse_source(on@) == Err::<Seq<StatementView>, ParseError>(e),
        },
{
    let src = text::str_to_chars(on);
    let lines = text::text_lines(&src);
    proof {
        assert(views_of(lines@) =~= text::spec_lines(src@));
        assert(views_of(lines@).subrange(0, lines@.len() as int) =~= views_of(lines@));
    }
    match parse_lines(&lines, 0) {
        Ok(v) => Ok(Program(v)),
        Err(e) => Err(e),
    }
}

} // verus!
