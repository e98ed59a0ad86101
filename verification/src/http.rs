//! The computational part of the HTTP client and server glue: splitting a
//! response into headers and body, decoding a chunked transfer body, and
//! reading a request line. The sockets themselves stay outside; these
//! functions work on bytes already received.

use vstd::prelude::*;

verus! {

/// A received request line, split into its parts.
pub struct Request {
    pub method: Vec<u8>,
    pub path: Vec<u8>,
    pub headers: Vec<u8>,
}

/// A numeric HTTP status.
pub struct ResponseCode(pub u16);

/// What a handler answers: a status and a body.
pub struct Response {
    pub code: ResponseCode,
    pub body: Vec<u8>,
}

impl ResponseCode {
    pub fn ok() -> (r: ResponseCode)
        ensures
            r.0 == 200,
    {
        ResponseCode(200)
    }

    pub fn not_found() -> (r: ResponseCode)
        ensures
            r.0 == 404,
    {
        ResponseCode(404)
    }

    /// The status line text for the codes the server knows; any other code
    /// has none and the caller must refuse it.
    pub fn status_text(&self) -> (r: Option<&'static str>)
        ensures
            self.0 == 200 ==> (r matches Some(s) && s@ == "200 OK"@),
            self.0 == 404 ==> (r matches Some(s) && s@ == "404 Not Found"@),
            self.0 != 200 && self.0 != 404 ==> r is None,
    {
        if self.0 == 200 {
            Some("200 OK")
        } else if self.0 == 404 {
            Some("404 Not Found")
        } else {
            None
        }
    }
}

/// The first index at or after `i` holding byte `b`.
pub open spec fn find_byte_from(s: Seq<u8>, b: u8, i: int) -> Option<int>
    decreases s.len() - i,
{
    if i < 0 || i >= s.len() {
        None
    } else if s[i] == b {
        Some(i)
    } else {
        find_byte_from(s, b, i + 1)
    }
}

fn find_byte(s: &Vec<u8>, b: u8, from: usize) -> (r: Option<usize>)
    ensures
        match r {
            Some(idx) => find_byte_from(s@, b, from as int) == Some(idx as int),
            None => find_byte_from(s@, b, from as int) is None,
        },
{
    let mut i: usize = from;
    while i < s.len()
        invariant
            from <= i,
            find_byte_from(s@, b, from as int) == find_byte_from(s@, b, i as int),
        decreases s@.len() - i,
    {
        if s[i] == b {
            return Some(i);
        }
        i += 1;
    }
    None
}

proof fn lemma_find_byte_bounds(s: Seq<u8>, b: u8, i: int)
    requires
        0 <= i <= s.len(),
    ensures
        match find_byte_from(s, b, i) {
            Some(j) => i <= j < s.len() && s[j] == b,
            None => true,
        },
    decreases s.len() - i,
{
    if i < s.len() && s[i] != b {
        lemma_find_byte_bounds(s, b, i + 1);
    }
}

fn sub_bytes(v: &Vec<u8>, a: usize, b: usize) -> (r: Vec<u8>)
    requires
        a <= b <= v@.len(),
    ensures
        r@ == v@.subrange(a as int, b as int),
{
    let mut r: Vec<u8> = Vec::new();
    let mut i: usize = a;
    while i < b
        invariant
            a <= i <= b <= v@.len(),
            r@ == v@.subrange(a as int, i as int),
        decreases b - i,
    {
        r.push(v[i]);
        i += 1;
        proof {
            assert(r@ =~= v@.subrange(a as int, i as int));
        }
    }
    r
}

/// Splits a request line `METHOD PATH REST` at its first two spaces, as the
/// server reads the head of a connection. `None` exactly when a space is
/// missing.
pub fn parse_request_line(data: &Vec<u8>) -> (r: Option<Request>)
    ensures
        ({
            let first = find_byte_from(data@, 32, 0);
            match r {
                Some(req) => first matches Some(i) && find_byte_from(data@, 32, i + 1) matches Some(
                    j,
                ) && req.method@ == data@.subrange(0, i) && req.path@ == data@.subrange(i + 1, j)
                    && req.headers@ == data@.subrange(j + 1, data@.len() as int),
                None => first is None || find_byte_from(data@, 32, first->Some_0 + 1) is None,
            }
        }),
{
    let n = data.len();
    proof {
        lemma_find_byte_bounds(data@, 32, 0);
    }
    match find_byte(data, 32, 0) {
        None => None,
        Some(i) => {
            proof {
                lemma_find_byte_bounds(data@, 32, i + 1);
            }
            match find_byte(data, 32, i + 1) {
                None => None,
                Some(j) => {
                    Some(
                        Request {
                            method: sub_bytes(data, 0, i),
                            path: sub_bytes(data, i + 1, j),
                            headers: sub_bytes(data, j + 1, n),
                        },
                    )
                },
            }
        },
    }
}

/// What walking a response's header lines yields: the redirect targets
/// announced by `Location` headers, whether the last `Transfer-Encoding`
/// header said `chunked`, and the body after the first blank line — absent
/// when no text follows one.
#[verifier::ext_equal]
pub struct HeadView {
    pub redirects: Seq<Seq<char>>,
    pub chunked: bool,
    pub body: Option<Seq<char>>,
}

/// One header line's contribution: a redirect target if it is a
/// `Location` header, and the chunked flag rewritten by a
/// `Transfer-Encoding` header.
pub open spec fn line_redirect(line: Seq<char>) -> Option<Seq<char>> {
    if crate::text::starts_with(line, "Location: "@) {
        Some(line.subrange("Location: "@.len() as int, line.len() as int))
    } else {
        None
    }
}

pub open spec fn line_chunked(line: Seq<char>, chunked: bool) -> bool {
    if crate::text::starts_with(line, "Transfer-Encoding: "@) {
        line.subrange("Transfer-Encoding: "@.len() as int, line.len() as int) == "chunked"@
    } else {
        chunked
    }
}

/// The header walk from position `pos`: lines are read up to the first
/// blank one, each with a carriage return before its newline removed; the
/// text after the blank line is the body.
pub open spec fn scan_head(s: Seq<char>, pos: int, chunked: bool) -> HeadView
    decreases s.len() - pos,
    via scan_head_dec
{
    if pos < 0 || pos >= s.len() {
        HeadView { redirects: Seq::empty(), chunked, body: None }
    } else {
        match crate::text::find_char_from(s, '\n', pos) {
            None => {
                let line = s.subrange(pos, s.len() as int);
                HeadView {
                    redirects: match line_redirect(line) {
                        Some(r) => seq![r],
                        None => Seq::empty(),
                    },
                    chunked: line_chunked(line, chunked),
                    body: None,
                }
            },
            Some(k) => {
                let line = crate::text::strip_cr(s.subrange(pos, k));
                if line.len() == 0 {
                    HeadView {
                        redirects: Seq::empty(),
                        chunked,
                        body: if k + 1 < s.len() {
                            Some(s.subrange(k + 1, s.len() as int))
                        } else {
                            None
                        },
                    }
                } else {
                    let rest = scan_head(s, k + 1, line_chunked(line, chunked));
                    HeadView {
                        redirects: (match line_redirect(line) {
                            Some(r) => seq![r],
                            None => Seq::<Seq<char>>::empty(),
                        }) + rest.redirects,
                        chunked: rest.chunked,
                        body: rest.body,
                    }
                }
            },
        }
    }
}

#[via_fn]
proof fn scan_head_dec(s: Seq<char>, pos: int, chunked: bool) {
    if 0 <= pos < s.len() {
        lemma_find_nl_bounds(s, pos);
    }
}

proof fn lemma_find_nl_bounds(s: Seq<char>, i: int)
    requires
        0 <= i <= s.len(),
    ensures
        match crate::text::find_char_from(s, '\n', i) {
            Some(j) => i <= j < s.len(),
            None => true,
        },
    decreases s.len() - i,
{
    if i < s.len() && s[i] != '\n' {
        lemma_find_nl_bounds(s, i + 1);
    }
}

/// The header portion of a received response, split off for the client.
pub struct HttpHead {
    pub redirects: Vec<Vec<char>>,
    pub chunked: bool,
    pub body: Option<Vec<char>>,
}

fn scan_from(s: &Vec<char>, pos: usize, chunked: bool) -> (r: HttpHead)
    requires
        pos <= s@.len(),
    ensures
        ({
            let hv = scan_head(s@, pos as int, chunked);
            crate::parsing::views_of(r.redirects@) == hv.redirects && r.chunked == hv.chunked
                && (match r.body {
                Some(b) => hv.body == Some(b@),
                None => hv.body is None,
            })
        }),
    decreases s@.len() - pos,
{
    if pos >= s.len() {
        let r = HttpHead { redirects: Vec::new(), chunked, body: None };
        proof {
            assert(crate::parsing::views_of(r.redirects@) =~= Seq::<Seq<char>>::empty());
        }
        return r;
    }
    proof {
        lemma_find_nl_bounds(s@, pos as int);
    }
    match crate::text::find_char(s, '\n', pos) {
        None => {
            let line = crate::text::sub_vec(s, pos, s.len());
            let mut redirects: Vec<Vec<char>> = Vec::new();
            if crate::text::has_prefix(&line, "Location: ") {
                let skip = "Location: ".unicode_len();
                redirects.push(crate::text::sub_vec(&line, skip, line.len()));
            }
            let chunked2 = chunked_of_line(&line, chunked);
            let r = HttpHead { redirects, chunked: chunked2, body: None };
            proof {
                let hv = scan_head(s@, pos as int, chunked);
                assert(crate::parsing::views_of(r.redirects@) =~= hv.redirects);
            }
            r
        },
        Some(k) => {
            let line = crate::text::strip_trailing_cr(&crate::text::sub_vec(s, pos, k));
            if line.len() == 0 {
                let body: Option<Vec<char>> = if k + 1 < s.len() {
                    Some(crate::text::sub_vec(s, k + 1, s.len()))
                } else {
                    None
                };
                let r = HttpHead { redirects: Vec::new(), chunked, body };
                proof {
                    assert(crate::parsing::views_of(r.redirects@) =~= Seq::<Seq<char>>::empty());
                }
                r
            } else {
                let chunked2 = chunked_of_line(&line, chunked);
                let rest = scan_from(s, k + 1, chunked2);
                let mut redirects: Vec<Vec<char>> = Vec::new();
                if crate::text::has_prefix(&line, "Location: ") {
                    let skip = "Location: ".unicode_len();
                    redirects.push(crate::text::sub_vec(&line, skip, line.len()));
                }
                crate::text::append_texts(&mut redirects, rest.redirects);
                proof {
                    let hv = scan_head(s@, pos as int, chunked);
                    assert(crate::parsing::views_of(redirects@) =~= hv.redirects);
                }
                HttpHead { redirects, chunked: rest.chunked, body: rest.body }
            }
        },
    }
}

fn chunked_of_line(line: &Vec<char>, chunked: bool) -> (r: bool)
    ensures
        r == line_chunked(line@, chunked),
{
    if crate::text::has_prefix(line, "Transfer-Encoding: ") {
        let skip = "Transfer-Encoding: ".unicode_len();
        let value = crate::text::sub_vec(line, skip, line.len());
        crate::text::equals_str(&value, "chunked")
    } else {
        chunked
    }
}

/// Splits a received response into what its headers announce and its body,
/// as the client walks it: redirect targets, the chunked flag, and the
/// text after the first blank line.
pub fn split_response(response: &Vec<char>) -> (r: HttpHead)
    ensures
        ({
            let hv = scan_head(response@, 0, false);
            crate::parsing::views_of(r.redirects@) == hv.redirects && r.chunked == hv.chunked
                && (match r.body {
                Some(b) => hv.body == Some(b@),
                None => hv.body is None,
            })
        }),
{
    scan_from(response, 0, false)
}

pub open spec fn is_hex_digit(b: u8) -> bool {
    (0x30 <= b && b <= 0x39) || (0x41 <= b && b <= 0x46) || (0x61 <= b && b <= 0x66)
}

pub open spec fn hex_digit_val(b: u8) -> int {
    if 0x30 <= b && b <= 0x39 {
        b - 0x30
    } else if 0x41 <= b && b <= 0x46 {
        b - 0x41 + 10
    } else {
        b - 0x61 + 10
    }
}

pub open spec fn all_hex(s: Seq<u8>) -> bool {
    forall|i: int| 0 <= i < s.len() ==> is_hex_digit(s[i])
}

pub open spec fn hex_val(s: Seq<u8>) -> int
    decreases s.len(),
{
    if s.len() == 0 {
        0
    } else {
        hex_val(s.drop_last()) * 16 + hex_digit_val(s.last())
    }
}

/// How `u64::from_str_radix` with radix 16 reads a chunk length: an
/// optional plus sign, then one or more hexadecimal digits, the value
/// fitting in a `u64`.
pub open spec fn spec_parse_hex(s: Seq<u8>) -> Option<int> {
    let body = if s.len() > 0 && s[0] == 0x2B {
        s.subrange(1, s.len() as int)
    } else {
        s
    };
    if body.len() == 0 || !all_hex(body) || hex_val(body) > u64::MAX {
        None
    } else {
        Some(hex_val(body))
    }
}

proof fn lemma_hex_val_nonneg(s: Seq<u8>)
    requires
        all_hex(s),
    ensures
        hex_val(s) >= 0,
    decreases s.len(),
{
    if s.len() > 0 {
        assert(all_hex(s.drop_last()));
        lemma_hex_val_nonneg(s.drop_last());
    }
}

proof fn lemma_hex_val_mono(s: Seq<u8>, i: int)
    requires
        all_hex(s),
        0 <= i <= s.len(),
    ensures
        hex_val(s.subrange(0, i)) <= hex_val(s),
    decreases s.len() - i,
{
    if i < s.len() {
        lemma_hex_val_mono(s, i + 1);
        let a = s.subrange(0, i);
        let b = s.subrange(0, i + 1);
        assert(b.drop_last() =~= a);
        assert(all_hex(a));
        lemma_hex_val_nonneg(a);
        assert(hex_val(b) == hex_val(a) * 16 + hex_digit_val(b.last()));
    } else {
        assert(s.subrange(0, i) =~= s);
    }
}

/// Reads a hexadecimal chunk length.
pub fn parse_hex(s: &Vec<u8>) -> (r: Option<u64>)
    ensures
        match r {
            Some(v) => spec_parse_hex(s@) == Some(v as int),
            None => spec_parse_hex(s@) is None,
        },
{
    let start: usize = if s.len() > 0 && s[0] == 0x2B {
        1
    } else {
        0
    };
    let ghost body = if s@.len() > 0 && s@[0] == 0x2B {
        s@.subrange(1, s@.len() as int)
    } else {
        s@
    };
    if s.len() == start {
        return None;
    }
    let mut acc: u64 = 0;
    let mut i: usize = start;
    while i < s.len()
        invariant
            start <= i <= s@.len(),
            start <= 1,
            s@.len() > start,
            body == (if s@.len() > 0 && s@[0] == 0x2B {
                s@.subrange(1, s@.len() as int)
            } else {
                s@
            }),
            body.len() == s@.len() - start,
            forall|j: int| 0 <= j < body.len() ==> body[j] == s@[j + start],
            all_hex(body.subrange(0, i - start)),
            acc == hex_val(body.subrange(0, i - start)),
        decreases s@.len() - i,
    {
        let b = s[i];
        let d: u64 = if 0x30 <= b && b <= 0x39 {
            (b - 0x30) as u64
        } else if 0x41 <= b && b <= 0x46 {
            (b - 0x41) as u64 + 10
        } else if 0x61 <= b && b <= 0x66 {
            (b - 0x61) as u64 + 10
        } else {
            proof {
                assert(!is_hex_digit(body[i - start]));
            }
            return None;
        };
        proof {
            assert(body.subrange(0, i + 1 - start).drop_last() =~= body.subrange(0, i - start));
        }
        if acc > (u64::MAX - d) / 16 {
            proof {
                let pfx = body.subrange(0, i + 1 - start);
                assert(hex_val(pfx) == acc * 16 + d);
                assert(hex_val(pfx) > u64::MAX);
                assert(forall|j: int| 0 <= j < pfx.len() ==> is_hex_digit(pfx[j]));
                lemma_hex_val_mono(pfx, 0);
                if all_hex(body) {
                    lemma_hex_val_mono(body, i + 1 - start);
                    assert(body.subrange(0, i + 1 - start) == pfx);
                }
            }
            return None;
        }
        acc = acc * 16 + d;
        i += 1;
    }
    proof {
        assert(body.subrange(0, s@.len() - start) =~= body);
    }
    Some(acc)
}

/// The first CRLF pair at or after `i`.
pub open spec fn find_crlf_from(s: Seq<u8>, i: int) -> Option<int>
    decreases s.len() - i,
{
    if i < 0 || i + 2 > s.len() {
        None
    } else if s[i] == 0x0D && s[i + 1] == 0x0A {
        Some(i)
    } else {
        find_crlf_from(s, i + 1)
    }
}

fn find_crlf(s: &Vec<u8>, from: usize) -> (r: Option<usize>)
    ensures
        match r {
            Some(idx) => find_crlf_from(s@, from as int) == Some(idx as int),
            None => find_crlf_from(s@, from as int) is None,
        },
{
    if s.len() < 2 || from > s.len() - 2 {
        proof {
            assert(find_crlf_from(s@, from as int) is None);
        }
        return None;
    }
    let n = s.len();
    let mut i: usize = from;
    while i <= n - 2
        invariant
            from <= i,
            n == s@.len(),
            2 <= n,
            i <= n - 1,
            find_crlf_from(s@, from as int) == find_crlf_from(s@, i as int),
        decreases n - i,
    {
        if s[i] == 0x0D && s[i + 1] == 0x0A {
            return Some(i);
        }
        i += 1;
    }
    None
}

proof fn lemma_find_crlf_bounds(s: Seq<u8>, i: int)
    requires
        0 <= i,
    ensures
        match find_crlf_from(s, i) {
            Some(j) => i <= j && j + 2 <= s.len(),
            None => true,
        },
    decreases s.len() - i + 1,
{
    if !(i < 0 || i + 2 > s.len()) && !(s[i] == 0x0D && s[i + 1] == 0x0A) {
        lemma_find_crlf_bounds(s, i + 1);
    }
}

/// What walking the chunks after the first one yields: each chunk's bytes
/// appended in order, stopping at a zero-size chunk, an empty length line
/// or the end; nothing when a length line is missing, unreadable, or
/// longer than what remains.
pub open spec fn chunk_walk(body: Seq<u8>, pos: int, size: int, acc: Seq<u8>) -> Option<Seq<u8>>
    decreases body.len() + 2 - pos,
    via chunk_walk_dec
{
    if !(size > 0 && 0 <= pos < body.len()) {
        Some(acc)
    } else {
        match find_crlf_from(body, pos) {
            None => None,
            Some(j) => {
                let lenstr = body.subrange(pos, j);
                if lenstr.len() == 0 {
                    Some(acc)
                } else {
                    match spec_parse_hex(lenstr) {
                        None => None,
                        Some(sz) => {
                            let rest = body.subrange(j + 2, body.len() as int);
                            if sz > rest.len() {
                                None
                            } else {
                                chunk_walk(
                                    body,
                                    pos + lenstr.len() + 2 + sz + 2,
                                    sz,
                                    acc + rest.subrange(0, sz),
                                )
                            }
                        },
                    }
                }
            },
        }
    }
}

#[via_fn]
proof fn chunk_walk_dec(body: Seq<u8>, pos: int, size: int, acc: Seq<u8>) {
    if size > 0 && 0 <= pos < body.len() {
        lemma_find_crlf_bounds(body, pos);
        match find_crlf_from(body, pos) {
            None => {},
            Some(j) => {
                let lenstr = body.subrange(pos, j);
                let inner = if lenstr.len() > 0 && lenstr[0] == 0x2B {
                    lenstr.subrange(1, lenstr.len() as int)
                } else {
                    lenstr
                };
                if all_hex(inner) {
                    lemma_hex_val_nonneg(inner);
                }
            },
        }
    }
}

/// The decoded body of a chunked transfer: the first chunk, then the walk
/// over the following ones, exactly as the client reassembles them.
pub open spec fn spec_decode_chunked(body: Seq<u8>) -> Option<Seq<u8>> {
    match find_crlf_from(body, 0) {
        None => None,
        Some(j) => {
            let lenstr = body.subrange(0, j);
            match spec_parse_hex(lenstr) {
                None => None,
                Some(sz) => {
                    let rest = body.subrange(j + 2, body.len() as int);
                    if sz > rest.len() {
                        None
                    } else {
                        chunk_walk(body, j + 2 + sz + 2, sz, rest.subrange(0, sz))
                    }
                },
            }
        },
    }
}

fn walk_chunks(body: &Vec<u8>, pos: usize, size: u64, acc: Vec<u8>) -> (r: Option<Vec<u8>>)
    requires
        size > 0 ==> pos > 0,
    ensures
        match r {
            Some(v) => chunk_walk(body@, pos as int, size as int, acc@) == Some(v@),
            None => chunk_walk(body@, pos as int, size as int, acc@) is None,
        },
    decreases body@.len() + 2 - pos,
{
    if !(size > 0 && pos < body.len()) {
        return Some(acc);
    }
    proof {
        lemma_find_crlf_bounds(body@, pos as int);
    }
    match find_crlf(body, pos) {
        None => None,
        Some(j) => {
            if j == pos {
                proof {
                    assert(body@.subrange(pos as int, j as int).len() == 0);
                }
                return Some(acc);
            }
            let lenstr = sub_bytes(body, pos, j);
            match parse_hex(&lenstr) {
                None => None,
                Some(sz) => {
                    let n = body.len();
                    let rest_len = n - (j + 2);
                    if sz > rest_len as u64 {
                        proof {
                            assert(body@.subrange(j + 2, n as int).len() == rest_len as int);
                        }
                        return None;
                    }
                    let mut acc2 = acc;
                    let piece = sub_bytes(body, j + 2, j + 2 + (sz as usize));
                    let mut k: usize = 0;
                    let ghost a0 = acc2@;
                    while k < piece.len()
                        invariant
                            k <= piece@.len(),
                            acc2@ == a0 + piece@.subrange(0, k as int),
                        decreases piece@.len() - k,
                    {
                        acc2.push(piece[k]);
                        k += 1;
                        proof {
                            assert(acc2@ =~= a0 + piece@.subrange(0, k as int));
                        }
                    }
                    proof {
                        let rest = body@.subrange(j + 2, body@.len() as int);
                        assert(piece@.subrange(0, piece@.len() as int) =~= piece@);
                        assert(piece@ =~= rest.subrange(0, sz as int));
                        assert(acc2@ =~= a0 + rest.subrange(0, sz as int));
                        assert(body@.subrange(pos as int, j as int).len() == j - pos);
                    }
                    if (j as u128) + 4 + (sz as u128) > (usize::MAX as u128) {
                        proof {
                            let pv = pos as int;
                            let szi = sz as int;
                            let lenstr = body@.subrange(pv, j as int);
                            let rest = body@.subrange(j + 2, body@.len() as int);
                            assert(lenstr.len() == j - pv);
                            assert(pv + lenstr.len() + 2 + szi + 2 > usize::MAX);
                            assert(body@.len() <= usize::MAX);
                            assert(chunk_walk(
                                body@,
                                pv + lenstr.len() + 2 + szi + 2,
                                szi,
                                acc@ + rest.subrange(0, szi),
                            ) == Some(acc@ + rest.subrange(0, szi)));
                            assert(acc2@ == acc@ + rest.subrange(0, szi));
                        }
                        return Some(acc2);
                    }
                    let next_abs = j + 2 + (sz as usize) + 2;
                    walk_chunks(body, next_abs, sz, acc2)
                },
            }
        },
    }
}

/// Reassembles a chunked transfer body. `None` exactly when the encoding
/// is malformed, which aborts the client as its carrier would.
pub fn decode_chunked(body: &Vec<u8>) -> (r: Option<Vec<u8>>)
    ensures
        match r {
            Some(v) => spec_decode_chunked(body@) == Some(v@),
            None => spec_decode_chunked(body@) is None,
        },
{
    proof {
        lemma_find_crlf_bounds(body@, 0);
    }
    match find_crlf(body, 0) {
        None => None,
        Some(j) => {
            let lenstr = sub_bytes(body, 0, j);
            match parse_hex(&lenstr) {
                None => None,
                Some(sz) => {
                    let n = body.len();
                    let rest_len = n - (j + 2);
                    if sz > rest_len as u64 {
                        proof {
                            assert(body@.subrange(j + 2, n as int).len() == rest_len as int);
                        }
                        return None;
                    }
                    let first = sub_bytes(body, j + 2, j + 2 + (sz as usize));
                    proof {
                        let rest = body@.subrange(j + 2, body@.len() as int);
                        assert(first@ =~= rest.subrange(0, sz as int));
                    }
                    if sz == 0 {
                        proof {
                            assert(chunk_walk(
                                body@,
                                j + 2 + sz + 2,
                                sz as int,
                                first@,
                            ) == Some(first@));
                        }
                        return Some(first);
                    }
                    if (j as u128) + 4 + (sz as u128) > (usize::MAX as u128) {
                        proof {
                            let szi = sz as int;
                            let rest = body@.subrange(j + 2, body@.len() as int);
                            assert(j + 2 + szi + 2 > usize::MAX);
                            assert(body@.len() <= usize::MAX);
                            assert(chunk_walk(
                                body@,
                                j + 2 + szi + 2,
                                szi,
                                rest.subrange(0, szi),
                            ) == Some(rest.subrange(0, szi)));
                            assert(first@ == rest.subrange(0, szi));
                        }
                        return Some(first);
                    }
                    walk_chunks(body, j + 2 + (sz as usize) + 2, sz, first)
                },
            }
        },
    }
}

} // verus!
