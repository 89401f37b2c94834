//! Turning the bytes read off a connection into a `Request`.

use vstd::prelude::*;
use vstd::string::*;
use vstd::utf8::*;

verus! {

/// Served when the request targets the root path.
pub const DEFAULT_DOCUMENT: &'static str = "index.html";

/// Method assumed when the request line names none.
pub const DEFAULT_METHOD: &'static str = "GET";

/// Target assumed when the request line names none.
pub const ROOT_PATH: &'static str = "/";

/// The request line assumed when the text holds no line at all.
pub const EMPTY_REQUEST_LINE: &'static str = "GET /error.html";

/// At most this many bytes of a request are read.
pub const READ_BUFFER_SIZE: usize = 4096;

/// The method and path of one request.
pub struct Request {
    pub method: String,
    pub path: String,
}

/// The characters with Unicode's `White_Space` property.
pub open spec fn is_white_space(c: char) -> bool {
    let u = c as u32;
    ||| 0x9 <= u <= 0xd
    ||| u == 0x20
    ||| u == 0x85
    ||| u == 0xa0
    ||| u == 0x1680
    ||| 0x2000 <= u <= 0x200a
    ||| u == 0x2028
    ||| u == 0x2029
    ||| u == 0x202f
    ||| u == 0x205f
    ||| u == 0x3000
}

/// The maximal runs of non-white-space characters of `s`, in order, given
/// that `cur` is the part of a run that precedes `s`.
pub open spec fn words_from(s: Seq<char>, cur: Seq<char>) -> Seq<Seq<char>>
    decreases s.len(),
{
    if s.len() == 0 {
        if cur.len() == 0 { seq![] } else { seq![cur] }
    } else if is_white_space(s[0]) {
        let rest = words_from(s.drop_first(), seq![]);
        if cur.len() == 0 { rest } else { seq![cur] + rest }
    } else {
        words_from(s.drop_first(), cur.push(s[0]))
    }
}

/// The white-space separated words of `s`.
pub open spec fn words(s: Seq<char>) -> Seq<Seq<char>> {
    words_from(s, seq![])
}

/// The number of characters before the first line feed of `t`, or its length.
pub open spec fn line_end(t: Seq<char>) -> nat
    decreases t.len(),
{
    if t.len() == 0 || t[0] == '\n' {
        0
    } else {
        1 + line_end(t.drop_first())
    }
}

/// The first line of the request text; a trailing carriage return stays in
/// it and, being white space, is dropped by the split into words.
pub open spec fn request_line(text: Seq<char>) -> Seq<char> {
    if text.len() == 0 {
        EMPTY_REQUEST_LINE@
    } else {
        text.take(line_end(text) as int)
    }
}

pub open spec fn request_method(text: Seq<char>) -> Seq<char> {
    let w = words(request_line(text));
    if w.len() >= 1 { w[0] } else { DEFAULT_METHOD@ }
}

/// The request target as written, before the root is replaced.
pub open spec fn request_target(text: Seq<char>) -> Seq<char> {
    let w = words(request_line(text));
    if w.len() >= 2 { w[1] } else { ROOT_PATH@ }
}

pub open spec fn request_path(text: Seq<char>) -> Seq<char> {
    if request_target(text) == ROOT_PATH@ {
        DEFAULT_DOCUMENT@
    } else {
        request_target(text)
    }
}

/// The text that a byte buffer holds: empty where it is not valid UTF-8.
pub open spec fn request_text(raw: Seq<u8>) -> Seq<char> {
    if valid_utf8(raw) { decode_utf8(raw) } else { seq![] }
}

/// Relies on `std::str::from_utf8`: it accepts exactly the valid UTF-8
/// buffers and decodes them.
#[verifier::external_body]
fn decode_text(bytes: &[u8]) -> (r: Option<String>)
    ensures
        r is Some <==> valid_utf8(bytes@),
        r matches Some(s) ==> s@ == decode_utf8(bytes@),
{
    match std::str::from_utf8(bytes) {
        Ok(s) => Some(s.to_string()),
        Err(_) => None,
    }
}

pub fn is_white_space_char(c: char) -> (r: bool)
    ensures
        r == is_white_space(c),
{
    let u = c as u32;
    (0x9 <= u && u <= 0xd) || u == 0x20 || u == 0x85 || u == 0xa0 || u == 0x1680 || (0x2000
        <= u && u <= 0x200a) || u == 0x2028 || u == 0x2029 || u == 0x202f || u == 0x205f || u
        == 0x3000
}


/// The position of the first line feed of `text`, or its length.
fn first_line_end(text: &str) -> (e: usize)
    ensures
        e == line_end(text@),
        e <= text@.len(),
{
    let n = text.unicode_len();
    let mut i: usize = 0;
    assert(text@.subrange(0, n as int) =~= text@);
    while i < n && text.get_char(i) != '\n'
        invariant
            n == text@.len(),
            i <= n,
            line_end(text@) == i + line_end(text@.subrange(i as int, n as int)),
        decreases n - i,
    {
        assert(text@.subrange(i as int, n as int).drop_first() =~= text@.subrange(
            i + 1,
            n as int,
        ));
        i = i + 1;
    }
    i
}

/// The white-space separated words of `line`, in order.
pub fn split_words(line: &str) -> (out: Vec<String>)
    ensures
        out@.map_values(|w: String| w@) == words(line@),
{
    let n = line.unicode_len();
    let mut out: Vec<String> = Vec::new();
    let mut i: usize = 0;
    let mut start: usize = 0;
    let mut in_word = false;
    assert(line@.subrange(0, n as int) =~= line@);
    assert(out@.map_values(|w: String| w@) =~= Seq::<Seq<char>>::empty());
    while i < n
        invariant
            n == line@.len(),
            i <= n,
            start <= i,
            in_word ==> start < i,
            words(line@) == out@.map_values(|w: String| w@) + words_from(
                line@.subrange(i as int, n as int),
                if in_word { line@.subrange(start as int, i as int) } else { seq![] },
            ),
        decreases n - i,
    {
        let c = line.get_char(i);
        let ghost rest = line@.subrange(i as int, n as int);
        assert(rest.drop_first() =~= line@.subrange(i + 1, n as int));
        assert(rest[0] == c);
        if is_white_space_char(c) {
            if in_word {
                let w = line.substring_char(start, i).to_owned();
                let ghost before = out@.map_values(|w: String| w@);
                out.push(w);
                assert(out@.map_values(|w: String| w@) =~= before.push(w@));
                assert(before.push(w@) + words_from(line@.subrange(i + 1, n as int), seq![])
                    =~= before + (seq![w@] + words_from(line@.subrange(i + 1, n as int), seq![])));
                in_word = false;
            }
        } else {
            if !in_word {
                start = i;
                in_word = true;
                assert(line@.subrange(start as int, i as int) =~= Seq::<char>::empty());
            }
            assert(line@.subrange(start as int, i as int).push(c) =~= line@.subrange(
                start as int,
                i + 1,
            ));
        }
        i = i + 1;
    }
    assert(line@.subrange(n as int, n as int) =~= Seq::<char>::empty());
    if in_word {
        let w = line.substring_char(start, n).to_owned();
        let ghost before = out@.map_values(|w: String| w@);
        out.push(w);
        assert(out@.map_values(|w: String| w@) =~= before + seq![w@]);
    } else {
        assert(out@.map_values(|w: String| w@) =~= out@.map_values(|w: String| w@) + seq![]);
    }
    out
}


/// Parses the request line of `text` into a method and a path.
pub fn parse_request_text(text: &str) -> (r: Request)
    ensures
        r.method@ == request_method(text@),
        r.path@ == request_path(text@),
{
    let w = if text.unicode_len() == 0 {
        split_words(EMPTY_REQUEST_LINE)
    } else {
        let e = first_line_end(text);
        split_words(text.substring_char(0, e))
    };
    assert(text@.len() != 0 ==> text@.subrange(0, line_end(text@) as int) =~= text@.take(
        line_end(text@) as int,
    ));
    let ghost ws = w@.map_values(|s: String| s@);
    assert(ws == words(request_line(text@)));
    let method = if w.len() >= 1 {
        assert(ws[0] == w@[0]@);
        w[0].clone()
    } else {
        DEFAULT_METHOD.to_owned()
    };
    let target = if w.len() >= 2 {
        assert(ws[1] == w@[1]@);
        w[1].clone()
    } else {
        ROOT_PATH.to_owned()
    };
    proof {
        reveal_strlit("/");
    }
    let t = target.as_str();
    let is_root = t.unicode_len() == 1 && t.get_char(0) == '/';
    assert(is_root <==> target@ =~= ROOT_PATH@);
    let path = if is_root {
        DEFAULT_DOCUMENT.to_owned()
    } else {
        target
    };
    Request { method, path }
}

/// Parses a request from the bytes read off a connection; bytes that are
/// not valid UTF-8 count as an empty request.
pub fn parse_request(raw: &[u8]) -> (r: Request)
    ensures
        r.method@ == request_method(request_text(raw@)),
        r.path@ == request_path(request_text(raw@)),
{
    match decode_text(raw) {
        Some(text) => parse_request_text(text.as_str()),
        None => {
            proof {
                reveal_strlit("");
            }
            assert(""@ =~= Seq::<char>::empty());
            parse_request_text("")
        },
    }
}


proof fn lemma_line_end_of_prefix(a: Seq<char>, b: Seq<char>)
    requires
        forall|i: int| 0 <= i < a.len() ==> a[i] != '\n',
        b.len() == 0 || b[0] == '\n',
    ensures
        line_end(a + b) == a.len(),
    decreases a.len(),
{
    if a.len() > 0 {
        assert((a + b).drop_first() =~= a.drop_first() + b);
        lemma_line_end_of_prefix(a.drop_first(), b);
    } else {
        assert(a + b =~= b);
    }
}

proof fn lemma_words_through_run(a: Seq<char>, s: Seq<char>, cur: Seq<char>)
    requires
        forall|i: int| 0 <= i < a.len() ==> !is_white_space(a[i]),
    ensures
        words_from(a + s, cur) == words_from(s, cur + a),
    decreases a.len(),
{
    if a.len() == 0 {
        assert(a + s =~= s);
        assert(cur + a =~= cur);
    } else {
        assert((a + s).drop_first() =~= a.drop_first() + s);
        assert(cur.push(a[0]) + a.drop_first() =~= cur + a);
        lemma_words_through_run(a.drop_first(), s, cur.push(a[0]));
    }
}

/// A request whose first line is `<M> / HTTP/1.1`, for any method token
/// `M`, is a request for the default document.
pub proof fn lemma_root_request_serves_default_document(raw: Seq<u8>, m: Seq<char>, rest: Seq<char>)
    requires
        m.len() > 0,
        forall|i: int| 0 <= i < m.len() ==> !is_white_space(m[i]),
        rest.len() == 0 || rest[0] == '\n' || (rest.len() >= 2 && rest[0] == '\r' && rest[1]
            == '\n'),
        valid_utf8(raw),
        decode_utf8(raw) == m + " / HTTP/1.1"@ + rest,
    ensures
        request_path(request_text(raw)) == DEFAULT_DOCUMENT@,
{
    reveal_strlit(" / HTTP/1.1");
    reveal_strlit("/");
    let text = request_text(raw);
    let lit = " / HTTP/1.1"@;
    assert(forall|i: int| 0 <= i < m.len() ==> m[i] != '\n') by {
        assert forall|i: int| 0 <= i < m.len() implies m[i] != '\n' by {
            if m[i] == '\n' {
                assert(is_white_space(m[i]));
            }
        }
    }
    let line = if rest.len() > 0 && rest[0] == '\r' {
        m + lit + seq!['\r']
    } else {
        m + lit
    };
    let after = if rest.len() > 0 && rest[0] == '\r' {
        rest.drop_first()
    } else {
        rest
    };
    assert(text =~= line + after);
    assert(forall|i: int| 0 <= i < line.len() ==> line[i] != '\n');
    lemma_line_end_of_prefix(line, after);
    assert(request_line(text) =~= line);
    let tail = line.subrange(m.len() as int + 1, line.len() as int);
    assert(line =~= m + (seq![' '] + tail));
    lemma_words_through_run(m, seq![' '] + tail, seq![]);
    assert(Seq::<char>::empty() + m =~= m);
    assert((seq![' '] + tail).drop_first() =~= tail);
    let tail2 = line.subrange(m.len() as int + 2, line.len() as int);
    assert(tail =~= seq!['/'] + tail2);
    lemma_words_through_run(seq!['/'], tail2, seq![]);
    assert(Seq::<char>::empty() + seq!['/'] =~= seq!['/']);
    assert(tail2[0] == ' ');
    assert(words(line) =~= seq![m] + (seq![seq!['/']] + words_from(tail2.drop_first(), seq![])));
    assert(ROOT_PATH@ =~= seq!['/']);
}

/// Where the first line has fewer than two words the path is the default
/// document, and where it has none the method is the default one.
pub proof fn lemma_short_request_line_defaults(raw: Seq<u8>)
    requires
        words(request_line(request_text(raw))).len() < 2,
    ensures
        request_path(request_text(raw)) == DEFAULT_DOCUMENT@,
        words(request_line(request_text(raw))).len() == 0 ==> request_method(request_text(raw))
            == DEFAULT_METHOD@,
{
}

} // verus!
