//! Laying out the bytes of a response: status line, the two headers, a blank
//! line, then the body.

use vstd::prelude::*;
use vstd::string::*;
use vstd::utf8::*;

verus! {

/// The characters `'0'` to `'9'`, in order.
pub const DIGITS: &'static str = "0123456789";

/// The decimal digit for `d`, which is below ten.
pub open spec fn digit_char(d: nat) -> char {
    DIGITS@[d as int]
}

/// `n` written in decimal, without leading zeros.
pub open spec fn decimal(n: nat) -> Seq<char>
    decreases n,
{
    if n < 10 {
        seq![digit_char(n)]
    } else {
        decimal(n / 10).push(digit_char(n % 10))
    }
}

/// The value of a string of decimal digits.
pub open spec fn decimal_value(s: Seq<char>) -> nat
    decreases s.len(),
{
    if s.len() == 0 {
        0
    } else {
        decimal_value(s.drop_last()) * 10 + ((s.last() as u32 - '0' as u32) as nat)
    }
}

/// The response header for a body of `n` bytes of type `mime`, blank line
/// included.
pub open spec fn response_header(mime: Seq<char>, n: nat) -> Seq<char> {
    "HTTP/1.1 200 OK\r\nContent-Type: "@ + mime + "\r\nContent-Length: "@ + decimal(n)
        + "\r\n\r\n"@
}

/// The bytes of the whole response.
pub open spec fn response(mime: Seq<char>, body: Seq<u8>) -> Seq<u8> {
    encode_utf8(response_header(mime, body.len())) + body
}

/// `n` in decimal.
pub fn decimal_text(n: usize) -> (r: String)
    ensures
        r@ == decimal(n as nat),
{
    proof {
        reveal_strlit("0123456789");
    }
    if n < 10 {
        return DIGITS.substring_char(n, n + 1).to_owned();
    }
    let mut m: usize = n;
    let mut s = String::new();
    assert(s@ =~= Seq::<char>::empty());
    assert(decimal(n as nat) =~= decimal(n as nat) + s@);
    while m > 0
        invariant
            m > 0 ==> decimal(n as nat) == decimal(m as nat) + s@,
            m == 0 ==> decimal(n as nat) == s@,
        decreases m,
    {
        let d = m % 10;
        proof {
            reveal_strlit("0123456789");
        }
        let mut t = DIGITS.substring_char(d, d + 1).to_owned();
        assert(t@ =~= seq![digit_char(d as nat)]);
        let ghost old_s = s@;
        t.append(s.as_str());
        s = t;
        if m / 10 > 0 {
            assert(decimal(m as nat) == decimal((m / 10) as nat).push(digit_char(d as nat)));
            assert(decimal((m / 10) as nat).push(digit_char(d as nat)) + old_s =~= decimal(
                (m / 10) as nat,
            ) + s@);
        }
        m = m / 10;
    }
    s
}


/// The response header for a body of `len` bytes of type `mime`.
pub fn response_header_text(mime: &str, len: usize) -> (r: String)
    ensures
        r@ == response_header(mime@, len as nat),
{
    let mut s = "HTTP/1.1 200 OK\r\nContent-Type: ".to_owned();
    s.append(mime);
    s.append("\r\nContent-Length: ");
    let digits = decimal_text(len);
    s.append(digits.as_str());
    s.append("\r\n\r\n");
    s
}

/// The bytes written back for a body of type `mime`: the header, then the
/// body unchanged.
pub fn serialize_response(mime: &str, body: &[u8]) -> (r: Vec<u8>)
    ensures
        r@ == response(mime@, body@),
{
    let header = response_header_text(mime, body.len());
    let mut out = vstd::slice::slice_to_vec(header.as_str().as_bytes());
    let ghost head = out@;
    let mut i: usize = 0;
    while i < body.len()
        invariant
            i <= body@.len(),
            out@ == head + body@.subrange(0, i as int),
        decreases body@.len() - i,
    {
        out.push(body[i]);
        assert(head + body@.subrange(0, i + 1) =~= (head + body@.subrange(0, i as int)).push(
            body@[i as int],
        ));
        i = i + 1;
    }
    assert(body@.subrange(0, body@.len() as int) =~= body@);
    out
}


proof fn lemma_digit_value(d: nat)
    requires
        d < 10,
    ensures
        '0' <= digit_char(d) <= '9',
        (digit_char(d) as u32 - '0' as u32) as nat == d,
{
    reveal_strlit("0123456789");
    assert(DIGITS@ =~= seq!['0', '1', '2', '3', '4', '5', '6', '7', '8', '9']);
    if d == 0 {
    } else if d == 1 {
    } else if d == 2 {
    } else if d == 3 {
    } else if d == 4 {
    } else if d == 5 {
    } else if d == 6 {
    } else if d == 7 {
    } else if d == 8 {
    } else {
    }
}

proof fn lemma_decimal_reads_back(n: nat)
    ensures
        decimal(n).len() > 0,
        forall|i: int| 0 <= i < decimal(n).len() ==> '0' <= #[trigger] decimal(n)[i] <= '9',
        decimal_value(decimal(n)) == n,
    decreases n,
{
    reveal_strlit("0123456789");
    if n < 10 {
        lemma_digit_value(n);
        assert(decimal(n).drop_last() =~= Seq::<char>::empty());
        assert(decimal_value(decimal(n)) == decimal_value(Seq::<char>::empty()) * 10 + ((
        digit_char(n) as u32 - '0' as u32) as nat));
    } else {
        lemma_decimal_reads_back(n / 10);
        lemma_digit_value(n % 10);
        let d = decimal(n);
        assert(d.drop_last() =~= decimal(n / 10));
        assert(d.last() == digit_char(n % 10));
        assert(decimal_value(d) == decimal_value(decimal(n / 10)) * 10 + ((digit_char(n % 10)
            as u32 - '0' as u32) as nat));
        assert((n / 10) * 10 + n % 10 == n) by (nonlinear_arith);
    }
}

/// Every response carries a `Content-Length` header whose digits read back as
/// the body's length; the header's first blank line is its last line; and
/// what follows the header is exactly the body.
pub proof fn lemma_content_length_round_trip(mime: Seq<char>, body: Seq<u8>)
    requires
        forall|i: int| 0 <= i < mime.len() ==> mime[i] != '\r',
    ensures
        ({
            let h = response_header(mime, body.len());
            let v = decimal(body.len());
            &&& exists|k: int|
                0 <= k && k + 18 + v.len() <= h.len() && #[trigger] h.subrange(
                    k,
                    k + 18 + v.len(),
                ) == "Content-Length: "@ + v + "\r\n"@
            &&& forall|i: int| 0 <= i < v.len() ==> '0' <= #[trigger] v[i] <= '9'
            &&& decimal_value(v) == body.len()
            &&& h.len() >= 4 && h.subrange(h.len() - 4, h.len() as int) == "\r\n\r\n"@
            &&& forall|j: int|
                0 <= j < h.len() - 4 ==> !(#[trigger] h[j] == '\r' && h[j + 1] == '\n' && h[j
                    + 2] == '\r' && h[j + 3] == '\n')
            &&& response(mime, body).subrange(
                encode_utf8(h).len() as int,
                response(mime, body).len() as int,
            ) == body
            &&& response(mime, body).len() - encode_utf8(h).len() == body.len()
        }),
{
    reveal_strlit("HTTP/1.1 200 OK\r\nContent-Type: ");
    reveal_strlit("\r\nContent-Length: ");
    reveal_strlit("Content-Length: ");
    reveal_strlit("\r\n\r\n");
    reveal_strlit("\r\n");
    let n = body.len();
    let h = response_header(mime, n);
    let v = decimal(n);
    lemma_decimal_reads_back(n);
    let a = "HTTP/1.1 200 OK\r\nContent-Type: "@;
    let b = "\r\nContent-Length: "@;
    let c = "\r\n\r\n"@;
    assert(a.len() == 31);
    assert(b.len() == 18);
    let m = mime.len() as int;
    let k = 31 + m + 2;
    assert(h.subrange(k, k + 18 + v.len()) =~= "Content-Length: "@ + v + "\r\n"@);
    assert(h.subrange(h.len() - 4, h.len() as int) =~= c);
    assert forall|j: int| 0 <= j < h.len() - 4 implies !(#[trigger] h[j] == '\r' && h[j + 1]
        == '\n' && h[j + 2] == '\r' && h[j + 3] == '\n') by {
        if j < 31 {
            if j != 15 {
                assert(h[j] == a[j]);
            } else {
                assert(h[j + 2] == a[17]);
            }
        } else if j < 31 + m {
            assert(h[j] == mime[j - 31]);
        } else if j < 49 + m {
            if j != 31 + m {
                assert(h[j] == b[j - 31 - m]);
            } else {
                assert(h[j + 2] == b[2]);
            }
        } else {
            assert(h[j] == v[j - 49 - m]);
        }
    }
    let r = response(mime, body);
    assert(r.subrange(encode_utf8(h).len() as int, r.len() as int) =~= body);
}

} // verus!
