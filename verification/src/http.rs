//! Pure part of the connection handler: request-line dispatch and
//! response assembly. Reading the request line and writing the response
//! back are the caller's concern — as is the artificial delay of the
//! sleep route — so this module only decides and formats.

use vstd::prelude::*;
use vstd::string::StringExecFns;
use vstd::string::StringSliceAdditionalSpecFns;

verus! {

/// Outcome of matching one request line against the two literal routes.
#[derive(Clone, Copy, PartialEq, Eq, Debug, Structural)]
pub enum RouteKind {
    /// `GET / HTTP/1.1`: the greeting page.
    Root,
    /// `GET /sleep HTTP/1.1`: the greeting page after an artificial
    /// multi-second delay, used to exercise worker concurrency.
    Sleep,
    /// Anything else: not found.
    NotFound,
}

/// Byte-slice equality, element by element.
fn bytes_eq(a: &[u8], b: &[u8]) -> (r: bool)
    ensures
        r == (a@ == b@),
{
    if a.len() != b.len() {
        return false;
    }
    let n = a.len();
    let mut i: usize = 0;
    while i < n
        invariant
            i <= n,
            n == a@.len(),
            n == b@.len(),
            forall|k: int| 0 <= k < i ==> a@[k] == b@[k],
        decreases n - i,
    {
        if a[i] != b[i] {
            return false;
        }
        i = i + 1;
    }
    proof {
        assert(a@ =~= b@);
    }
    true
}

/// String equality through the bytes of the UTF-8 encoding, which
/// determine the characters.
fn str_eq(a: &str, b: &str) -> (r: bool)
    ensures
        r == (a@ == b@),
{
    let r = bytes_eq(a.as_bytes(), b.as_bytes());
    proof {
        if a.spec_bytes() == b.spec_bytes() {
            vstd::utf8::encode_utf8_decode_utf8(a@);
            vstd::utf8::encode_utf8_decode_utf8(b@);
        }
    }
    r
}

/// Exact-match dispatch over the two literal routes, with a catch-all.
pub fn route(line: &str) -> (r: RouteKind)
    ensures
        (r == RouteKind::Root) == (line@ == "GET / HTTP/1.1"@),
        (r == RouteKind::Sleep) == (line@ == "GET /sleep HTTP/1.1"@),
        (r == RouteKind::NotFound) == (line@ != "GET / HTTP/1.1"@ && line@ != "GET /sleep HTTP/1.1"@),
{
    proof {
        reveal_strlit("GET / HTTP/1.1");
        reveal_strlit("GET /sleep HTTP/1.1");
        assert("GET / HTTP/1.1"@.len() != "GET /sleep HTTP/1.1"@.len());
    }
    if str_eq(line, "GET / HTTP/1.1") {
        RouteKind::Root
    } else if str_eq(line, "GET /sleep HTTP/1.1") {
        RouteKind::Sleep
    } else {
        RouteKind::NotFound
    }
}

/// Status line of the response for each route.
pub fn status_line(kind: RouteKind) -> (r: &'static str)
    ensures
        kind != RouteKind::NotFound ==> r@ == "HTTP/1.1 200 OK"@,
        kind == RouteKind::NotFound ==> r@ == "HTTP/1.1 404 Not Found"@,
{
    match kind {
        RouteKind::NotFound => "HTTP/1.1 404 Not Found",
        _ => "HTTP/1.1 200 OK",
    }
}

/// Name of the static file served for each route.
pub fn file_name(kind: RouteKind) -> (r: &'static str)
    ensures
        kind != RouteKind::NotFound ==> r@ == "hello.html"@,
        kind == RouteKind::NotFound ==> r@ == "404.html"@,
{
    match kind {
        RouteKind::NotFound => "404.html",
        _ => "hello.html",
    }
}

/// Whether the route calls for the artificial delay before responding.
pub fn needs_delay(kind: RouteKind) -> (r: bool)
    ensures
        r == (kind == RouteKind::Sleep),
{
    match kind {
        RouteKind::Sleep => true,
        _ => false,
    }
}

/// The character of one decimal digit.
pub open spec fn digit_char(d: nat) -> char {
    if d == 0 {
        '0'
    } else if d == 1 {
        '1'
    } else if d == 2 {
        '2'
    } else if d == 3 {
        '3'
    } else if d == 4 {
        '4'
    } else if d == 5 {
        '5'
    } else if d == 6 {
        '6'
    } else if d == 7 {
        '7'
    } else if d == 8 {
        '8'
    } else {
        '9'
    }
}

/// Decimal digits of `n`, most significant first, no leading zeros
/// (except for `n` zero itself).
pub open spec fn dec_digits(n: nat) -> Seq<char>
    decreases n,
{
    if n < 10 {
        seq![digit_char(n)]
    } else {
        dec_digits(n / 10).push(digit_char(n % 10))
    }
}

fn digit_string(d: usize) -> (r: String)
    requires
        d < 10,
    ensures
        r@ == seq![digit_char(d as nat)],
{
    let s: &str = match d {
        0 => "0",
        1 => "1",
        2 => "2",
        3 => "3",
        4 => "4",
        5 => "5",
        6 => "6",
        7 => "7",
        8 => "8",
        _ => "9",
    };
    proof {
        reveal_strlit("0");
        reveal_strlit("1");
        reveal_strlit("2");
        reveal_strlit("3");
        reveal_strlit("4");
        reveal_strlit("5");
        reveal_strlit("6");
        reveal_strlit("7");
        reveal_strlit("8");
        reveal_strlit("9");
        assert(s@ =~= seq![digit_char(d as nat)]);
    }
    s.to_owned()
}

/// `n` written in decimal.
pub fn decimal_string(n: usize) -> (r: String)
    ensures
        r@ == dec_digits(n as nat),
    decreases n,
{
    if n < 10 {
        digit_string(n)
    } else {
        let mut s = decimal_string(n / 10);
        let last = digit_string(n % 10);
        s.append(last.as_str());
        proof {
            assert(s@ =~= dec_digits(n as nat));
        }
        s
    }
}

/// The whole response for a status line and a body: the status line,
/// a Content-Length header giving the byte length of the body's UTF-8
/// encoding, a blank line, and the body.
pub open spec fn response_view(status: Seq<char>, contents: Seq<char>) -> Seq<char> {
    status + "\r\nContent-Length: "@ + dec_digits(vstd::utf8::encode_utf8(contents).len()) + "\r\n\r\n"@
        + contents
}

/// Assembles the response for a status line and a body. The body's
/// encoding must fit the machine's length type, as any actual `str`
/// does.
pub fn build_response(status: &str, contents: &str) -> (r: String)
    requires
        contents.spec_bytes().len() <= usize::MAX,
    ensures
        r@ == response_view(status@, contents@),
{
    let len = contents.len();
    let mut r = status.to_owned();
    r.append("\r\nContent-Length: ");
    let digits = decimal_string(len);
    r.append(digits.as_str());
    r.append("\r\n\r\n");
    r.append(contents);
    proof {
        assert(r@ =~= response_view(status@, contents@));
    }
    r
}

} // verus!
