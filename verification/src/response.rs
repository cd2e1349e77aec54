//! What a handler answers, and the HTTP/1.1 message that each answer is
//! written as.

use crate::params::StringMap;
use vstd::prelude::*;
use vstd::string::*;
use vstd::utf8::encode_utf8;

verus! {

/// The answer of a handler.
#[derive(Debug)]
pub enum HttpResponse {
    /// A page, sent with status 200.
    OK(String),
    /// A permanent redirect to the given location.
    Redirect(String),
    /// The request was refused.
    Unauthorized,
    /// Nothing is served under the requested path.
    NotFound,
    /// A page with headers of its own, sent with status 200.
    OKWithHeader(String, StringMap),
}

/// What an `HttpResponse` stands for: its texts, and its headers in order.
pub enum HttpResponseView {
    OK(Seq<char>),
    Redirect(Seq<char>),
    Unauthorized,
    NotFound,
    OKWithHeader(Seq<char>, Seq<(Seq<char>, Seq<char>)>),
}

impl View for HttpResponse {
    type V = HttpResponseView;

    open spec fn view(&self) -> HttpResponseView {
        match self {
            HttpResponse::OK(body) => HttpResponseView::OK(body@),
            HttpResponse::Redirect(location) => HttpResponseView::Redirect(location@),
            HttpResponse::Unauthorized => HttpResponseView::Unauthorized,
            HttpResponse::NotFound => HttpResponseView::NotFound,
            HttpResponse::OKWithHeader(body, header) => HttpResponseView::OKWithHeader(
                body@,
                header.pairs(),
            ),
        }
    }
}

impl Clone for HttpResponse {
    fn clone(&self) -> (r: HttpResponse)
        ensures
            r@ == self@,
    {
        match self {
            HttpResponse::OK(body) => HttpResponse::OK(body.clone()),
            HttpResponse::Redirect(location) => HttpResponse::Redirect(location.clone()),
            HttpResponse::Unauthorized => HttpResponse::Unauthorized,
            HttpResponse::NotFound => HttpResponse::NotFound,
            HttpResponse::OKWithHeader(body, header) => HttpResponse::OKWithHeader(
                body.clone(),
                header.clone(),
            ),
        }
    }
}

/// The decimal digit of value `d`.
pub open spec fn digit(d: int) -> char {
    if d == 0 {
        '0'
    } else if d == 1 {
        '1'
    } else if d == 2 {
        '2'
    } else if d == 3 {
        '3'
    } else if d == 4 {
        '4'
    } else if d == 5 {
        '5'
    } else if d == 6 {
        '6'
    } else if d == 7 {
        '7'
    } else if d == 8 {
        '8'
    } else {
        '9'
    }
}

/// `n` in decimal notation, without leading zeros.
pub open spec fn decimal(n: nat) -> Seq<char>
    decreases n,
{
    if n < 10 {
        seq![digit(n as int)]
    } else {
        decimal(n / 10).push(digit((n % 10) as int))
    }
}

/// The number of bytes that `body` takes on the wire, in UTF-8.
pub open spec fn byte_length(body: Seq<char>) -> nat {
    encode_utf8(body).len()
}

/// The header lines of `pairs`: name, `:`, value and a line break for each,
/// in order.
pub open spec fn header_lines(pairs: Seq<(Seq<char>, Seq<char>)>) -> Seq<char>
    decreases pairs.len(),
{
    if pairs.len() == 0 {
        Seq::empty()
    } else {
        header_lines(pairs.drop_last()) + pairs.last().0 + seq![':'] + pairs.last().1
            + seq!['\r', '\n']
    }
}

/// The line that announces the length of `body`, the blank line after the
/// headers, and `body`.
pub open spec fn length_and_body(body: Seq<char>) -> Seq<char> {
    "Content-Length:"@ + decimal(byte_length(body)) + "\r\n\r\n"@ + body
}

/// The HTTP/1.1 message that `response` is written as, where `defaults` are
/// the headers that every page without headers of its own is sent with.
pub open spec fn wire_text(response: HttpResponseView, defaults: Seq<(Seq<char>, Seq<char>)>) -> Seq<
    char,
> {
    match response {
        HttpResponseView::OK(body) => "HTTP/1.1 200 OK\r\nContent-Type: text/html; charset=utf-8\r\n"@
            + header_lines(defaults) + length_and_body(body),
        HttpResponseView::OKWithHeader(body, headers) => "HTTP/1.1 200 OK\r\n"@ + header_lines(
            headers,
        ) + length_and_body(body),
        HttpResponseView::Redirect(location) => "HTTP/1.1 308 Permanent Redirect\r\nLocation:"@
            + location + "\r\n\r\n"@,
        HttpResponseView::Unauthorized => "HTTP/1.1 401 Unauthorized\r\n\r\n"@,
        HttpResponseView::NotFound => "HTTP/1.1 404 Not Found\r\nContent-Type: text/html; charset=utf-8\r\n"@
            + length_and_body("404 NOT FOUND"@),
    }
}

/// The body that `response` is sent with, if it is sent with one.
pub open spec fn body_of(response: HttpResponseView) -> Option<Seq<char>> {
    match response {
        HttpResponseView::OK(body) => Some(body),
        HttpResponseView::OKWithHeader(body, _) => Some(body),
        HttpResponseView::NotFound => Some("404 NOT FOUND"@),
        HttpResponseView::Redirect(_) => None,
        HttpResponseView::Unauthorized => None,
    }
}

/// The digit of value `d` as text.
pub fn digit_text(d: usize) -> (r: &'static str)
    requires
        d < 10,
    ensures
        r@ == seq![digit(d as int)],
{
    proof {
        reveal_strlit("0");
        reveal_strlit("1");
        reveal_strlit("2");
        reveal_strlit("3");
        reveal_strlit("4");
        reveal_strlit("5");
        reveal_strlit("6");
        reveal_strlit("7");
        reveal_strlit("8");
        reveal_strlit("9");
    }
    let r = if d == 0 {
        "0"
    } else if d == 1 {
        "1"
    } else if d == 2 {
        "2"
    } else if d == 3 {
        "3"
    } else if d == 4 {
        "4"
    } else if d == 5 {
        "5"
    } else if d == 6 {
        "6"
    } else if d == 7 {
        "7"
    } else if d == 8 {
        "8"
    } else {
        "9"
    };
    assert(r@ =~= seq![digit(d as int)]);
    r
}

/// `n` in decimal notation.
pub fn decimal_text(n: usize) -> (r: String)
    ensures
        r@ == decimal(n as nat),
    decreases n,
{
    if n < 10 {
        digit_text(n).to_owned()
    } else {
        let mut r = decimal_text(n / 10);
        r.append(digit_text(n % 10));
        r
    }
}

/// The header lines of `header`, in the order of its entries.
pub fn header_to_string(header: StringMap) -> (acc: String)
    ensures
        acc@ == header_lines(header.pairs()),
{
    let mut acc = String::new();
    let mut i: usize = 0;
    while i < header.len()
        invariant
            i <= header.pairs().len(),
            acc@ == header_lines(header.pairs().take(i as int)),
        decreases header.pairs().len() - i,
    {
        acc.append(header.key_at(i).as_str());
        acc.append(":");
        acc.append(header.value_at(i).as_str());
        acc.append("\r\n");
        proof {
            reveal_strlit(":");
            reveal_strlit("\r\n");
            let before = header.pairs().take(i as int);
            let now = header.pairs().take(i + 1);
            assert(now.drop_last() =~= before);
            assert(":"@ =~= seq![':']);
            assert("\r\n"@ =~= seq!['\r', '\n']);
        }
        i += 1;
    }
    assert(header.pairs().take(i as int) =~= header.pairs());
    acc
}

/// The line that announces the length of `body` in bytes, the blank line
/// after the headers, and `body`.
pub fn length_and_body_text(body: &String) -> (r: String)
    ensures
        r@ == length_and_body(body@),
{
    let mut r = "Content-Length:".to_owned();
    let bytes = body.as_str().as_bytes();
    assert(bytes@.len() == byte_length(body@));
    r.append(decimal_text(bytes.len()).as_str());
    r.append("\r\n\r\n");
    r.append(body.as_str());
    r
}

/// An outgoing message: the headers that a page without headers of its own
/// is sent with, and the text that was set for it.
#[derive(Debug)]
pub struct Response {
    pub response_text: String,
    pub header: StringMap,
}

impl Response {
    /// A message without text or headers.
    pub fn new() -> (r: Response)
        ensures
            r.response_text@ == Seq::<char>::empty(),
            r.header.pairs() == Seq::<(Seq<char>, Seq<char>)>::empty(),
    {
        Response { response_text: String::new(), header: StringMap::new() }
    }

    /// Sets the text of the message.
    pub fn set_resp(&mut self, msg: &str)
        ensures
            final(self).response_text@ == msg@,
            final(self).header == old(self).header,
    {
        self.response_text = msg.to_owned();
    }

    /// The HTTP/1.1 message that `response` is written as: status line,
    /// headers and, where the answer has a body, its length in bytes and the
    /// body.
    pub fn send(self, response: HttpResponse) -> (msg: String)
        ensures
            msg@ == wire_text(response@, self.header.pairs()),
    {
        match response {
            HttpResponse::OK(body) => {
                let mut msg =
                    "HTTP/1.1 200 OK\r\nContent-Type: text/html; charset=utf-8\r\n".to_owned();
                msg.append(header_to_string(self.header).as_str());
                msg.append(length_and_body_text(&body).as_str());
                msg
            },
            HttpResponse::OKWithHeader(body, header) => {
                let mut msg = "HTTP/1.1 200 OK\r\n".to_owned();
                msg.append(header_to_string(header).as_str());
                msg.append(length_and_body_text(&body).as_str());
                msg
            },
            HttpResponse::Redirect(location) => {
                let mut msg = "HTTP/1.1 308 Permanent Redirect\r\nLocation:".to_owned();
                msg.append(location.as_str());
                msg.append("\r\n\r\n");
                msg
            },
            HttpResponse::Unauthorized => "HTTP/1.1 401 Unauthorized\r\n\r\n".to_owned(),
            HttpResponse::NotFound => {
                let mut msg =
                    "HTTP/1.1 404 Not Found\r\nContent-Type: text/html; charset=utf-8\r\n".to_owned();
                msg.append(length_and_body_text(&"404 NOT FOUND".to_owned()).as_str());
                msg
            },
        }
    }
}

} // verus!
