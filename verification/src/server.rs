//! One exchange on a connection: from the bytes that were read to the
//! message that is written back.

use crate::parser::{parse_req, parsed};
use crate::request::Request;
use crate::response::{wire_text, HttpResponse, HttpResponseView, Response};
use crate::router::Router;
use vstd::prelude::*;
use vstd::utf8::{decode_utf8, valid_utf8};

verus! {

/// The number of bytes that are read of a request; what a client sends
/// beyond them is not looked at.
pub const REQUEST_BUFFER_SIZE: usize = 16384;

/// The byte `%`, which introduces an escape.
pub const PERCENT: u8 = 37;

/// A hexadecimal digit of ASCII: `0` to `9`, `A` to `F` or `a` to `f`.
pub open spec fn is_hex_digit(b: u8) -> bool {
    (48 <= b && b <= 57) || (65 <= b && b <= 70) || (97 <= b && b <= 102)
}

/// The value of a hexadecimal digit.
pub open spec fn hex_value(b: u8) -> int {
    if 48 <= b && b <= 57 {
        b - 48
    } else if 65 <= b && b <= 70 {
        b - 55
    } else {
        b - 87
    }
}

/// An escape stands in `data` at position `i`: a `%` and two hexadecimal
/// digits.
pub open spec fn escape_at(data: Seq<u8>, i: int) -> bool {
    &&& 0 <= i
    &&& i + 2 < data.len()
    &&& data[i] == PERCENT
    &&& is_hex_digit(data[i + 1])
    &&& is_hex_digit(data[i + 2])
}

/// The bytes of `data` from position `from` on with every escape replaced by
/// the byte that its two digits denote; every other byte stays, also a `%`
/// that no two hexadecimal digits follow.
pub open spec fn percent_decoded_from(data: Seq<u8>, from: int) -> Seq<u8>
    decreases data.len() - from,
{
    if from < 0 || from >= data.len() {
        Seq::empty()
    } else if escape_at(data, from) {
        seq![(hex_value(data[from + 1]) * 16 + hex_value(data[from + 2])) as u8]
            + percent_decoded_from(data, from + 3)
    } else {
        seq![data[from]] + percent_decoded_from(data, from + 1)
    }
}

/// `data` with its percent escapes decoded.
pub open spec fn percent_decoded(data: Seq<u8>) -> Seq<u8> {
    percent_decoded_from(data, 0)
}

/// What `String::from_utf8_lossy` makes of `bytes`.
pub uninterp spec fn utf8_lossy(bytes: Seq<u8>) -> Seq<char>;

/// The text that the bytes `raw` of a request are read as: percent escapes
/// are decoded first; the result is read as UTF-8 where it is valid, and
/// else as `String::from_utf8_lossy` reads it.
pub open spec fn text_of(raw: Seq<u8>) -> Seq<char> {
    let decoded = percent_decoded(raw);
    if valid_utf8(decoded) {
        decode_utf8(decoded)
    } else {
        utf8_lossy(decoded)
    }
}

/// Bytes without a `%` decode to themselves.
pub proof fn lemma_plain_bytes_stay(data: Seq<u8>, from: int)
    requires
        0 <= from <= data.len(),
        !data.contains(PERCENT),
    ensures
        percent_decoded_from(data, from) == data.skip(from),
    decreases data.len() - from,
{
    if from < data.len() {
        assert(data.contains(data[from]));
        lemma_plain_bytes_stay(data, from + 1);
        assert(seq![data[from]] + data.skip(from + 1) =~= data.skip(from));
    } else {
        assert(data.skip(from) =~= Seq::<u8>::empty());
    }
}

/// Bytes without a `%` that are valid UTF-8 are read as the text that they
/// encode.
pub proof fn law_plain_text_is_read_as_it_is(raw: Seq<u8>)
    requires
        !raw.contains(PERCENT),
        valid_utf8(raw),
    ensures
        percent_decoded(raw) == raw,
        text_of(raw) == decode_utf8(raw),
{
    lemma_plain_bytes_stay(raw, 0);
    assert(raw.skip(0) =~= raw);
}

/// Calls `urlencoding::decode_binary`, which replaces each `%` that two
/// hexadecimal digits follow by the byte that they denote and leaves every
/// other byte as it is.
#[verifier::external_body]
fn percent_decode(data: &[u8]) -> (decoded: Vec<u8>)
    ensures
        decoded@ == percent_decoded(data@),
{
    urlencoding::decode_binary(data).into_owned()
}

/// Calls `String::from_utf8_lossy`, which reads `bytes` as UTF-8 and puts
/// U+FFFD in the place of what is not. Bytes that are valid UTF-8 give the
/// text that they encode.
#[verifier::external_body]
fn lossy_text(bytes: &[u8]) -> (text: String)
    ensures
        text@ == utf8_lossy(bytes@),
        valid_utf8(bytes@) ==> text@ == decode_utf8(bytes@),
{
    String::from_utf8_lossy(bytes).into_owned()
}

/// The text of a request as it was read from a connection: percent escapes
/// are decoded first, then the bytes are read as UTF-8, lossily. Bytes
/// without a `%` that are valid UTF-8 give the text that they encode.
pub fn decode_request(raw: &[u8]) -> (text: String)
    ensures
        text@ == text_of(raw@),
        text@ == utf8_lossy(percent_decoded(raw@)),
        !raw@.contains(PERCENT) && valid_utf8(raw@) ==> text@ == decode_utf8(raw@),
{
    let decoded = percent_decode(raw);
    proof {
        if !raw@.contains(PERCENT) && valid_utf8(raw@) {
            law_plain_text_is_read_as_it_is(raw@);
        }
    }
    lossy_text(decoded.as_slice())
}

/// `msg` is the message that answers the text `text` of a connection: for a
/// text that holds no request the message of `NotFound`, else the message of
/// what the router answers to the request that the text holds.
pub open spec fn responded<H: Fn(Request) -> HttpResponse, G: Fn(Request) -> Option<Request>>(
    router: &Router<H, G>,
    text: Seq<char>,
    msg: Seq<char>,
) -> bool {
    match parsed(text) {
        None => msg == wire_text(HttpResponseView::NotFound, Seq::empty()),
        Some(view) => exists|request: Request, res: HttpResponse|
            request@ == view && router.routed(request, res) && msg == wire_text(
                res@,
                Seq::empty(),
            ),
    }
}

/// Answers `request` through `router` and writes the answer as the message
/// `response`.
pub fn route<H: Fn(Request) -> HttpResponse, G: Fn(Request) -> Option<Request>>(
    request: Request,
    response: Response,
    router: &Router<H, G>,
) -> (msg: String)
    requires
        router.callable(),
    ensures
        exists|res: HttpResponse|
            router.routed(request, res) && msg@ == wire_text(res@, response.header.pairs()),
{
    let res = router.route(request);
    let msg = response.send(res);
    assert(router.routed(request, res) && msg@ == wire_text(res@, response.header.pairs()));
    msg
}

/// Answers the text of a connection: parses it, routes the request and
/// writes the answer as a message. A text that holds no request is answered
/// with the message of `NotFound`.
pub fn respond<H: Fn(Request) -> HttpResponse, G: Fn(Request) -> Option<Request>>(
    text: &str,
    router: &Router<H, G>,
) -> (msg: String)
    requires
        router.callable(),
    ensures
        responded(router, text@, msg@),
{
    match parse_req(text) {
        Some(request) => {
            let ghost given = request;
            let msg = route(request, Response::new(), router);
            proof {
                let res = choose|res: HttpResponse|
                    router.routed(given, res) && msg@ == wire_text(res@, Seq::empty());
                assert(given@ == parsed(text@).unwrap() && router.routed(given, res) && msg@
                    == wire_text(res@, Seq::empty()));
            }
            msg
        },
        None => Response::new().send(HttpResponse::NotFound),
    }
}

/// Answers the bytes that were read from a connection: the message answers
/// the text that the bytes are read as, which for bytes without a `%` that
/// are valid UTF-8 is the text that they encode.
pub fn respond_to_bytes<H: Fn(Request) -> HttpResponse, G: Fn(Request) -> Option<Request>>(
    raw: &[u8],
    router: &Router<H, G>,
) -> (msg: String)
    requires
        router.callable(),
    ensures
        responded(router, text_of(raw@), msg@),
        !raw@.contains(PERCENT) && valid_utf8(raw@) ==> responded(
            router,
            decode_utf8(raw@),
            msg@,
        ),
{
    let text = decode_request(raw);
    respond(text.as_str(), router)
}

/// How the read of a connection ended.
pub enum Reading {
    /// These bytes were read.
    Received(Vec<u8>),
    /// The transport failed.
    Failed,
}

/// What to do with a connection after the read.
pub enum Reply {
    /// Write this message, then close the connection.
    Write(String),
    /// Close the connection without an answer.
    Drop,
}

/// The bytes of a request that are looked at: the first
/// `REQUEST_BUFFER_SIZE`, or all where there are fewer.
pub open spec fn within_buffer(raw: Seq<u8>) -> Seq<u8> {
    if raw.len() > REQUEST_BUFFER_SIZE {
        raw.take(REQUEST_BUFFER_SIZE as int)
    } else {
        raw
    }
}

/// Decides on a connection after the read: a connection whose transport
/// failed is dropped, every other one gets the message that answers the
/// bytes that were read. What was read beyond the size of the buffer is cut
/// off, not refused. Where the bytes looked at hold no `%` and are valid
/// UTF-8, the message answers the text that they encode.
pub fn exchange<H: Fn(Request) -> HttpResponse, G: Fn(Request) -> Option<Request>>(
    reading: Reading,
    router: &Router<H, G>,
) -> (reply: Reply)
    requires
        router.callable(),
    ensures
        match reading {
            Reading::Failed => reply is Drop,
            Reading::Received(raw) => reply matches Reply::Write(msg) && responded(
                router,
                text_of(within_buffer(raw@)),
                msg@,
            ) && (!within_buffer(raw@).contains(PERCENT) && valid_utf8(within_buffer(raw@))
                ==> responded(router, decode_utf8(within_buffer(raw@)), msg@)),
        },
{
    match reading {
        Reading::Received(raw) => {
            let ghost read = raw@;
            let mut raw = raw;
            raw.truncate(REQUEST_BUFFER_SIZE);
            assert(raw@ =~= within_buffer(read));
            Reply::Write(respond_to_bytes(raw.as_slice(), router))
        },
        Reading::Failed => Reply::Drop,
    }
}

} // verus!
