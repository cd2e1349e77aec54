//! The request parser: from the text of a connection to a `Request`.

use crate::params::pairs_to_map;
use crate::request::{Request, RequestView};
use crate::text::{
    chars_of, same_text, split_at_each, split_spans, spans_of, spans_within, substring,
};
use vstd::prelude::*;
use vstd::string::*;

verus! {

/// The kinds of character that the parser tells apart.
#[derive(Clone, Copy)]
pub enum CharClass {
    /// `A` to `Z`.
    Upper,
    /// A character with the Unicode property White_Space.
    Space,
    /// Anything but a space and the query delimiters `?` and `&`.
    Plain,
    /// A plain character other than `=`.
    Key,
}

/// A character with the Unicode property White_Space: what
/// `char::is_whitespace` holds.
pub open spec fn is_space(c: char) -> bool {
    ||| '\u{9}' <= c && c <= '\u{d}'
    ||| c == ' '
    ||| c == '\u{85}'
    ||| c == '\u{a0}'
    ||| c == '\u{1680}'
    ||| '\u{2000}' <= c && c <= '\u{200a}'
    ||| c == '\u{2028}'
    ||| c == '\u{2029}'
    ||| c == '\u{202f}'
    ||| c == '\u{205f}'
    ||| c == '\u{3000}'
}

/// `c` is of the kind `class`.
pub open spec fn in_class(c: char, class: CharClass) -> bool {
    match class {
        CharClass::Upper => 'A' <= c && c <= 'Z',
        CharClass::Space => is_space(c),
        CharClass::Plain => !is_space(c) && c != '?' && c != '&',
        CharClass::Key => !is_space(c) && c != '?' && c != '&' && c != '=',
    }
}

/// The position after the longest run of characters of `class` that begins
/// at `from`.
pub open spec fn run_end(s: Seq<char>, class: CharClass, from: int) -> int
    decreases s.len() - from,
{
    if 0 <= from < s.len() && in_class(s[from], class) {
        run_end(s, class, from + 1)
    } else {
        from
    }
}

/// A run ends at or after its start and inside the text; it holds only
/// characters of its class, and the character after it is of another.
pub proof fn lemma_run_end(s: Seq<char>, class: CharClass, from: int)
    requires
        0 <= from <= s.len(),
    ensures
        from <= run_end(s, class, from) <= s.len(),
        forall|k: int| from <= k < run_end(s, class, from) ==> in_class(#[trigger] s[k], class),
        run_end(s, class, from) < s.len() ==> !in_class(s[run_end(s, class, from)], class),
    decreases s.len() - from,
{
    if from < s.len() && in_class(s[from], class) {
        lemma_run_end(s, class, from + 1);
    }
}

/// Whether `c` is of the kind `class`.
pub fn belongs(c: char, class: CharClass) -> (b: bool)
    ensures
        b == in_class(c, class),
{
    let space = ('\u{9}' <= c && c <= '\u{d}') || c == ' ' || c == '\u{85}' || c == '\u{a0}' || c
        == '\u{1680}' || ('\u{2000}' <= c && c <= '\u{200a}') || c == '\u{2028}' || c
        == '\u{2029}' || c == '\u{202f}' || c == '\u{205f}' || c == '\u{3000}';
    match class {
        CharClass::Upper => 'A' <= c && c <= 'Z',
        CharClass::Space => space,
        CharClass::Plain => !space && c != '?' && c != '&',
        CharClass::Key => !space && c != '?' && c != '&' && c != '=',
    }
}

/// The position after the longest run of characters of `class` that begins
/// at `from`.
pub fn scan(text: &Vec<char>, class: CharClass, from: usize) -> (r: usize)
    requires
        from <= text@.len(),
    ensures
        r == run_end(text@, class, from as int),
        from <= r <= text@.len(),
{
    let mut i: usize = from;
    while i < text.len() && belongs(text[i], class)
        invariant
            from <= i <= text@.len(),
            run_end(text@, class, from as int) == run_end(text@, class, i as int),
        decreases text@.len() - i,
    {
        i += 1;
    }
    i
}

/// The verbs that the parser knows.
pub open spec fn is_verb(method: Seq<char>) -> bool {
    method == "GET"@ || method == "POST"@ || method == "PUT"@ || method == "DELETE"@
}

/// The position at which the method token begins: after the spaces that the
/// text begins with.
pub open spec fn method_start(s: Seq<char>) -> int {
    run_end(s, CharClass::Space, 0)
}

/// The position after the method token: the run of upper-case letters that
/// begins at the first character that is no space.
pub open spec fn method_end(s: Seq<char>) -> int {
    run_end(s, CharClass::Upper, method_start(s))
}

/// The method token.
pub open spec fn method_of(s: Seq<char>) -> Seq<char> {
    s.subrange(method_start(s), method_end(s))
}

/// The position at which the request target begins: after the spaces that
/// follow the method token.
pub open spec fn target_start(s: Seq<char>) -> int {
    run_end(s, CharClass::Space, method_end(s))
}

/// The position after the part of the request target that precedes the
/// first space or query delimiter.
pub open spec fn path_end(s: Seq<char>) -> int {
    run_end(s, CharClass::Plain, target_start(s))
}

/// The path of the request: the request target up to the first space or
/// query delimiter where the target begins with `/`, else `/`.
pub open spec fn path_of(s: Seq<char>) -> Seq<char> {
    let p = target_start(s);
    if 0 <= p < s.len() && s[p] == '/' {
        s.subrange(p, path_end(s))
    } else {
        seq!['/']
    }
}

/// The key and the value of the piece of `s` from `a` to `b`, which holds
/// plain characters only: the text before the first `=` and the text after
/// it, where neither is empty.
pub open spec fn pair_at(s: Seq<char>, a: int, b: int) -> Option<(Seq<char>, Seq<char>)> {
    let e = run_end(s, CharClass::Key, a);
    if a < e && e + 1 < b {
        Some((s.subrange(a, e), s.subrange(e + 1, b)))
    } else {
        None
    }
}

/// The query parameters from position `at` on, in the order in which the
/// text has them: each `?` or `&` introduces a piece of plain characters,
/// and a piece of the form key `=` value is a parameter.
pub open spec fn query_pairs(s: Seq<char>, at: int) -> Seq<(Seq<char>, Seq<char>)>
    decreases s.len() - at,
{
    if 0 <= at < s.len() && (s[at] == '?' || s[at] == '&') {
        let b = run_end(s, CharClass::Plain, at + 1);
        if b <= at || b > s.len() {
            Seq::empty()
        } else {
            match pair_at(s, at + 1, b) {
                Some(pair) => seq![pair] + query_pairs(s, b),
                None => query_pairs(s, b),
            }
        }
    } else {
        Seq::empty()
    }
}

/// The separator of lines.
pub open spec fn crlf() -> Seq<char> {
    seq!['\r', '\n']
}

/// The position of the first `:` of `s` from `a` to `b`, or `b` where there
/// is none.
pub open spec fn colon_index(s: Seq<char>, a: int, b: int) -> int
    decreases b - a,
{
    if a < b && s[a] != ':' {
        colon_index(s, a + 1, b)
    } else {
        a
    }
}

/// The position of the first character of `s` from `a` to `b` that is no
/// space, or `b` where there is none.
pub open spec fn trim_start(s: Seq<char>, a: int, b: int) -> int
    decreases b - a,
{
    if a < b && is_space(s[a]) {
        trim_start(s, a + 1, b)
    } else {
        a
    }
}

/// The position after the last character of `s` from `a` to `b` that is no
/// space, or `a` where there is none.
pub open spec fn trim_end(s: Seq<char>, a: int, b: int) -> int
    decreases b - a,
{
    if a < b && is_space(s[b - 1]) {
        trim_end(s, a, b - 1)
    } else {
        b
    }
}

/// The text of `s` from `a` to `b` without the spaces around it.
pub open spec fn trimmed(s: Seq<char>, a: int, b: int) -> Seq<char> {
    let start = trim_start(s, a, b);
    s.subrange(start, trim_end(s, start, b))
}

/// The header field of the line of `s` from `a` to `b`: the text before the
/// first `:` as the name and the text after it as the value, both trimmed.
/// A line without `:` holds no field.
pub open spec fn header_at(s: Seq<char>, a: int, b: int) -> Option<(Seq<char>, Seq<char>)> {
    let c = colon_index(s, a, b);
    if a <= c < b {
        Some((trimmed(s, a, c), trimmed(s, c + 1, b)))
    } else {
        None
    }
}

/// The header fields of the first `n` of the lines `spans`, in order.
pub open spec fn header_pairs(s: Seq<char>, spans: Seq<(int, int)>, n: int) -> Seq<
    (Seq<char>, Seq<char>),
>
    decreases n,
{
    if n <= 0 {
        Seq::empty()
    } else {
        let before = header_pairs(s, spans, n - 1);
        match header_at(s, spans[n - 1].0, spans[n - 1].1) {
            Some(pair) => before.push(pair),
            None => before,
        }
    }
}

/// The header fields of `s`: those of its lines, a later field of a name
/// replacing the earlier.
pub open spec fn headers_of(s: Seq<char>) -> Map<Seq<char>, Seq<char>> {
    let spans = split_spans(s, crlf(), 0);
    pairs_to_map(header_pairs(s, spans, spans.len() as int))
}

/// The query parameters of `s`: those that follow the path in the request
/// target, a later parameter of a key replacing the earlier.
pub open spec fn params_of(s: Seq<char>) -> Map<Seq<char>, Seq<char>> {
    pairs_to_map(query_pairs(s, path_end(s)))
}

/// The request that the text `s` holds, if its method token is a known
/// verb.
pub open spec fn parsed(s: Seq<char>) -> Option<RequestView> {
    if is_verb(method_of(s)) {
        Some(
            RequestView {
                path: path_of(s),
                method: method_of(s),
                params: params_of(s),
                url_params: Map::empty(),
                header: headers_of(s),
                complete_req: s,
            },
        )
    } else {
        None
    }
}

/// The separator of lines, as characters.
pub fn crlf_chars() -> (sep: Vec<char>)
    ensures
        sep@ == crlf(),
{
    let mut sep: Vec<char> = Vec::new();
    sep.push('\r');
    sep.push('\n');
    assert(sep@ =~= crlf());
    sep
}

/// The position of the first `:` of `text` from `a` to `b`, or `b`.
pub fn find_colon(text: &Vec<char>, a: usize, b: usize) -> (c: usize)
    requires
        a <= b <= text@.len(),
    ensures
        c == colon_index(text@, a as int, b as int),
        a <= c <= b,
{
    let mut c: usize = a;
    while c < b && text[c] != ':'
        invariant
            a <= c <= b <= text@.len(),
            colon_index(text@, a as int, b as int) == colon_index(text@, c as int, b as int),
        decreases b - c,
    {
        c += 1;
    }
    c
}

/// The span of `text` from `a` to `b` without the spaces around it.
pub fn trim_span(text: &Vec<char>, a: usize, b: usize) -> (r: (usize, usize))
    requires
        a <= b <= text@.len(),
    ensures
        r.0 == trim_start(text@, a as int, b as int),
        r.1 == trim_end(text@, r.0 as int, b as int),
        a <= r.0 <= r.1 <= b,
{
    let mut start: usize = a;
    while start < b && belongs(text[start], CharClass::Space)
        invariant
            a <= start <= b <= text@.len(),
            trim_start(text@, a as int, b as int) == trim_start(text@, start as int, b as int),
        decreases b - start,
    {
        start += 1;
    }
    let mut end: usize = b;
    while start < end && belongs(text[end - 1], CharClass::Space)
        invariant
            start <= end <= b <= text@.len(),
            trim_end(text@, start as int, b as int) == trim_end(text@, start as int, end as int),
        decreases end - start,
    {
        end -= 1;
    }
    (start, end)
}

/// Whether `method` is one of the verbs that the parser knows.
pub fn known_verb(method: &String) -> (b: bool)
    ensures
        b == is_verb(method@),
{
    same_text(method, &"GET".to_owned()) || same_text(method, &"POST".to_owned()) || same_text(
        method,
        &"PUT".to_owned(),
    ) || same_text(method, &"DELETE".to_owned())
}

/// Parses the text of a connection. The method is the run of upper-case
/// letters at the first character that is no space, and must be one of the
/// verbs GET, POST, PUT and DELETE. The path is what follows the verb up to
/// the next space or query delimiter, the query parameters are the
/// `key=value` pieces that follow a `?` or `&` of the request target, and
/// every line with a `:` gives a header field.
pub fn parse_req(req_as_str: &str) -> (r: Option<Request>)
    ensures
        match r {
            Some(request) => parsed(req_as_str@) == Some(request@),
            None => parsed(req_as_str@) is None,
        },
{
    let text = chars_of(req_as_str);
    let ghost s = req_as_str@;
    let m_start = scan(&text, CharClass::Space, 0);
    let m_end = scan(&text, CharClass::Upper, m_start);
    let method = substring(req_as_str, m_start, m_end);
    if !known_verb(&method) {
        return None;
    }
    let p = scan(&text, CharClass::Space, m_end);
    let q = scan(&text, CharClass::Plain, p);
    let path = if p < text.len() && text[p] == '/' {
        substring(req_as_str, p, q)
    } else {
        let root = "/".to_owned();
        proof {
            reveal_strlit("/");
            assert(root@ =~= seq!['/']);
        }
        root
    };
    let mut request = Request::new(path.as_str(), method.as_str(), req_as_str);

    let sep = crlf_chars();
    let lines = split_at_each(&text, &sep);
    let ghost spans = split_spans(s, crlf(), 0);
    let mut n: usize = 0;
    while n < lines.len()
        invariant
            n <= lines@.len(),
            text@ == s,
            s == req_as_str@,
            spans == spans_of(lines@),
            spans_within(spans, s.len() as int),
            request@ == (RequestView {
                path: path@,
                method: method@,
                params: Map::empty(),
                url_params: Map::empty(),
                header: pairs_to_map(header_pairs(s, spans, n as int)),
                complete_req: s,
            }),
        decreases lines@.len() - n,
    {
        let (a, b) = lines[n];
        assert(spans[n as int] == (a as int, b as int));
        let c = find_colon(&text, a, b);
        if c < b {
            let (name_start, name_end) = trim_span(&text, a, c);
            let (value_start, value_end) = trim_span(&text, c + 1, b);
            let name = substring(req_as_str, name_start, name_end);
            let value = substring(req_as_str, value_start, value_end);
            request.add_header(name.as_str(), value.as_str());
            assert(header_pairs(s, spans, n + 1).drop_last() =~= header_pairs(s, spans, n as int));
        }
        n += 1;
    }

    let ghost mut done: Seq<(Seq<char>, Seq<char>)> = Seq::empty();
    let mut at: usize = q;
    assert(done + query_pairs(s, at as int) =~= query_pairs(s, q as int));
    while at < text.len() && (text[at] == '?' || text[at] == '&')
        invariant
            at <= text@.len(),
            text@ == s,
            s == req_as_str@,
            done + query_pairs(s, at as int) == query_pairs(s, q as int),
            request@ == (RequestView {
                path: path@,
                method: method@,
                params: pairs_to_map(done),
                url_params: Map::empty(),
                header: headers_of(s),
                complete_req: s,
            }),
        decreases text@.len() - at,
    {
        let b = scan(&text, CharClass::Plain, at + 1);
        let e = scan(&text, CharClass::Key, at + 1);
        let ghost rest = query_pairs(s, b as int);
        if at + 1 < e && e < b && e + 1 < b {
            let key = substring(req_as_str, at + 1, e);
            let value = substring(req_as_str, e + 1, b);
            request.add_param(key.as_str(), value.as_str());
            proof {
                let extended = done.push((key@, value@));
                assert(extended.drop_last() =~= done);
                assert(extended + rest =~= done + query_pairs(s, at as int));
                done = extended;
            }
        }
        at = b;
    }
    assert(query_pairs(s, at as int) =~= Seq::<(Seq<char>, Seq<char>)>::empty());
    assert(done =~= query_pairs(s, q as int));
    Some(request)
}

} // verus!
