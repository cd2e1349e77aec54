//! Path templates with named single-segment placeholders, and the matcher
//! that a template compiles to.

use crate::params::StringMap;
use crate::text::{
    chars_of, same_text, spans_of, spans_within, split, split_at_each, split_spans, substring,
};
use vstd::prelude::*;

verus! {

/// One `/`-delimited part of a compiled template.
#[derive(Debug)]
pub enum Segment {
    /// Text that the path must repeat.
    Literal(String),
    /// A name that takes whatever non-empty text the path has at this place.
    Placeholder(String),
}

/// What a `Segment` stands for.
pub enum SegmentView {
    Literal(Seq<char>),
    Placeholder(Seq<char>),
}

impl View for Segment {
    type V = SegmentView;

    open spec fn view(&self) -> SegmentView {
        match self {
            Segment::Literal(t) => SegmentView::Literal(t@),
            Segment::Placeholder(n) => SegmentView::Placeholder(n@),
        }
    }
}

/// The separator of path segments.
pub open spec fn slash() -> Seq<char> {
    seq!['/']
}

/// A letter, a digit or the underscore of ASCII.
pub open spec fn is_ascii_word(c: char) -> bool {
    ('a' <= c && c <= 'z') || ('A' <= c && c <= 'Z') || ('0' <= c && c <= '9') || c == '_'
}

/// Whether the class `\w` of `regex` holds `c`.
pub uninterp spec fn word_character(c: char) -> bool;

/// A word character: within ASCII a letter, a digit or the underscore,
/// beyond ASCII what the class `\w` of `regex` holds.
pub open spec fn is_word(c: char) -> bool {
    if c <= '\u{7f}' {
        is_ascii_word(c)
    } else {
        word_character(c)
    }
}

/// A piece of a template that begins with `:` and a word character names a
/// placeholder, by all that follows the `:`; any other piece is literal
/// text.
pub open spec fn segment_of(piece: Seq<char>) -> SegmentView {
    if piece.len() >= 2 && piece[0] == ':' && is_word(piece[1]) {
        SegmentView::Placeholder(piece.skip(1))
    } else {
        SegmentView::Literal(piece)
    }
}

/// The segments that a template consists of.
pub open spec fn template_segments(template: Seq<char>) -> Seq<SegmentView> {
    Seq::new(split(template, slash()).len(), |k: int| segment_of(split(template, slash())[k]))
}

/// Some segment is a placeholder.
pub open spec fn has_placeholder(segments: Seq<SegmentView>) -> bool {
    exists|k: int| 0 <= k < segments.len() && (#[trigger] segments[k]) is Placeholder
}

/// No two placeholders share a name.
pub open spec fn names_distinct(segments: Seq<SegmentView>) -> bool {
    forall|i: int, j: int|
        0 <= i < j < segments.len() && (#[trigger] segments[i]) is Placeholder && (
        #[trigger] segments[j]) is Placeholder ==> segments[i]->Placeholder_0
            != segments[j]->Placeholder_0
}

/// A template with at least one placeholder.
pub open spec fn is_dynamic(template: Seq<char>) -> bool {
    has_placeholder(template_segments(template))
}

/// A template whose placeholder names are distinct.
pub open spec fn valid_template(template: Seq<char>) -> bool {
    names_distinct(template_segments(template))
}

/// The piece `piece` of a path is acceptable at the place of `segment`.
pub open spec fn segment_accepts(segment: SegmentView, piece: Seq<char>) -> bool {
    match segment {
        SegmentView::Literal(t) => piece == t,
        SegmentView::Placeholder(_) => piece.len() > 0,
    }
}

/// The pieces of a path fit the segments one for one: as many pieces as
/// segments, each piece acceptable at its place.
pub open spec fn segments_accept(segments: Seq<SegmentView>, pieces: Seq<Seq<char>>) -> bool {
    &&& segments.len() == pieces.len()
    &&& forall|k: int| 0 <= k < segments.len() ==> segment_accepts(#[trigger] segments[k], pieces[k])
}

/// The whole of `path` has the shape of `segments`.
pub open spec fn pattern_matches(segments: Seq<SegmentView>, path: Seq<char>) -> bool {
    segments_accept(segments, split(path, slash()))
}

/// The captures of the first `n` segments: each placeholder's name bound to
/// the piece at its place.
pub open spec fn captured_upto(segments: Seq<SegmentView>, pieces: Seq<Seq<char>>, n: int) -> Map<
    Seq<char>,
    Seq<char>,
>
    decreases n,
{
    if n <= 0 {
        Map::empty()
    } else {
        let before = captured_upto(segments, pieces, n - 1);
        match segments[n - 1] {
            SegmentView::Placeholder(name) => before.insert(name, pieces[n - 1]),
            SegmentView::Literal(_) => before,
        }
    }
}

/// The url parameters of a match of `path` against `segments`.
pub open spec fn captured(segments: Seq<SegmentView>, path: Seq<char>) -> Map<Seq<char>, Seq<char>> {
    captured_upto(segments, split(path, slash()), segments.len() as int)
}

/// The matcher that a template compiles to.
#[derive(Debug)]
pub struct RoutePattern {
    pub segments: Vec<Segment>,
}

impl View for RoutePattern {
    type V = Seq<SegmentView>;

    open spec fn view(&self) -> Seq<SegmentView> {
        Seq::new(self.segments@.len(), |k: int| self.segments@[k]@)
    }
}

/// The separator of path segments, as characters.
pub fn slash_chars() -> (sep: Vec<char>)
    ensures
        sep@ == slash(),
{
    let mut sep: Vec<char> = Vec::new();
    sep.push('/');
    assert(sep@ =~= slash());
    sep
}

/// Compiles the pattern `\w` with `Regex::new` and asks `Regex::is_match`
/// whether it matches the text that consists of `c` alone. The pattern is
/// one that `regex` accepts, so the compilation does not fail. The result is
/// known by name only.
#[verifier::external_body]
fn in_word_class(c: char) -> (b: bool)
    ensures
        b == word_character(c),
{
    let mut buffer = [0u8; 4];
    regex::Regex::new(r"\w").unwrap().is_match(c.encode_utf8(&mut buffer))
}

/// Whether `c` is a word character.
pub fn is_word_char(c: char) -> (b: bool)
    ensures
        b == is_word(c),
{
    if c <= '\u{7f}' {
        ('a' <= c && c <= 'z') || ('A' <= c && c <= 'Z') || ('0' <= c && c <= '9') || c == '_'
    } else {
        in_word_class(c)
    }
}

/// Whether the placeholder names of `template` are distinct.
pub fn is_valid_template(template: &str) -> (b: bool)
    ensures
        b == valid_template(template@),
{
    RoutePattern::compile(template).has_distinct_names()
}

impl RoutePattern {
    /// Compiles `template`: one segment for each `/`-delimited piece.
    pub fn compile(template: &str) -> (p: RoutePattern)
        ensures
            p@ == template_segments(template@),
    {
        let chars = chars_of(template);
        let sep = slash_chars();
        let spans = split_at_each(&chars, &sep);
        let mut segments: Vec<Segment> = Vec::new();
        let mut k: usize = 0;
        while k < spans.len()
            invariant
                k <= spans@.len(),
                chars@ == template@,
                spans_of(spans@) == split_spans(template@, slash(), 0),
                spans_within(spans_of(spans@), template@.len() as int),
                segments@.len() == k,
                forall|j: int|
                    0 <= j < k ==> (#[trigger] segments@[j])@ == segment_of(
                        split(template@, slash())[j],
                    ),
            decreases spans@.len() - k,
        {
            let (a, b) = spans[k];
            assert(spans_of(spans@)[k as int] == (a as int, b as int));
            let ghost piece = template@.subrange(a as int, b as int);
            assert(split(template@, slash())[k as int] == piece);
            let segment = if b - a >= 2 && chars[a] == ':' && is_word_char(chars[a + 1]) {
                assert(piece[1] == template@[a + 1]);
                assert(piece.skip(1) =~= template@.subrange(a + 1, b as int));
                Segment::Placeholder(substring(template, a + 1, b))
            } else {
                Segment::Literal(substring(template, a, b))
            };
            segments.push(segment);
            k += 1;
        }
        let p = RoutePattern { segments };
        assert(p@ =~= template_segments(template@));
        p
    }

    /// Whether the pattern has a placeholder.
    pub fn is_dynamic(&self) -> (b: bool)
        ensures
            b == has_placeholder(self@),
    {
        let mut k: usize = 0;
        while k < self.segments.len()
            invariant
                k <= self.segments@.len(),
                forall|j: int| 0 <= j < k ==> !((#[trigger] self@[j]) is Placeholder),
            decreases self.segments@.len() - k,
        {
            assert(self@[k as int] == self.segments@[k as int]@);
            match &self.segments[k] {
                Segment::Placeholder(_) => {
                    return true;
                },
                Segment::Literal(_) => {},
            }
            k += 1;
        }
        false
    }

    /// Whether the placeholders of the pattern have distinct names.
    pub fn has_distinct_names(&self) -> (b: bool)
        ensures
            b == names_distinct(self@),
    {
        let mut j: usize = 0;
        while j < self.segments.len()
            invariant
                j <= self.segments@.len(),
                forall|x: int, y: int|
                    0 <= x < y < j && (#[trigger] self@[x]) is Placeholder && (
                    #[trigger] self@[y]) is Placeholder ==> self@[x]->Placeholder_0
                        != self@[y]->Placeholder_0,
            decreases self.segments@.len() - j,
        {
            assert(self@[j as int] == self.segments@[j as int]@);
            if let Segment::Placeholder(name) = &self.segments[j] {
                let mut i: usize = 0;
                while i < j
                    invariant
                        i <= j < self.segments@.len(),
                        self@[j as int] == SegmentView::Placeholder(name@),
                        forall|x: int|
                            0 <= x < i && (#[trigger] self@[x]) is Placeholder
                                ==> self@[x]->Placeholder_0 != name@,
                    decreases j - i,
                {
                    assert(self@[i as int] == self.segments@[i as int]@);
                    if let Segment::Placeholder(earlier) = &self.segments[i] {
                        if same_text(earlier, name) {
                            assert(self@[i as int] is Placeholder);
                            assert(self@[j as int] is Placeholder);
                            return false;
                        }
                    }
                    i += 1;
                }
            }
            j += 1;
        }
        true
    }

    /// Matches the whole of `path` against the pattern and, where it has
    /// the pattern's shape, returns the captures of the placeholders.
    pub fn matches(&self, path: &str) -> (r: Option<StringMap>)
        ensures
            r is Some <==> pattern_matches(self@, path@),
            r matches Some(m) ==> m@ == captured(self@, path@),
    {
        let chars = chars_of(path);
        let sep = slash_chars();
        let spans = split_at_each(&chars, &sep);
        let ghost pieces = split(path@, slash());
        if spans.len() != self.segments.len() {
            return None;
        }
        let mut found = StringMap::new();
        let mut k: usize = 0;
        while k < spans.len()
            invariant
                k <= spans@.len(),
                spans@.len() == self.segments@.len(),
                pieces == split(path@, slash()),
                spans_of(spans@) == split_spans(path@, slash(), 0),
                spans_within(spans_of(spans@), path@.len() as int),
                forall|j: int| 0 <= j < k ==> segment_accepts(#[trigger] self@[j], pieces[j]),
                found@ == captured_upto(self@, pieces, k as int),
            decreases spans@.len() - k,
        {
            let (a, b) = spans[k];
            assert(spans_of(spans@)[k as int] == (a as int, b as int));
            assert(pieces[k as int] == path@.subrange(a as int, b as int));
            let piece = substring(path, a, b);
            assert(self@[k as int] == self.segments@[k as int]@);
            match &self.segments[k] {
                Segment::Literal(t) => {
                    if !same_text(&piece, t) {
                        assert(!segment_accepts(self@[k as int], pieces[k as int]));
                        return None;
                    }
                },
                Segment::Placeholder(name) => {
                    if a == b {
                        assert(!segment_accepts(self@[k as int], pieces[k as int]));
                        return None;
                    }
                    found.insert(name.as_str(), piece.as_str());
                },
            }
            k += 1;
        }
        Some(found)
    }
}

} // verus!
