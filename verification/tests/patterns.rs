use smallweb::params::StringMap;
use regex::Regex;
use smallweb::pattern::{is_valid_template, is_word_char, RoutePattern, Segment};
use smallweb::text::{chars_of, split_at_each};

fn captures(template: &str, path: &str) -> Option<StringMap> {
    RoutePattern::compile(template).matches(path)
}

#[test]
fn template_compiles_to_one_segment_for_each_piece() {
    let pattern = RoutePattern::compile("/users/:id/posts");
    assert_eq!(pattern.segments.len(), 4);
    assert!(matches!(&pattern.segments[0], Segment::Literal(t) if t == ""));
    assert!(matches!(&pattern.segments[1], Segment::Literal(t) if t == "users"));
    assert!(matches!(&pattern.segments[2], Segment::Placeholder(n) if n == "id"));
    assert!(matches!(&pattern.segments[3], Segment::Literal(t) if t == "posts"));
    assert!(pattern.is_dynamic());
    assert!(!RoutePattern::compile("/users/posts").is_dynamic());
}

#[test]
fn colon_alone_or_inside_a_piece_is_literal() {
    assert!(!RoutePattern::compile("/:").is_dynamic());
    assert!(!RoutePattern::compile("/a:b").is_dynamic());
    assert!(captures("/:", "/:").is_some());
    assert!(captures("/:", "/x").is_none());
}

#[test]
fn placeholder_takes_exactly_one_segment() {
    assert!(captures("/:name", "/alice").is_some());
    assert!(captures("/:name", "/").is_none());
    assert!(captures("/:name", "/alice/bob").is_none());
    assert!(captures("/:name", "/alice/").is_none());
    assert!(captures("/:name", "alice").is_none());
    assert!(captures("/:name/:aaa", "/alice/bob").is_some());
    assert!(captures("/:name/:aaa", "/alice//bob").is_none());
}

#[test]
fn match_covers_the_whole_path() {
    assert!(captures("/a/:b", "/a/x").is_some());
    assert!(captures("/a/:b", "/a/x/more").is_none());
    assert!(captures("/a/:b", "/prefix/a/x").is_none());
    assert!(captures("/a/:b", "/b/x").is_none());
}

#[test]
fn literal_template_matches_itself_only() {
    let found = captures("/hello", "/hello").unwrap();
    assert_eq!(found.len(), 0);
    assert!(captures("/hello", "/hello2").is_none());
    assert!(captures("/hello", "/hell").is_none());
}

#[test]
fn captures_hold_the_text_of_the_segment() {
    let found = captures("/:a/mid/:b", "/x-1/mid/\u{e9}t\u{e9}").unwrap();
    assert_eq!(found.len(), 2);
    assert_eq!(found.get("a").unwrap(), "x-1");
    assert_eq!(found.get("b").unwrap(), "\u{e9}t\u{e9}");
    assert!(found.get("mid").is_none());
}

#[test]
fn placeholder_names_must_be_distinct() {
    assert!(is_valid_template("/:a/:b"));
    assert!(is_valid_template("/plain"));
    assert!(is_valid_template(""));
    assert!(!is_valid_template("/:a/:a"));
    assert!(!is_valid_template("/:a/x/:b/:a"));
    assert!(!RoutePattern::compile("/:a/:a").has_distinct_names());
}

#[test]
fn string_map_keeps_last_write_and_first_position() {
    let mut map = StringMap::new();
    assert_eq!(map.len(), 0);
    map.insert("a", "1");
    map.insert("b", "2");
    map.insert("a", "3");
    assert_eq!(map.len(), 2);
    assert_eq!(map.key_at(0), "a");
    assert_eq!(map.value_at(0), "3");
    assert_eq!(map.key_at(1), "b");
    assert_eq!(map.find("b"), Some(1));
    assert_eq!(map.find("c"), None);
    assert!(map.get("c").is_none());
    let copy = map.clone();
    assert_eq!(copy.len(), 2);
    assert_eq!(copy.get("a").unwrap(), "3");
}

#[test]
fn placeholder_needs_a_word_character_after_the_colon() {
    for template in ["/:-", "/::", "/:.", "/: x", "/:\u{2014}", "/:\u{a0}n", "/a/:!b/c"] {
        assert!(!RoutePattern::compile(template).is_dynamic(), "{:?}", template);
        assert!(captures(template, template).is_some());
        assert!(captures(template, "/x").is_none());
    }
    for template in ["/:n", "/:_", "/:7", "/:Z9", "/:\u{e9}", "/:\u{4e2d}", "/:n-m"] {
        assert!(RoutePattern::compile(template).is_dynamic(), "{:?}", template);
        assert!(captures(template, "/x").is_some());
    }
    let found = captures("/:n-m", "/value").unwrap();
    assert_eq!(found.get("n-m").unwrap(), "value");
}

#[test]
fn word_characters_are_those_of_the_word_class() {
    let class = Regex::new(r"\w").unwrap();
    let mut buffer = [0u8; 4];
    for code in 0u32..0x80 {
        let c = char::from_u32(code).unwrap();
        assert_eq!(is_word_char(c), class.is_match(c.encode_utf8(&mut buffer)), "{:?}", c);
        assert_eq!(is_word_char(c), c.is_ascii_alphanumeric() || c == '_', "{:?}", c);
    }
    let chosen = [
        '\u{80}', '\u{a0}', '\u{aa}', '\u{b2}', '\u{b5}', '\u{d7}', '\u{df}', '\u{e9}', '\u{301}',
        '\u{660}', '\u{200b}', '\u{200c}', '\u{200d}', '\u{2014}', '\u{203f}', '\u{2160}',
        '\u{3000}', '\u{4e2d}', '\u{ff3f}', '\u{fffd}', '\u{1f600}', '\u{10ffff}',
    ];
    for c in chosen {
        assert_eq!(is_word_char(c), class.is_match(c.encode_utf8(&mut buffer)), "{:?}", c);
    }
    assert!(is_word_char('\u{e9}'));
    assert!(is_word_char('\u{301}'));
    assert!(is_word_char('\u{203f}'));
    assert!(is_word_char('\u{200c}'));
    assert!(!is_word_char('\u{b2}'));
    assert!(!is_word_char('\u{2014}'));
    assert!(!is_word_char('\u{a0}'));
    let mut code = 0x80u32;
    while code <= 0x10ffff {
        if let Some(c) = char::from_u32(code) {
            assert_eq!(is_word_char(c), class.is_match(c.encode_utf8(&mut buffer)), "{:?}", c);
        }
        code += 4099;
    }
}

#[test]
fn empty_separator_occurs_nowhere() {
    let text = chars_of("a/b");
    assert_eq!(split_at_each(&text, &Vec::new()), vec![(0, 3)]);
    assert_eq!(split_at_each(&Vec::new(), &Vec::new()), vec![(0, 0)]);
    assert_eq!(split_at_each(&text, &chars_of("/")), vec![(0, 1), (2, 3)]);
    assert_eq!(split_at_each(&chars_of("//a/"), &chars_of("/")), vec![(0, 0), (1, 1), (2, 3), (4, 4)]);
    assert_eq!(split_at_each(&chars_of("a\r\n\r\nb\r"), &chars_of("\r\n")), vec![(0, 1), (3, 3), (5, 7)]);
    assert_eq!(split_at_each(&text, &chars_of("a/b/")), vec![(0, 3)]);
}
