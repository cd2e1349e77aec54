//! What holds of the patterns and of the route table, whatever is
//! registered and requested.

use crate::pattern::{
    captured, captured_upto, is_dynamic, names_distinct, pattern_matches, slash,
    template_segments, valid_template, SegmentView,
};
use crate::parser::{
    in_class, is_verb, lemma_run_end, method_end, method_of, method_start, parsed, run_end,
    target_start, CharClass,
};
use crate::response::{body_of, decimal, header_lines, wire_text, HttpResponseView};
use crate::router::{
    accepts, binding_index, decide, dynamic_index, has_key, has_route_key, is_literal_for,
    matching_index, well_formed, with_route, Decision, RouterView,
};
use crate::search::{first_index, lemma_first_index, lemma_first_index_is};
use crate::text::split;
use vstd::prelude::*;
use vstd::utf8::encode_utf8;

verus! {

/// The captures of the first `n` segments bind exactly the names of the
/// placeholders among them, and with distinct names each placeholder is
/// bound to the piece at its place.
pub proof fn lemma_captured_upto(segments: Seq<SegmentView>, pieces: Seq<Seq<char>>, n: int)
    requires
        0 <= n <= segments.len(),
    ensures
        forall|name: Seq<char>|
            captured_upto(segments, pieces, n).contains_key(name) <==> exists|k: int|
                0 <= k < n && #[trigger] segments[k] == SegmentView::Placeholder(name),
        names_distinct(segments) ==> forall|k: int|
            0 <= k < n && (#[trigger] segments[k]) is Placeholder ==> captured_upto(
                segments,
                pieces,
                n,
            )[segments[k]->Placeholder_0] == pieces[k],
    decreases n,
{
    if n > 0 {
        lemma_captured_upto(segments, pieces, n - 1);
        let before = captured_upto(segments, pieces, n - 1);
        let now = captured_upto(segments, pieces, n);
        assert forall|name: Seq<char>|
            now.contains_key(name) <==> exists|k: int|
                0 <= k < n && #[trigger] segments[k] == SegmentView::Placeholder(name) by {
            if now.contains_key(name) {
                if before.contains_key(name) {
                    let k = choose|k: int|
                        0 <= k < n - 1 && #[trigger] segments[k] == SegmentView::Placeholder(name);
                    assert(0 <= k < n && segments[k] == SegmentView::Placeholder(name));
                } else {
                    assert(segments[n - 1] == SegmentView::Placeholder(name));
                }
            }
            if exists|k: int|
                0 <= k < n && #[trigger] segments[k] == SegmentView::Placeholder(name) {
                let k = choose|k: int|
                    0 <= k < n && #[trigger] segments[k] == SegmentView::Placeholder(name);
                if k < n - 1 {
                    assert(before.contains_key(name));
                }
            }
        }
        if names_distinct(segments) {
            assert forall|k: int| 0 <= k < n && (#[trigger] segments[k]) is Placeholder implies now[segments[k]->Placeholder_0]
                == pieces[k] by {
                if k < n - 1 && segments[n - 1] is Placeholder {
                    assert(segments[k]->Placeholder_0 != segments[n - 1]->Placeholder_0);
                }
            }
        }
    }
}

/// A path that matches a pattern with distinct placeholder names yields url
/// parameters that bind the name of every placeholder to the text of the
/// path segment at its place, and bind nothing else.
pub proof fn law_captures_bind_every_placeholder(segments: Seq<SegmentView>, path: Seq<char>)
    requires
        names_distinct(segments),
        pattern_matches(segments, path),
    ensures
        forall|k: int|
            0 <= k < segments.len() && (#[trigger] segments[k]) is Placeholder ==> {
                let name = segments[k]->Placeholder_0;
                &&& captured(segments, path).contains_key(name)
                &&& captured(segments, path)[name] == split(path, slash())[k]
                &&& captured(segments, path)[name].len() > 0
            },
        forall|name: Seq<char>|
            captured(segments, path).contains_key(name) ==> exists|k: int|
                0 <= k < segments.len() && #[trigger] segments[k] == SegmentView::Placeholder(name),
{
    lemma_captured_upto(segments, split(path, slash()), segments.len() as int);
    assert forall|k: int|
        0 <= k < segments.len() && (#[trigger] segments[k]) is Placeholder implies captured(
        segments,
        path,
    ).contains_key(segments[k]->Placeholder_0) by {
        assert(segments[k] == SegmentView::Placeholder(segments[k]->Placeholder_0));
    }
}

/// A router without routes is well formed.
pub proof fn law_empty_table_is_well_formed<H>(router: RouterView<H>)
    requires
        router.paths.len() == 0,
        router.dyn_paths.len() == 0,
    ensures
        well_formed(router),
{
}

/// Registration of a template with distinct placeholder names keeps the
/// route table well formed.
pub proof fn law_registration_keeps_well_formed<H>(
    router: RouterView<H>,
    method: Seq<char>,
    template: Seq<char>,
    handler: H,
)
    requires
        well_formed(router),
        valid_template(template),
    ensures
        well_formed(with_route(router, method, template, handler)),
{
    let after = with_route(router, method, template, handler);
    let i = binding_index(router.paths, method, template, 0);
    let j = dynamic_index(router.dyn_paths, method, template, 0);
    lemma_first_index(router.paths, has_key(method, template), 0);
    lemma_first_index(router.dyn_paths, has_route_key(method, template), 0);
    assert forall|a: int, b: int| 0 <= a < b < after.paths.len() implies !((
    #[trigger] after.paths[a]).method == (#[trigger] after.paths[b]).method
        && after.paths[a].template == after.paths[b].template) by {
        if i < router.paths.len() {
            if a != i && b != i {
                assert(after.paths[a] == router.paths[a]);
                assert(after.paths[b] == router.paths[b]);
            } else if a == i {
                assert(after.paths[b] == router.paths[b]);
                assert(has_key::<H>(method, template)(router.paths[i]));
            } else {
                assert(after.paths[a] == router.paths[a]);
                assert(!has_key::<H>(method, template)(router.paths[a]));
            }
        } else {
            if b < router.paths.len() {
                assert(after.paths[a] == router.paths[a]);
                assert(after.paths[b] == router.paths[b]);
            } else {
                assert(after.paths[a] == router.paths[a]);
                assert(!has_key::<H>(method, template)(router.paths[a]));
            }
        }
    }
    assert forall|a: int, b: int| 0 <= a < b < after.dyn_paths.len() implies !((
    #[trigger] after.dyn_paths[a]).method == (#[trigger] after.dyn_paths[b]).method
        && after.dyn_paths[a].template == after.dyn_paths[b].template) by {
        if b < router.dyn_paths.len() {
            assert(after.dyn_paths[a] == router.dyn_paths[a]);
            assert(after.dyn_paths[b] == router.dyn_paths[b]);
        } else {
            assert(after.dyn_paths[a] == router.dyn_paths[a]);
            assert(!has_route_key(method, template)(router.dyn_paths[a]));
        }
    }
    assert forall|a: int| 0 <= a < after.paths.len() implies (#[trigger] after.paths[a]).dynamic
        == is_dynamic(after.paths[a].template) by {
        if a < router.paths.len() && a != i {
            assert(after.paths[a] == router.paths[a]);
        }
    }
    assert forall|b: int| 0 <= b < after.dyn_paths.len() implies {
        let route = #[trigger] after.dyn_paths[b];
        &&& route.pattern == template_segments(route.template)
        &&& is_dynamic(route.template)
        &&& valid_template(route.template)
        &&& 0 <= binding_index(after.paths, route.method, route.template, 0) < after.paths.len()
    } by {
        let route = after.dyn_paths[b];
        lemma_binding_survives(router, method, template, handler, route.method, route.template);
        if b < router.dyn_paths.len() {
            assert(route == router.dyn_paths[b]);
        }
    }
}

/// After a registration every method and template that had a binding has
/// one, and so has what was registered.
pub proof fn lemma_binding_survives<H>(
    router: RouterView<H>,
    method: Seq<char>,
    template: Seq<char>,
    handler: H,
    other_method: Seq<char>,
    other_template: Seq<char>,
)
    ensures
        ({
            let after = with_route(router, method, template, handler);
            let before_at = binding_index(router.paths, other_method, other_template, 0);
            let after_at = binding_index(after.paths, other_method, other_template, 0);
            &&& (other_method == method && other_template == template) ==> 0 <= after_at
                < after.paths.len() && after.paths[after_at].handler == handler
            &&& !(other_method == method && other_template == template) ==> if before_at
                < router.paths.len() {
                after_at == before_at && after.paths[after_at] == router.paths[before_at]
            } else {
                after_at == after.paths.len()
            }
            &&& 0 <= before_at < router.paths.len() ==> 0 <= after_at < after.paths.len()
        }),
{
    let after = with_route(router, method, template, handler);
    let i = binding_index(router.paths, method, template, 0);
    let wanted = has_key::<H>(other_method, other_template);
    let before_at = binding_index(router.paths, other_method, other_template, 0);
    lemma_first_index(router.paths, has_key(method, template), 0);
    lemma_first_index(router.paths, wanted, 0);
    if other_method == method && other_template == template {
        assert(wanted == has_key::<H>(method, template));
        assert forall|k: int| 0 <= k < i implies !wanted(#[trigger] after.paths[k]) by {
            assert(after.paths[k] == router.paths[k]);
        }
        assert(wanted(after.paths[i]));
        lemma_first_index_is(after.paths, wanted, 0, i);
    } else {
        assert forall|k: int| 0 <= k < before_at implies !wanted(#[trigger] after.paths[k]) by {
            if k != i {
                assert(after.paths[k] == router.paths[k]);
            }
        }
        if before_at < router.paths.len() {
            assert(wanted(router.paths[before_at]));
            assert(before_at != i) by {
                if i < router.paths.len() {
                    assert(has_key::<H>(method, template)(router.paths[i]));
                }
            }
            assert(after.paths[before_at] == router.paths[before_at]);
            lemma_first_index_is(after.paths, wanted, 0, before_at);
        } else {
            assert forall|k: int| 0 <= k < after.paths.len() implies !wanted(
                #[trigger] after.paths[k],
            ) by {
                if k < router.paths.len() && k != i {
                    assert(after.paths[k] == router.paths[k]);
                }
            }
            lemma_first_index_is(after.paths, wanted, 0, after.paths.len() as int);
        }
    }
}

/// A request for the method and path of a literal binding is answered by
/// the handler of that binding, whatever dynamic routes there are.
pub proof fn law_literal_binding_answers<H>(
    router: RouterView<H>,
    method: Seq<char>,
    path: Seq<char>,
    i: int,
)
    requires
        well_formed(router),
        0 <= i < router.paths.len(),
        !router.paths[i].dynamic,
        router.paths[i].method == method,
        router.paths[i].template == path,
    ensures
        decide(router, method, path) == Decision::Literal(i),
{
    let wanted = is_literal_for::<H>(method, path);
    lemma_first_index(router.paths, wanted, 0);
    let first = first_index(router.paths, wanted, 0);
    assert(wanted(router.paths[i]));
    assert(first <= i);
    assert(wanted(router.paths[first]));
}

/// Once a handler is registered for a method and a literal template, a
/// request for that method and path is answered by that handler.
pub proof fn law_registered_literal_answers<H>(
    router: RouterView<H>,
    method: Seq<char>,
    template: Seq<char>,
    handler: H,
)
    requires
        !is_dynamic(template),
    ensures
        decide(with_route(router, method, template, handler), method, template) matches Decision::Literal(
            i,
        ) && 0 <= i < with_route(router, method, template, handler).paths.len() && with_route(
            router,
            method,
            template,
            handler,
        ).paths[i].handler == handler,
{
    let after = with_route(router, method, template, handler);
    let i = binding_index(router.paths, method, template, 0);
    lemma_first_index(router.paths, has_key(method, template), 0);
    let wanted = is_literal_for::<H>(method, template);
    assert forall|k: int| 0 <= k < i implies !wanted(#[trigger] after.paths[k]) by {
        assert(after.paths[k] == router.paths[k]);
        assert(!has_key::<H>(method, template)(router.paths[k]));
    }
    assert(wanted(after.paths[i]));
    lemma_first_index_is(after.paths, wanted, 0, i);
}

/// A request that no literal binding and no dynamic route of its method
/// answers gets the default response.
pub proof fn law_unmatched_gets_default<H>(router: RouterView<H>, method: Seq<char>, path: Seq<char>)
    requires
        forall|i: int|
            0 <= i < router.paths.len() ==> !is_literal_for::<H>(method, path)(
                #[trigger] router.paths[i],
            ),
        forall|j: int|
            0 <= j < router.dyn_paths.len() ==> !accepts(method, path)(
                #[trigger] router.dyn_paths[j],
            ),
    ensures
        decide(router, method, path) == Decision::Default,
{
    lemma_first_index(router.paths, is_literal_for(method, path), 0);
    lemma_first_index(router.dyn_paths, accepts(method, path), 0);
}

/// Where no literal binding answers, the first dynamic route of the method
/// that the path matches decides, in the order of registration: no route
/// that was registered later is taken in its place.
pub proof fn law_first_match_decides<H>(
    router: RouterView<H>,
    method: Seq<char>,
    path: Seq<char>,
    j: int,
)
    requires
        well_formed(router),
        forall|i: int|
            0 <= i < router.paths.len() ==> !is_literal_for::<H>(method, path)(
                #[trigger] router.paths[i],
            ),
        0 <= j < router.dyn_paths.len(),
        accepts(method, path)(router.dyn_paths[j]),
        forall|e: int| 0 <= e < j ==> !accepts(method, path)(#[trigger] router.dyn_paths[e]),
    ensures
        decide(router, method, path) == Decision::Dynamic(
            j,
            binding_index(router.paths, method, router.dyn_paths[j].template, 0),
        ),
{
    lemma_first_index(router.paths, is_literal_for(method, path), 0);
    lemma_first_index_is(router.dyn_paths, accepts(method, path), 0, j);
    assert(router.dyn_paths[j].method == method);
}

/// Of two templates with placeholders that are registered one after the
/// other for one method, and that a path both matches, the one registered
/// first decides, and its handler answers.
pub proof fn law_registration_order_decides<H>(
    router: RouterView<H>,
    method: Seq<char>,
    path: Seq<char>,
    first: Seq<char>,
    first_handler: H,
    second: Seq<char>,
    second_handler: H,
)
    requires
        well_formed(router),
        forall|i: int|
            0 <= i < router.paths.len() ==> !is_literal_for::<H>(method, path)(
                #[trigger] router.paths[i],
            ),
        forall|j: int|
            0 <= j < router.dyn_paths.len() ==> !accepts(method, path)(
                #[trigger] router.dyn_paths[j],
            ),
        first != second,
        valid_template(first),
        valid_template(second),
        is_dynamic(first),
        is_dynamic(second),
        pattern_matches(template_segments(first), path),
        pattern_matches(template_segments(second), path),
    ensures
        ({
            let after = with_route(
                with_route(router, method, first, first_handler),
                method,
                second,
                second_handler,
            );
            decide(after, method, path) matches Decision::Dynamic(j, k) && after.dyn_paths[j].template
                == first && after.paths[k].handler == first_handler
        }),
{
    let middle = with_route(router, method, first, first_handler);
    let after = with_route(middle, method, second, second_handler);
    law_registration_keeps_well_formed(router, method, first, first_handler);
    law_registration_keeps_well_formed(middle, method, second, second_handler);
    let n = router.dyn_paths.len() as int;
    // Neither template is a dynamic route of the method yet: its pattern
    // would accept the path.
    lemma_first_index(router.dyn_paths, has_route_key(method, first), 0);
    lemma_first_index(router.dyn_paths, has_route_key(method, second), 0);
    let at_first = dynamic_index(router.dyn_paths, method, first, 0);
    if at_first < n {
        assert(has_route_key(method, first)(router.dyn_paths[at_first]));
        assert(accepts(method, path)(router.dyn_paths[at_first]));
    }
    let at_second = dynamic_index(router.dyn_paths, method, second, 0);
    if at_second < n {
        assert(has_route_key(method, second)(router.dyn_paths[at_second]));
        assert(accepts(method, path)(router.dyn_paths[at_second]));
    }
    assert(middle.dyn_paths.len() == n + 1);
    assert(middle.dyn_paths[n].template == first);
    lemma_first_index(middle.dyn_paths, has_route_key(method, second), 0);
    let again = dynamic_index(middle.dyn_paths, method, second, 0);
    if again < n + 1 {
        assert(has_route_key(method, second)(middle.dyn_paths[again]));
        if again < n {
            assert(middle.dyn_paths[again] == router.dyn_paths[again]);
        }
    }
    assert(after.dyn_paths.len() == n + 2);
    assert(after.dyn_paths[n] == middle.dyn_paths[n]);
    assert forall|i: int| 0 <= i < after.paths.len() implies !is_literal_for::<H>(method, path)(
        #[trigger] after.paths[i],
    ) by {
        lemma_first_index(router.paths, has_key(method, first), 0);
        lemma_first_index(middle.paths, has_key(method, second), 0);
        let a = binding_index(router.paths, method, first, 0);
        let b = binding_index(middle.paths, method, second, 0);
        if i != b && i < middle.paths.len() {
            assert(after.paths[i] == middle.paths[i]);
            if i != a && i < router.paths.len() {
                assert(middle.paths[i] == router.paths[i]);
            }
        }
    }
    assert forall|e: int| 0 <= e < n implies !accepts(method, path)(
        #[trigger] after.dyn_paths[e],
    ) by {
        assert(after.dyn_paths[e] == router.dyn_paths[e]);
    }
    assert(accepts(method, path)(after.dyn_paths[n]));
    law_first_match_decides(after, method, path, n);
    lemma_binding_survives(router, method, first, first_handler, method, first);
    lemma_binding_survives(middle, method, second, second_handler, method, first);
}

/// A second registration for a method and template replaces the first: the
/// route table is as if only the second had been made.
pub proof fn law_registration_replaces<H>(
    router: RouterView<H>,
    method: Seq<char>,
    template: Seq<char>,
    earlier: H,
    later: H,
)
    ensures
        with_route(with_route(router, method, template, earlier), method, template, later)
            == with_route(router, method, template, later),
{
    let middle = with_route(router, method, template, earlier);
    let twice = with_route(middle, method, template, later);
    let once = with_route(router, method, template, later);
    lemma_binding_survives(router, method, template, earlier, method, template);
    lemma_first_index(router.paths, has_key(method, template), 0);
    lemma_first_index(middle.paths, has_key(method, template), 0);
    let i = binding_index(router.paths, method, template, 0);
    let again = binding_index(middle.paths, method, template, 0);
    assert(again == i) by {
        assert(has_key::<H>(method, template)(middle.paths[i]));
        assert forall|k: int| 0 <= k < i implies !has_key::<H>(method, template)(
            #[trigger] middle.paths[k],
        ) by {
            assert(middle.paths[k] == router.paths[k]);
        }
        lemma_first_index_is(middle.paths, has_key(method, template), 0, i);
    }
    assert(twice.paths =~= once.paths);
    lemma_first_index(router.dyn_paths, has_route_key(method, template), 0);
    lemma_first_index(middle.dyn_paths, has_route_key(method, template), 0);
    let j = dynamic_index(router.dyn_paths, method, template, 0);
    if is_dynamic(template) && j >= router.dyn_paths.len() {
        assert(has_route_key(method, template)(middle.dyn_paths[j]));
    } else if is_dynamic(template) {
        assert(middle.dyn_paths == router.dyn_paths);
    }
    assert(twice.dyn_paths =~= once.dyn_paths);
}

/// After a handler is registered for a method and template, exactly one
/// binding is registered for them, and it holds that handler.
pub proof fn law_one_handler_per_route<H>(
    router: RouterView<H>,
    method: Seq<char>,
    template: Seq<char>,
    handler: H,
)
    requires
        well_formed(router),
        valid_template(template),
    ensures
        ({
            let after = with_route(router, method, template, handler);
            let i = binding_index(after.paths, method, template, 0);
            &&& 0 <= i < after.paths.len()
            &&& after.paths[i].handler == handler
            &&& forall|k: int|
                0 <= k < after.paths.len() && has_key::<H>(method, template)(
                    #[trigger] after.paths[k],
                ) ==> k == i
        }),
{
    let after = with_route(router, method, template, handler);
    law_registration_keeps_well_formed(router, method, template, handler);
    lemma_binding_survives(router, method, template, handler, method, template);
    lemma_first_index(after.paths, has_key(method, template), 0);
    let i = binding_index(after.paths, method, template, 0);
    assert(has_key::<H>(method, template)(after.paths[i]));
}

/// In a well-formed route table every dynamic route finds its handler.
pub proof fn law_dynamic_route_has_handler<H>(
    router: RouterView<H>,
    method: Seq<char>,
    path: Seq<char>,
)
    requires
        well_formed(router),
    ensures
        !(decide(router, method, path) is Orphan),
{
    lemma_first_index(router.dyn_paths, accepts(method, path), 0);
    let j = matching_index(router.dyn_paths, method, path, 0);
    if j < router.dyn_paths.len() {
        assert(accepts(method, path)(router.dyn_paths[j]));
    }
}

/// The path of every request that the parser reads begins with `/`.
pub proof fn law_parsed_path_is_rooted(s: Seq<char>)
    ensures
        parsed(s) matches Some(request) ==> request.path.len() >= 1 && request.path[0] == '/',
{
    let p = target_start(s);
    lemma_run_end(s, CharClass::Space, 0);
    lemma_run_end(s, CharClass::Upper, method_start(s));
    lemma_run_end(s, CharClass::Space, method_end(s));
    lemma_run_end(s, CharClass::Plain, p);
    if 0 <= p < s.len() && s[p] == '/' {
        assert(in_class(s[p], CharClass::Plain));
        assert(run_end(s, CharClass::Plain, p) == run_end(s, CharClass::Plain, p + 1));
        lemma_run_end(s, CharClass::Plain, p + 1);
    }
}

/// A text holds a request exactly where its first token, the upper-case
/// letters at the first character that is no space, spells a known verb;
/// that verb is the method of the request. A text that is empty or holds
/// spaces only holds none.
pub proof fn law_parse_fails_without_verb(s: Seq<char>)
    ensures
        parsed(s) is Some <==> is_verb(method_of(s)),
        parsed(s) matches Some(request) ==> request.method == method_of(s) && is_verb(
            request.method,
        ),
        method_start(s) == s.len() ==> parsed(s) is None,
        s.len() == 0 ==> parsed(s) is None,
{
    lemma_run_end(s, CharClass::Space, 0);
    if method_start(s) == s.len() {
        reveal_strlit("GET");
        reveal_strlit("POST");
        reveal_strlit("PUT");
        reveal_strlit("DELETE");
        assert(method_of(s).len() == 0);
    }
}

/// Every message with a body announces as its length the number of bytes
/// of the body in UTF-8, and ends with the body.
pub proof fn law_content_length_counts_bytes(
    response: HttpResponseView,
    defaults: Seq<(Seq<char>, Seq<char>)>,
)
    ensures
        body_of(response) matches Some(body) ==> exists|head: Seq<char>|
            wire_text(response, defaults) == head + "Content-Length:"@ + decimal(
                encode_utf8(body).len(),
            ) + "\r\n\r\n"@ + body,
{
    match response {
        HttpResponseView::OK(body) => {
            let head = "HTTP/1.1 200 OK\r\nContent-Type: text/html; charset=utf-8\r\n"@
                + header_lines(defaults);
            assert(wire_text(response, defaults) =~= head + "Content-Length:"@ + decimal(
                encode_utf8(body).len(),
            ) + "\r\n\r\n"@ + body);
        },
        HttpResponseView::OKWithHeader(body, headers) => {
            let head = "HTTP/1.1 200 OK\r\n"@ + header_lines(headers);
            assert(wire_text(response, defaults) =~= head + "Content-Length:"@ + decimal(
                encode_utf8(body).len(),
            ) + "\r\n\r\n"@ + body);
        },
        HttpResponseView::NotFound => {
            let body = "404 NOT FOUND"@;
            let head = "HTTP/1.1 404 Not Found\r\nContent-Type: text/html; charset=utf-8\r\n"@;
            assert(wire_text(response, defaults) =~= head + "Content-Length:"@ + decimal(
                encode_utf8(body).len(),
            ) + "\r\n\r\n"@ + body);
        },
        _ => {},
    }
}

} // verus!
