//! The route table and the rules by which a request finds its handler.

use crate::laws::law_registration_keeps_well_formed;
use crate::params::StringMap;
use crate::pattern::{
    captured, is_dynamic, pattern_matches, template_segments, valid_template, RoutePattern,
    SegmentView,
};
use crate::request::{Request, RequestView};
use crate::response::{HttpResponse, HttpResponseView};
use crate::search::first_index;
use crate::text::same_text;
use std::sync::Arc;
use vstd::prelude::*;
use vstd::string::*;

verus! {

/// A handler registered for a method and a template.
pub struct Binding<H> {
    pub method: String,
    pub template: String,
    /// Whether the template has a placeholder.
    pub dynamic: bool,
    pub handler: H,
}

/// What a `Binding` stands for.
pub struct BindingView<H> {
    pub method: Seq<char>,
    pub template: Seq<char>,
    pub dynamic: bool,
    pub handler: H,
}

impl<H> View for Binding<H> {
    type V = BindingView<H>;

    open spec fn view(&self) -> BindingView<H> {
        BindingView {
            method: self.method@,
            template: self.template@,
            dynamic: self.dynamic,
            handler: self.handler,
        }
    }
}

/// A template with a placeholder, compiled when it was registered.
pub struct DynamicRoute {
    pub method: String,
    pub template: String,
    pub pattern: RoutePattern,
}

/// What a `DynamicRoute` stands for.
pub struct DynamicRouteView {
    pub method: Seq<char>,
    pub template: Seq<char>,
    pub pattern: Seq<SegmentView>,
}

impl View for DynamicRoute {
    type V = DynamicRouteView;

    open spec fn view(&self) -> DynamicRouteView {
        DynamicRouteView {
            method: self.method@,
            template: self.template@,
            pattern: self.pattern@,
        }
    }
}

/// The route table of a router: the bindings and the dynamic routes, each in
/// the order of registration, and the answer to a request that finds no
/// route.
pub struct RouterView<H> {
    pub paths: Seq<BindingView<H>>,
    pub dyn_paths: Seq<DynamicRouteView>,
    pub default_response: HttpResponseView,
    pub thradpool_size: u16,
}

/// The binding is registered for `method` and `template`.
pub open spec fn has_key<H>(method: Seq<char>, template: Seq<char>) -> spec_fn(
    BindingView<H>,
) -> bool {
    |b: BindingView<H>| b.method == method && b.template == template
}

/// The binding is registered for `method` and a literal template that is
/// `path`.
pub open spec fn is_literal_for<H>(method: Seq<char>, path: Seq<char>) -> spec_fn(
    BindingView<H>,
) -> bool {
    |b: BindingView<H>| !b.dynamic && b.method == method && b.template == path
}

/// The dynamic route is registered for `method` and `template`.
pub open spec fn has_route_key(method: Seq<char>, template: Seq<char>) -> spec_fn(
    DynamicRouteView,
) -> bool {
    |d: DynamicRouteView| d.method == method && d.template == template
}

/// The dynamic route is registered for `method`, and the whole of `path`
/// matches its pattern.
pub open spec fn accepts(method: Seq<char>, path: Seq<char>) -> spec_fn(DynamicRouteView) -> bool {
    |d: DynamicRouteView| d.method == method && pattern_matches(d.pattern, path)
}

/// The position of the first binding for `method` and `template` at or after
/// `from`, or the number of bindings where there is none.
pub open spec fn binding_index<H>(
    paths: Seq<BindingView<H>>,
    method: Seq<char>,
    template: Seq<char>,
    from: int,
) -> int {
    first_index(paths, has_key(method, template), from)
}

/// The position of the first binding at or after `from` whose template is
/// literal and is `path`, for `method`; the number of bindings where there
/// is none.
pub open spec fn literal_index<H>(
    paths: Seq<BindingView<H>>,
    method: Seq<char>,
    path: Seq<char>,
    from: int,
) -> int {
    first_index(paths, is_literal_for(method, path), from)
}

/// The position of the first dynamic route at or after `from` that is
/// registered for `method` and `template`; the number of dynamic routes where
/// there is none.
pub open spec fn dynamic_index(
    dyn_paths: Seq<DynamicRouteView>,
    method: Seq<char>,
    template: Seq<char>,
    from: int,
) -> int {
    first_index(dyn_paths, has_route_key(method, template), from)
}

/// The position of the first dynamic route at or after `from` that is
/// registered for `method` and whose pattern the whole of `path` matches; the
/// number of dynamic routes where there is none.
pub open spec fn matching_index(
    dyn_paths: Seq<DynamicRouteView>,
    method: Seq<char>,
    path: Seq<char>,
    from: int,
) -> int {
    first_index(dyn_paths, accepts(method, path), from)
}

/// How a request is answered.
pub enum Decision {
    /// By the handler of the binding at this position, which has a literal
    /// template equal to the path.
    Literal(int),
    /// By the handler of the binding at the second position, with the
    /// captures of the dynamic route at the first position as url parameters.
    Dynamic(int, int),
    /// The dynamic route at this position matches, and no binding holds its
    /// handler.
    Orphan(int),
    /// By the default response.
    Default,
}

/// The decision for a request of `method` for `path`: a literal binding
/// first, else the first dynamic route in the order of registration, else
/// the default.
pub open spec fn decide<H>(router: RouterView<H>, method: Seq<char>, path: Seq<char>) -> Decision {
    let i = literal_index(router.paths, method, path, 0);
    let j = matching_index(router.dyn_paths, method, path, 0);
    if 0 <= i < router.paths.len() {
        Decision::Literal(i)
    } else if 0 <= j < router.dyn_paths.len() {
        let k = binding_index(router.paths, method, router.dyn_paths[j].template, 0);
        if 0 <= k < router.paths.len() {
            Decision::Dynamic(j, k)
        } else {
            Decision::Orphan(j)
        }
    } else {
        Decision::Default
    }
}

/// The route table after `handler` is registered for `method` and
/// `template`: a binding for the same method and template is replaced where
/// it stands, a new one goes to the end; a template with a placeholder that
/// is not yet a dynamic route of the method becomes the last one.
pub open spec fn with_route<H>(
    router: RouterView<H>,
    method: Seq<char>,
    template: Seq<char>,
    handler: H,
) -> RouterView<H> {
    let dynamic = is_dynamic(template);
    let binding = BindingView { method, template, dynamic, handler };
    let i = binding_index(router.paths, method, template, 0);
    let j = dynamic_index(router.dyn_paths, method, template, 0);
    RouterView {
        paths: if 0 <= i < router.paths.len() {
            router.paths.update(i, binding)
        } else {
            router.paths.push(binding)
        },
        dyn_paths: if dynamic && !(0 <= j < router.dyn_paths.len()) {
            router.dyn_paths.push(
                DynamicRouteView { method, template, pattern: template_segments(template) },
            )
        } else {
            router.dyn_paths
        },
        ..router
    }
}

/// The route table is as registration leaves it: no two bindings and no two
/// dynamic routes share method and template, a binding is marked dynamic
/// exactly where its template has a placeholder, every dynamic route holds
/// the pattern of its template, whose placeholder names are distinct, and
/// has a binding.
pub open spec fn well_formed<H>(router: RouterView<H>) -> bool {
    &&& forall|i: int, k: int|
        0 <= i < k < router.paths.len() ==> !((#[trigger] router.paths[i]).method == (
        #[trigger] router.paths[k]).method && router.paths[i].template
            == router.paths[k].template)
    &&& forall|i: int, k: int|
        0 <= i < k < router.dyn_paths.len() ==> !((#[trigger] router.dyn_paths[i]).method == (
        #[trigger] router.dyn_paths[k]).method && router.dyn_paths[i].template
            == router.dyn_paths[k].template)
    &&& forall|i: int|
        0 <= i < router.paths.len() ==> (#[trigger] router.paths[i]).dynamic == is_dynamic(
            router.paths[i].template,
        )
    &&& forall|j: int|
        0 <= j < router.dyn_paths.len() ==> {
            let route = #[trigger] router.dyn_paths[j];
            &&& route.pattern == template_segments(route.template)
            &&& is_dynamic(route.template)
            &&& valid_template(route.template)
            &&& 0 <= binding_index(router.paths, route.method, route.template, 0)
                < router.paths.len()
        }
}

/// `handler` answered `res` to `request` with its url parameters replaced
/// by `captures`.
pub open spec fn answered_with_captures<H: Fn(Request) -> HttpResponse>(
    handler: H,
    request: Request,
    captures: Map<Seq<char>, Seq<char>>,
    res: HttpResponse,
) -> bool {
    exists|passed: Request|
        passed@ == (RequestView { url_params: captures, ..request@ }) && call_ensures(
            handler,
            (passed,),
            res,
        )
}

/// `res` answers `request` as the route table decides: the handler's answer
/// where the decision names one, the text `404 DYN` with status 200 for a
/// dynamic route without a binding, else the default response.
pub open spec fn dispatched<H: Fn(Request) -> HttpResponse>(
    router: RouterView<H>,
    request: Request,
    res: HttpResponse,
) -> bool {
    match decide(router, request@.method, request@.path) {
        Decision::Literal(i) => call_ensures(router.paths[i].handler, (request,), res),
        Decision::Dynamic(j, k) => answered_with_captures(
            router.paths[k].handler,
            request,
            captured(router.dyn_paths[j].pattern, request@.path),
            res,
        ),
        Decision::Orphan(_) => res@ == HttpResponseView::OK("404 DYN"@),
        Decision::Default => res@ == router.default_response,
    }
}

/// `res` answers a request on which the validator gave `verdict`:
/// `Unauthorized` where the validator let nothing pass, else what the route
/// table decides for the request that it let pass.
pub open spec fn answered<H: Fn(Request) -> HttpResponse>(
    router: RouterView<H>,
    verdict: Option<Request>,
    res: HttpResponse,
) -> bool {
    match verdict {
        None => res@ == HttpResponseView::Unauthorized,
        Some(request) => dispatched(router, request, res),
    }
}

/// A router: the route table, the validator that every request passes
/// first, the answer to a request without a route, and the number of workers
/// that serve connections.
pub struct Router<H, G> {
    pub paths: Vec<Binding<H>>,
    pub dyn_paths: Vec<DynamicRoute>,
    pub default_response: HttpResponse,
    /// The validator; without one every request passes unchanged.
    pub validator: Option<G>,
    pub thradpool_size: u16,
}

impl<H, G> View for Router<H, G> {
    type V = RouterView<H>;

    open spec fn view(&self) -> RouterView<H> {
        RouterView {
            paths: Seq::new(self.paths@.len(), |k: int| self.paths@[k]@),
            dyn_paths: Seq::new(self.dyn_paths@.len(), |k: int| self.dyn_paths@[k]@),
            default_response: self.default_response@,
            thradpool_size: self.thradpool_size,
        }
    }
}

impl<H: Fn(Request) -> HttpResponse, G: Fn(Request) -> Option<Request>> Router<H, G> {
    /// A router without routes: no validator, `NotFound` for every request,
    /// eight workers.
    pub fn new() -> (router: Router<H, G>)
        ensures
            router@ == (RouterView::<H> {
                paths: Seq::empty(),
                dyn_paths: Seq::empty(),
                default_response: HttpResponseView::NotFound,
                thradpool_size: 8,
            }),
            router.validator is None,
            well_formed(router@),
    {
        let router = Router {
            paths: Vec::new(),
            dyn_paths: Vec::new(),
            default_response: HttpResponse::NotFound,
            validator: None,
            thradpool_size: 8,
        };
        assert(router@.paths =~= Seq::empty());
        assert(router@.dyn_paths =~= Seq::empty());
        router
    }

    /// Registers `f` for `method` and the template `path`, whose placeholder
    /// names must be distinct. A second registration for the same method and
    /// template replaces the handler of the first and keeps its place.
    pub fn add_route(&mut self, path: &str, f: H, method: String)
        requires
            valid_template(path@),
        ensures
            final(self)@ == with_route(old(self)@, method@, path@, f),
            final(self).validator == old(self).validator,
            well_formed(old(self)@) ==> well_formed(final(self)@),
    {
        let template = path.to_owned();
        let pattern = RoutePattern::compile(path);
        let dynamic = pattern.is_dynamic();
        let i = self.find_binding(&method, &template);
        let j = self.find_dynamic(&method, &template);
        let ghost before = self@;
        if dynamic && j >= self.dyn_paths.len() {
            self.dyn_paths.push(
                DynamicRoute { method: method.clone(), template: template.clone(), pattern },
            );
        }
        let binding = Binding { method, template, dynamic, handler: f };
        if i < self.paths.len() {
            self.paths.set(i, binding);
        } else {
            self.paths.push(binding);
        }
        proof {
            let after = with_route(before, method@, path@, f);
            assert(self@.paths =~= after.paths);
            assert(self@.dyn_paths =~= after.dyn_paths);
            if well_formed(before) {
                law_registration_keeps_well_formed(before, method@, path@, f);
            }
        }
    }

    /// Registers `f` for GET requests to the template `path`.
    pub fn get(self, path: &str, f: H) -> (router: Router<H, G>)
        requires
            valid_template(path@),
        ensures
            router@ == with_route(self@, "GET"@, path@, f),
            router.validator == self.validator,
            well_formed(self@) ==> well_formed(router@),
    {
        let mut router = self;
        router.add_route(path, f, "GET".to_owned());
        router
    }

    /// Registers `f` for POST requests to the template `path`.
    pub fn post(self, path: &str, f: H) -> (router: Router<H, G>)
        requires
            valid_template(path@),
        ensures
            router@ == with_route(self@, "POST"@, path@, f),
            router.validator == self.validator,
            well_formed(self@) ==> well_formed(router@),
    {
        let mut router = self;
        router.add_route(path, f, "POST".to_owned());
        router
    }

    /// Registers `f` for PUT requests to the template `path`.
    pub fn put(self, path: &str, f: H) -> (router: Router<H, G>)
        requires
            valid_template(path@),
        ensures
            router@ == with_route(self@, "PUT"@, path@, f),
            router.validator == self.validator,
            well_formed(self@) ==> well_formed(router@),
    {
        let mut router = self;
        router.add_route(path, f, "PUT".to_owned());
        router
    }

    /// Registers `f` for DELETE requests to the template `path`.
    pub fn delete(self, path: &str, f: H) -> (router: Router<H, G>)
        requires
            valid_template(path@),
        ensures
            router@ == with_route(self@, "DELETE"@, path@, f),
            router.validator == self.validator,
            well_formed(self@) ==> well_formed(router@),
    {
        let mut router = self;
        router.add_route(path, f, "DELETE".to_owned());
        router
    }

    /// Sets the answer to a request that finds no route.
    pub fn default(self, default_resp: HttpResponse) -> (router: Router<H, G>)
        ensures
            router@ == (RouterView { default_response: default_resp@, ..self@ }),
            router.validator == self.validator,
    {
        let mut router = self;
        router.default_response = default_resp;
        router
    }

    /// Sets the validator that every request passes before it is routed.
    pub fn validator(self, f: G) -> (router: Router<H, G>)
        ensures
            router@ == self@,
            router.validator == Some(f),
    {
        let mut router = self;
        router.validator = Some(f);
        router
    }

    /// Ends the building of the router: the router as it is, to be shared by
    /// the workers that serve connections.
    pub fn okay(self) -> (shared: Arc<Router<H, G>>)
        ensures
            *shared == self,
    {
        Arc::new(self)
    }

    /// Sets the number of workers that serve connections.
    pub fn thradpool_size(self, size: u16) -> (router: Router<H, G>)
        ensures
            router@ == (RouterView { thradpool_size: size, ..self@ }),
            router.validator == self.validator,
    {
        let mut router = self;
        router.thradpool_size = size;
        router
    }

    /// The position of the binding for `method` and `template`, or the
    /// number of bindings where there is none.
    pub fn find_binding(&self, method: &String, template: &String) -> (i: usize)
        ensures
            i == binding_index(self@.paths, method@, template@, 0),
            i <= self.paths@.len(),
    {
        let mut i: usize = 0;
        while i < self.paths.len()
            invariant
                i <= self.paths@.len(),
                binding_index(self@.paths, method@, template@, 0) == binding_index(
                    self@.paths,
                    method@,
                    template@,
                    i as int,
                ),
            decreases self.paths@.len() - i,
        {
            assert(self@.paths[i as int] == self.paths@[i as int]@);
            if same_text(&self.paths[i].method, method) && same_text(
                &self.paths[i].template,
                template,
            ) {
                return i;
            }
            i += 1;
        }
        i
    }

    /// The position of the literal binding for `method` and `path`, or the
    /// number of bindings where there is none.
    pub fn find_literal(&self, method: &String, path: &String) -> (i: usize)
        ensures
            i == literal_index(self@.paths, method@, path@, 0),
            i <= self.paths@.len(),
    {
        let mut i: usize = 0;
        while i < self.paths.len()
            invariant
                i <= self.paths@.len(),
                literal_index(self@.paths, method@, path@, 0) == literal_index(
                    self@.paths,
                    method@,
                    path@,
                    i as int,
                ),
            decreases self.paths@.len() - i,
        {
            assert(self@.paths[i as int] == self.paths@[i as int]@);
            if !self.paths[i].dynamic && same_text(&self.paths[i].method, method) && same_text(
                &self.paths[i].template,
                path,
            ) {
                return i;
            }
            i += 1;
        }
        i
    }

    /// The position of the dynamic route for `method` and `template`, or the
    /// number of dynamic routes where there is none.
    pub fn find_dynamic(&self, method: &String, template: &String) -> (j: usize)
        ensures
            j == dynamic_index(self@.dyn_paths, method@, template@, 0),
            j <= self.dyn_paths@.len(),
    {
        let mut j: usize = 0;
        while j < self.dyn_paths.len()
            invariant
                j <= self.dyn_paths@.len(),
                dynamic_index(self@.dyn_paths, method@, template@, 0) == dynamic_index(
                    self@.dyn_paths,
                    method@,
                    template@,
                    j as int,
                ),
            decreases self.dyn_paths@.len() - j,
        {
            assert(self@.dyn_paths[j as int] == self.dyn_paths@[j as int]@);
            if same_text(&self.dyn_paths[j].method, method) && same_text(
                &self.dyn_paths[j].template,
                template,
            ) {
                return j;
            }
            j += 1;
        }
        j
    }

    /// Tries the dynamic routes of `method` in the order of registration and
    /// returns the position of the first whose pattern the whole of `path`
    /// matches, with its captures.
    pub fn first_match(&self, method: &String, path: &str) -> (r: Option<(usize, StringMap)>)
        ensures
            match r {
                Some((j, found)) => j == matching_index(self@.dyn_paths, method@, path@, 0) && j
                    < self.dyn_paths@.len() && found@ == captured(
                    self@.dyn_paths[j as int].pattern,
                    path@,
                ),
                None => matching_index(self@.dyn_paths, method@, path@, 0)
                    == self.dyn_paths@.len(),
            },
    {
        let mut j: usize = 0;
        while j < self.dyn_paths.len()
            invariant
                j <= self.dyn_paths@.len(),
                matching_index(self@.dyn_paths, method@, path@, 0) == matching_index(
                    self@.dyn_paths,
                    method@,
                    path@,
                    j as int,
                ),
            decreases self.dyn_paths@.len() - j,
        {
            assert(self@.dyn_paths[j as int] == self.dyn_paths@[j as int]@);
            if same_text(&self.dyn_paths[j].method, method) {
                if let Some(found) = self.dyn_paths[j].pattern.matches(path) {
                    return Some((j, found));
                }
            }
            j += 1;
        }
        None
    }

    /// Every handler and the validator accept every request.
    pub open spec fn callable(&self) -> bool {
        &&& forall|k: int, request: Request|
            0 <= k < self.paths@.len() ==> #[trigger] call_requires(
                self.paths@[k].handler,
                (request,),
            )
        &&& self.validator matches Some(check) ==> forall|request: Request| #[trigger]
            call_requires(check, (request,))
    }

    /// `res` answers `request`: some verdict of the validator on `request` and
    /// the route table give it. Without a validator the request passes unchanged.
    pub open spec fn routed(&self, request: Request, res: HttpResponse) -> bool {
        match self.validator {
            Some(check) => exists|verdict: Option<Request>|
                call_ensures(check, (request,), verdict) && answered(self@, verdict, res),
            None => dispatched(self@, request, res),
        }
    }

    /// Answers a request that has passed the validator: by the handler of the
    /// literal binding for its method and path; else by the handler of the
    /// first dynamic route of its method that its path matches, with the
    /// captures as url parameters; else by the default response.
    pub fn dispatch(&self, request: Request) -> (res: HttpResponse)
        requires
            self.callable(),
        ensures
            dispatched(self@, request, res),
    {
        let mut request = request;
        let ghost given = request;
        let i = self.find_literal(&request.method, &request.path);
        if i < self.paths.len() {
            assert(self@.paths[i as int] == self.paths@[i as int]@);
            let handler = &self.paths[i].handler;
            return handler(request);
        }
        match self.first_match(&request.method, request.path.as_str()) {
            Some((j, found)) => {
                assert(self@.dyn_paths[j as int] == self.dyn_paths@[j as int]@);
                let k = self.find_binding(&request.method, &self.dyn_paths[j].template);
                if k < self.paths.len() {
                    assert(self@.paths[k as int] == self.paths@[k as int]@);
                    request.set_url_params(found);
                    let ghost passed = request;
                    let handler = &self.paths[k].handler;
                    let res = handler(request);
                    assert(answered_with_captures(
                        self@.paths[k as int].handler,
                        given,
                        captured(self@.dyn_paths[j as int].pattern, given@.path),
                        res,
                    )) by {
                        assert(passed@ == (RequestView {
                            url_params: captured(self@.dyn_paths[j as int].pattern, given@.path),
                            ..given@
                        }));
                        assert(call_ensures(self@.paths[k as int].handler, (passed,), res));
                    }
                    res
                } else {
                    HttpResponse::OK("404 DYN".to_owned())
                }
            },
            None => self.default_response.clone(),
        }
    }

    /// Answers a request on which the validator has given its verdict.
    pub fn answer(&self, verdict: Option<Request>) -> (res: HttpResponse)
        requires
            self.callable(),
        ensures
            answered(self@, verdict, res),
            verdict is None ==> res@ == HttpResponseView::Unauthorized,
    {
        match verdict {
            Some(request) => self.dispatch(request),
            None => HttpResponse::Unauthorized,
        }
    }

    /// Answers a request: the validator gives its verdict, and the route
    /// table decides on what the validator let pass. Without a validator the
    /// request passes unchanged.
    pub fn route(&self, request: Request) -> (res: HttpResponse)
        requires
            self.callable(),
        ensures
            self.routed(request, res),
    {
        match &self.validator {
            Some(check) => {
                let verdict = check(request);
                let res = self.answer(verdict);
                assert(call_ensures(check, (request,), verdict) && answered(self@, verdict, res));
                res
            },
            None => self.dispatch(request),
        }
    }

    /// The template of the first dynamic route of `method` that the whole of
    /// `requested_path` matches, with the captures of its placeholders.
    pub fn matches_dyn_route(&self, method: &String, requested_path: &str) -> (r: Option<
        (&String, StringMap),
    >)
        ensures
            r is Some <==> matching_index(self@.dyn_paths, method@, requested_path@, 0)
                < self.dyn_paths@.len(),
            r matches Some((template, found)) ==> {
                let j = matching_index(self@.dyn_paths, method@, requested_path@, 0);
                &&& template@ == self@.dyn_paths[j].template
                &&& found@ == captured(self@.dyn_paths[j].pattern, requested_path@)
            },
    {
        match self.first_match(method, requested_path) {
            Some((j, found)) => Some((&self.dyn_paths[j].template, found)),
            None => None,
        }
    }
}

} // verus!
