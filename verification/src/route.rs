use vstd::prelude::*;
use crate::bytes::bytes_eq;
use crate::bytes::clone_bytes;
use crate::http::Binding;
use crate::http::BindingModel;
use crate::http::Method;

verus! {

broadcast use crate::bytes::lemma_bytes_deep_view;

/// An assembly-time configuration fault: startup must abort on it.
#[derive(Clone, Copy, PartialEq, Eq, Structural, Debug)]
pub enum ConfigError {
    /// Two registrations in one scope share method and resolved template.
    RouteConflict,
}

/// One segment of a path template: a literal to compare byte-for-byte, or a
/// named dynamic segment that binds whatever literal stands in its place.
pub enum TemplateSeg {
    Lit(Vec<u8>),
    Dyn(Vec<u8>),
}

/// The mathematical model of a `TemplateSeg`.
#[verifier::ext_equal]
pub enum TemplateSegModel {
    Lit(Seq<u8>),
    Dyn(Seq<u8>),
}

impl View for TemplateSeg {
    type V = TemplateSegModel;

    open spec fn view(&self) -> TemplateSegModel {
        match self {
            TemplateSeg::Lit(b) => TemplateSegModel::Lit(b@),
            TemplateSeg::Dyn(b) => TemplateSegModel::Dyn(b@),
        }
    }
}

impl DeepView for TemplateSeg {
    type V = TemplateSegModel;

    open spec fn deep_view(&self) -> TemplateSegModel {
        self.view()
    }
}

/// How a scope maps a failed body extraction to a response.
#[derive(Clone, Copy, PartialEq, Eq, Structural, Debug)]
pub enum BodyErrorHandler {
    /// The default policy: a generic 400-class response.
    DefaultBadRequest,
    /// A scope-local override: a 409-class response.
    Conflict,
}

/// Scope-local configuration of the body extractor.
#[derive(Clone, Copy, PartialEq, Eq, Structural, Debug)]
pub struct BodyConfig {
    /// Caps the body extractor's input size; `None` leaves it unbounded.
    pub max_bytes: Option<u64>,
    /// Where a body extraction fails, picks the response class.
    pub on_error: BodyErrorHandler,
}

/// The body configuration that applies where no scope overrides it.
pub open spec fn default_body_config() -> BodyConfig {
    BodyConfig { max_bytes: None, on_error: BodyErrorHandler::DefaultBadRequest }
}

/// A node of the scope tree: a path prefix plus scope-local configuration,
/// applying to its routes and all descendants unless overridden.
pub struct Scope {
    /// The parent scope; `None` only for the root.
    pub parent: Option<usize>,
    /// The literal path segments this scope prefixes to its routes.
    pub prefix: Vec<Vec<u8>>,
    /// Scope-local body-extractor configuration, if any.
    pub body_cfg: Option<BodyConfig>,
}

/// The mathematical model of a `Scope`.
#[verifier::ext_equal]
pub struct ScopeModel {
    pub parent: Option<usize>,
    pub prefix: Seq<Seq<u8>>,
    pub body_cfg: Option<BodyConfig>,
}

impl View for Scope {
    type V = ScopeModel;

    open spec fn view(&self) -> ScopeModel {
        ScopeModel { parent: self.parent, prefix: self.prefix.deep_view(), body_cfg: self.body_cfg }
    }
}

impl DeepView for Scope {
    type V = ScopeModel;

    open spec fn deep_view(&self) -> ScopeModel {
        self.view()
    }
}

/// One registered binding of method and resolved template to a handler.
pub struct Route<H> {
    pub method: Method,
    /// The full template: the owning scope's resolved prefix, then the
    /// segments given at registration.
    pub segs: Vec<TemplateSeg>,
    /// The scope the route was registered in.
    pub scope: usize,
    pub handler: H,
}

/// The mathematical model of a `Route`.
#[verifier::ext_equal]
pub struct RouteModel<H> {
    pub method: Method,
    pub segs: Seq<TemplateSegModel>,
    pub scope: usize,
    pub handler: H,
}

impl<H: Copy> View for Route<H> {
    type V = RouteModel<H>;

    open spec fn view(&self) -> RouteModel<H> {
        RouteModel {
            method: self.method,
            segs: self.segs.deep_view(),
            scope: self.scope,
            handler: self.handler,
        }
    }
}

impl<H: Copy> DeepView for Route<H> {
    type V = RouteModel<H>;

    open spec fn deep_view(&self) -> RouteModel<H> {
        self.view()
    }
}

/// True when the template matches the path segments: same length, every
/// literal equal byte-for-byte, dynamic segments matching anything.
pub open spec fn segs_match(t: Seq<TemplateSegModel>, p: Seq<Seq<u8>>) -> bool {
    &&& t.len() == p.len()
    &&& forall|i: int|
        0 <= i < t.len() ==> match #[trigger] t[i] {
            TemplateSegModel::Lit(l) => l == p[i],
            TemplateSegModel::Dyn(_) => true,
        }
}

/// The bindings a match produces: for each dynamic segment, in template
/// order, its name paired with the literal text standing in its place.
pub open spec fn bindings_spec(t: Seq<TemplateSegModel>, p: Seq<Seq<u8>>) -> Seq<BindingModel>
    recommends
        t.len() == p.len(),
    decreases t.len(),
{
    if t.len() == 0 {
        Seq::<BindingModel>::empty()
    } else {
        bindings_spec(t.drop_last(), p.drop_last()) + match t.last() {
            TemplateSegModel::Lit(_) => Seq::<BindingModel>::empty(),
            TemplateSegModel::Dyn(n) => seq![BindingModel { name: n, value: p.last() }],
        }
    }
}

/// The index of the first route matching method and path, in registration
/// order; `None` where no route matches.
pub open spec fn first_match<H>(
    routes: Seq<RouteModel<H>>,
    method: Method,
    p: Seq<Seq<u8>>,
) -> Option<int>
    decreases routes.len(),
{
    if routes.len() == 0 {
        None::<int>
    } else {
        match first_match(routes.drop_last(), method, p) {
            Some(i) => Some(i),
            None => if routes.last().method == method && segs_match(routes.last().segs, p) {
                Some(routes.len() - 1)
            } else {
                None::<int>
            },
        }
    }
}

/// What `first_match` promises: the route it names matches, no earlier route
/// does, and `None` means no route matches at all.
pub proof fn lemma_first_match_props<H>(routes: Seq<RouteModel<H>>, method: Method, p: Seq<Seq<u8>>)
    ensures
        match first_match(routes, method, p) {
            None => forall|j: int|
                0 <= j < routes.len() ==> !(#[trigger] routes[j].method == method && segs_match(
                    routes[j].segs,
                    p,
                )),
            Some(i) => {
                &&& 0 <= i < routes.len()
                &&& routes[i].method == method
                &&& segs_match(routes[i].segs, p)
                &&& forall|j: int|
                    0 <= j < i ==> !(#[trigger] routes[j].method == method && segs_match(
                        routes[j].segs,
                        p,
                    ))
            },
        },
    decreases routes.len(),
{
    if routes.len() > 0 {
        lemma_first_match_props(routes.drop_last(), method, p);
        assert(forall|j: int|
            0 <= j < routes.len() - 1 ==> routes.drop_last()[j] == routes[j]);
    }
}

/// The scope chain from the root to `s`, most specific last.
pub open spec fn scope_chain_spec(scopes: Seq<ScopeModel>, s: int) -> Seq<int>
    decreases s,
{
    if 0 <= s < scopes.len() {
        match scopes[s].parent {
            None => seq![s],
            Some(par) => if par < s {
                scope_chain_spec(scopes, par as int).push(s)
            } else {
                seq![s]
            },
        }
    } else {
        Seq::<int>::empty()
    }
}

/// The literal segments every route of scope `s` is prefixed with: the
/// prefixes along the scope chain, root first.
pub open spec fn resolved_prefix(scopes: Seq<ScopeModel>, s: int) -> Seq<Seq<u8>>
    decreases s,
{
    if 0 <= s < scopes.len() {
        match scopes[s].parent {
            None => scopes[s].prefix,
            Some(par) => if par < s {
                resolved_prefix(scopes, par as int) + scopes[s].prefix
            } else {
                scopes[s].prefix
            },
        }
    } else {
        Seq::<Seq<u8>>::empty()
    }
}

/// The full template of a registration: the scope's resolved prefix as
/// literal segments, then the declared template.
pub open spec fn full_template(
    scopes: Seq<ScopeModel>,
    s: int,
    t: Seq<TemplateSegModel>,
) -> Seq<TemplateSegModel> {
    resolved_prefix(scopes, s).map_values(|b: Seq<u8>| TemplateSegModel::Lit(b)) + t
}

/// True when some registration in scope `s` already claims this method and
/// resolved template: the ambiguity `register` must refuse.
pub open spec fn conflicts<H>(
    routes: Seq<RouteModel<H>>,
    s: usize,
    method: Method,
    full: Seq<TemplateSegModel>,
) -> bool {
    exists|j: int|
        0 <= j < routes.len() && #[trigger] routes[j].scope == s && routes[j].method == method
            && routes[j].segs == full
}

/// A successful match: the handler, the scope it was registered in, and the
/// values bound by the template's dynamic segments.
pub struct MatchResult<H> {
    pub handler: H,
    pub scope: usize,
    pub params: Vec<Binding>,
}

/// The immutable set of registered routes, with the scope tree that prefixes
/// and configures them. Built once at assembly; only read while serving.
pub struct RouteTable<H> {
    pub scopes: Vec<Scope>,
    pub routes: Vec<Route<H>>,
}

impl<H: Copy> RouteTable<H> {
    /// Scopes form a tree rooted at index 0 (parents precede children), and
    /// every route points into it.
    pub open spec fn wf(self) -> bool {
        &&& self.scopes.len() >= 1
        &&& self.scopes[0].parent is None
        &&& forall|i: int|
            1 <= i < self.scopes@.len() ==> ((#[trigger] self.scopes@[i].parent) matches Some(p)
                && p < i)
        &&& forall|j: int|
            0 <= j < self.routes@.len() ==> (#[trigger] self.routes@[j].scope) < self.scopes.len()
    }

    /// A table holding only the root scope and no routes.
    pub fn new() -> (r: RouteTable<H>)
        ensures
            r.wf(),
            r.routes@.len() == 0,
            r.scopes.deep_view() == seq![
                ScopeModel {
                    parent: None::<usize>,
                    prefix: Seq::<Seq<u8>>::empty(),
                    body_cfg: None::<BodyConfig>,
                },
            ],
    {
        let mut scopes: Vec<Scope> = Vec::new();
        scopes.push(Scope { parent: None, prefix: Vec::new(), body_cfg: None });
        let r = RouteTable { scopes, routes: Vec::new() };
        proof {
            assert(r.scopes@[0]@.prefix =~~= Seq::<Seq<u8>>::empty());
            assert(r.scopes.deep_view() =~~= seq![
                ScopeModel {
                    parent: None::<usize>,
                    prefix: Seq::<Seq<u8>>::empty(),
                    body_cfg: None::<BodyConfig>,
                },
            ]);
        }
        r
    }

    /// Adds a child scope under `parent` and returns its id.
    pub fn add_scope(
        &mut self,
        parent: usize,
        prefix: Vec<Vec<u8>>,
        body_cfg: Option<BodyConfig>,
    ) -> (r: usize)
        requires
            old(self).wf(),
            parent < old(self).scopes.len(),
        ensures
            final(self).wf(),
            r == old(self).scopes.len(),
            final(self).routes@ == old(self).routes@,
            final(self).scopes.deep_view() == old(self).scopes.deep_view().push(
                ScopeModel { parent: Some(parent), prefix: prefix.deep_view(), body_cfg },
            ),
    {
        let id = self.scopes.len();
        self.scopes.push(Scope { parent: Some(parent), prefix, body_cfg });
        proof {
            assert(self.scopes.deep_view() =~~= old(self).scopes.deep_view().push(
                self.scopes@[id as int].deep_view(),
            ));
        }
        id
    }

    /// Registers a handler for `method` on the scope's prefix plus
    /// `template`. Fails, and leaves the table unchanged, exactly when the
    /// same scope already maps that method and resolved template.
    pub fn register(
        &mut self,
        scope: usize,
        method: Method,
        template: Vec<TemplateSeg>,
        handler: H,
    ) -> (r: Result<(), ConfigError>)
        requires
            old(self).wf(),
            scope < old(self).scopes.len(),
        ensures
            final(self).wf(),
            final(self).scopes@ == old(self).scopes@,
            r is Err <==> conflicts(
                old(self).routes.deep_view(),
                scope,
                method,
                full_template(old(self).scopes.deep_view(), scope as int, template.deep_view()),
            ),
            r matches Err(e) ==> e == ConfigError::RouteConflict && final(self).routes@ == old(
                self,
            ).routes@,
            r is Ok ==> final(self).routes.deep_view() == old(self).routes.deep_view().push(
                RouteModel {
                    method,
                    segs: full_template(
                        old(self).scopes.deep_view(),
                        scope as int,
                        template.deep_view(),
                    ),
                    scope,
                    handler,
                },
            ),
    {
        let prefix = self.resolve_prefix(scope);
        let mut segs: Vec<TemplateSeg> = Vec::new();
        let mut i: usize = 0;
        while i < prefix.len()
            invariant
                i <= prefix.len(),
                segs.deep_view() == prefix.deep_view().take(i as int).map_values(
                    |b: Seq<u8>| TemplateSegModel::Lit(b),
                ),
            decreases prefix.len() - i,
        {
            let ghost segs_dv = segs.deep_view();
            segs.push(TemplateSeg::Lit(clone_bytes(&prefix[i])));
            proof {
                assert(segs.deep_view() =~~= segs_dv.push(
                    TemplateSegModel::Lit(prefix.deep_view()[i as int]),
                ));
                assert(segs.deep_view() =~~= prefix.deep_view().take(i + 1).map_values(
                    |b: Seq<u8>| TemplateSegModel::Lit(b),
                ));
            }
            i += 1;
        }
        proof {
            assert(prefix.deep_view().take(prefix@.len() as int) =~~= prefix.deep_view());
        }
        let ghost pre_len = segs@.len() as int;
        let ghost full = segs.deep_view() + template.deep_view();
        proof {
            assert(full.take(pre_len) =~~= segs.deep_view());
        }
        let mut k: usize = 0;
        while k < template.len()
            invariant
                k <= template@.len(),
                0 <= pre_len,
                segs@.len() == pre_len + k,
                full == full.take(pre_len) + template.deep_view(),
                pre_len + template@.len() == full.len(),
                segs.deep_view() == full.take(pre_len + k),
            decreases template@.len() - k,
        {
            let ghost segs_dv = segs.deep_view();
            segs.push(clone_seg(&template[k]));
            proof {
                assert(segs.deep_view() =~~= segs_dv.push(template.deep_view()[k as int]));
                assert(full[pre_len + k] == template.deep_view()[k as int]);
                assert(segs.deep_view() =~~= full.take(pre_len + k + 1));
            }
            k += 1;
        }
        proof {
            assert(full.take(full.len() as int) =~~= full);
            assert(segs.deep_view() =~~= full);
            assert(full == full_template(
                old(self).scopes.deep_view(),
                scope as int,
                template.deep_view(),
            ));
        }
        if self.has_conflict(scope, method, &segs) {
            Err(ConfigError::RouteConflict)
        } else {
            let ghost routes_dv = self.routes.deep_view();
            self.routes.push(Route { method, segs, scope, handler });
            proof {
                assert(self.routes.deep_view() =~~= routes_dv.push(
                    RouteModel { method, segs: full, scope, handler },
                ));
            }
            Ok(())
        }
    }

    /// The resolved literal prefix of scope `s`: its ancestors' prefixes,
    /// root first, then its own.
    fn resolve_prefix(&self, s: usize) -> (r: Vec<Vec<u8>>)
        requires
            self.wf(),
            s < self.scopes.len(),
        ensures
            r.deep_view() == resolved_prefix(self.scopes.deep_view(), s as int),
        decreases s,
    {
        let mut r: Vec<Vec<u8>> = match self.scopes[s].parent {
            None => Vec::new(),
            Some(par) => self.resolve_prefix(par),
        };
        let mut i: usize = 0;
        let ghost r_dv = r.deep_view();
        while i < self.scopes[s].prefix.len()
            invariant
                self.wf(),
                s < self.scopes.len(),
                i <= self.scopes@[s as int].prefix.len(),
                r.deep_view() == r_dv + self.scopes@[s as int].prefix.deep_view().take(i as int),
            decreases self.scopes@[s as int].prefix.len() - i,
        {
            let ghost cur = r.deep_view();
            let b = clone_bytes(&self.scopes[s].prefix[i]);
            r.push(b);
            proof {
                let pre = self.scopes@[s as int].prefix.deep_view();
                assert(r.deep_view() =~~= cur.push(pre[i as int]));
                assert(cur.push(pre[i as int]) =~~= r_dv + pre.take(i + 1));
            }
            i += 1;
        }
        proof {
            let pre = self.scopes@[s as int].prefix.deep_view();
            assert(pre.take(pre.len() as int) =~~= pre);
            assert(r.deep_view() =~~= resolved_prefix(self.scopes.deep_view(), s as int));
        }
        r
    }

    /// True exactly when a route of `scope` already has this method and
    /// template.
    fn has_conflict(&self, scope: usize, method: Method, full: &Vec<TemplateSeg>) -> (r: bool)
        ensures
            r <==> conflicts(self.routes.deep_view(), scope, method, full.deep_view()),
    {
        let mut j: usize = 0;
        while j < self.routes.len()
            invariant
                j <= self.routes@.len(),
                forall|x: int|
                    0 <= x < j ==> !(#[trigger] self.routes.deep_view()[x].scope == scope
                        && self.routes.deep_view()[x].method == method
                        && self.routes.deep_view()[x].segs == full.deep_view()),
            decreases self.routes@.len() - j,
        {
            if self.routes[j].scope == scope && method_eq(self.routes[j].method, method)
                && template_eq(&self.routes[j].segs, full) {
                proof {
                    let rv = self.routes.deep_view();
                    assert(rv[j as int] == self.routes@[j as int]@);
                    assert(rv[j as int].scope == scope && rv[j as int].method == method && rv[
                        j as int
                    ].segs == full.deep_view());
                }
                return true;
            }
            j += 1;
        }
        false
    }

    /// The scope chain of `s`, root first, most specific last.
    pub fn scope_chain(&self, s: usize) -> (r: Vec<usize>)
        requires
            self.wf(),
            s < self.scopes.len(),
        ensures
            r@.map_values(|x: usize| x as int) == scope_chain_spec(self.scopes.deep_view(), s as int),
        decreases s,
    {
        let mut r: Vec<usize> = match self.scopes[s].parent {
            None => Vec::new(),
            Some(par) => self.scope_chain(par),
        };
        r.push(s);
        proof {
            assert(r@.map_values(|x: usize| x as int) =~= scope_chain_spec(
                self.scopes.deep_view(),
                s as int,
            ));
        }
        r
    }

    /// Matches a request against the table: the first registered route whose
    /// method and template fit, with its dynamic segments bound to the
    /// literal text standing in their places.
    pub fn match_route(&self, method: Method, path_segs: &Vec<Vec<u8>>) -> (r: Option<
        MatchResult<H>,
    >)
        ensures
            match first_match(self.routes.deep_view(), method, path_segs.deep_view()) {
                None => r is None,
                Some(i) => r matches Some(m) && {
                    &&& m.handler == self.routes.deep_view()[i].handler
                    &&& m.scope == self.routes.deep_view()[i].scope
                    &&& m.params.deep_view() == bindings_spec(
                        self.routes.deep_view()[i].segs,
                        path_segs.deep_view(),
                    )
                },
            },
    {
        let ghost routes_dv = self.routes.deep_view();
        let ghost p = path_segs.deep_view();
        let mut j: usize = 0;
        while j < self.routes.len()
            invariant
                j <= self.routes@.len(),
                routes_dv == self.routes.deep_view(),
                p == path_segs.deep_view(),
                first_match(routes_dv.take(j as int), method, p) is None,
            decreases self.routes@.len() - j,
        {
            if method_eq(self.routes[j].method, method) && segs_match_exec(
                &self.routes[j].segs,
                path_segs,
            ) {
                let params = compute_bindings(&self.routes[j].segs, path_segs);
                proof {
                    assert(routes_dv.take(j + 1).drop_last() =~= routes_dv.take(j as int));
                    assert(routes_dv.take(j + 1).last() == routes_dv[j as int]);
                    assert(first_match(routes_dv.take(j + 1), method, p) == Some(j as int));
                    lemma_first_match_extend(routes_dv, method, p, j + 1);
                    assert(routes_dv.take(routes_dv.len() as int) =~= routes_dv);
                }
                return Some(
                    MatchResult {
                        handler: self.routes[j].handler,
                        scope: self.routes[j].scope,
                        params,
                    },
                );
            }
            proof {
                assert(routes_dv.take(j + 1).drop_last() =~= routes_dv.take(j as int));
                assert(routes_dv.take(j + 1).last() == routes_dv[j as int]);
            }
            j += 1;
        }
        proof {
            assert(routes_dv.take(routes_dv.len() as int) =~= routes_dv);
        }
        None
    }
}

/// Once a prefix of the routes has a first match, appending more routes
/// cannot change it.
pub proof fn lemma_first_match_extend<H>(
    routes: Seq<RouteModel<H>>,
    method: Method,
    p: Seq<Seq<u8>>,
    k: int,
)
    requires
        0 <= k <= routes.len(),
        first_match(routes.take(k), method, p) is Some,
    ensures
        first_match(routes, method, p) == first_match(routes.take(k), method, p),
    decreases routes.len() - k,
{
    if k < routes.len() {
        assert(routes.take(k + 1).drop_last() =~= routes.take(k));
        lemma_first_match_extend(routes, method, p, k + 1);
    } else {
        assert(routes.take(k) =~= routes);
    }
}

/// Copies a template segment.
fn clone_seg(s: &TemplateSeg) -> (r: TemplateSeg)
    ensures
        r@ == s@,
{
    match s {
        TemplateSeg::Lit(b) => TemplateSeg::Lit(clone_bytes(b)),
        TemplateSeg::Dyn(b) => TemplateSeg::Dyn(clone_bytes(b)),
    }
}

/// True exactly when the two methods are the same.
fn method_eq(a: Method, b: Method) -> (r: bool)
    ensures
        r <==> a == b,
{
    a == b
}

/// True exactly when the two templates are the same segment for segment.
fn template_eq(a: &Vec<TemplateSeg>, b: &Vec<TemplateSeg>) -> (r: bool)
    ensures
        r <==> a.deep_view() == b.deep_view(),
{
    if a.len() != b.len() {
        proof {
            assert(a.deep_view().len() == a@.len());
            assert(b.deep_view().len() == b@.len());
        }
        return false;
    }
    let mut i: usize = 0;
    while i < a.len()
        invariant
            i <= a@.len(),
            a@.len() == b@.len(),
            forall|j: int| 0 <= j < i ==> a.deep_view()[j] == b.deep_view()[j],
        decreases a@.len() - i,
    {
        let same = match (&a[i], &b[i]) {
            (TemplateSeg::Lit(x), TemplateSeg::Lit(y)) => bytes_eq(x.as_slice(), y.as_slice()),
            (TemplateSeg::Dyn(x), TemplateSeg::Dyn(y)) => bytes_eq(x.as_slice(), y.as_slice()),
            _ => false,
        };
        if !same {
            proof {
                assert(a.deep_view()[i as int] != b.deep_view()[i as int]);
            }
            return false;
        }
        i += 1;
    }
    proof {
        assert(a.deep_view() =~= b.deep_view());
    }
    true
}

/// True exactly when the template matches the path segments.
fn segs_match_exec(t: &Vec<TemplateSeg>, p: &Vec<Vec<u8>>) -> (r: bool)
    ensures
        r <==> segs_match(t.deep_view(), p.deep_view()),
{
    if t.len() != p.len() {
        proof {
            assert(t.deep_view().len() == t@.len());
            assert(p.deep_view().len() == p@.len());
        }
        return false;
    }
    let mut i: usize = 0;
    while i < t.len()
        invariant
            i <= t@.len(),
            t@.len() == p@.len(),
            forall|j: int|
                0 <= j < i ==> match #[trigger] t.deep_view()[j] {
                    TemplateSegModel::Lit(l) => l == p.deep_view()[j],
                    TemplateSegModel::Dyn(_) => true,
                },
        decreases t@.len() - i,
    {
        let ok = match &t[i] {
            TemplateSeg::Lit(l) => bytes_eq(l.as_slice(), p[i].as_slice()),
            TemplateSeg::Dyn(_) => true,
        };
        if !ok {
            proof {
                assert(t.deep_view()[i as int] == t@[i as int]@);
                assert(p.deep_view()[i as int] == p@[i as int]@);
                assert(t@[i as int]@ matches TemplateSegModel::Lit(l) && l != p@[i as int]@);
            }
            return false;
        }
        proof {
            assert(t.deep_view()[i as int] == t@[i as int]@);
            assert(p.deep_view()[i as int] == p@[i as int]@);
        }
        i += 1;
    }
    true
}

/// The bindings of a successful match, in template order.
fn compute_bindings(t: &Vec<TemplateSeg>, p: &Vec<Vec<u8>>) -> (r: Vec<Binding>)
    requires
        t@.len() == p@.len(),
    ensures
        r.deep_view() == bindings_spec(t.deep_view(), p.deep_view()),
{
    let mut r: Vec<Binding> = Vec::new();
    let mut i: usize = 0;
    while i < t.len()
        invariant
            i <= t@.len(),
            t@.len() == p@.len(),
            r.deep_view() == bindings_spec(
                t.deep_view().take(i as int),
                p.deep_view().take(i as int),
            ),
        decreases t@.len() - i,
    {
        let ghost r_dv = r.deep_view();
        match &t[i] {
            TemplateSeg::Lit(_) => (),
            TemplateSeg::Dyn(n) => {
                let ghost nv = n@;
                let name = clone_bytes(n);
                let value = clone_bytes(&p[i]);
                r.push(Binding { name, value });
                proof {
                    assert(r.deep_view() =~= r_dv.push(
                        BindingModel { name: nv, value: p@[i as int]@ },
                    ));
                }
            },
        }
        proof {
            let tv = t.deep_view();
            let pv = p.deep_view();
            assert(tv[i as int] == t@[i as int]@);
            assert(pv[i as int] == p@[i as int]@);
            assert(tv.take(i + 1).drop_last() =~= tv.take(i as int));
            assert(pv.take(i + 1).drop_last() =~= pv.take(i as int));
            assert(tv.take(i + 1).last() == tv[i as int]);
            assert(pv.take(i + 1).last() == pv[i as int]);
            match tv[i as int] {
                TemplateSegModel::Lit(_) => {
                    assert(r.deep_view() =~= bindings_spec(tv.take(i + 1), pv.take(i + 1)));
                },
                TemplateSegModel::Dyn(n) => {
                    assert(r.deep_view() =~= r_dv.push(
                        BindingModel { name: n, value: pv[i as int] },
                    ));
                    assert(r.deep_view() =~= bindings_spec(tv.take(i + 1), pv.take(i + 1)));
                },
            }
        }
        i += 1;
    }
    proof {
        assert(t.deep_view().take(t@.len() as int) =~= t.deep_view());
        assert(p.deep_view().take(p@.len() as int) =~= p.deep_view());
    }
    r
}

/// The routing law: a registered route that matches the path, where no
/// earlier registration also matches, is exactly what `match_route` finds,
/// and every dynamic segment of its template binds exactly the literal text
/// standing in its place in the path.
pub proof fn lemma_match_returns_registered<H>(
    routes: Seq<RouteModel<H>>,
    method: Method,
    p: Seq<Seq<u8>>,
    i: int,
)
    requires
        0 <= i < routes.len(),
        routes[i].method == method,
        segs_match(routes[i].segs, p),
        forall|j: int|
            0 <= j < i ==> !(#[trigger] routes[j].method == method && segs_match(
                routes[j].segs,
                p,
            )),
    ensures
        first_match(routes, method, p) == Some(i),
        forall|k: int|
            0 <= k < routes[i].segs.len() ==> match #[trigger] routes[i].segs[k] {
                TemplateSegModel::Dyn(n) => bindings_spec(routes[i].segs, p).contains(
                    BindingModel { name: n, value: p[k] },
                ),
                TemplateSegModel::Lit(_) => true,
            },
{
    assert(routes.take(i + 1).drop_last() =~= routes.take(i));
    assert(routes.take(i + 1).last() == routes[i]);
    lemma_first_match_props(routes.take(i), method, p);
    assert(forall|j: int| 0 <= j < i ==> routes.take(i)[j] == routes[j]);
    assert(first_match(routes.take(i), method, p) is None) by {
        lemma_first_match_props(routes.take(i), method, p);
        match first_match(routes.take(i), method, p) {
            Some(x) => {
                assert(routes.take(i)[x] == routes[x]);
            },
            None => {},
        }
    }
    assert(first_match(routes.take(i + 1), method, p) == Some(i));
    lemma_first_match_extend(routes, method, p, i + 1);
    lemma_bindings_exact(routes[i].segs, p);
}

/// Each dynamic segment's name appears in the bindings, paired with the
/// literal text at its position.
pub proof fn lemma_bindings_exact(t: Seq<TemplateSegModel>, p: Seq<Seq<u8>>)
    requires
        t.len() == p.len(),
    ensures
        forall|k: int|
            0 <= k < t.len() ==> match #[trigger] t[k] {
                TemplateSegModel::Dyn(n) => bindings_spec(t, p).contains(
                    BindingModel { name: n, value: p[k] },
                ),
                TemplateSegModel::Lit(_) => true,
            },
    decreases t.len(),
{
    if t.len() > 0 {
        lemma_bindings_exact(t.drop_last(), p.drop_last());
        let prev = bindings_spec(t.drop_last(), p.drop_last());
        assert forall|k: int|
            0 <= k < t.len() && #[trigger] t[k] matches TemplateSegModel::Dyn(n) implies bindings_spec(
            t,
            p,
        ).contains(BindingModel { name: t[k]->Dyn_0, value: p[k] }) by {
            let n = t[k]->Dyn_0;
            if k < t.len() - 1 {
                assert(t.drop_last()[k] == t[k]);
                assert(p.drop_last()[k] == p[k]);
                assert(prev.contains(BindingModel { name: n, value: p[k] }));
                let w = choose|w: int|
                    0 <= w < prev.len() && prev[w] == BindingModel { name: n, value: p[k] };
                assert(bindings_spec(t, p)[w] == BindingModel { name: n, value: p[k] });
            } else {
                assert(t.last() == TemplateSegModel::Dyn(n));
                assert(bindings_spec(t, p).last() == BindingModel { name: n, value: p.last() });
            }
        }
    }
}

} // verus!
