use vstd::prelude::*;
use crate::bytes::append_bytes;
use crate::bytes::clone_bytes;
use crate::bytes::dec_rep;
use crate::bytes::path_segments;
use crate::bytes::path_segments_spec;
use crate::bytes::u64_to_dec;
use crate::extract::body_pairs_spec;
use crate::extract::extract_body;
use crate::extract::extract_fields;
use crate::extract::extract_fields_spec;
use crate::extract::json_object_fields;
use crate::extract::parse_query;
use crate::extract::query_pairs_spec;
use crate::extract::ExtractError;
use crate::extract::FieldSpec;
use crate::extract::FieldSpecModel;
use crate::extract::FieldType;
use crate::extract::FieldValue;
use crate::extract::FieldValueModel;
use crate::http::BindingModel;
use crate::http::BodyModel;
use crate::http::ContentType;
use crate::http::Method;
use crate::http::ReqModel;
use crate::http::Request;
use crate::http::RespModel;
use crate::http::ResponseBody;
use crate::http::ResponseDescriptor;
use crate::http::text_response;
use crate::route::bindings_spec;
use crate::route::conflicts;
use crate::route::default_body_config;
use crate::route::full_template;
use crate::route::first_match;
use crate::route::resolved_prefix;
use crate::route::scope_chain_spec;
use crate::route::BodyConfig;
use crate::route::BodyErrorHandler;
use crate::route::ConfigError;
use crate::route::RouteModel;
use crate::route::RouteTable;
use crate::route::ScopeModel;
use crate::route::TemplateSeg;
use crate::route::TemplateSegModel;
use crate::state::resolve_spec;
use crate::state::AccessMode;
use crate::state::StateEntryModel;
use crate::state::StateStore;
use crate::state::StateValue;
use crate::state::StateValueModel;
use crate::text::lit_app;
use crate::text::lit_app_name;
use crate::text::lit_echo;
use crate::text::lit_hey;
use crate::text::lit_index_html;
use crate::text::lit_profile;
use crate::text::lit_query;
use crate::text::lit_stream;
use crate::text::lit_submit;
use crate::text::lit_users;
use crate::text::lit_visits_html;
use crate::text::lit_wait;
use crate::text::txt_app;
use crate::text::txt_app_name;
use crate::text::txt_echo;
use crate::text::txt_hey;
use crate::text::txt_index_html;
use crate::text::txt_profile;
use crate::text::txt_query;
use crate::text::txt_stream;
use crate::text::txt_submit;
use crate::text::txt_users;
use crate::text::txt_visits_html;
use crate::text::txt_wait;
use crate::text::lit_bang;
use crate::text::lit_friend;
use crate::text::lit_hello_pre;
use crate::text::lit_hi_there;
use crate::text::lit_password;
use crate::text::lit_streamed;
use crate::text::lit_submit_mid;
use crate::text::lit_submit_pre;
use crate::text::lit_user_id;
use crate::text::lit_user_id_mid;
use crate::text::lit_username;
use crate::text::lit_visits_pre;
use crate::text::lit_waited;
use crate::text::lit_welcome_pre;
use crate::text::txt_bang;
use crate::text::txt_friend;
use crate::text::txt_hello_pre;
use crate::text::txt_hi_there;
use crate::text::txt_password;
use crate::text::txt_streamed;
use crate::text::txt_submit_mid;
use crate::text::txt_submit_pre;
use crate::text::txt_user_id;
use crate::text::txt_user_id_mid;
use crate::text::txt_username;
use crate::text::txt_visits_pre;
use crate::text::txt_waited;
use crate::text::txt_welcome_pre;

verus! {

broadcast use crate::bytes::lemma_bytes_deep_view;

/// The handlers of the illustrative service, referenced by the route table.
#[derive(Clone, Copy, PartialEq, Eq, Structural, Debug)]
pub enum HandlerId {
    Hello,
    Echo,
    ManualHello,
    Wait,
    AppIndex,
    AppVisits,
    AppPath,
    AppQuery,
    AppSubmit,
    AppProfile,
    AppStream,
}

/// The state key of the application-name entry.
pub const KEY_APP_NAME: u64 = 1;

/// The state key of the visits counter.
pub const KEY_VISITS: u64 = 2;

/// A success response.
pub const STATUS_OK: u16 = 200;

/// The default class for a failed extraction.
pub const STATUS_BAD_REQUEST: u16 = 400;

/// No route matches the request.
pub const STATUS_NOT_FOUND: u16 = 404;

/// The scope-overridden class for a failed body extraction.
pub const STATUS_CONFLICT: u16 = 409;

/// A configuration inconsistency surfaced per request.
pub const STATUS_INTERNAL: u16 = 500;

/// A buffered plain-text response model.
pub open spec fn text_resp_model(status: u16, body: Seq<u8>) -> RespModel {
    RespModel {
        status,
        content_type: ContentType::TextPlain,
        delay_secs: 0,
        body: BodyModel::Fixed(body),
    }
}

/// A bodyless response model carrying only a status.
pub open spec fn empty_resp_model(status: u16) -> RespModel {
    text_resp_model(status, Seq::<u8>::empty())
}

/// The body configuration in force for a scope chain: the most specific
/// scope that sets one wins; without any, the default applies.
pub open spec fn resolve_body_cfg(scopes: Seq<ScopeModel>, chain: Seq<int>) -> BodyConfig
    decreases chain.len(),
{
    if chain.len() == 0 {
        default_body_config()
    } else {
        let s = chain.last();
        if 0 <= s < scopes.len() {
            match scopes[s].body_cfg {
                Some(c) => c,
                None => resolve_body_cfg(scopes, chain.drop_last()),
            }
        } else {
            resolve_body_cfg(scopes, chain.drop_last())
        }
    }
}

/// Every scope the chain of `s` names lies in the table.
pub proof fn lemma_scope_chain_in_range(scopes: Seq<ScopeModel>, s: int)
    requires
        0 <= s < scopes.len(),
    ensures
        forall|k: int|
            0 <= k < scope_chain_spec(scopes, s).len() ==> 0 <= #[trigger] scope_chain_spec(
                scopes,
                s,
            )[k] < scopes.len(),
    decreases s,
{
    let ch = scope_chain_spec(scopes, s);
    match scopes[s].parent {
        None => {
            assert(ch =~= seq![s]);
        },
        Some(par) => {
            if par < s {
                lemma_scope_chain_in_range(scopes, par as int);
                let chp = scope_chain_spec(scopes, par as int);
                assert forall|k: int| 0 <= k < ch.len() implies 0 <= #[trigger] ch[k]
                    < scopes.len() by {
                    if k < ch.len() - 1 {
                        assert(ch[k] == chp[k]);
                    } else {
                        assert(ch[k] == s);
                    }
                }
            } else {
                assert(ch =~= seq![s]);
            }
        },
    }
}

/// The declared path shape of the users route.
pub open spec fn path_target_spec() -> Seq<FieldSpecModel> {
    seq![
        FieldSpecModel { name: txt_user_id(), ty: FieldType::Unsigned },
        FieldSpecModel { name: txt_friend(), ty: FieldType::Text },
    ]
}

/// Builds the declared path shape of the users route.
pub fn path_target() -> (r: Vec<FieldSpec>)
    ensures
        r.deep_view() == path_target_spec(),
{
    let mut r: Vec<FieldSpec> = Vec::new();
    r.push(FieldSpec { name: lit_user_id(), ty: FieldType::Unsigned });
    r.push(FieldSpec { name: lit_friend(), ty: FieldType::Text });
    proof {
        assert(r.deep_view() =~~= path_target_spec());
    }
    r
}

/// The declared query shape of the query route.
pub open spec fn query_target_spec() -> Seq<FieldSpecModel> {
    seq![FieldSpecModel { name: txt_username(), ty: FieldType::Text }]
}

/// Builds the declared query shape of the query route.
pub fn query_target() -> (r: Vec<FieldSpec>)
    ensures
        r.deep_view() == query_target_spec(),
{
    let mut r: Vec<FieldSpec> = Vec::new();
    r.push(FieldSpec { name: lit_username(), ty: FieldType::Text });
    proof {
        assert(r.deep_view() =~~= query_target_spec());
    }
    r
}

/// The declared body shape of the submit route.
pub open spec fn submit_target_spec() -> Seq<FieldSpecModel> {
    seq![
        FieldSpecModel { name: txt_username(), ty: FieldType::Text },
        FieldSpecModel { name: txt_password(), ty: FieldType::Text },
    ]
}

/// Builds the declared body shape of the submit route.
pub fn submit_target() -> (r: Vec<FieldSpec>)
    ensures
        r.deep_view() == submit_target_spec(),
{
    let mut r: Vec<FieldSpec> = Vec::new();
    r.push(FieldSpec { name: lit_username(), ty: FieldType::Text });
    r.push(FieldSpec { name: lit_password(), ty: FieldType::Text });
    proof {
        assert(r.deep_view() =~~= submit_target_spec());
    }
    r
}

/// The declared path shape of the profile route.
pub open spec fn profile_target_spec() -> Seq<FieldSpecModel> {
    seq![FieldSpecModel { name: txt_username(), ty: FieldType::Text }]
}

/// Builds the declared path shape of the profile route.
pub fn profile_target() -> (r: Vec<FieldSpec>)
    ensures
        r.deep_view() == profile_target_spec(),
{
    let mut r: Vec<FieldSpec> = Vec::new();
    r.push(FieldSpec { name: lit_username(), ty: FieldType::Text });
    proof {
        assert(r.deep_view() =~~= profile_target_spec());
    }
    r
}

/// What the JSON body of a one-field object holds: the serializer's exact
/// bytes, a function of the field name and value alone.
pub uninterp spec fn json_of_field(name: Seq<u8>, value: Seq<u8>) -> Seq<u8>;

/// Relies on serde_json::Value::to_string: serializes a one-field object of
/// a string value. The output depends on the name and value bytes alone.
#[verifier::external_body]
fn json_field_object(name: &Vec<u8>, value: &Vec<u8>) -> (r: Vec<u8>)
    ensures
        r@ == json_of_field(name@, value@),
{
    let mut m = serde_json::Map::new();
    let k = String::from_utf8_lossy(name.as_slice()).into_owned();
    let v = String::from_utf8_lossy(value.as_slice()).into_owned();
    m.insert(k, serde_json::Value::String(v));
    serde_json::Value::Object(m).to_string().into_bytes()
}

/// The response of the index handler: greets the scope's registered
/// application name, or reports a configuration fault.
pub open spec fn index_resp_spec(entries: Seq<StateEntryModel>, chain: Seq<int>) -> RespModel {
    match resolve_spec(entries, chain, KEY_APP_NAME) {
        Some(i) => if 0 <= i < entries.len() {
            match entries[i].value {
                StateValueModel::Text(t) => text_resp_model(
                    STATUS_OK,
                    txt_hello_pre() + t + txt_bang(),
                ),
                StateValueModel::Counter(_) => empty_resp_model(STATUS_INTERNAL),
            }
        } else {
            empty_resp_model(STATUS_INTERNAL)
        },
        None => empty_resp_model(STATUS_INTERNAL),
    }
}

/// The visits handler: adds one to the scope's exclusive counter and
/// reports the new value; the counter entry is the only state that changes.
pub open spec fn visits_spec(entries: Seq<StateEntryModel>, chain: Seq<int>) -> (RespModel, Seq<
    StateEntryModel,
>) {
    match resolve_spec(entries, chain, KEY_VISITS) {
        Some(i) => if 0 <= i < entries.len() && entries[i].mode == AccessMode::SharedExclusive {
            match entries[i].value {
                StateValueModel::Counter(c) => if c < u64::MAX {
                    (
                        text_resp_model(STATUS_OK, txt_visits_pre() + dec_rep((c + 1) as nat)),
                        entries.update(
                            i,
                            StateEntryModel {
                                scope: entries[i].scope,
                                key: entries[i].key,
                                mode: entries[i].mode,
                                value: StateValueModel::Counter((c + 1) as u64),
                            },
                        ),
                    )
                } else {
                    (empty_resp_model(STATUS_INTERNAL), entries)
                },
                StateValueModel::Text(_) => (empty_resp_model(STATUS_INTERNAL), entries),
            }
        } else {
            (empty_resp_model(STATUS_INTERNAL), entries)
        },
        None => (empty_resp_model(STATUS_INTERNAL), entries),
    }
}

/// The users handler: welcomes the bound friend and user id, or maps the
/// extraction failure to the default 400-class response.
pub open spec fn path_resp_spec(bindings: Seq<BindingModel>) -> RespModel {
    match extract_fields_spec(bindings, path_target_spec(), false) {
        Ok(vs) => if vs.len() == 2 && vs[0] is Unsigned && vs[1] is Text {
            text_resp_model(
                STATUS_OK,
                txt_welcome_pre() + vs[1]->Text_0 + txt_user_id_mid() + dec_rep(
                    vs[0]->Unsigned_0 as nat,
                ) + txt_bang(),
            )
        } else {
            empty_resp_model(STATUS_INTERNAL)
        },
        Err(_) => empty_resp_model(STATUS_BAD_REQUEST),
    }
}

/// The query handler: welcomes the given user name, or maps the extraction
/// failure to the default 400-class response.
pub open spec fn query_resp_spec(query: Seq<u8>) -> RespModel {
    match extract_fields_spec(query_pairs_spec(query), query_target_spec(), true) {
        Ok(vs) => if vs.len() == 1 && vs[0] is Text {
            text_resp_model(STATUS_OK, txt_welcome_pre() + vs[0]->Text_0 + txt_bang())
        } else {
            empty_resp_model(STATUS_INTERNAL)
        },
        Err(_) => empty_resp_model(STATUS_BAD_REQUEST),
    }
}

/// The status a failed body extraction maps to under `cfg`: the scope's
/// error handler only picks the response class and never turns a failure
/// into a success.
pub open spec fn body_fail_status(cfg: BodyConfig) -> u16 {
    match cfg.on_error {
        BodyErrorHandler::Conflict => STATUS_CONFLICT,
        BodyErrorHandler::DefaultBadRequest => STATUS_BAD_REQUEST,
    }
}

/// The submit handler: echoes the posted name and password on success; an
/// over-long or malformed body maps to the scope-resolved error class.
pub open spec fn submit_resp_spec(
    scopes: Seq<ScopeModel>,
    chain: Seq<int>,
    body: Seq<u8>,
) -> RespModel {
    let cfg = resolve_body_cfg(scopes, chain);
    if cfg.max_bytes matches Some(m) && body.len() > m {
        empty_resp_model(body_fail_status(cfg))
    } else {
        match json_object_fields(body) {
            None => empty_resp_model(body_fail_status(cfg)),
            Some(fields) => match extract_fields_spec(
                body_pairs_spec(fields),
                submit_target_spec(),
                true,
            ) {
                Ok(vs) => if vs.len() == 2 && vs[0] is Text && vs[1] is Text {
                    text_resp_model(
                        STATUS_OK,
                        txt_submit_pre() + vs[0]->Text_0 + txt_submit_mid() + vs[1]->Text_0
                            + txt_bang(),
                    )
                } else {
                    empty_resp_model(STATUS_INTERNAL)
                },
                Err(_) => empty_resp_model(body_fail_status(cfg)),
            },
        }
    }
}

/// The profile handler: a JSON object holding the bound user name, or the
/// default 400-class response where the segment is absent.
pub open spec fn profile_resp_spec(bindings: Seq<BindingModel>) -> RespModel {
    match extract_fields_spec(bindings, profile_target_spec(), false) {
        Ok(vs) => if vs.len() == 1 && vs[0] is Text {
            RespModel {
                status: STATUS_OK,
                content_type: ContentType::Json,
                delay_secs: 0,
                body: BodyModel::Fixed(json_of_field(txt_username(), vs[0]->Text_0)),
            }
        } else {
            empty_resp_model(STATUS_INTERNAL)
        },
        Err(_) => empty_resp_model(STATUS_BAD_REQUEST),
    }
}

/// The stream handler: one declared chunk, delivered as a stream.
pub open spec fn stream_resp_spec() -> RespModel {
    RespModel {
        status: STATUS_OK,
        content_type: ContentType::Json,
        delay_secs: 0,
        body: BodyModel::Streaming(seq![txt_streamed()]),
    }
}

/// What invoking `h` yields: the response and the state after it. Only the
/// visits handler changes state.
pub open spec fn handler_spec(
    h: HandlerId,
    scopes: Seq<ScopeModel>,
    scope: usize,
    entries: Seq<StateEntryModel>,
    bindings: Seq<BindingModel>,
    req: ReqModel,
) -> (RespModel, Seq<StateEntryModel>) {
    let chain = scope_chain_spec(scopes, scope as int);
    match h {
        HandlerId::Hello => (text_resp_model(STATUS_OK, txt_hi_there()), entries),
        HandlerId::ManualHello => (text_resp_model(STATUS_OK, txt_hi_there()), entries),
        HandlerId::Echo => (text_resp_model(STATUS_OK, req.body), entries),
        HandlerId::Wait => (
            RespModel {
                status: STATUS_OK,
                content_type: ContentType::TextPlain,
                delay_secs: 5,
                body: BodyModel::Fixed(txt_waited()),
            },
            entries,
        ),
        HandlerId::AppIndex => (index_resp_spec(entries, chain), entries),
        HandlerId::AppVisits => visits_spec(entries, chain),
        HandlerId::AppPath => (path_resp_spec(bindings), entries),
        HandlerId::AppQuery => (query_resp_spec(req.query), entries),
        HandlerId::AppSubmit => (submit_resp_spec(scopes, chain, req.body), entries),
        HandlerId::AppProfile => (profile_resp_spec(bindings), entries),
        HandlerId::AppStream => (stream_resp_spec(), entries),
    }
}

/// The whole per-request state machine: match the path, bind its dynamic
/// segments, run the matched handler's extractors and the handler, and
/// build the response; no match yields the 404-class response and leaves
/// the state untouched.
pub open spec fn dispatch_spec(
    scopes: Seq<ScopeModel>,
    routes: Seq<RouteModel<HandlerId>>,
    entries: Seq<StateEntryModel>,
    req: ReqModel,
) -> (RespModel, Seq<StateEntryModel>) {
    let p = path_segments_spec(req.path);
    match first_match(routes, req.method, p) {
        None => (empty_resp_model(STATUS_NOT_FOUND), entries),
        Some(i) => handler_spec(
            routes[i].handler,
            scopes,
            routes[i].scope,
            entries,
            bindings_spec(routes[i].segs, p),
            req,
        ),
    }
}

/// The body configuration in force for the chain, resolved on the table.
fn resolve_body_cfg_exec(table: &RouteTable<HandlerId>, chain: &Vec<usize>) -> (r: BodyConfig)
    requires
        forall|k: int| 0 <= k < chain@.len() ==> #[trigger] chain@[k] < table.scopes@.len(),
    ensures
        r == resolve_body_cfg(
            table.scopes.deep_view(),
            chain@.map_values(|x: usize| x as int),
        ),
{
    let ghost sdv = table.scopes.deep_view();
    let ghost ch = chain@.map_values(|x: usize| x as int);
    let mut c: usize = chain.len();
    proof {
        assert(ch.take(c as int) =~= ch);
    }
    while c > 0
        invariant
            c <= chain@.len(),
            sdv == table.scopes.deep_view(),
            ch == chain@.map_values(|x: usize| x as int),
            forall|k: int| 0 <= k < chain@.len() ==> #[trigger] chain@[k] < table.scopes@.len(),
            resolve_body_cfg(sdv, ch) == resolve_body_cfg(sdv, ch.take(c as int)),
        decreases c,
    {
        proof {
            assert(ch.take(c as int).last() == ch[c - 1]);
            assert(ch.take(c as int).drop_last() =~= ch.take(c - 1));
            assert(sdv[ch[c - 1]] == table.scopes@[chain@[c - 1] as int]@);
        }
        match table.scopes[chain[c - 1]].body_cfg {
            Some(cfg) => {
                return cfg;
            },
            None => {},
        }
        c -= 1;
    }
    proof {
        assert(ch.take(0) =~= Seq::<int>::empty());
    }
    BodyConfig { max_bytes: None, on_error: BodyErrorHandler::DefaultBadRequest }
}

/// A bodyless response carrying only a status.
fn empty_response(status: u16) -> (r: ResponseDescriptor)
    ensures
        r@ == empty_resp_model(status),
{
    let r = text_response(status, Vec::new());
    proof {
        assert(r@ =~~= empty_resp_model(status));
    }
    r
}

/// Drives one request through the service: exactly the transition
/// `dispatch_spec` describes, on the real route table and state store.
/// Every request gets exactly one response; only the visits counter may
/// change, and only by its own increment.
pub fn dispatch(table: &RouteTable<HandlerId>, store: &mut StateStore, req: &Request) -> (r:
    ResponseDescriptor)
    requires
        table.wf(),
    ensures
        ({
            let (resp, entries2) = dispatch_spec(
                table.scopes.deep_view(),
                table.routes.deep_view(),
                old(store).entries.deep_view(),
                req@,
            );
            r@ == resp && final(store).entries.deep_view() == entries2
        }),
{
    let ghost sdv = table.scopes.deep_view();
    let ghost rdv = table.routes.deep_view();
    let ghost edv = store.entries.deep_view();
    let segs = path_segments(req.path.as_slice());
    let ghost p = path_segments_spec(req.path@);
    let m = match table.match_route(req.method, &segs) {
        None => {
            return empty_response(STATUS_NOT_FOUND);
        },
        Some(m) => m,
    };
    let ghost i = first_match(rdv, req.method, p)->Some_0;
    proof {
        crate::route::lemma_first_match_props(rdv, req.method, p);
        assert(rdv[i].scope == table.routes@[i]@.scope);
        assert(m.scope < table.scopes@.len());
    }
    let chain = table.scope_chain(m.scope);
    proof {
        lemma_scope_chain_in_range(sdv, m.scope as int);
        assert(forall|k: int|
            0 <= k < chain@.len() ==> #[trigger] chain@[k]
                < table.scopes@.len()) by {
            assert(forall|k: int|
                0 <= k < chain@.len() ==> chain@.map_values(|x: usize| x as int)[k]
                    == #[trigger] chain@[k] as int);
        }
    }
    let ghost chain_spec = scope_chain_spec(sdv, m.scope as int);
    proof {
        assert(first_match(rdv, req.method, p) == Some(i));
        assert(rdv[i].handler == m.handler);
        assert(rdv[i].scope == m.scope);
        assert(m.params.deep_view() == bindings_spec(rdv[i].segs, p));
        assert(chain@.map_values(|x: usize| x as int) == chain_spec);
        assert(dispatch_spec(sdv, rdv, edv, req@) == handler_spec(
            m.handler,
            sdv,
            m.scope,
            edv,
            m.params.deep_view(),
            req@,
        ));
    }
    match m.handler {
        HandlerId::Hello => text_response(STATUS_OK, lit_hi_there()),
        HandlerId::ManualHello => text_response(STATUS_OK, lit_hi_there()),
        HandlerId::Echo => text_response(STATUS_OK, clone_bytes(&req.body)),
        HandlerId::Wait => ResponseDescriptor {
            status: STATUS_OK,
            content_type: ContentType::TextPlain,
            delay_secs: 5,
            body: ResponseBody::Fixed(lit_waited()),
        },
        HandlerId::AppIndex => {
            proof {
                crate::state::lemma_resolve_range(edv, chain_spec, KEY_APP_NAME);
            }
            match store.resolve(&chain, KEY_APP_NAME) {
                None => empty_response(STATUS_INTERNAL),
                Some(ix) => {
                    if ix < store.entries.len() {
                        proof {
                            assert(edv[ix as int] == store.entries@[ix as int]@);
                        }
                        match &store.entries[ix].value {
                            StateValue::Text(t) => {
                                let mut b = lit_hello_pre();
                                append_bytes(&mut b, t.as_slice());
                                let bang = lit_bang();
                                append_bytes(&mut b, bang.as_slice());
                                text_response(STATUS_OK, b)
                            },
                            StateValue::Counter(_) => empty_response(STATUS_INTERNAL),
                        }
                    } else {
                        empty_response(STATUS_INTERNAL)
                    }
                },
            }
        },
        HandlerId::AppVisits => {
            proof {
                crate::state::lemma_resolve_range(edv, chain_spec, KEY_VISITS);
            }
            match store.resolve(&chain, KEY_VISITS) {
                None => empty_response(STATUS_INTERNAL),
                Some(ix) => {
                    if ix < store.entries.len() {
                        proof {
                            assert(edv[ix as int] == store.entries@[ix as int]@);
                        }
                        if store.entries[ix].mode == AccessMode::SharedExclusive {
                            let cur = match &store.entries[ix].value {
                                StateValue::Counter(c) => Some(*c),
                                StateValue::Text(_) => None,
                            };
                            match cur {
                                Some(c) => {
                                    if c < u64::MAX {
                                        let newv = store.counter_increment(ix);
                                        let mut b = lit_visits_pre();
                                        let digits = u64_to_dec(newv);
                                        append_bytes(&mut b, digits.as_slice());
                                        text_response(STATUS_OK, b)
                                    } else {
                                        empty_response(STATUS_INTERNAL)
                                    }
                                },
                                None => empty_response(STATUS_INTERNAL),
                            }
                        } else {
                            empty_response(STATUS_INTERNAL)
                        }
                    } else {
                        empty_response(STATUS_INTERNAL)
                    }
                },
            }
        },
        HandlerId::AppPath => {
            let tgt = path_target();
            match extract_fields(
                &m.params,
                &tgt,
                false,
                ExtractError::MissingSegment,
                ExtractError::TypeMismatch,
            ) {
                Err(_) => empty_response(STATUS_BAD_REQUEST),
                Ok(out) => {
                    if out.len() == 2 {
                        proof {
                            assert(out.deep_view()[0] == out@[0]@);
                            assert(out.deep_view()[1] == out@[1]@);
                        }
                        let uid = match &out[0] {
                            FieldValue::Unsigned(u) => Some(*u),
                            FieldValue::Text(_) => None,
                        };
                        match (uid, &out[1]) {
                            (Some(u), FieldValue::Text(fr)) => {
                                let mut b = lit_welcome_pre();
                                append_bytes(&mut b, fr.as_slice());
                                let mid = lit_user_id_mid();
                                append_bytes(&mut b, mid.as_slice());
                                let digits = u64_to_dec(u as u64);
                                append_bytes(&mut b, digits.as_slice());
                                let bang = lit_bang();
                                append_bytes(&mut b, bang.as_slice());
                                text_response(STATUS_OK, b)
                            },
                            _ => empty_response(STATUS_INTERNAL),
                        }
                    } else {
                        empty_response(STATUS_INTERNAL)
                    }
                },
            }
        },
        HandlerId::AppQuery => {
            let pairs = parse_query(req.query.as_slice());
            let tgt = query_target();
            match extract_fields(
                &pairs,
                &tgt,
                true,
                ExtractError::MissingField,
                ExtractError::TypeMismatch,
            ) {
                Err(_) => empty_response(STATUS_BAD_REQUEST),
                Ok(out) => {
                    if out.len() == 1 {
                        proof {
                            assert(out.deep_view()[0] == out@[0]@);
                        }
                        match &out[0] {
                            FieldValue::Text(u) => {
                                let mut b = lit_welcome_pre();
                                append_bytes(&mut b, u.as_slice());
                                let bang = lit_bang();
                                append_bytes(&mut b, bang.as_slice());
                                text_response(STATUS_OK, b)
                            },
                            FieldValue::Unsigned(_) => empty_response(STATUS_INTERNAL),
                        }
                    } else {
                        empty_response(STATUS_INTERNAL)
                    }
                },
            }
        },
        HandlerId::AppSubmit => {
            let cfg = resolve_body_cfg_exec(table, &chain);
            let fail_status = match cfg.on_error {
                BodyErrorHandler::Conflict => STATUS_CONFLICT,
                BodyErrorHandler::DefaultBadRequest => STATUS_BAD_REQUEST,
            };
            let tgt = submit_target();
            match extract_body(&req.body, cfg, &tgt) {
                Err(_) => empty_response(fail_status),
                Ok(out) => {
                    if out.len() == 2 {
                        proof {
                            assert(out.deep_view()[0] == out@[0]@);
                            assert(out.deep_view()[1] == out@[1]@);
                        }
                        match (&out[0], &out[1]) {
                            (FieldValue::Text(u), FieldValue::Text(pw)) => {
                                let mut b = lit_submit_pre();
                                append_bytes(&mut b, u.as_slice());
                                let mid = lit_submit_mid();
                                append_bytes(&mut b, mid.as_slice());
                                append_bytes(&mut b, pw.as_slice());
                                let bang = lit_bang();
                                append_bytes(&mut b, bang.as_slice());
                                text_response(STATUS_OK, b)
                            },
                            _ => empty_response(STATUS_INTERNAL),
                        }
                    } else {
                        empty_response(STATUS_INTERNAL)
                    }
                },
            }
        },
        HandlerId::AppProfile => {
            let tgt = profile_target();
            match extract_fields(
                &m.params,
                &tgt,
                false,
                ExtractError::MissingSegment,
                ExtractError::TypeMismatch,
            ) {
                Err(_) => empty_response(STATUS_BAD_REQUEST),
                Ok(out) => {
                    if out.len() == 1 {
                        proof {
                            assert(out.deep_view()[0] == out@[0]@);
                        }
                        match &out[0] {
                            FieldValue::Text(u) => {
                                let key = lit_username();
                                let body = json_field_object(&key, u);
                                ResponseDescriptor {
                                    status: STATUS_OK,
                                    content_type: ContentType::Json,
                                    delay_secs: 0,
                                    body: ResponseBody::Fixed(body),
                                }
                            },
                            FieldValue::Unsigned(_) => empty_response(STATUS_INTERNAL),
                        }
                    } else {
                        empty_response(STATUS_INTERNAL)
                    }
                },
            }
        },
        HandlerId::AppStream => {
            let mut chunks: Vec<Vec<u8>> = Vec::new();
            chunks.push(lit_streamed());
            proof {
                assert(chunks.deep_view() =~~= seq![txt_streamed()]);
            }
            ResponseDescriptor {
                status: STATUS_OK,
                content_type: ContentType::Json,
                delay_secs: 0,
                body: ResponseBody::Streaming(chunks),
            }
        },
    }
}


/// The scope tree of the illustrative service: the root, and one nested
/// scope prefixed `app` that caps bodies at 4096 bytes and maps body
/// failures to the conflict class.
pub open spec fn demo_scopes_spec() -> Seq<ScopeModel> {
    seq![
        ScopeModel { parent: None, prefix: Seq::<Seq<u8>>::empty(), body_cfg: None },
        ScopeModel {
            parent: Some(0),
            prefix: seq![txt_app()],
            body_cfg: Some(BodyConfig { max_bytes: Some(4096), on_error: BodyErrorHandler::Conflict }),
        },
    ]
}

/// The fixed route table of the illustrative service.
pub open spec fn demo_routes_spec() -> Seq<RouteModel<HandlerId>> {
    seq![
        RouteModel {
            method: Method::Get,
            segs: Seq::<TemplateSegModel>::empty(),
            scope: 0,
            handler: HandlerId::Hello,
        },
        RouteModel {
            method: Method::Post,
            segs: seq![TemplateSegModel::Lit(txt_echo())],
            scope: 0,
            handler: HandlerId::Echo,
        },
        RouteModel {
            method: Method::Get,
            segs: seq![TemplateSegModel::Lit(txt_wait())],
            scope: 0,
            handler: HandlerId::Wait,
        },
        RouteModel {
            method: Method::Get,
            segs: seq![TemplateSegModel::Lit(txt_hey())],
            scope: 0,
            handler: HandlerId::ManualHello,
        },
        RouteModel {
            method: Method::Get,
            segs: seq![TemplateSegModel::Lit(txt_app()), TemplateSegModel::Lit(txt_index_html())],
            scope: 1,
            handler: HandlerId::AppIndex,
        },
        RouteModel {
            method: Method::Get,
            segs: seq![TemplateSegModel::Lit(txt_app()), TemplateSegModel::Lit(txt_visits_html())],
            scope: 1,
            handler: HandlerId::AppVisits,
        },
        RouteModel {
            method: Method::Get,
            segs: seq![TemplateSegModel::Lit(txt_app()), TemplateSegModel::Lit(txt_users()), TemplateSegModel::Dyn(txt_user_id()), TemplateSegModel::Dyn(txt_friend())],
            scope: 1,
            handler: HandlerId::AppPath,
        },
        RouteModel {
            method: Method::Get,
            segs: seq![TemplateSegModel::Lit(txt_app()), TemplateSegModel::Lit(txt_query())],
            scope: 1,
            handler: HandlerId::AppQuery,
        },
        RouteModel {
            method: Method::Post,
            segs: seq![TemplateSegModel::Lit(txt_app()), TemplateSegModel::Lit(txt_submit())],
            scope: 1,
            handler: HandlerId::AppSubmit,
        },
        RouteModel {
            method: Method::Get,
            segs: seq![TemplateSegModel::Lit(txt_app()), TemplateSegModel::Lit(txt_profile()), TemplateSegModel::Dyn(txt_username())],
            scope: 1,
            handler: HandlerId::AppProfile,
        },
        RouteModel {
            method: Method::Get,
            segs: seq![TemplateSegModel::Lit(txt_app()), TemplateSegModel::Lit(txt_stream())],
            scope: 1,
            handler: HandlerId::AppStream,
        },
    ]
}

/// The shared state of the illustrative service: the application name, and
/// the visits counter starting at zero, both owned by the nested scope.
pub open spec fn demo_state_spec() -> Seq<StateEntryModel> {
    seq![
        StateEntryModel {
            scope: 1,
            key: KEY_APP_NAME,
            mode: AccessMode::SharedImmutable,
            value: StateValueModel::Text(txt_app_name()),
        },
        StateEntryModel {
            scope: 1,
            key: KEY_VISITS,
            mode: AccessMode::SharedExclusive,
            value: StateValueModel::Counter(0),
        },
    ]
}

/// The assembled service: its route table and its state store.
pub struct AppService {
    pub table: RouteTable<HandlerId>,
    pub store: StateStore,
}

/// Assembles the illustrative service: the fixed route table of the
/// specification, the nested scope's body configuration, and the shared
/// state. Assembly always succeeds — the declared registrations are
/// pairwise distinct, so no route collision can arise — and yields exactly
/// the declared tables.
pub fn build_demo_app() -> (r: Result<AppService, ConfigError>)
    ensures
        r is Ok,
        r matches Ok(app) ==> {
            &&& app.table.wf()
            &&& app.table.scopes.deep_view() == demo_scopes_spec()
            &&& app.table.routes.deep_view() == demo_routes_spec()
            &&& app.store.entries.deep_view() == demo_state_spec()
        },
{
    let mut table: RouteTable<HandlerId> = RouteTable::new();
    let mut prefix: Vec<Vec<u8>> = Vec::new();
    prefix.push(lit_app());
    let app_scope = table.add_scope(
        0,
        prefix,
        Some(BodyConfig { max_bytes: Some(4096), on_error: BodyErrorHandler::Conflict }),
    );
    let ghost sdv = table.scopes.deep_view();
    let ghost d = demo_routes_spec();
    proof {
        assert(sdv =~~= demo_scopes_spec());
        assert(resolved_prefix(sdv, 0) =~~= Seq::<Seq<u8>>::empty());
        assert(resolved_prefix(sdv, 0).map_values(|b: Seq<u8>| TemplateSegModel::Lit(b)) =~~= Seq::<
            TemplateSegModel,
        >::empty());
        assert(resolved_prefix(sdv, 1) =~~= seq![txt_app()]);
        assert(resolved_prefix(sdv, 1).map_values(|b: Seq<u8>| TemplateSegModel::Lit(b)) =~~= seq![
            TemplateSegModel::Lit(txt_app()),
        ]);
        // The route paths are pairwise distinct where scope and method agree:
        // each pair of equal-length templates differs in its first byte.
        assert(txt_wait()[0] != txt_hey()[0]);
        assert(txt_index_html()[0] != txt_visits_html()[0]);
        assert(txt_index_html()[0] != txt_query()[0]);
        assert(txt_visits_html()[0] != txt_query()[0]);
        assert(txt_index_html()[0] != txt_stream()[0]);
        assert(txt_visits_html()[0] != txt_stream()[0]);
        assert(txt_query()[0] != txt_stream()[0]);
        assert(table.routes.deep_view() =~~= d.take(0int));
    }
    let mut t0: Vec<TemplateSeg> = Vec::new();
    let ghost t0dv = t0.deep_view();
    proof {
        assert(t0dv =~~= Seq::<TemplateSegModel>::empty());
        assert(full_template(sdv, 0, t0dv) =~~= d[0].segs);
        let rdv = table.routes.deep_view();
        assert forall|j: int| 0 <= j < rdv.len() implies !(#[trigger] rdv[j].scope
            == 0 as usize && rdv[j].method == Method::Get && rdv[j].segs
            == full_template(sdv, 0, t0dv)) by {
            assert(rdv[j] == d[j]);
        }
        assert(!conflicts(rdv, 0 as usize, Method::Get, full_template(sdv, 0, t0dv)));
    }
    match table.register(0, Method::Get, t0, HandlerId::Hello) {
        Ok(_) => {
            proof {
                assert(d.take(1int) =~~= d.take(0int).push(d[0]));
                assert(table.routes.deep_view() =~~= d.take(1int));
            }
        },
        Err(e) => {
            proof {
                assert(false);
            }
            return Err(e);
        },
    }
    let mut t1: Vec<TemplateSeg> = Vec::new();
    t1.push(TemplateSeg::Lit(lit_echo()));
    let ghost t1dv = t1.deep_view();
    proof {
        assert(t1dv =~~= seq![TemplateSegModel::Lit(txt_echo())]);
        assert(full_template(sdv, 0, t1dv) =~~= d[1].segs);
        let rdv = table.routes.deep_view();
        assert forall|j: int| 0 <= j < rdv.len() implies !(#[trigger] rdv[j].scope
            == 0 as usize && rdv[j].method == Method::Post && rdv[j].segs
            == full_template(sdv, 0, t1dv)) by {
            assert(rdv[j] == d[j]);
        }
        assert(!conflicts(rdv, 0 as usize, Method::Post, full_template(sdv, 0, t1dv)));
    }
    match table.register(0, Method::Post, t1, HandlerId::Echo) {
        Ok(_) => {
            proof {
                assert(d.take(2int) =~~= d.take(1int).push(d[1]));
                assert(table.routes.deep_view() =~~= d.take(2int));
            }
        },
        Err(e) => {
            proof {
                assert(false);
            }
            return Err(e);
        },
    }
    let mut t2: Vec<TemplateSeg> = Vec::new();
    t2.push(TemplateSeg::Lit(lit_wait()));
    let ghost t2dv = t2.deep_view();
    proof {
        assert(t2dv =~~= seq![TemplateSegModel::Lit(txt_wait())]);
        assert(full_template(sdv, 0, t2dv) =~~= d[2].segs);
        let rdv = table.routes.deep_view();
        assert forall|j: int| 0 <= j < rdv.len() implies !(#[trigger] rdv[j].scope
            == 0 as usize && rdv[j].method == Method::Get && rdv[j].segs
            == full_template(sdv, 0, t2dv)) by {
            assert(rdv[j] == d[j]);
        }
        assert(!conflicts(rdv, 0 as usize, Method::Get, full_template(sdv, 0, t2dv)));
    }
    match table.register(0, Method::Get, t2, HandlerId::Wait) {
        Ok(_) => {
            proof {
                assert(d.take(3int) =~~= d.take(2int).push(d[2]));
                assert(table.routes.deep_view() =~~= d.take(3int));
            }
        },
        Err(e) => {
            proof {
                assert(false);
            }
            return Err(e);
        },
    }
    let mut t3: Vec<TemplateSeg> = Vec::new();
    t3.push(TemplateSeg::Lit(lit_hey()));
    let ghost t3dv = t3.deep_view();
    proof {
        assert(t3dv =~~= seq![TemplateSegModel::Lit(txt_hey())]);
        assert(full_template(sdv, 0, t3dv) =~~= d[3].segs);
        let rdv = table.routes.deep_view();
        assert forall|j: int| 0 <= j < rdv.len() implies !(#[trigger] rdv[j].scope
            == 0 as usize && rdv[j].method == Method::Get && rdv[j].segs
            == full_template(sdv, 0, t3dv)) by {
            assert(rdv[j] == d[j]);
            assert(seq![TemplateSegModel::Lit(txt_wait())][0] == TemplateSegModel::Lit(txt_wait()));
            assert(seq![TemplateSegModel::Lit(txt_hey())][0] == TemplateSegModel::Lit(txt_hey()));
        }
        assert(!conflicts(rdv, 0 as usize, Method::Get, full_template(sdv, 0, t3dv)));
    }
    match table.register(0, Method::Get, t3, HandlerId::ManualHello) {
        Ok(_) => {
            proof {
                assert(d.take(4int) =~~= d.take(3int).push(d[3]));
                assert(table.routes.deep_view() =~~= d.take(4int));
            }
        },
        Err(e) => {
            proof {
                assert(false);
            }
            return Err(e);
        },
    }
    let mut t4: Vec<TemplateSeg> = Vec::new();
    t4.push(TemplateSeg::Lit(lit_index_html()));
    let ghost t4dv = t4.deep_view();
    proof {
        assert(t4dv =~~= seq![TemplateSegModel::Lit(txt_index_html())]);
        assert(full_template(sdv, 1, t4dv) =~~= d[4].segs);
        let rdv = table.routes.deep_view();
        assert forall|j: int| 0 <= j < rdv.len() implies !(#[trigger] rdv[j].scope
            == 1 as usize && rdv[j].method == Method::Get && rdv[j].segs
            == full_template(sdv, 1, t4dv)) by {
            assert(rdv[j] == d[j]);
        }
        assert(!conflicts(rdv, app_scope as usize, Method::Get, full_template(sdv, 1, t4dv)));
    }
    match table.register(app_scope, Method::Get, t4, HandlerId::AppIndex) {
        Ok(_) => {
            proof {
                assert(d.take(5int) =~~= d.take(4int).push(d[4]));
                assert(table.routes.deep_view() =~~= d.take(5int));
            }
        },
        Err(e) => {
            proof {
                assert(false);
            }
            return Err(e);
        },
    }
    let mut t5: Vec<TemplateSeg> = Vec::new();
    t5.push(TemplateSeg::Lit(lit_visits_html()));
    let ghost t5dv = t5.deep_view();
    proof {
        assert(t5dv =~~= seq![TemplateSegModel::Lit(txt_visits_html())]);
        assert(full_template(sdv, 1, t5dv) =~~= d[5].segs);
        let rdv = table.routes.deep_view();
        assert forall|j: int| 0 <= j < rdv.len() implies !(#[trigger] rdv[j].scope
            == 1 as usize && rdv[j].method == Method::Get && rdv[j].segs
            == full_template(sdv, 1, t5dv)) by {
            assert(rdv[j] == d[j]);
        }
        assert(!conflicts(rdv, app_scope as usize, Method::Get, full_template(sdv, 1, t5dv)));
    }
    match table.register(app_scope, Method::Get, t5, HandlerId::AppVisits) {
        Ok(_) => {
            proof {
                assert(d.take(6int) =~~= d.take(5int).push(d[5]));
                assert(table.routes.deep_view() =~~= d.take(6int));
            }
        },
        Err(e) => {
            proof {
                assert(false);
            }
            return Err(e);
        },
    }
    let mut t6: Vec<TemplateSeg> = Vec::new();
    t6.push(TemplateSeg::Lit(lit_users()));
    t6.push(TemplateSeg::Dyn(lit_user_id()));
    t6.push(TemplateSeg::Dyn(lit_friend()));
    let ghost t6dv = t6.deep_view();
    proof {
        assert(t6dv =~~= seq![TemplateSegModel::Lit(txt_users()), TemplateSegModel::Dyn(txt_user_id()), TemplateSegModel::Dyn(txt_friend())]);
        assert(full_template(sdv, 1, t6dv) =~~= d[6].segs);
        let rdv = table.routes.deep_view();
        assert forall|j: int| 0 <= j < rdv.len() implies !(#[trigger] rdv[j].scope
            == 1 as usize && rdv[j].method == Method::Get && rdv[j].segs
            == full_template(sdv, 1, t6dv)) by {
            assert(rdv[j] == d[j]);
        }
        assert(!conflicts(rdv, app_scope as usize, Method::Get, full_template(sdv, 1, t6dv)));
    }
    match table.register(app_scope, Method::Get, t6, HandlerId::AppPath) {
        Ok(_) => {
            proof {
                assert(d.take(7int) =~~= d.take(6int).push(d[6]));
                assert(table.routes.deep_view() =~~= d.take(7int));
            }
        },
        Err(e) => {
            proof {
                assert(false);
            }
            return Err(e);
        },
    }
    let mut t7: Vec<TemplateSeg> = Vec::new();
    t7.push(TemplateSeg::Lit(lit_query()));
    let ghost t7dv = t7.deep_view();
    proof {
        assert(t7dv =~~= seq![TemplateSegModel::Lit(txt_query())]);
        assert(full_template(sdv, 1, t7dv) =~~= d[7].segs);
        let rdv = table.routes.deep_view();
        assert forall|j: int| 0 <= j < rdv.len() implies !(#[trigger] rdv[j].scope
            == 1 as usize && rdv[j].method == Method::Get && rdv[j].segs
            == full_template(sdv, 1, t7dv)) by {
            assert(rdv[j] == d[j]);
        }
        assert(!conflicts(rdv, app_scope as usize, Method::Get, full_template(sdv, 1, t7dv)));
    }
    match table.register(app_scope, Method::Get, t7, HandlerId::AppQuery) {
        Ok(_) => {
            proof {
                assert(d.take(8int) =~~= d.take(7int).push(d[7]));
                assert(table.routes.deep_view() =~~= d.take(8int));
            }
        },
        Err(e) => {
            proof {
                assert(false);
            }
            return Err(e);
        },
    }
    let mut t8: Vec<TemplateSeg> = Vec::new();
    t8.push(TemplateSeg::Lit(lit_submit()));
    let ghost t8dv = t8.deep_view();
    proof {
        assert(t8dv =~~= seq![TemplateSegModel::Lit(txt_submit())]);
        assert(full_template(sdv, 1, t8dv) =~~= d[8].segs);
        let rdv = table.routes.deep_view();
        assert forall|j: int| 0 <= j < rdv.len() implies !(#[trigger] rdv[j].scope
            == 1 as usize && rdv[j].method == Method::Post && rdv[j].segs
            == full_template(sdv, 1, t8dv)) by {
            assert(rdv[j] == d[j]);
        }
        assert(!conflicts(rdv, app_scope as usize, Method::Post, full_template(sdv, 1, t8dv)));
    }
    match table.register(app_scope, Method::Post, t8, HandlerId::AppSubmit) {
        Ok(_) => {
            proof {
                assert(d.take(9int) =~~= d.take(8int).push(d[8]));
                assert(table.routes.deep_view() =~~= d.take(9int));
            }
        },
        Err(e) => {
            proof {
                assert(false);
            }
            return Err(e);
        },
    }
    let mut t9: Vec<TemplateSeg> = Vec::new();
    t9.push(TemplateSeg::Lit(lit_profile()));
    t9.push(TemplateSeg::Dyn(lit_username()));
    let ghost t9dv = t9.deep_view();
    proof {
        assert(t9dv =~~= seq![TemplateSegModel::Lit(txt_profile()), TemplateSegModel::Dyn(txt_username())]);
        assert(full_template(sdv, 1, t9dv) =~~= d[9].segs);
        let rdv = table.routes.deep_view();
        assert forall|j: int| 0 <= j < rdv.len() implies !(#[trigger] rdv[j].scope
            == 1 as usize && rdv[j].method == Method::Get && rdv[j].segs
            == full_template(sdv, 1, t9dv)) by {
            assert(rdv[j] == d[j]);
        }
        assert(!conflicts(rdv, app_scope as usize, Method::Get, full_template(sdv, 1, t9dv)));
    }
    match table.register(app_scope, Method::Get, t9, HandlerId::AppProfile) {
        Ok(_) => {
            proof {
                assert(d.take(10int) =~~= d.take(9int).push(d[9]));
                assert(table.routes.deep_view() =~~= d.take(10int));
            }
        },
        Err(e) => {
            proof {
                assert(false);
            }
            return Err(e);
        },
    }
    let mut t10: Vec<TemplateSeg> = Vec::new();
    t10.push(TemplateSeg::Lit(lit_stream()));
    let ghost t10dv = t10.deep_view();
    proof {
        assert(t10dv =~~= seq![TemplateSegModel::Lit(txt_stream())]);
        assert(full_template(sdv, 1, t10dv) =~~= d[10].segs);
        let rdv = table.routes.deep_view();
        assert forall|j: int| 0 <= j < rdv.len() implies !(#[trigger] rdv[j].scope
            == 1 as usize && rdv[j].method == Method::Get && rdv[j].segs
            == full_template(sdv, 1, t10dv)) by {
            assert(rdv[j] == d[j]);
        }
        assert(!conflicts(rdv, app_scope as usize, Method::Get, full_template(sdv, 1, t10dv)));
    }
    match table.register(app_scope, Method::Get, t10, HandlerId::AppStream) {
        Ok(_) => {
            proof {
                assert(d.take(11int) =~~= d.take(10int).push(d[10]));
                assert(table.routes.deep_view() =~~= d.take(11int));
            }
        },
        Err(e) => {
            proof {
                assert(false);
            }
            return Err(e);
        },
    }
    let mut store = StateStore::new();
    store.register(
        app_scope,
        KEY_APP_NAME,
        AccessMode::SharedImmutable,
        StateValue::Text(lit_app_name()),
    );
    store.register(app_scope, KEY_VISITS, AccessMode::SharedExclusive, StateValue::Counter(0));
    proof {
        assert(store.entries.deep_view() =~~= demo_state_spec());
        assert(d.take(11int) =~~= d);
        assert(table.routes.deep_view() =~~= demo_routes_spec());
    }
    Ok(AppService { table, store })
}


/// An over-long body on the submit route maps to the scope-resolved error
/// class — the conflict class where the scope overrides the handler, the
/// default 400 class otherwise — and leaves every state entry untouched.
pub proof fn lemma_payload_too_large_mapped(
    scopes: Seq<ScopeModel>,
    routes: Seq<RouteModel<HandlerId>>,
    entries: Seq<StateEntryModel>,
    req: ReqModel,
    i: int,
)
    requires
        first_match(routes, req.method, path_segments_spec(req.path)) == Some(i),
        0 <= i < routes.len(),
        routes[i].handler == HandlerId::AppSubmit,
        ({
            let cfg = resolve_body_cfg(scopes, scope_chain_spec(scopes, routes[i].scope as int));
            cfg.max_bytes matches Some(m) && req.body.len() > m
        }),
    ensures
        ({
            let cfg = resolve_body_cfg(scopes, scope_chain_spec(scopes, routes[i].scope as int));
            dispatch_spec(scopes, routes, entries, req) == (
                empty_resp_model(body_fail_status(cfg)),
                entries,
            )
        }),
{
}

/// The state after `n` repetitions of one request.
pub open spec fn dispatch_iter(
    scopes: Seq<ScopeModel>,
    routes: Seq<RouteModel<HandlerId>>,
    entries: Seq<StateEntryModel>,
    req: ReqModel,
    n: nat,
) -> Seq<StateEntryModel>
    decreases n,
{
    if n == 0 {
        entries
    } else {
        dispatch_spec(
            scopes,
            routes,
            dispatch_iter(scopes, routes, entries, req, (n - 1) as nat),
            req,
        ).1
    }
}

/// The exclusive counter loses no update: after `n` requests to the visits
/// route, serialized by its exclusive access, the counter holds exactly
/// `c + n`, no other entry has changed, the `k`-th response reports
/// `c + k + 1`, and no two requests observe the same value.
pub proof fn lemma_counter_no_lost_updates(
    scopes: Seq<ScopeModel>,
    routes: Seq<RouteModel<HandlerId>>,
    entries: Seq<StateEntryModel>,
    req: ReqModel,
    i: int,
    idx: int,
    c: u64,
    n: nat,
)
    requires
        first_match(routes, req.method, path_segments_spec(req.path)) == Some(i),
        0 <= i < routes.len(),
        routes[i].handler == HandlerId::AppVisits,
        resolve_spec(entries, scope_chain_spec(scopes, routes[i].scope as int), KEY_VISITS)
            == Some(idx),
        0 <= idx < entries.len(),
        entries[idx].mode == AccessMode::SharedExclusive,
        entries[idx].value == StateValueModel::Counter(c),
        c + n <= u64::MAX,
    ensures
        dispatch_iter(scopes, routes, entries, req, n) == entries.update(
            idx,
            StateEntryModel {
                scope: entries[idx].scope,
                key: entries[idx].key,
                mode: entries[idx].mode,
                value: StateValueModel::Counter((c + n) as u64),
            },
        ),
        forall|k: nat|
            k < n ==> dispatch_spec(
                scopes,
                routes,
                #[trigger] dispatch_iter(scopes, routes, entries, req, k),
                req,
            ).0 == text_resp_model(
                STATUS_OK,
                txt_visits_pre() + dec_rep((c + k + 1) as nat),
            ),
        forall|k1: nat, k2: nat|
            #![trigger dispatch_iter(scopes, routes, entries, req, k1), dispatch_iter(scopes, routes, entries, req, k2)]
            k1 < k2 < n ==> dispatch_spec(
                scopes,
                routes,
                dispatch_iter(scopes, routes, entries, req, k1),
                req,
            ).0 != dispatch_spec(
                scopes,
                routes,
                dispatch_iter(scopes, routes, entries, req, k2),
                req,
            ).0,
    decreases n,
{
    let chain = scope_chain_spec(scopes, routes[i].scope as int);
    if n == 0 {
        assert(entries.update(
            idx,
            StateEntryModel {
                scope: entries[idx].scope,
                key: entries[idx].key,
                mode: entries[idx].mode,
                value: StateValueModel::Counter(c),
            },
        ) =~= entries);
    } else {
        lemma_counter_no_lost_updates(scopes, routes, entries, req, i, idx, c, (n - 1) as nat);
        let prev = dispatch_iter(scopes, routes, entries, req, (n - 1) as nat);
        let e_prev = StateEntryModel {
            scope: entries[idx].scope,
            key: entries[idx].key,
            mode: entries[idx].mode,
            value: StateValueModel::Counter((c + n - 1) as u64),
        };
        assert(prev == entries.update(idx, e_prev));
        assert(prev[idx] == e_prev);
        crate::state::lemma_resolve_update(entries, chain, KEY_VISITS, idx, e_prev);
        assert(resolve_spec(prev, chain, KEY_VISITS) == Some(idx));
        let stepped = visits_spec(prev, chain);
        assert(stepped.1 == prev.update(
            idx,
            StateEntryModel {
                scope: e_prev.scope,
                key: e_prev.key,
                mode: e_prev.mode,
                value: StateValueModel::Counter((c + n) as u64),
            },
        ));
        assert(prev.update(
            idx,
            StateEntryModel {
                scope: e_prev.scope,
                key: e_prev.key,
                mode: e_prev.mode,
                value: StateValueModel::Counter((c + n) as u64),
            },
        ) =~= entries.update(
            idx,
            StateEntryModel {
                scope: entries[idx].scope,
                key: entries[idx].key,
                mode: entries[idx].mode,
                value: StateValueModel::Counter((c + n) as u64),
            },
        ));
        assert(stepped.0 == text_resp_model(
            STATUS_OK,
            txt_visits_pre() + dec_rep((c + n) as nat),
        ));
        assert(dispatch_iter(scopes, routes, entries, req, n) == stepped.1);
        assert forall|k: nat| k < n implies dispatch_spec(
            scopes,
            routes,
            #[trigger] dispatch_iter(scopes, routes, entries, req, k),
            req,
        ).0 == text_resp_model(STATUS_OK, txt_visits_pre() + dec_rep((c + k + 1) as nat)) by {
            if k == n - 1 {
                assert(dispatch_spec(scopes, routes, prev, req).0 == stepped.0);
            }
        }
        assert forall|k1: nat, k2: nat| k1 < k2 < n implies dispatch_spec(
            scopes,
            routes,
            #[trigger] dispatch_iter(scopes, routes, entries, req, k1),
            req,
        ).0 != dispatch_spec(
            scopes,
            routes,
            #[trigger] dispatch_iter(scopes, routes, entries, req, k2),
            req,
        ).0 by {
            let x = (c + k1 + 1) as nat;
            let y = (c + k2 + 1) as nat;
            let pre = txt_visits_pre();
            assert((pre + dec_rep(x)).skip(pre.len() as int) =~= dec_rep(x));
            assert((pre + dec_rep(y)).skip(pre.len() as int) =~= dec_rep(y));
            if pre + dec_rep(x) == pre + dec_rep(y) {
                crate::bytes::lemma_dec_rep_injective(x, y);
            }
        }
    }
}

} // verus!
