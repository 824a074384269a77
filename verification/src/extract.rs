use vstd::prelude::*;
use crate::bytes::all_dec_digits;
use crate::bytes::clone_bytes;
use crate::bytes::dec_val;
use crate::bytes::parse_u32;
use crate::bytes::split_at;
use crate::bytes::split_bytes;
use crate::bytes::AMP;
use crate::bytes::EQUALS;
use crate::bytes::PERCENT;
use crate::bytes::PLUS;
use crate::bytes::SPACE;
use crate::http::Binding;
use crate::http::BindingModel;
use crate::route::BodyConfig;

verus! {

broadcast use crate::bytes::lemma_bytes_deep_view;

/// A structured extraction failure: per-request and recoverable, never
/// fatal to the dispatcher.
#[derive(Clone, Copy, PartialEq, Eq, Structural, Debug)]
pub enum ExtractError {
    /// A bound segment cannot convert to the field's declared type.
    TypeMismatch,
    /// The template declares no dynamic segment for a required field.
    MissingSegment,
    /// A required query key is absent.
    MissingField,
    /// The body exceeds the configured maximum byte length.
    PayloadTooLarge,
    /// The body bytes cannot be deserialized into the declared shape.
    MalformedBody,
}

/// The index of the first occurrence of `c` in `s`.
pub open spec fn find_byte(s: Seq<u8>, c: u8) -> Option<int>
    decreases s.len(),
{
    if s.len() == 0 {
        None::<int>
    } else if s[0] == c {
        Some(0)
    } else {
        match find_byte(s.drop_first(), c) {
            Some(i) => Some(i + 1),
            None => None::<int>,
        }
    }
}

/// A found index lies in the string and holds the byte looked for.
pub proof fn lemma_find_byte_range(s: Seq<u8>, c: u8)
    ensures
        find_byte(s, c) matches Some(i) ==> 0 <= i < s.len() && s[i] == c,
    decreases s.len(),
{
    if s.len() > 0 && s[0] != c {
        lemma_find_byte_range(s.drop_first(), c);
    }
}


/// True when `b` is an ASCII hexadecimal digit.
pub open spec fn is_hex_digit(b: u8) -> bool {
    (48 <= b <= 57) || (65 <= b <= 70) || (97 <= b <= 102)
}

/// The value of the hexadecimal digit `b`.
pub open spec fn hex_val(b: u8) -> nat {
    if 48 <= b <= 57 {
        (b - 48) as nat
    } else if 65 <= b <= 70 {
        (b - 55) as nat
    } else if 97 <= b <= 102 {
        (b - 87) as nat
    } else {
        0
    }
}

/// A query component decoded: `'+'` stands for a space, `'%'` followed by
/// two hexadecimal digits stands for that byte, and anything else — a
/// malformed escape included — stands for itself.
pub open spec fn pct_decode(s: Seq<u8>) -> Seq<u8>
    decreases s.len(),
{
    if s.len() == 0 {
        Seq::<u8>::empty()
    } else if s[0] == PLUS {
        seq![SPACE] + pct_decode(s.drop_first())
    } else if s[0] == PERCENT && s.len() >= 3 && is_hex_digit(s[1]) && is_hex_digit(s[2]) {
        seq![(hex_val(s[1]) * 16 + hex_val(s[2])) as u8] + pct_decode(s.skip(3))
    } else {
        seq![s[0]] + pct_decode(s.drop_first())
    }
}

/// The value of `b` read as a hexadecimal digit, where it is one.
fn hex_digit_value(b: u8) -> (r: Option<u8>)
    ensures
        r matches Some(v) ==> is_hex_digit(b) && v == hex_val(b) && v <= 15,
        r is None ==> !is_hex_digit(b),
{
    if 48 <= b && b <= 57 {
        Some(b - 48)
    } else if 65 <= b && b <= 70 {
        Some(b - 55)
    } else if 97 <= b && b <= 102 {
        Some(b - 87)
    } else {
        None
    }
}

fn pct_decode_from(s: &Vec<u8>, i: usize) -> (r: Vec<u8>)
    requires
        i <= s@.len(),
    ensures
        r@ == pct_decode(s@.skip(i as int)),
    decreases s@.len() - i,
{
    if i == s.len() {
        let r: Vec<u8> = Vec::new();
        proof {
            assert(r@ =~= pct_decode(s@.skip(i as int)));
        }
        return r;
    }
    let ghost tail = s@.skip(i as int);
    let b = s[i];
    proof {
        assert(tail[0] == s@[i as int]);
        assert(tail.drop_first() =~= s@.skip(i + 1));
    }
    if b == PLUS {
        let mut r = pct_decode_from(s, i + 1);
        r.insert(0, SPACE);
        proof {
            assert(r@ =~= seq![SPACE] + pct_decode(s@.skip(i + 1)));
        }
        return r;
    }
    if b == PERCENT && s.len() - i >= 3 {
        proof {
            assert(tail[1] == s@[i + 1]);
            assert(tail[2] == s@[i + 2]);
        }
        match (hex_digit_value(s[i + 1]), hex_digit_value(s[i + 2])) {
            (Some(v1), Some(v2)) => {
                let mut r = pct_decode_from(s, i + 3);
                r.insert(0, v1 * 16 + v2);
                proof {
                    assert(tail.skip(3) =~= s@.skip(i + 3));
                    assert(r@ =~= seq![(hex_val(tail[1]) * 16 + hex_val(tail[2])) as u8]
                        + pct_decode(tail.skip(3)));
                }
                return r;
            },
            _ => {},
        }
    }
    let mut r = pct_decode_from(s, i + 1);
    r.insert(0, b);
    proof {
        assert(r@ =~= seq![tail[0]] + pct_decode(s@.skip(i + 1)));
    }
    r
}

/// Decodes one query component.
fn pct_decode_bytes(v: &Vec<u8>) -> (r: Vec<u8>)
    ensures
        r@ == pct_decode(v@),
{
    let r = pct_decode_from(v, 0);
    proof {
        assert(v@.skip(0) =~= v@);
    }
    r
}

/// One query pair: the text before the first `'='` names the key, the text
/// after it is the value; without `'='` the whole segment is the key.
/// Both parts are percent-decoded after the cut, so an encoded `'='` or
/// `'&'` stays inside its component.
pub open spec fn kv_split(s: Seq<u8>) -> BindingModel {
    match find_byte(s, EQUALS) {
        Some(i) => BindingModel { name: pct_decode(s.take(i)), value: pct_decode(s.skip(i + 1)) },
        None => BindingModel { name: pct_decode(s), value: Seq::<u8>::empty() },
    }
}

/// The pairs of a query string: its `'&'`-separated segments, each cut at
/// its first `'='`.
pub open spec fn query_pairs_spec(q: Seq<u8>) -> Seq<BindingModel> {
    split_at(q, AMP).map_values(|s: Seq<u8>| kv_split(s))
}

fn find_byte_from(s: &Vec<u8>, from: usize, c: u8) -> (r: Option<usize>)
    requires
        from <= s@.len(),
    ensures
        match find_byte(s@.skip(from as int), c) {
            None => r is None,
            Some(i) => r == Some((from + i) as usize),
        },
    decreases s@.len() - from,
{
    if from == s.len() {
        None
    } else if s[from] == c {
        Some(from)
    } else {
        let r = find_byte_from(s, from + 1, c);
        proof {
            assert(s@.skip(from as int).drop_first() =~= s@.skip(from + 1));
        }
        r
    }
}

/// The bytes of `v` from `from` (inclusive) to `to` (exclusive).
fn sub_bytes(v: &Vec<u8>, from: usize, to: usize) -> (r: Vec<u8>)
    requires
        from <= to <= v@.len(),
    ensures
        r@ == v@.subrange(from as int, to as int),
{
    let mut r: Vec<u8> = Vec::new();
    let mut i: usize = from;
    while i < to
        invariant
            from <= i <= to <= v@.len(),
            r@ == v@.subrange(from as int, i as int),
        decreases to - i,
    {
        r.push(v[i]);
        proof {
            assert(v@.subrange(from as int, i + 1) =~= v@.subrange(from as int, i as int).push(
                v@[i as int],
            ));
        }
        i += 1;
    }
    r
}

/// Cuts one query segment into its key and value.
fn kv_split_exec(s: &Vec<u8>) -> (r: Binding)
    ensures
        r@ == kv_split(s@),
{
    proof {
        assert(s@.skip(0) =~= s@);
        lemma_find_byte_range(s@, EQUALS);
    }
    match find_byte_from(s, 0, EQUALS) {
        Some(i) => {
            let n = s.len();
            proof {
                assert(i < s@.len());
            }
            let raw_name = sub_bytes(s, 0, i);
            let raw_value = sub_bytes(s, i + 1, n);
            proof {
                assert(s@.subrange(0, i as int) =~= s@.take(i as int));
                assert(s@.subrange(i + 1, s@.len() as int) =~= s@.skip(i + 1));
            }
            let name = pct_decode_bytes(&raw_name);
            let value = pct_decode_bytes(&raw_value);
            Binding { name, value }
        },
        None => {
            let name = pct_decode_bytes(s);
            Binding { name, value: Vec::new() }
        },
    }
}

/// Parses a query string into its pairs, in order. A later pair with the
/// same key shadows an earlier one at lookup, so the last value wins.
pub fn parse_query(q: &[u8]) -> (r: Vec<Binding>)
    ensures
        r.deep_view() == query_pairs_spec(q@),
{
    let segs = split_bytes(q, AMP);
    let ghost sdv = segs.deep_view();
    let mut r: Vec<Binding> = Vec::new();
    let mut i: usize = 0;
    proof {
        assert(r.deep_view() =~= sdv.take(0).map_values(|s: Seq<u8>| kv_split(s)));
    }
    while i < segs.len()
        invariant
            i <= segs@.len(),
            sdv == segs.deep_view(),
            r.deep_view() == sdv.take(i as int).map_values(|s: Seq<u8>| kv_split(s)),
        decreases segs@.len() - i,
    {
        let ghost r_dv = r.deep_view();
        let p = kv_split_exec(&segs[i]);
        r.push(p);
        proof {
            assert(segs@[i as int]@ == sdv[i as int]);
            assert(r.deep_view() =~= r_dv.push(kv_split(sdv[i as int])));
            assert(sdv.take(i + 1).map_values(|s: Seq<u8>| kv_split(s)) =~= sdv.take(
                i as int,
            ).map_values(|s: Seq<u8>| kv_split(s)).push(kv_split(sdv[i as int])));
        }
        i += 1;
    }
    proof {
        assert(sdv.take(sdv.len() as int) =~= sdv);
    }
    r
}

/// The value of the last pair named `name`: the policy for query and body
/// fields, where a later duplicate key wins.
pub open spec fn lookup_last(ps: Seq<BindingModel>, name: Seq<u8>) -> Option<Seq<u8>>
    decreases ps.len(),
{
    if ps.len() == 0 {
        None::<Seq<u8>>
    } else if ps.last().name == name {
        Some(ps.last().value)
    } else {
        lookup_last(ps.drop_last(), name)
    }
}

/// The value of the first pair named `name`: the policy for path bindings,
/// which come in template order.
pub open spec fn lookup_first(ps: Seq<BindingModel>, name: Seq<u8>) -> Option<Seq<u8>>
    decreases ps.len(),
{
    if ps.len() == 0 {
        None::<Seq<u8>>
    } else {
        match lookup_first(ps.drop_last(), name) {
            Some(v) => Some(v),
            None => if ps.last().name == name {
                Some(ps.last().value)
            } else {
                None::<Seq<u8>>
            },
        }
    }
}

/// Once a prefix of the pairs yields a first match, appending more pairs
/// cannot change it.
pub proof fn lemma_lookup_first_extend(ps: Seq<BindingModel>, name: Seq<u8>, k: int)
    requires
        0 <= k <= ps.len(),
        lookup_first(ps.take(k), name) is Some,
    ensures
        lookup_first(ps, name) == lookup_first(ps.take(k), name),
    decreases ps.len() - k,
{
    if k < ps.len() {
        assert(ps.take(k + 1).drop_last() =~= ps.take(k));
        lemma_lookup_first_extend(ps, name, k + 1);
    } else {
        assert(ps.take(k) =~= ps);
    }
}

/// The lookup policy a source uses: last wins for query and body pairs,
/// first wins for path bindings.
pub open spec fn lookup(ps: Seq<BindingModel>, name: Seq<u8>, last_wins: bool) -> Option<Seq<u8>> {
    if last_wins {
        lookup_last(ps, name)
    } else {
        lookup_first(ps, name)
    }
}

fn lookup_exec(ps: &Vec<Binding>, name: &Vec<u8>, last_wins: bool) -> (r: Option<Vec<u8>>)
    ensures
        match lookup(ps.deep_view(), name@, last_wins) {
            None => r is None,
            Some(v) => r matches Some(rv) && rv@ == v,
        },
{
    let ghost dv = ps.deep_view();
    if last_wins {
        let mut j: usize = ps.len();
        proof {
            assert(dv.take(j as int) =~= dv);
        }
        while j > 0
            invariant
                last_wins,
                j <= ps@.len(),
                dv == ps.deep_view(),
                lookup_last(dv, name@) == lookup_last(dv.take(j as int), name@),
            decreases j,
        {
            proof {
                assert(dv.take(j as int).last() == dv[j - 1]);
                assert(dv.take(j as int).drop_last() =~= dv.take(j - 1));
            }
            if crate::bytes::bytes_eq(ps[j - 1].name.as_slice(), name.as_slice()) {
                proof {
                    assert(dv[j - 1] == ps@[j - 1]@);
                    assert(dv[j - 1].name == name@);
                    assert(lookup_last(dv.take(j as int), name@) == Some(dv[j - 1].value));
                }
                return Some(clone_bytes(&ps[j - 1].value));
            }
            proof {
                assert(dv[j - 1] == ps@[j - 1]@);
            }
            j -= 1;
        }
        None
    } else {
        let mut j: usize = 0;
        proof {
            assert(dv.take(0) =~= Seq::<BindingModel>::empty());
        }
        while j < ps.len()
            invariant
                !last_wins,
                j <= ps@.len(),
                dv == ps.deep_view(),
                lookup_first(dv.take(j as int), name@) is None,
            decreases ps@.len() - j,
        {
            proof {
                assert(dv.take(j + 1).last() == dv[j as int]);
                assert(dv.take(j + 1).drop_last() =~= dv.take(j as int));
            }
            if crate::bytes::bytes_eq(ps[j].name.as_slice(), name.as_slice()) {
                proof {
                    assert(dv[j as int] == ps@[j as int]@);
                    assert(dv[j as int].name == name@);
                    assert(lookup_first(dv.take(j + 1), name@) == Some(dv[j as int].value));
                    lemma_lookup_first_extend(dv, name@, j + 1);
                }
                return Some(clone_bytes(&ps[j].value));
            }
            proof {
                assert(dv[j as int] == ps@[j as int]@);
            }
            j += 1;
        }
        proof {
            assert(dv.take(dv.len() as int) =~= dv);
        }
        None
    }
}

/// A primitive type an extraction target can declare for a field.
#[derive(Clone, Copy, PartialEq, Eq, Structural, Debug)]
pub enum FieldType {
    Unsigned,
    Text,
}

/// One declared field of an extraction target.
pub struct FieldSpec {
    pub name: Vec<u8>,
    pub ty: FieldType,
}

/// The mathematical model of a `FieldSpec`.
#[verifier::ext_equal]
pub struct FieldSpecModel {
    pub name: Seq<u8>,
    pub ty: FieldType,
}

impl View for FieldSpec {
    type V = FieldSpecModel;

    open spec fn view(&self) -> FieldSpecModel {
        FieldSpecModel { name: self.name@, ty: self.ty }
    }
}

impl DeepView for FieldSpec {
    type V = FieldSpecModel;

    open spec fn deep_view(&self) -> FieldSpecModel {
        self.view()
    }
}

/// A typed value an extractor produced for one field.
#[derive(PartialEq, Eq, Debug)]
pub enum FieldValue {
    Unsigned(u32),
    Text(Vec<u8>),
}

/// The mathematical model of a `FieldValue`.
#[verifier::ext_equal]
pub enum FieldValueModel {
    Unsigned(u32),
    Text(Seq<u8>),
}

impl View for FieldValue {
    type V = FieldValueModel;

    open spec fn view(&self) -> FieldValueModel {
        match self {
            FieldValue::Unsigned(v) => FieldValueModel::Unsigned(*v),
            FieldValue::Text(b) => FieldValueModel::Text(b@),
        }
    }
}

impl DeepView for FieldValue {
    type V = FieldValueModel;

    open spec fn deep_view(&self) -> FieldValueModel {
        self.view()
    }
}

/// Why a single field failed: the key was absent, or its text does not
/// convert to the declared type.
#[derive(Clone, Copy, PartialEq, Eq, Structural, Debug)]
pub enum FieldFail {
    Missing,
    BadType,
}

/// The typed value of raw text `v` read at type `ty`; `None` where it does
/// not convert (for `Unsigned`: not a non-empty digit string fitting `u32`).
pub open spec fn convert_spec(v: Seq<u8>, ty: FieldType) -> Option<FieldValueModel> {
    match ty {
        FieldType::Text => Some(FieldValueModel::Text(v)),
        FieldType::Unsigned => if v.len() > 0 && all_dec_digits(v) && dec_val(v)
            <= u32::MAX as nat {
            Some(FieldValueModel::Unsigned(dec_val(v) as u32))
        } else {
            None::<FieldValueModel>
        },
    }
}

/// What extracting `tgt` from `src` yields: the fields' values in declared
/// order, or the failure of the first field that misses or does not
/// convert. Extraction succeeds or fails as a unit.
pub open spec fn extract_fields_spec(
    src: Seq<BindingModel>,
    tgt: Seq<FieldSpecModel>,
    last_wins: bool,
) -> Result<Seq<FieldValueModel>, FieldFail>
    decreases tgt.len(),
{
    if tgt.len() == 0 {
        Ok(Seq::<FieldValueModel>::empty())
    } else {
        match extract_fields_spec(src, tgt.drop_last(), last_wins) {
            Err(e) => Err(e),
            Ok(vs) => match lookup(src, tgt.last().name, last_wins) {
                None => Err(FieldFail::Missing),
                Some(raw) => match convert_spec(raw, tgt.last().ty) {
                    None => Err(FieldFail::BadType),
                    Some(v) => Ok(vs.push(v)),
                },
            },
        }
    }
}

/// A failing prefix of the target decides the whole extraction.
pub proof fn lemma_extract_fields_extend(
    src: Seq<BindingModel>,
    tgt: Seq<FieldSpecModel>,
    last_wins: bool,
    k: int,
)
    requires
        0 <= k <= tgt.len(),
        extract_fields_spec(src, tgt.take(k), last_wins) is Err,
    ensures
        extract_fields_spec(src, tgt, last_wins) == extract_fields_spec(
            src,
            tgt.take(k),
            last_wins,
        ),
    decreases tgt.len() - k,
{
    if k < tgt.len() {
        assert(tgt.take(k + 1).drop_last() =~= tgt.take(k));
        lemma_extract_fields_extend(src, tgt, last_wins, k + 1);
    } else {
        assert(tgt.take(k) =~= tgt);
    }
}

/// Extracts every declared field of `tgt` from the pairs `src`, all or
/// nothing: the first missing field yields `missing_err`, the first
/// non-converting one yields `type_err`.
pub fn extract_fields(
    src: &Vec<Binding>,
    tgt: &Vec<FieldSpec>,
    last_wins: bool,
    missing_err: ExtractError,
    type_err: ExtractError,
) -> (r: Result<Vec<FieldValue>, ExtractError>)
    ensures
        match extract_fields_spec(src.deep_view(), tgt.deep_view(), last_wins) {
            Ok(vs) => r matches Ok(out) && out.deep_view() == vs,
            Err(FieldFail::Missing) => r == Err::<Vec<FieldValue>, ExtractError>(missing_err),
            Err(FieldFail::BadType) => r == Err::<Vec<FieldValue>, ExtractError>(type_err),
        },
{
    let ghost sdv = src.deep_view();
    let ghost tdv = tgt.deep_view();
    let mut out: Vec<FieldValue> = Vec::new();
    let mut i: usize = 0;
    proof {
        assert(tdv.take(0) =~= Seq::<FieldSpecModel>::empty());
        assert(out.deep_view() =~= Seq::<FieldValueModel>::empty());
    }
    while i < tgt.len()
        invariant
            i <= tgt@.len(),
            sdv == src.deep_view(),
            tdv == tgt.deep_view(),
            extract_fields_spec(sdv, tdv.take(i as int), last_wins) matches Ok(vs) && vs
                == out.deep_view(),
        decreases tgt@.len() - i,
    {
        proof {
            assert(tdv.take(i + 1).drop_last() =~= tdv.take(i as int));
            assert(tdv.take(i + 1).last() == tdv[i as int]);
            assert(tdv[i as int] == tgt@[i as int]@);
        }
        let raw = match lookup_exec(src, &tgt[i].name, last_wins) {
            None => {
                proof {
                    lemma_extract_fields_extend(sdv, tdv, last_wins, i + 1);
                }
                return Err(missing_err);
            },
            Some(raw) => raw,
        };
        let ghost out_dv = out.deep_view();
        match tgt[i].ty {
            FieldType::Text => {
                out.push(FieldValue::Text(raw));
                proof {
                    assert(out.deep_view() =~= out_dv.push(
                        convert_spec(lookup(sdv, tdv[i as int].name, last_wins)->Some_0, FieldType::Text)->Some_0,
                    ));
                }
            },
            FieldType::Unsigned => {
                match parse_u32(raw.as_slice()) {
                    Some(v) => {
                        out.push(FieldValue::Unsigned(v));
                        proof {
                            assert(out.deep_view() =~= out_dv.push(
                                FieldValueModel::Unsigned(v),
                            ));
                        }
                    },
                    None => {
                        proof {
                            lemma_extract_fields_extend(sdv, tdv, last_wins, i + 1);
                        }
                        return Err(type_err);
                    },
                }
            },
        }
        i += 1;
    }
    proof {
        assert(tdv.take(tdv.len() as int) =~= tdv);
    }
    Ok(out)
}

/// What the body parser yields on these bytes: where they encode a JSON
/// object, its fields in the parser's order, each string value as its
/// bytes and every other value as `None`; where they encode anything
/// else, no fields at all. The result is a function of the bytes alone.
pub uninterp spec fn json_object_fields(body: Seq<u8>) -> Option<
    Seq<(Seq<u8>, Option<Seq<u8>>)>,
>;

/// Relies on serde_json::from_slice and serde_json::Value: parses the bytes
/// as JSON and hands out the object's fields, marking a non-string value
/// absent. serde_json's map keeps keys in a deterministic (sorted) order,
/// so the result depends on the bytes alone.
#[verifier::external_body]
fn parse_json_object(body: &Vec<u8>) -> (r: Option<Vec<(Vec<u8>, Option<Vec<u8>>)>>)
    ensures
        r matches Some(ps) ==> json_object_fields(body@) == Some(ps.deep_view()),
        r is None ==> json_object_fields(body@) is None,
{
    let v: serde_json::Value = serde_json::from_slice(body.as_slice()).ok()?;
    let obj = match v {
        serde_json::Value::Object(m) => m,
        _ => return None,
    };
    let mut out: Vec<(Vec<u8>, Option<Vec<u8>>)> = Vec::new();
    for (k, val) in obj {
        match val {
            serde_json::Value::String(s) => out.push((k.into_bytes(), Some(s.into_bytes()))),
            _ => out.push((k.into_bytes(), None)),
        }
    }
    Some(out)
}

/// The parsed body fields as bindings: the string-valued fields, in order.
/// A field of any other type is tolerated and dropped, as a deserializer
/// ignoring unknown fields would.
pub open spec fn body_pairs_spec(fields: Seq<(Seq<u8>, Option<Seq<u8>>)>) -> Seq<BindingModel>
    decreases fields.len(),
{
    if fields.len() == 0 {
        Seq::<BindingModel>::empty()
    } else {
        body_pairs_spec(fields.drop_last()) + match fields.last().1 {
            Some(v) => seq![BindingModel { name: fields.last().0, value: v }],
            None => Seq::<BindingModel>::empty(),
        }
    }
}

/// Extracts `tgt` from a request body under the scope's configuration:
/// over-long bodies fail with `PayloadTooLarge` before any parsing; bytes
/// that are not a JSON object of text fields, or an object missing a
/// declared field or not converting to it, fail with `MalformedBody`.
pub fn extract_body(body: &Vec<u8>, cfg: BodyConfig, tgt: &Vec<FieldSpec>) -> (r: Result<
    Vec<FieldValue>,
    ExtractError,
>)
    ensures
        cfg.max_bytes matches Some(m) && body@.len() > m ==> r == Err::<
            Vec<FieldValue>,
            ExtractError,
        >(ExtractError::PayloadTooLarge),
        (cfg.max_bytes is None || (cfg.max_bytes matches Some(m) && body@.len() <= m)) ==> match
            json_object_fields(body@) {
            None => r == Err::<Vec<FieldValue>, ExtractError>(ExtractError::MalformedBody),
            Some(fields) => match extract_fields_spec(body_pairs_spec(fields), tgt.deep_view(), true) {
                Ok(vs) => r matches Ok(out) && out.deep_view() == vs,
                Err(_) => r == Err::<Vec<FieldValue>, ExtractError>(ExtractError::MalformedBody),
            },
        },
{
    match cfg.max_bytes {
        Some(m) => {
            if (body.len() as u64) > m {
                return Err(ExtractError::PayloadTooLarge);
            }
        },
        None => {},
    }
    let fields = match parse_json_object(body) {
        None => {
            return Err(ExtractError::MalformedBody);
        },
        Some(fields) => fields,
    };
    let ghost fdv = fields.deep_view();
    let mut src: Vec<Binding> = Vec::new();
    let mut i: usize = 0;
    proof {
        assert(src.deep_view() =~= body_pairs_spec(fdv.take(0)));
    }
    while i < fields.len()
        invariant
            i <= fields@.len(),
            fdv == fields.deep_view(),
            src.deep_view() == body_pairs_spec(fdv.take(i as int)),
        decreases fields@.len() - i,
    {
        let ghost src_dv = src.deep_view();
        match &fields[i].1 {
            Some(value) => {
                let name = clone_bytes(&fields[i].0);
                let v = clone_bytes(value);
                src.push(Binding { name, value: v });
            },
            None => {},
        }
        proof {
            assert(fields@[i as int].deep_view() == fdv[i as int]);
            assert(fdv.take(i + 1).drop_last() =~= fdv.take(i as int));
            assert(fdv.take(i + 1).last() == fdv[i as int]);
            match fdv[i as int].1 {
                Some(v) => {
                    assert(src.deep_view() =~= src_dv.push(
                        BindingModel { name: fdv[i as int].0, value: v },
                    ));
                    assert(src.deep_view() =~= body_pairs_spec(fdv.take(i + 1)));
                },
                None => {
                    assert(src.deep_view() =~= body_pairs_spec(fdv.take(i + 1)));
                },
            }
        }
        i += 1;
    }
    proof {
        assert(fdv.take(fdv.len() as int) =~= fdv);
    }
    extract_fields(&src, tgt, true, ExtractError::MalformedBody, ExtractError::MalformedBody)
}

} // verus!
