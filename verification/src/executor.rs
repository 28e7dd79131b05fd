//! The query executor: plan one upstream call per requested field, resolve
//! each field from its upstream outcome independently, project the
//! requested sub-attributes, and serialize the combined response.
//!
//! A field's failure is recovered at the resolver boundary: its value is
//! `null` in `data` and a descriptor is appended to `errors`; sibling
//! fields are untouched.  Only a malformed query document rejects the
//! whole request, with a response that carries no `data` member at all.

use vstd::prelude::*;
use crate::cache::{CallModel, UpstreamCall};
use crate::codec::{append_bytes, spec_digits, u32_digits, MAX_ID};
use crate::entities::{RecModel, User, Item, items_view};
use crate::json::{push_escaped, spec_escape};
use crate::query::{
    fields_wf, lit_user, lit_item, lit_items, parse_request, spec_parse_request, FieldQuery,
    QueryDoc, UserSel, ItemSel,
};
use crate::records::{
    decode_user, decode_item, decode_item_list, spec_decode_user, spec_decode_item,
    spec_decode_item_list,
};
use crate::resolvers::{spec_user_call, spec_item_call, spec_items_call, ApiBackend};

verus! {

/// Why an upstream call yielded no body, as the transport reports it.
#[derive(Clone, Copy, PartialEq, Eq, Structural, Debug)]
pub enum UpstreamError {
    /// The call could not be made at all.
    Unavailable,
    /// The call returned a non-success HTTP status.
    Status(u16),
}

/// A field-scoped failure.
#[derive(Clone, Copy, PartialEq, Eq, Structural, Debug)]
pub enum FieldError {
    /// The upstream call could not be made.
    UpstreamUnavailable,
    /// The upstream call returned a non-success status.
    UpstreamStatus(u16),
    /// The upstream body did not decode as the expected record shape.
    DecodeFailed,
}

pub open spec fn spec_upstream_to_field_error(e: UpstreamError) -> FieldError {
    match e {
        UpstreamError::Unavailable => FieldError::UpstreamUnavailable,
        UpstreamError::Status(c) => FieldError::UpstreamStatus(c),
    }
}

/// A successfully resolved field value, with the requested selection.
pub enum FieldValue {
    UserValue(User, UserSel),
    ItemValue(Item, ItemSel),
    ItemListValue(Vec<Item>, ItemSel),
}

/// Mathematical model of a resolved field value.
pub ghost enum ValueModel {
    UserV(RecModel, UserSel),
    ItemV(RecModel, ItemSel),
    ItemListV(Seq<RecModel>, ItemSel),
}

impl View for FieldValue {
    type V = ValueModel;

    open spec fn view(&self) -> ValueModel {
        match self {
            FieldValue::UserValue(u, sel) => ValueModel::UserV(u@, *sel),
            FieldValue::ItemValue(v, sel) => ValueModel::ItemV(v@, *sel),
            FieldValue::ItemListValue(vs, sel) => ValueModel::ItemListV(items_view(vs@), *sel),
        }
    }
}

/// Record ids inside a value fit the digit encoder.
pub open spec fn value_wf(v: ValueModel) -> bool {
    match v {
        ValueModel::UserV(m, _) => 0 <= m.id <= MAX_ID,
        ValueModel::ItemV(m, _) => 0 <= m.id <= MAX_ID,
        ValueModel::ItemListV(ms, _) => forall|k: int|
            0 <= k < ms.len() ==> 0 <= (#[trigger] ms[k]).id <= MAX_ID,
    }
}

/// The outcome of one top-level field.
pub struct ResolvedField {
    pub name: Vec<u8>,
    pub outcome: Result<FieldValue, FieldError>,
}

/// Mathematical model of one resolved field.
pub ghost struct ResolvedModel {
    pub name: Seq<u8>,
    pub outcome: Result<ValueModel, FieldError>,
}

impl View for ResolvedField {
    type V = ResolvedModel;

    open spec fn view(&self) -> ResolvedModel {
        ResolvedModel {
            name: self.name@,
            outcome: match self.outcome {
                Ok(v) => Ok(v@),
                Err(e) => Err(e),
            },
        }
    }
}

pub open spec fn resolved_wf(r: ResolvedModel) -> bool {
    match r.outcome {
        Ok(v) => value_wf(v),
        Err(_) => true,
    }
}

/// The response name of a field.
pub open spec fn spec_field_name(f: FieldQuery) -> Seq<u8> {
    match f {
        FieldQuery::UserField { .. } => lit_user(),
        FieldQuery::ItemField { .. } => lit_item(),
        FieldQuery::ItemsField { .. } => lit_items(),
    }
}

/// The upstream call one field plans.
pub open spec fn spec_call_for(f: FieldQuery) -> CallModel {
    match f {
        FieldQuery::UserField { id, .. } => spec_user_call(id as int),
        FieldQuery::ItemField { id, .. } => spec_item_call(id as int),
        FieldQuery::ItemsField { .. } => spec_items_call(),
    }
}

pub open spec fn res_view(r: Result<Vec<u8>, UpstreamError>) -> Result<Seq<u8>, UpstreamError> {
    match r {
        Ok(b) => Ok(b@),
        Err(e) => Err(e),
    }
}

/// How one field resolves from its own upstream outcome alone: an upstream
/// failure or an undecodable body is a field-scoped error; a decoded body
/// is the field's value, carrying the requested selection.
pub open spec fn spec_resolve_field(f: FieldQuery, res: Result<Seq<u8>, UpstreamError>) -> ResolvedModel {
    match res {
        Err(e) => ResolvedModel {
            name: spec_field_name(f),
            outcome: Err(spec_upstream_to_field_error(e)),
        },
        Ok(b) => match f {
            FieldQuery::UserField { sel, .. } => match spec_decode_user(b) {
                None => ResolvedModel { name: lit_user(), outcome: Err(FieldError::DecodeFailed) },
                Some(m) => ResolvedModel { name: lit_user(), outcome: Ok(ValueModel::UserV(m, sel)) },
            },
            FieldQuery::ItemField { sel, .. } => match spec_decode_item(b) {
                None => ResolvedModel { name: lit_item(), outcome: Err(FieldError::DecodeFailed) },
                Some(m) => ResolvedModel {
                    name: lit_item(),
                    outcome: Ok(ValueModel::ItemV(m, sel)),
                },
            },
            FieldQuery::ItemsField { sel } => match spec_decode_item_list(b) {
                None => ResolvedModel { name: lit_items(), outcome: Err(FieldError::DecodeFailed) },
                Some(ms) => ResolvedModel {
                    name: lit_items(),
                    outcome: Ok(ValueModel::ItemListV(ms, sel)),
                },
            },
        },
    }
}

/// The resolution of a whole document: each field from its own result.
pub open spec fn spec_execute(
    fs: Seq<FieldQuery>,
    results: Seq<Result<Seq<u8>, UpstreamError>>,
) -> Seq<ResolvedModel> {
    Seq::new(fs.len(), |k: int| spec_resolve_field(fs[k], results[k]))
}

/// The response name of a field, as a vector.
fn field_name_vec(f: &FieldQuery) -> (r: Vec<u8>)
    ensures
        r@ == spec_field_name(*f),
{
    let mut v: Vec<u8> = Vec::new();
    match f {
        FieldQuery::UserField { .. } => {
            v.push(117);
            v.push(115);
            v.push(101);
            v.push(114);
            proof {
                assert(v@ =~= lit_user());
            }
        },
        FieldQuery::ItemField { .. } => {
            v.push(105);
            v.push(116);
            v.push(101);
            v.push(109);
            proof {
                assert(v@ =~= lit_item());
            }
        },
        FieldQuery::ItemsField { .. } => {
            v.push(105);
            v.push(116);
            v.push(101);
            v.push(109);
            v.push(115);
            proof {
                assert(v@ =~= lit_items());
            }
        },
    }
    v
}

/// Resolve one field from its upstream outcome; mirrors
/// `spec_resolve_field`.
pub fn resolve_field(f: &FieldQuery, res: &Result<Vec<u8>, UpstreamError>) -> (out: ResolvedField)
    ensures
        out@ == spec_resolve_field(*f, res_view(*res)),
        resolved_wf(out@),
{
    let name = field_name_vec(f);
    match res {
        Err(e) => {
            let fe = match e {
                UpstreamError::Unavailable => FieldError::UpstreamUnavailable,
                UpstreamError::Status(c) => FieldError::UpstreamStatus(*c),
            };
            ResolvedField { name, outcome: Err(fe) }
        },
        Ok(b) => match f {
            FieldQuery::UserField { .. } => match decode_user(b) {
                None => ResolvedField { name, outcome: Err(FieldError::DecodeFailed) },
                Some(u) => {
                    let sel = match f {
                        FieldQuery::UserField { sel, .. } => *sel,
                        _ => UserSel { id: false, name: false, email: false },
                    };
                    ResolvedField { name, outcome: Ok(FieldValue::UserValue(u, sel)) }
                },
            },
            FieldQuery::ItemField { .. } => match decode_item(b) {
                None => ResolvedField { name, outcome: Err(FieldError::DecodeFailed) },
                Some(v) => {
                    let sel = match f {
                        FieldQuery::ItemField { sel, .. } => *sel,
                        _ => ItemSel { id: false, title: false, url: false },
                    };
                    ResolvedField { name, outcome: Ok(FieldValue::ItemValue(v, sel)) }
                },
            },
            FieldQuery::ItemsField { sel } => match decode_item_list(b) {
                None => ResolvedField { name, outcome: Err(FieldError::DecodeFailed) },
                Some(vs) => ResolvedField {
                    name,
                    outcome: Ok(FieldValue::ItemListValue(vs, *sel)),
                },
            },
        },
    }
}

/// Resolve every field of the document, each from its own result and
/// nothing else.
pub fn resolve_fields(doc: &QueryDoc, results: &Vec<Result<Vec<u8>, UpstreamError>>) -> (out: Vec<
    ResolvedField,
>)
    requires
        results@.len() == doc@.len(),
    ensures
        out@.len() == doc@.len(),
        forall|k: int| 0 <= k < out@.len() ==> (#[trigger] out@[k])@ == spec_resolve_field(
            doc@[k],
            res_view(results@[k]),
        ),
        forall|k: int| 0 <= k < out@.len() ==> resolved_wf((#[trigger] out@[k])@),
{
    let mut out: Vec<ResolvedField> = Vec::new();
    let mut k: usize = 0;
    while k < doc.fields.len()
        invariant
            results@.len() == doc@.len(),
            k <= doc@.len(),
            out@.len() == k,
            forall|t: int| 0 <= t < k ==> (#[trigger] out@[t])@ == spec_resolve_field(
                doc@[t],
                res_view(results@[t]),
            ),
            forall|t: int| 0 <= t < k ==> resolved_wf((#[trigger] out@[t])@),
        decreases doc@.len() - k,
    {
        let r = resolve_field(&doc.fields[k], &results[k]);
        out.push(r);
        k = k + 1;
    }
    out
}

/// Plan the upstream call of every field, in request order.
pub fn plan_fields(doc: &QueryDoc, backend: &ApiBackend) -> (calls: Vec<UpstreamCall>)
    requires
        fields_wf(doc@),
    ensures
        calls@.len() == doc@.len(),
        forall|k: int| 0 <= k < calls@.len() ==> (#[trigger] calls@[k])@ == spec_call_for(doc@[k]),
{
    let mut calls: Vec<UpstreamCall> = Vec::new();
    let mut k: usize = 0;
    while k < doc.fields.len()
        invariant
            fields_wf(doc@),
            k <= doc@.len(),
            calls@.len() == k,
            forall|t: int| 0 <= t < k ==> (#[trigger] calls@[t])@ == spec_call_for(doc@[t]),
        decreases doc@.len() - k,
    {
        proof {
            assert(crate::query::field_wf(doc@[k as int]));
        }
        let c = match &doc.fields[k] {
            FieldQuery::UserField { id, .. } => backend.get_user(*id),
            FieldQuery::ItemField { id, .. } => match backend.get_video(Some(*id)) {
                Ok(c) => c,
                Err(_) => unreached(),
            },
            FieldQuery::ItemsField { .. } => backend.get_videos(),
        };
        calls.push(c);
        k = k + 1;
    }
    calls
}

// ---- serialization ----

/// `,`-joined concatenation of parts.
pub open spec fn spec_join_comma(parts: Seq<Seq<u8>>) -> Seq<u8>
    decreases parts.len(),
{
    if parts.len() == 0 {
        Seq::empty()
    } else if parts.len() == 1 {
        parts[0]
    } else {
        spec_join_comma(parts.drop_last()) + seq![44u8] + parts.last()
    }
}

pub open spec fn parts_view(parts: Seq<Vec<u8>>) -> Seq<Seq<u8>> {
    parts.map_values(|p: Vec<u8>| p@)
}

/// Mirrors `spec_join_comma`.
fn join_comma(parts: &Vec<Vec<u8>>) -> (r: Vec<u8>)
    ensures
        r@ == spec_join_comma(parts_view(parts@)),
{
    let mut out: Vec<u8> = Vec::new();
    let mut k: usize = 0;
    while k < parts.len()
        invariant
            k <= parts@.len(),
            out@ == spec_join_comma(parts_view(parts@).subrange(0, k as int)),
        decreases parts@.len() - k,
    {
        if k > 0 {
            out.push(44);
        }
        append_bytes(&mut out, &parts[k]);
        proof {
            let pv = parts_view(parts@);
            assert(pv.subrange(0, k + 1).drop_last() =~= pv.subrange(0, k as int));
            assert(pv.subrange(0, k + 1).last() == pv[k as int]);
            assert(out@ =~= spec_join_comma(pv.subrange(0, k + 1)));
        }
        k = k + 1;
    }
    proof {
        assert(parts_view(parts@).subrange(0, parts@.len() as int) =~= parts_view(parts@));
    }
    out
}

/// `"id":` followed by the id digits.
pub open spec fn spec_part_id(id: int) -> Seq<u8> {
    seq![34u8, 105, 100, 34, 58] + spec_digits(id)
}

/// A quoted string member: `"<key>":"<content>"`, the content escaped.
pub open spec fn spec_part_str(key: Seq<u8>, content: Seq<u8>) -> Seq<u8> {
    seq![34u8] + key + seq![34u8, 58, 34] + spec_escape(content) + seq![34u8]
}

/// The projected members of a user value: exactly the requested
/// sub-attributes, in schema order.  The `name` member is sourced from the
/// upstream `user_name` attribute.
pub open spec fn spec_user_parts(m: RecModel, sel: UserSel) -> Seq<Seq<u8>> {
    (if sel.id {
        seq![spec_part_id(m.id)]
    } else {
        Seq::empty()
    }) + (if sel.name {
        seq![spec_part_str(lit_name_key(), m.f1)]
    } else {
        Seq::empty()
    }) + (if sel.email {
        seq![spec_part_str(lit_email_key(), m.f2)]
    } else {
        Seq::empty()
    })
}

/// `name`
pub open spec fn lit_name_key() -> Seq<u8> {
    seq![110u8, 97, 109, 101]
}

/// `email`
pub open spec fn lit_email_key() -> Seq<u8> {
    seq![101u8, 109, 97, 105, 108]
}

/// `title`
pub open spec fn lit_title_key() -> Seq<u8> {
    seq![116u8, 105, 116, 108, 101]
}

/// `url`
pub open spec fn lit_url_key() -> Seq<u8> {
    seq![117u8, 114, 108]
}

/// The projected members of an item value.
pub open spec fn spec_item_parts(m: RecModel, sel: ItemSel) -> Seq<Seq<u8>> {
    (if sel.id {
        seq![spec_part_id(m.id)]
    } else {
        Seq::empty()
    }) + (if sel.title {
        seq![spec_part_str(lit_title_key(), m.f1)]
    } else {
        Seq::empty()
    }) + (if sel.url {
        seq![spec_part_str(lit_url_key(), m.f2)]
    } else {
        Seq::empty()
    })
}

/// One serialized user object, holding only the requested sub-attributes.
pub open spec fn spec_user_json(m: RecModel, sel: UserSel) -> Seq<u8> {
    seq![123u8] + spec_join_comma(spec_user_parts(m, sel)) + seq![125u8]
}

/// One serialized item object, holding only the requested sub-attributes.
pub open spec fn spec_item_json(m: RecModel, sel: ItemSel) -> Seq<u8> {
    seq![123u8] + spec_join_comma(spec_item_parts(m, sel)) + seq![125u8]
}

/// One serialized field value.
pub open spec fn spec_value_json(v: ValueModel) -> Seq<u8> {
    match v {
        ValueModel::UserV(m, sel) => spec_user_json(m, sel),
        ValueModel::ItemV(m, sel) => spec_item_json(m, sel),
        ValueModel::ItemListV(ms, sel) => seq![91u8] + spec_join_comma(
            ms.map_values(|m: RecModel| spec_item_json(m, sel)),
        ) + seq![93u8],
    }
}

/// Serialize one user object; mirrors `spec_user_json`.
fn user_json(u: &User, sel: UserSel) -> (r: Vec<u8>)
    requires
        0 <= u@.id,
    ensures
        r@ == spec_user_json(u@, sel),
{
    let mut parts: Vec<Vec<u8>> = Vec::new();
    if sel.id {
        let mut p: Vec<u8> = Vec::new();
        p.push(34);
        p.push(105);
        p.push(100);
        p.push(34);
        p.push(58);
        let ds = u32_digits(u.id as u32);
        append_bytes(&mut p, &ds);
        proof {
            assert(p@ =~= spec_part_id(u@.id));
        }
        parts.push(p);
    }
    if sel.name {
        let mut p: Vec<u8> = Vec::new();
        p.push(34);
        p.push(110);
        p.push(97);
        p.push(109);
        p.push(101);
        p.push(34);
        p.push(58);
        p.push(34);
        push_escaped(&u.user_name, 0, &mut p);
        p.push(34);
        proof {
            assert(p@ =~= spec_part_str(lit_name_key(), u@.f1));
        }
        parts.push(p);
    }
    if sel.email {
        let mut p: Vec<u8> = Vec::new();
        p.push(34);
        p.push(101);
        p.push(109);
        p.push(97);
        p.push(105);
        p.push(108);
        p.push(34);
        p.push(58);
        p.push(34);
        push_escaped(&u.email, 0, &mut p);
        p.push(34);
        proof {
            assert(p@ =~= spec_part_str(lit_email_key(), u@.f2));
        }
        parts.push(p);
    }
    proof {
        assert(parts_view(parts@) =~= spec_user_parts(u@, sel));
    }
    let inner = join_comma(&parts);
    let mut out: Vec<u8> = Vec::new();
    out.push(123);
    append_bytes(&mut out, &inner);
    out.push(125);
    proof {
        assert(out@ =~= spec_user_json(u@, sel));
    }
    out
}

/// Serialize one item object; mirrors `spec_item_json`.
fn item_json(v: &Item, sel: ItemSel) -> (r: Vec<u8>)
    requires
        0 <= v@.id,
    ensures
        r@ == spec_item_json(v@, sel),
{
    let mut parts: Vec<Vec<u8>> = Vec::new();
    if sel.id {
        let mut p: Vec<u8> = Vec::new();
        p.push(34);
        p.push(105);
        p.push(100);
        p.push(34);
        p.push(58);
        let ds = u32_digits(v.id as u32);
        append_bytes(&mut p, &ds);
        proof {
            assert(p@ =~= spec_part_id(v@.id));
        }
        parts.push(p);
    }
    if sel.title {
        let mut p: Vec<u8> = Vec::new();
        p.push(34);
        p.push(116);
        p.push(105);
        p.push(116);
        p.push(108);
        p.push(101);
        p.push(34);
        p.push(58);
        p.push(34);
        push_escaped(&v.title, 0, &mut p);
        p.push(34);
        proof {
            assert(p@ =~= spec_part_str(lit_title_key(), v@.f1));
        }
        parts.push(p);
    }
    if sel.url {
        let mut p: Vec<u8> = Vec::new();
        p.push(34);
        p.push(117);
        p.push(114);
        p.push(108);
        p.push(34);
        p.push(58);
        p.push(34);
        push_escaped(&v.url, 0, &mut p);
        p.push(34);
        proof {
            assert(p@ =~= spec_part_str(lit_url_key(), v@.f2));
        }
        parts.push(p);
    }
    proof {
        assert(parts_view(parts@) =~= spec_item_parts(v@, sel));
    }
    let inner = join_comma(&parts);
    let mut out: Vec<u8> = Vec::new();
    out.push(123);
    append_bytes(&mut out, &inner);
    out.push(125);
    proof {
        assert(out@ =~= spec_item_json(v@, sel));
    }
    out
}

/// Serialize one field value; mirrors `spec_value_json`.
fn value_json(v: &FieldValue) -> (r: Vec<u8>)
    requires
        value_wf(v@),
    ensures
        r@ == spec_value_json(v@),
{
    match v {
        FieldValue::UserValue(u, sel) => user_json(u, *sel),
        FieldValue::ItemValue(vd, sel) => item_json(vd, *sel),
        FieldValue::ItemListValue(vs, sel) => {
            let ghost ms = items_view(vs@);
            proof {
                assert(value_wf(ValueModel::ItemListV(ms, *sel)));
                assert forall|t: int| 0 <= t < ms.len() implies 0 <= (#[trigger] ms[t]).id by {
                }
            }
            let mut parts: Vec<Vec<u8>> = Vec::new();
            let mut k: usize = 0;
            while k < vs.len()
                invariant
                    ms == items_view(vs@),
                    forall|t: int| 0 <= t < ms.len() ==> 0 <= (#[trigger] ms[t]).id,
                    k <= vs@.len(),
                    parts@.len() == k,
                    forall|t: int| 0 <= t < k ==> (#[trigger] parts@[t])@ == spec_item_json(
                        ms[t],
                        *sel,
                    ),
                decreases vs@.len() - k,
            {
                proof {
                    assert(ms[k as int] == vs@[k as int]@);
                    assert(0 <= ms[k as int].id);
                }
                let pj = item_json(&vs[k], *sel);
                parts.push(pj);
                k = k + 1;
            }
            proof {
                let mapped = ms.map_values(|m: RecModel| spec_item_json(m, *sel));
                assert forall|t: int| 0 <= t < ms.len() implies parts_view(parts@)[t] == mapped[t] by {
                    assert(mapped[t] == spec_item_json(ms[t], *sel));
                    assert(parts_view(parts@)[t] == parts@[t]@);
                }
                assert(parts_view(parts@) =~= mapped);
            }
            let inner = join_comma(&parts);
            let mut out: Vec<u8> = Vec::new();
            out.push(91);
            append_bytes(&mut out, &inner);
            out.push(93);
            proof {
                assert(out@ =~= spec_value_json(ValueModel::ItemListV(ms, *sel)));
            }
            out
        },
    }
}

/// `upstream unavailable`
pub open spec fn msg_unavailable() -> Seq<u8> {
    seq![117u8, 112, 115, 116, 114, 101, 97, 109, 32, 117, 110, 97, 118, 97, 105, 108, 97, 98, 108, 101]
}

/// `upstream status ` followed by the status digits.
pub open spec fn msg_status(c: int) -> Seq<u8> {
    seq![117u8, 112, 115, 116, 114, 101, 97, 109, 32, 115, 116, 97, 116, 117, 115, 32] + spec_digits(c)
}

/// `invalid upstream record`
pub open spec fn msg_decode() -> Seq<u8> {
    seq![105u8, 110, 118, 97, 108, 105, 100, 32, 117, 112, 115, 116, 114, 101, 97, 109, 32, 114, 101, 99, 111, 114, 100]
}

/// The human-readable message of a field error.
pub open spec fn spec_error_message(e: FieldError) -> Seq<u8> {
    match e {
        FieldError::UpstreamUnavailable => msg_unavailable(),
        FieldError::UpstreamStatus(c) => msg_status(c as int),
        FieldError::DecodeFailed => msg_decode(),
    }
}

/// Mirrors `spec_error_message`.
fn error_message(e: FieldError) -> (r: Vec<u8>)
    ensures
        r@ == spec_error_message(e),
{
    let mut v: Vec<u8> = Vec::new();
    match e {
        FieldError::UpstreamUnavailable => {
            v.push(117);
            v.push(112);
            v.push(115);
            v.push(116);
            v.push(114);
            v.push(101);
            v.push(97);
            v.push(109);
            v.push(32);
            v.push(117);
            v.push(110);
            v.push(97);
            v.push(118);
            v.push(97);
            v.push(105);
            v.push(108);
            v.push(97);
            v.push(98);
            v.push(108);
            v.push(101);
            proof {
                assert(v@ =~= msg_unavailable());
            }
        },
        FieldError::UpstreamStatus(c) => {
            v.push(117);
            v.push(112);
            v.push(115);
            v.push(116);
            v.push(114);
            v.push(101);
            v.push(97);
            v.push(109);
            v.push(32);
            v.push(115);
            v.push(116);
            v.push(97);
            v.push(116);
            v.push(117);
            v.push(115);
            v.push(32);
            let ds = u32_digits(c as u32);
            append_bytes(&mut v, &ds);
            proof {
                assert(v@ =~= msg_status(c as int));
            }
        },
        FieldError::DecodeFailed => {
            v.push(105);
            v.push(110);
            v.push(118);
            v.push(97);
            v.push(108);
            v.push(105);
            v.push(100);
            v.push(32);
            v.push(117);
            v.push(112);
            v.push(115);
            v.push(116);
            v.push(114);
            v.push(101);
            v.push(97);
            v.push(109);
            v.push(32);
            v.push(114);
            v.push(101);
            v.push(99);
            v.push(111);
            v.push(114);
            v.push(100);
            proof {
                assert(v@ =~= msg_decode());
            }
        },
    }
    v
}

/// `null`
pub open spec fn lit_null() -> Seq<u8> {
    seq![110u8, 117, 108, 108]
}

/// One member of the `data` object: `"<name>":<value or null>`.
pub open spec fn spec_data_entry(r: ResolvedModel) -> Seq<u8> {
    seq![34u8] + r.name + seq![34u8, 58] + (match r.outcome {
        Ok(v) => spec_value_json(v),
        Err(_) => lit_null(),
    })
}

/// One member of the `errors` list:
/// `{"message":"<message>","path":["<name>"]}`.
pub open spec fn spec_error_entry(r: ResolvedModel, e: FieldError) -> Seq<u8> {
    seq![123u8, 34, 109, 101, 115, 115, 97, 103, 101, 34, 58, 34] + spec_error_message(e) + seq![
        34u8,
        44,
        34,
        112,
        97,
        116,
        104,
        34,
        58,
        91,
        34,
    ] + r.name + seq![34u8, 93, 125]
}

/// The `data` members, one per requested field, in request order.
pub open spec fn spec_data_of(rs: Seq<ResolvedModel>) -> Seq<Seq<u8>> {
    rs.map_values(|r: ResolvedModel| spec_data_entry(r))
}

/// The `errors` members, one per failed field, in request order.
pub open spec fn spec_errors_of(rs: Seq<ResolvedModel>) -> Seq<Seq<u8>>
    decreases rs.len(),
{
    if rs.len() == 0 {
        Seq::empty()
    } else {
        spec_errors_of(rs.drop_last()) + (match rs.last().outcome {
            Ok(_) => Seq::<Seq<u8>>::empty(),
            Err(e) => seq![spec_error_entry(rs.last(), e)],
        })
    }
}

/// The completed response: a `data` object keyed by field name, and, when
/// any field failed, an `errors` list of field-scoped descriptors.
pub open spec fn spec_response_bytes(rs: Seq<ResolvedModel>) -> Seq<u8> {
    seq![123u8, 34, 100, 97, 116, 97, 34, 58, 123] + spec_join_comma(spec_data_of(rs)) + seq![125u8]
        + (if spec_errors_of(rs).len() == 0 {
        Seq::<u8>::empty()
    } else {
        seq![44u8, 34, 101, 114, 114, 111, 114, 115, 34, 58, 91] + spec_join_comma(
            spec_errors_of(rs),
        ) + seq![93u8]
    }) + seq![125u8]
}

/// The rejection response for a malformed document:
/// `{"errors":[{"message":"malformed query document"}]}` — no `data`
/// member at all.
pub open spec fn spec_reject_bytes() -> Seq<u8> {
    seq![123u8, 34, 101, 114, 114, 111, 114, 115, 34, 58, 91, 123, 34, 109, 101, 115, 115, 97, 103, 101, 34, 58, 34]
        + seq![109u8, 97, 108, 102, 111, 114, 109, 101, 100, 32, 113, 117, 101, 114, 121, 32, 100, 111, 99, 117, 109, 101, 110, 116]
        + seq![34u8, 125, 93, 125]
}

/// The views of a resolved vector.
pub open spec fn resolved_views(rs: Seq<ResolvedField>) -> Seq<ResolvedModel> {
    rs.map_values(|r: ResolvedField| r@)
}

/// Serialize the combined response; mirrors `spec_response_bytes`.
#[verifier::rlimit(100)]
pub fn serialize_response(rs: &Vec<ResolvedField>) -> (out: Vec<u8>)
    requires
        forall|k: int| 0 <= k < rs@.len() ==> resolved_wf((#[trigger] rs@[k])@),
    ensures
        out@ == spec_response_bytes(resolved_views(rs@)),
{
    let ghost rsv = resolved_views(rs@);
    proof {
        assert forall|t: int| 0 <= t < rsv.len() implies resolved_wf(#[trigger] rsv[t]) by {
            assert(rsv[t] == rs@[t]@);
        }
    }
    let mut dparts: Vec<Vec<u8>> = Vec::new();
    let mut k: usize = 0;
    while k < rs.len()
        invariant
            forall|t: int| 0 <= t < rs@.len() ==> resolved_wf((#[trigger] rs@[t])@),
            rsv == resolved_views(rs@),
            k <= rs@.len(),
            dparts@.len() == k,
            forall|t: int| 0 <= t < k ==> (#[trigger] dparts@[t])@ == spec_data_entry(rsv[t]),
        decreases rs@.len() - k,
    {
        proof {
            assert(rsv[k as int] == rs@[k as int]@);
        }
        let r = &rs[k];
        let mut entry: Vec<u8> = Vec::new();
        entry.push(34);
        append_bytes(&mut entry, &r.name);
        entry.push(34);
        entry.push(58);
        match &r.outcome {
            Ok(v) => {
                proof {
                    assert(resolved_wf(rs@[k as int]@));
                }
                let vj = value_json(v);
                append_bytes(&mut entry, &vj);
            },
            Err(_) => {
                entry.push(110);
                entry.push(117);
                entry.push(108);
                entry.push(108);
            },
        }
        proof {
            assert(entry@ =~= spec_data_entry(rsv[k as int]));
        }
        dparts.push(entry);
        k = k + 1;
    }
    proof {
        assert forall|t: int| 0 <= t < rsv.len() implies parts_view(dparts@)[t] == spec_data_of(
            rsv,
        )[t] by {
            assert(spec_data_of(rsv)[t] == spec_data_entry(rsv[t]));
            assert(parts_view(dparts@)[t] == dparts@[t]@);
        }
        assert(parts_view(dparts@) =~= spec_data_of(rsv));
    }

    let mut eparts: Vec<Vec<u8>> = Vec::new();
    let mut k2: usize = 0;
    while k2 < rs.len()
        invariant
            rsv == resolved_views(rs@),
            k2 <= rs@.len(),
            parts_view(eparts@) == spec_errors_of(rsv.subrange(0, k2 as int)),
        decreases rs@.len() - k2,
    {
        let r = &rs[k2];
        let ghost pre = eparts@;
        proof {
            assert(rsv[k2 as int] == rs@[k2 as int]@);
            assert(rsv.subrange(0, k2 + 1).drop_last() =~= rsv.subrange(0, k2 as int));
            assert(rsv.subrange(0, k2 + 1).last() == rsv[k2 as int]);
        }
        match &r.outcome {
            Ok(_) => {
                proof {
                    assert(rsv[k2 as int].outcome is Ok);
                    assert(parts_view(eparts@) =~= spec_errors_of(rsv.subrange(0, k2 + 1)));
                }
            },
            Err(e) => {
                let mut entry: Vec<u8> = Vec::new();
                entry.push(123);
                entry.push(34);
                entry.push(109);
                entry.push(101);
                entry.push(115);
                entry.push(115);
                entry.push(97);
                entry.push(103);
                entry.push(101);
                entry.push(34);
                entry.push(58);
                entry.push(34);
                let msg = error_message(*e);
                append_bytes(&mut entry, &msg);
                entry.push(34);
                entry.push(44);
                entry.push(34);
                entry.push(112);
                entry.push(97);
                entry.push(116);
                entry.push(104);
                entry.push(34);
                entry.push(58);
                entry.push(91);
                entry.push(34);
                append_bytes(&mut entry, &r.name);
                entry.push(34);
                entry.push(93);
                entry.push(125);
                proof {
                    assert(rsv[k2 as int].outcome == Err::<ValueModel, FieldError>(*e));
                    assert(entry@ =~= spec_error_entry(rsv[k2 as int], *e));
                }
                eparts.push(entry);
                proof {
                    assert(parts_view(eparts@) =~= parts_view(pre) + seq![entry@]);
                    assert(spec_errors_of(rsv.subrange(0, k2 + 1)) == spec_errors_of(
                        rsv.subrange(0, k2 as int),
                    ) + seq![spec_error_entry(rsv[k2 as int], *e)]);
                    assert(parts_view(eparts@) =~= spec_errors_of(rsv.subrange(0, k2 + 1)));
                }
            },
        }
        k2 = k2 + 1;
    }
    proof {
        assert(rsv.subrange(0, rsv.len() as int) =~= rsv);
    }

    let data_inner = join_comma(&dparts);
    let mut out: Vec<u8> = Vec::new();
    out.push(123);
    out.push(34);
    out.push(100);
    out.push(97);
    out.push(116);
    out.push(97);
    out.push(34);
    out.push(58);
    out.push(123);
    append_bytes(&mut out, &data_inner);
    out.push(125);
    if eparts.len() > 0 {
        out.push(44);
        out.push(34);
        out.push(101);
        out.push(114);
        out.push(114);
        out.push(111);
        out.push(114);
        out.push(115);
        out.push(34);
        out.push(58);
        out.push(91);
        let err_inner = join_comma(&eparts);
        append_bytes(&mut out, &err_inner);
        out.push(93);
    }
    out.push(125);
    proof {
        assert(out@ =~= spec_response_bytes(rsv));
    }
    out
}

/// The rejection response; mirrors `spec_reject_bytes`.
#[verifier::rlimit(100)]
pub fn reject_response() -> (out: Vec<u8>)
    ensures
        out@ == spec_reject_bytes(),
{
    let mut v: Vec<u8> = Vec::new();
    v.push(123);
    v.push(34);
    v.push(101);
    v.push(114);
    v.push(114);
    v.push(111);
    v.push(114);
    v.push(115);
    v.push(34);
    v.push(58);
    v.push(91);
    v.push(123);
    v.push(34);
    v.push(109);
    v.push(101);
    v.push(115);
    v.push(115);
    v.push(97);
    v.push(103);
    v.push(101);
    v.push(34);
    v.push(58);
    v.push(34);
    v.push(109);
    v.push(97);
    v.push(108);
    v.push(102);
    v.push(111);
    v.push(114);
    v.push(109);
    v.push(101);
    v.push(100);
    v.push(32);
    v.push(113);
    v.push(117);
    v.push(101);
    v.push(114);
    v.push(121);
    v.push(32);
    v.push(100);
    v.push(111);
    v.push(99);
    v.push(117);
    v.push(109);
    v.push(101);
    v.push(110);
    v.push(116);
    v.push(34);
    v.push(125);
    v.push(93);
    v.push(125);
    proof {
        assert(v@ =~= spec_reject_bytes());
    }
    v
}

// ---- the two executor phases ----

/// What becomes of one inbound request body before any upstream call:
/// either it is rejected outright, or it is parsed and planned.
pub enum GatewayOutcome {
    /// The body is not a valid query document; the rejection response is
    /// ready to send and no resolver runs.
    Rejected(Vec<u8>),
    /// The parsed document and its planned upstream calls, one per field,
    /// in request order.
    Planned(QueryDoc, Vec<UpstreamCall>),
}

/// Parse and plan one request.  Rejection happens exactly on the bodies
/// the grammar refuses.
pub fn start_request(body: &Vec<u8>, backend: &ApiBackend) -> (r: GatewayOutcome)
    ensures
        match r {
            GatewayOutcome::Rejected(out) => spec_parse_request(body@) is None && out@
                == spec_reject_bytes(),
            GatewayOutcome::Planned(doc, calls) => {
                &&& spec_parse_request(body@) == Some(doc@)
                &&& fields_wf(doc@)
                &&& calls@.len() == doc@.len()
                &&& forall|k: int| 0 <= k < calls@.len() ==> (#[trigger] calls@[k])@
                    == spec_call_for(doc@[k])
            },
        },
{
    match parse_request(body) {
        Err(_) => GatewayOutcome::Rejected(reject_response()),
        Ok(doc) => {
            let calls = plan_fields(&doc, backend);
            GatewayOutcome::Planned(doc, calls)
        },
    }
}

pub open spec fn results_view(results: Seq<Result<Vec<u8>, UpstreamError>>) -> Seq<
    Result<Seq<u8>, UpstreamError>,
> {
    results.map_values(|r: Result<Vec<u8>, UpstreamError>| res_view(r))
}

/// Resolve and serialize one planned request, given the upstream outcome
/// of each field, in request order.
pub fn finish_request(doc: &QueryDoc, results: &Vec<Result<Vec<u8>, UpstreamError>>) -> (out: Vec<
    u8,
>)
    requires
        results@.len() == doc@.len(),
    ensures
        out@ == spec_response_bytes(spec_execute(doc@, results_view(results@))),
{
    let rs = resolve_fields(doc, results);
    let out = serialize_response(&rs);
    proof {
        assert(resolved_views(rs@) =~= spec_execute(doc@, results_view(results@)));
    }
    out
}

// ---- stated laws ----

/// Every item in a resolved `items` field originates from the upstream
/// list response: the value is exactly the decoded record list, carrying
/// exactly the requested selection.
pub proof fn lemma_items_from_upstream(b: Seq<u8>, ms: Seq<RecModel>, sel: ItemSel)
    requires
        spec_decode_item_list(b) == Some(ms),
    ensures
        spec_resolve_field((FieldQuery::ItemsField { sel }), Ok(b)) == (ResolvedModel {
            name: lit_items(),
            outcome: Ok(ValueModel::ItemListV(ms, sel)),
        }),
{
}

/// A document requesting only `items` resolves to exactly the decoded
/// upstream list and nothing else.
pub proof fn lemma_items_only_document(sel: ItemSel, b: Seq<u8>, ms: Seq<RecModel>)
    requires
        spec_decode_item_list(b) == Some(ms),
    ensures
        spec_execute(seq![(FieldQuery::ItemsField { sel })], seq![Ok(b)]) == seq![
            (ResolvedModel { name: lit_items(), outcome: Ok(ValueModel::ItemListV(ms, sel)) }),
        ],
{
    assert(spec_execute(seq![(FieldQuery::ItemsField { sel })], seq![Ok(b)]) =~= seq![
        (ResolvedModel { name: lit_items(), outcome: Ok(ValueModel::ItemListV(ms, sel)) }),
    ]);
}

/// A serialized list of records is a function of the requested
/// sub-attributes alone: lists that agree on the requested attributes
/// serialize identically.
pub proof fn lemma_item_list_projection_only_requested(
    ms1: Seq<RecModel>,
    ms2: Seq<RecModel>,
    sel: ItemSel,
)
    requires
        ms1.len() == ms2.len(),
        sel.id ==> forall|k: int| 0 <= k < ms1.len() ==> (#[trigger] ms1[k]).id == ms2[k].id,
        sel.title ==> forall|k: int| 0 <= k < ms1.len() ==> (#[trigger] ms1[k]).f1 == ms2[k].f1,
        sel.url ==> forall|k: int| 0 <= k < ms1.len() ==> (#[trigger] ms1[k]).f2 == ms2[k].f2,
    ensures
        spec_value_json(ValueModel::ItemListV(ms1, sel)) == spec_value_json(
            ValueModel::ItemListV(ms2, sel),
        ),
{
    let j1 = ms1.map_values(|m: RecModel| spec_item_json(m, sel));
    let j2 = ms2.map_values(|m: RecModel| spec_item_json(m, sel));
    assert forall|k: int| 0 <= k < j1.len() implies j1[k] == j2[k] by {
        lemma_item_projection_only_requested(ms1[k], ms2[k], sel);
    }
    assert(j1 =~= j2);
}

/// The serialized object of a record is a function of the requested
/// sub-attributes alone: records that agree on the requested attributes
/// serialize identically, so an unrequested attribute never reaches the
/// output.
pub proof fn lemma_item_projection_only_requested(m1: RecModel, m2: RecModel, sel: ItemSel)
    requires
        sel.id ==> m1.id == m2.id,
        sel.title ==> m1.f1 == m2.f1,
        sel.url ==> m1.f2 == m2.f2,
    ensures
        spec_item_json(m1, sel) == spec_item_json(m2, sel),
{
    assert(spec_item_parts(m1, sel) =~= spec_item_parts(m2, sel));
}

/// The same, for user records.
pub proof fn lemma_user_projection_only_requested(m1: RecModel, m2: RecModel, sel: UserSel)
    requires
        sel.id ==> m1.id == m2.id,
        sel.name ==> m1.f1 == m2.f1,
        sel.email ==> m1.f2 == m2.f2,
    ensures
        spec_user_json(m1, sel) == spec_user_json(m2, sel),
{
    assert(spec_user_parts(m1, sel) =~= spec_user_parts(m2, sel));
}

/// Partial failure is isolated per field: in one document holding a user
/// lookup whose upstream call failed and an items listing whose call
/// succeeded, the user field resolves to `null` with a field-scoped error
/// descriptor, and the items field carries its full decoded value — the
/// request as a whole still completes.
pub proof fn lemma_partial_failure_isolated(
    idu: i32,
    selu: UserSel,
    selv: ItemSel,
    e: UpstreamError,
    b: Seq<u8>,
    ms: Seq<RecModel>,
)
    requires
        spec_decode_item_list(b) == Some(ms),
    ensures
        ({
            let ru = spec_resolve_field(FieldQuery::UserField { id: idu, sel: selu }, Err(e));
            let rv = spec_resolve_field(FieldQuery::ItemsField { sel: selv }, Ok(b));
            &&& ru.outcome == Err::<ValueModel, FieldError>(spec_upstream_to_field_error(e))
            &&& rv.outcome == Ok::<ValueModel, FieldError>(ValueModel::ItemListV(ms, selv))
            &&& spec_data_entry(ru) == seq![34u8] + lit_user() + seq![34u8, 58] + lit_null()
            &&& spec_data_entry(rv) == seq![34u8] + lit_items() + seq![34u8, 58]
                + spec_value_json(ValueModel::ItemListV(ms, selv))
            &&& spec_errors_of(seq![ru, rv]) == seq![
                spec_error_entry(ru, spec_upstream_to_field_error(e)),
            ]
        }),
{
    let ru = spec_resolve_field(FieldQuery::UserField { id: idu, sel: selu }, Err(e));
    let rv = spec_resolve_field(FieldQuery::ItemsField { sel: selv }, Ok(b));
    let rs = seq![ru, rv];
    reveal_with_fuel(spec_errors_of, 4);
    assert(rs.drop_last() =~= seq![ru]);
    assert(rs.last() == rv);
    assert(seq![ru].drop_last() =~= Seq::<ResolvedModel>::empty());
    assert(seq![ru].last() == ru);
    assert(spec_errors_of(Seq::<ResolvedModel>::empty()) =~= Seq::<Seq<u8>>::empty());
    assert(spec_errors_of(seq![ru]) =~= seq![spec_error_entry(ru, spec_upstream_to_field_error(e))]);
    assert(spec_errors_of(rs) =~= seq![spec_error_entry(ru, spec_upstream_to_field_error(e))]);
}

/// A rejected request is distinct from every completed response: the
/// rejection carries no `data` member (its body opens with `{"errors"`),
/// while a completed response always opens with `{"data"`.
pub proof fn lemma_rejection_carries_no_data(rs: Seq<ResolvedModel>)
    ensures
        spec_reject_bytes()[2] == 101,
        spec_response_bytes(rs)[2] == 100,
        spec_reject_bytes() != spec_response_bytes(rs),
{
    assert(spec_reject_bytes()[2] == 101);
    assert(spec_response_bytes(rs)[2] == 100);
}

} // verus!
