//! Codec for entity records in the upstream JSON shape, with round-trip
//! lemmas: decoding the canonical encoding of a well-formed record (or of a
//! list of records) recovers it exactly.
//!
//! Decoding is tolerant, as JSON asks: insignificant whitespace, any
//! member order, unknown members (skipped by shape) and string escapes are
//! accepted; a record must carry all three of its members with values of
//! the right type.  Encoding emits the canonical form: no whitespace, the
//! members in declaration order, strings minimally escaped.
//!
//! Both record shapes are one object with an integer `id` member and two
//! string members, so one parametric codec serves both; the member names
//! are the parameters.

use vstd::prelude::*;
use crate::codec::{
    eq_bytes, is_digit, lemma_digits_shape, lemma_fold_of_digits, lemma_parse_digit_run,
    lemma_subrange_of_matching, spec_digits, spec_parse_digits, append_bytes, parse_digits,
    u32_digits,
};
use crate::json::{
    jws, push_escaped, read_string, skip_value, spec_escape, spec_escape_from, spec_jws,
    spec_read_string, spec_skip_value, lemma_read_escaped,
};
use crate::entities::{rec_wf, recs_wf, RecModel, User, Item, items_view};

verus! {

// ---- the member names of the two record shapes ----

/// `id`
pub open spec fn key_id() -> Seq<u8> {
    seq![105u8, 100]
}

/// `user_name`
pub open spec fn key_user_name() -> Seq<u8> {
    seq![117u8, 115, 101, 114, 95, 110, 97, 109, 101]
}

/// `email`
pub open spec fn key_email() -> Seq<u8> {
    seq![101u8, 109, 97, 105, 108]
}

/// `title`
pub open spec fn key_title() -> Seq<u8> {
    seq![116u8, 105, 116, 108, 101]
}

/// `url`
pub open spec fn key_url() -> Seq<u8> {
    seq![117u8, 114, 108]
}

/// `id` as a vector.
fn key_vec_id() -> (r: Vec<u8>)
    ensures
        r@ == key_id(),
{
    let mut v: Vec<u8> = Vec::new();
    v.push(105);
    v.push(100);
    proof {
        assert(v@ =~= key_id());
    }
    v
}

/// `user_name` as a vector.
fn key_vec_user_name() -> (r: Vec<u8>)
    ensures
        r@ == key_user_name(),
{
    let mut v: Vec<u8> = Vec::new();
    v.push(117);
    v.push(115);
    v.push(101);
    v.push(114);
    v.push(95);
    v.push(110);
    v.push(97);
    v.push(109);
    v.push(101);
    proof {
        assert(v@ =~= key_user_name());
    }
    v
}

/// `email` as a vector.
fn key_vec_email() -> (r: Vec<u8>)
    ensures
        r@ == key_email(),
{
    let mut v: Vec<u8> = Vec::new();
    v.push(101);
    v.push(109);
    v.push(97);
    v.push(105);
    v.push(108);
    proof {
        assert(v@ =~= key_email());
    }
    v
}

/// `title` as a vector.
fn key_vec_title() -> (r: Vec<u8>)
    ensures
        r@ == key_title(),
{
    let mut v: Vec<u8> = Vec::new();
    v.push(116);
    v.push(105);
    v.push(116);
    v.push(108);
    v.push(101);
    proof {
        assert(v@ =~= key_title());
    }
    v
}

/// `url` as a vector.
fn key_vec_url() -> (r: Vec<u8>)
    ensures
        r@ == key_url(),
{
    let mut v: Vec<u8> = Vec::new();
    v.push(117);
    v.push(114);
    v.push(108);
    proof {
        assert(v@ =~= key_url());
    }
    v
}

// ---- encoding (canonical form) ----

/// `{"id":`
pub open spec fn lit_obj_open() -> Seq<u8> {
    seq![123u8, 34, 105, 100, 34, 58]
}

/// `"}`
pub open spec fn lit_obj_close() -> Seq<u8> {
    seq![34u8, 125]
}

/// `,"<key>":"` — the canonical lead-in of the first string member.
pub open spec fn lit_f1_of(key: Seq<u8>) -> Seq<u8> {
    seq![44u8, 34] + key + seq![34u8, 58, 34]
}

/// `","<key>":"` — the canonical lead-in of the second string member.
pub open spec fn lit_f2_of(key: Seq<u8>) -> Seq<u8> {
    seq![34u8, 44, 34] + key + seq![34u8, 58, 34]
}

/// The canonical upstream encoding of one record, given its two string
/// member names.
pub open spec fn spec_encode_rec(m: RecModel, k2: Seq<u8>, k3: Seq<u8>) -> Seq<u8> {
    lit_obj_open() + spec_digits(m.id) + lit_f1_of(k2) + spec_escape(m.f1) + lit_f2_of(k3)
        + spec_escape(m.f2) + lit_obj_close()
}

pub open spec fn spec_encode_user(m: RecModel) -> Seq<u8> {
    spec_encode_rec(m, key_user_name(), key_email())
}

pub open spec fn spec_encode_item(m: RecModel) -> Seq<u8> {
    spec_encode_rec(m, key_title(), key_url())
}

/// The encoded list elements from index `k` on, with their separators and
/// the closing bracket.
pub open spec fn spec_encode_list_tail(ms: Seq<RecModel>, k: int) -> Seq<u8>
    decreases ms.len() - k,
{
    if k < 0 || k >= ms.len() {
        seq![93u8]
    } else {
        seq![44u8] + spec_encode_item(ms[k]) + spec_encode_list_tail(ms, k + 1)
    }
}

/// The canonical upstream encoding of a list of item records.
pub open spec fn spec_encode_item_list(ms: Seq<RecModel>) -> Seq<u8> {
    if ms.len() == 0 {
        seq![91u8, 93]
    } else {
        seq![91u8] + spec_encode_item(ms[0]) + spec_encode_list_tail(ms, 1)
    }
}

// ---- decoding (tolerant) ----

pub open spec fn opt_id_view(v: Option<i32>) -> Option<int> {
    match v {
        Some(x) => Some(x as int),
        None => None,
    }
}

pub open spec fn opt_bytes_view(v: Option<Vec<u8>>) -> Option<Seq<u8>> {
    match v {
        Some(b) => Some(b@),
        None => None,
    }
}

/// The members of a record object, from just past its opening brace (or a
/// separating comma) through its closing brace.  A member named `k1` must
/// be a non-negative integer and fills the first slot; one named `k2` or
/// `k3` must be a string and fills its slot (a repeated member
/// overwrites); any other member's value is skipped by shape.
pub open spec fn spec_parse_rec_fields(
    s: Seq<u8>,
    i: int,
    k1: Seq<u8>,
    k2: Seq<u8>,
    k3: Seq<u8>,
    v1: Option<int>,
    v2: Option<Seq<u8>>,
    v3: Option<Seq<u8>>,
) -> Option<(Option<int>, Option<Seq<u8>>, Option<Seq<u8>>, int)>
    decreases s.len() - i,
{
    let k = spec_jws(s, i);
    if k < i || k >= s.len() {
        None
    } else if s[k] != 34 {
        None
    } else {
        match spec_read_string(s, k + 1) {
            None => None,
            Some((key, e)) => if e <= k || e > s.len() {
                None
            } else {
                let c = spec_jws(s, e);
                if c < e || !(c < s.len() && s[c] == 58) {
                    None
                } else {
                    let w = spec_jws(s, c + 1);
                    if w < c + 1 || w > s.len() {
                        None
                    } else {
                        let step = if key == k1 {
                            match spec_parse_digits(s, w, 0) {
                                None => None,
                                Some((v, j)) => if j == w {
                                    None
                                } else {
                                    Some((Some(v), v2, v3, j))
                                },
                            }
                        } else if key == k2 {
                            if w < s.len() && s[w] == 34 {
                                match spec_read_string(s, w + 1) {
                                    None => None,
                                    Some((str1, j)) => Some((v1, Some(str1), v3, j)),
                                }
                            } else {
                                None
                            }
                        } else if key == k3 {
                            if w < s.len() && s[w] == 34 {
                                match spec_read_string(s, w + 1) {
                                    None => None,
                                    Some((str2, j)) => Some((v1, v2, Some(str2), j)),
                                }
                            } else {
                                None
                            }
                        } else {
                            match spec_skip_value(s, w) {
                                None => None,
                                Some(j) => Some((v1, v2, v3, j)),
                            }
                        };
                        match step {
                            None => None,
                            Some((n1, n2, n3, j)) => if j <= i || j > s.len() {
                                None
                            } else {
                                let t = spec_jws(s, j);
                                if t < j || t > s.len() {
                                    None
                                } else if t < s.len() && s[t] == 44 {
                                    spec_parse_rec_fields(s, t + 1, k1, k2, k3, n1, n2, n3)
                                } else if t < s.len() && s[t] == 125 {
                                    Some((n1, n2, n3, t + 1))
                                } else {
                                    None
                                }
                            },
                        }
                    }
                }
            },
        }
    }
}

/// One record object starting exactly at `i`; all three members must have
/// appeared.  Yields the record and the position just past its brace.
pub open spec fn spec_parse_rec_obj(s: Seq<u8>, i: int, k1: Seq<u8>, k2: Seq<u8>, k3: Seq<u8>)
    -> Option<(RecModel, int)> {
    if 0 <= i < s.len() && s[i] == 123 {
        match spec_parse_rec_fields(s, i + 1, k1, k2, k3, None, None, None) {
            None => None,
            Some((v1, v2, v3, end)) => match (v1, v2, v3) {
                (Some(id), Some(f1), Some(f2)) => Some((RecModel { id, f1, f2 }, end)),
                _ => None,
            },
        }
    } else {
        None
    }
}

/// Decode one whole record document, with whitespace around it allowed.
pub open spec fn spec_decode_rec(s: Seq<u8>, k1: Seq<u8>, k2: Seq<u8>, k3: Seq<u8>) -> Option<
    RecModel,
> {
    let w = spec_jws(s, 0);
    match spec_parse_rec_obj(s, w, k1, k2, k3) {
        None => None,
        Some((m, end)) => if 0 <= end <= s.len() && spec_jws(s, end) == s.len() {
            Some(m)
        } else {
            None
        },
    }
}

pub open spec fn spec_decode_user(s: Seq<u8>) -> Option<RecModel> {
    spec_decode_rec(s, key_id(), key_user_name(), key_email())
}

pub open spec fn spec_decode_item(s: Seq<u8>) -> Option<RecModel> {
    spec_decode_rec(s, key_id(), key_title(), key_url())
}

/// Parse the item records from position `i` (at an object, whitespace
/// already skipped) up to and including the closing bracket.
pub open spec fn spec_parse_list_items(s: Seq<u8>, i: int) -> Option<(Seq<RecModel>, int)>
    decreases s.len() - i,
{
    match spec_parse_rec_obj(s, i, key_id(), key_title(), key_url()) {
        None => None,
        Some((m, j)) => if !(i < j <= s.len()) {
            None
        } else {
            let t = spec_jws(s, j);
            if t < j || t >= s.len() {
                None
            } else if s[t] == 93 {
                Some((seq![m], t + 1))
            } else if s[t] == 44 {
                let w = spec_jws(s, t + 1);
                if w < t + 1 || w > s.len() {
                    None
                } else {
                    match spec_parse_list_items(s, w) {
                        None => None,
                        Some((ms, end)) => Some((seq![m] + ms, end)),
                    }
                }
            } else {
                None
            }
        },
    }
}

/// Decode one whole list document, with whitespace allowed.
pub open spec fn spec_decode_item_list(s: Seq<u8>) -> Option<Seq<RecModel>> {
    let w0 = spec_jws(s, 0);
    if 0 <= w0 < s.len() && s[w0] == 91 {
        let w1 = spec_jws(s, w0 + 1);
        if w0 + 1 <= w1 < s.len() && s[w1] == 93 {
            if spec_jws(s, w1 + 1) == s.len() {
                Some(Seq::empty())
            } else {
                None
            }
        } else if w0 + 1 <= w1 <= s.len() {
            match spec_parse_list_items(s, w1) {
                None => None,
                Some((ms, end)) => if 0 <= end <= s.len() && spec_jws(s, end) == s.len() {
                    Some(ms)
                } else {
                    None
                },
            }
        } else {
            None
        }
    } else {
        None
    }
}

// ---- executable decoding ----

/// Mirrors `spec_parse_rec_fields`.
fn parse_rec_fields(
    s: &Vec<u8>,
    i: usize,
    k1: &Vec<u8>,
    k2: &Vec<u8>,
    k3: &Vec<u8>,
    v1: Option<i32>,
    v2: Option<Vec<u8>>,
    v3: Option<Vec<u8>>,
) -> (r: Option<(Option<i32>, Option<Vec<u8>>, Option<Vec<u8>>, usize)>)
    requires
        i <= s.len(),
        v1 matches Some(x) ==> 0 <= x,
    ensures
        match r {
            Some((n1, n2, n3, j)) => {
                &&& spec_parse_rec_fields(
                    s@,
                    i as int,
                    k1@,
                    k2@,
                    k3@,
                    opt_id_view(v1),
                    opt_bytes_view(v2),
                    opt_bytes_view(v3),
                ) == Some((opt_id_view(n1), opt_bytes_view(n2), opt_bytes_view(n3), j as int))
                &&& i < j <= s.len()
                &&& (n1 matches Some(x) ==> 0 <= x)
            },
            None => spec_parse_rec_fields(
                s@,
                i as int,
                k1@,
                k2@,
                k3@,
                opt_id_view(v1),
                opt_bytes_view(v2),
                opt_bytes_view(v3),
            ) is None,
        },
    decreases s.len() - i,
{
    let k = jws(s, i);
    if k >= s.len() || s[k] != 34 {
        return None;
    }
    let (key, e) = match read_string(s, k + 1) {
        None => {
            return None;
        },
        Some(x) => x,
    };
    let c = jws(s, e);
    if !(c < s.len() && s[c] == 58) {
        return None;
    }
    let w = jws(s, c + 1);
    let step: Option<(Option<i32>, Option<Vec<u8>>, Option<Vec<u8>>, usize)> = if eq_bytes(
        &key,
        k1,
    ) {
        match parse_digits(s, w, 0) {
            None => None,
            Some((v, j)) => if j == w {
                None
            } else {
                Some((Some(v as i32), v2, v3, j))
            },
        }
    } else if eq_bytes(&key, k2) {
        if w < s.len() && s[w] == 34 {
            match read_string(s, w + 1) {
                None => None,
                Some((str1, j)) => Some((v1, Some(str1), v3, j)),
            }
        } else {
            None
        }
    } else if eq_bytes(&key, k3) {
        if w < s.len() && s[w] == 34 {
            match read_string(s, w + 1) {
                None => None,
                Some((str2, j)) => Some((v1, v2, Some(str2), j)),
            }
        } else {
            None
        }
    } else {
        match skip_value(s, w) {
            None => None,
            Some(j) => Some((v1, v2, v3, j)),
        }
    };
    match step {
        None => None,
        Some((n1, n2, n3, j)) => {
            let t = jws(s, j);
            if t < s.len() && s[t] == 44 {
                parse_rec_fields(s, t + 1, k1, k2, k3, n1, n2, n3)
            } else if t < s.len() && s[t] == 125 {
                Some((n1, n2, n3, t + 1))
            } else {
                None
            }
        },
    }
}

/// Mirrors `spec_parse_rec_obj`.
fn parse_rec_obj(s: &Vec<u8>, i: usize, k1: &Vec<u8>, k2: &Vec<u8>, k3: &Vec<u8>) -> (r: Option<
    (i32, Vec<u8>, Vec<u8>, usize),
>)
    requires
        i <= s.len(),
    ensures
        match r {
            Some((id, f1, f2, j)) => {
                &&& spec_parse_rec_obj(s@, i as int, k1@, k2@, k3@) == Some(
                    (RecModel { id: id as int, f1: f1@, f2: f2@ }, j as int),
                )
                &&& 0 <= id
                &&& i < j <= s.len()
            },
            None => spec_parse_rec_obj(s@, i as int, k1@, k2@, k3@) is None,
        },
{
    if !(i < s.len() && s[i] == 123) {
        return None;
    }
    match parse_rec_fields(s, i + 1, k1, k2, k3, None, None, None) {
        None => None,
        Some((v1, v2, v3, end)) => match (v1, v2, v3) {
            (Some(id), Some(f1), Some(f2)) => Some((id, f1, f2, end)),
            _ => None,
        },
    }
}

/// Decode one user record document; mirrors `spec_decode_user`.
pub fn decode_user(s: &Vec<u8>) -> (r: Option<User>)
    ensures
        match r {
            Some(u) => spec_decode_user(s@) == Some(u@) && 0 <= u@.id,
            None => spec_decode_user(s@) is None,
        },
{
    let k1 = key_vec_id();
    let k2 = key_vec_user_name();
    let k3 = key_vec_email();
    let w = jws(s, 0);
    match parse_rec_obj(s, w, &k1, &k2, &k3) {
        None => None,
        Some((id, f1, f2, end)) => if jws(s, end) == s.len() {
            Some(User { id, user_name: f1, email: f2 })
        } else {
            None
        },
    }
}

/// Decode one item record document; mirrors `spec_decode_item`.
pub fn decode_item(s: &Vec<u8>) -> (r: Option<Item>)
    ensures
        match r {
            Some(v) => spec_decode_item(s@) == Some(v@) && 0 <= v@.id,
            None => spec_decode_item(s@) is None,
        },
{
    let k1 = key_vec_id();
    let k2 = key_vec_title();
    let k3 = key_vec_url();
    let w = jws(s, 0);
    match parse_rec_obj(s, w, &k1, &k2, &k3) {
        None => None,
        Some((id, f1, f2, end)) => if jws(s, end) == s.len() {
            Some(Item { id, title: f1, url: f2 })
        } else {
            None
        },
    }
}

/// Parse the item records from position `i`; mirrors
/// `spec_parse_list_items`.
fn parse_item_records(s: &Vec<u8>, i: usize) -> (r: Option<(Vec<Item>, usize)>)
    requires
        i <= s.len(),
    ensures
        match r {
            Some((vs, j)) => spec_parse_list_items(s@, i as int) == Some(
                (items_view(vs@), j as int),
            ) && j <= s.len() && (forall|t: int|
                0 <= t < vs@.len() ==> 0 <= (#[trigger] vs@[t]).id),
            None => spec_parse_list_items(s@, i as int) is None,
        },
    decreases s.len() - i,
{
    let k1 = key_vec_id();
    let k2 = key_vec_title();
    let k3 = key_vec_url();
    match parse_rec_obj(s, i, &k1, &k2, &k3) {
        None => None,
        Some((id, f1, f2, j)) => {
            let v = Item { id, title: f1, url: f2 };
            let t = jws(s, j);
            if t < s.len() && s[t] == 93 {
                let mut vs: Vec<Item> = Vec::new();
                vs.push(v);
                proof {
                    assert(items_view(vs@) =~= seq![v@]);
                }
                Some((vs, t + 1))
            } else if t < s.len() && s[t] == 44 {
                let w = jws(s, t + 1);
                match parse_item_records(s, w) {
                    None => None,
                    Some((rest, end)) => {
                        let ghost old_rest = rest@;
                        let mut rest = rest;
                        rest.insert(0, v);
                        proof {
                            assert(items_view(rest@) =~= seq![v@] + items_view(old_rest));
                        }
                        Some((rest, end))
                    },
                }
            } else {
                None
            }
        },
    }
}

/// Decode one item list document; mirrors `spec_decode_item_list`.
pub fn decode_item_list(s: &Vec<u8>) -> (r: Option<Vec<Item>>)
    ensures
        match r {
            Some(vs) => spec_decode_item_list(s@) == Some(items_view(vs@)) && (forall|t: int|
                0 <= t < vs@.len() ==> 0 <= (#[trigger] vs@[t]).id),
            None => spec_decode_item_list(s@) is None,
        },
{
    let w0 = jws(s, 0);
    if !(w0 < s.len() && s[w0] == 91) {
        return None;
    }
    let w1 = jws(s, w0 + 1);
    if w1 < s.len() && s[w1] == 93 {
        if jws(s, w1 + 1) == s.len() {
            let vs: Vec<Item> = Vec::new();
            proof {
                assert(items_view(vs@) =~= Seq::<RecModel>::empty());
            }
            Some(vs)
        } else {
            None
        }
    } else {
        match parse_item_records(s, w1) {
            None => None,
            Some((vs, end)) => if jws(s, end) == s.len() {
                Some(vs)
            } else {
                None
            },
        }
    }
}

// ---- executable encoding ----

/// `,"<key>":"` as a vector.
fn lit_vec_f1_of(key: &Vec<u8>) -> (r: Vec<u8>)
    ensures
        r@ == lit_f1_of(key@),
{
    let mut v: Vec<u8> = Vec::new();
    v.push(44);
    v.push(34);
    append_bytes(&mut v, key);
    v.push(34);
    v.push(58);
    v.push(34);
    proof {
        assert(v@ =~= lit_f1_of(key@));
    }
    v
}

/// `","<key>":"` as a vector.
fn lit_vec_f2_of(key: &Vec<u8>) -> (r: Vec<u8>)
    ensures
        r@ == lit_f2_of(key@),
{
    let mut v: Vec<u8> = Vec::new();
    v.push(34);
    v.push(44);
    v.push(34);
    append_bytes(&mut v, key);
    v.push(34);
    v.push(58);
    v.push(34);
    proof {
        assert(v@ =~= lit_f2_of(key@));
    }
    v
}

/// Encode one record in the canonical upstream shape.
fn encode_rec_bytes(id: i32, f1: &Vec<u8>, f2: &Vec<u8>, k2: &Vec<u8>, k3: &Vec<u8>) -> (r: Vec<
    u8,
>)
    requires
        0 <= id,
    ensures
        r@ == spec_encode_rec(RecModel { id: id as int, f1: f1@, f2: f2@ }, k2@, k3@),
{
    let mut out: Vec<u8> = Vec::new();
    out.push(123);
    out.push(34);
    out.push(105);
    out.push(100);
    out.push(34);
    out.push(58);
    proof {
        assert(out@ =~= lit_obj_open());
    }
    let ds = u32_digits(id as u32);
    append_bytes(&mut out, &ds);
    let l1 = lit_vec_f1_of(k2);
    append_bytes(&mut out, &l1);
    push_escaped(f1, 0, &mut out);
    let l2 = lit_vec_f2_of(k3);
    append_bytes(&mut out, &l2);
    push_escaped(f2, 0, &mut out);
    out.push(34);
    out.push(125);
    proof {
        assert(out@ =~= spec_encode_rec(RecModel { id: id as int, f1: f1@, f2: f2@ }, k2@, k3@));
    }
    out
}

/// Encode one user record in the upstream shape.
pub fn encode_user(u: &User) -> (r: Vec<u8>)
    requires
        0 <= u@.id,
    ensures
        r@ == spec_encode_user(u@),
{
    let k2 = key_vec_user_name();
    let k3 = key_vec_email();
    encode_rec_bytes(u.id, &u.user_name, &u.email, &k2, &k3)
}

/// Encode one item record in the upstream shape.
pub fn encode_item(v: &Item) -> (r: Vec<u8>)
    requires
        0 <= v@.id,
    ensures
        r@ == spec_encode_item(v@),
{
    let k2 = key_vec_title();
    let k3 = key_vec_url();
    encode_rec_bytes(v.id, &v.title, &v.url, &k2, &k3)
}

/// Append the encoded list elements from index `k` on.
fn encode_item_list_tail(vs: &Vec<Item>, k: usize, out: &mut Vec<u8>)
    requires
        k <= vs.len(),
        forall|t: int| 0 <= t < vs@.len() ==> 0 <= (#[trigger] vs@[t])@.id,
    ensures
        final(out)@ == old(out)@ + spec_encode_list_tail(items_view(vs@), k as int),
    decreases vs.len() - k,
{
    if k == vs.len() {
        out.push(93);
        proof {
            assert(out@ =~= old(out)@ + spec_encode_list_tail(items_view(vs@), k as int));
        }
    } else {
        out.push(44);
        let e = encode_item(&vs[k]);
        append_bytes(out, &e);
        encode_item_list_tail(vs, k + 1, out);
        proof {
            assert(items_view(vs@)[k as int] == vs@[k as int]@);
            assert(out@ =~= old(out)@ + spec_encode_list_tail(items_view(vs@), k as int));
        }
    }
}

/// Encode a list of item records in the upstream shape.
pub fn encode_item_list(vs: &Vec<Item>) -> (r: Vec<u8>)
    requires
        forall|t: int| 0 <= t < vs@.len() ==> 0 <= (#[trigger] vs@[t])@.id,
    ensures
        r@ == spec_encode_item_list(items_view(vs@)),
{
    let mut out: Vec<u8> = Vec::new();
    out.push(91);
    if vs.len() == 0 {
        out.push(93);
        proof {
            assert(out@ =~= spec_encode_item_list(items_view(vs@)));
        }
        out
    } else {
        let e = encode_item(&vs[0]);
        append_bytes(&mut out, &e);
        encode_item_list_tail(vs, 1, &mut out);
        proof {
            assert(items_view(vs@)[0] == vs@[0]@);
            assert(out@ =~= spec_encode_item_list(items_view(vs@)));
        }
        out
    }
}

// ---- round trip ----

/// The two string member names are plain (no byte the encoder escapes),
/// distinct from each other and from `id`.
pub open spec fn keys_wf(k2: Seq<u8>, k3: Seq<u8>) -> bool {
    &&& spec_escape_from(k2, 0) == k2
    &&& spec_escape_from(k3, 0) == k3
    &&& k2 != key_id()
    &&& k3 != key_id()
    &&& k2 != k3
    &&& k2.len() >= 1
    &&& k3.len() >= 1
}

/// The regions of a canonical record encoding standing in `s` at `i`.
#[verifier::rlimit(100)]
proof fn lemma_rec_regions(s: Seq<u8>, i: int, m: RecModel, k2: Seq<u8>, k3: Seq<u8>)
    requires
        0 <= i,
        i + spec_encode_rec(m, k2, k3).len() <= s.len(),
        s.subrange(i, i + spec_encode_rec(m, k2, k3).len()) == spec_encode_rec(m, k2, k3),
    ensures
        ({
            let d = spec_digits(m.id);
            let j = i + 6 + d.len();
            let i2 = j + 5 + k2.len();
            let q1 = i2 + spec_escape(m.f1).len();
            let i3 = q1 + 6 + k3.len();
            let q2 = i3 + spec_escape(m.f2).len();
            &&& s.subrange(i, i + 6) == lit_obj_open()
            &&& s.subrange(i + 6, j) == d
            &&& s.subrange(j, i2) == lit_f1_of(k2)
            &&& s.subrange(i2, q1) == spec_escape(m.f1)
            &&& s.subrange(q1, i3) == lit_f2_of(k3)
            &&& s.subrange(i3, q2) == spec_escape(m.f2)
            &&& s.subrange(q2, q2 + 2) == lit_obj_close()
            &&& q2 + 2 == i + spec_encode_rec(m, k2, k3).len()
        }),
{
    let d = spec_digits(m.id);
    let l1 = lit_f1_of(k2);
    let l2 = lit_f2_of(k3);
    let e1 = spec_escape(m.f1);
    let e2 = spec_escape(m.f2);
    let pre1 = lit_obj_open();
    let pre2 = pre1 + d;
    let pre3 = pre2 + l1;
    let pre4 = pre3 + e1;
    let pre5 = pre4 + l2;
    let pre6 = pre5 + e2;
    let e = spec_encode_rec(m, k2, k3);
    assert(e == pre6 + lit_obj_close());

    let i1 = i + 6;
    let j = i1 + d.len();
    let i2 = j + l1.len();
    let q1 = i2 + e1.len();
    let i3 = q1 + l2.len();
    let q2 = i3 + e2.len();
    let end = q2 + 2;

    // peel the regions of the encoding out of `s`, outermost first
    assert(e.subrange(0, pre6.len() as int) =~= pre6);
    lemma_subrange_of_matching(s, i, e, 0, pre6.len() as int);
    assert(e.subrange(pre6.len() as int, e.len() as int) =~= lit_obj_close());
    lemma_subrange_of_matching(s, i, e, pre6.len() as int, e.len() as int);

    assert(pre6.subrange(0, pre5.len() as int) =~= pre5);
    lemma_subrange_of_matching(s, i, pre6, 0, pre5.len() as int);
    assert(pre6.subrange(pre5.len() as int, pre6.len() as int) =~= e2);
    lemma_subrange_of_matching(s, i, pre6, pre5.len() as int, pre6.len() as int);

    assert(pre5.subrange(0, pre4.len() as int) =~= pre4);
    lemma_subrange_of_matching(s, i, pre5, 0, pre4.len() as int);
    assert(pre5.subrange(pre4.len() as int, pre5.len() as int) =~= l2);
    lemma_subrange_of_matching(s, i, pre5, pre4.len() as int, pre5.len() as int);

    assert(pre4.subrange(0, pre3.len() as int) =~= pre3);
    lemma_subrange_of_matching(s, i, pre4, 0, pre3.len() as int);
    assert(pre4.subrange(pre3.len() as int, pre4.len() as int) =~= e1);
    lemma_subrange_of_matching(s, i, pre4, pre3.len() as int, pre4.len() as int);

    assert(pre3.subrange(0, pre2.len() as int) =~= pre2);
    lemma_subrange_of_matching(s, i, pre3, 0, pre2.len() as int);
    assert(pre3.subrange(pre2.len() as int, pre3.len() as int) =~= l1);
    lemma_subrange_of_matching(s, i, pre3, pre2.len() as int, pre3.len() as int);

    assert(pre2.subrange(0, 6) =~= pre1);
    lemma_subrange_of_matching(s, i, pre2, 0, 6);
    assert(pre2.subrange(6, pre2.len() as int) =~= d);
    lemma_subrange_of_matching(s, i, pre2, 6, pre2.len() as int);
}

/// Parsing a well-formed record out of its own canonical encoding,
/// wherever it stands in the input, recovers the record and stops just
/// past it.
/// The tokens of a canonical record encoding standing in `s` at `i`: each
/// member name, the id digits, each string value, and the separators, at
/// their fixed offsets.
#[verifier::rlimit(100)]
proof fn lemma_rec_tokens(s: Seq<u8>, i: int, m: RecModel, k2: Seq<u8>, k3: Seq<u8>)
    requires
        rec_wf(m),
        keys_wf(k2, k3),
        0 <= i,
        i + spec_encode_rec(m, k2, k3).len() <= s.len(),
        s.subrange(i, i + spec_encode_rec(m, k2, k3).len()) == spec_encode_rec(m, k2, k3),
    ensures
        ({
            let d = spec_digits(m.id);
            let j = i + 6 + d.len();
            let i2 = j + 5 + k2.len();
            let q1 = i2 + spec_escape(m.f1).len();
            let i3 = q1 + 6 + k3.len();
            let q2 = i3 + spec_escape(m.f2).len();
            &&& s[i] == 123 && s[i + 1] == 34 && s[i + 5] == 58
            &&& is_digit(s[i + 6])
            &&& spec_read_string(s, i + 2) == Some((key_id(), i + 5))
            &&& spec_parse_digits(s, i + 6, 0) == Some((m.id, j))
            &&& s[j] == 44 && s[j + 1] == 34
            &&& spec_read_string(s, j + 2) == Some((k2, j + 3 + k2.len()))
            &&& s[j + 3 + k2.len()] == 58 && s[j + 4 + k2.len()] == 34
            &&& spec_read_string(s, i2) == Some((m.f1, q1 + 1))
            &&& s[q1 + 1] == 44 && s[q1 + 2] == 34
            &&& spec_read_string(s, q1 + 3) == Some((k3, q1 + 4 + k3.len()))
            &&& s[q1 + 4 + k3.len()] == 58 && s[q1 + 5 + k3.len()] == 34
            &&& spec_read_string(s, i3) == Some((m.f2, q2 + 1))
            &&& s[q2 + 1] == 125
            &&& q2 + 2 == i + spec_encode_rec(m, k2, k3).len()
        }),
{
    reveal_with_fuel(spec_escape_from, 4);
    lemma_rec_regions(s, i, m, k2, k3);
    lemma_digits_shape(m.id);
    let d = spec_digits(m.id);
    let l1 = lit_f1_of(k2);
    let l2 = lit_f2_of(k3);
    let e1 = spec_escape(m.f1);
    let e2 = spec_escape(m.f2);
    let e = spec_encode_rec(m, k2, k3);
    let i1 = i + 6;
    let j = i1 + d.len();
    let i2 = j + l1.len();
    let q1 = i2 + e1.len();
    let i3 = q1 + l2.len();
    let q2 = i3 + e2.len();
    let end = q2 + 2;

    // the bytes of the fixed regions
    assert(s.subrange(i, i1) == lit_obj_open());
    assert forall|t: int| 0 <= t < 6 implies s[i + t] == lit_obj_open()[t] by {
        assert(s.subrange(i, i1)[t] == lit_obj_open()[t]);
    }
    assert(s[i] == 123 && s[i + 1] == 34 && s[i + 2] == 105 && s[i + 3] == 100 && s[i + 4] == 34
        && s[i + 5] == 58);

    assert(s.subrange(j, i2) == l1);
    assert(l1.subrange(0, 2) =~= seq![44u8, 34]);
    lemma_subrange_of_matching(s, j, l1, 0, 2);
    assert(s.subrange(j, j + 2)[0] == 44 && s.subrange(j, j + 2)[1] == 34);
    assert(s[j] == 44 && s[j + 1] == 34);
    assert(l1.subrange(2, 2 + k2.len() as int) =~= k2);
    lemma_subrange_of_matching(s, j, l1, 2, 2 + k2.len() as int);
    assert(s.subrange(j + 2, j + 2 + k2.len() as int) == k2);
    assert(l1.subrange(2 + k2.len() as int, l1.len() as int) =~= seq![34u8, 58, 34]);
    lemma_subrange_of_matching(s, j, l1, 2 + k2.len() as int, l1.len() as int);
    let b1 = s.subrange(j + 2 + k2.len() as int, j + l1.len() as int);
    assert(b1[0] == 34 && b1[1] == 58 && b1[2] == 34);
    assert(s[j + 2 + k2.len()] == 34 && s[j + 3 + k2.len()] == 58 && s[j + 4 + k2.len()] == 34);

    assert(s.subrange(q1, i3) == l2);
    assert(l2.subrange(0, 3) =~= seq![34u8, 44, 34]);
    lemma_subrange_of_matching(s, q1, l2, 0, 3);
    assert(s.subrange(q1, q1 + 3)[0] == 34 && s.subrange(q1, q1 + 3)[1] == 44 && s.subrange(
        q1,
        q1 + 3,
    )[2] == 34);
    assert(s[q1] == 34 && s[q1 + 1] == 44 && s[q1 + 2] == 34);
    assert(l2.subrange(3, 3 + k3.len() as int) =~= k3);
    lemma_subrange_of_matching(s, q1, l2, 3, 3 + k3.len() as int);
    assert(s.subrange(q1 + 3, q1 + 3 + k3.len() as int) == k3);
    assert(l2.subrange(3 + k3.len() as int, l2.len() as int) =~= seq![34u8, 58, 34]);
    lemma_subrange_of_matching(s, q1, l2, 3 + k3.len() as int, l2.len() as int);
    let b2 = s.subrange(q1 + 3 + k3.len() as int, q1 + l2.len() as int);
    assert(b2[0] == 34 && b2[1] == 58 && b2[2] == 34);
    assert(s[q1 + 3 + k3.len()] == 34 && s[q1 + 4 + k3.len()] == 58 && s[q1 + 5 + k3.len()] == 34);

    assert(s.subrange(q2, end) == lit_obj_close());
    assert(s.subrange(q2, end)[0] == 34 && s.subrange(q2, end)[1] == 125);
    assert(s[q2] == 34 && s[q2 + 1] == 125);

    // member 1: the id key and its digits
    assert(spec_escape_from(key_id(), 0) =~= key_id());
    assert(s.subrange(i + 2, i + 4) =~= key_id());
    lemma_read_escaped(s, i + 2, key_id(), 0);
    assert(key_id().subrange(0, 2) =~= key_id());
    assert(spec_read_string(s, i + 2) == Some((key_id(), i + 5)));

    assert(s.subrange(i1, j) == d);
    assert forall|t: int| i1 <= t < j implies is_digit(#[trigger] s[t]) by {
        assert(s.subrange(i1, j)[t - i1] == d[t - i1]);
    }
    lemma_fold_of_digits(m.id);
    lemma_parse_digit_run(s, i1, 0, j);
    assert(spec_parse_digits(s, i1, 0) == Some((m.id, j)));

    // member 2: the first string member
    lemma_read_escaped(s, j + 2, k2, 0);
    assert(k2.subrange(0, k2.len() as int) =~= k2);
    assert(spec_read_string(s, j + 2) == Some((k2, j + 3 + k2.len())));
    lemma_read_escaped(s, i2, m.f1, 0);
    assert(m.f1.subrange(0, m.f1.len() as int) =~= m.f1);
    assert(spec_read_string(s, i2) == Some((m.f1, q1 + 1)));

    // member 3: the second string member
    lemma_read_escaped(s, q1 + 3, k3, 0);
    assert(k3.subrange(0, k3.len() as int) =~= k3);
    assert(spec_read_string(s, q1 + 3) == Some((k3, q1 + 4 + k3.len())));
    lemma_read_escaped(s, i3, m.f2, 0);
    assert(m.f2.subrange(0, m.f2.len() as int) =~= m.f2);
    assert(spec_read_string(s, i3) == Some((m.f2, q2 + 1)));
}

/// Parsing a well-formed record out of its own canonical encoding,
/// wherever it stands in the input, recovers the record and stops just
/// past it.
#[verifier::rlimit(100)]
pub proof fn lemma_parse_encode_rec(s: Seq<u8>, i: int, m: RecModel, k2: Seq<u8>, k3: Seq<u8>)
    requires
        rec_wf(m),
        keys_wf(k2, k3),
        0 <= i,
        i + spec_encode_rec(m, k2, k3).len() <= s.len(),
        s.subrange(i, i + spec_encode_rec(m, k2, k3).len()) == spec_encode_rec(m, k2, k3),
    ensures
        spec_parse_rec_obj(s, i, key_id(), k2, k3) == Some(
            (m, i + spec_encode_rec(m, k2, k3).len()),
        ),
{
    reveal_with_fuel(spec_parse_rec_fields, 4);
    lemma_rec_tokens(s, i, m, k2, k3);
    let d = spec_digits(m.id);
    let j = i + 6 + d.len();
    let i2 = j + 5 + k2.len();
    let q1 = i2 + spec_escape(m.f1).len();
    let i3 = q1 + 6 + k3.len();
    let q2 = i3 + spec_escape(m.f2).len();
    let end = q2 + 2;
    assert(spec_parse_rec_obj(s, i, key_id(), k2, k3) == Some((m, end)));
}

/// Round trip for one record document: decoding the canonical encoding of
/// a well-formed record recovers the record.
#[verifier::rlimit(100)]
pub proof fn lemma_rec_round_trip(m: RecModel, k2: Seq<u8>, k3: Seq<u8>)
    requires
        rec_wf(m),
        keys_wf(k2, k3),
    ensures
        spec_decode_rec(spec_encode_rec(m, k2, k3), key_id(), k2, k3) == Some(m),
{
    let e = spec_encode_rec(m, k2, k3);
    assert(e.subrange(0, e.len() as int) =~= e);
    lemma_parse_encode_rec(e, 0, m, k2, k3);
}

/// The member names of both record shapes are plain and distinct.
pub proof fn lemma_record_keys_wf()
    ensures
        keys_wf(key_user_name(), key_email()),
        keys_wf(key_title(), key_url()),
{
    reveal_with_fuel(spec_escape_from, 11);
    assert(spec_escape_from(key_user_name(), 0) =~= key_user_name());
    assert(spec_escape_from(key_email(), 0) =~= key_email());
    assert(spec_escape_from(key_title(), 0) =~= key_title());
    assert(spec_escape_from(key_url(), 0) =~= key_url());
}

/// Round trip for a user record.
#[verifier::rlimit(100)]
pub proof fn lemma_user_round_trip(m: RecModel)
    requires
        rec_wf(m),
    ensures
        spec_decode_user(spec_encode_user(m)) == Some(m),
{
    lemma_record_keys_wf();
    lemma_rec_round_trip(m, key_user_name(), key_email());
}

/// Round trip for an item record.
#[verifier::rlimit(100)]
pub proof fn lemma_item_round_trip(m: RecModel)
    requires
        rec_wf(m),
    ensures
        spec_decode_item(spec_encode_item(m)) == Some(m),
{
    lemma_record_keys_wf();
    lemma_rec_round_trip(m, key_title(), key_url());
}

/// Parsing the encoded elements from index `k` on recovers exactly the
/// models from `k` on.
#[verifier::rlimit(100)]
pub proof fn lemma_parse_encode_list_items(s: Seq<u8>, i: int, ms: Seq<RecModel>, k: int)
    requires
        recs_wf(ms),
        0 <= k < ms.len(),
        0 <= i,
        i + spec_encode_item(ms[k]).len() + spec_encode_list_tail(ms, k + 1).len() <= s.len(),
        s.subrange(i, i + spec_encode_item(ms[k]).len() + spec_encode_list_tail(ms, k + 1).len())
            == spec_encode_item(ms[k]) + spec_encode_list_tail(ms, k + 1),
    ensures
        spec_parse_list_items(s, i) == Some(
            (ms.subrange(k, ms.len() as int),
             i + spec_encode_item(ms[k]).len() + spec_encode_list_tail(ms, k + 1).len()),
        ),
    decreases ms.len() - k,
{
    let e0 = spec_encode_item(ms[k]);
    let tail = spec_encode_list_tail(ms, k + 1);
    let whole = e0 + tail;
    let j = i + e0.len();

    assert(whole.subrange(0, e0.len() as int) =~= e0);
    lemma_subrange_of_matching(s, i, whole, 0, e0.len() as int);
    assert(whole.subrange(e0.len() as int, whole.len() as int) =~= tail);
    lemma_subrange_of_matching(s, i, whole, e0.len() as int, whole.len() as int);
    assert(s.subrange(j, i + whole.len()) == tail);

    assert(rec_wf(ms[k]));
    lemma_record_keys_wf();
    lemma_parse_encode_rec(s, i, ms[k], key_title(), key_url());
    assert(spec_parse_rec_obj(s, i, key_id(), key_title(), key_url()) == Some((ms[k], j)));

    assert(s.subrange(j, i + whole.len())[0] == tail[0]);
    if k + 1 == ms.len() {
        assert(tail == seq![93u8]);
        assert(s[j] == 93);
        assert(ms.subrange(k, ms.len() as int) =~= seq![ms[k]]);
    } else {
        assert(tail == seq![44u8] + spec_encode_item(ms[k + 1]) + spec_encode_list_tail(ms, k + 2));
        assert(tail[0] == 44);
        assert(s[j] == 44);
        let e1 = spec_encode_item(ms[k + 1]);
        let tail1 = spec_encode_list_tail(ms, k + 2);
        let rest = e1 + tail1;
        assert(tail.subrange(1, tail.len() as int) =~= rest);
        lemma_subrange_of_matching(s, j, tail, 1, tail.len() as int);
        assert(s.subrange(j + 1, j + 1 + rest.len() as int) == rest);
        lemma_parse_encode_list_items(s, j + 1, ms, k + 1);
        assert(ms.subrange(k, ms.len() as int) =~= seq![ms[k]] + ms.subrange(k + 1, ms.len() as int));
    }
}

/// Round trip for a list document: decoding the canonical encoding of a
/// list of well-formed item records recovers the list.
#[verifier::rlimit(100)]
pub proof fn lemma_item_list_round_trip(ms: Seq<RecModel>)
    requires
        recs_wf(ms),
    ensures
        spec_decode_item_list(spec_encode_item_list(ms)) == Some(ms),
{
    let s = spec_encode_item_list(ms);
    if ms.len() == 0 {
        assert(spec_decode_item_list(s) == Some(Seq::<RecModel>::empty()));
        assert(Seq::<RecModel>::empty() =~= ms);
    } else {
        let e0 = spec_encode_item(ms[0]);
        let tail = spec_encode_list_tail(ms, 1);
        assert(s.len() == 1 + e0.len() + tail.len());
        assert(e0.len() >= 10);
        assert(s[0] == 91);
        assert(e0.subrange(0, e0.len() as int) =~= e0);
        assert(s.subrange(1, 1 + e0.len() + tail.len() as int) =~= e0 + tail);
        lemma_parse_encode_list_items(s, 1, ms, 0);
        assert(ms.subrange(0, ms.len() as int) =~= ms);
    }
}

} // verus!
