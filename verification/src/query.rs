//! The query document and its parser.
//!
//! The wire envelope is a JSON object carrying a `query` string member;
//! other members (`variables` among them) are tolerated and ignored.  The
//! query string names one or more top-level fields, each with
//! an optional `(id: N)` argument and a selection set of sub-attribute
//! names, e.g. `{ user(id: 1) { id name email } items { title url } }`.
//! Whitespace and commas between tokens are ignored.  An unknown field or
//! sub-attribute, a missing id on a by-id field, or any other deviation is
//! a malformed document.

use vstd::prelude::*;
use crate::codec::{eq_bytes, parse_digits, spec_parse_digits};
use crate::json::{
    jws, read_string, skip_value, spec_jws, spec_read_string, spec_skip_value,
};
use crate::resolvers::RequestError;

verus! {

/// Requested sub-attributes of a user field.
#[derive(Clone, Copy, PartialEq, Eq, Structural, Debug)]
pub struct UserSel {
    pub id: bool,
    pub name: bool,
    pub email: bool,
}

/// Requested sub-attributes of an item field.
#[derive(Clone, Copy, PartialEq, Eq, Structural, Debug)]
pub struct ItemSel {
    pub id: bool,
    pub title: bool,
    pub url: bool,
}

/// One requested top-level field with its arguments and selection.
#[derive(Clone, Copy, PartialEq, Eq, Structural, Debug)]
pub enum FieldQuery {
    UserField { id: i32, sel: UserSel },
    ItemField { id: i32, sel: ItemSel },
    ItemsField { sel: ItemSel },
}

/// A parsed query document: the requested fields, in request order.
pub struct QueryDoc {
    pub fields: Vec<FieldQuery>,
}

impl View for QueryDoc {
    type V = Seq<FieldQuery>;

    open spec fn view(&self) -> Seq<FieldQuery> {
        self.fields@
    }
}

/// Ids in a parsed field are non-negative (they come from bare digit runs).
pub open spec fn field_wf(f: FieldQuery) -> bool {
    match f {
        FieldQuery::UserField { id, .. } => 0 <= id,
        FieldQuery::ItemField { id, .. } => 0 <= id,
        FieldQuery::ItemsField { .. } => true,
    }
}

pub open spec fn fields_wf(fs: Seq<FieldQuery>) -> bool {
    forall|k: int| 0 <= k < fs.len() ==> field_wf(#[trigger] fs[k])
}

// ---- token-level helpers ----

/// Space, tab, newline, carriage return, and the comma all separate tokens.
pub open spec fn is_ws(b: u8) -> bool {
    b == 32 || b == 9 || b == 10 || b == 13 || b == 44
}

/// Lower-case letters and the underscore form names.
pub open spec fn is_name_byte(b: u8) -> bool {
    (97 <= b <= 122) || b == 95
}

pub open spec fn spec_skip_ws(s: Seq<u8>, i: int) -> int
    decreases s.len() - i,
{
    if 0 <= i < s.len() && is_ws(s[i]) {
        spec_skip_ws(s, i + 1)
    } else {
        i
    }
}

pub open spec fn spec_scan_name(s: Seq<u8>, i: int) -> int
    decreases s.len() - i,
{
    if 0 <= i < s.len() && is_name_byte(s[i]) {
        spec_scan_name(s, i + 1)
    } else {
        i
    }
}

/// Mirrors `spec_skip_ws`.
pub fn skip_ws(s: &Vec<u8>, i: usize) -> (r: usize)
    requires
        i <= s.len(),
    ensures
        r == spec_skip_ws(s@, i as int),
        i <= r <= s.len(),
    decreases s.len() - i,
{
    if i < s.len() && (s[i] == 32 || s[i] == 9 || s[i] == 10 || s[i] == 13 || s[i] == 44) {
        skip_ws(s, i + 1)
    } else {
        i
    }
}

/// Mirrors `spec_scan_name`.
pub fn scan_name(s: &Vec<u8>, i: usize) -> (r: usize)
    requires
        i <= s.len(),
    ensures
        r == spec_scan_name(s@, i as int),
        i <= r <= s.len(),
    decreases s.len() - i,
{
    if i < s.len() && ((97 <= s[i] && s[i] <= 122) || s[i] == 95) {
        scan_name(s, i + 1)
    } else {
        i
    }
}

// ---- the keyword literals ----

/// `user`
pub open spec fn lit_user() -> Seq<u8> {
    seq![117u8, 115, 101, 114]
}

/// `item`
pub open spec fn lit_item() -> Seq<u8> {
    seq![105u8, 116, 101, 109]
}

/// `items`
pub open spec fn lit_items() -> Seq<u8> {
    seq![105u8, 116, 101, 109, 115]
}

/// `id`
pub open spec fn lit_id() -> Seq<u8> {
    seq![105u8, 100]
}

/// `name`
pub open spec fn lit_name() -> Seq<u8> {
    seq![110u8, 97, 109, 101]
}

/// `email`
pub open spec fn lit_email() -> Seq<u8> {
    seq![101u8, 109, 97, 105, 108]
}

/// `title`
pub open spec fn lit_title() -> Seq<u8> {
    seq![116u8, 105, 116, 108, 101]
}

/// `url`
pub open spec fn lit_url() -> Seq<u8> {
    seq![117u8, 114, 108]
}

/// Whether `s[k..e]` is the keyword `user`.
fn is_kw_user(s: &Vec<u8>, k: usize, e: usize) -> (r: bool)
    requires
        k <= e <= s.len(),
    ensures
        r == (s@.subrange(k as int, e as int) == lit_user()),
{
    if e - k == 4 && s[k] == 117 && s[k + 1] == 115 && s[k + 2] == 101 && s[k + 3] == 114 {
        proof {
            assert(s@.subrange(k as int, e as int) =~= lit_user());
        }
        true
    } else {
        proof {
            if s@.subrange(k as int, e as int) == lit_user() {
                assert(s@.subrange(k as int, e as int).len() == 4);
                assert(s@.subrange(k as int, e as int)[0] == 117);
                assert(s@.subrange(k as int, e as int)[1] == 115);
                assert(s@.subrange(k as int, e as int)[2] == 101);
                assert(s@.subrange(k as int, e as int)[3] == 114);
            }
        }
        false
    }
}

/// Whether `s[k..e]` is the keyword `item`.
fn is_kw_item(s: &Vec<u8>, k: usize, e: usize) -> (r: bool)
    requires
        k <= e <= s.len(),
    ensures
        r == (s@.subrange(k as int, e as int) == lit_item()),
{
    if e - k == 4 && s[k] == 105 && s[k + 1] == 116 && s[k + 2] == 101 && s[k + 3] == 109 {
        proof {
            assert(s@.subrange(k as int, e as int) =~= lit_item());
        }
        true
    } else {
        proof {
            if s@.subrange(k as int, e as int) == lit_item() {
                assert(s@.subrange(k as int, e as int).len() == 4);
                assert(s@.subrange(k as int, e as int)[0] == 105);
                assert(s@.subrange(k as int, e as int)[1] == 116);
                assert(s@.subrange(k as int, e as int)[2] == 101);
                assert(s@.subrange(k as int, e as int)[3] == 109);
            }
        }
        false
    }
}

/// Whether `s[k..e]` is the keyword `items`.
fn is_kw_items(s: &Vec<u8>, k: usize, e: usize) -> (r: bool)
    requires
        k <= e <= s.len(),
    ensures
        r == (s@.subrange(k as int, e as int) == lit_items()),
{
    if e - k == 5 && s[k] == 105 && s[k + 1] == 116 && s[k + 2] == 101 && s[k + 3] == 109 && s[k
        + 4] == 115 {
        proof {
            assert(s@.subrange(k as int, e as int) =~= lit_items());
        }
        true
    } else {
        proof {
            if s@.subrange(k as int, e as int) == lit_items() {
                assert(s@.subrange(k as int, e as int).len() == 5);
                assert(s@.subrange(k as int, e as int)[0] == 105);
                assert(s@.subrange(k as int, e as int)[1] == 116);
                assert(s@.subrange(k as int, e as int)[2] == 101);
                assert(s@.subrange(k as int, e as int)[3] == 109);
                assert(s@.subrange(k as int, e as int)[4] == 115);
            }
        }
        false
    }
}

/// Whether `s[k..e]` is the keyword `id`.
fn is_kw_id(s: &Vec<u8>, k: usize, e: usize) -> (r: bool)
    requires
        k <= e <= s.len(),
    ensures
        r == (s@.subrange(k as int, e as int) == lit_id()),
{
    if e - k == 2 && s[k] == 105 && s[k + 1] == 100 {
        proof {
            assert(s@.subrange(k as int, e as int) =~= lit_id());
        }
        true
    } else {
        proof {
            if s@.subrange(k as int, e as int) == lit_id() {
                assert(s@.subrange(k as int, e as int).len() == 2);
                assert(s@.subrange(k as int, e as int)[0] == 105);
                assert(s@.subrange(k as int, e as int)[1] == 100);
            }
        }
        false
    }
}

/// Whether `s[k..e]` is the keyword `name`.
fn is_kw_name(s: &Vec<u8>, k: usize, e: usize) -> (r: bool)
    requires
        k <= e <= s.len(),
    ensures
        r == (s@.subrange(k as int, e as int) == lit_name()),
{
    if e - k == 4 && s[k] == 110 && s[k + 1] == 97 && s[k + 2] == 109 && s[k + 3] == 101 {
        proof {
            assert(s@.subrange(k as int, e as int) =~= lit_name());
        }
        true
    } else {
        proof {
            if s@.subrange(k as int, e as int) == lit_name() {
                assert(s@.subrange(k as int, e as int).len() == 4);
                assert(s@.subrange(k as int, e as int)[0] == 110);
                assert(s@.subrange(k as int, e as int)[1] == 97);
                assert(s@.subrange(k as int, e as int)[2] == 109);
                assert(s@.subrange(k as int, e as int)[3] == 101);
            }
        }
        false
    }
}

/// Whether `s[k..e]` is the keyword `email`.
fn is_kw_email(s: &Vec<u8>, k: usize, e: usize) -> (r: bool)
    requires
        k <= e <= s.len(),
    ensures
        r == (s@.subrange(k as int, e as int) == lit_email()),
{
    if e - k == 5 && s[k] == 101 && s[k + 1] == 109 && s[k + 2] == 97 && s[k + 3] == 105 && s[k
        + 4] == 108 {
        proof {
            assert(s@.subrange(k as int, e as int) =~= lit_email());
        }
        true
    } else {
        proof {
            if s@.subrange(k as int, e as int) == lit_email() {
                assert(s@.subrange(k as int, e as int).len() == 5);
                assert(s@.subrange(k as int, e as int)[0] == 101);
                assert(s@.subrange(k as int, e as int)[1] == 109);
                assert(s@.subrange(k as int, e as int)[2] == 97);
                assert(s@.subrange(k as int, e as int)[3] == 105);
                assert(s@.subrange(k as int, e as int)[4] == 108);
            }
        }
        false
    }
}

/// Whether `s[k..e]` is the keyword `title`.
fn is_kw_title(s: &Vec<u8>, k: usize, e: usize) -> (r: bool)
    requires
        k <= e <= s.len(),
    ensures
        r == (s@.subrange(k as int, e as int) == lit_title()),
{
    if e - k == 5 && s[k] == 116 && s[k + 1] == 105 && s[k + 2] == 116 && s[k + 3] == 108 && s[k
        + 4] == 101 {
        proof {
            assert(s@.subrange(k as int, e as int) =~= lit_title());
        }
        true
    } else {
        proof {
            if s@.subrange(k as int, e as int) == lit_title() {
                assert(s@.subrange(k as int, e as int).len() == 5);
                assert(s@.subrange(k as int, e as int)[0] == 116);
                assert(s@.subrange(k as int, e as int)[1] == 105);
                assert(s@.subrange(k as int, e as int)[2] == 116);
                assert(s@.subrange(k as int, e as int)[3] == 108);
                assert(s@.subrange(k as int, e as int)[4] == 101);
            }
        }
        false
    }
}

/// Whether `s[k..e]` is the keyword `url`.
fn is_kw_url(s: &Vec<u8>, k: usize, e: usize) -> (r: bool)
    requires
        k <= e <= s.len(),
    ensures
        r == (s@.subrange(k as int, e as int) == lit_url()),
{
    if e - k == 3 && s[k] == 117 && s[k + 1] == 114 && s[k + 2] == 108 {
        proof {
            assert(s@.subrange(k as int, e as int) =~= lit_url());
        }
        true
    } else {
        proof {
            if s@.subrange(k as int, e as int) == lit_url() {
                assert(s@.subrange(k as int, e as int).len() == 3);
                assert(s@.subrange(k as int, e as int)[0] == 117);
                assert(s@.subrange(k as int, e as int)[1] == 114);
                assert(s@.subrange(k as int, e as int)[2] == 108);
            }
        }
        false
    }
}

// ---- the grammar ----

/// `( id : N )` — the argument list of a by-id field.  Yields the id value
/// and the position just past the closing parenthesis.
pub open spec fn spec_parse_args(s: Seq<u8>, i: int) -> Option<(int, int)> {
    let k = spec_skip_ws(s, i);
    if !(k < s.len() && s[k] == 40) {
        None
    } else {
        let k2 = spec_skip_ws(s, k + 1);
        let e2 = spec_scan_name(s, k2);
        if !(0 <= k2 <= e2 <= s.len()) || s.subrange(k2, e2) != lit_id() {
            None
        } else {
            let k3 = spec_skip_ws(s, e2);
            if !(k3 < s.len() && s[k3] == 58) {
                None
            } else {
                let k4 = spec_skip_ws(s, k3 + 1);
                match spec_parse_digits(s, k4, 0) {
                    None => None,
                    Some((v, e4)) => if e4 == k4 {
                        None
                    } else {
                        let k5 = spec_skip_ws(s, e4);
                        if k5 < s.len() && s[k5] == 41 {
                            Some((v, k5 + 1))
                        } else {
                            None
                        }
                    },
                }
            }
        }
    }
}

/// Mirrors `spec_parse_args`.
fn parse_args(s: &Vec<u8>, i: usize) -> (r: Option<(i32, usize)>)
    requires
        i <= s.len(),
    ensures
        match r {
            Some((v, j)) => spec_parse_args(s@, i as int) == Some((v as int, j as int)) && 0 <= v
                && i < j <= s.len(),
            None => spec_parse_args(s@, i as int) is None,
        },
{
    let k = skip_ws(s, i);
    if !(k < s.len() && s[k] == 40) {
        return None;
    }
    let k2 = skip_ws(s, k + 1);
    let e2 = scan_name(s, k2);
    if !is_kw_id(s, k2, e2) {
        return None;
    }
    let k3 = skip_ws(s, e2);
    if !(k3 < s.len() && s[k3] == 58) {
        return None;
    }
    let k4 = skip_ws(s, k3 + 1);
    match parse_digits(s, k4, 0) {
        None => None,
        Some((v, e4)) => {
            if e4 == k4 {
                return None;
            }
            let k5 = skip_ws(s, e4);
            if k5 < s.len() && s[k5] == 41 {
                Some((v as i32, k5 + 1))
            } else {
                None
            }
        },
    }
}

/// The names inside a selection set, after its opening brace: each must be
/// one of the three given attribute names; the matching flag is switched
/// on.  Yields the flags and the position just past the closing brace.
pub open spec fn spec_parse_sel_items(
    s: Seq<u8>,
    i: int,
    n1: Seq<u8>,
    n2: Seq<u8>,
    n3: Seq<u8>,
    f1: bool,
    f2: bool,
    f3: bool,
) -> Option<((bool, bool, bool), int)>
    decreases s.len() - i,
{
    let k = spec_skip_ws(s, i);
    if k < i || k > s.len() {
        None
    } else if k < s.len() && s[k] == 125 {
        Some(((f1, f2, f3), k + 1))
    } else {
        let e = spec_scan_name(s, k);
        if e <= k || e > s.len() {
            None
        } else {
            let n = s.subrange(k, e);
            if n == n1 {
                spec_parse_sel_items(s, e, n1, n2, n3, true, f2, f3)
            } else if n == n2 {
                spec_parse_sel_items(s, e, n1, n2, n3, f1, true, f3)
            } else if n == n3 {
                spec_parse_sel_items(s, e, n1, n2, n3, f1, f2, true)
            } else {
                None
            }
        }
    }
}

/// A selection set: optional whitespace, `{`, the names, `}`.
pub open spec fn spec_parse_sel(
    s: Seq<u8>,
    i: int,
    n1: Seq<u8>,
    n2: Seq<u8>,
    n3: Seq<u8>,
) -> Option<((bool, bool, bool), int)> {
    let k = spec_skip_ws(s, i);
    if k < s.len() && s[k] == 123 {
        spec_parse_sel_items(s, k + 1, n1, n2, n3, false, false, false)
    } else {
        None
    }
}

/// Mirrors `spec_parse_sel_items` for the user attribute names.
fn parse_user_sel_items(s: &Vec<u8>, i: usize, f1: bool, f2: bool, f3: bool) -> (r: Option<
    (UserSel, usize),
>)
    requires
        i <= s.len(),
    ensures
        match r {
            Some((sel, j)) => spec_parse_sel_items(
                s@,
                i as int,
                lit_id(),
                lit_name(),
                lit_email(),
                f1,
                f2,
                f3,
            ) == Some(((sel.id, sel.name, sel.email), j as int)) && i < j <= s.len(),
            None => spec_parse_sel_items(
                s@,
                i as int,
                lit_id(),
                lit_name(),
                lit_email(),
                f1,
                f2,
                f3,
            ) is None,
        },
    decreases s.len() - i,
{
    let k = skip_ws(s, i);
    if k < s.len() && s[k] == 125 {
        return Some((UserSel { id: f1, name: f2, email: f3 }, k + 1));
    }
    let e = scan_name(s, k);
    if e == k {
        return None;
    }
    if is_kw_id(s, k, e) {
        parse_user_sel_items(s, e, true, f2, f3)
    } else if is_kw_name(s, k, e) {
        parse_user_sel_items(s, e, f1, true, f3)
    } else if is_kw_email(s, k, e) {
        parse_user_sel_items(s, e, f1, f2, true)
    } else {
        None
    }
}

/// Mirrors `spec_parse_sel_items` for the item attribute names.
fn parse_item_sel_items(s: &Vec<u8>, i: usize, f1: bool, f2: bool, f3: bool) -> (r: Option<
    (ItemSel, usize),
>)
    requires
        i <= s.len(),
    ensures
        match r {
            Some((sel, j)) => spec_parse_sel_items(
                s@,
                i as int,
                lit_id(),
                lit_title(),
                lit_url(),
                f1,
                f2,
                f3,
            ) == Some(((sel.id, sel.title, sel.url), j as int)) && i < j <= s.len(),
            None => spec_parse_sel_items(
                s@,
                i as int,
                lit_id(),
                lit_title(),
                lit_url(),
                f1,
                f2,
                f3,
            ) is None,
        },
    decreases s.len() - i,
{
    let k = skip_ws(s, i);
    if k < s.len() && s[k] == 125 {
        return Some((ItemSel { id: f1, title: f2, url: f3 }, k + 1));
    }
    let e = scan_name(s, k);
    if e == k {
        return None;
    }
    if is_kw_id(s, k, e) {
        parse_item_sel_items(s, e, true, f2, f3)
    } else if is_kw_title(s, k, e) {
        parse_item_sel_items(s, e, f1, true, f3)
    } else if is_kw_url(s, k, e) {
        parse_item_sel_items(s, e, f1, f2, true)
    } else {
        None
    }
}

/// Mirrors `spec_parse_sel` for the user attribute names.
fn parse_user_sel(s: &Vec<u8>, i: usize) -> (r: Option<(UserSel, usize)>)
    requires
        i <= s.len(),
    ensures
        match r {
            Some((sel, j)) => spec_parse_sel(s@, i as int, lit_id(), lit_name(), lit_email())
                == Some(((sel.id, sel.name, sel.email), j as int)) && i < j <= s.len(),
            None => spec_parse_sel(s@, i as int, lit_id(), lit_name(), lit_email()) is None,
        },
{
    let k = skip_ws(s, i);
    if k < s.len() && s[k] == 123 {
        parse_user_sel_items(s, k + 1, false, false, false)
    } else {
        None
    }
}

/// Mirrors `spec_parse_sel` for the item attribute names.
fn parse_item_sel(s: &Vec<u8>, i: usize) -> (r: Option<(ItemSel, usize)>)
    requires
        i <= s.len(),
    ensures
        match r {
            Some((sel, j)) => spec_parse_sel(s@, i as int, lit_id(), lit_title(), lit_url())
                == Some(((sel.id, sel.title, sel.url), j as int)) && i < j <= s.len(),
            None => spec_parse_sel(s@, i as int, lit_id(), lit_title(), lit_url()) is None,
        },
{
    let k = skip_ws(s, i);
    if k < s.len() && s[k] == 123 {
        parse_item_sel_items(s, k + 1, false, false, false)
    } else {
        None
    }
}

/// The top-level fields, after the document's opening brace.  Yields the
/// fields accumulated onto `acc` and the position just past the closing
/// brace.
pub open spec fn spec_parse_fields(s: Seq<u8>, i: int, acc: Seq<FieldQuery>) -> Option<
    (Seq<FieldQuery>, int),
>
    decreases s.len() - i,
{
    let k = spec_skip_ws(s, i);
    if k < i || k > s.len() {
        None
    } else if k < s.len() && s[k] == 125 {
        Some((acc, k + 1))
    } else {
        let e = spec_scan_name(s, k);
        if e <= k || e > s.len() {
            None
        } else {
            let n = s.subrange(k, e);
            if n == lit_user() {
                match spec_parse_args(s, e) {
                    None => None,
                    Some((v, j)) => match spec_parse_sel(s, j, lit_id(), lit_name(), lit_email()) {
                        None => None,
                        Some((t, j2)) => if j2 <= i || j2 > s.len() {
                            None
                        } else {
                            spec_parse_fields(
                                s,
                                j2,
                                acc.push(
                                    FieldQuery::UserField {
                                        id: v as i32,
                                        sel: UserSel { id: t.0, name: t.1, email: t.2 },
                                    },
                                ),
                            )
                        },
                    },
                }
            } else if n == lit_items() {
                match spec_parse_sel(s, e, lit_id(), lit_title(), lit_url()) {
                    None => None,
                    Some((t, j2)) => if j2 <= i || j2 > s.len() {
                        None
                    } else {
                        spec_parse_fields(
                            s,
                            j2,
                            acc.push(
                                FieldQuery::ItemsField {
                                    sel: ItemSel { id: t.0, title: t.1, url: t.2 },
                                },
                            ),
                        )
                    },
                }
            } else if n == lit_item() {
                match spec_parse_args(s, e) {
                    None => None,
                    Some((v, j)) => match spec_parse_sel(s, j, lit_id(), lit_title(), lit_url()) {
                        None => None,
                        Some((t, j2)) => if j2 <= i || j2 > s.len() {
                            None
                        } else {
                            spec_parse_fields(
                                s,
                                j2,
                                acc.push(
                                    FieldQuery::ItemField {
                                        id: v as i32,
                                        sel: ItemSel { id: t.0, title: t.1, url: t.2 },
                                    },
                                ),
                            )
                        },
                    },
                }
            } else {
                None
            }
        }
    }
}

/// Mirrors `spec_parse_fields`.
fn parse_fields(s: &Vec<u8>, i: usize, acc: Vec<FieldQuery>) -> (r: Option<(Vec<FieldQuery>, usize)>)
    requires
        i <= s.len(),
        fields_wf(acc@),
    ensures
        match r {
            Some((fs, j)) => spec_parse_fields(s@, i as int, acc@) == Some((fs@, j as int)) && j
                <= s.len() && fields_wf(fs@),
            None => spec_parse_fields(s@, i as int, acc@) is None,
        },
    decreases s.len() - i,
{
    let k = skip_ws(s, i);
    if k < s.len() && s[k] == 125 {
        return Some((acc, k + 1));
    }
    let e = scan_name(s, k);
    if e == k {
        return None;
    }
    if is_kw_user(s, k, e) {
        match parse_args(s, e) {
            None => None,
            Some((v, j)) => match parse_user_sel(s, j) {
                None => None,
                Some((sel, j2)) => {
                    let mut acc = acc;
                    acc.push(FieldQuery::UserField { id: v, sel });
                    parse_fields(s, j2, acc)
                },
            },
        }
    } else if is_kw_items(s, k, e) {
        match parse_item_sel(s, e) {
            None => None,
            Some((sel, j2)) => {
                let mut acc = acc;
                acc.push(FieldQuery::ItemsField { sel });
                parse_fields(s, j2, acc)
            },
        }
    } else if is_kw_item(s, k, e) {
        match parse_args(s, e) {
            None => None,
            Some((v, j)) => match parse_item_sel(s, j) {
                None => None,
                Some((sel, j2)) => {
                    let mut acc = acc;
                    acc.push(FieldQuery::ItemField { id: v, sel });
                    parse_fields(s, j2, acc)
                },
            },
        }
    } else {
        None
    }
}

/// The whole query string: one brace-delimited document, nothing but
/// whitespace after it.
pub open spec fn spec_parse_query(s: Seq<u8>) -> Option<Seq<FieldQuery>> {
    let k = spec_skip_ws(s, 0);
    if k < s.len() && s[k] == 123 {
        match spec_parse_fields(s, k + 1, Seq::empty()) {
            None => None,
            Some((fs, end)) => if spec_skip_ws(s, end) == s.len() {
                Some(fs)
            } else {
                None
            },
        }
    } else {
        None
    }
}

/// Mirrors `spec_parse_query`.
pub fn parse_query(s: &Vec<u8>) -> (r: Option<Vec<FieldQuery>>)
    ensures
        match r {
            Some(fs) => spec_parse_query(s@) == Some(fs@) && fields_wf(fs@),
            None => spec_parse_query(s@) is None,
        },
{
    let k = skip_ws(s, 0);
    if k < s.len() && s[k] == 123 {
        let acc: Vec<FieldQuery> = Vec::new();
        match parse_fields(s, k + 1, acc) {
            None => None,
            Some((fs, end)) => {
                let k2 = skip_ws(s, end);
                if k2 == s.len() {
                    Some(fs)
                } else {
                    None
                }
            },
        }
    } else {
        None
    }
}

// ---- the request envelope ----

/// `query`
pub open spec fn key_query() -> Seq<u8> {
    seq![113u8, 117, 101, 114, 121]
}

/// `query` as a vector.
fn key_vec_query() -> (r: Vec<u8>)
    ensures
        r@ == key_query(),
{
    let mut v: Vec<u8> = Vec::new();
    v.push(113);
    v.push(117);
    v.push(101);
    v.push(114);
    v.push(121);
    proof {
        assert(v@ =~= key_query());
    }
    v
}

/// The members of the request envelope, from just past its opening brace
/// (or a separating comma) through its closing brace: a `query` member
/// must be a string and fills the slot (its escapes decoded); any other
/// member — `variables` among them — is skipped by shape.
pub open spec fn spec_parse_envelope_fields(s: Seq<u8>, i: int, q: Option<Seq<u8>>) -> Option<
    (Option<Seq<u8>>, int),
>
    decreases s.len() - i,
{
    let k = spec_jws(s, i);
    if k < i || k >= s.len() {
        None
    } else if s[k] != 34 {
        None
    } else {
        match spec_read_string(s, k + 1) {
            None => None,
            Some((key, e)) => if e <= k || e > s.len() {
                None
            } else {
                let c = spec_jws(s, e);
                if c < e || !(c < s.len() && s[c] == 58) {
                    None
                } else {
                    let w = spec_jws(s, c + 1);
                    if w < c + 1 || w > s.len() {
                        None
                    } else {
                        let step = if key == key_query() {
                            if w < s.len() && s[w] == 34 {
                                match spec_read_string(s, w + 1) {
                                    None => None,
                                    Some((qs, j)) => Some((Some(qs), j)),
                                }
                            } else {
                                None
                            }
                        } else {
                            match spec_skip_value(s, w) {
                                None => None,
                                Some(j) => Some((q, j)),
                            }
                        };
                        match step {
                            None => None,
                            Some((nq, j)) => if j <= i || j > s.len() {
                                None
                            } else {
                                let t = spec_jws(s, j);
                                if t < j || t > s.len() {
                                    None
                                } else if t < s.len() && s[t] == 44 {
                                    spec_parse_envelope_fields(s, t + 1, nq)
                                } else if t < s.len() && s[t] == 125 {
                                    Some((nq, t + 1))
                                } else {
                                    None
                                }
                            },
                        }
                    }
                }
            },
        }
    }
}

/// The whole request body: a JSON object carrying a `query` string member
/// (whitespace, member order, escapes and unknown members such as
/// `variables` are tolerated), whose decoded query string is parsed as a
/// query document.
pub open spec fn spec_parse_request(body: Seq<u8>) -> Option<Seq<FieldQuery>> {
    let w = spec_jws(body, 0);
    if 0 <= w < body.len() && body[w] == 123 {
        match spec_parse_envelope_fields(body, w + 1, None) {
            None => None,
            Some((q, end)) => if 0 <= end <= body.len() && spec_jws(body, end) == body.len() {
                match q {
                    Some(qs) => spec_parse_query(qs),
                    None => None,
                }
            } else {
                None
            },
        }
    } else {
        None
    }
}

/// Mirrors `spec_parse_envelope_fields`.
fn parse_envelope_fields(s: &Vec<u8>, i: usize, q: Option<Vec<u8>>) -> (r: Option<
    (Option<Vec<u8>>, usize),
>)
    requires
        i <= s.len(),
    ensures
        match r {
            Some((nq, j)) => spec_parse_envelope_fields(s@, i as int, opt_env_view(q))
                == Some((opt_env_view(nq), j as int)) && i < j <= s.len(),
            None => spec_parse_envelope_fields(s@, i as int, opt_env_view(q)) is None,
        },
    decreases s.len() - i,
{
    let k = jws(s, i);
    if k >= s.len() || s[k] != 34 {
        return None;
    }
    let (key, e) = match read_string(s, k + 1) {
        None => {
            return None;
        },
        Some(x) => x,
    };
    let c = jws(s, e);
    if !(c < s.len() && s[c] == 58) {
        return None;
    }
    let w = jws(s, c + 1);
    let kq = key_vec_query();
    let step: Option<(Option<Vec<u8>>, usize)> = if eq_bytes(&key, &kq) {
        if w < s.len() && s[w] == 34 {
            match read_string(s, w + 1) {
                None => None,
                Some((qs, j)) => Some((Some(qs), j)),
            }
        } else {
            None
        }
    } else {
        match skip_value(s, w) {
            None => None,
            Some(j) => Some((q, j)),
        }
    };
    match step {
        None => None,
        Some((nq, j)) => {
            let t = jws(s, j);
            if t < s.len() && s[t] == 44 {
                parse_envelope_fields(s, t + 1, nq)
            } else if t < s.len() && s[t] == 125 {
                Some((nq, t + 1))
            } else {
                None
            }
        },
    }
}

pub open spec fn opt_env_view(v: Option<Vec<u8>>) -> Option<Seq<u8>> {
    match v {
        Some(b) => Some(b@),
        None => None,
    }
}

/// Parse one inbound request body into a query document.  A body that is
/// not a query envelope, or whose query string deviates from the grammar,
/// is rejected as a malformed document before any resolver runs.
pub fn parse_request(body: &Vec<u8>) -> (r: Result<QueryDoc, RequestError>)
    ensures
        match spec_parse_request(body@) {
            Some(fs) => r matches Ok(d) && d@ == fs && fields_wf(fs),
            None => r matches Err(e) && e == RequestError::MalformedDocument,
        },
{
    let w = jws(body, 0);
    if !(w < body.len() && body[w] == 123) {
        return Err(RequestError::MalformedDocument);
    }
    match parse_envelope_fields(body, w + 1, None) {
        None => Err(RequestError::MalformedDocument),
        Some((q, end)) => {
            if !(jws(body, end) == body.len()) {
                return Err(RequestError::MalformedDocument);
            }
            match q {
                None => Err(RequestError::MalformedDocument),
                Some(qs) => match parse_query(&qs) {
                    None => Err(RequestError::MalformedDocument),
                    Some(fs) => Ok(QueryDoc { fields: fs }),
                },
            }
        },
    }
}

} // verus!
