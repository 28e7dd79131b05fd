//! Entity records decoded from upstream JSON documents.
//!
//! Both exposed entity types carry one integer identity and two string
//! attributes, so one mathematical model, `RecModel`, stands for either:
//! for a `User`, `f1` is the `user_name` attribute and `f2` the `email`;
//! for a `Item`, `f1` is the `title` and `f2` the `url`.

use vstd::prelude::*;
use crate::codec::MAX_ID;

verus! {

/// Mathematical model of one entity record.
pub ghost struct RecModel {
    pub id: int,
    pub f1: Seq<u8>,
    pub f2: Seq<u8>,
}

/// A record is well formed when its id fits the upstream integer type;
/// its string attributes may hold any bytes (the codec escapes them).
pub open spec fn rec_wf(m: RecModel) -> bool {
    0 <= m.id <= MAX_ID
}

pub open spec fn recs_wf(ms: Seq<RecModel>) -> bool {
    forall|k: int| 0 <= k < ms.len() ==> rec_wf(#[trigger] ms[k])
}

/// A user, as decoded from one upstream `users/{id}` response.
pub struct User {
    pub id: i32,
    pub user_name: Vec<u8>,
    pub email: Vec<u8>,
}

impl View for User {
    type V = RecModel;

    open spec fn view(&self) -> RecModel {
        RecModel { id: self.id as int, f1: self.user_name@, f2: self.email@ }
    }
}

impl User {
    /// Display name, sourced from the upstream `user_name` attribute.
    pub fn name(&self) -> (r: &Vec<u8>)
        ensures
            r@ == self@.f1,
    {
        &self.user_name
    }

    /// Email address.
    pub fn email(&self) -> (r: &Vec<u8>)
        ensures
            r@ == self@.f2,
    {
        &self.email
    }

    /// Upstream-assigned identity.
    pub fn id(&self) -> (r: i32)
        ensures
            r == self@.id,
    {
        self.id
    }
}

/// An item, as decoded from one upstream `items/` or `items/{id}`
/// response.
pub struct Item {
    pub id: i32,
    pub title: Vec<u8>,
    pub url: Vec<u8>,
}

impl View for Item {
    type V = RecModel;

    open spec fn view(&self) -> RecModel {
        RecModel { id: self.id as int, f1: self.title@, f2: self.url@ }
    }
}

/// The models of a list of items.
pub open spec fn items_view(vs: Seq<Item>) -> Seq<RecModel> {
    vs.map_values(|v: Item| v@)
}

} // verus!
