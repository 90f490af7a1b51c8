//! The Lunch Money v2 API: its payloads, and the decisions its client and
//! services make around the HTTP calls.
pub mod api;
pub mod categories;
pub mod category_service;
pub mod deletion_service;
pub mod dto;
pub mod upload_service;

use vstd::prelude::*;

verus! {

/// Bearer token used to authenticate against the Lunch Money v2 API.
#[derive(Debug, Clone)]
pub struct ApiKey(String);

impl View for ApiKey {
    type V = Seq<char>;

    closed spec fn view(&self) -> Seq<char> {
        self.0@
    }
}

impl ApiKey {
    pub fn new(key: String) -> (r: Self)
        ensures
            r@ == key@,
    {
        ApiKey(key)
    }

    pub fn value(&self) -> (r: &str)
        ensures
            r@ == self@,
    {
        self.0.as_str()
    }
}

} // verus!
