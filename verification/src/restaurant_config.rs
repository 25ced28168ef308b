//! The settings of the restaurant service: the address of the tracker service.
use crate::endpoint::{endpoint_accepts, endpoint_is_valid};
use vstd::prelude::*;

verus! {

pub struct Config {
    tracker_service_url: String,
}

impl View for Config {
    type V = Seq<char>;

    /// The address of the tracker service.
    closed spec fn view(&self) -> Seq<char> {
        self.tracker_service_url@
    }
}

impl Config {
    /// The settings from the text of `TRACKER_SERVICE_URL`.
    pub fn new(tracker_service_url: String) -> (r: Config)
        ensures
            r@ == tracker_service_url@,
    {
        Config { tracker_service_url }
    }

    /// Whether tonic accepts the tracker service address.
    pub fn tracker_url_valid(&self) -> (r: bool)
        ensures
            r == endpoint_accepts(self@),
    {
        endpoint_is_valid(self.tracker_service_url.as_str())
    }

    pub fn get_tracker_service_url(&self) -> (r: &str)
        ensures
            r@ == self@,
    {
        self.tracker_service_url.as_str()
    }
}

} // verus!
