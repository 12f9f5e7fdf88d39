//! The configuration of the whole service: the verification endpoint and the
//! data endpoints.

use vstd::prelude::*;
use crate::data_config::DataMap;
use crate::path_matcher::{
    has_prefix_segment, matches_template, path_matches, starts_with_prefix, WILDCARD,
};
use crate::std_text::{to_upper, uppercase};
use crate::text::to_chars;
use crate::verification_config::{VerificationConfig, VerificationView};

verus! {

/// The prefix literal of the verification path in a service configuration.
pub const VERIFICATION_PATH: &'static str = "verification";

/// The configuration of the whole service.
#[derive(Clone, Debug)]
pub struct WebhookConfig {
    verification: VerificationConfig,
    data: DataMap,
}

impl WebhookConfig {
    /// The configuration of the verification endpoint.
    pub closed spec fn verification(&self) -> VerificationView {
        self.verification@
    }

    /// The data endpoints.
    pub closed spec fn data(&self) -> DataMap {
        self.data
    }

    /// The configuration made of `verification` and `data`.
    pub fn new(verification: VerificationConfig, data: DataMap) -> (config: WebhookConfig)
        ensures
            config.verification() == verification@,
            config.data() == data,
    {
        WebhookConfig { verification, data }
    }

    /// The path template of the verification endpoint.
    pub fn get_verification_path(&self) -> (path: String)
        ensures
            path@ == self.verification().path,
    {
        self.verification.get_path()
    }

    /// The HTTP method of the verification endpoint, in upper case.
    pub fn get_verification_method(&self) -> (method: String)
        ensures
            method@ == uppercase(self.verification().method),
    {
        let method = self.verification.get_method();
        to_upper(method.as_str())
    }

    /// Whether the path template begins with the verification prefix.
    pub fn is_verification_path_valid(&self) -> (valid: bool)
        ensures
            valid == has_prefix_segment(self.verification().path, VERIFICATION_PATH@),
    {
        let path = self.verification.get_path();
        let template = to_chars(path.as_str());
        let prefix = to_chars(VERIFICATION_PATH);
        starts_with_prefix(template.as_slice(), prefix.as_slice())
    }

    /// Whether `path` is a path of the verification endpoint.
    pub fn is_verification_path(&self, path: String) -> (matched: bool)
        ensures
            matched == matches_template(
                self.verification().path,
                path@,
                VERIFICATION_PATH@,
                WILDCARD@,
            ),
    {
        let template = self.verification.get_path();
        path_matches(template.as_str(), path.as_str(), VERIFICATION_PATH, WILDCARD)
    }

    /// Sets the token that a verification request must carry.
    pub fn set_token(&mut self, token: String)
        ensures
            final(self).verification() == (VerificationView {
                raw_token: token@,
                ..old(self).verification()
            }),
            final(self).data() == old(self).data(),
    {
        self.verification.set_expected_token(token)
    }

    /// The configuration of the verification endpoint.
    pub fn get_verification_config(&self) -> (verification: &VerificationConfig)
        ensures
            verification@ == self.verification(),
    {
        &self.verification
    }

    /// The data endpoints.
    pub fn get_data_config(&self) -> (data: &DataMap)
        ensures
            *data == self.data(),
    {
        &self.data
    }
}

} // verus!
