//! Invocation Client decisions: selecting the effective model, assembling
//! the call parameters, the fallback-retry rule, and the aggregate error
//! text when both attempts fail. The network call itself is the embedding
//! program's concern; every decision around it is verified here.

use vstd::prelude::*;
use vstd::string::StringSliceAdditionalSpecFns;
use crate::provider::{
    spec_apply_overrides, spec_effective_base, spec_resolve, LiteLLMProvider,
};
use crate::text::{bs, bytes_eq, concat_bytes, copy_bytes};

verus! {

/// The byte views of a header list.
pub open spec fn header_views(s: Seq<(Vec<u8>, Vec<u8>)>) -> Seq<(Seq<u8>, Seq<u8>)> {
    Seq::new(s.len(), |i: int| (s[i].0@, s[i].1@))
}

/// Everything a single chat invocation needs, computed from the immutable
/// session configuration and the caller's arguments.
pub struct ChatPlan {
    pub selected_model: Vec<u8>,
    pub resolved_model: Vec<u8>,
    pub temperature_milli: u32,
    pub api_base: Option<Vec<u8>>,
    pub api_key: Option<Vec<u8>>,
    /// The session's extra request headers, in order; with a repeated key
    /// the later pair wins when the list is rebuilt into a header map.
    pub extra_headers: Vec<(Vec<u8>, Vec<u8>)>,
}

impl LiteLLMProvider {
    /// Assemble one invocation: pick the explicit model or the session
    /// default, resolve it, floor the temperature by the override rules of
    /// the matched vendor, and fix credential and base URL.
    pub fn plan_chat(&self, model: Option<&Vec<u8>>, temperature_milli: u32) -> (r: ChatPlan)
        requires
            self.wf(),
        ensures
            r.selected_model@ == (match model {
                Some(m) => m@,
                None => self.default_model@,
            }),
            r.resolved_model@ == spec_resolve(
                self.catalog@,
                self.spec_gateway(),
                r.selected_model@,
            ),
            r.temperature_milli == spec_apply_overrides(
                self.catalog@,
                r.resolved_model@,
                temperature_milli,
            ),
            (match r.api_base {
                Some(b) => spec_effective_base(
                    self.catalog@,
                    self.spec_gateway(),
                    match self.api_base {
                        Some(x) => Some(x@),
                        None => None,
                    },
                    r.selected_model@,
                ) == Some(b@),
                None => spec_effective_base(
                    self.catalog@,
                    self.spec_gateway(),
                    match self.api_base {
                        Some(x) => Some(x@),
                        None => None,
                    },
                    r.selected_model@,
                ) is None,
            }),
            (self.api_key@.len() == 0 ==> r.api_key is None),
            (self.api_key@.len() > 0 ==> (r.api_key matches Some(k) && k@ == self.api_key@)),
            header_views(r.extra_headers@) == header_views(self.extra_headers@),
    {
        let selected_model = match model {
            Some(m) => copy_bytes(m),
            None => copy_bytes(&self.default_model),
        };
        let resolved_model = self.resolve_model(&selected_model);
        let mut temperature = temperature_milli;
        self.apply_model_overrides(&resolved_model, &mut temperature);
        let api_base = self.effective_api_base(&selected_model);
        let api_key = if self.api_key.len() == 0 {
            None
        } else {
            Some(copy_bytes(&self.api_key))
        };
        let mut extra_headers: Vec<(Vec<u8>, Vec<u8>)> = Vec::new();
        let mut h: usize = 0;
        while h < self.extra_headers.len()
            invariant
                h <= self.extra_headers@.len(),
                extra_headers@.len() == h,
                forall|j: int|
                    0 <= j < h ==> (#[trigger] extra_headers@[j]).0@
                        == self.extra_headers@[j].0@ && extra_headers@[j].1@
                        == self.extra_headers@[j].1@,
            decreases self.extra_headers@.len() - h,
        {
            let pair = (
                copy_bytes(&self.extra_headers[h].0),
                copy_bytes(&self.extra_headers[h].1),
            );
            extra_headers.push(pair);
            h = h + 1;
        }
        proof {
            assert(header_views(extra_headers@) =~= header_views(self.extra_headers@));
        }
        ChatPlan {
            selected_model,
            resolved_model,
            temperature_milli: temperature,
            api_base,
            api_key,
            extra_headers,
        }
    }
}

/// Fallback invocation triggers exactly when the primary call failed and
/// resolution changed the identifier: retrying an unmodified call is
/// pointless, and a successful primary call needs no retry.
pub fn should_fallback(resolved: &Vec<u8>, requested: &Vec<u8>, primary_failed: bool) -> (r:
    bool)
    ensures
        r == (primary_failed && resolved@ != requested@),
{
    primary_failed && !bytes_eq(resolved, requested)
}

/// The error surfaced when the single attempt (with an unmodified
/// identifier) fails.
pub fn single_error(primary: &Vec<u8>) -> (r: Vec<u8>)
    ensures
        r@ == ("failed to call litellm-rs completion: ").spec_bytes() + primary@,
{
    concat_bytes(&bs("failed to call litellm-rs completion: "), primary)
}

/// The aggregate error surfaced when both the primary call (resolved
/// identifier) and the fallback call (raw identifier) fail, keeping both
/// failure texts so the operator can tell rewriting problems from endpoint
/// problems.
pub fn aggregate_error(primary: &Vec<u8>, fallback: &Vec<u8>) -> (r: Vec<u8>)
    ensures
        r@ == ("failed to call litellm-rs completion: primary=").spec_bytes() + primary@ + (
        "; fallback=").spec_bytes() + fallback@,
{
    let head = concat_bytes(&bs("failed to call litellm-rs completion: primary="), primary);
    let mid = concat_bytes(&head, &bs("; fallback="));
    concat_bytes(&mid, fallback)
}

} // verus!
