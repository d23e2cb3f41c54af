//! The provider instance: immutable session configuration (credential, base
//! URL, default model, chosen gateway) plus the Model Name Resolver and the
//! Override Engine, with the laws that govern them.

use vstd::prelude::*;
use crate::catalog::{
    any_prefix, catalog_wf, default_catalog, find_by_model, find_gateway, keyword_matches,
    stock_catalog_facts,
    keywords_slash_free, no_keyword_in, opt_bytes, rule_fires, spec_find_gateway,
    spec_find_vendor, spec_first_rule, spec_first_rule_from, vendor_hit, vendor_prefix_skipped,
    is_vendor, lemma_find_vendor_props, lemma_find_vendor_exact, lemma_first_rule_props,
    ProviderSpec,
};
use crate::text::{
    copy_bytes, contains_sub, has_sub, last_segment, lemma_has_sub_in_suffix,
    lemma_has_sub_split, lemma_last_segment_after_prefix, lemma_last_segment_no_slash,
    lemma_last_segment_of_slash_free, lemma_lower_concat, lower, prefixed, spec_last_segment,
    starts_with, to_lower,
};

verus! {

/// The backend-specific identifier for `m` under gateway choice `gw`:
/// gateway rewriting (optional stripping to the last `/` segment, then
/// prefixing unless already prefixed), else vendor-keyword rewriting
/// (prefixing unless a skip prefix marks the identifier as final), else the
/// identifier unchanged.
pub open spec fn spec_resolve(cat: Seq<ProviderSpec>, gw: Option<int>, m: Seq<u8>) -> Seq<u8>
    recommends
        gw matches Some(g) ==> 0 <= g < cat.len(),
{
    match gw {
        Some(g) => {
            let p = cat[g];
            let norm = if p.strip_model_prefix {
                spec_last_segment(m)
            } else {
                m
            };
            if p.litellm_prefix@.len() == 0 || (p.litellm_prefix@ + seq![47u8]).is_prefix_of(
                norm,
            ) {
                norm
            } else {
                p.litellm_prefix@ + seq![47u8] + norm
            }
        },
        None => match spec_find_vendor(cat, m) {
            Some(v) => {
                let p = cat[v];
                if p.litellm_prefix@.len() > 0 && !any_prefix(p.skip_prefixes@, m) {
                    p.litellm_prefix@ + seq![47u8] + m
                } else {
                    m
                }
            },
            None => m,
        },
    }
}

/// The temperature after the Override Engine has run: the floor of the first
/// firing rule of the matched vendor descriptor, else the temperature given.
pub open spec fn spec_apply_overrides(cat: Seq<ProviderSpec>, m: Seq<u8>, t: u32) -> u32 {
    match spec_find_vendor(cat, m) {
        Some(v) => match spec_first_rule(cat[v].model_overrides@, lower(m)) {
            Some(j) => cat[v].model_overrides@[j].temperature_milli.unwrap(),
            None => t,
        },
        None => t,
    }
}

/// The base URL handed to the network call: the explicit session base URL,
/// else the gateway's non-empty default, else the matched vendor's non-empty
/// default, else none.
pub open spec fn spec_effective_base(
    cat: Seq<ProviderSpec>,
    gw: Option<int>,
    api_base: Option<Seq<u8>>,
    m: Seq<u8>,
) -> Option<Seq<u8>>
    recommends
        gw matches Some(g) ==> 0 <= g < cat.len(),
{
    match api_base {
        Some(b) => Some(b),
        None => {
            let vendor_base = match spec_find_vendor(cat, m) {
                Some(v) => if cat[v].default_api_base@.len() > 0 {
                    Some(cat[v].default_api_base@)
                } else {
                    None
                },
                None => None,
            };
            match gw {
                Some(g) => if cat[g].default_api_base@.len() > 0 {
                    Some(cat[g].default_api_base@)
                } else {
                    vendor_base
                },
                None => vendor_base,
            }
        },
    }
}

/// A provider instance: one per runtime session, immutable once built.
pub struct LiteLLMProvider {
    pub catalog: Vec<ProviderSpec>,
    pub api_key: Vec<u8>,
    pub api_base: Option<Vec<u8>>,
    pub default_model: Vec<u8>,
    /// Extra request headers, as an ordered pair list standing for a map:
    /// when a key repeats, the later pair wins once the embedding program
    /// rebuilds the map for the wire call.
    pub extra_headers: Vec<(Vec<u8>, Vec<u8>)>,
    pub gateway: Option<usize>,
}

impl LiteLLMProvider {
    /// The chosen gateway index stays inside the catalog.
    pub open spec fn wf(self) -> bool {
        self.gateway matches Some(g) ==> g < self.catalog@.len()
    }

    /// The gateway choice as a spec-level index.
    pub open spec fn spec_gateway(self) -> Option<int> {
        match self.gateway {
            Some(g) => Some(g as int),
            None => None,
        }
    }

    /// Build a provider over the stock catalog. An empty credential is
    /// treated as no credential for key-prefix gateway detection. The
    /// environment side effect of construction is separate: the caller runs
    /// `provision_env` (see the env module) against its process state.
    pub fn new(
        api_key: Vec<u8>,
        api_base: Option<Vec<u8>>,
        default_model: Vec<u8>,
        extra_headers: Option<Vec<(Vec<u8>, Vec<u8>)>>,
        provider_name: Option<&Vec<u8>>,
    ) -> (r: LiteLLMProvider)
        ensures
            r.wf(),
            stock_catalog_facts(r.catalog@),
            r.api_key@ == api_key@,
            r.api_base == api_base,
            r.default_model@ == default_model@,
            (extra_headers matches Some(h) ==> r.extra_headers == h),
            (extra_headers is None ==> r.extra_headers@.len() == 0),
            r.gateway is Some <==> spec_find_gateway(
                r.catalog@,
                opt_bytes(provider_name),
                if api_key@.len() == 0 {
                    None
                } else {
                    Some(api_key@)
                },
                match api_base {
                    Some(b) => Some(b@),
                    None => None,
                },
            ) is Some,
            r.gateway matches Some(u) ==> spec_find_gateway(
                r.catalog@,
                opt_bytes(provider_name),
                if api_key@.len() == 0 {
                    None
                } else {
                    Some(api_key@)
                },
                match api_base {
                    Some(b) => Some(b@),
                    None => None,
                },
            ) == Some(u as int),
    {
        let catalog = default_catalog();
        let gateway = find_gateway(
            &catalog,
            provider_name,
            if api_key.len() == 0 {
                None
            } else {
                Some(&api_key)
            },
            api_base.as_ref(),
        );
        LiteLLMProvider {
            catalog,
            api_key,
            api_base,
            default_model,
            extra_headers: match extra_headers {
                Some(h) => h,
                None => Vec::new(),
            },
            gateway,
        }
    }

    /// The session's default model identifier.
    pub fn default_model(&self) -> (r: &Vec<u8>)
        ensures
            r@ == self.default_model@,
    {
        &self.default_model
    }

    /// Model Name Resolver: never fails, never returns an identifier other
    /// than `spec_resolve` of the input.
    pub fn resolve_model(&self, model: &Vec<u8>) -> (r: Vec<u8>)
        requires
            self.wf(),
        ensures
            r@ == spec_resolve(self.catalog@, self.spec_gateway(), model@),
    {
        if let Some(g) = self.gateway {
            let p = &self.catalog[g];
            let normalized = if p.strip_model_prefix {
                last_segment(model)
            } else {
                copy_bytes(model)
            };
            if p.litellm_prefix.len() == 0 {
                return normalized;
            }
            let pslash = prefixed(&p.litellm_prefix, &Vec::new());
            proof {
                assert(pslash@ =~= p.litellm_prefix@ + seq![47u8]);
            }
            if starts_with(&normalized, &pslash) {
                return normalized;
            }
            return prefixed(&p.litellm_prefix, &normalized);
        }
        match find_by_model(&self.catalog, model) {
            Some(v) => {
                let p = &self.catalog[v];
                if p.litellm_prefix.len() > 0 && !starts_with_any(model, &p.skip_prefixes) {
                    prefixed(&p.litellm_prefix, model)
                } else {
                    copy_bytes(model)
                }
            },
            None => copy_bytes(model),
        }
    }

    /// Override Engine: replaces the temperature with the floor of the first
    /// firing rule of the matched vendor descriptor, and only then.
    pub fn apply_model_overrides(&self, model: &Vec<u8>, temperature_milli: &mut u32)
        ensures
            *final(temperature_milli) == spec_apply_overrides(
                self.catalog@,
                model@,
                *old(temperature_milli),
            ),
    {
        let m_lower = to_lower(model);
        if let Some(v) = find_by_model(&self.catalog, model) {
            let rules = &self.catalog[v].model_overrides;
            let mut j: usize = 0;
            while j < rules.len()
                invariant
                    j <= rules@.len(),
                    *temperature_milli == *old(temperature_milli),
                    m_lower@ == lower(model@),
                    spec_first_rule(rules@, lower(model@)) == spec_first_rule_from(
                        rules@,
                        lower(model@),
                        j as int,
                    ),
                decreases rules@.len() - j,
            {
                let rule = &rules[j];
                if contains_sub(&m_lower, &rule.pattern) {
                    if let Some(t) = rule.temperature_milli {
                        *temperature_milli = t;
                        return ;
                    }
                }
                j = j + 1;
            }
        }
    }

    /// Effective base URL selection for the network call.
    pub fn effective_api_base(&self, model: &Vec<u8>) -> (r: Option<Vec<u8>>)
        requires
            self.wf(),
        ensures
            match r {
                Some(b) => spec_effective_base(
                    self.catalog@,
                    self.spec_gateway(),
                    match self.api_base {
                        Some(x) => Some(x@),
                        None => None,
                    },
                    model@,
                ) == Some(b@),
                None => spec_effective_base(
                    self.catalog@,
                    self.spec_gateway(),
                    match self.api_base {
                        Some(x) => Some(x@),
                        None => None,
                    },
                    model@,
                ) is None,
            },
    {
        if let Some(base) = &self.api_base {
            return Some(copy_bytes(base));
        }
        if let Some(g) = self.gateway {
            if self.catalog[g].default_api_base.len() > 0 {
                return Some(copy_bytes(&self.catalog[g].default_api_base));
            }
        }
        match find_by_model(&self.catalog, model) {
            Some(v) => {
                if self.catalog[v].default_api_base.len() > 0 {
                    Some(copy_bytes(&self.catalog[v].default_api_base))
                } else {
                    None
                }
            },
            None => None,
        }
    }
}

/// Whether some entry of `list` is a prefix of `m`.
pub fn starts_with_any(m: &Vec<u8>, list: &Vec<Vec<u8>>) -> (r: bool)
    ensures
        r == any_prefix(list@, m@),
{
    let mut j: usize = 0;
    while j < list.len()
        invariant
            j <= list@.len(),
            forall|k: int| 0 <= k < j ==> !(#[trigger] list@[k])@.is_prefix_of(m@),
        decreases list@.len() - j,
    {
        if starts_with(m, &list[j]) {
            return true;
        }
        j = j + 1;
    }
    false
}

/// Override rules never fire unless the resolved identifier contains the
/// rule's match substring, and at most one rule fires per call: the first
/// firing rule in declared order, of the vendor descriptor matched by
/// keyword. Any other outcome leaves the temperature untouched.
pub proof fn lemma_override_first_match(cat: Seq<ProviderSpec>, m: Seq<u8>, t: u32)
    ensures
        match spec_find_vendor(cat, m) {
            None => spec_apply_overrides(cat, m, t) == t,
            Some(v) => match spec_first_rule(cat[v].model_overrides@, lower(m)) {
                None => spec_apply_overrides(cat, m, t) == t,
                Some(j) => {
                    let rules = cat[v].model_overrides@;
                    &&& 0 <= j < rules.len()
                    &&& has_sub(lower(m), rules[j].pattern@)
                    &&& rules[j].temperature_milli is Some
                    &&& spec_apply_overrides(cat, m, t) == rules[j].temperature_milli.unwrap()
                    &&& forall|w: int| 0 <= w < j ==> !rule_fires(#[trigger] rules[w], lower(m))
                },
            },
        },
{
    lemma_find_vendor_props(cat, m, 0);
    match spec_find_vendor(cat, m) {
        Some(v) => {
            lemma_first_rule_props(cat[v].model_overrides@, lower(m), 0);
        },
        None => {},
    }
}

/// Resolution is idempotent: resolving an already-resolved identifier is a
/// no-op. A gateway's rewriting is idempotent unconditionally; for
/// vendor-keyword resolution this rests on the catalog discipline
/// `catalog_wf` (every vendor skips its own prefix, keywords are
/// slash-free, and no backend prefix smuggles in an earlier vendor's
/// keyword). The stock catalog satisfies the discipline outright
/// (`lemma_stock_catalog_wf`), and `check_catalog` audits any other.
pub proof fn lemma_resolve_idempotent(cat: Seq<ProviderSpec>, gw: Option<int>, m: Seq<u8>)
    requires
        gw matches Some(g) ==> 0 <= g < cat.len(),
        gw is None ==> catalog_wf(cat),
    ensures
        spec_resolve(cat, gw, spec_resolve(cat, gw, m)) == spec_resolve(cat, gw, m),
{
    match gw {
        Some(g) => {
            let p = cat[g];
            let norm = if p.strip_model_prefix {
                spec_last_segment(m)
            } else {
                m
            };
            let pfx = p.litellm_prefix@ + seq![47u8];
            if p.strip_model_prefix {
                lemma_last_segment_no_slash(m);
            }
            if p.litellm_prefix@.len() == 0 || pfx.is_prefix_of(norm) {
                if p.strip_model_prefix {
                    lemma_last_segment_of_slash_free(norm);
                }
            } else {
                let r = pfx + norm;
                if p.strip_model_prefix {
                    lemma_last_segment_after_prefix(p.litellm_prefix@, norm);
                    assert(spec_last_segment(r) == norm);
                } else {
                    assert(pfx.is_prefix_of(r)) by {
                        assert(r.subrange(0, pfx.len() as int) =~= pfx);
                    };
                }
            }
        },
        None => {
            lemma_find_vendor_props(cat, m, 0);
            match spec_find_vendor(cat, m) {
                None => {},
                Some(v) => {
                    let p = cat[v];
                    if p.litellm_prefix@.len() > 0 && !any_prefix(p.skip_prefixes@, m) {
                        let pl = p.litellm_prefix@;
                        let a = lower(pl + seq![47u8]);
                        let r = pl + seq![47u8] + m;
                        lemma_lower_concat(pl + seq![47u8], m);
                        assert(lower(r) == a + lower(m));
                        assert(a.len() > 0 && a.last() == 47u8) by {
                            assert((pl + seq![47u8])[pl.len() as int] == 47u8);
                        };
                        assert(keyword_matches(p, lower(r))) by {
                            let ki = choose|i: int|
                                0 <= i < p.keywords@.len() && has_sub(
                                    lower(m),
                                    p.keywords@[i]@,
                                );
                            lemma_has_sub_in_suffix(a, lower(m), p.keywords@[ki]@);
                        };
                        assert forall|w: int| 0 <= w < v implies !vendor_hit(
                            #[trigger] cat[w],
                            r,
                        ) by {
                            if is_vendor(cat[w]) {
                                assert(no_keyword_in(cat[w], a));
                                assert(keywords_slash_free(cat[w]));
                                assert forall|kj: int|
                                    0 <= kj < cat[w].keywords@.len() implies !has_sub(
                                    lower(r),
                                    (#[trigger] cat[w].keywords@[kj])@,
                                ) by {
                                    let kw = cat[w].keywords@[kj]@;
                                    if has_sub(lower(r), kw) {
                                        lemma_has_sub_split(a, lower(m), kw);
                                        assert(!has_sub(a, kw));
                                        assert(!vendor_hit(cat[w], m));
                                        assert(!has_sub(lower(m), kw));
                                    }
                                };
                                assert(!keyword_matches(cat[w], lower(r)));
                            }
                        };
                        assert(vendor_hit(cat[v], r));
                        lemma_find_vendor_exact(cat, r, 0, v);
                        assert(any_prefix(p.skip_prefixes@, r)) by {
                            assert(vendor_prefix_skipped(p));
                            let j = choose|j: int|
                                0 <= j < p.skip_prefixes@.len() && (
                                #[trigger] p.skip_prefixes@[j])@ == pl + seq![47u8];
                            assert((pl + seq![47u8]).is_prefix_of(r)) by {
                                assert(r.subrange(0, pl.len() as int + 1) =~= pl + seq![47u8]);
                            };
                        };
                        assert(spec_resolve(cat, gw, r) == r);
                    }
                },
            }
        },
    }
}

/// Resolution over the stock catalog is idempotent for every model id and
/// every gateway choice, with the catalog discipline discharged statically.
pub proof fn lemma_stock_resolve_idempotent(cat: Seq<ProviderSpec>, gw: Option<int>, m: Seq<u8>)
    requires
        stock_catalog_facts(cat),
        gw matches Some(g) ==> 0 <= g < cat.len(),
    ensures
        spec_resolve(cat, gw, spec_resolve(cat, gw, m)) == spec_resolve(cat, gw, m),
{
    crate::catalog::lemma_stock_catalog_wf(cat);
    lemma_resolve_idempotent(cat, gw, m);
}

/// Resolution never yields an empty identifier for a non-empty one, so
/// long as a stripping gateway carries a backend prefix -- which
/// `stock_catalog_facts` pins for every stock descriptor (only the
/// stripping gateway has a prefix at all, and no vendor strips).
pub proof fn lemma_resolve_nonempty(cat: Seq<ProviderSpec>, gw: Option<int>, m: Seq<u8>)
    requires
        m.len() > 0,
        gw matches Some(g) ==> 0 <= g < cat.len() && (cat[g].strip_model_prefix
            ==> cat[g].litellm_prefix@.len() > 0),
    ensures
        spec_resolve(cat, gw, m).len() > 0,
{
    match gw {
        Some(g) => {
            let p = cat[g];
            let norm = if p.strip_model_prefix {
                spec_last_segment(m)
            } else {
                m
            };
            let pfx = p.litellm_prefix@ + seq![47u8];
            if p.litellm_prefix@.len() == 0 || pfx.is_prefix_of(norm) {
                if p.litellm_prefix@.len() > 0 {
                    assert(norm.len() >= pfx.len());
                }
            }
        },
        None => {},
    }
}

} // verus!
