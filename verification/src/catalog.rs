//! The provider catalog: an ordered list of descriptors, each naming a
//! backend family and its detection and rewriting rules, together with the
//! selection algorithms that scan it (vendor detection by keyword, gateway
//! detection by explicit name or by credential/base-URL signals).

use vstd::prelude::*;
use vstd::string::StringSliceAdditionalSpecFns;
use crate::text::{bs, contains_sub, has_sub, lower, starts_with, to_lower};

verus! {

/// A per-model parameter correction: when `pattern` occurs in the resolved
/// identifier, the request temperature is replaced by `temperature_milli`
/// (thousandths of the usual unit, so 1000 stands for 1.0). A rule without a
/// temperature never fires.
pub struct OverrideRule {
    pub pattern: Vec<u8>,
    pub temperature_milli: Option<u32>,
}

/// An auxiliary environment entry published at provisioning time; the value
/// template may reference the credential and base URL by placeholder.
pub struct EnvEntry {
    pub key: Vec<u8>,
    pub value_template: Vec<u8>,
}

/// A provider descriptor: pure data, scanned by the selection algorithms.
pub struct ProviderSpec {
    pub name: Vec<u8>,
    pub keywords: Vec<Vec<u8>>,
    pub env_key: Vec<u8>,
    pub litellm_prefix: Vec<u8>,
    pub skip_prefixes: Vec<Vec<u8>>,
    pub is_gateway: bool,
    pub is_local: bool,
    pub detect_by_key_prefix: Vec<u8>,
    pub detect_by_base_keyword: Vec<u8>,
    pub default_api_base: Vec<u8>,
    pub strip_model_prefix: bool,
    pub env_extras: Vec<EnvEntry>,
    pub model_overrides: Vec<OverrideRule>,
}

/// A vendor descriptor: neither a gateway nor a local server; the only kind
/// selected by keyword-based detection.
pub open spec fn is_vendor(p: ProviderSpec) -> bool {
    !p.is_gateway && !p.is_local
}

/// A descriptor eligible for explicit gateway selection.
pub open spec fn gateway_like(p: ProviderSpec) -> bool {
    p.is_gateway || p.is_local
}

/// Some keyword of `p` occurs in the (already lower-cased) identifier.
pub open spec fn keyword_matches(p: ProviderSpec, m_lower: Seq<u8>) -> bool {
    exists|i: int| 0 <= i < p.keywords@.len() && has_sub(m_lower, p.keywords@[i]@)
}

/// Index of the first vendor descriptor at or after `i` whose keywords match
/// the model identifier, case-insensitively.
pub open spec fn spec_find_vendor_from(cat: Seq<ProviderSpec>, m: Seq<u8>, i: int) -> Option<
    int,
>
    decreases cat.len() - i,
    when 0 <= i <= cat.len()
{
    if i >= cat.len() {
        None
    } else if is_vendor(cat[i]) && keyword_matches(cat[i], lower(m)) {
        Some(i)
    } else {
        spec_find_vendor_from(cat, m, i + 1)
    }
}

/// Index of the first matching vendor descriptor for a model identifier.
pub open spec fn spec_find_vendor(cat: Seq<ProviderSpec>, m: Seq<u8>) -> Option<int> {
    spec_find_vendor_from(cat, m, 0)
}

/// Index of the first descriptor at or after `i` with the given name.
pub open spec fn spec_find_name_from(cat: Seq<ProviderSpec>, n: Seq<u8>, i: int) -> Option<int>
    decreases cat.len() - i,
    when 0 <= i <= cat.len()
{
    if i >= cat.len() {
        None
    } else if cat[i].name@ == n {
        Some(i)
    } else {
        spec_find_name_from(cat, n, i + 1)
    }
}

/// Index of the descriptor with the given name, if any.
pub open spec fn spec_find_name(cat: Seq<ProviderSpec>, n: Seq<u8>) -> Option<int> {
    spec_find_name_from(cat, n, 0)
}

/// An auto-detection signal fires: the API key starts with the descriptor's
/// non-empty key prefix, or the base URL contains its non-empty base keyword.
/// Empty detection fields never match.
pub open spec fn detect_signals(
    p: ProviderSpec,
    key: Option<Seq<u8>>,
    base: Option<Seq<u8>>,
) -> bool {
    ||| match key {
        Some(k) => p.detect_by_key_prefix@.len() > 0 && p.detect_by_key_prefix@.is_prefix_of(k),
        None => false,
    }
    ||| match base {
        Some(b) => p.detect_by_base_keyword@.len() > 0 && has_sub(b, p.detect_by_base_keyword@),
        None => false,
    }
}

/// Index of the first descriptor at or after `i` with a firing signal.
pub open spec fn spec_detect_from(
    cat: Seq<ProviderSpec>,
    key: Option<Seq<u8>>,
    base: Option<Seq<u8>>,
    i: int,
) -> Option<int>
    decreases cat.len() - i,
    when 0 <= i <= cat.len()
{
    if i >= cat.len() {
        None
    } else if detect_signals(cat[i], key, base) {
        Some(i)
    } else {
        spec_detect_from(cat, key, base, i + 1)
    }
}

/// Gateway selection: an explicit name naming a gateway-or-local descriptor
/// wins outright; otherwise the catalog is scanned for detection signals.
pub open spec fn spec_find_gateway(
    cat: Seq<ProviderSpec>,
    name: Option<Seq<u8>>,
    key: Option<Seq<u8>>,
    base: Option<Seq<u8>>,
) -> Option<int> {
    match name {
        Some(n) => match spec_find_name(cat, n) {
            Some(i) => if gateway_like(cat[i]) {
                Some(i)
            } else {
                spec_detect_from(cat, key, base, 0)
            },
            None => spec_detect_from(cat, key, base, 0),
        },
        None => spec_detect_from(cat, key, base, 0),
    }
}

/// The byte view of an optional byte string.
pub open spec fn opt_bytes(o: Option<&Vec<u8>>) -> Option<Seq<u8>> {
    match o {
        Some(v) => Some(v@),
        None => None,
    }
}

/// Whether some keyword of `p` occurs in the lower-cased identifier.
fn keyword_hit(p: &ProviderSpec, m_lower: &Vec<u8>) -> (r: bool)
    ensures
        r == keyword_matches(*p, m_lower@),
{
    let mut i: usize = 0;
    while i < p.keywords.len()
        invariant
            i <= p.keywords@.len(),
            forall|j: int| 0 <= j < i ==> !has_sub(m_lower@, p.keywords@[j]@),
        decreases p.keywords@.len() - i,
    {
        if contains_sub(m_lower, &p.keywords[i]) {
            return true;
        }
        i = i + 1;
    }
    false
}

/// First vendor descriptor whose keyword set matches the model identifier,
/// case-insensitively. Folding is ASCII-only (see `text::lower`): the
/// catalog's keywords are ASCII, and identifiers are compared under ASCII
/// case only.
pub fn find_by_model(cat: &Vec<ProviderSpec>, model: &Vec<u8>) -> (r: Option<usize>)
    ensures
        r is Some <==> spec_find_vendor(cat@, model@) is Some,
        r matches Some(u) ==> spec_find_vendor(cat@, model@) == Some(u as int) && u < cat@.len(),
{
    let m_lower = to_lower(model);
    let mut i: usize = 0;
    while i < cat.len()
        invariant
            i <= cat@.len(),
            m_lower@ == lower(model@),
            spec_find_vendor(cat@, model@) == spec_find_vendor_from(cat@, model@, i as int),
        decreases cat@.len() - i,
    {
        let p = &cat[i];
        if !p.is_gateway && !p.is_local && keyword_hit(p, &m_lower) {
            return Some(i);
        }
        i = i + 1;
    }
    None
}

/// First descriptor with the given name, if any.
pub fn find_by_name(cat: &Vec<ProviderSpec>, name: &Vec<u8>) -> (r: Option<usize>)
    ensures
        r is Some <==> spec_find_name(cat@, name@) is Some,
        r matches Some(u) ==> spec_find_name(cat@, name@) == Some(u as int) && u < cat@.len(),
{
    let mut i: usize = 0;
    while i < cat.len()
        invariant
            i <= cat@.len(),
            spec_find_name(cat@, name@) == spec_find_name_from(cat@, name@, i as int),
        decreases cat@.len() - i,
    {
        if crate::text::bytes_eq(&cat[i].name, name) {
            return Some(i);
        }
        i = i + 1;
    }
    None
}

/// Gateway Selector: explicit-name priority over signal-based detection;
/// `None` (vendor-keyword resolution) is a valid outcome, not an error.
pub fn find_gateway(
    cat: &Vec<ProviderSpec>,
    provider_name: Option<&Vec<u8>>,
    api_key: Option<&Vec<u8>>,
    api_base: Option<&Vec<u8>>,
) -> (r: Option<usize>)
    ensures
        r is Some <==> spec_find_gateway(
            cat@,
            opt_bytes(provider_name),
            opt_bytes(api_key),
            opt_bytes(api_base),
        ) is Some,
        r matches Some(u) ==> spec_find_gateway(
            cat@,
            opt_bytes(provider_name),
            opt_bytes(api_key),
            opt_bytes(api_base),
        ) == Some(u as int) && u < cat@.len(),
{
    if let Some(name) = provider_name {
        if let Some(i) = find_by_name(cat, name) {
            if cat[i].is_gateway || cat[i].is_local {
                return Some(i);
            }
        }
    }
    let mut i: usize = 0;
    while i < cat.len()
        invariant
            i <= cat@.len(),
            spec_find_gateway(
                cat@,
                opt_bytes(provider_name),
                opt_bytes(api_key),
                opt_bytes(api_base),
            ) == spec_detect_from(cat@, opt_bytes(api_key), opt_bytes(api_base), i as int),
        decreases cat@.len() - i,
    {
        let p = &cat[i];
        let key_matches = p.detect_by_key_prefix.len() > 0 && match api_key {
            Some(k) => starts_with(k, &p.detect_by_key_prefix),
            None => false,
        };
        let base_matches = p.detect_by_base_keyword.len() > 0 && match api_base {
            Some(b) => contains_sub(b, &p.detect_by_base_keyword),
            None => false,
        };
        if key_matches || base_matches {
            return Some(i);
        }
        i = i + 1;
    }
    None
}

/// Explicit gateway naming takes precedence over signal detection, and a
/// named descriptor that is not gateway-or-local is never selected by name:
/// selection then falls back to signal detection alone.
pub proof fn lemma_gateway_explicit_priority(
    cat: Seq<ProviderSpec>,
    n: Seq<u8>,
    key: Option<Seq<u8>>,
    base: Option<Seq<u8>>,
)
    ensures
        (spec_find_name(cat, n) matches Some(i) && gateway_like(cat[i]))
            ==> spec_find_gateway(cat, Some(n), key, base) == spec_find_name(cat, n),
        (spec_find_name(cat, n) matches Some(i) && !gateway_like(cat[i]))
            ==> spec_find_gateway(cat, Some(n), key, base) == spec_detect_from(cat, key, base, 0),
        spec_find_name(cat, n) is None ==> spec_find_gateway(cat, Some(n), key, base)
            == spec_detect_from(cat, key, base, 0),
{
}

/// Everything the first-match vendor scan demands of one index.
pub open spec fn vendor_hit(p: ProviderSpec, m: Seq<u8>) -> bool {
    is_vendor(p) && keyword_matches(p, lower(m))
}

/// What a completed vendor scan says: the returned index is the first hit,
/// and a `None` means no hit at all.
pub proof fn lemma_find_vendor_props(cat: Seq<ProviderSpec>, m: Seq<u8>, i: int)
    requires
        0 <= i <= cat.len(),
    ensures
        match spec_find_vendor_from(cat, m, i) {
            Some(v) => i <= v < cat.len() && vendor_hit(cat[v], m) && forall|w: int|
                i <= w < v ==> !vendor_hit(#[trigger] cat[w], m),
            None => forall|w: int| i <= w < cat.len() ==> !vendor_hit(#[trigger] cat[w], m),
        },
    decreases cat.len() - i,
{
    if i < cat.len() {
        if !(is_vendor(cat[i]) && keyword_matches(cat[i], lower(m))) {
            lemma_find_vendor_props(cat, m, i + 1);
        }
    }
}

/// The first hit determines the scan: if every index before `v` misses and
/// `v` hits, the scan returns `v`.
pub proof fn lemma_find_vendor_exact(cat: Seq<ProviderSpec>, m: Seq<u8>, i: int, v: int)
    requires
        0 <= i <= v < cat.len(),
        vendor_hit(cat[v], m),
        forall|w: int| i <= w < v ==> !vendor_hit(#[trigger] cat[w], m),
    ensures
        spec_find_vendor_from(cat, m, i) == Some(v),
    decreases v - i,
{
    if i < v {
        lemma_find_vendor_exact(cat, m, i + 1, v);
    }
}

/// A byte string without `/`.
pub open spec fn slash_free(s: Seq<u8>) -> bool {
    forall|k: int| 0 <= k < s.len() ==> s[k] != 47u8
}

/// A vendor descriptor with a backend prefix lists that prefix (with its
/// trailing `/`) among its own skip prefixes, so its rewriting is a no-op on
/// identifiers it has already rewritten.
pub open spec fn vendor_prefix_skipped(p: ProviderSpec) -> bool {
    (is_vendor(p) && p.litellm_prefix@.len() > 0) ==> exists|j: int|
        0 <= j < p.skip_prefixes@.len() && (#[trigger] p.skip_prefixes@[j])@ == p.litellm_prefix@
            + seq![47u8]
}

/// No keyword of `p` occurs in `s`.
pub open spec fn no_keyword_in(p: ProviderSpec, s: Seq<u8>) -> bool {
    forall|j: int| 0 <= j < p.keywords@.len() ==> !has_sub(s, (#[trigger] p.keywords@[j])@)
}

/// All keywords of `p` are slash-free.
pub open spec fn keywords_slash_free(p: ProviderSpec) -> bool {
    forall|j: int| 0 <= j < p.keywords@.len() ==> slash_free((#[trigger] p.keywords@[j])@)
}

/// Catalog discipline under which identifier resolution is idempotent:
/// every vendor skips its own prefix, keywords never hold a `/`, and no
/// vendor's backend prefix smuggles in a keyword of an earlier vendor.
pub open spec fn catalog_wf(cat: Seq<ProviderSpec>) -> bool {
    &&& forall|i: int| 0 <= i < cat.len() ==> vendor_prefix_skipped(#[trigger] cat[i])
    &&& forall|i: int| 0 <= i < cat.len() ==> keywords_slash_free(#[trigger] cat[i])
    &&& forall|v: int, w: int|
        #![trigger cat[v], cat[w]]
        0 <= w < v < cat.len() && is_vendor(cat[v]) && is_vendor(cat[w])
            && cat[v].litellm_prefix@.len() > 0 ==> no_keyword_in(
            cat[w],
            lower(cat[v].litellm_prefix@ + seq![47u8]),
        )
}

/// Whether `v` holds no `/` byte.
fn check_slash_free(v: &Vec<u8>) -> (r: bool)
    ensures
        r == slash_free(v@),
{
    let mut k: usize = 0;
    while k < v.len()
        invariant
            k <= v@.len(),
            forall|j: int| 0 <= j < k ==> v@[j] != 47u8,
        decreases v@.len() - k,
    {
        if v[k] == 47 {
            return false;
        }
        k = k + 1;
    }
    true
}

/// Runtime check of `catalog_wf`, so a concrete catalog can be audited
/// without a by-hand proof over its literal contents.
pub fn check_catalog(cat: &Vec<ProviderSpec>) -> (r: bool)
    ensures
        r == catalog_wf(cat@),
{
    let mut i: usize = 0;
    while i < cat.len()
        invariant
            i <= cat@.len(),
            forall|j: int| 0 <= j < i ==> vendor_prefix_skipped(#[trigger] cat@[j]),
            forall|j: int| 0 <= j < i ==> keywords_slash_free(#[trigger] cat@[j]),
        decreases cat@.len() - i,
    {
        let p = &cat[i];
        if !p.is_gateway && !p.is_local && p.litellm_prefix.len() > 0 {
            let own = crate::text::prefixed(&p.litellm_prefix, &Vec::new());
            let mut j: usize = 0;
            let mut found = false;
            while j < p.skip_prefixes.len()
                invariant
                    j <= p.skip_prefixes@.len(),
                    own@ == p.litellm_prefix@ + seq![47u8],
                    found ==> vendor_prefix_skipped(*p),
                    !found ==> forall|k: int|
                        0 <= k < j ==> (#[trigger] p.skip_prefixes@[k])@ != p.litellm_prefix@
                            + seq![47u8],
                decreases p.skip_prefixes@.len() - j,
            {
                if crate::text::bytes_eq(&p.skip_prefixes[j], &own) {
                    found = true;
                }
                j = j + 1;
            }
            if !found {
                proof {
                    assert(!vendor_prefix_skipped(cat@[i as int]));
                }
                return false;
            }
        }
        let mut j: usize = 0;
        while j < p.keywords.len()
            invariant
                j <= p.keywords@.len(),
                forall|k: int| 0 <= k < j ==> slash_free((#[trigger] p.keywords@[k])@),
            decreases p.keywords@.len() - j,
        {
            if !check_slash_free(&p.keywords[j]) {
                return false;
            }
            j = j + 1;
        }
        i = i + 1;
    }
    let mut v: usize = 0;
    while v < cat.len()
        invariant
            v <= cat@.len(),
            forall|i: int| 0 <= i < cat@.len() ==> vendor_prefix_skipped(#[trigger] cat@[i]),
            forall|i: int| 0 <= i < cat@.len() ==> keywords_slash_free(#[trigger] cat@[i]),
            forall|a: int, b: int|
                #![trigger cat@[a], cat@[b]]
                0 <= b < a < v && is_vendor(cat@[a]) && is_vendor(cat@[b])
                    && cat@[a].litellm_prefix@.len() > 0 ==> no_keyword_in(
                    cat@[b],
                    lower(cat@[a].litellm_prefix@ + seq![47u8]),
                ),
        decreases cat@.len() - v,
    {
        let pv = &cat[v];
        if !pv.is_gateway && !pv.is_local && pv.litellm_prefix.len() > 0 {
            let own = crate::text::prefixed(&pv.litellm_prefix, &Vec::new());
            let own_lower = to_lower(&own);
            let mut w: usize = 0;
            while w < v
                invariant
                    w <= v < cat@.len(),
                    is_vendor(cat@[v as int]),
                    cat@[v as int].litellm_prefix@.len() > 0,
                    own_lower@ == lower(cat@[v as int].litellm_prefix@ + seq![47u8]),
                    forall|b: int|
                        0 <= b < w && is_vendor(#[trigger] cat@[b]) ==> no_keyword_in(
                            cat@[b],
                            lower(cat@[v as int].litellm_prefix@ + seq![47u8]),
                        ),
                decreases v - w,
            {
                let pw = &cat[w];
                if !pw.is_gateway && !pw.is_local {
                    let mut j: usize = 0;
                    while j < pw.keywords.len()
                        invariant
                            j <= pw.keywords@.len(),
                            own_lower@ == lower(cat@[v as int].litellm_prefix@ + seq![47u8]),
                            forall|k: int|
                                0 <= k < j ==> !has_sub(
                                    lower(cat@[v as int].litellm_prefix@ + seq![47u8]),
                                    (#[trigger] pw.keywords@[k])@,
                                ),
                        decreases pw.keywords@.len() - j,
                    {
                        if contains_sub(&own_lower, &pw.keywords[j]) {
                            return false;
                        }
                        j = j + 1;
                    }
                }
                w = w + 1;
            }
        }
        v = v + 1;
    }
    true
}

/// A keyword or skip-prefix list of up to three entries.
fn words3(a: Option<&str>, b: Option<&str>, c: Option<&str>) -> (r: Vec<Vec<u8>>)
    ensures
        r@.len() == (if a is Some { 1int } else { 0int }) + (if b is Some { 1int } else { 0int })
            + (if c is Some { 1int } else { 0int }),
        match a {
            Some(s) => r@[0]@ == s.spec_bytes(),
            None => true,
        },
        match b {
            Some(s) => if a is Some {
                r@[1]@ == s.spec_bytes()
            } else {
                r@[0]@ == s.spec_bytes()
            },
            None => true,
        },
        match c {
            Some(s) => (a is Some && b is Some) ==> r@[2]@ == s.spec_bytes(),
            None => true,
        },
{
    let mut out: Vec<Vec<u8>> = Vec::new();
    if let Some(s) = a {
        out.push(bs(s));
    }
    if let Some(s) = b {
        out.push(bs(s));
    }
    if let Some(s) = c {
        out.push(bs(s));
    }
    out
}

/// One descriptor, from string literals and lists.
fn make_spec(
    name: &str,
    keywords: Vec<Vec<u8>>,
    env_key: &str,
    litellm_prefix: &str,
    skip_prefixes: Vec<Vec<u8>>,
    is_gateway: bool,
    is_local: bool,
    detect_by_key_prefix: &str,
    detect_by_base_keyword: &str,
    default_api_base: &str,
    strip_model_prefix: bool,
    env_extras: Vec<EnvEntry>,
    model_overrides: Vec<OverrideRule>,
) -> (r: ProviderSpec)
    ensures
        r.name@ == name.spec_bytes(),
        r.keywords == keywords,
        r.env_key@ == env_key.spec_bytes(),
        r.litellm_prefix@ == litellm_prefix.spec_bytes(),
        r.skip_prefixes == skip_prefixes,
        r.is_gateway == is_gateway,
        r.is_local == is_local,
        r.detect_by_key_prefix@ == detect_by_key_prefix.spec_bytes(),
        r.detect_by_base_keyword@ == detect_by_base_keyword.spec_bytes(),
        r.default_api_base@ == default_api_base.spec_bytes(),
        r.strip_model_prefix == strip_model_prefix,
        r.env_extras == env_extras,
        r.model_overrides == model_overrides,
{
    ProviderSpec {
        name: bs(name),
        keywords,
        env_key: bs(env_key),
        litellm_prefix: bs(litellm_prefix),
        skip_prefixes,
        is_gateway,
        is_local,
        detect_by_key_prefix: bs(detect_by_key_prefix),
        detect_by_base_keyword: bs(detect_by_base_keyword),
        default_api_base: bs(default_api_base),
        strip_model_prefix,
        env_extras,
        model_overrides,
    }
}

/// The full contents of the openrouter descriptor.
pub open spec fn openrouter_facts(p: ProviderSpec) -> bool {
    &&& p.name@ == ("openrouter").spec_bytes()
    &&& p.keywords@.len() == 1
    &&& p.keywords@[0]@ == ("openrouter").spec_bytes()
    &&& p.env_key@ == ("OPENROUTER_API_KEY").spec_bytes()
    &&& p.litellm_prefix@ == ("openrouter").spec_bytes()
    &&& p.skip_prefixes@.len() == 0
    &&& p.is_gateway == true
    &&& p.is_local == false
    &&& p.detect_by_key_prefix@ == ("sk-or-").spec_bytes()
    &&& p.detect_by_base_keyword@ == ("openrouter").spec_bytes()
    &&& p.default_api_base@ == ("https://openrouter.ai/api/v1").spec_bytes()
    &&& p.strip_model_prefix == false
    &&& p.env_extras@.len() == 0
    &&& p.model_overrides@.len() == 0
}

/// The full contents of the aihubmix descriptor.
pub open spec fn aihubmix_facts(p: ProviderSpec) -> bool {
    &&& p.name@ == ("aihubmix").spec_bytes()
    &&& p.keywords@.len() == 1
    &&& p.keywords@[0]@ == ("aihubmix").spec_bytes()
    &&& p.env_key@ == ("OPENAI_API_KEY").spec_bytes()
    &&& p.litellm_prefix@ == ("openai").spec_bytes()
    &&& p.skip_prefixes@.len() == 0
    &&& p.is_gateway == true
    &&& p.is_local == false
    &&& p.detect_by_key_prefix@ == ("").spec_bytes()
    &&& p.detect_by_base_keyword@ == ("aihubmix").spec_bytes()
    &&& p.default_api_base@ == ("https://aihubmix.com/v1").spec_bytes()
    &&& p.strip_model_prefix == true
    &&& p.env_extras@.len() == 0
    &&& p.model_overrides@.len() == 0
}

/// The full contents of the anthropic descriptor.
pub open spec fn anthropic_facts(p: ProviderSpec) -> bool {
    &&& p.name@ == ("anthropic").spec_bytes()
    &&& p.keywords@.len() == 1
    &&& p.keywords@[0]@ == ("anthropic").spec_bytes()
    &&& p.env_key@ == ("ANTHROPIC_API_KEY").spec_bytes()
    &&& p.litellm_prefix@ == ("").spec_bytes()
    &&& p.skip_prefixes@.len() == 0
    &&& p.is_gateway == false
    &&& p.is_local == false
    &&& p.detect_by_key_prefix@ == ("").spec_bytes()
    &&& p.detect_by_base_keyword@ == ("").spec_bytes()
    &&& p.default_api_base@ == ("").spec_bytes()
    &&& p.strip_model_prefix == false
    &&& p.env_extras@.len() == 0
    &&& p.model_overrides@.len() == 0
}

/// The full contents of the openai descriptor.
pub open spec fn openai_facts(p: ProviderSpec) -> bool {
    &&& p.name@ == ("openai").spec_bytes()
    &&& p.keywords@.len() == 2
    &&& p.keywords@[0]@ == ("openai").spec_bytes()
    &&& p.keywords@[1]@ == ("gpt").spec_bytes()
    &&& p.env_key@ == ("OPENAI_API_KEY").spec_bytes()
    &&& p.litellm_prefix@ == ("").spec_bytes()
    &&& p.skip_prefixes@.len() == 0
    &&& p.is_gateway == false
    &&& p.is_local == false
    &&& p.detect_by_key_prefix@ == ("").spec_bytes()
    &&& p.detect_by_base_keyword@ == ("").spec_bytes()
    &&& p.default_api_base@ == ("").spec_bytes()
    &&& p.strip_model_prefix == false
    &&& p.env_extras@.len() == 0
    &&& p.model_overrides@.len() == 0
}

/// The full contents of the deepseek descriptor.
pub open spec fn deepseek_facts(p: ProviderSpec) -> bool {
    &&& p.name@ == ("deepseek").spec_bytes()
    &&& p.keywords@.len() == 1
    &&& p.keywords@[0]@ == ("deepseek").spec_bytes()
    &&& p.env_key@ == ("DEEPSEEK_API_KEY").spec_bytes()
    &&& p.litellm_prefix@ == ("deepseek").spec_bytes()
    &&& p.skip_prefixes@.len() == 1
    &&& p.skip_prefixes@[0]@ == ("deepseek/").spec_bytes()
    &&& p.is_gateway == false
    &&& p.is_local == false
    &&& p.detect_by_key_prefix@ == ("").spec_bytes()
    &&& p.detect_by_base_keyword@ == ("").spec_bytes()
    &&& p.default_api_base@ == ("").spec_bytes()
    &&& p.strip_model_prefix == false
    &&& p.env_extras@.len() == 0
    &&& p.model_overrides@.len() == 0
}

/// The full contents of the gemini descriptor.
pub open spec fn gemini_facts(p: ProviderSpec) -> bool {
    &&& p.name@ == ("gemini").spec_bytes()
    &&& p.keywords@.len() == 1
    &&& p.keywords@[0]@ == ("gemini").spec_bytes()
    &&& p.env_key@ == ("GEMINI_API_KEY").spec_bytes()
    &&& p.litellm_prefix@ == ("gemini").spec_bytes()
    &&& p.skip_prefixes@.len() == 1
    &&& p.skip_prefixes@[0]@ == ("gemini/").spec_bytes()
    &&& p.is_gateway == false
    &&& p.is_local == false
    &&& p.detect_by_key_prefix@ == ("").spec_bytes()
    &&& p.detect_by_base_keyword@ == ("").spec_bytes()
    &&& p.default_api_base@ == ("").spec_bytes()
    &&& p.strip_model_prefix == false
    &&& p.env_extras@.len() == 0
    &&& p.model_overrides@.len() == 0
}

/// The full contents of the zhipu descriptor.
pub open spec fn zhipu_facts(p: ProviderSpec) -> bool {
    &&& p.name@ == ("zhipu").spec_bytes()
    &&& p.keywords@.len() == 3
    &&& p.keywords@[0]@ == ("zhipu").spec_bytes()
    &&& p.keywords@[1]@ == ("glm").spec_bytes()
    &&& p.keywords@[2]@ == ("zai").spec_bytes()
    &&& p.env_key@ == ("ZAI_API_KEY").spec_bytes()
    &&& p.litellm_prefix@ == ("zai").spec_bytes()
    &&& p.skip_prefixes@.len() == 4
    &&& p.skip_prefixes@[0]@ == ("zhipu/").spec_bytes()
    &&& p.skip_prefixes@[1]@ == ("zai/").spec_bytes()
    &&& p.skip_prefixes@[2]@ == ("openrouter/").spec_bytes()
    &&& p.skip_prefixes@[3]@ == ("hosted_vllm/").spec_bytes()
    &&& p.is_gateway == false
    &&& p.is_local == false
    &&& p.detect_by_key_prefix@ == ("").spec_bytes()
    &&& p.detect_by_base_keyword@ == ("").spec_bytes()
    &&& p.default_api_base@ == ("").spec_bytes()
    &&& p.strip_model_prefix == false
    &&& p.env_extras@.len() == 1
    &&& p.env_extras@[0].key@ == ("ZHIPUAI_API_KEY").spec_bytes()
    &&& p.env_extras@[0].value_template@ == ("{api_key}").spec_bytes()
    &&& p.model_overrides@.len() == 0
}

/// The full contents of the dashscope descriptor.
pub open spec fn dashscope_facts(p: ProviderSpec) -> bool {
    &&& p.name@ == ("dashscope").spec_bytes()
    &&& p.keywords@.len() == 2
    &&& p.keywords@[0]@ == ("qwen").spec_bytes()
    &&& p.keywords@[1]@ == ("dashscope").spec_bytes()
    &&& p.env_key@ == ("DASHSCOPE_API_KEY").spec_bytes()
    &&& p.litellm_prefix@ == ("dashscope").spec_bytes()
    &&& p.skip_prefixes@.len() == 2
    &&& p.skip_prefixes@[0]@ == ("dashscope/").spec_bytes()
    &&& p.skip_prefixes@[1]@ == ("openrouter/").spec_bytes()
    &&& p.is_gateway == false
    &&& p.is_local == false
    &&& p.detect_by_key_prefix@ == ("").spec_bytes()
    &&& p.detect_by_base_keyword@ == ("").spec_bytes()
    &&& p.default_api_base@ == ("").spec_bytes()
    &&& p.strip_model_prefix == false
    &&& p.env_extras@.len() == 0
    &&& p.model_overrides@.len() == 0
}

/// The full contents of the moonshot descriptor.
pub open spec fn moonshot_facts(p: ProviderSpec) -> bool {
    &&& p.name@ == ("moonshot").spec_bytes()
    &&& p.keywords@.len() == 2
    &&& p.keywords@[0]@ == ("moonshot").spec_bytes()
    &&& p.keywords@[1]@ == ("kimi").spec_bytes()
    &&& p.env_key@ == ("MOONSHOT_API_KEY").spec_bytes()
    &&& p.litellm_prefix@ == ("moonshot").spec_bytes()
    &&& p.skip_prefixes@.len() == 2
    &&& p.skip_prefixes@[0]@ == ("moonshot/").spec_bytes()
    &&& p.skip_prefixes@[1]@ == ("openrouter/").spec_bytes()
    &&& p.is_gateway == false
    &&& p.is_local == false
    &&& p.detect_by_key_prefix@ == ("").spec_bytes()
    &&& p.detect_by_base_keyword@ == ("").spec_bytes()
    &&& p.default_api_base@ == ("https://api.moonshot.ai/v1").spec_bytes()
    &&& p.strip_model_prefix == false
    &&& p.env_extras@.len() == 1
    &&& p.env_extras@[0].key@ == ("MOONSHOT_API_BASE").spec_bytes()
    &&& p.env_extras@[0].value_template@ == ("{api_base}").spec_bytes()
    &&& p.model_overrides@.len() == 1
    &&& p.model_overrides@[0].pattern@ == ("kimi-k2.5").spec_bytes()
    &&& p.model_overrides@[0].temperature_milli == Some(1000u32)
}

/// The full contents of the minimax descriptor.
pub open spec fn minimax_facts(p: ProviderSpec) -> bool {
    &&& p.name@ == ("minimax").spec_bytes()
    &&& p.keywords@.len() == 1
    &&& p.keywords@[0]@ == ("minimax").spec_bytes()
    &&& p.env_key@ == ("MINIMAX_API_KEY").spec_bytes()
    &&& p.litellm_prefix@ == ("minimax").spec_bytes()
    &&& p.skip_prefixes@.len() == 2
    &&& p.skip_prefixes@[0]@ == ("minimax/").spec_bytes()
    &&& p.skip_prefixes@[1]@ == ("openrouter/").spec_bytes()
    &&& p.is_gateway == false
    &&& p.is_local == false
    &&& p.detect_by_key_prefix@ == ("").spec_bytes()
    &&& p.detect_by_base_keyword@ == ("").spec_bytes()
    &&& p.default_api_base@ == ("https://api.minimax.io/v1").spec_bytes()
    &&& p.strip_model_prefix == false
    &&& p.env_extras@.len() == 0
    &&& p.model_overrides@.len() == 0
}

/// The full contents of the vllm descriptor.
pub open spec fn vllm_facts(p: ProviderSpec) -> bool {
    &&& p.name@ == ("vllm").spec_bytes()
    &&& p.keywords@.len() == 1
    &&& p.keywords@[0]@ == ("vllm").spec_bytes()
    &&& p.env_key@ == ("HOSTED_VLLM_API_KEY").spec_bytes()
    &&& p.litellm_prefix@ == ("hosted_vllm").spec_bytes()
    &&& p.skip_prefixes@.len() == 0
    &&& p.is_gateway == false
    &&& p.is_local == true
    &&& p.detect_by_key_prefix@ == ("").spec_bytes()
    &&& p.detect_by_base_keyword@ == ("").spec_bytes()
    &&& p.default_api_base@ == ("").spec_bytes()
    &&& p.strip_model_prefix == false
    &&& p.env_extras@.len() == 0
    &&& p.model_overrides@.len() == 0
}

/// The full contents of the groq descriptor.
pub open spec fn groq_facts(p: ProviderSpec) -> bool {
    &&& p.name@ == ("groq").spec_bytes()
    &&& p.keywords@.len() == 1
    &&& p.keywords@[0]@ == ("groq").spec_bytes()
    &&& p.env_key@ == ("GROQ_API_KEY").spec_bytes()
    &&& p.litellm_prefix@ == ("groq").spec_bytes()
    &&& p.skip_prefixes@.len() == 1
    &&& p.skip_prefixes@[0]@ == ("groq/").spec_bytes()
    &&& p.is_gateway == false
    &&& p.is_local == false
    &&& p.detect_by_key_prefix@ == ("").spec_bytes()
    &&& p.detect_by_base_keyword@ == ("").spec_bytes()
    &&& p.default_api_base@ == ("").spec_bytes()
    &&& p.strip_model_prefix == false
    &&& p.env_extras@.len() == 0
    &&& p.model_overrides@.len() == 0
}

/// The full contents of the stock catalog, descriptor by descriptor: the
/// two proxy gateways lead, the direct vendors follow in declared order,
/// and the local inference server stands next to last. Ordering is part of
/// the contract, since both vendor detection and signal detection are
/// first-match scans.
pub open spec fn stock_catalog_facts(cat: Seq<ProviderSpec>) -> bool {
    &&& cat.len() == 12
    &&& openrouter_facts(cat[0])
    &&& aihubmix_facts(cat[1])
    &&& anthropic_facts(cat[2])
    &&& openai_facts(cat[3])
    &&& deepseek_facts(cat[4])
    &&& gemini_facts(cat[5])
    &&& zhipu_facts(cat[6])
    &&& dashscope_facts(cat[7])
    &&& moonshot_facts(cat[8])
    &&& minimax_facts(cat[9])
    &&& vllm_facts(cat[10])
    &&& groq_facts(cat[11])
}

/// Build the openrouter descriptor.
fn openrouter_spec() -> (r: ProviderSpec)
    ensures
        openrouter_facts(r),
{
    let skips = words3(None, None, None);
    let extras: Vec<EnvEntry> = Vec::new();
    let overrides: Vec<OverrideRule> = Vec::new();
    make_spec(
        "openrouter",
        words3(Some("openrouter"), None, None),
        "OPENROUTER_API_KEY",
        "openrouter",
        skips,
        true,
        false,
        "sk-or-",
        "openrouter",
        "https://openrouter.ai/api/v1",
        false,
        extras,
        overrides,
    )
}

/// Build the aihubmix descriptor.
fn aihubmix_spec() -> (r: ProviderSpec)
    ensures
        aihubmix_facts(r),
{
    let skips = words3(None, None, None);
    let extras: Vec<EnvEntry> = Vec::new();
    let overrides: Vec<OverrideRule> = Vec::new();
    make_spec(
        "aihubmix",
        words3(Some("aihubmix"), None, None),
        "OPENAI_API_KEY",
        "openai",
        skips,
        true,
        false,
        "",
        "aihubmix",
        "https://aihubmix.com/v1",
        true,
        extras,
        overrides,
    )
}

/// Build the anthropic descriptor.
fn anthropic_spec() -> (r: ProviderSpec)
    ensures
        anthropic_facts(r),
{
    let skips = words3(None, None, None);
    let extras: Vec<EnvEntry> = Vec::new();
    let overrides: Vec<OverrideRule> = Vec::new();
    make_spec(
        "anthropic",
        words3(Some("anthropic"), None, None),
        "ANTHROPIC_API_KEY",
        "",
        skips,
        false,
        false,
        "",
        "",
        "",
        false,
        extras,
        overrides,
    )
}

/// Build the openai descriptor.
fn openai_spec() -> (r: ProviderSpec)
    ensures
        openai_facts(r),
{
    let skips = words3(None, None, None);
    let extras: Vec<EnvEntry> = Vec::new();
    let overrides: Vec<OverrideRule> = Vec::new();
    make_spec(
        "openai",
        words3(Some("openai"), Some("gpt"), None),
        "OPENAI_API_KEY",
        "",
        skips,
        false,
        false,
        "",
        "",
        "",
        false,
        extras,
        overrides,
    )
}

/// Build the deepseek descriptor.
fn deepseek_spec() -> (r: ProviderSpec)
    ensures
        deepseek_facts(r),
{
    let skips = words3(Some("deepseek/"), None, None);
    let extras: Vec<EnvEntry> = Vec::new();
    let overrides: Vec<OverrideRule> = Vec::new();
    make_spec(
        "deepseek",
        words3(Some("deepseek"), None, None),
        "DEEPSEEK_API_KEY",
        "deepseek",
        skips,
        false,
        false,
        "",
        "",
        "",
        false,
        extras,
        overrides,
    )
}

/// Build the gemini descriptor.
fn gemini_spec() -> (r: ProviderSpec)
    ensures
        gemini_facts(r),
{
    let skips = words3(Some("gemini/"), None, None);
    let extras: Vec<EnvEntry> = Vec::new();
    let overrides: Vec<OverrideRule> = Vec::new();
    make_spec(
        "gemini",
        words3(Some("gemini"), None, None),
        "GEMINI_API_KEY",
        "gemini",
        skips,
        false,
        false,
        "",
        "",
        "",
        false,
        extras,
        overrides,
    )
}

/// Build the zhipu descriptor.
fn zhipu_spec() -> (r: ProviderSpec)
    ensures
        zhipu_facts(r),
{
    let mut skips = words3(Some("zhipu/"), Some("zai/"), Some("openrouter/"));
    skips.push(bs("hosted_vllm/"));
    let mut extras: Vec<EnvEntry> = Vec::new();
    extras.push(EnvEntry { key: bs("ZHIPUAI_API_KEY"), value_template: bs("{api_key}") });
    let overrides: Vec<OverrideRule> = Vec::new();
    make_spec(
        "zhipu",
        words3(Some("zhipu"), Some("glm"), Some("zai")),
        "ZAI_API_KEY",
        "zai",
        skips,
        false,
        false,
        "",
        "",
        "",
        false,
        extras,
        overrides,
    )
}

/// Build the dashscope descriptor.
fn dashscope_spec() -> (r: ProviderSpec)
    ensures
        dashscope_facts(r),
{
    let skips = words3(Some("dashscope/"), Some("openrouter/"), None);
    let extras: Vec<EnvEntry> = Vec::new();
    let overrides: Vec<OverrideRule> = Vec::new();
    make_spec(
        "dashscope",
        words3(Some("qwen"), Some("dashscope"), None),
        "DASHSCOPE_API_KEY",
        "dashscope",
        skips,
        false,
        false,
        "",
        "",
        "",
        false,
        extras,
        overrides,
    )
}

/// Build the moonshot descriptor.
fn moonshot_spec() -> (r: ProviderSpec)
    ensures
        moonshot_facts(r),
{
    let skips = words3(Some("moonshot/"), Some("openrouter/"), None);
    let mut extras: Vec<EnvEntry> = Vec::new();
    extras.push(EnvEntry { key: bs("MOONSHOT_API_BASE"), value_template: bs("{api_base}") });
    let mut overrides: Vec<OverrideRule> = Vec::new();
    overrides.push(OverrideRule { pattern: bs("kimi-k2.5"), temperature_milli: Some(1000) });
    make_spec(
        "moonshot",
        words3(Some("moonshot"), Some("kimi"), None),
        "MOONSHOT_API_KEY",
        "moonshot",
        skips,
        false,
        false,
        "",
        "",
        "https://api.moonshot.ai/v1",
        false,
        extras,
        overrides,
    )
}

/// Build the minimax descriptor.
fn minimax_spec() -> (r: ProviderSpec)
    ensures
        minimax_facts(r),
{
    let skips = words3(Some("minimax/"), Some("openrouter/"), None);
    let extras: Vec<EnvEntry> = Vec::new();
    let overrides: Vec<OverrideRule> = Vec::new();
    make_spec(
        "minimax",
        words3(Some("minimax"), None, None),
        "MINIMAX_API_KEY",
        "minimax",
        skips,
        false,
        false,
        "",
        "",
        "https://api.minimax.io/v1",
        false,
        extras,
        overrides,
    )
}

/// Build the vllm descriptor.
fn vllm_spec() -> (r: ProviderSpec)
    ensures
        vllm_facts(r),
{
    let skips = words3(None, None, None);
    let extras: Vec<EnvEntry> = Vec::new();
    let overrides: Vec<OverrideRule> = Vec::new();
    make_spec(
        "vllm",
        words3(Some("vllm"), None, None),
        "HOSTED_VLLM_API_KEY",
        "hosted_vllm",
        skips,
        false,
        true,
        "",
        "",
        "",
        false,
        extras,
        overrides,
    )
}

/// Build the groq descriptor.
fn groq_spec() -> (r: ProviderSpec)
    ensures
        groq_facts(r),
{
    let skips = words3(Some("groq/"), None, None);
    let extras: Vec<EnvEntry> = Vec::new();
    let overrides: Vec<OverrideRule> = Vec::new();
    make_spec(
        "groq",
        words3(Some("groq"), None, None),
        "GROQ_API_KEY",
        "groq",
        skips,
        false,
        false,
        "",
        "",
        "",
        false,
        extras,
        overrides,
    )
}

/// The stock catalog.
#[verifier::rlimit(30)]
pub fn default_catalog() -> (r: Vec<ProviderSpec>)
    ensures
        stock_catalog_facts(r@),
{
    let mut cat: Vec<ProviderSpec> = Vec::new();
    cat.push(openrouter_spec());
    cat.push(aihubmix_spec());
    cat.push(anthropic_spec());
    cat.push(openai_spec());
    cat.push(deepseek_spec());
    cat.push(gemini_spec());
    cat.push(zhipu_spec());
    cat.push(dashscope_spec());
    cat.push(moonshot_spec());
    cat.push(minimax_spec());
    cat.push(vllm_spec());
    cat.push(groq_spec());
    cat
}

/// Whether some entry of `list` (a skip-prefix list) is a prefix of `m`.
pub open spec fn any_prefix(list: Seq<Vec<u8>>, m: Seq<u8>) -> bool {
    exists|j: int| 0 <= j < list.len() && (#[trigger] list[j])@.is_prefix_of(m)
}

/// A rule fires on an identifier when its pattern occurs in it and the rule
/// carries a temperature.
pub open spec fn rule_fires(r: OverrideRule, m_lower: Seq<u8>) -> bool {
    r.temperature_milli is Some && has_sub(m_lower, r.pattern@)
}

/// Index of the first firing rule at or after `i`.
pub open spec fn spec_first_rule_from(rules: Seq<OverrideRule>, m_lower: Seq<u8>, i: int) -> Option<
    int,
>
    decreases rules.len() - i,
    when 0 <= i <= rules.len()
{
    if i >= rules.len() {
        None
    } else if rule_fires(rules[i], m_lower) {
        Some(i)
    } else {
        spec_first_rule_from(rules, m_lower, i + 1)
    }
}

/// Index of the first firing rule, if any.
pub open spec fn spec_first_rule(rules: Seq<OverrideRule>, m_lower: Seq<u8>) -> Option<int> {
    spec_first_rule_from(rules, m_lower, 0)
}

/// What a completed rule scan says: the returned index is the first firing
/// rule, and a `None` means no rule fires at all.
pub proof fn lemma_first_rule_props(rules: Seq<OverrideRule>, m_lower: Seq<u8>, i: int)
    requires
        0 <= i <= rules.len(),
    ensures
        match spec_first_rule_from(rules, m_lower, i) {
            Some(j) => i <= j < rules.len() && rule_fires(rules[j], m_lower) && forall|w: int|
                i <= w < j ==> !rule_fires(#[trigger] rules[w], m_lower),
            None => forall|w: int| i <= w < rules.len() ==> !rule_fires(
                #[trigger] rules[w],
                m_lower,
            ),
        },
    decreases rules.len() - i,
{
    if i < rules.len() {
        if !rule_fires(rules[i], m_lower) {
            lemma_first_rule_props(rules, m_lower, i + 1);
        }
    }
}

/// The stock catalog's keywords never hold a `/`.
proof fn lemma_stock_keywords_slash_free()
    ensures
        slash_free(("openrouter").spec_bytes()),
        slash_free(("aihubmix").spec_bytes()),
        slash_free(("anthropic").spec_bytes()),
        slash_free(("openai").spec_bytes()),
        slash_free(("gpt").spec_bytes()),
        slash_free(("deepseek").spec_bytes()),
        slash_free(("gemini").spec_bytes()),
        slash_free(("zhipu").spec_bytes()),
        slash_free(("glm").spec_bytes()),
        slash_free(("zai").spec_bytes()),
        slash_free(("qwen").spec_bytes()),
        slash_free(("dashscope").spec_bytes()),
        slash_free(("moonshot").spec_bytes()),
        slash_free(("kimi").spec_bytes()),
        slash_free(("minimax").spec_bytes()),
        slash_free(("vllm").spec_bytes()),
        slash_free(("groq").spec_bytes()),
{
    broadcast use vstd::string::is_ascii_spec_bytes;
    reveal_strlit("openrouter");
    reveal_strlit("aihubmix");
    reveal_strlit("anthropic");
    reveal_strlit("openai");
    reveal_strlit("gpt");
    reveal_strlit("deepseek");
    reveal_strlit("gemini");
    reveal_strlit("zhipu");
    reveal_strlit("glm");
    reveal_strlit("zai");
    reveal_strlit("qwen");
    reveal_strlit("dashscope");
    reveal_strlit("moonshot");
    reveal_strlit("kimi");
    reveal_strlit("minimax");
    reveal_strlit("vllm");
    reveal_strlit("groq");
    assert(vstd::string::is_ascii("openrouter"));
    assert(vstd::string::is_ascii("aihubmix"));
    assert(vstd::string::is_ascii("anthropic"));
    assert(vstd::string::is_ascii("openai"));
    assert(vstd::string::is_ascii("gpt"));
    assert(vstd::string::is_ascii("deepseek"));
    assert(vstd::string::is_ascii("gemini"));
    assert(vstd::string::is_ascii("zhipu"));
    assert(vstd::string::is_ascii("glm"));
    assert(vstd::string::is_ascii("zai"));
    assert(vstd::string::is_ascii("qwen"));
    assert(vstd::string::is_ascii("dashscope"));
    assert(vstd::string::is_ascii("moonshot"));
    assert(vstd::string::is_ascii("kimi"));
    assert(vstd::string::is_ascii("minimax"));
    assert(vstd::string::is_ascii("vllm"));
    assert(vstd::string::is_ascii("groq"));
}

/// Each backend prefix followed by `/` is exactly the corresponding
/// skip-prefix entry of the stock catalog.
proof fn lemma_stock_prefix_slash_eq()
    ensures
        ("deepseek/").spec_bytes() == ("deepseek").spec_bytes() + seq![47u8],
        ("gemini/").spec_bytes() == ("gemini").spec_bytes() + seq![47u8],
        ("zai/").spec_bytes() == ("zai").spec_bytes() + seq![47u8],
        ("dashscope/").spec_bytes() == ("dashscope").spec_bytes() + seq![47u8],
        ("moonshot/").spec_bytes() == ("moonshot").spec_bytes() + seq![47u8],
        ("minimax/").spec_bytes() == ("minimax").spec_bytes() + seq![47u8],
        ("groq/").spec_bytes() == ("groq").spec_bytes() + seq![47u8],
{
    broadcast use vstd::string::is_ascii_spec_bytes;
    reveal_strlit("deepseek/");
    reveal_strlit("deepseek");
    reveal_strlit("gemini/");
    reveal_strlit("gemini");
    reveal_strlit("zai/");
    reveal_strlit("zai");
    reveal_strlit("dashscope/");
    reveal_strlit("dashscope");
    reveal_strlit("moonshot/");
    reveal_strlit("moonshot");
    reveal_strlit("minimax/");
    reveal_strlit("minimax");
    reveal_strlit("groq/");
    reveal_strlit("groq");
    assert(vstd::string::is_ascii("deepseek/"));
    assert(vstd::string::is_ascii("deepseek"));
    assert(vstd::string::is_ascii("gemini/"));
    assert(vstd::string::is_ascii("gemini"));
    assert(vstd::string::is_ascii("zai/"));
    assert(vstd::string::is_ascii("zai"));
    assert(vstd::string::is_ascii("dashscope/"));
    assert(vstd::string::is_ascii("dashscope"));
    assert(vstd::string::is_ascii("moonshot/"));
    assert(vstd::string::is_ascii("moonshot"));
    assert(vstd::string::is_ascii("minimax/"));
    assert(vstd::string::is_ascii("minimax"));
    assert(vstd::string::is_ascii("groq/"));
    assert(vstd::string::is_ascii("groq"));
    assert(("deepseek/").spec_bytes() =~= ("deepseek").spec_bytes() + seq![47u8]);
    assert(("gemini/").spec_bytes() =~= ("gemini").spec_bytes() + seq![47u8]);
    assert(("zai/").spec_bytes() =~= ("zai").spec_bytes() + seq![47u8]);
    assert(("dashscope/").spec_bytes() =~= ("dashscope").spec_bytes() + seq![47u8]);
    assert(("moonshot/").spec_bytes() =~= ("moonshot").spec_bytes() + seq![47u8]);
    assert(("minimax/").spec_bytes() =~= ("minimax").spec_bytes() + seq![47u8]);
    assert(("groq/").spec_bytes() =~= ("groq").spec_bytes() + seq![47u8]);
}

/// No keyword of an earlier vendor occurs in the deepseek backend
/// prefix with its trailing slash.
proof fn lemma_prefix_clean_deepseek()
    ensures
        ("deepseek").spec_bytes().len() == 8,
        !has_sub(lower(("deepseek").spec_bytes() + seq![47u8]), ("anthropic").spec_bytes()),
        !has_sub(lower(("deepseek").spec_bytes() + seq![47u8]), ("openai").spec_bytes()),
        !has_sub(lower(("deepseek").spec_bytes() + seq![47u8]), ("gpt").spec_bytes()),
{
    broadcast use vstd::string::is_ascii_spec_bytes;
    reveal_strlit("deepseek");
    reveal_strlit("anthropic");
    reveal_strlit("openai");
    reveal_strlit("gpt");
    assert(vstd::string::is_ascii("deepseek"));
    assert(vstd::string::is_ascii("anthropic"));
    assert(vstd::string::is_ascii("openai"));
    assert(vstd::string::is_ascii("gpt"));
    let a = lower(("deepseek").spec_bytes() + seq![47u8]);
    assert(a.len() == 9);
    assert(("anthropic").spec_bytes().len() == 9);
    assert(forall|j: int| 0 <= j <= 0 ==> #[trigger] a[j] != 97u8);
    assert forall|i: int|
        0 <= i && i + ("anthropic").spec_bytes().len() <= a.len() implies #[trigger] a.subrange(
        i,
        i + ("anthropic").spec_bytes().len() as int,
    ) != ("anthropic").spec_bytes() by {
        assert(a.subrange(i, i + ("anthropic").spec_bytes().len() as int)[0] == a[i]);
        assert(("anthropic").spec_bytes()[0] == 97u8);
    };
    assert(!has_sub(a, ("anthropic").spec_bytes()));
    assert(("openai").spec_bytes().len() == 6);
    assert(forall|j: int| 0 <= j <= 3 ==> #[trigger] a[j] != 111u8);
    assert forall|i: int|
        0 <= i && i + ("openai").spec_bytes().len() <= a.len() implies #[trigger] a.subrange(
        i,
        i + ("openai").spec_bytes().len() as int,
    ) != ("openai").spec_bytes() by {
        assert(a.subrange(i, i + ("openai").spec_bytes().len() as int)[0] == a[i]);
        assert(("openai").spec_bytes()[0] == 111u8);
    };
    assert(!has_sub(a, ("openai").spec_bytes()));
    assert(("gpt").spec_bytes().len() == 3);
    assert(forall|j: int| 0 <= j <= 6 ==> #[trigger] a[j] != 103u8);
    assert forall|i: int|
        0 <= i && i + ("gpt").spec_bytes().len() <= a.len() implies #[trigger] a.subrange(
        i,
        i + ("gpt").spec_bytes().len() as int,
    ) != ("gpt").spec_bytes() by {
        assert(a.subrange(i, i + ("gpt").spec_bytes().len() as int)[0] == a[i]);
        assert(("gpt").spec_bytes()[0] == 103u8);
    };
    assert(!has_sub(a, ("gpt").spec_bytes()));
}

/// No keyword of an earlier vendor occurs in the gemini backend
/// prefix with its trailing slash.
proof fn lemma_prefix_clean_gemini()
    ensures
        ("gemini").spec_bytes().len() == 6,
        !has_sub(lower(("gemini").spec_bytes() + seq![47u8]), ("anthropic").spec_bytes()),
        !has_sub(lower(("gemini").spec_bytes() + seq![47u8]), ("openai").spec_bytes()),
        !has_sub(lower(("gemini").spec_bytes() + seq![47u8]), ("gpt").spec_bytes()),
        !has_sub(lower(("gemini").spec_bytes() + seq![47u8]), ("deepseek").spec_bytes()),
{
    broadcast use vstd::string::is_ascii_spec_bytes;
    reveal_strlit("gemini");
    reveal_strlit("anthropic");
    reveal_strlit("openai");
    reveal_strlit("gpt");
    reveal_strlit("deepseek");
    assert(vstd::string::is_ascii("gemini"));
    assert(vstd::string::is_ascii("anthropic"));
    assert(vstd::string::is_ascii("openai"));
    assert(vstd::string::is_ascii("gpt"));
    assert(vstd::string::is_ascii("deepseek"));
    let a = lower(("gemini").spec_bytes() + seq![47u8]);
    assert(a.len() == 7);
    assert(("anthropic").spec_bytes().len() == 9);
    assert(!has_sub(a, ("anthropic").spec_bytes()));
    assert(("openai").spec_bytes().len() == 6);
    assert(forall|j: int| 0 <= j <= 1 ==> #[trigger] a[j] != 111u8);
    assert forall|i: int|
        0 <= i && i + ("openai").spec_bytes().len() <= a.len() implies #[trigger] a.subrange(
        i,
        i + ("openai").spec_bytes().len() as int,
    ) != ("openai").spec_bytes() by {
        assert(a.subrange(i, i + ("openai").spec_bytes().len() as int)[0] == a[i]);
        assert(("openai").spec_bytes()[0] == 111u8);
    };
    assert(!has_sub(a, ("openai").spec_bytes()));
    assert(("gpt").spec_bytes().len() == 3);
    assert(forall|j: int| 0 <= j <= 4 ==> #[trigger] a[j] != 103u8 || a[j + 1] != 112u8);
    assert forall|i: int|
        0 <= i && i + ("gpt").spec_bytes().len() <= a.len() implies #[trigger] a.subrange(
        i,
        i + ("gpt").spec_bytes().len() as int,
    ) != ("gpt").spec_bytes() by {
        assert(a.subrange(i, i + ("gpt").spec_bytes().len() as int)[0] == a[i]);
        assert(a.subrange(i, i + ("gpt").spec_bytes().len() as int)[1] == a[i + 1]);
        assert(("gpt").spec_bytes()[1] == 112u8);
        assert(("gpt").spec_bytes()[0] == 103u8);
    };
    assert(!has_sub(a, ("gpt").spec_bytes()));
    assert(("deepseek").spec_bytes().len() == 8);
    assert(!has_sub(a, ("deepseek").spec_bytes()));
}

/// No keyword of an earlier vendor occurs in the zhipu backend
/// prefix with its trailing slash.
proof fn lemma_prefix_clean_zhipu()
    ensures
        ("zai").spec_bytes().len() == 3,
        !has_sub(lower(("zai").spec_bytes() + seq![47u8]), ("anthropic").spec_bytes()),
        !has_sub(lower(("zai").spec_bytes() + seq![47u8]), ("openai").spec_bytes()),
        !has_sub(lower(("zai").spec_bytes() + seq![47u8]), ("gpt").spec_bytes()),
        !has_sub(lower(("zai").spec_bytes() + seq![47u8]), ("deepseek").spec_bytes()),
        !has_sub(lower(("zai").spec_bytes() + seq![47u8]), ("gemini").spec_bytes()),
{
    broadcast use vstd::string::is_ascii_spec_bytes;
    reveal_strlit("zai");
    reveal_strlit("anthropic");
    reveal_strlit("openai");
    reveal_strlit("gpt");
    reveal_strlit("deepseek");
    reveal_strlit("gemini");
    assert(vstd::string::is_ascii("zai"));
    assert(vstd::string::is_ascii("anthropic"));
    assert(vstd::string::is_ascii("openai"));
    assert(vstd::string::is_ascii("gpt"));
    assert(vstd::string::is_ascii("deepseek"));
    assert(vstd::string::is_ascii("gemini"));
    let a = lower(("zai").spec_bytes() + seq![47u8]);
    assert(a.len() == 4);
    assert(("anthropic").spec_bytes().len() == 9);
    assert(!has_sub(a, ("anthropic").spec_bytes()));
    assert(("openai").spec_bytes().len() == 6);
    assert(!has_sub(a, ("openai").spec_bytes()));
    assert(("gpt").spec_bytes().len() == 3);
    assert(forall|j: int| 0 <= j <= 1 ==> #[trigger] a[j] != 103u8);
    assert forall|i: int|
        0 <= i && i + ("gpt").spec_bytes().len() <= a.len() implies #[trigger] a.subrange(
        i,
        i + ("gpt").spec_bytes().len() as int,
    ) != ("gpt").spec_bytes() by {
        assert(a.subrange(i, i + ("gpt").spec_bytes().len() as int)[0] == a[i]);
        assert(("gpt").spec_bytes()[0] == 103u8);
    };
    assert(!has_sub(a, ("gpt").spec_bytes()));
    assert(("deepseek").spec_bytes().len() == 8);
    assert(!has_sub(a, ("deepseek").spec_bytes()));
    assert(("gemini").spec_bytes().len() == 6);
    assert(!has_sub(a, ("gemini").spec_bytes()));
}

/// No keyword of an earlier vendor occurs in the dashscope backend
/// prefix with its trailing slash.
proof fn lemma_prefix_clean_dashscope()
    ensures
        ("dashscope").spec_bytes().len() == 9,
        !has_sub(lower(("dashscope").spec_bytes() + seq![47u8]), ("anthropic").spec_bytes()),
        !has_sub(lower(("dashscope").spec_bytes() + seq![47u8]), ("openai").spec_bytes()),
        !has_sub(lower(("dashscope").spec_bytes() + seq![47u8]), ("gpt").spec_bytes()),
        !has_sub(lower(("dashscope").spec_bytes() + seq![47u8]), ("deepseek").spec_bytes()),
        !has_sub(lower(("dashscope").spec_bytes() + seq![47u8]), ("gemini").spec_bytes()),
        !has_sub(lower(("dashscope").spec_bytes() + seq![47u8]), ("zhipu").spec_bytes()),
        !has_sub(lower(("dashscope").spec_bytes() + seq![47u8]), ("glm").spec_bytes()),
        !has_sub(lower(("dashscope").spec_bytes() + seq![47u8]), ("zai").spec_bytes()),
{
    broadcast use vstd::string::is_ascii_spec_bytes;
    reveal_strlit("dashscope");
    reveal_strlit("anthropic");
    reveal_strlit("openai");
    reveal_strlit("gpt");
    reveal_strlit("deepseek");
    reveal_strlit("gemini");
    reveal_strlit("zhipu");
    reveal_strlit("glm");
    reveal_strlit("zai");
    assert(vstd::string::is_ascii("dashscope"));
    assert(vstd::string::is_ascii("anthropic"));
    assert(vstd::string::is_ascii("openai"));
    assert(vstd::string::is_ascii("gpt"));
    assert(vstd::string::is_ascii("deepseek"));
    assert(vstd::string::is_ascii("gemini"));
    assert(vstd::string::is_ascii("zhipu"));
    assert(vstd::string::is_ascii("glm"));
    assert(vstd::string::is_ascii("zai"));
    let a = lower(("dashscope").spec_bytes() + seq![47u8]);
    assert(a.len() == 10);
    assert(("anthropic").spec_bytes().len() == 9);
    assert(forall|j: int| 0 <= j <= 1 ==> #[trigger] a[j] != 97u8 || a[j + 1] != 110u8);
    assert forall|i: int|
        0 <= i && i + ("anthropic").spec_bytes().len() <= a.len() implies #[trigger] a.subrange(
        i,
        i + ("anthropic").spec_bytes().len() as int,
    ) != ("anthropic").spec_bytes() by {
        assert(a.subrange(i, i + ("anthropic").spec_bytes().len() as int)[0] == a[i]);
        assert(a.subrange(i, i + ("anthropic").spec_bytes().len() as int)[1] == a[i + 1]);
        assert(("anthropic").spec_bytes()[1] == 110u8);
        assert(("anthropic").spec_bytes()[0] == 97u8);
    };
    assert(!has_sub(a, ("anthropic").spec_bytes()));
    assert(("openai").spec_bytes().len() == 6);
    assert(forall|j: int| 0 <= j <= 4 ==> #[trigger] a[j] != 111u8);
    assert forall|i: int|
        0 <= i && i + ("openai").spec_bytes().len() <= a.len() implies #[trigger] a.subrange(
        i,
        i + ("openai").spec_bytes().len() as int,
    ) != ("openai").spec_bytes() by {
        assert(a.subrange(i, i + ("openai").spec_bytes().len() as int)[0] == a[i]);
        assert(("openai").spec_bytes()[0] == 111u8);
    };
    assert(!has_sub(a, ("openai").spec_bytes()));
    assert(("gpt").spec_bytes().len() == 3);
    assert(forall|j: int| 0 <= j <= 7 ==> #[trigger] a[j] != 103u8);
    assert forall|i: int|
        0 <= i && i + ("gpt").spec_bytes().len() <= a.len() implies #[trigger] a.subrange(
        i,
        i + ("gpt").spec_bytes().len() as int,
    ) != ("gpt").spec_bytes() by {
        assert(a.subrange(i, i + ("gpt").spec_bytes().len() as int)[0] == a[i]);
        assert(("gpt").spec_bytes()[0] == 103u8);
    };
    assert(!has_sub(a, ("gpt").spec_bytes()));
    assert(("deepseek").spec_bytes().len() == 8);
    assert(forall|j: int| 0 <= j <= 2 ==> #[trigger] a[j] != 100u8 || a[j + 1] != 101u8);
    assert forall|i: int|
        0 <= i && i + ("deepseek").spec_bytes().len() <= a.len() implies #[trigger] a.subrange(
        i,
        i + ("deepseek").spec_bytes().len() as int,
    ) != ("deepseek").spec_bytes() by {
        assert(a.subrange(i, i + ("deepseek").spec_bytes().len() as int)[0] == a[i]);
        assert(a.subrange(i, i + ("deepseek").spec_bytes().len() as int)[1] == a[i + 1]);
        assert(("deepseek").spec_bytes()[1] == 101u8);
        assert(("deepseek").spec_bytes()[0] == 100u8);
    };
    assert(!has_sub(a, ("deepseek").spec_bytes()));
    assert(("gemini").spec_bytes().len() == 6);
    assert(forall|j: int| 0 <= j <= 4 ==> #[trigger] a[j] != 103u8);
    assert forall|i: int|
        0 <= i && i + ("gemini").spec_bytes().len() <= a.len() implies #[trigger] a.subrange(
        i,
        i + ("gemini").spec_bytes().len() as int,
    ) != ("gemini").spec_bytes() by {
        assert(a.subrange(i, i + ("gemini").spec_bytes().len() as int)[0] == a[i]);
        assert(("gemini").spec_bytes()[0] == 103u8);
    };
    assert(!has_sub(a, ("gemini").spec_bytes()));
    assert(("zhipu").spec_bytes().len() == 5);
    assert(forall|j: int| 0 <= j <= 5 ==> #[trigger] a[j] != 122u8);
    assert forall|i: int|
        0 <= i && i + ("zhipu").spec_bytes().len() <= a.len() implies #[trigger] a.subrange(
        i,
        i + ("zhipu").spec_bytes().len() as int,
    ) != ("zhipu").spec_bytes() by {
        assert(a.subrange(i, i + ("zhipu").spec_bytes().len() as int)[0] == a[i]);
        assert(("zhipu").spec_bytes()[0] == 122u8);
    };
    assert(!has_sub(a, ("zhipu").spec_bytes()));
    assert(("glm").spec_bytes().len() == 3);
    assert(forall|j: int| 0 <= j <= 7 ==> #[trigger] a[j] != 103u8);
    assert forall|i: int|
        0 <= i && i + ("glm").spec_bytes().len() <= a.len() implies #[trigger] a.subrange(
        i,
        i + ("glm").spec_bytes().len() as int,
    ) != ("glm").spec_bytes() by {
        assert(a.subrange(i, i + ("glm").spec_bytes().len() as int)[0] == a[i]);
        assert(("glm").spec_bytes()[0] == 103u8);
    };
    assert(!has_sub(a, ("glm").spec_bytes()));
    assert(("zai").spec_bytes().len() == 3);
    assert(forall|j: int| 0 <= j <= 7 ==> #[trigger] a[j] != 122u8);
    assert forall|i: int|
        0 <= i && i + ("zai").spec_bytes().len() <= a.len() implies #[trigger] a.subrange(
        i,
        i + ("zai").spec_bytes().len() as int,
    ) != ("zai").spec_bytes() by {
        assert(a.subrange(i, i + ("zai").spec_bytes().len() as int)[0] == a[i]);
        assert(("zai").spec_bytes()[0] == 122u8);
    };
    assert(!has_sub(a, ("zai").spec_bytes()));
}

/// No keyword of an earlier vendor occurs in the moonshot backend
/// prefix with its trailing slash.
proof fn lemma_prefix_clean_moonshot()
    ensures
        ("moonshot").spec_bytes().len() == 8,
        !has_sub(lower(("moonshot").spec_bytes() + seq![47u8]), ("anthropic").spec_bytes()),
        !has_sub(lower(("moonshot").spec_bytes() + seq![47u8]), ("openai").spec_bytes()),
        !has_sub(lower(("moonshot").spec_bytes() + seq![47u8]), ("gpt").spec_bytes()),
        !has_sub(lower(("moonshot").spec_bytes() + seq![47u8]), ("deepseek").spec_bytes()),
        !has_sub(lower(("moonshot").spec_bytes() + seq![47u8]), ("gemini").spec_bytes()),
        !has_sub(lower(("moonshot").spec_bytes() + seq![47u8]), ("zhipu").spec_bytes()),
        !has_sub(lower(("moonshot").spec_bytes() + seq![47u8]), ("glm").spec_bytes()),
        !has_sub(lower(("moonshot").spec_bytes() + seq![47u8]), ("zai").spec_bytes()),
        !has_sub(lower(("moonshot").spec_bytes() + seq![47u8]), ("qwen").spec_bytes()),
        !has_sub(lower(("moonshot").spec_bytes() + seq![47u8]), ("dashscope").spec_bytes()),
{
    broadcast use vstd::string::is_ascii_spec_bytes;
    reveal_strlit("moonshot");
    reveal_strlit("anthropic");
    reveal_strlit("openai");
    reveal_strlit("gpt");
    reveal_strlit("deepseek");
    reveal_strlit("gemini");
    reveal_strlit("zhipu");
    reveal_strlit("glm");
    reveal_strlit("zai");
    reveal_strlit("qwen");
    reveal_strlit("dashscope");
    assert(vstd::string::is_ascii("moonshot"));
    assert(vstd::string::is_ascii("anthropic"));
    assert(vstd::string::is_ascii("openai"));
    assert(vstd::string::is_ascii("gpt"));
    assert(vstd::string::is_ascii("deepseek"));
    assert(vstd::string::is_ascii("gemini"));
    assert(vstd::string::is_ascii("zhipu"));
    assert(vstd::string::is_ascii("glm"));
    assert(vstd::string::is_ascii("zai"));
    assert(vstd::string::is_ascii("qwen"));
    assert(vstd::string::is_ascii("dashscope"));
    let a = lower(("moonshot").spec_bytes() + seq![47u8]);
    assert(a.len() == 9);
    assert(("anthropic").spec_bytes().len() == 9);
    assert(forall|j: int| 0 <= j <= 0 ==> #[trigger] a[j] != 97u8);
    assert forall|i: int|
        0 <= i && i + ("anthropic").spec_bytes().len() <= a.len() implies #[trigger] a.subrange(
        i,
        i + ("anthropic").spec_bytes().len() as int,
    ) != ("anthropic").spec_bytes() by {
        assert(a.subrange(i, i + ("anthropic").spec_bytes().len() as int)[0] == a[i]);
        assert(("anthropic").spec_bytes()[0] == 97u8);
    };
    assert(!has_sub(a, ("anthropic").spec_bytes()));
    assert(("openai").spec_bytes().len() == 6);
    assert(forall|j: int| 0 <= j <= 3 ==> #[trigger] a[j] != 111u8 || a[j + 1] != 112u8);
    assert forall|i: int|
        0 <= i && i + ("openai").spec_bytes().len() <= a.len() implies #[trigger] a.subrange(
        i,
        i + ("openai").spec_bytes().len() as int,
    ) != ("openai").spec_bytes() by {
        assert(a.subrange(i, i + ("openai").spec_bytes().len() as int)[0] == a[i]);
        assert(a.subrange(i, i + ("openai").spec_bytes().len() as int)[1] == a[i + 1]);
        assert(("openai").spec_bytes()[1] == 112u8);
        assert(("openai").spec_bytes()[0] == 111u8);
    };
    assert(!has_sub(a, ("openai").spec_bytes()));
    assert(("gpt").spec_bytes().len() == 3);
    assert(forall|j: int| 0 <= j <= 6 ==> #[trigger] a[j] != 103u8);
    assert forall|i: int|
        0 <= i && i + ("gpt").spec_bytes().len() <= a.len() implies #[trigger] a.subrange(
        i,
        i + ("gpt").spec_bytes().len() as int,
    ) != ("gpt").spec_bytes() by {
        assert(a.subrange(i, i + ("gpt").spec_bytes().len() as int)[0] == a[i]);
        assert(("gpt").spec_bytes()[0] == 103u8);
    };
    assert(!has_sub(a, ("gpt").spec_bytes()));
    assert(("deepseek").spec_bytes().len() == 8);
    assert(forall|j: int| 0 <= j <= 1 ==> #[trigger] a[j] != 100u8);
    assert forall|i: int|
        0 <= i && i + ("deepseek").spec_bytes().len() <= a.len() implies #[trigger] a.subrange(
        i,
        i + ("deepseek").spec_bytes().len() as int,
    ) != ("deepseek").spec_bytes() by {
        assert(a.subrange(i, i + ("deepseek").spec_bytes().len() as int)[0] == a[i]);
        assert(("deepseek").spec_bytes()[0] == 100u8);
    };
    assert(!has_sub(a, ("deepseek").spec_bytes()));
    assert(("gemini").spec_bytes().len() == 6);
    assert(forall|j: int| 0 <= j <= 3 ==> #[trigger] a[j] != 103u8);
    assert forall|i: int|
        0 <= i && i + ("gemini").spec_bytes().len() <= a.len() implies #[trigger] a.subrange(
        i,
        i + ("gemini").spec_bytes().len() as int,
    ) != ("gemini").spec_bytes() by {
        assert(a.subrange(i, i + ("gemini").spec_bytes().len() as int)[0] == a[i]);
        assert(("gemini").spec_bytes()[0] == 103u8);
    };
    assert(!has_sub(a, ("gemini").spec_bytes()));
    assert(("zhipu").spec_bytes().len() == 5);
    assert(forall|j: int| 0 <= j <= 4 ==> #[trigger] a[j] != 122u8);
    assert forall|i: int|
        0 <= i && i + ("zhipu").spec_bytes().len() <= a.len() implies #[trigger] a.subrange(
        i,
        i + ("zhipu").spec_bytes().len() as int,
    ) != ("zhipu").spec_bytes() by {
        assert(a.subrange(i, i + ("zhipu").spec_bytes().len() as int)[0] == a[i]);
        assert(("zhipu").spec_bytes()[0] == 122u8);
    };
    assert(!has_sub(a, ("zhipu").spec_bytes()));
    assert(("glm").spec_bytes().len() == 3);
    assert(forall|j: int| 0 <= j <= 6 ==> #[trigger] a[j] != 103u8);
    assert forall|i: int|
        0 <= i && i + ("glm").spec_bytes().len() <= a.len() implies #[trigger] a.subrange(
        i,
        i + ("glm").spec_bytes().len() as int,
    ) != ("glm").spec_bytes() by {
        assert(a.subrange(i, i + ("glm").spec_bytes().len() as int)[0] == a[i]);
        assert(("glm").spec_bytes()[0] == 103u8);
    };
    assert(!has_sub(a, ("glm").spec_bytes()));
    assert(("zai").spec_bytes().len() == 3);
    assert(forall|j: int| 0 <= j <= 6 ==> #[trigger] a[j] != 122u8);
    assert forall|i: int|
        0 <= i && i + ("zai").spec_bytes().len() <= a.len() implies #[trigger] a.subrange(
        i,
        i + ("zai").spec_bytes().len() as int,
    ) != ("zai").spec_bytes() by {
        assert(a.subrange(i, i + ("zai").spec_bytes().len() as int)[0] == a[i]);
        assert(("zai").spec_bytes()[0] == 122u8);
    };
    assert(!has_sub(a, ("zai").spec_bytes()));
    assert(("qwen").spec_bytes().len() == 4);
    assert(forall|j: int| 0 <= j <= 5 ==> #[trigger] a[j] != 113u8);
    assert forall|i: int|
        0 <= i && i + ("qwen").spec_bytes().len() <= a.len() implies #[trigger] a.subrange(
        i,
        i + ("qwen").spec_bytes().len() as int,
    ) != ("qwen").spec_bytes() by {
        assert(a.subrange(i, i + ("qwen").spec_bytes().len() as int)[0] == a[i]);
        assert(("qwen").spec_bytes()[0] == 113u8);
    };
    assert(!has_sub(a, ("qwen").spec_bytes()));
    assert(("dashscope").spec_bytes().len() == 9);
    assert(forall|j: int| 0 <= j <= 0 ==> #[trigger] a[j] != 100u8);
    assert forall|i: int|
        0 <= i && i + ("dashscope").spec_bytes().len() <= a.len() implies #[trigger] a.subrange(
        i,
        i + ("dashscope").spec_bytes().len() as int,
    ) != ("dashscope").spec_bytes() by {
        assert(a.subrange(i, i + ("dashscope").spec_bytes().len() as int)[0] == a[i]);
        assert(("dashscope").spec_bytes()[0] == 100u8);
    };
    assert(!has_sub(a, ("dashscope").spec_bytes()));
}

/// No keyword of an earlier vendor occurs in the minimax backend
/// prefix with its trailing slash.
proof fn lemma_prefix_clean_minimax()
    ensures
        ("minimax").spec_bytes().len() == 7,
        !has_sub(lower(("minimax").spec_bytes() + seq![47u8]), ("anthropic").spec_bytes()),
        !has_sub(lower(("minimax").spec_bytes() + seq![47u8]), ("openai").spec_bytes()),
        !has_sub(lower(("minimax").spec_bytes() + seq![47u8]), ("gpt").spec_bytes()),
        !has_sub(lower(("minimax").spec_bytes() + seq![47u8]), ("deepseek").spec_bytes()),
        !has_sub(lower(("minimax").spec_bytes() + seq![47u8]), ("gemini").spec_bytes()),
        !has_sub(lower(("minimax").spec_bytes() + seq![47u8]), ("zhipu").spec_bytes()),
        !has_sub(lower(("minimax").spec_bytes() + seq![47u8]), ("glm").spec_bytes()),
        !has_sub(lower(("minimax").spec_bytes() + seq![47u8]), ("zai").spec_bytes()),
        !has_sub(lower(("minimax").spec_bytes() + seq![47u8]), ("qwen").spec_bytes()),
        !has_sub(lower(("minimax").spec_bytes() + seq![47u8]), ("dashscope").spec_bytes()),
        !has_sub(lower(("minimax").spec_bytes() + seq![47u8]), ("moonshot").spec_bytes()),
        !has_sub(lower(("minimax").spec_bytes() + seq![47u8]), ("kimi").spec_bytes()),
{
    broadcast use vstd::string::is_ascii_spec_bytes;
    reveal_strlit("minimax");
    reveal_strlit("anthropic");
    reveal_strlit("openai");
    reveal_strlit("gpt");
    reveal_strlit("deepseek");
    reveal_strlit("gemini");
    reveal_strlit("zhipu");
    reveal_strlit("glm");
    reveal_strlit("zai");
    reveal_strlit("qwen");
    reveal_strlit("dashscope");
    reveal_strlit("moonshot");
    reveal_strlit("kimi");
    assert(vstd::string::is_ascii("minimax"));
    assert(vstd::string::is_ascii("anthropic"));
    assert(vstd::string::is_ascii("openai"));
    assert(vstd::string::is_ascii("gpt"));
    assert(vstd::string::is_ascii("deepseek"));
    assert(vstd::string::is_ascii("gemini"));
    assert(vstd::string::is_ascii("zhipu"));
    assert(vstd::string::is_ascii("glm"));
    assert(vstd::string::is_ascii("zai"));
    assert(vstd::string::is_ascii("qwen"));
    assert(vstd::string::is_ascii("dashscope"));
    assert(vstd::string::is_ascii("moonshot"));
    assert(vstd::string::is_ascii("kimi"));
    let a = lower(("minimax").spec_bytes() + seq![47u8]);
    assert(a.len() == 8);
    assert(("anthropic").spec_bytes().len() == 9);
    assert(!has_sub(a, ("anthropic").spec_bytes()));
    assert(("openai").spec_bytes().len() == 6);
    assert(forall|j: int| 0 <= j <= 2 ==> #[trigger] a[j] != 111u8);
    assert forall|i: int|
        0 <= i && i + ("openai").spec_bytes().len() <= a.len() implies #[trigger] a.subrange(
        i,
        i + ("openai").spec_bytes().len() as int,
    ) != ("openai").spec_bytes() by {
        assert(a.subrange(i, i + ("openai").spec_bytes().len() as int)[0] == a[i]);
        assert(("openai").spec_bytes()[0] == 111u8);
    };
    assert(!has_sub(a, ("openai").spec_bytes()));
    assert(("gpt").spec_bytes().len() == 3);
    assert(forall|j: int| 0 <= j <= 5 ==> #[trigger] a[j] != 103u8);
    assert forall|i: int|
        0 <= i && i + ("gpt").spec_bytes().len() <= a.len() implies #[trigger] a.subrange(
        i,
        i + ("gpt").spec_bytes().len() as int,
    ) != ("gpt").spec_bytes() by {
        assert(a.subrange(i, i + ("gpt").spec_bytes().len() as int)[0] == a[i]);
        assert(("gpt").spec_bytes()[0] == 103u8);
    };
    assert(!has_sub(a, ("gpt").spec_bytes()));
    assert(("deepseek").spec_bytes().len() == 8);
    assert(forall|j: int| 0 <= j <= 0 ==> #[trigger] a[j] != 100u8);
    assert forall|i: int|
        0 <= i && i + ("deepseek").spec_bytes().len() <= a.len() implies #[trigger] a.subrange(
        i,
        i + ("deepseek").spec_bytes().len() as int,
    ) != ("deepseek").spec_bytes() by {
        assert(a.subrange(i, i + ("deepseek").spec_bytes().len() as int)[0] == a[i]);
        assert(("deepseek").spec_bytes()[0] == 100u8);
    };
    assert(!has_sub(a, ("deepseek").spec_bytes()));
    assert(("gemini").spec_bytes().len() == 6);
    assert(forall|j: int| 0 <= j <= 2 ==> #[trigger] a[j] != 103u8);
    assert forall|i: int|
        0 <= i && i + ("gemini").spec_bytes().len() <= a.len() implies #[trigger] a.subrange(
        i,
        i + ("gemini").spec_bytes().len() as int,
    ) != ("gemini").spec_bytes() by {
        assert(a.subrange(i, i + ("gemini").spec_bytes().len() as int)[0] == a[i]);
        assert(("gemini").spec_bytes()[0] == 103u8);
    };
    assert(!has_sub(a, ("gemini").spec_bytes()));
    assert(("zhipu").spec_bytes().len() == 5);
    assert(forall|j: int| 0 <= j <= 3 ==> #[trigger] a[j] != 122u8);
    assert forall|i: int|
        0 <= i && i + ("zhipu").spec_bytes().len() <= a.len() implies #[trigger] a.subrange(
        i,
        i + ("zhipu").spec_bytes().len() as int,
    ) != ("zhipu").spec_bytes() by {
        assert(a.subrange(i, i + ("zhipu").spec_bytes().len() as int)[0] == a[i]);
        assert(("zhipu").spec_bytes()[0] == 122u8);
    };
    assert(!has_sub(a, ("zhipu").spec_bytes()));
    assert(("glm").spec_bytes().len() == 3);
    assert(forall|j: int| 0 <= j <= 5 ==> #[trigger] a[j] != 103u8);
    assert forall|i: int|
        0 <= i && i + ("glm").spec_bytes().len() <= a.len() implies #[trigger] a.subrange(
        i,
        i + ("glm").spec_bytes().len() as int,
    ) != ("glm").spec_bytes() by {
        assert(a.subrange(i, i + ("glm").spec_bytes().len() as int)[0] == a[i]);
        assert(("glm").spec_bytes()[0] == 103u8);
    };
    assert(!has_sub(a, ("glm").spec_bytes()));
    assert(("zai").spec_bytes().len() == 3);
    assert(forall|j: int| 0 <= j <= 5 ==> #[trigger] a[j] != 122u8);
    assert forall|i: int|
        0 <= i && i + ("zai").spec_bytes().len() <= a.len() implies #[trigger] a.subrange(
        i,
        i + ("zai").spec_bytes().len() as int,
    ) != ("zai").spec_bytes() by {
        assert(a.subrange(i, i + ("zai").spec_bytes().len() as int)[0] == a[i]);
        assert(("zai").spec_bytes()[0] == 122u8);
    };
    assert(!has_sub(a, ("zai").spec_bytes()));
    assert(("qwen").spec_bytes().len() == 4);
    assert(forall|j: int| 0 <= j <= 4 ==> #[trigger] a[j] != 113u8);
    assert forall|i: int|
        0 <= i && i + ("qwen").spec_bytes().len() <= a.len() implies #[trigger] a.subrange(
        i,
        i + ("qwen").spec_bytes().len() as int,
    ) != ("qwen").spec_bytes() by {
        assert(a.subrange(i, i + ("qwen").spec_bytes().len() as int)[0] == a[i]);
        assert(("qwen").spec_bytes()[0] == 113u8);
    };
    assert(!has_sub(a, ("qwen").spec_bytes()));
    assert(("dashscope").spec_bytes().len() == 9);
    assert(!has_sub(a, ("dashscope").spec_bytes()));
    assert(("moonshot").spec_bytes().len() == 8);
    assert(forall|j: int| 0 <= j <= 0 ==> #[trigger] a[j] != 109u8 || a[j + 1] != 111u8);
    assert forall|i: int|
        0 <= i && i + ("moonshot").spec_bytes().len() <= a.len() implies #[trigger] a.subrange(
        i,
        i + ("moonshot").spec_bytes().len() as int,
    ) != ("moonshot").spec_bytes() by {
        assert(a.subrange(i, i + ("moonshot").spec_bytes().len() as int)[0] == a[i]);
        assert(a.subrange(i, i + ("moonshot").spec_bytes().len() as int)[1] == a[i + 1]);
        assert(("moonshot").spec_bytes()[1] == 111u8);
        assert(("moonshot").spec_bytes()[0] == 109u8);
    };
    assert(!has_sub(a, ("moonshot").spec_bytes()));
    assert(("kimi").spec_bytes().len() == 4);
    assert(forall|j: int| 0 <= j <= 4 ==> #[trigger] a[j] != 107u8);
    assert forall|i: int|
        0 <= i && i + ("kimi").spec_bytes().len() <= a.len() implies #[trigger] a.subrange(
        i,
        i + ("kimi").spec_bytes().len() as int,
    ) != ("kimi").spec_bytes() by {
        assert(a.subrange(i, i + ("kimi").spec_bytes().len() as int)[0] == a[i]);
        assert(("kimi").spec_bytes()[0] == 107u8);
    };
    assert(!has_sub(a, ("kimi").spec_bytes()));
}

/// No keyword of an earlier vendor occurs in the groq backend
/// prefix with its trailing slash.
proof fn lemma_prefix_clean_groq()
    ensures
        ("groq").spec_bytes().len() == 4,
        !has_sub(lower(("groq").spec_bytes() + seq![47u8]), ("anthropic").spec_bytes()),
        !has_sub(lower(("groq").spec_bytes() + seq![47u8]), ("openai").spec_bytes()),
        !has_sub(lower(("groq").spec_bytes() + seq![47u8]), ("gpt").spec_bytes()),
        !has_sub(lower(("groq").spec_bytes() + seq![47u8]), ("deepseek").spec_bytes()),
        !has_sub(lower(("groq").spec_bytes() + seq![47u8]), ("gemini").spec_bytes()),
        !has_sub(lower(("groq").spec_bytes() + seq![47u8]), ("zhipu").spec_bytes()),
        !has_sub(lower(("groq").spec_bytes() + seq![47u8]), ("glm").spec_bytes()),
        !has_sub(lower(("groq").spec_bytes() + seq![47u8]), ("zai").spec_bytes()),
        !has_sub(lower(("groq").spec_bytes() + seq![47u8]), ("qwen").spec_bytes()),
        !has_sub(lower(("groq").spec_bytes() + seq![47u8]), ("dashscope").spec_bytes()),
        !has_sub(lower(("groq").spec_bytes() + seq![47u8]), ("moonshot").spec_bytes()),
        !has_sub(lower(("groq").spec_bytes() + seq![47u8]), ("kimi").spec_bytes()),
        !has_sub(lower(("groq").spec_bytes() + seq![47u8]), ("minimax").spec_bytes()),
{
    broadcast use vstd::string::is_ascii_spec_bytes;
    reveal_strlit("groq");
    reveal_strlit("anthropic");
    reveal_strlit("openai");
    reveal_strlit("gpt");
    reveal_strlit("deepseek");
    reveal_strlit("gemini");
    reveal_strlit("zhipu");
    reveal_strlit("glm");
    reveal_strlit("zai");
    reveal_strlit("qwen");
    reveal_strlit("dashscope");
    reveal_strlit("moonshot");
    reveal_strlit("kimi");
    reveal_strlit("minimax");
    assert(vstd::string::is_ascii("groq"));
    assert(vstd::string::is_ascii("anthropic"));
    assert(vstd::string::is_ascii("openai"));
    assert(vstd::string::is_ascii("gpt"));
    assert(vstd::string::is_ascii("deepseek"));
    assert(vstd::string::is_ascii("gemini"));
    assert(vstd::string::is_ascii("zhipu"));
    assert(vstd::string::is_ascii("glm"));
    assert(vstd::string::is_ascii("zai"));
    assert(vstd::string::is_ascii("qwen"));
    assert(vstd::string::is_ascii("dashscope"));
    assert(vstd::string::is_ascii("moonshot"));
    assert(vstd::string::is_ascii("kimi"));
    assert(vstd::string::is_ascii("minimax"));
    let a = lower(("groq").spec_bytes() + seq![47u8]);
    assert(a.len() == 5);
    assert(("anthropic").spec_bytes().len() == 9);
    assert(!has_sub(a, ("anthropic").spec_bytes()));
    assert(("openai").spec_bytes().len() == 6);
    assert(!has_sub(a, ("openai").spec_bytes()));
    assert(("gpt").spec_bytes().len() == 3);
    assert(forall|j: int| 0 <= j <= 2 ==> #[trigger] a[j] != 103u8 || a[j + 1] != 112u8);
    assert forall|i: int|
        0 <= i && i + ("gpt").spec_bytes().len() <= a.len() implies #[trigger] a.subrange(
        i,
        i + ("gpt").spec_bytes().len() as int,
    ) != ("gpt").spec_bytes() by {
        assert(a.subrange(i, i + ("gpt").spec_bytes().len() as int)[0] == a[i]);
        assert(a.subrange(i, i + ("gpt").spec_bytes().len() as int)[1] == a[i + 1]);
        assert(("gpt").spec_bytes()[1] == 112u8);
        assert(("gpt").spec_bytes()[0] == 103u8);
    };
    assert(!has_sub(a, ("gpt").spec_bytes()));
    assert(("deepseek").spec_bytes().len() == 8);
    assert(!has_sub(a, ("deepseek").spec_bytes()));
    assert(("gemini").spec_bytes().len() == 6);
    assert(!has_sub(a, ("gemini").spec_bytes()));
    assert(("zhipu").spec_bytes().len() == 5);
    assert(forall|j: int| 0 <= j <= 0 ==> #[trigger] a[j] != 122u8);
    assert forall|i: int|
        0 <= i && i + ("zhipu").spec_bytes().len() <= a.len() implies #[trigger] a.subrange(
        i,
        i + ("zhipu").spec_bytes().len() as int,
    ) != ("zhipu").spec_bytes() by {
        assert(a.subrange(i, i + ("zhipu").spec_bytes().len() as int)[0] == a[i]);
        assert(("zhipu").spec_bytes()[0] == 122u8);
    };
    assert(!has_sub(a, ("zhipu").spec_bytes()));
    assert(("glm").spec_bytes().len() == 3);
    assert(forall|j: int| 0 <= j <= 2 ==> #[trigger] a[j] != 103u8 || a[j + 1] != 108u8);
    assert forall|i: int|
        0 <= i && i + ("glm").spec_bytes().len() <= a.len() implies #[trigger] a.subrange(
        i,
        i + ("glm").spec_bytes().len() as int,
    ) != ("glm").spec_bytes() by {
        assert(a.subrange(i, i + ("glm").spec_bytes().len() as int)[0] == a[i]);
        assert(a.subrange(i, i + ("glm").spec_bytes().len() as int)[1] == a[i + 1]);
        assert(("glm").spec_bytes()[1] == 108u8);
        assert(("glm").spec_bytes()[0] == 103u8);
    };
    assert(!has_sub(a, ("glm").spec_bytes()));
    assert(("zai").spec_bytes().len() == 3);
    assert(forall|j: int| 0 <= j <= 2 ==> #[trigger] a[j] != 122u8);
    assert forall|i: int|
        0 <= i && i + ("zai").spec_bytes().len() <= a.len() implies #[trigger] a.subrange(
        i,
        i + ("zai").spec_bytes().len() as int,
    ) != ("zai").spec_bytes() by {
        assert(a.subrange(i, i + ("zai").spec_bytes().len() as int)[0] == a[i]);
        assert(("zai").spec_bytes()[0] == 122u8);
    };
    assert(!has_sub(a, ("zai").spec_bytes()));
    assert(("qwen").spec_bytes().len() == 4);
    assert(forall|j: int| 0 <= j <= 1 ==> #[trigger] a[j] != 113u8);
    assert forall|i: int|
        0 <= i && i + ("qwen").spec_bytes().len() <= a.len() implies #[trigger] a.subrange(
        i,
        i + ("qwen").spec_bytes().len() as int,
    ) != ("qwen").spec_bytes() by {
        assert(a.subrange(i, i + ("qwen").spec_bytes().len() as int)[0] == a[i]);
        assert(("qwen").spec_bytes()[0] == 113u8);
    };
    assert(!has_sub(a, ("qwen").spec_bytes()));
    assert(("dashscope").spec_bytes().len() == 9);
    assert(!has_sub(a, ("dashscope").spec_bytes()));
    assert(("moonshot").spec_bytes().len() == 8);
    assert(!has_sub(a, ("moonshot").spec_bytes()));
    assert(("kimi").spec_bytes().len() == 4);
    assert(forall|j: int| 0 <= j <= 1 ==> #[trigger] a[j] != 107u8);
    assert forall|i: int|
        0 <= i && i + ("kimi").spec_bytes().len() <= a.len() implies #[trigger] a.subrange(
        i,
        i + ("kimi").spec_bytes().len() as int,
    ) != ("kimi").spec_bytes() by {
        assert(a.subrange(i, i + ("kimi").spec_bytes().len() as int)[0] == a[i]);
        assert(("kimi").spec_bytes()[0] == 107u8);
    };
    assert(!has_sub(a, ("kimi").spec_bytes()));
    assert(("minimax").spec_bytes().len() == 7);
    assert(!has_sub(a, ("minimax").spec_bytes()));
}

/// Every stock vendor with a backend prefix lists that prefix (with its
/// trailing slash) among its skip prefixes.
proof fn lemma_stock_wf_self_skip(cat: Seq<ProviderSpec>)
    requires
        stock_catalog_facts(cat),
    ensures
        forall|i: int| 0 <= i < cat.len() ==> vendor_prefix_skipped(#[trigger] cat[i]),
{
    lemma_stock_prefix_slash_eq();
    broadcast use vstd::string::is_ascii_spec_bytes;
    reveal_strlit("");
    assert(vstd::string::is_ascii(""));
    assert(("").spec_bytes().len() == 0);
    assert forall|i: int| 0 <= i < cat.len() implies vendor_prefix_skipped(
        #[trigger] cat[i],
    ) by {
        if i == 4 {
            assert((cat[4].skip_prefixes@[0])@ == cat[4].litellm_prefix@
                + seq![47u8]);
        } else if i == 5 {
            assert((cat[5].skip_prefixes@[0])@ == cat[5].litellm_prefix@
                + seq![47u8]);
        } else if i == 6 {
            assert((cat[6].skip_prefixes@[1])@ == cat[6].litellm_prefix@
                + seq![47u8]);
        } else if i == 7 {
            assert((cat[7].skip_prefixes@[0])@ == cat[7].litellm_prefix@
                + seq![47u8]);
        } else if i == 8 {
            assert((cat[8].skip_prefixes@[0])@ == cat[8].litellm_prefix@
                + seq![47u8]);
        } else if i == 9 {
            assert((cat[9].skip_prefixes@[0])@ == cat[9].litellm_prefix@
                + seq![47u8]);
        } else if i == 11 {
            assert((cat[11].skip_prefixes@[0])@ == cat[11].litellm_prefix@
                + seq![47u8]);
        }
    };
}

/// Every stock descriptor's keywords are slash-free.
proof fn lemma_stock_wf_keywords(cat: Seq<ProviderSpec>)
    requires
        stock_catalog_facts(cat),
    ensures
        forall|i: int| 0 <= i < cat.len() ==> keywords_slash_free(#[trigger] cat[i]),
{
    lemma_stock_keywords_slash_free();
    assert forall|i: int| 0 <= i < cat.len() implies keywords_slash_free(
        #[trigger] cat[i],
    ) by {
        if i == 0 {
            assert forall|kj: int| 0 <= kj < cat[0].keywords@.len() implies slash_free(
                (#[trigger] cat[0].keywords@[kj])@,
            ) by {
                if kj == 0 {
                    assert((cat[0].keywords@[0])@ == ("openrouter").spec_bytes());
                }
            };
        } else if i == 1 {
            assert forall|kj: int| 0 <= kj < cat[1].keywords@.len() implies slash_free(
                (#[trigger] cat[1].keywords@[kj])@,
            ) by {
                if kj == 0 {
                    assert((cat[1].keywords@[0])@ == ("aihubmix").spec_bytes());
                }
            };
        } else if i == 2 {
            assert forall|kj: int| 0 <= kj < cat[2].keywords@.len() implies slash_free(
                (#[trigger] cat[2].keywords@[kj])@,
            ) by {
                if kj == 0 {
                    assert((cat[2].keywords@[0])@ == ("anthropic").spec_bytes());
                }
            };
        } else if i == 3 {
            assert forall|kj: int| 0 <= kj < cat[3].keywords@.len() implies slash_free(
                (#[trigger] cat[3].keywords@[kj])@,
            ) by {
                if kj == 0 {
                    assert((cat[3].keywords@[0])@ == ("openai").spec_bytes());
                } else if kj == 1 {
                    assert((cat[3].keywords@[1])@ == ("gpt").spec_bytes());
                }
            };
        } else if i == 4 {
            assert forall|kj: int| 0 <= kj < cat[4].keywords@.len() implies slash_free(
                (#[trigger] cat[4].keywords@[kj])@,
            ) by {
                if kj == 0 {
                    assert((cat[4].keywords@[0])@ == ("deepseek").spec_bytes());
                }
            };
        } else if i == 5 {
            assert forall|kj: int| 0 <= kj < cat[5].keywords@.len() implies slash_free(
                (#[trigger] cat[5].keywords@[kj])@,
            ) by {
                if kj == 0 {
                    assert((cat[5].keywords@[0])@ == ("gemini").spec_bytes());
                }
            };
        } else if i == 6 {
            assert forall|kj: int| 0 <= kj < cat[6].keywords@.len() implies slash_free(
                (#[trigger] cat[6].keywords@[kj])@,
            ) by {
                if kj == 0 {
                    assert((cat[6].keywords@[0])@ == ("zhipu").spec_bytes());
                } else if kj == 1 {
                    assert((cat[6].keywords@[1])@ == ("glm").spec_bytes());
                } else if kj == 2 {
                    assert((cat[6].keywords@[2])@ == ("zai").spec_bytes());
                }
            };
        } else if i == 7 {
            assert forall|kj: int| 0 <= kj < cat[7].keywords@.len() implies slash_free(
                (#[trigger] cat[7].keywords@[kj])@,
            ) by {
                if kj == 0 {
                    assert((cat[7].keywords@[0])@ == ("qwen").spec_bytes());
                } else if kj == 1 {
                    assert((cat[7].keywords@[1])@ == ("dashscope").spec_bytes());
                }
            };
        } else if i == 8 {
            assert forall|kj: int| 0 <= kj < cat[8].keywords@.len() implies slash_free(
                (#[trigger] cat[8].keywords@[kj])@,
            ) by {
                if kj == 0 {
                    assert((cat[8].keywords@[0])@ == ("moonshot").spec_bytes());
                } else if kj == 1 {
                    assert((cat[8].keywords@[1])@ == ("kimi").spec_bytes());
                }
            };
        } else if i == 9 {
            assert forall|kj: int| 0 <= kj < cat[9].keywords@.len() implies slash_free(
                (#[trigger] cat[9].keywords@[kj])@,
            ) by {
                if kj == 0 {
                    assert((cat[9].keywords@[0])@ == ("minimax").spec_bytes());
                }
            };
        } else if i == 10 {
            assert forall|kj: int| 0 <= kj < cat[10].keywords@.len() implies slash_free(
                (#[trigger] cat[10].keywords@[kj])@,
            ) by {
                if kj == 0 {
                    assert((cat[10].keywords@[0])@ == ("vllm").spec_bytes());
                }
            };
        } else if i == 11 {
            assert forall|kj: int| 0 <= kj < cat[11].keywords@.len() implies slash_free(
                (#[trigger] cat[11].keywords@[kj])@,
            ) by {
                if kj == 0 {
                    assert((cat[11].keywords@[0])@ == ("groq").spec_bytes());
                }
            };
        }
    };
}

/// No earlier vendor's keyword occurs in the deepseek backend prefix.
#[verifier::rlimit(60)]
proof fn lemma_stock_wf_prefixes_at_deepseek(cat: Seq<ProviderSpec>)
    requires
        stock_catalog_facts(cat),
    ensures
        forall|w: int|
            0 <= w < 4 && is_vendor(#[trigger] cat[w]) ==> no_keyword_in(
            cat[w],
            lower(cat[4].litellm_prefix@ + seq![47u8]),
        ),
{
    lemma_prefix_clean_deepseek();
    assert forall|w: int|
        0 <= w < 4 && is_vendor(#[trigger] cat[w]) implies no_keyword_in(
        cat[w],
        lower(cat[4].litellm_prefix@ + seq![47u8]),
    ) by {
        if w == 2 {
            assert forall|kj: int| 0 <= kj < cat[2].keywords@.len() implies !has_sub(
                lower(cat[4].litellm_prefix@ + seq![47u8]),
                (#[trigger] cat[2].keywords@[kj])@,
            ) by {
                if kj == 0 {
                    assert((cat[2].keywords@[0])@ == ("anthropic").spec_bytes());
                }
            };
        } else if w == 3 {
            assert forall|kj: int| 0 <= kj < cat[3].keywords@.len() implies !has_sub(
                lower(cat[4].litellm_prefix@ + seq![47u8]),
                (#[trigger] cat[3].keywords@[kj])@,
            ) by {
                if kj == 0 {
                    assert((cat[3].keywords@[0])@ == ("openai").spec_bytes());
                } else if kj == 1 {
                    assert((cat[3].keywords@[1])@ == ("gpt").spec_bytes());
                }
            };
        }
    };
}

/// No earlier vendor's keyword occurs in the gemini backend prefix.
#[verifier::rlimit(60)]
proof fn lemma_stock_wf_prefixes_at_gemini(cat: Seq<ProviderSpec>)
    requires
        stock_catalog_facts(cat),
    ensures
        forall|w: int|
            0 <= w < 5 && is_vendor(#[trigger] cat[w]) ==> no_keyword_in(
            cat[w],
            lower(cat[5].litellm_prefix@ + seq![47u8]),
        ),
{
    lemma_prefix_clean_gemini();
    assert forall|w: int|
        0 <= w < 5 && is_vendor(#[trigger] cat[w]) implies no_keyword_in(
        cat[w],
        lower(cat[5].litellm_prefix@ + seq![47u8]),
    ) by {
        if w == 2 {
            assert forall|kj: int| 0 <= kj < cat[2].keywords@.len() implies !has_sub(
                lower(cat[5].litellm_prefix@ + seq![47u8]),
                (#[trigger] cat[2].keywords@[kj])@,
            ) by {
                if kj == 0 {
                    assert((cat[2].keywords@[0])@ == ("anthropic").spec_bytes());
                }
            };
        } else if w == 3 {
            assert forall|kj: int| 0 <= kj < cat[3].keywords@.len() implies !has_sub(
                lower(cat[5].litellm_prefix@ + seq![47u8]),
                (#[trigger] cat[3].keywords@[kj])@,
            ) by {
                if kj == 0 {
                    assert((cat[3].keywords@[0])@ == ("openai").spec_bytes());
                } else if kj == 1 {
                    assert((cat[3].keywords@[1])@ == ("gpt").spec_bytes());
                }
            };
        } else if w == 4 {
            assert forall|kj: int| 0 <= kj < cat[4].keywords@.len() implies !has_sub(
                lower(cat[5].litellm_prefix@ + seq![47u8]),
                (#[trigger] cat[4].keywords@[kj])@,
            ) by {
                if kj == 0 {
                    assert((cat[4].keywords@[0])@ == ("deepseek").spec_bytes());
                }
            };
        }
    };
}

/// No earlier vendor's keyword occurs in the zhipu backend prefix.
#[verifier::rlimit(60)]
proof fn lemma_stock_wf_prefixes_at_zhipu(cat: Seq<ProviderSpec>)
    requires
        stock_catalog_facts(cat),
    ensures
        forall|w: int|
            0 <= w < 6 && is_vendor(#[trigger] cat[w]) ==> no_keyword_in(
            cat[w],
            lower(cat[6].litellm_prefix@ + seq![47u8]),
        ),
{
    lemma_prefix_clean_zhipu();
    assert forall|w: int|
        0 <= w < 6 && is_vendor(#[trigger] cat[w]) implies no_keyword_in(
        cat[w],
        lower(cat[6].litellm_prefix@ + seq![47u8]),
    ) by {
        if w == 2 {
            assert forall|kj: int| 0 <= kj < cat[2].keywords@.len() implies !has_sub(
                lower(cat[6].litellm_prefix@ + seq![47u8]),
                (#[trigger] cat[2].keywords@[kj])@,
            ) by {
                if kj == 0 {
                    assert((cat[2].keywords@[0])@ == ("anthropic").spec_bytes());
                }
            };
        } else if w == 3 {
            assert forall|kj: int| 0 <= kj < cat[3].keywords@.len() implies !has_sub(
                lower(cat[6].litellm_prefix@ + seq![47u8]),
                (#[trigger] cat[3].keywords@[kj])@,
            ) by {
                if kj == 0 {
                    assert((cat[3].keywords@[0])@ == ("openai").spec_bytes());
                } else if kj == 1 {
                    assert((cat[3].keywords@[1])@ == ("gpt").spec_bytes());
                }
            };
        } else if w == 4 {
            assert forall|kj: int| 0 <= kj < cat[4].keywords@.len() implies !has_sub(
                lower(cat[6].litellm_prefix@ + seq![47u8]),
                (#[trigger] cat[4].keywords@[kj])@,
            ) by {
                if kj == 0 {
                    assert((cat[4].keywords@[0])@ == ("deepseek").spec_bytes());
                }
            };
        } else if w == 5 {
            assert forall|kj: int| 0 <= kj < cat[5].keywords@.len() implies !has_sub(
                lower(cat[6].litellm_prefix@ + seq![47u8]),
                (#[trigger] cat[5].keywords@[kj])@,
            ) by {
                if kj == 0 {
                    assert((cat[5].keywords@[0])@ == ("gemini").spec_bytes());
                }
            };
        }
    };
}

/// No earlier vendor's keyword occurs in the dashscope backend prefix.
#[verifier::rlimit(60)]
proof fn lemma_stock_wf_prefixes_at_dashscope(cat: Seq<ProviderSpec>)
    requires
        stock_catalog_facts(cat),
    ensures
        forall|w: int|
            0 <= w < 7 && is_vendor(#[trigger] cat[w]) ==> no_keyword_in(
            cat[w],
            lower(cat[7].litellm_prefix@ + seq![47u8]),
        ),
{
    lemma_prefix_clean_dashscope();
    assert forall|w: int|
        0 <= w < 7 && is_vendor(#[trigger] cat[w]) implies no_keyword_in(
        cat[w],
        lower(cat[7].litellm_prefix@ + seq![47u8]),
    ) by {
        if w == 2 {
            assert forall|kj: int| 0 <= kj < cat[2].keywords@.len() implies !has_sub(
                lower(cat[7].litellm_prefix@ + seq![47u8]),
                (#[trigger] cat[2].keywords@[kj])@,
            ) by {
                if kj == 0 {
                    assert((cat[2].keywords@[0])@ == ("anthropic").spec_bytes());
                }
            };
        } else if w == 3 {
            assert forall|kj: int| 0 <= kj < cat[3].keywords@.len() implies !has_sub(
                lower(cat[7].litellm_prefix@ + seq![47u8]),
                (#[trigger] cat[3].keywords@[kj])@,
            ) by {
                if kj == 0 {
                    assert((cat[3].keywords@[0])@ == ("openai").spec_bytes());
                } else if kj == 1 {
                    assert((cat[3].keywords@[1])@ == ("gpt").spec_bytes());
                }
            };
        } else if w == 4 {
            assert forall|kj: int| 0 <= kj < cat[4].keywords@.len() implies !has_sub(
                lower(cat[7].litellm_prefix@ + seq![47u8]),
                (#[trigger] cat[4].keywords@[kj])@,
            ) by {
                if kj == 0 {
                    assert((cat[4].keywords@[0])@ == ("deepseek").spec_bytes());
                }
            };
        } else if w == 5 {
            assert forall|kj: int| 0 <= kj < cat[5].keywords@.len() implies !has_sub(
                lower(cat[7].litellm_prefix@ + seq![47u8]),
                (#[trigger] cat[5].keywords@[kj])@,
            ) by {
                if kj == 0 {
                    assert((cat[5].keywords@[0])@ == ("gemini").spec_bytes());
                }
            };
        } else if w == 6 {
            assert forall|kj: int| 0 <= kj < cat[6].keywords@.len() implies !has_sub(
                lower(cat[7].litellm_prefix@ + seq![47u8]),
                (#[trigger] cat[6].keywords@[kj])@,
            ) by {
                if kj == 0 {
                    assert((cat[6].keywords@[0])@ == ("zhipu").spec_bytes());
                } else if kj == 1 {
                    assert((cat[6].keywords@[1])@ == ("glm").spec_bytes());
                } else if kj == 2 {
                    assert((cat[6].keywords@[2])@ == ("zai").spec_bytes());
                }
            };
        }
    };
}

/// No earlier vendor's keyword occurs in the moonshot backend prefix.
#[verifier::rlimit(60)]
proof fn lemma_stock_wf_prefixes_at_moonshot(cat: Seq<ProviderSpec>)
    requires
        stock_catalog_facts(cat),
    ensures
        forall|w: int|
            0 <= w < 8 && is_vendor(#[trigger] cat[w]) ==> no_keyword_in(
            cat[w],
            lower(cat[8].litellm_prefix@ + seq![47u8]),
        ),
{
    lemma_prefix_clean_moonshot();
    assert forall|w: int|
        0 <= w < 8 && is_vendor(#[trigger] cat[w]) implies no_keyword_in(
        cat[w],
        lower(cat[8].litellm_prefix@ + seq![47u8]),
    ) by {
        if w == 2 {
            assert forall|kj: int| 0 <= kj < cat[2].keywords@.len() implies !has_sub(
                lower(cat[8].litellm_prefix@ + seq![47u8]),
                (#[trigger] cat[2].keywords@[kj])@,
            ) by {
                if kj == 0 {
                    assert((cat[2].keywords@[0])@ == ("anthropic").spec_bytes());
                }
            };
        } else if w == 3 {
            assert forall|kj: int| 0 <= kj < cat[3].keywords@.len() implies !has_sub(
                lower(cat[8].litellm_prefix@ + seq![47u8]),
                (#[trigger] cat[3].keywords@[kj])@,
            ) by {
                if kj == 0 {
                    assert((cat[3].keywords@[0])@ == ("openai").spec_bytes());
                } else if kj == 1 {
                    assert((cat[3].keywords@[1])@ == ("gpt").spec_bytes());
                }
            };
        } else if w == 4 {
            assert forall|kj: int| 0 <= kj < cat[4].keywords@.len() implies !has_sub(
                lower(cat[8].litellm_prefix@ + seq![47u8]),
                (#[trigger] cat[4].keywords@[kj])@,
            ) by {
                if kj == 0 {
                    assert((cat[4].keywords@[0])@ == ("deepseek").spec_bytes());
                }
            };
        } else if w == 5 {
            assert forall|kj: int| 0 <= kj < cat[5].keywords@.len() implies !has_sub(
                lower(cat[8].litellm_prefix@ + seq![47u8]),
                (#[trigger] cat[5].keywords@[kj])@,
            ) by {
                if kj == 0 {
                    assert((cat[5].keywords@[0])@ == ("gemini").spec_bytes());
                }
            };
        } else if w == 6 {
            assert forall|kj: int| 0 <= kj < cat[6].keywords@.len() implies !has_sub(
                lower(cat[8].litellm_prefix@ + seq![47u8]),
                (#[trigger] cat[6].keywords@[kj])@,
            ) by {
                if kj == 0 {
                    assert((cat[6].keywords@[0])@ == ("zhipu").spec_bytes());
                } else if kj == 1 {
                    assert((cat[6].keywords@[1])@ == ("glm").spec_bytes());
                } else if kj == 2 {
                    assert((cat[6].keywords@[2])@ == ("zai").spec_bytes());
                }
            };
        } else if w == 7 {
            assert forall|kj: int| 0 <= kj < cat[7].keywords@.len() implies !has_sub(
                lower(cat[8].litellm_prefix@ + seq![47u8]),
                (#[trigger] cat[7].keywords@[kj])@,
            ) by {
                if kj == 0 {
                    assert((cat[7].keywords@[0])@ == ("qwen").spec_bytes());
                } else if kj == 1 {
                    assert((cat[7].keywords@[1])@ == ("dashscope").spec_bytes());
                }
            };
        }
    };
}

/// No earlier vendor's keyword occurs in the minimax backend prefix.
#[verifier::rlimit(60)]
proof fn lemma_stock_wf_prefixes_at_minimax(cat: Seq<ProviderSpec>)
    requires
        stock_catalog_facts(cat),
    ensures
        forall|w: int|
            0 <= w < 9 && is_vendor(#[trigger] cat[w]) ==> no_keyword_in(
            cat[w],
            lower(cat[9].litellm_prefix@ + seq![47u8]),
        ),
{
    lemma_prefix_clean_minimax();
    assert forall|w: int|
        0 <= w < 9 && is_vendor(#[trigger] cat[w]) implies no_keyword_in(
        cat[w],
        lower(cat[9].litellm_prefix@ + seq![47u8]),
    ) by {
        if w == 2 {
            assert forall|kj: int| 0 <= kj < cat[2].keywords@.len() implies !has_sub(
                lower(cat[9].litellm_prefix@ + seq![47u8]),
                (#[trigger] cat[2].keywords@[kj])@,
            ) by {
                if kj == 0 {
                    assert((cat[2].keywords@[0])@ == ("anthropic").spec_bytes());
                }
            };
        } else if w == 3 {
            assert forall|kj: int| 0 <= kj < cat[3].keywords@.len() implies !has_sub(
                lower(cat[9].litellm_prefix@ + seq![47u8]),
                (#[trigger] cat[3].keywords@[kj])@,
            ) by {
                if kj == 0 {
                    assert((cat[3].keywords@[0])@ == ("openai").spec_bytes());
                } else if kj == 1 {
                    assert((cat[3].keywords@[1])@ == ("gpt").spec_bytes());
                }
            };
        } else if w == 4 {
            assert forall|kj: int| 0 <= kj < cat[4].keywords@.len() implies !has_sub(
                lower(cat[9].litellm_prefix@ + seq![47u8]),
                (#[trigger] cat[4].keywords@[kj])@,
            ) by {
                if kj == 0 {
                    assert((cat[4].keywords@[0])@ == ("deepseek").spec_bytes());
                }
            };
        } else if w == 5 {
            assert forall|kj: int| 0 <= kj < cat[5].keywords@.len() implies !has_sub(
                lower(cat[9].litellm_prefix@ + seq![47u8]),
                (#[trigger] cat[5].keywords@[kj])@,
            ) by {
                if kj == 0 {
                    assert((cat[5].keywords@[0])@ == ("gemini").spec_bytes());
                }
            };
        } else if w == 6 {
            assert forall|kj: int| 0 <= kj < cat[6].keywords@.len() implies !has_sub(
                lower(cat[9].litellm_prefix@ + seq![47u8]),
                (#[trigger] cat[6].keywords@[kj])@,
            ) by {
                if kj == 0 {
                    assert((cat[6].keywords@[0])@ == ("zhipu").spec_bytes());
                } else if kj == 1 {
                    assert((cat[6].keywords@[1])@ == ("glm").spec_bytes());
                } else if kj == 2 {
                    assert((cat[6].keywords@[2])@ == ("zai").spec_bytes());
                }
            };
        } else if w == 7 {
            assert forall|kj: int| 0 <= kj < cat[7].keywords@.len() implies !has_sub(
                lower(cat[9].litellm_prefix@ + seq![47u8]),
                (#[trigger] cat[7].keywords@[kj])@,
            ) by {
                if kj == 0 {
                    assert((cat[7].keywords@[0])@ == ("qwen").spec_bytes());
                } else if kj == 1 {
                    assert((cat[7].keywords@[1])@ == ("dashscope").spec_bytes());
                }
            };
        } else if w == 8 {
            assert forall|kj: int| 0 <= kj < cat[8].keywords@.len() implies !has_sub(
                lower(cat[9].litellm_prefix@ + seq![47u8]),
                (#[trigger] cat[8].keywords@[kj])@,
            ) by {
                if kj == 0 {
                    assert((cat[8].keywords@[0])@ == ("moonshot").spec_bytes());
                } else if kj == 1 {
                    assert((cat[8].keywords@[1])@ == ("kimi").spec_bytes());
                }
            };
        }
    };
}

/// No earlier vendor's keyword occurs in the groq backend prefix.
#[verifier::rlimit(60)]
proof fn lemma_stock_wf_prefixes_at_groq(cat: Seq<ProviderSpec>)
    requires
        stock_catalog_facts(cat),
    ensures
        forall|w: int|
            0 <= w < 11 && is_vendor(#[trigger] cat[w]) ==> no_keyword_in(
            cat[w],
            lower(cat[11].litellm_prefix@ + seq![47u8]),
        ),
{
    lemma_prefix_clean_groq();
    assert forall|w: int|
        0 <= w < 11 && is_vendor(#[trigger] cat[w]) implies no_keyword_in(
        cat[w],
        lower(cat[11].litellm_prefix@ + seq![47u8]),
    ) by {
        if w == 2 {
            assert forall|kj: int| 0 <= kj < cat[2].keywords@.len() implies !has_sub(
                lower(cat[11].litellm_prefix@ + seq![47u8]),
                (#[trigger] cat[2].keywords@[kj])@,
            ) by {
                if kj == 0 {
                    assert((cat[2].keywords@[0])@ == ("anthropic").spec_bytes());
                }
            };
        } else if w == 3 {
            assert forall|kj: int| 0 <= kj < cat[3].keywords@.len() implies !has_sub(
                lower(cat[11].litellm_prefix@ + seq![47u8]),
                (#[trigger] cat[3].keywords@[kj])@,
            ) by {
                if kj == 0 {
                    assert((cat[3].keywords@[0])@ == ("openai").spec_bytes());
                } else if kj == 1 {
                    assert((cat[3].keywords@[1])@ == ("gpt").spec_bytes());
                }
            };
        } else if w == 4 {
            assert forall|kj: int| 0 <= kj < cat[4].keywords@.len() implies !has_sub(
                lower(cat[11].litellm_prefix@ + seq![47u8]),
                (#[trigger] cat[4].keywords@[kj])@,
            ) by {
                if kj == 0 {
                    assert((cat[4].keywords@[0])@ == ("deepseek").spec_bytes());
                }
            };
        } else if w == 5 {
            assert forall|kj: int| 0 <= kj < cat[5].keywords@.len() implies !has_sub(
                lower(cat[11].litellm_prefix@ + seq![47u8]),
                (#[trigger] cat[5].keywords@[kj])@,
            ) by {
                if kj == 0 {
                    assert((cat[5].keywords@[0])@ == ("gemini").spec_bytes());
                }
            };
        } else if w == 6 {
            assert forall|kj: int| 0 <= kj < cat[6].keywords@.len() implies !has_sub(
                lower(cat[11].litellm_prefix@ + seq![47u8]),
                (#[trigger] cat[6].keywords@[kj])@,
            ) by {
                if kj == 0 {
                    assert((cat[6].keywords@[0])@ == ("zhipu").spec_bytes());
                } else if kj == 1 {
                    assert((cat[6].keywords@[1])@ == ("glm").spec_bytes());
                } else if kj == 2 {
                    assert((cat[6].keywords@[2])@ == ("zai").spec_bytes());
                }
            };
        } else if w == 7 {
            assert forall|kj: int| 0 <= kj < cat[7].keywords@.len() implies !has_sub(
                lower(cat[11].litellm_prefix@ + seq![47u8]),
                (#[trigger] cat[7].keywords@[kj])@,
            ) by {
                if kj == 0 {
                    assert((cat[7].keywords@[0])@ == ("qwen").spec_bytes());
                } else if kj == 1 {
                    assert((cat[7].keywords@[1])@ == ("dashscope").spec_bytes());
                }
            };
        } else if w == 8 {
            assert forall|kj: int| 0 <= kj < cat[8].keywords@.len() implies !has_sub(
                lower(cat[11].litellm_prefix@ + seq![47u8]),
                (#[trigger] cat[8].keywords@[kj])@,
            ) by {
                if kj == 0 {
                    assert((cat[8].keywords@[0])@ == ("moonshot").spec_bytes());
                } else if kj == 1 {
                    assert((cat[8].keywords@[1])@ == ("kimi").spec_bytes());
                }
            };
        } else if w == 9 {
            assert forall|kj: int| 0 <= kj < cat[9].keywords@.len() implies !has_sub(
                lower(cat[11].litellm_prefix@ + seq![47u8]),
                (#[trigger] cat[9].keywords@[kj])@,
            ) by {
                if kj == 0 {
                    assert((cat[9].keywords@[0])@ == ("minimax").spec_bytes());
                }
            };
        }
    };
}

/// No stock vendor's backend prefix carries a keyword of an earlier
/// vendor.
proof fn lemma_stock_wf_prefixes(cat: Seq<ProviderSpec>)
    requires
        stock_catalog_facts(cat),
    ensures
        forall|v: int, w: int|
            #![trigger cat[v], cat[w]]
            0 <= w < v < cat.len() && is_vendor(cat[v]) && is_vendor(cat[w])
                && cat[v].litellm_prefix@.len() > 0 ==> no_keyword_in(
                cat[w],
                lower(cat[v].litellm_prefix@ + seq![47u8]),
            ),
{
    lemma_stock_wf_prefixes_at_deepseek(cat);
    lemma_stock_wf_prefixes_at_gemini(cat);
    lemma_stock_wf_prefixes_at_zhipu(cat);
    lemma_stock_wf_prefixes_at_dashscope(cat);
    lemma_stock_wf_prefixes_at_moonshot(cat);
    lemma_stock_wf_prefixes_at_minimax(cat);
    lemma_stock_wf_prefixes_at_groq(cat);
    broadcast use vstd::string::is_ascii_spec_bytes;
    reveal_strlit("");
    assert(vstd::string::is_ascii(""));
    assert(("").spec_bytes().len() == 0);
    assert forall|v: int, w: int|
        #![trigger cat[v], cat[w]]
        0 <= w < v < cat.len() && is_vendor(cat[v]) && is_vendor(cat[w])
            && cat[v].litellm_prefix@.len() > 0 implies no_keyword_in(
        cat[w],
        lower(cat[v].litellm_prefix@ + seq![47u8]),
    ) by {
        assert(v == 4 || v == 5 || v == 6 || v == 7 || v == 8 || v == 9 || v == 11);
    };
}

/// The stock catalog satisfies the resolution discipline outright, so
/// idempotence needs no runtime audit for it.
pub proof fn lemma_stock_catalog_wf(cat: Seq<ProviderSpec>)
    requires
        stock_catalog_facts(cat),
    ensures
        catalog_wf(cat),
{
    lemma_stock_wf_self_skip(cat);
    lemma_stock_wf_keywords(cat);
    lemma_stock_wf_prefixes(cat);
}

} // verus!
