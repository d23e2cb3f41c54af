//! Environment Provisioner: the one-time construction side effect that
//! publishes the credential and auxiliary values into process-wide
//! configuration. The decision logic runs here over an explicit environment
//! map; applying the computed state to the real process environment is the
//! embedding program's concern.

use vstd::prelude::*;
use vstd::string::StringSliceAdditionalSpecFns;
use crate::catalog::{spec_find_vendor, EnvEntry, ProviderSpec};
use crate::provider::LiteLLMProvider;
use crate::text::{bytes_eq, copy_bytes, replace_all, spec_replace_all};

verus! {

/// An explicit environment: an append-only journal of bindings whose
/// meaning is the map where the latest binding of each key wins.
pub struct EnvMap {
    pub entries: Vec<(Vec<u8>, Vec<u8>)>,
}

/// The map a binding journal denotes.
pub open spec fn to_map(s: Seq<(Vec<u8>, Vec<u8>)>) -> Map<Seq<u8>, Seq<u8>>
    decreases s.len(),
{
    if s.len() == 0 {
        Map::empty()
    } else {
        to_map(s.drop_last()).insert(s.last().0@, s.last().1@)
    }
}

/// A key is bound exactly when some journal entry binds it.
pub proof fn lemma_to_map_contains(s: Seq<(Vec<u8>, Vec<u8>)>, k: Seq<u8>)
    ensures
        to_map(s).contains_key(k) <==> exists|i: int| 0 <= i < s.len() && (#[trigger] s[i]).0@
            == k,
    decreases s.len(),
{
    if s.len() > 0 {
        lemma_to_map_contains(s.drop_last(), k);
        if s.last().0@ == k {
            assert(s[s.len() - 1].0@ == k);
        } else if exists|i: int| 0 <= i < s.len() && (#[trigger] s[i]).0@ == k {
            let i = choose|i: int| 0 <= i < s.len() && (#[trigger] s[i]).0@ == k;
            assert(s.drop_last()[i] == s[i]);
        }
    }
}

impl EnvMap {
    /// The environment as a map.
    pub open spec fn as_map(self) -> Map<Seq<u8>, Seq<u8>> {
        to_map(self.entries@)
    }

    /// An empty environment.
    pub fn new() -> (r: EnvMap)
        ensures
            r.as_map() == Map::<Seq<u8>, Seq<u8>>::empty(),
    {
        EnvMap { entries: Vec::new() }
    }

    /// Whether `key` is bound.
    pub fn contains(&self, key: &Vec<u8>) -> (r: bool)
        ensures
            r == self.as_map().contains_key(key@),
    {
        let mut i: usize = 0;
        while i < self.entries.len()
            invariant
                i <= self.entries@.len(),
                forall|j: int| 0 <= j < i ==> (#[trigger] self.entries@[j]).0@ != key@,
            decreases self.entries@.len() - i,
        {
            if bytes_eq(&self.entries[i].0, key) {
                proof {
                    lemma_to_map_contains(self.entries@, key@);
                }
                return true;
            }
            i = i + 1;
        }
        proof {
            lemma_to_map_contains(self.entries@, key@);
        }
        false
    }

    /// The value bound to `key`, if any: the latest binding wins.
    pub fn get(&self, key: &Vec<u8>) -> (r: Option<&Vec<u8>>)
        ensures
            match r {
                Some(v) => self.as_map().contains_key(key@) && v@ == self.as_map()[key@],
                None => !self.as_map().contains_key(key@),
            },
    {
        let mut i: usize = self.entries.len();
        proof {
            assert(self.entries@.take(self.entries@.len() as int) =~= self.entries@);
        }
        while i > 0
            invariant
                i <= self.entries@.len(),
                to_map(self.entries@).contains_key(key@) <==> to_map(
                    self.entries@.take(i as int),
                ).contains_key(key@),
                to_map(self.entries@).contains_key(key@) ==> to_map(self.entries@)[key@]
                    == to_map(self.entries@.take(i as int))[key@],
            decreases i,
        {
            proof {
                assert(self.entries@.take(i as int).drop_last() =~= self.entries@.take(i - 1));
                assert(self.entries@.take(i as int).last() == self.entries@[i - 1]);
            }
            if bytes_eq(&self.entries[i - 1].0, key) {
                return Some(&self.entries[i - 1].1);
            }
            i = i - 1;
        }
        proof {
            assert(self.entries@.take(0) =~= Seq::<(Vec<u8>, Vec<u8>)>::empty());
        }
        None
    }

    /// Bind `key` to `value`, shadowing any earlier binding.
    pub fn set(&mut self, key: &Vec<u8>, value: &Vec<u8>)
        ensures
            final(self).as_map() == old(self).as_map().insert(key@, value@),
    {
        let entry = (copy_bytes(key), copy_bytes(value));
        self.entries.push(entry);
        proof {
            assert(self.entries@.drop_last() =~= old(self).entries@);
        }
    }
}

/// One guarded publication, exactly as the runtime does it: empty key or
/// empty value is a no-op; without `overwrite` an existing binding is kept;
/// otherwise the binding is written.
pub open spec fn spec_set_env(
    env: Map<Seq<u8>, Seq<u8>>,
    key: Seq<u8>,
    value: Seq<u8>,
    overwrite: bool,
) -> Map<Seq<u8>, Seq<u8>> {
    if key.len() == 0 || value.len() == 0 {
        env
    } else if !overwrite && env.contains_key(key) {
        env
    } else {
        env.insert(key, value)
    }
}

/// Publish `value` under `key` into `env` under the guard rules.
pub fn set_env_var(env: &mut EnvMap, key: &Vec<u8>, value: &Vec<u8>, overwrite: bool)
    ensures
        final (env).as_map() == spec_set_env(old(env).as_map(), key@, value@, overwrite),
{
    if key.len() == 0 || value.len() == 0 {
        return ;
    }
    if !overwrite && env.contains(key) {
        return ;
    }
    env.set(key, value);
}

/// A value template with the credential and base URL substituted for their
/// placeholders.
pub open spec fn spec_subst(t: Seq<u8>, api_key: Seq<u8>, base: Seq<u8>) -> Seq<u8> {
    let p1 = ("{api_key}").spec_bytes();
    let p2 = ("{api_base}").spec_bytes();
    let s1 = if p1.len() > 0 {
        spec_replace_all(t, p1, api_key)
    } else {
        t
    };
    if p2.len() > 0 {
        spec_replace_all(s1, p2, base)
    } else {
        s1
    }
}

/// Substitute the placeholders of a value template.
pub fn subst_template(t: &Vec<u8>, api_key: &Vec<u8>, base: &Vec<u8>) -> (r: Vec<u8>)
    ensures
        r@ == spec_subst(t@, api_key@, base@),
{
    let p1 = crate::text::bs("{api_key}");
    let p2 = crate::text::bs("{api_base}");
    let s1 = if p1.len() > 0 {
        replace_all(t, &p1, api_key)
    } else {
        copy_bytes(t)
    };
    if p2.len() > 0 {
        replace_all(&s1, &p2, base)
    } else {
        s1
    }
}

/// The auxiliary entries published in order, each guarded and never
/// overwriting.
pub open spec fn spec_apply_extras(
    extras: Seq<EnvEntry>,
    api_key: Seq<u8>,
    base: Seq<u8>,
    env: Map<Seq<u8>, Seq<u8>>,
) -> Map<Seq<u8>, Seq<u8>>
    decreases extras.len(),
{
    if extras.len() == 0 {
        env
    } else {
        spec_apply_extras(
            extras.skip(1),
            api_key,
            base,
            spec_set_env(
                env,
                extras[0].key@,
                spec_subst(extras[0].value_template@, api_key, base),
                false,
            ),
        )
    }
}

/// What provisioning leaves in the environment: the credential under the
/// descriptor's key (a gateway overwrites, a vendor yields to an existing
/// value), then the auxiliary entries, never overwriting.
pub open spec fn spec_setup_env(
    cat: Seq<ProviderSpec>,
    gw: Option<int>,
    api_key: Seq<u8>,
    api_base: Option<Seq<u8>>,
    model: Seq<u8>,
    env: Map<Seq<u8>, Seq<u8>>,
) -> Map<Seq<u8>, Seq<u8>>
    recommends
        gw matches Some(g) ==> 0 <= g < cat.len(),
{
    let sel = match gw {
        Some(g) => Some(g),
        None => spec_find_vendor(cat, model),
    };
    match sel {
        None => env,
        Some(s) => {
            let p = cat[s];
            let env1 = spec_set_env(env, p.env_key@, api_key, gw is Some);
            let base = match api_base {
                Some(b) => b,
                None => p.default_api_base@,
            };
            spec_apply_extras(p.env_extras@, api_key, base, env1)
        },
    }
}

impl LiteLLMProvider {
    /// Run the provisioning step for `model` against an explicit
    /// environment.
    pub fn setup_env(&self, model: &Vec<u8>, env: &mut EnvMap)
        requires
            self.wf(),
        ensures
            final (env).as_map() == spec_setup_env(
                self.catalog@,
                self.spec_gateway(),
                self.api_key@,
                match self.api_base {
                    Some(b) => Some(b@),
                    None => None,
                },
                model@,
                old(env).as_map(),
            ),
    {
        let sel: Option<usize> = match self.gateway {
            Some(g) => Some(g),
            None => crate::catalog::find_by_model(&self.catalog, model),
        };
        let s = match sel {
            Some(s) => s,
            None => {
                return ;
            },
        };
        let p = &self.catalog[s];
        set_env_var(env, &p.env_key, &self.api_key, self.gateway.is_some());
        let base = match &self.api_base {
            Some(b) => copy_bytes(b),
            None => copy_bytes(&p.default_api_base),
        };
        let ghost base_view = base@;
        let mut j: usize = 0;
        proof {
            assert(p.env_extras@.skip(0) =~= p.env_extras@);
        }
        while j < p.env_extras.len()
            invariant
                j <= p.env_extras@.len(),
                base@ == base_view,
                spec_setup_env(
                    self.catalog@,
                    self.spec_gateway(),
                    self.api_key@,
                    match self.api_base {
                        Some(b) => Some(b@),
                        None => None,
                    },
                    model@,
                    old(env).as_map(),
                ) == spec_apply_extras(
                    p.env_extras@.skip(j as int),
                    self.api_key@,
                    base_view,
                    env.as_map(),
                ),
            decreases p.env_extras@.len() - j,
        {
            let extra = &p.env_extras[j];
            let value = subst_template(&extra.value_template, &self.api_key, &base);
            proof {
                assert(p.env_extras@.skip(j as int)[0] == p.env_extras@[j as int]);
                assert(p.env_extras@.skip(j as int).skip(1) =~= p.env_extras@.skip(j + 1));
            }
            set_env_var(env, &extra.key, &value, false);
            j = j + 1;
        }
        proof {
            assert(p.env_extras@.skip(p.env_extras@.len() as int) =~= Seq::<EnvEntry>::empty());
        }
    }

    /// The construction-time side effect: provision for the session's
    /// default model, and only when a credential is present at all.
    pub fn provision_env(&self, env: &mut EnvMap)
        requires
            self.wf(),
        ensures
            self.api_key@.len() > 0 ==> final (env).as_map() == spec_setup_env(
                self.catalog@,
                self.spec_gateway(),
                self.api_key@,
                match self.api_base {
                    Some(b) => Some(b@),
                    None => None,
                },
                self.default_model@,
                old(env).as_map(),
            ),
            self.api_key@.len() == 0 ==> *final (env) == *old(env),
    {
        if self.api_key.len() > 0 {
            let model = copy_bytes(&self.default_model);
            self.setup_env(&model, env);
        }
    }
}

/// A guarded publication without `overwrite` keeps every existing binding.
proof fn lemma_set_env_preserves(
    env: Map<Seq<u8>, Seq<u8>>,
    key: Seq<u8>,
    value: Seq<u8>,
    k: Seq<u8>,
)
    requires
        env.contains_key(k),
    ensures
        spec_set_env(env, key, value, false).contains_key(k),
        spec_set_env(env, key, value, false)[k] == env[k],
{
}

/// Auxiliary publication keeps every existing binding.
proof fn lemma_apply_extras_preserves(
    extras: Seq<EnvEntry>,
    api_key: Seq<u8>,
    base: Seq<u8>,
    env: Map<Seq<u8>, Seq<u8>>,
    k: Seq<u8>,
)
    requires
        env.contains_key(k),
    ensures
        spec_apply_extras(extras, api_key, base, env).contains_key(k),
        spec_apply_extras(extras, api_key, base, env)[k] == env[k],
    decreases extras.len(),
{
    if extras.len() > 0 {
        let env1 = spec_set_env(
            env,
            extras[0].key@,
            spec_subst(extras[0].value_template@, api_key, base),
            false,
        );
        lemma_set_env_preserves(
            env,
            extras[0].key@,
            spec_subst(extras[0].value_template@, api_key, base),
            k,
        );
        lemma_apply_extras_preserves(extras.skip(1), api_key, base, env1, k);
    }
}

/// The provisioner never overwrites an existing vendor credential value,
/// but always overwrites when the descriptor is a gateway: without a
/// gateway every pre-existing binding survives provisioning unchanged,
/// while a gateway's non-empty credential lands under its key whatever was
/// there before.
pub proof fn lemma_provision_credential(
    cat: Seq<ProviderSpec>,
    gw: Option<int>,
    api_key: Seq<u8>,
    api_base: Option<Seq<u8>>,
    model: Seq<u8>,
    env0: Map<Seq<u8>, Seq<u8>>,
    k: Seq<u8>,
)
    requires
        gw matches Some(g) ==> 0 <= g < cat.len(),
    ensures
        gw is None && env0.contains_key(k) ==> spec_setup_env(
            cat,
            gw,
            api_key,
            api_base,
            model,
            env0,
        ).contains_key(k) && spec_setup_env(cat, gw, api_key, api_base, model, env0)[k]
            == env0[k],
        (gw matches Some(g) && cat[g].env_key@ == k && k.len() > 0 && api_key.len() > 0)
            ==> spec_setup_env(cat, gw, api_key, api_base, model, env0).contains_key(k)
            && spec_setup_env(cat, gw, api_key, api_base, model, env0)[k] == api_key,
{
    match gw {
        Some(g) => {
            if cat[g].env_key@ == k && k.len() > 0 && api_key.len() > 0 {
                let env1 = spec_set_env(env0, cat[g].env_key@, api_key, true);
                assert(env1[k] == api_key);
                let base = match api_base {
                    Some(b) => b,
                    None => cat[g].default_api_base@,
                };
                lemma_apply_extras_preserves(cat[g].env_extras@, api_key, base, env1, k);
            }
        },
        None => {
            if env0.contains_key(k) {
                match spec_find_vendor(cat, model) {
                    None => {},
                    Some(s) => {
                        crate::catalog::lemma_find_vendor_props(cat, model, 0);
                        let env1 = spec_set_env(env0, cat[s].env_key@, api_key, false);
                        lemma_set_env_preserves(env0, cat[s].env_key@, api_key, k);
                        let base = match api_base {
                            Some(b) => b,
                            None => cat[s].default_api_base@,
                        };
                        lemma_apply_extras_preserves(cat[s].env_extras@, api_key, base, env1, k);
                    },
                }
            }
        },
    }
}

} // verus!
