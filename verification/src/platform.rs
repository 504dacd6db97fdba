//! Local persisted settings and the environment list handed to a new VM.
//!
//! The store holds an optional VM-manager endpoint and an optional list of
//! environment entries with pairwise distinct keys. The engine reads it at
//! the start of a cycle; the configuration commands read and rewrite it.

use vstd::prelude::*;

use crate::manifest::ValidationError;
use crate::reconcile::streq;

verus! {

/// One environment entry delivered to the VM.
pub struct EnvVar {
    pub key: String,
    pub value: String,
}

/// The persisted local settings.
pub struct PlatformConfig {
    pub dstack_vmm_url: Option<String>,
    pub env: Option<Vec<EnvVar>>,
}

/// Whether some entry of `s` carries the key `k`.
pub open spec fn key_found(s: Seq<EnvVar>, k: Seq<char>) -> bool {
    exists|i: int| 0 <= i < s.len() && (#[trigger] s[i]).key@ == k
}

/// The stored environment list; empty when none was configured.
pub open spec fn env_base(c: PlatformConfig) -> Seq<EnvVar> {
    match c.env {
        Option::Some(e) => e@,
        Option::None => Seq::<EnvVar>::empty(),
    }
}

/// A key every new VM can resolve: either the store holds a value for it, or
/// it is the endpoint key, which the engine always supplies.
pub open spec fn resolvable(config: PlatformConfig, k: Seq<char>) -> bool {
    ||| match config.env {
        Option::Some(e) => key_found(e@, k),
        Option::None => false,
    }
    ||| k == "DSTACK_VMM_URL"@
}

impl PlatformConfig {
    /// An empty store: no endpoint override and no environment entries.
    pub fn new() -> (c: PlatformConfig)
        ensures
            c.dstack_vmm_url is None,
            c.env is None,
    {
        PlatformConfig { dstack_vmm_url: Option::None, env: Option::None }
    }

    /// The fallback store used when none can be read: the loopback endpoint
    /// and no environment entries.
    pub fn fallback(url: String) -> (c: PlatformConfig)
        ensures
            c.dstack_vmm_url == Option::Some(url),
            c.env is None,
    {
        PlatformConfig { dstack_vmm_url: Option::Some(url), env: Option::None }
    }

    /// Makes sure the environment list exists, so that an entry can be set.
    pub fn ensure_env_map(&mut self)
        ensures
            final(self).dstack_vmm_url == old(self).dstack_vmm_url,
            final(self).env matches Option::Some(e) && e@ == match old(self).env {
                Option::Some(p) => p@,
                Option::None => Seq::<EnvVar>::empty(),
            },
    {
        if self.env.is_none() {
            self.env = Option::Some(Vec::new());
        }
    }
}

/// Extending a prefix by one entry finds a key exactly when the prefix found
/// it or the new entry carries it.
pub proof fn lemma_key_found_take_step(s: Seq<EnvVar>, j: int, k: Seq<char>)
    requires
        0 <= j < s.len(),
    ensures
        key_found(s.take(j + 1), k) == (key_found(s.take(j), k) || s[j].key@ == k),
{
    if key_found(s.take(j + 1), k) {
        let w = choose|w: int| 0 <= w < j + 1 && (#[trigger] s.take(j + 1)[w]).key@ == k;
        if w < j {
            assert(s.take(j)[w].key@ == k);
        } else {
            assert(s[j].key@ == k);
        }
    }
    if key_found(s.take(j), k) {
        let w = choose|w: int| 0 <= w < j && (#[trigger] s.take(j)[w]).key@ == k;
        assert(s.take(j + 1)[w].key@ == k);
    }
    if s[j].key@ == k {
        assert(s.take(j + 1)[j].key@ == k);
    }
}

/// The endpoint handed to VMs when the store names none.
pub fn default_vmm_url() -> (r: String)
    ensures
        r@ == "http://10.0.2.2:10300/"@,
{
    "http://10.0.2.2:10300/".to_owned()
}

/// The environment list for a new VM: every stored entry first, in stored
/// order, then the VM-manager endpoint entry unless one was stored.
pub fn build_env_vars(config: &PlatformConfig) -> (r: Vec<EnvVar>)
    ensures
        r@.len() >= env_base(*config).len(),
        forall|i: int| 0 <= i < env_base(*config).len() ==> r@[i] == env_base(*config)[i],
        key_found(env_base(*config), "DSTACK_VMM_URL"@) ==> r@ == env_base(*config),
        !key_found(env_base(*config), "DSTACK_VMM_URL"@) ==> r@.len() == env_base(*config).len()
            + 1 && r@.last().key@ == "DSTACK_VMM_URL"@ && r@.last().value@ == match config
            .dstack_vmm_url {
            Option::Some(u) => u@,
            Option::None => "http://10.0.2.2:10300/"@,
        },
        forall|k: Seq<char>| #[trigger] key_found(r@, k) <==> (key_found(env_base(*config), k)
            || k == "DSTACK_VMM_URL"@),
{
    let mut r: Vec<EnvVar> = Vec::new();
    let ghost base = env_base(*config);
    let mut has_url = false;
    match &config.env {
        Option::Some(entries) => {
            let mut i: usize = 0;
            while i < entries.len()
                invariant
                    0 <= i <= entries@.len(),
                    base == entries@,
                    r@ =~= base.take(i as int),
                    has_url == key_found(base.take(i as int), "DSTACK_VMM_URL"@),
                decreases entries@.len() - i,
            {
                let e = EnvVar {
                    key: entries[i].key.clone(),
                    value: entries[i].value.clone(),
                };
                proof {
                    assert(e == entries@[i as int]);
                }
                if streq(e.key.as_str(), "DSTACK_VMM_URL") {
                    has_url = true;
                }
                r.push(e);
                proof {
                    assert(r@ =~= base.take(i + 1));
                    lemma_key_found_take_step(base, i as int, "DSTACK_VMM_URL"@);
                }
                i = i + 1;
            }
            proof {
                assert(base.take(base.len() as int) =~= base);
            }
        },
        Option::None => {},
    }
    if !has_url {
        let url = match &config.dstack_vmm_url {
            Option::Some(u) => u.clone(),
            Option::None => default_vmm_url(),
        };
        let ghost pre = r@;
        r.push(EnvVar { key: "DSTACK_VMM_URL".to_owned(), value: url });
        proof {
            assert(r@.last().key@ == "DSTACK_VMM_URL"@);
            assert forall|k: Seq<char>| #[trigger] key_found(r@, k) implies (key_found(base, k)
                || k == "DSTACK_VMM_URL"@) by {
                let w = choose|w: int| 0 <= w < r@.len() && (#[trigger] r@[w]).key@ == k;
                if w < pre.len() {
                    assert(base[w].key@ == k);
                }
            }
            assert forall|k: Seq<char>| (key_found(base, k) || k == "DSTACK_VMM_URL"@) implies
                #[trigger] key_found(r@, k) by {
                if key_found(base, k) {
                    let w = choose|w: int| 0 <= w < base.len() && (#[trigger] base[w]).key@ == k;
                    assert(r@[w].key@ == k);
                } else {
                    assert(r@.last().key@ == k);
                    assert(r@[r@.len() - 1].key@ == k);
                }
            }
        }
    } else {
        proof {
            assert(r@ == base);
            assert forall|k: Seq<char>| #[trigger] key_found(r@, k) implies (key_found(base, k)
                || k == "DSTACK_VMM_URL"@) by {}
        }
    }
    r
}

/// The required keys among the first `i` that the environment list leaves
/// without a value, in required order and multiplicity.
pub open spec fn missing_prefix(required: Seq<String>, env_vars: Seq<EnvVar>, i: int) -> Seq<
    String,
>
    decreases i,
{
    if i <= 0 {
        Seq::empty()
    } else if key_found(env_vars, required[i - 1]@) {
        missing_prefix(required, env_vars, i - 1)
    } else {
        missing_prefix(required, env_vars, i - 1).push(required[i - 1])
    }
}

/// The required keys that the environment list leaves without a value:
/// exactly the unresolvable ones, in required order and multiplicity.
pub fn check_required_env(required: &Vec<String>, env_vars: &Vec<EnvVar>) -> (missing: Vec<String>)
    ensures
        missing@ == missing_prefix(required@, env_vars@, required@.len() as int),
        forall|i: int| 0 <= i < required@.len() && !key_found(
            env_vars@,
            (#[trigger] required@[i])@,
        ) ==> crate::manifest::contains_string(missing@, required@[i]@),
        forall|j: int| 0 <= j < missing@.len() ==> crate::manifest::contains_string(
            required@,
            (#[trigger] missing@[j])@,
        ) && !key_found(env_vars@, missing@[j]@),
{
    let mut missing: Vec<String> = Vec::new();
    let mut i: usize = 0;
    while i < required.len()
        invariant
            0 <= i <= required@.len(),
            missing@ == missing_prefix(required@, env_vars@, i as int),
            forall|a: int| 0 <= a < i && !key_found(env_vars@, (#[trigger] required@[a])@)
                ==> crate::manifest::contains_string(missing@, required@[a]@),
            forall|j: int| 0 <= j < missing@.len() ==> crate::manifest::contains_string(
                required@,
                (#[trigger] missing@[j])@,
            ) && !key_found(env_vars@, missing@[j]@),
        decreases required@.len() - i,
    {
        let mut found = false;
        let mut j: usize = 0;
        while j < env_vars.len()
            invariant
                0 <= j <= env_vars@.len(),
                0 <= i < required@.len(),
                found == key_found(env_vars@.take(j as int), required@[i as int]@),
            decreases env_vars@.len() - j,
        {
            if streq(env_vars[j].key.as_str(), required[i].as_str()) {
                found = true;
            }
            proof {
                lemma_key_found_take_step(env_vars@, j as int, required@[i as int]@);
            }
            j = j + 1;
        }
        proof {
            assert(env_vars@.take(env_vars@.len() as int) =~= env_vars@);
        }
        let ghost pre_missing = missing@;
        if !found {
            missing.push(required[i].clone());
        }
        proof {
            assert(missing@ == missing_prefix(required@, env_vars@, i + 1));
            assert forall|a: int| 0 <= a < i + 1 && !key_found(
                env_vars@,
                (#[trigger] required@[a])@,
            ) implies crate::manifest::contains_string(missing@, required@[a]@) by {
                if a == i as int {
                    assert(missing@[missing@.len() - 1]@ == required@[a]@);
                } else {
                    let w = choose|w: int|
                        0 <= w < pre_missing.len() && (#[trigger] pre_missing[w])@
                            == required@[a]@;
                    assert(missing@[w]@ == required@[a]@);
                }
            }
            assert forall|j2: int| 0 <= j2 < missing@.len() implies
                crate::manifest::contains_string(required@, (#[trigger] missing@[j2])@)
                && !key_found(env_vars@, missing@[j2]@) by {
                if j2 < pre_missing.len() {
                    assert(missing@[j2] == pre_missing[j2]);
                    let w = choose|w: int|
                        0 <= w < required@.len() && (#[trigger] required@[w])@
                            == pre_missing[j2]@;
                } else {
                    assert(missing@[j2]@ == required@[i as int]@);
                }
            }
        }
        i = i + 1;
    }
    missing
}

/// Checks that every required key is resolvable, and names the missing ones
/// otherwise. No VM action follows a failure here.
pub fn ensure_required_env(required: &Vec<String>, config: &PlatformConfig) -> (r: Result<
    (),
    ValidationError,
>)
    ensures
        r is Ok <==> (forall|i: int| 0 <= i < required@.len() ==> resolvable(
            *config,
            (#[trigger] required@[i])@,
        )),
        r matches Result::Err(e) ==> (e matches ValidationError::MissingEnvValues { keys }
            && keys@.len() > 0 && (forall|j: int| 0 <= j < keys@.len()
            ==> crate::manifest::contains_string(required@, (#[trigger] keys@[j])@)
            && !resolvable(*config, keys@[j]@)) && (forall|i: int|
            0 <= i < required@.len() && !resolvable(*config, (#[trigger] required@[i])@)
                ==> crate::manifest::contains_string(keys@, required@[i]@))),
{
    let env_vars = build_env_vars(config);
    let missing = check_required_env(required, &env_vars);
    proof {
        let base = env_base(*config);
        assert forall|i: int| 0 <= i < required@.len() implies (key_found(
            env_vars@,
            (#[trigger] required@[i])@,
        ) <==> resolvable(*config, required@[i]@)) by {
            assert(key_found(env_vars@, required@[i]@) <==> (key_found(base, required@[i]@)
                || required@[i]@ == "DSTACK_VMM_URL"@));
        }
        assert forall|j: int| 0 <= j < missing@.len() implies !resolvable(
            *config,
            (#[trigger] missing@[j])@,
        ) by {
            assert(!key_found(env_vars@, missing@[j]@));
        }
    }
    if missing.len() == 0 {
        proof {
            assert forall|i: int| 0 <= i < required@.len() implies resolvable(
                *config,
                (#[trigger] required@[i])@,
            ) by {
                if !key_found(env_vars@, required@[i]@) {
                    assert(crate::manifest::contains_string(missing@, required@[i]@));
                    let w = choose|w: int|
                        0 <= w < missing@.len() && (#[trigger] missing@[w])@ == required@[i]@;
                }
            }
        }
        Result::Ok(())
    } else {
        proof {
            let i0 = choose|i0: int|
                0 <= i0 < required@.len() && (#[trigger] required@[i0])@ == missing@[0]@;
            assert forall|i: int| 0 <= i < required@.len() && !resolvable(
                *config,
                (#[trigger] required@[i])@,
            ) implies crate::manifest::contains_string(missing@, required@[i]@) by {
                assert(!key_found(env_vars@, required@[i]@));
            }
        }
        Result::Err(ValidationError::MissingEnvValues { keys: missing })
    }
}

} // verus!
