//! Desired state, the derived application manifest and its whitelist.
//!
//! The manifest is derived from the fetched compose configuration alone; the
//! whitelist of environment keys is the sorted, deduplicated union of the
//! provisioning keys, the fixed required keys and the compose-required keys.
//! Order matters: the whitelist feeds the compose hash.

use vstd::prelude::*;
use vstd::string::StringSliceAdditionalSpecFns;

use crate::json::{dec_bytes, push_decimal, JsonField, JsonValue};
use crate::order::{bytes_eq, bytes_lt, lemma_lex_connex, lex_lt, sbytes};

verus! {

/// Rejections of a desired configuration; each names the first check that
/// failed.
#[derive(Debug)]
pub enum ValidationError {
    NoVcpu,
    NoMemory,
    NoDiskSize,
    MissingEnvValues { keys: Vec<String> },
}

/// One host-to-VM port forward of the desired configuration.
pub struct PortMapping {
    pub protocol: String,
    pub host_port: u16,
    pub vm_port: u16,
    pub host_address: Option<String>,
}

/// Hardware and image parameters of the desired VM.
pub struct VmParameters {
    pub name: Option<String>,
    pub image: String,
    pub vcpu: u32,
    pub memory: u32,
    pub disk_size: u32,
    pub user_config: String,
    pub ports: Vec<PortMapping>,
    pub hugepages: bool,
    pub pin_numa: bool,
    pub stopped: bool,
}

/// Manifest fields the configuration service supplies as defaults.
pub struct ManifestDefaults {
    pub manifest_version: u32,
    pub name: Option<String>,
    pub runner: String,
    pub kms_enabled: bool,
    pub gateway_enabled: bool,
    pub local_key_provider_enabled: bool,
    pub key_provider_id: String,
    pub public_logs: bool,
    pub public_sysinfo: bool,
    pub public_tcbinfo: bool,
    pub no_instance_id: bool,
    pub secure_time: bool,
}

/// Provisioning block of the desired configuration.
pub struct VmProvisioningConfig {
    pub env_keys: Vec<String>,
    pub manifest_defaults: ManifestDefaults,
    pub vm_parameters: VmParameters,
}

/// The desired configuration, one immutable snapshot per fetch.
pub struct ComposeConfig {
    pub vm_type: String,
    pub compose_content: String,
    pub description: Option<String>,
    pub updated_at: String,
    pub required_env: Vec<String>,
    pub provisioning: VmProvisioningConfig,
}

impl Default for PortMapping {
    /// A TCP mapping with both ports unset.
    fn default() -> (d: PortMapping)
        ensures
            d.protocol@ == "tcp"@,
            d.host_port == 0,
            d.vm_port == 0,
            d.host_address is None,
    {
        PortMapping {
            protocol: "tcp".to_owned(),
            host_port: 0,
            vm_port: 0,
            host_address: Option::None,
        }
    }
}

impl Default for VmParameters {
    /// The fallback hardware profile of the managed VM.
    fn default() -> (d: VmParameters)
        ensures
            d.name matches Option::Some(n) && n@ == "validator_vm"@,
            d.image@ == "dstack-0.5.2"@,
            d.vcpu == 16,
            d.memory == 16384,
            d.disk_size == 200,
            d.user_config@ == Seq::<char>::empty(),
            d.ports@.len() == 0,
            !d.hugepages,
            !d.pin_numa,
            !d.stopped,
    {
        VmParameters {
            name: Option::Some("validator_vm".to_owned()),
            image: "dstack-0.5.2".to_owned(),
            vcpu: 16,
            memory: 16384,
            disk_size: 200,
            user_config: String::new(),
            ports: Vec::new(),
            hugepages: false,
            pin_numa: false,
            stopped: false,
        }
    }
}

impl Default for ManifestDefaults {
    /// The fallback manifest profile of the managed VM.
    fn default() -> (d: ManifestDefaults)
        ensures
            d.manifest_version == 2,
            d.name matches Option::Some(n) && n@ == "validator_vm"@,
            d.runner@ == "docker-compose"@,
            d.kms_enabled,
            d.gateway_enabled,
            !d.local_key_provider_enabled,
            d.key_provider_id@ == Seq::<char>::empty(),
            d.public_logs,
            d.public_sysinfo,
            d.public_tcbinfo,
            !d.no_instance_id,
            !d.secure_time,
    {
        ManifestDefaults {
            manifest_version: 2,
            name: Option::Some("validator_vm".to_owned()),
            runner: "docker-compose".to_owned(),
            kms_enabled: true,
            gateway_enabled: true,
            local_key_provider_enabled: false,
            key_provider_id: String::new(),
            public_logs: true,
            public_sysinfo: true,
            public_tcbinfo: true,
            no_instance_id: false,
            secure_time: false,
        }
    }
}

impl Default for VmProvisioningConfig {
    /// No extra keys, fallback manifest defaults and hardware profile.
    fn default() -> (d: VmProvisioningConfig)
        ensures
            d.env_keys@.len() == 0,
    {
        VmProvisioningConfig {
            env_keys: Vec::new(),
            manifest_defaults: Default::default(),
            vm_parameters: Default::default(),
        }
    }
}

/// Checks the hardware invariants: at least one vCPU, memory and disk size
/// both positive. The first violated check names the error.
pub fn validate_vm_parameters(params: &VmParameters) -> (r: Result<(), ValidationError>)
    ensures
        r is Ok <==> params.vcpu > 0 && params.memory > 0 && params.disk_size > 0,
        params.vcpu == 0 ==> (r matches Result::Err(e) && e is NoVcpu),
        params.vcpu > 0 && params.memory == 0 ==> (r matches Result::Err(e) && e is NoMemory),
        params.vcpu > 0 && params.memory > 0 && params.disk_size == 0 ==> (r matches Result::Err(
            e,
        ) && e is NoDiskSize),
{
    if params.vcpu == 0 {
        return Result::Err(ValidationError::NoVcpu);
    }
    if params.memory == 0 {
        return Result::Err(ValidationError::NoMemory);
    }
    if params.disk_size == 0 {
        return Result::Err(ValidationError::NoDiskSize);
    }
    Result::Ok(())
}

/// The VM's name: the parameter name when present and non-empty, else the
/// compose `vm_type`.
pub fn resolve_vm_name(param_name: &Option<String>, vm_type: &str) -> (r: String)
    ensures
        r@ == match param_name {
            Option::Some(n) => if n@.len() > 0 {
                n@
            } else {
                vm_type@
            },
            Option::None => vm_type@,
        },
{
    match param_name {
        Option::Some(n) => {
            if !n.as_str().is_empty() {
                n.clone()
            } else {
                vm_type.to_owned()
            }
        },
        Option::None => vm_type.to_owned(),
    }
}

/// The UTF-8 bytes of a string value, as a fresh vector.
pub fn str_to_bytes(s: &str) -> (r: Vec<u8>)
    ensures
        r@ == s.spec_bytes(),
{
    vstd::slice::slice_to_vec(s.as_bytes())
}

/// Whether the view of `s` stands somewhere in `v`.
pub open spec fn contains_string(v: Seq<String>, s: Seq<char>) -> bool {
    exists|i: int| 0 <= i < v.len() && v[i]@ == s
}

/// Inserts `s` into the byte-lexicographically sorted `out`, unless a string
/// with the same content already stands there.
#[verifier::loop_isolation(false)]
fn insert_string_sorted(out: &mut Vec<String>, s: String)
    requires
        forall|i: int, j: int| 0 <= i < j < old(out)@.len() ==> lex_lt(
            sbytes(#[trigger] old(out)@[i]),
            sbytes(#[trigger] old(out)@[j]),
        ),
    ensures
        forall|i: int, j: int| 0 <= i < j < final(out)@.len() ==> lex_lt(
            sbytes(#[trigger] final(out)@[i]),
            sbytes(#[trigger] final(out)@[j]),
        ),
        contains_string(final(out)@, s@),
        forall|k: Seq<char>| contains_string(old(out)@, k) ==> #[trigger] contains_string(
            final(out)@,
            k,
        ),
        forall|j: int| 0 <= j < final(out)@.len() ==> (#[trigger] final(out)@[j])@ == s@
            || contains_string(old(out)@, final(out)@[j]@),
{
    let n = out.len();
    let mut m: usize = 0;
    while m < n && !bytes_lt(s.as_str().as_bytes(), out[m].as_str().as_bytes())
        invariant
            0 <= m <= n,
            forall|j: int| 0 <= j < m ==> lex_lt(sbytes(#[trigger] out@[j]), sbytes(s)),
        decreases n - m,
    {
        if bytes_eq(s.as_str().as_bytes(), out[m].as_str().as_bytes()) {
            proof {
                vstd::utf8::encode_utf8_decode_utf8(s@);
                vstd::utf8::encode_utf8_decode_utf8(out@[m as int]@);
                assert(vstd::utf8::encode_utf8(s@) == vstd::utf8::encode_utf8(out@[m as int]@));
                assert(s@ == out@[m as int]@);
                assert(contains_string(out@, s@));
            }
            return ;
        }
        proof {
            if !lex_lt(sbytes(out@[m as int]), sbytes(s)) {
                lemma_lex_connex(sbytes(s), sbytes(out@[m as int]));
                vstd::utf8::encode_utf8_decode_utf8(s@);
                vstd::utf8::encode_utf8_decode_utf8(out@[m as int]@);
                assert(sbytes(s) == sbytes(out@[m as int]));
                assert(s@ == out@[m as int]@);
                assert(false);
            }
        }
        m = m + 1;
    }
    let ghost pre = out@;
    let ghost sk = s@;
    let ghost sb = sbytes(s);
    let ghost mm = m as int;
    proof {
        assert(forall|j: int| 0 <= j < mm ==> lex_lt(sbytes(#[trigger] pre[j]), sb));
        assert(mm < pre.len() ==> lex_lt(sb, sbytes(pre[mm])));
    }
    out.insert(m, s);
    proof {
        assert(out@ == pre.insert(mm, s));
        assert forall|i: int, j: int| 0 <= i < j < out@.len() implies lex_lt(
            sbytes(#[trigger] out@[i]),
            sbytes(#[trigger] out@[j]),
        ) by {
            if i < mm && j == mm {
            } else if i == mm && j > mm {
                if j - 1 > mm {
                    crate::order::lemma_lex_trans(sb, sbytes(pre[mm]), sbytes(pre[j - 1]));
                }
            } else if i < mm && j > mm {
                if mm < j - 1 {
                    crate::order::lemma_lex_trans(
                        sbytes(pre[i]),
                        sbytes(pre[mm]),
                        sbytes(pre[j - 1]),
                    );
                }
            }
        }
        assert(out@[mm] == s);
        assert(contains_string(out@, sk));
        assert forall|k: Seq<char>| contains_string(pre, k) implies #[trigger] contains_string(
            out@,
            k,
        ) by {
            let i0 = choose|i0: int| 0 <= i0 < pre.len() && (#[trigger] pre[i0])@ == k;
            if i0 < mm {
                assert(out@[i0] == pre[i0]);
            } else {
                assert(out@[i0 + 1] == pre[i0]);
            }
        }
        assert forall|j: int| 0 <= j < out@.len() implies (#[trigger] out@[j])@ == sk
            || contains_string(pre, out@[j]@) by {
            if j != mm {
                let jj: int = if j < mm {
                    j
                } else {
                    j - 1
                };
                assert(out@[j] == pre[jj]);
            }
        }
    }
}

/// The fixed keys every deployment needs: the VM-manager endpoint and the
/// two domain secrets.
pub fn fixed_required_keys() -> (r: Vec<String>)
    ensures
        r@.len() == 3,
        r@[0]@ == "DSTACK_VMM_URL"@,
        r@[1]@ == "HOTKEY_PASSPHRASE"@,
        r@[2]@ == "VALIDATOR_BASE_URL"@,
{
    let mut r: Vec<String> = Vec::new();
    r.push("DSTACK_VMM_URL".to_owned());
    r.push("HOTKEY_PASSPHRASE".to_owned());
    r.push("VALIDATOR_BASE_URL".to_owned());
    r
}

/// Builds the allowed-environment whitelist: the union of the provisioning
/// keys, the fixed required keys and the compose-required keys, sorted by
/// UTF-8 bytes, without duplicates.
#[verifier::loop_isolation(false)]
pub fn build_allowed_envs(env_keys: &Vec<String>, required_env: &Vec<String>) -> (r: Vec<String>)
    ensures
        forall|i: int, j: int| 0 <= i < j < r@.len() ==> lex_lt(
            sbytes(#[trigger] r@[i]),
            sbytes(#[trigger] r@[j]),
        ),
        forall|i: int, j: int| 0 <= i < j < r@.len() ==> (#[trigger] r@[i])@ != (
        #[trigger] r@[j])@,
        forall|i: int| 0 <= i < env_keys@.len() ==> contains_string(
            r@,
            (#[trigger] env_keys@[i])@,
        ),
        forall|i: int| 0 <= i < required_env@.len() ==> contains_string(
            r@,
            (#[trigger] required_env@[i])@,
        ),
        contains_string(r@, "DSTACK_VMM_URL"@),
        contains_string(r@, "HOTKEY_PASSPHRASE"@),
        contains_string(r@, "VALIDATOR_BASE_URL"@),
        forall|j: int| 0 <= j < r@.len() ==> contains_string(env_keys@, (#[trigger] r@[j])@)
            || contains_string(required_env@, r@[j]@) || r@[j]@ == "DSTACK_VMM_URL"@ || r@[j]@
            == "HOTKEY_PASSPHRASE"@ || r@[j]@ == "VALIDATOR_BASE_URL"@,
{
    let mut r: Vec<String> = Vec::new();
    let mut i: usize = 0;
    while i < env_keys.len()
        invariant
            0 <= i <= env_keys@.len(),
            forall|a: int, b: int| 0 <= a < b < r@.len() ==> lex_lt(
                sbytes(#[trigger] r@[a]),
                sbytes(#[trigger] r@[b]),
            ),
            forall|a: int| 0 <= a < i ==> contains_string(r@, (#[trigger] env_keys@[a])@),
            forall|j: int| 0 <= j < r@.len() ==> contains_string(
                env_keys@,
                (#[trigger] r@[j])@,
            ),
        decreases env_keys@.len() - i,
    {
        insert_string_sorted(&mut r, env_keys[i].clone());
        i = i + 1;
    }
    let fixed = fixed_required_keys();
    let mut i: usize = 0;
    while i < fixed.len()
        invariant
            0 <= i <= fixed@.len(),
            forall|a: int, b: int| 0 <= a < b < r@.len() ==> lex_lt(
                sbytes(#[trigger] r@[a]),
                sbytes(#[trigger] r@[b]),
            ),
            forall|a: int| 0 <= a < env_keys@.len() ==> contains_string(
                r@,
                (#[trigger] env_keys@[a])@,
            ),
            forall|a: int| 0 <= a < i ==> contains_string(r@, (#[trigger] fixed@[a])@),
            forall|j: int| 0 <= j < r@.len() ==> contains_string(env_keys@, (#[trigger] r@[j])@)
                || contains_string(fixed@, r@[j]@),
        decreases fixed@.len() - i,
    {
        insert_string_sorted(&mut r, fixed[i].clone());
        i = i + 1;
    }
    let mut i: usize = 0;
    while i < required_env.len()
        invariant
            0 <= i <= required_env@.len(),
            forall|a: int, b: int| 0 <= a < b < r@.len() ==> lex_lt(
                sbytes(#[trigger] r@[a]),
                sbytes(#[trigger] r@[b]),
            ),
            forall|a: int| 0 <= a < env_keys@.len() ==> contains_string(
                r@,
                (#[trigger] env_keys@[a])@,
            ),
            forall|a: int| 0 <= a < fixed@.len() ==> contains_string(r@, (#[trigger] fixed@[a])@),
            forall|a: int| 0 <= a < i ==> contains_string(r@, (#[trigger] required_env@[a])@),
            forall|j: int| 0 <= j < r@.len() ==> contains_string(env_keys@, (#[trigger] r@[j])@)
                || contains_string(fixed@, r@[j]@) || contains_string(required_env@, r@[j]@),
        decreases required_env@.len() - i,
    {
        insert_string_sorted(&mut r, required_env[i].clone());
        i = i + 1;
    }
    proof {
        assert forall|a: int, b: int| 0 <= a < b < r@.len() implies (#[trigger] r@[a])@ != (
        #[trigger] r@[b])@ by {
            if r@[a]@ == r@[b]@ {
                crate::order::lemma_lex_irrefl(sbytes(r@[a]));
            }
        }
        assert(contains_string(fixed@, "DSTACK_VMM_URL"@));
        assert(contains_string(fixed@, "HOTKEY_PASSPHRASE"@));
        assert(contains_string(fixed@, "VALIDATOR_BASE_URL"@));
        assert forall|j: int| 0 <= j < r@.len() implies contains_string(
            env_keys@,
            (#[trigger] r@[j])@,
        ) || contains_string(required_env@, r@[j]@) || r@[j]@ == "DSTACK_VMM_URL"@ || r@[j]@
            == "HOTKEY_PASSPHRASE"@ || r@[j]@ == "VALIDATOR_BASE_URL"@ by {
            if contains_string(fixed@, r@[j]@) {
                let i0 = choose|i0: int| 0 <= i0 < fixed@.len() && (#[trigger] fixed@[i0])@
                    == r@[j]@;
            }
        }
    }
    r
}

/// A manifest member holding a string value.
fn str_field(key: &str, value: &str) -> (f: JsonField)
    ensures
        f.key@ == key.spec_bytes(),
        f.value matches JsonValue::Str(s) && s@ == value.spec_bytes(),
{
    JsonField { key: str_to_bytes(key), value: JsonValue::Str(str_to_bytes(value)) }
}

/// A manifest member holding a boolean value.
fn bool_field(key: &str, value: bool) -> (f: JsonField)
    ensures
        f.key@ == key.spec_bytes(),
        f.value == JsonValue::Bool(value),
{
    JsonField { key: str_to_bytes(key), value: JsonValue::Bool(value) }
}

/// A manifest member holding an unsigned number.
fn num_field(key: &str, value: u64) -> (f: JsonField)
    ensures
        f.key@ == key.spec_bytes(),
        f.value matches JsonValue::Num(d) && d@ == dec_bytes(value as nat),
{
    let mut d: Vec<u8> = Vec::new();
    push_decimal(value, &mut d);
    JsonField { key: str_to_bytes(key), value: JsonValue::Num(d) }
}

/// The derived application manifest as a JSON document. Its serialization is
/// the compose file handed to the VM manager, and its canonical form is what
/// the compose hash is computed over.
pub fn build_app_manifest(
    compose_content: &str,
    defaults: &ManifestDefaults,
    vm_name: &str,
    allowed_envs: &Vec<String>,
) -> (r: JsonValue)
    ensures
        r is Obj,
        r->Obj_0@.len() == 14,
        r->Obj_0@[0].key@ == "manifest_version".spec_bytes(),
        r->Obj_0@[0].value matches JsonValue::Num(d) && d@ == dec_bytes(
            defaults.manifest_version as nat,
        ),
        r->Obj_0@[1].key@ == "name".spec_bytes(),
        r->Obj_0@[1].value matches JsonValue::Str(s) && s@ == match defaults.name {
            Option::Some(n) => vstd::utf8::encode_utf8(n@),
            Option::None => vm_name.spec_bytes(),
        },
        r->Obj_0@[2].key@ == "runner".spec_bytes(),
        r->Obj_0@[2].value matches JsonValue::Str(s) && s@ == vstd::utf8::encode_utf8(defaults.runner@),
        r->Obj_0@[3].key@ == "docker_compose_file".spec_bytes(),
        r->Obj_0@[3].value matches JsonValue::Str(s) && s@ == compose_content.spec_bytes(),
        r->Obj_0@[4].key@ == "kms_enabled".spec_bytes(),
        r->Obj_0@[4].value == JsonValue::Bool(defaults.kms_enabled),
        r->Obj_0@[5].key@ == "gateway_enabled".spec_bytes(),
        r->Obj_0@[5].value == JsonValue::Bool(defaults.gateway_enabled),
        r->Obj_0@[6].key@ == "local_key_provider_enabled".spec_bytes(),
        r->Obj_0@[6].value == JsonValue::Bool(defaults.local_key_provider_enabled),
        r->Obj_0@[7].key@ == "key_provider_id".spec_bytes(),
        r->Obj_0@[7].value matches JsonValue::Str(s) && s@
            == vstd::utf8::encode_utf8(defaults.key_provider_id@),
        r->Obj_0@[8].key@ == "public_logs".spec_bytes(),
        r->Obj_0@[8].value == JsonValue::Bool(defaults.public_logs),
        r->Obj_0@[9].key@ == "public_sysinfo".spec_bytes(),
        r->Obj_0@[9].value == JsonValue::Bool(defaults.public_sysinfo),
        r->Obj_0@[10].key@ == "public_tcbinfo".spec_bytes(),
        r->Obj_0@[10].value == JsonValue::Bool(defaults.public_tcbinfo),
        r->Obj_0@[11].key@ == "allowed_envs".spec_bytes(),
        r->Obj_0@[11].value matches JsonValue::Arr(envs) && envs@.len() == allowed_envs@.len()
            && (forall|i: int| 0 <= i < envs@.len() ==> ((#[trigger] envs@[i]) is Str) && (
        envs@[i]->Str_0@ == sbytes(allowed_envs@[i]))),
        r->Obj_0@[12].key@ == "no_instance_id".spec_bytes(),
        r->Obj_0@[12].value == JsonValue::Bool(defaults.no_instance_id),
        r->Obj_0@[13].key@ == "secure_time".spec_bytes(),
        r->Obj_0@[13].value == JsonValue::Bool(defaults.secure_time),
{
    let name: &str = match &defaults.name {
        Option::Some(n) => n.as_str(),
        Option::None => vm_name,
    };
    let mut envs: Vec<JsonValue> = Vec::new();
    let mut i: usize = 0;
    while i < allowed_envs.len()
        invariant
            0 <= i <= allowed_envs@.len(),
            envs@.len() == i,
            forall|j: int| 0 <= j < i ==> ((#[trigger] envs@[j]) is Str) && (envs@[j]->Str_0@
                == sbytes(allowed_envs@[j])),
        decreases allowed_envs@.len() - i,
    {
        let b = str_to_bytes(allowed_envs[i].as_str());
        proof {
            assert(b@ == sbytes(allowed_envs@[i as int]));
        }
        let ghost pre_envs = envs@;
        let ghost bb = b@;
        envs.push(JsonValue::Str(b));
        proof {
            assert forall|j: int| 0 <= j < i + 1 implies ((#[trigger] envs@[j]) is Str)
                && (envs@[j]->Str_0@ == sbytes(allowed_envs@[j])) by {
                if j == i as int {
                    assert(envs@[j] is Str && envs@[j]->Str_0@ == bb);
                    assert(bb == sbytes(allowed_envs@[j]));
                } else {
                    assert(envs@[j] == pre_envs[j]);
                    assert(pre_envs[j] is Str && pre_envs[j]->Str_0@ == sbytes(
                        allowed_envs@[j],
                    ));
                }
            };
        }
        i = i + 1;
    }
    let mut fields: Vec<JsonField> = Vec::new();
    fields.push(num_field("manifest_version", defaults.manifest_version as u64));
    fields.push(str_field("name", name));
    fields.push(str_field("runner", defaults.runner.as_str()));
    fields.push(str_field("docker_compose_file", compose_content));
    fields.push(bool_field("kms_enabled", defaults.kms_enabled));
    fields.push(bool_field("gateway_enabled", defaults.gateway_enabled));
    fields.push(bool_field("local_key_provider_enabled", defaults.local_key_provider_enabled));
    fields.push(str_field("key_provider_id", defaults.key_provider_id.as_str()));
    fields.push(bool_field("public_logs", defaults.public_logs));
    fields.push(bool_field("public_sysinfo", defaults.public_sysinfo));
    fields.push(bool_field("public_tcbinfo", defaults.public_tcbinfo));
    fields.push(JsonField { key: str_to_bytes("allowed_envs"), value: JsonValue::Arr(envs) });
    fields.push(bool_field("no_instance_id", defaults.no_instance_id));
    fields.push(bool_field("secure_time", defaults.secure_time));
    JsonValue::Obj(fields)
}

} // verus!
