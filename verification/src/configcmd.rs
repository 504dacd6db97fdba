//! The configuration commands: view and edit the persisted local settings.
//!
//! Each command maps one store snapshot to the next and says whether the
//! result must be written back. Printing and file handling stay with the
//! caller; a failed command changes nothing and names its reason.

use vstd::prelude::*;

use crate::platform::{key_found, EnvVar, PlatformConfig};
use crate::reconcile::streq;

verus! {

/// The settings commands.
pub enum ConfigCommands {
    Show,
    SetVmmUrl { url: String },
    SetEnv { key: String, value: String },
    RemoveEnv { key: String },
    ListEnv,
    GetEnv { key: String },
}

/// Why a settings command failed; the command exits non-zero with a message.
#[derive(Debug)]
pub enum ConfigCmdError {
    KeyNotFound { key: String },
    NoEnvConfigured,
}

/// What a successful command asks of the caller.
pub struct CommandOutcome {
    pub save_needed: bool,
    pub value: Option<String>,
}

/// The entries among the first `i` whose key is not `key`, in stored order
/// with their values untouched.
pub open spec fn env_without(entries: Seq<EnvVar>, key: Seq<char>, i: int) -> Seq<EnvVar>
    decreases i,
{
    if i <= 0 {
        Seq::empty()
    } else if entries[i - 1].key@ == key {
        env_without(entries, key, i - 1)
    } else {
        env_without(entries, key, i - 1).push(entries[i - 1])
    }
}

/// An entry of `entries` carries `k` with value `v`.
pub open spec fn entry_with(entries: Seq<EnvVar>, k: Seq<char>, v: Seq<char>) -> bool {
    exists|j: int| 0 <= j < entries.len() && (#[trigger] entries[j]).key@ == k && entries[j].value@
        == v
}

/// The entries of `entries` whose key is not `key`, in order, with whether
/// any entry carried `key`. Every other key keeps its presence.
fn without_key(entries: &Vec<EnvVar>, key: &str) -> (out: (Vec<EnvVar>, bool))
    ensures
        out.1 == key_found(entries@, key@),
        out.0@ == env_without(entries@, key@, entries@.len() as int),
        forall|j: int| 0 <= j < out.0@.len() ==> (#[trigger] out.0@[j]).key@ != key@,
        forall|k2: Seq<char>| k2 != key@ ==> (#[trigger] key_found(out.0@, k2) <==> key_found(
            entries@,
            k2,
        )),
{
    let mut kept: Vec<EnvVar> = Vec::new();
    let mut found = false;
    let mut i: usize = 0;
    while i < entries.len()
        invariant
            0 <= i <= entries@.len(),
            found == key_found(entries@.take(i as int), key@),
            kept@ == env_without(entries@, key@, i as int),
            forall|j: int| 0 <= j < kept@.len() ==> (#[trigger] kept@[j]).key@ != key@,
            forall|k2: Seq<char>| k2 != key@ ==> (#[trigger] key_found(kept@, k2) <==> key_found(
                entries@.take(i as int),
                k2,
            )),
        decreases entries@.len() - i,
    {
        let ghost pre = kept@;
        if streq(entries[i].key.as_str(), key) {
            found = true;
        } else {
            kept.push(
                EnvVar { key: entries[i].key.clone(), value: entries[i].value.clone() },
            );
            proof {
                assert(kept@[kept@.len() - 1] == entries@[i as int]);
            }
        }
        proof {
            crate::platform::lemma_key_found_take_step(entries@, i as int, key@);
            assert(kept@ == env_without(entries@, key@, i + 1));
            assert forall|k2: Seq<char>| k2 != key@ implies (#[trigger] key_found(kept@, k2) <==>
            key_found(entries@.take(i + 1), k2)) by {
                crate::platform::lemma_key_found_take_step(entries@, i as int, k2);
                if key_found(kept@, k2) {
                    let w = choose|w: int| 0 <= w < kept@.len() && (#[trigger] kept@[w]).key@
                        == k2;
                    if w < pre.len() {
                        assert(key_found(pre, k2));
                    }
                }
                if key_found(pre, k2) {
                    let w = choose|w: int| 0 <= w < pre.len() && (#[trigger] pre[w]).key@ == k2;
                    assert(kept@[w].key@ == k2);
                }
            }
        }
        i = i + 1;
    }
    proof {
        assert(entries@.take(entries@.len() as int) =~= entries@);
    }
    (kept, found)
}

/// The value of the first entry carrying `key`, cloned.
pub fn env_get(entries: &Vec<EnvVar>, key: &str) -> (r: Option<String>)
    ensures
        match r {
            Option::Some(v) => entry_with(entries@, key@, v@),
            Option::None => !key_found(entries@, key@),
        },
{
    let mut i: usize = 0;
    while i < entries.len()
        invariant
            0 <= i <= entries@.len(),
            !key_found(entries@.take(i as int), key@),
        decreases entries@.len() - i,
    {
        if streq(entries[i].key.as_str(), key) {
            let v = entries[i].value.clone();
            proof {
                assert((#[trigger] entries@[i as int]).key@ == key@);
            }
            return Option::Some(v);
        }
        proof {
            crate::platform::lemma_key_found_take_step(entries@, i as int, key@);
        }
        i = i + 1;
    }
    proof {
        assert(entries@.take(entries@.len() as int) =~= entries@);
    }
    Option::None
}

/// Applies one command to the store. A failing command leaves the store
/// unchanged; a succeeding editing command reports that a save is due.
pub fn apply_config_command(config: &mut PlatformConfig, cmd: &ConfigCommands) -> (r: Result<
    CommandOutcome,
    ConfigCmdError,
>)
    ensures
        r is Err ==> *final(config) == *old(config),
        match *cmd {
            ConfigCommands::Show | ConfigCommands::ListEnv => (r matches Result::Ok(o)
                && *final(config) == *old(config) && !o.save_needed && o.value is None),
            ConfigCommands::SetVmmUrl { ref url } => (r matches Result::Ok(o) && o.save_needed
                && final(config).dstack_vmm_url == Option::Some(*url)
                && final(config).env == old(config).env),
            ConfigCommands::SetEnv { ref key, ref value } => (r matches Result::Ok(o)
                && o.save_needed && final(config).dstack_vmm_url == old(config).dstack_vmm_url
                && (final(config).env matches Option::Some(e) && e@ == env_without(
                crate::platform::env_base(*old(config)),
                key@,
                crate::platform::env_base(*old(config)).len() as int,
            ).push(EnvVar { key: *key, value: *value }) && e@.last().key@ == key@
                && e@.last().value@ == value@ && (forall|j: int|
                0 <= j < e@.len() - 1 ==> (#[trigger] e@[j]).key@ != key@) && (forall|
                k2: Seq<char>,
            | k2 != key@ ==> (#[trigger] key_found(e@, k2) <==> (old(
                config,
            ).env matches Option::Some(p) && key_found(p@, k2)))))),
            ConfigCommands::RemoveEnv { ref key } => match old(config).env {
                Option::None => (r matches Result::Err(e) && e is NoEnvConfigured),
                Option::Some(p) => {
                    if key_found(p@, key@) {
                        (r matches Result::Ok(o) && o.save_needed
                            && final(config).dstack_vmm_url == old(config).dstack_vmm_url
                            && (final(config).env matches Option::Some(e) && e@ == env_without(
                            p@,
                            key@,
                            p@.len() as int,
                        ) && !key_found(e@, key@) && (forall|k2: Seq<char>|
                            k2 != key@ ==> (#[trigger] key_found(e@, k2) <==> key_found(
                                p@,
                                k2,
                            )))))
                    } else {
                        (r matches Result::Err(e) && (e matches ConfigCmdError::KeyNotFound {
                            key: k,
                        } && k@ == key@))
                    }
                },
            },
            ConfigCommands::GetEnv { ref key } => match old(config).env {
                Option::None => (r matches Result::Err(e) && (e
                    matches ConfigCmdError::KeyNotFound { key: k } && k@ == key@)),
                Option::Some(p) => {
                    if key_found(p@, key@) {
                        (r matches Result::Ok(o) && !o.save_needed
                            && *final(config) == *old(config)
                            && (o.value matches Option::Some(v) && entry_with(p@, key@, v@)))
                    } else {
                        (r matches Result::Err(e) && (e matches ConfigCmdError::KeyNotFound {
                            key: k,
                        } && k@ == key@))
                    }
                },
            },
        },
{
    match cmd {
        ConfigCommands::Show => Result::Ok(
            CommandOutcome { save_needed: false, value: Option::None },
        ),
        ConfigCommands::ListEnv => Result::Ok(
            CommandOutcome { save_needed: false, value: Option::None },
        ),
        ConfigCommands::SetVmmUrl { url } => {
            config.dstack_vmm_url = Option::Some(url.clone());
            Result::Ok(CommandOutcome { save_needed: true, value: Option::None })
        },
        ConfigCommands::SetEnv { key, value } => {
            let entries: Vec<EnvVar> = match &config.env {
                Option::Some(e) => without_key(e, key.as_str()).0,
                Option::None => Vec::new(),
            };
            let mut entries = entries;
            let ghost kept = entries@;
            entries.push(EnvVar { key: key.clone(), value: value.clone() });
            proof {
                assert(entries@.last().key@ == key@);
                assert forall|k2: Seq<char>| k2 != key@ implies (#[trigger] key_found(
                    entries@,
                    k2,
                ) <==> key_found(kept, k2)) by {
                    if key_found(entries@, k2) {
                        let w = choose|w: int|
                            0 <= w < entries@.len() && (#[trigger] entries@[w]).key@ == k2;
                        if w < kept.len() {
                            assert(key_found(kept, k2));
                        }
                    }
                    if key_found(kept, k2) {
                        let w = choose|w: int|
                            0 <= w < kept.len() && (#[trigger] kept[w]).key@ == k2;
                        assert(entries@[w].key@ == k2);
                    }
                }
            }
            config.env = Option::Some(entries);
            Result::Ok(CommandOutcome { save_needed: true, value: Option::None })
        },
        ConfigCommands::RemoveEnv { key } => {
            match &config.env {
                Option::Some(e) => {
                    let (kept, found) = without_key(e, key.as_str());
                    if found {
                        proof {
                            if key_found(kept@, key@) {
                                let w = choose|w: int|
                                    0 <= w < kept@.len() && (#[trigger] kept@[w]).key@ == key@;
                            }
                            assert(!key_found(kept@, key@));
                        }
                        config.env = Option::Some(kept);
                        Result::Ok(CommandOutcome { save_needed: true, value: Option::None })
                    } else {
                        Result::Err(ConfigCmdError::KeyNotFound { key: key.clone() })
                    }
                },
                Option::None => Result::Err(ConfigCmdError::NoEnvConfigured),
            }
        },
        ConfigCommands::GetEnv { key } => {
            match &config.env {
                Option::Some(e) => {
                    match env_get(e, key.as_str()) {
                        Option::Some(v) => Result::Ok(
                            CommandOutcome { save_needed: false, value: Option::Some(v) },
                        ),
                        Option::None => Result::Err(
                            ConfigCmdError::KeyNotFound { key: key.clone() },
                        ),
                    }
                },
                Option::None => Result::Err(ConfigCmdError::KeyNotFound { key: key.clone() }),
            }
        },
    }
}

} // verus!
