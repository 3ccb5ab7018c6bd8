//! Node agent configuration: the operator's identity, chain endpoints, AI
//! backend settings and hardware description, with its validation rules
//! and the default profile a fresh installation starts from. Reading and
//! writing the TOML file is the host program's job.

use vstd::prelude::*;

use crate::errors::ErrorKind;

verus! {

/// The operator's identity and network presence.
pub struct NodeSettings {
    pub account_id: String,
    pub private_key: String,
    pub public_ip: String,
    pub api_port: u16,
    /// Stake in whole tokens, as a decimal string (for example "1.0").
    pub stake_amount: String,
}

/// Connection details for the coordinator chain.
pub struct NearConfig {
    pub network_id: String,
    pub contract_account_id: String,
    pub rpc_url: String,
    pub wallet_url: String,
    pub explorer_url: String,
}

/// AI backend settings.
pub struct AiConfig {
    pub python_path: String,
    pub models_cache_dir: String,
    pub max_model_size_gb: u64,
    pub huggingface_token: Option<String>,
    pub supported_frameworks: Vec<String>,
}

/// The machine's advertised hardware.
pub struct HardwareConfig {
    pub gpu_specs: String,
    pub cpu_specs: String,
    pub memory_gb: u64,
    pub storage_gb: u64,
    pub max_concurrent_tasks: u32,
}

/// The node agent's full configuration.
pub struct NodeConfig {
    pub node: NodeSettings,
    pub near: NearConfig,
    pub ai: AiConfig,
    pub hardware: HardwareConfig,
}

impl NodeConfig {
    /// The configuration is usable: account, key, IP, contract account and
    /// Python path are all present.
    pub fn validate(&self) -> (r: Result<(), ErrorKind>)
        ensures
            r is Ok <==> self.node.account_id@.len() > 0 && self.node.private_key@.len() > 0
                && self.node.public_ip@.len() > 0 && self.near.contract_account_id@.len() > 0
                && self.ai.python_path@.len() > 0,
            r is Err ==> r->Err_0 == ErrorKind::BadRequest,
    {
        if self.node.account_id.as_str().is_empty() {
            return Err(ErrorKind::BadRequest);
        }
        if self.node.private_key.as_str().is_empty() {
            return Err(ErrorKind::BadRequest);
        }
        if self.node.public_ip.as_str().is_empty() {
            return Err(ErrorKind::BadRequest);
        }
        if self.near.contract_account_id.as_str().is_empty() {
            return Err(ErrorKind::BadRequest);
        }
        if self.ai.python_path.as_str().is_empty() {
            return Err(ErrorKind::BadRequest);
        }
        Ok(())
    }

    /// The profile a fresh installation starts from; the host writes it to
    /// disk as the initial configuration file.
    pub fn create_default() -> (r: NodeConfig)
        ensures
            r.node.account_id@ == "your-node.testnet"@,
            r.node.public_ip@ == "127.0.0.1"@,
            r.node.api_port == 8080,
            r.node.stake_amount@ == "1.0"@,
            r.near.network_id@ == "testnet"@,
            r.near.contract_account_id@ == "deai-compute.testnet"@,
            r.ai.python_path@ == "/usr/bin/python3"@,
            r.ai.max_model_size_gb == 10,
            r.ai.huggingface_token is None,
            r.ai.supported_frameworks@.len() == 3,
            r.hardware.memory_gb == 32,
            r.hardware.storage_gb == 1000,
            r.hardware.max_concurrent_tasks == 2,
    {
        let mut frameworks: Vec<String> = Vec::new();
        frameworks.push("pytorch".to_owned());
        frameworks.push("tensorflow".to_owned());
        frameworks.push("transformers".to_owned());
        NodeConfig {
            node: NodeSettings {
                account_id: "your-node.testnet".to_owned(),
                private_key: "YOUR_PRIVATE_KEY_HERE".to_owned(),
                public_ip: "127.0.0.1".to_owned(),
                api_port: 8080,
                stake_amount: "1.0".to_owned(),
            },
            near: NearConfig {
                network_id: "testnet".to_owned(),
                contract_account_id: "deai-compute.testnet".to_owned(),
                rpc_url: "https://rpc.testnet.near.org".to_owned(),
                wallet_url: "https://testnet.mynearwallet.com".to_owned(),
                explorer_url: "https://testnet.nearblocks.io".to_owned(),
            },
            ai: AiConfig {
                python_path: "/usr/bin/python3".to_owned(),
                models_cache_dir: "./models_cache".to_owned(),
                max_model_size_gb: 10,
                huggingface_token: None,
                supported_frameworks: frameworks,
            },
            hardware: HardwareConfig {
                gpu_specs: "NVIDIA RTX 4090".to_owned(),
                cpu_specs: "Intel i9-13900K".to_owned(),
                memory_gb: 32,
                storage_gb: 1000,
                max_concurrent_tasks: 2,
            },
        }
    }
}

/// An exact copy of an optional string.
fn copy_opt_string(o: &Option<String>) -> (r: Option<String>)
    ensures
        crate::types::opt_view(r) == crate::types::opt_view(*o),
{
    match o {
        Some(s) => Some(s.clone()),
        None => None,
    }
}

/// An exact copy of a string list.
fn copy_strings(v: &Vec<String>) -> (r: Vec<String>)
    ensures
        r@.len() == v@.len(),
        forall|i: int| 0 <= i < v@.len() ==> (#[trigger] r@[i])@ == v@[i]@,
{
    let n = v.len();
    let mut out: Vec<String> = Vec::new();
    let mut k: usize = 0;
    while k < n
        invariant
            n == v@.len(),
            0 <= k <= n,
            out@.len() == k,
            forall|i: int| 0 <= i < k ==> (#[trigger] out@[i])@ == v@[i]@,
        decreases n - k,
    {
        out.push(v[k].clone());
        k = k + 1;
    }
    out
}

impl Clone for NodeConfig {
    /// A copy that preserves every setting.
    fn clone(&self) -> (res: Self)
        ensures
            res.node.account_id@ == self.node.account_id@,
            res.node.private_key@ == self.node.private_key@,
            res.node.public_ip@ == self.node.public_ip@,
            res.node.api_port == self.node.api_port,
            res.node.stake_amount@ == self.node.stake_amount@,
            res.near.contract_account_id@ == self.near.contract_account_id@,
            res.ai.python_path@ == self.ai.python_path@,
            res.hardware.gpu_specs@ == self.hardware.gpu_specs@,
            res.hardware.cpu_specs@ == self.hardware.cpu_specs@,
            res.hardware.max_concurrent_tasks == self.hardware.max_concurrent_tasks,
    {
        NodeConfig {
            node: NodeSettings {
                account_id: self.node.account_id.clone(),
                private_key: self.node.private_key.clone(),
                public_ip: self.node.public_ip.clone(),
                api_port: self.node.api_port,
                stake_amount: self.node.stake_amount.clone(),
            },
            near: NearConfig {
                network_id: self.near.network_id.clone(),
                contract_account_id: self.near.contract_account_id.clone(),
                rpc_url: self.near.rpc_url.clone(),
                wallet_url: self.near.wallet_url.clone(),
                explorer_url: self.near.explorer_url.clone(),
            },
            ai: AiConfig {
                python_path: self.ai.python_path.clone(),
                models_cache_dir: self.ai.models_cache_dir.clone(),
                max_model_size_gb: self.ai.max_model_size_gb,
                huggingface_token: copy_opt_string(&self.ai.huggingface_token),
                supported_frameworks: copy_strings(&self.ai.supported_frameworks),
            },
            hardware: HardwareConfig {
                gpu_specs: self.hardware.gpu_specs.clone(),
                cpu_specs: self.hardware.cpu_specs.clone(),
                memory_gb: self.hardware.memory_gb,
                storage_gb: self.hardware.storage_gb,
                max_concurrent_tasks: self.hardware.max_concurrent_tasks,
            },
        }
    }
}

} // verus!
