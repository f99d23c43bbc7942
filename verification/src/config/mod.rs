//! The sdkm configuration: key names, value types and validation, and the
//! configuration model with its read, write and delete operations.
//!
//! Reading the file, writing it atomically and rolling back after a failed
//! write happen at the edge of the program; the changes themselves are made
//! here, on the in-memory configuration.

pub mod keys;
pub mod snapshot;
pub mod validation;

pub use keys::{ConfigKey, SdkField, known_keys, parse_config_key};
pub use snapshot::ConfigSnapshot;
pub use validation::{KeyMeta, ValidatedValue, ValueType, field_type, key_meta, mask_by_type, mask_token, validate_by_type};

use vstd::prelude::*;
use crate::config::keys::{KeyModel, key_text};
use crate::config::validation::{ValueModel, is_masked_token, masked_token, value_text};
use crate::order::{is_permutation, is_stable_order, is_stable_sort_of, key_views, lemma_permutation_covers, stable_sort_by_keys};
use crate::text::{append_str, bool_string, bool_text, chars_of, decimal, decimal_string, lemma_parse_decimal_u32, parse_u32, parse_u32_spec, str_eq};
use crate::version::discovery::{clone_opt, opt_text};

verus! {

// ───────────────────────── the configuration ─────────────────────────

/// `[network]` settings.
#[derive(Debug, Clone)]
pub struct NetworkConfig {
    /// Proxy URL, such as `http://127.0.0.1:7890`.
    pub proxy: Option<String>,
    /// Verify TLS certificates.
    pub ssl_verify: bool,
    /// Connect timeout in seconds.
    pub connect_timeout: u32,
    /// How long cached version listings stay fresh, in seconds.
    pub cache_ttl_secs: u32,
    /// GitHub access token (raises the API rate limit).
    pub github_token: Option<String>,
}

/// The cache time to live used when the file does not set one: an hour.
pub fn default_cache_ttl_secs() -> (r: u32)
    ensures
        r == 3600,
{
    3600
}

impl Default for NetworkConfig {
    fn default() -> (r: Self)
        ensures
            r.proxy is None,
            r.ssl_verify,
            r.connect_timeout == 30,
            r.cache_ttl_secs == 3600,
            r.github_token is None,
    {
        NetworkConfig { proxy: None, ssl_verify: true, connect_timeout: 30, cache_ttl_secs: default_cache_ttl_secs(), github_token: None }
    }
}

/// One registered SDK.
#[derive(Debug, Clone)]
pub struct SdkConfig {
    /// Unique name.
    pub name: String,
    /// Primary version discovery URL.
    pub version_url: Option<String>,
    /// Fallback version discovery URL.
    pub version_fallback_url: Option<String>,
    /// Download URL template.
    pub download_url: String,
    /// Fallback download URL template.
    pub download_fallback_url: Option<String>,
    /// The active version.
    pub current_version: Option<String>,
    /// Directory of the binaries inside an SDK; empty: the SDK root.
    pub bin_dir: String,
    /// Extra environment variables (name, value template); names are distinct.
    pub extra_vars: Vec<(String, String)>,
    /// Extra PATH entries relative to the SDK directory.
    pub extra_paths: Vec<String>,
}

/// The whole configuration file.
#[derive(Debug, Clone)]
pub struct SdkmConfig {
    /// The sdkm home (read only).
    pub home_dir: Option<String>,
    /// Where the active-version links live; empty: `<home>/links`.
    pub symlink_dir: String,
    pub network: NetworkConfig,
    pub sdks: Vec<SdkConfig>,
}

// ───────────────────────── models ─────────────────────────

pub struct NetworkModel {
    pub proxy: Option<Seq<char>>,
    pub ssl_verify: bool,
    pub connect_timeout: u32,
    pub cache_ttl_secs: u32,
    pub github_token: Option<Seq<char>>,
}

pub struct SdkModel {
    pub name: Seq<char>,
    pub version_url: Option<Seq<char>>,
    pub version_fallback_url: Option<Seq<char>>,
    pub download_url: Seq<char>,
    pub download_fallback_url: Option<Seq<char>>,
    pub current_version: Option<Seq<char>>,
    pub bin_dir: Seq<char>,
    pub extra_vars: Seq<(Seq<char>, Seq<char>)>,
    pub extra_paths: Seq<Seq<char>>,
}

pub struct ConfigModel {
    pub home_dir: Option<Seq<char>>,
    pub symlink_dir: Seq<char>,
    pub network: NetworkModel,
    pub sdks: Seq<SdkModel>,
}

/// The text pairs of a list of string pairs.
pub open spec fn pair_texts(vs: Seq<(String, String)>) -> Seq<(Seq<char>, Seq<char>)> {
    vs.map_values(|p: (String, String)| (p.0@, p.1@))
}

/// The texts of a list of strings.
pub open spec fn string_texts(vs: Seq<String>) -> Seq<Seq<char>> {
    vs.map_values(|s: String| s@)
}

impl View for NetworkConfig {
    type V = NetworkModel;

    open spec fn view(&self) -> NetworkModel {
        NetworkModel {
            proxy: opt_text(self.proxy),
            ssl_verify: self.ssl_verify,
            connect_timeout: self.connect_timeout,
            cache_ttl_secs: self.cache_ttl_secs,
            github_token: opt_text(self.github_token),
        }
    }
}

impl View for SdkConfig {
    type V = SdkModel;

    open spec fn view(&self) -> SdkModel {
        SdkModel {
            name: self.name@,
            version_url: opt_text(self.version_url),
            version_fallback_url: opt_text(self.version_fallback_url),
            download_url: self.download_url@,
            download_fallback_url: opt_text(self.download_fallback_url),
            current_version: opt_text(self.current_version),
            bin_dir: self.bin_dir@,
            extra_vars: pair_texts(self.extra_vars@),
            extra_paths: string_texts(self.extra_paths@),
        }
    }
}

/// The models of a list of SDK entries.
pub open spec fn sdk_models(sdks: Seq<SdkConfig>) -> Seq<SdkModel> {
    sdks.map_values(|s: SdkConfig| s@)
}

impl View for SdkmConfig {
    type V = ConfigModel;

    open spec fn view(&self) -> ConfigModel {
        ConfigModel {
            home_dir: opt_text(self.home_dir),
            symlink_dir: self.symlink_dir@,
            network: self.network@,
            sdks: sdk_models(self.sdks@),
        }
    }
}

/// No two extra variables share a name.
pub open spec fn distinct_vars(vs: Seq<(Seq<char>, Seq<char>)>) -> bool {
    forall|i: int, j: int| 0 <= i < j < vs.len() ==> #[trigger] vs[i].0 != #[trigger] vs[j].0
}

/// Every SDK entry's extra variables have distinct names (they form a map).
pub open spec fn config_wf(c: ConfigModel) -> bool {
    forall|i: int| 0 <= i < c.sdks.len() ==> distinct_vars(#[trigger] c.sdks[i].extra_vars)
}

impl SdkConfig {
    /// A new SDK entry with a version URL, a download URL template and a bin
    /// directory (empty: binaries in the SDK root), and nothing else set.
    pub fn new(name: String, version_url: String, download_url: String, bin_dir: String) -> (s: SdkConfig)
        ensures
            s@ == (SdkModel {
                name: name@,
                version_url: Some(version_url@),
                version_fallback_url: None,
                download_url: download_url@,
                download_fallback_url: None,
                current_version: None,
                bin_dir: bin_dir@,
                extra_vars: Seq::empty(),
                extra_paths: Seq::empty(),
            }),
    {
        let s = SdkConfig {
            name,
            version_url: Some(version_url),
            version_fallback_url: None,
            download_url,
            download_fallback_url: None,
            current_version: None,
            bin_dir,
            extra_vars: Vec::new(),
            extra_paths: Vec::new(),
        };
        assert(pair_texts(s.extra_vars@) =~= Seq::empty());
        assert(string_texts(s.extra_paths@) =~= Seq::empty());
        s
    }
}

// ───────────────────────── lookups ─────────────────────────

/// The position of the first SDK entry called `name` (`sdks.len()` when none is).
pub open spec fn sdk_pos(sdks: Seq<SdkModel>, name: Seq<char>) -> int
    decreases sdks.len(),
{
    if sdks.len() == 0 {
        0
    } else if sdks[0].name == name {
        0
    } else {
        1 + sdk_pos(sdks.drop_first(), name)
    }
}

proof fn lemma_sdk_pos(sdks: Seq<SdkModel>, name: Seq<char>, k: int)
    requires
        0 <= k <= sdks.len(),
        forall|j: int| 0 <= j < k ==> sdks[j].name != name,
        k == sdks.len() || sdks[k].name == name,
    ensures
        sdk_pos(sdks, name) == k,
    decreases k,
{
    if k > 0 {
        let u = sdks.drop_first();
        assert forall|j: int| 0 <= j < k - 1 implies u[j].name != name by {
            assert(u[j] == sdks[j + 1]);
        }
        if k < sdks.len() {
            assert(u[k - 1] == sdks[k]);
        }
        lemma_sdk_pos(u, name, k - 1);
    }
}

/// The position of the variable `key` among extra variables (`vs.len()` when absent).
pub open spec fn var_pos(vs: Seq<(Seq<char>, Seq<char>)>, key: Seq<char>) -> int
    decreases vs.len(),
{
    if vs.len() == 0 {
        0
    } else if vs[0].0 == key {
        0
    } else {
        1 + var_pos(vs.drop_first(), key)
    }
}

proof fn lemma_var_pos(vs: Seq<(Seq<char>, Seq<char>)>, key: Seq<char>, k: int)
    requires
        0 <= k <= vs.len(),
        forall|j: int| 0 <= j < k ==> vs[j].0 != key,
        k == vs.len() || vs[k].0 == key,
    ensures
        var_pos(vs, key) == k,
    decreases k,
{
    if k > 0 {
        let u = vs.drop_first();
        assert forall|j: int| 0 <= j < k - 1 implies u[j].0 != key by {
            assert(u[j] == vs[j + 1]);
        }
        if k < vs.len() {
            assert(u[k - 1] == vs[k]);
        }
        lemma_var_pos(u, key, k - 1);
    }
}

/// A configuration failure.
pub enum ConfigError {
    /// No SDK entry with this name.
    SdkNotFound { name: String },
    /// The key may not be deleted (its display text).
    NotDeletable { key: String },
    /// An SDK entry with this name exists already.
    SdkExists { name: String },
    /// Built-in SDK entries cannot be removed.
    BuiltinNotRemovable { name: String },
    /// The SDK is not registered.
    Unregistered { name: String },
}

/// The message of a configuration error.
pub open spec fn config_error_text(e: ConfigError) -> Seq<char> {
    match e {
        ConfigError::SdkNotFound { name } => "SDK '"@ + name@ + "' not found in config."@,
        ConfigError::NotDeletable { key } => "Cannot delete config key '"@ + key@
            + "'. It is a required field or belongs to a built-in SDK.\nUse `sdkm config set "@ + key@
            + " <value>` to modify it instead."@,
        ConfigError::SdkExists { name } => "SDK '"@ + name@ + "' already exists in config. Use `sdkm config set sdk."@
            + name@ + ".xxx <value>` to modify it."@,
        ConfigError::BuiltinNotRemovable { name } => "Cannot remove built-in SDK '"@ + name@
            + "'. Use `sdkm config set` to modify its fields."@,
        ConfigError::Unregistered { name } => "Unregistered SDK:`"@ + name@ + "` please check config!"@,
    }
}

impl ConfigError {
    /// The error message.
    pub fn message(&self) -> (m: String)
        ensures
            m@ == config_error_text(*self),
    {
        let mut m = String::new();
        match self {
            ConfigError::SdkNotFound { name } => {
                append_str(&mut m, "SDK '");
                append_str(&mut m, name.as_str());
                append_str(&mut m, "' not found in config.");
            },
            ConfigError::NotDeletable { key } => {
                append_str(&mut m, "Cannot delete config key '");
                append_str(&mut m, key.as_str());
                append_str(&mut m, "'. It is a required field or belongs to a built-in SDK.\nUse `sdkm config set ");
                append_str(&mut m, key.as_str());
                append_str(&mut m, " <value>` to modify it instead.");
            },
            ConfigError::SdkExists { name } => {
                append_str(&mut m, "SDK '");
                append_str(&mut m, name.as_str());
                append_str(&mut m, "' already exists in config. Use `sdkm config set sdk.");
                append_str(&mut m, name.as_str());
                append_str(&mut m, ".xxx <value>` to modify it.");
            },
            ConfigError::BuiltinNotRemovable { name } => {
                append_str(&mut m, "Cannot remove built-in SDK '");
                append_str(&mut m, name.as_str());
                append_str(&mut m, "'. Use `sdkm config set` to modify its fields.");
            },
            ConfigError::Unregistered { name } => {
                append_str(&mut m, "Unregistered SDK:`");
                append_str(&mut m, name.as_str());
                append_str(&mut m, "` please check config!");
            },
        }
        m
    }
}

/// The built-in SDKs: java, maven, node, python.
pub open spec fn is_builtin_name(name: Seq<char>) -> bool {
    name == "java"@ || name == "maven"@ || name == "node"@ || name == "python"@
}


/// The text of an optional value, empty when unset.
pub open spec fn or_empty(o: Option<Seq<char>>) -> Seq<char> {
    match o {
        Some(s) => s,
        None => Seq::<char>::empty(),
    }
}

/// The stored text of an SDK field.
pub open spec fn field_text(s: SdkModel, f: SdkField) -> Seq<char> {
    match f {
        SdkField::VersionUrl => or_empty(s.version_url),
        SdkField::VersionFallbackUrl => or_empty(s.version_fallback_url),
        SdkField::DownloadUrl => s.download_url,
        SdkField::DownloadFallbackUrl => or_empty(s.download_fallback_url),
        SdkField::CurrentVersion => or_empty(s.current_version),
        SdkField::BinDir => s.bin_dir,
    }
}

/// The value of an extra variable, empty when it is not set.
pub open spec fn var_value(vs: Seq<(Seq<char>, Seq<char>)>, key: Seq<char>) -> Seq<char> {
    let i = var_pos(vs, key);
    if i < vs.len() { vs[i].1 } else { Seq::<char>::empty() }
}

/// The extra path at a position, empty past the end.
pub open spec fn path_value(ps: Seq<Seq<char>>, index: nat) -> Seq<char> {
    if index < ps.len() { ps[index as int] } else { Seq::<char>::empty() }
}

/// The stored text of a key; `None` when the key names an SDK that is not registered.
pub open spec fn raw_value(c: ConfigModel, k: KeyModel) -> Option<Seq<char>> {
    match k {
        KeyModel::SymlinkDir => Some(c.symlink_dir),
        KeyModel::NetworkProxy => Some(or_empty(c.network.proxy)),
        KeyModel::NetworkSslVerify => Some(bool_text(c.network.ssl_verify)),
        KeyModel::NetworkConnectTimeout => Some(decimal(c.network.connect_timeout as nat)),
        KeyModel::NetworkCacheTtlSecs => Some(decimal(c.network.cache_ttl_secs as nat)),
        KeyModel::NetworkGithubToken => Some(or_empty(c.network.github_token)),
        KeyModel::Sdk { name, field } => {
            let i = sdk_pos(c.sdks, name);
            if i < c.sdks.len() { Some(field_text(c.sdks[i], field)) } else { None }
        },
        KeyModel::SdkExtraVar { name, var_key } => {
            let i = sdk_pos(c.sdks, name);
            if i < c.sdks.len() { Some(var_value(c.sdks[i].extra_vars, var_key)) } else { None }
        },
        KeyModel::SdkExtraPath { name, index } => {
            let i = sdk_pos(c.sdks, name);
            if i < c.sdks.len() { Some(path_value(c.sdks[i].extra_paths, index)) } else { None }
        },
    }
}

/// The SDK name a key names, if it names one.
pub open spec fn key_sdk_name(k: KeyModel) -> Option<Seq<char>> {
    match k {
        KeyModel::Sdk { name, .. } => Some(name),
        KeyModel::SdkExtraVar { name, .. } => Some(name),
        KeyModel::SdkExtraPath { name, .. } => Some(name),
        _ => None,
    }
}

/// An SDK entry with one field set to the text `v`.
pub open spec fn set_field(s: SdkModel, f: SdkField, v: Seq<char>) -> SdkModel {
    match f {
        SdkField::VersionUrl => SdkModel { version_url: Some(v), ..s },
        SdkField::VersionFallbackUrl => SdkModel { version_fallback_url: Some(v), ..s },
        SdkField::DownloadUrl => SdkModel { download_url: v, ..s },
        SdkField::DownloadFallbackUrl => SdkModel { download_fallback_url: Some(v), ..s },
        SdkField::CurrentVersion => SdkModel { current_version: Some(v), ..s },
        SdkField::BinDir => SdkModel { bin_dir: v, ..s },
    }
}

/// Extra variables with `key` set to `v` (replaced in place, or appended).
pub open spec fn insert_var(vs: Seq<(Seq<char>, Seq<char>)>, key: Seq<char>, v: Seq<char>) -> Seq<(Seq<char>, Seq<char>)> {
    let i = var_pos(vs, key);
    if i < vs.len() { vs.update(i, (key, v)) } else { vs.push((key, v)) }
}

/// The configuration with the SDK entry at `i` replaced.
pub open spec fn with_sdk(c: ConfigModel, i: int, s: SdkModel) -> ConfigModel {
    ConfigModel { sdks: c.sdks.update(i, s), ..c }
}

/// The configuration with the current version of the first SDK entry named
/// `name` replaced by `v`; unchanged when there is no such entry.
pub open spec fn with_current_version(c: ConfigModel, name: Seq<char>, v: Option<Seq<char>>) -> ConfigModel {
    let i = sdk_pos(c.sdks, name);
    if i < c.sdks.len() { with_sdk(c, i, SdkModel { current_version: v, ..c.sdks[i] }) } else { c }
}

/// The current version of the first SDK entry named `name`, if there is one.
pub open spec fn current_version_of(c: ConfigModel, name: Seq<char>) -> Option<Seq<char>> {
    let i = sdk_pos(c.sdks, name);
    if i < c.sdks.len() { c.sdks[i].current_version } else { None }
}

/// The configuration after setting key `k` to the stored text `v`: a
/// boolean is stored as `v == "true"`, a number as `v` parsed (30 for the
/// timeout and 3600 for the cache time when it does not parse); SDK keys
/// change the first entry with that name, if any; an extra path is only
/// replaced at an existing position.
pub open spec fn set_model(c: ConfigModel, k: KeyModel, v: Seq<char>) -> ConfigModel {
    let n = c.network;
    match k {
        KeyModel::SymlinkDir => ConfigModel { symlink_dir: v, ..c },
        KeyModel::NetworkProxy => ConfigModel { network: NetworkModel { proxy: Some(v), ..n }, ..c },
        KeyModel::NetworkSslVerify => ConfigModel { network: NetworkModel { ssl_verify: v == "true"@, ..n }, ..c },
        KeyModel::NetworkConnectTimeout => ConfigModel {
            network: NetworkModel { connect_timeout: match parse_u32_spec(v) { Some(x) => x, None => 30 }, ..n },
            ..c
        },
        KeyModel::NetworkCacheTtlSecs => ConfigModel {
            network: NetworkModel { cache_ttl_secs: match parse_u32_spec(v) { Some(x) => x, None => 3600 }, ..n },
            ..c
        },
        KeyModel::NetworkGithubToken => ConfigModel { network: NetworkModel { github_token: Some(v), ..n }, ..c },
        KeyModel::Sdk { name, field } => {
            let i = sdk_pos(c.sdks, name);
            if i < c.sdks.len() { with_sdk(c, i, set_field(c.sdks[i], field, v)) } else { c }
        },
        KeyModel::SdkExtraVar { name, var_key } => {
            let i = sdk_pos(c.sdks, name);
            if i < c.sdks.len() {
                with_sdk(c, i, SdkModel { extra_vars: insert_var(c.sdks[i].extra_vars, var_key, v), ..c.sdks[i] })
            } else {
                c
            }
        },
        KeyModel::SdkExtraPath { name, index } => {
            let i = sdk_pos(c.sdks, name);
            if i < c.sdks.len() && index < c.sdks[i].extra_paths.len() {
                with_sdk(c, i, SdkModel { extra_paths: c.sdks[i].extra_paths.update(index as int, v), ..c.sdks[i] })
            } else {
                c
            }
        },
    }
}

/// Extra variables without `key`.
pub open spec fn remove_var(vs: Seq<(Seq<char>, Seq<char>)>, key: Seq<char>) -> Seq<(Seq<char>, Seq<char>)> {
    let i = var_pos(vs, key);
    if i < vs.len() { vs.remove(i) } else { vs }
}

/// The configuration after deleting key `k`: optional settings unset, an
/// extra variable removed, an extra path removed (later ones move up); keys
/// that cannot be deleted leave it unchanged.
pub open spec fn delete_model(c: ConfigModel, k: KeyModel) -> ConfigModel {
    let n = c.network;
    match k {
        KeyModel::NetworkProxy => ConfigModel { network: NetworkModel { proxy: None, ..n }, ..c },
        KeyModel::NetworkGithubToken => ConfigModel { network: NetworkModel { github_token: None, ..n }, ..c },
        KeyModel::Sdk { name, field } => {
            let i = sdk_pos(c.sdks, name);
            if i < c.sdks.len() {
                let s = c.sdks[i];
                match field {
                    SdkField::VersionUrl => with_sdk(c, i, SdkModel { version_url: None, ..s }),
                    SdkField::VersionFallbackUrl => with_sdk(c, i, SdkModel { version_fallback_url: None, ..s }),
                    SdkField::DownloadFallbackUrl => with_sdk(c, i, SdkModel { download_fallback_url: None, ..s }),
                    SdkField::CurrentVersion => with_sdk(c, i, SdkModel { current_version: None, ..s }),
                    _ => c,
                }
            } else {
                c
            }
        },
        KeyModel::SdkExtraVar { name, var_key } => {
            let i = sdk_pos(c.sdks, name);
            if i < c.sdks.len() {
                with_sdk(c, i, SdkModel { extra_vars: remove_var(c.sdks[i].extra_vars, var_key), ..c.sdks[i] })
            } else {
                c
            }
        },
        KeyModel::SdkExtraPath { name, index } => {
            let i = sdk_pos(c.sdks, name);
            if i < c.sdks.len() && index < c.sdks[i].extra_paths.len() {
                with_sdk(c, i, SdkModel { extra_paths: c.sdks[i].extra_paths.remove(index as int), ..c.sdks[i] })
            } else {
                c
            }
        },
        _ => c,
    }
}

fn opt_or_empty_string(o: &Option<String>) -> (r: String)
    ensures
        r@ == or_empty(opt_text(*o)),
{
    match o {
        Some(s) => s.clone(),
        None => String::new(),
    }
}

impl SdkmConfig {
    /// Whether an SDK name is built in (java, maven, node, python).
    pub fn is_builtin_sdk(name: &str) -> (r: bool)
        ensures
            r == is_builtin_name(name@),
    {
        str_eq(name, "java") || str_eq(name, "maven") || str_eq(name, "node") || str_eq(name, "python")
    }

    /// The position of the first SDK entry called `name` (the number of entries when none is).
    pub fn sdk_index(&self, name: &str) -> (r: usize)
        ensures
            r as int == sdk_pos(self@.sdks, name@),
            r <= self.sdks@.len(),
    {
        let mut k: usize = 0;
        while k < self.sdks.len() && !str_eq(self.sdks[k].name.as_str(), name)
            invariant
                k <= self.sdks@.len(),
                forall|j: int| 0 <= j < k ==> self@.sdks[j].name != name@,
            decreases self.sdks.len() - k,
        {
            k = k + 1;
        }
        proof {
            lemma_sdk_pos(self@.sdks, name@, k as int);
        }
        k
    }

    /// The first SDK entry called `name`.
    pub fn find_sdk_by_name(&self, name: &str) -> (r: Result<&SdkConfig, ConfigError>)
        ensures
            sdk_pos(self@.sdks, name@) < self@.sdks.len() ==> (r matches Ok(s) && s@ == self@.sdks[sdk_pos(self@.sdks, name@)]),
            sdk_pos(self@.sdks, name@) >= self@.sdks.len() ==> (r matches Err(ConfigError::SdkNotFound { name: n }) && n@ == name@),
    {
        let i = self.sdk_index(name);
        if i < self.sdks.len() {
            Ok(&self.sdks[i])
        } else {
            Err(ConfigError::SdkNotFound { name: String::from_str(name) })
        }
    }

    /// The first SDK entry called `name`, if any.
    pub fn find_sdk(&self, name: &str) -> (r: Option<&SdkConfig>)
        ensures
            sdk_pos(self@.sdks, name@) < self@.sdks.len() ==> (r matches Some(s) && s@ == self@.sdks[sdk_pos(self@.sdks, name@)]),
            sdk_pos(self@.sdks, name@) >= self@.sdks.len() ==> r is None,
    {
        let i = self.sdk_index(name);
        if i < self.sdks.len() {
            Some(&self.sdks[i])
        } else {
            None
        }
    }

    /// The first SDK entry called `name`, or the error that it is not registered.
    pub fn find_sdk_ok(&self, name: &str) -> (r: Result<&SdkConfig, ConfigError>)
        ensures
            sdk_pos(self@.sdks, name@) < self@.sdks.len() ==> (r matches Ok(s) && s@ == self@.sdks[sdk_pos(self@.sdks, name@)]),
            sdk_pos(self@.sdks, name@) >= self@.sdks.len() ==> (r matches Err(ConfigError::Unregistered { name: n }) && n@ == name@),
    {
        match self.find_sdk(name) {
            Some(s) => Ok(s),
            None => Err(ConfigError::Unregistered { name: String::from_str(name) }),
        }
    }

    /// Whether an SDK called `name` is registered.
    pub fn exist_sdk(&self, name: &str) -> (r: bool)
        ensures
            r == (sdk_pos(self@.sdks, name@) < self@.sdks.len()),
    {
        self.sdk_index(name) < self.sdks.len()
    }

    /// The stored text of a key, unmasked.
    pub fn get_raw_value(&self, key: &ConfigKey) -> (r: Result<String, ConfigError>)
        ensures
            match raw_value(self@, key@) {
                Some(t) => r matches Ok(s) && s@ == t,
                None => r matches Err(ConfigError::SdkNotFound { name }) && key_sdk_name(key@) == Some(name@),
            },
    {
        match key {
            ConfigKey::SymlinkDir => Ok(self.symlink_dir.clone()),
            ConfigKey::NetworkProxy => Ok(opt_or_empty_string(&self.network.proxy)),
            ConfigKey::NetworkSslVerify => Ok(bool_string(self.network.ssl_verify)),
            ConfigKey::NetworkConnectTimeout => Ok(decimal_string(self.network.connect_timeout as u64)),
            ConfigKey::NetworkCacheTtlSecs => Ok(decimal_string(self.network.cache_ttl_secs as u64)),
            ConfigKey::NetworkGithubToken => Ok(opt_or_empty_string(&self.network.github_token)),
            ConfigKey::Sdk { name, field } => {
                let sdk = self.find_sdk_by_name(name.as_str())?;
                match field {
                    SdkField::VersionUrl => Ok(opt_or_empty_string(&sdk.version_url)),
                    SdkField::VersionFallbackUrl => Ok(opt_or_empty_string(&sdk.version_fallback_url)),
                    SdkField::DownloadUrl => Ok(sdk.download_url.clone()),
                    SdkField::DownloadFallbackUrl => Ok(opt_or_empty_string(&sdk.download_fallback_url)),
                    SdkField::CurrentVersion => Ok(opt_or_empty_string(&sdk.current_version)),
                    SdkField::BinDir => Ok(sdk.bin_dir.clone()),
                }
            },
            ConfigKey::SdkExtraVar { name, var_key } => {
                let sdk = self.find_sdk_by_name(name.as_str())?;
                let ghost vs = pair_texts(sdk.extra_vars@);
                let mut j: usize = 0;
                while j < sdk.extra_vars.len() && !str_eq(sdk.extra_vars[j].0.as_str(), var_key.as_str())
                    invariant
                        vs == pair_texts(sdk.extra_vars@),
                        j <= sdk.extra_vars@.len(),
                        forall|t: int| 0 <= t < j ==> vs[t].0 != var_key@,
                    decreases sdk.extra_vars.len() - j,
                {
                    j = j + 1;
                }
                proof {
                    lemma_var_pos(vs, var_key@, j as int);
                }
                if j < sdk.extra_vars.len() {
                    Ok(sdk.extra_vars[j].1.clone())
                } else {
                    Ok(String::new())
                }
            },
            ConfigKey::SdkExtraPath { name, index } => {
                let sdk = self.find_sdk_by_name(name.as_str())?;
                if *index < sdk.extra_paths.len() {
                    Ok(sdk.extra_paths[*index].clone())
                } else {
                    Ok(String::new())
                }
            },
        }
    }

    /// The facts about a key; fields of built-in SDKs are never deletable.
    pub fn key_meta_for(&self, key: &ConfigKey) -> (m: KeyMeta)
        ensures
            m.deletable == crate::config::validation::deletable_spec(key@, match key_sdk_name(key@) { Some(n) => is_builtin_name(n), None => false }),
            m.value_type == crate::config::validation::field_type_spec(key@),
            m.default_desc@ == crate::config::validation::default_desc_spec(key@, crate::config::validation::DEFAULT_SYMLINK_DIR@),
    {
        let is_builtin = match key {
            ConfigKey::Sdk { name, .. } => SdkmConfig::is_builtin_sdk(name.as_str()),
            ConfigKey::SdkExtraVar { name, .. } => SdkmConfig::is_builtin_sdk(name.as_str()),
            ConfigKey::SdkExtraPath { name, .. } => SdkmConfig::is_builtin_sdk(name.as_str()),
            _ => false,
        };
        key_meta(key, is_builtin)
    }
}


impl SdkmConfig {
    /// The stored text of a key, masked for display (the GitHub token).
    pub fn get_value(&self, key: &ConfigKey) -> (r: Result<String, ConfigError>)
        ensures
            match raw_value(self@, key@) {
                Some(t) => r matches Ok(s) && crate::config::validation::is_masked_by_type(s@, t, crate::config::validation::field_type_spec(key@)),
                None => r matches Err(ConfigError::SdkNotFound { name }) && key_sdk_name(key@) == Some(name@),
            },
    {
        let ty = field_type(key);
        let raw = self.get_raw_value(key)?;
        Ok(mask_by_type(raw.as_str(), &ty))
    }

    /// Takes the SDK entry at `i` out (to be put back by `put_sdk`).
    fn take_sdk(&mut self, i: usize) -> (sdk: SdkConfig)
        requires
            i < old(self).sdks@.len(),
        ensures
            sdk == old(self).sdks@[i as int],
            final(self).sdks@ == old(self).sdks@.remove(i as int),
            final(self).symlink_dir == old(self).symlink_dir,
            final(self).home_dir == old(self).home_dir,
            final(self).network == old(self).network,
    {
        self.sdks.remove(i)
    }

    /// Puts an SDK entry back at `i`.
    fn put_sdk(&mut self, i: usize, sdk: SdkConfig)
        requires
            i <= old(self).sdks@.len(),
        ensures
            final(self).sdks@ == old(self).sdks@.insert(i as int, sdk),
            final(self).symlink_dir == old(self).symlink_dir,
            final(self).home_dir == old(self).home_dir,
            final(self).network == old(self).network,
    {
        self.sdks.insert(i, sdk);
    }

    /// Sets (or, with `None`, clears) the current version of the first SDK
    /// entry named `name`; without such an entry nothing changes.
    pub fn set_current_version(&mut self, name: &str, version: Option<String>)
        ensures
            final(self)@ == with_current_version(old(self)@, name@, opt_text(version)),
    {
        let i = self.sdk_index(name);
        if i < self.sdks.len() {
            let ghost before = self@;
            let mut sdk = self.take_sdk(i);
            sdk.current_version = version;
            self.put_sdk(i, sdk);
            assert(sdk_models(self.sdks@) =~= before.sdks.update(i as int, sdk@));
        }
    }

    /// Sets the value of an extra variable (replacing it, or appending it).
    fn set_var(sdk: &mut SdkConfig, key: &String, value: String)
        ensures
            final(sdk)@ == (SdkModel { extra_vars: insert_var(old(sdk)@.extra_vars, key@, value@), ..old(sdk)@ }),
    {
        let ghost vs = pair_texts(sdk.extra_vars@);
        let mut j: usize = 0;
        while j < sdk.extra_vars.len() && !str_eq(sdk.extra_vars[j].0.as_str(), key.as_str())
            invariant
                vs == pair_texts(sdk.extra_vars@),
                j <= sdk.extra_vars@.len(),
                forall|t: int| 0 <= t < j ==> vs[t].0 != key@,
            decreases sdk.extra_vars.len() - j,
        {
            j = j + 1;
        }
        proof {
            lemma_var_pos(vs, key@, j as int);
        }
        if j < sdk.extra_vars.len() {
            sdk.extra_vars.set(j, (key.clone(), value));
            assert(pair_texts(sdk.extra_vars@) =~= vs.update(j as int, (key@, value@)));
        } else {
            sdk.extra_vars.push((key.clone(), value));
            assert(pair_texts(sdk.extra_vars@) =~= vs.push((key@, value@)));
        }
    }

    /// Removes an extra variable, if it is set.
    fn unset_var(sdk: &mut SdkConfig, key: &String)
        ensures
            final(sdk)@ == (SdkModel { extra_vars: remove_var(old(sdk)@.extra_vars, key@), ..old(sdk)@ }),
    {
        let ghost vs = pair_texts(sdk.extra_vars@);
        let mut j: usize = 0;
        while j < sdk.extra_vars.len() && !str_eq(sdk.extra_vars[j].0.as_str(), key.as_str())
            invariant
                vs == pair_texts(sdk.extra_vars@),
                j <= sdk.extra_vars@.len(),
                forall|t: int| 0 <= t < j ==> vs[t].0 != key@,
            decreases sdk.extra_vars.len() - j,
        {
            j = j + 1;
        }
        proof {
            lemma_var_pos(vs, key@, j as int);
        }
        if j < sdk.extra_vars.len() {
            sdk.extra_vars.remove(j);
            assert(pair_texts(sdk.extra_vars@) =~= vs.remove(j as int));
        }
    }

    /// Stores a validated value under a key in memory (see `set_model`).
    pub fn apply_set_value(&mut self, key: &ConfigKey, validated: ValidatedValue)
        ensures
            final(self)@ == set_model(old(self)@, key@, value_text(validated@)),
    {
        let value = validated.into_string();
        match key {
            ConfigKey::SymlinkDir => {
                self.symlink_dir = value;
            },
            ConfigKey::NetworkProxy => {
                self.network.proxy = Some(value);
            },
            ConfigKey::NetworkSslVerify => {
                self.network.ssl_verify = str_eq(value.as_str(), "true");
            },
            ConfigKey::NetworkConnectTimeout => {
                let cv = chars_of(value.as_str());
                self.network.connect_timeout = match parse_u32(&cv) {
                    Some(n) => n,
                    None => 30,
                };
            },
            ConfigKey::NetworkCacheTtlSecs => {
                let cv = chars_of(value.as_str());
                self.network.cache_ttl_secs = match parse_u32(&cv) {
                    Some(n) => n,
                    None => 3600,
                };
            },
            ConfigKey::NetworkGithubToken => {
                self.network.github_token = Some(value);
            },
            ConfigKey::Sdk { name, field } => {
                let i = self.sdk_index(name.as_str());
                if i < self.sdks.len() {
                    let ghost before = self@;
                    let mut sdk = self.take_sdk(i);
                    match field {
                        SdkField::VersionUrl => sdk.version_url = Some(value),
                        SdkField::VersionFallbackUrl => sdk.version_fallback_url = Some(value),
                        SdkField::DownloadUrl => sdk.download_url = value,
                        SdkField::DownloadFallbackUrl => sdk.download_fallback_url = Some(value),
                        SdkField::CurrentVersion => sdk.current_version = Some(value),
                        SdkField::BinDir => sdk.bin_dir = value,
                    }
                    self.put_sdk(i, sdk);
                    assert(sdk_models(self.sdks@) =~= before.sdks.update(i as int, sdk@));
                }
            },
            ConfigKey::SdkExtraVar { name, var_key } => {
                let i = self.sdk_index(name.as_str());
                if i < self.sdks.len() {
                    let ghost before = self@;
                    let mut sdk = self.take_sdk(i);
                    SdkmConfig::set_var(&mut sdk, var_key, value);
                    self.put_sdk(i, sdk);
                    assert(sdk_models(self.sdks@) =~= before.sdks.update(i as int, sdk@));
                }
            },
            ConfigKey::SdkExtraPath { name, index } => {
                let i = self.sdk_index(name.as_str());
                if i < self.sdks.len() && *index < self.sdks[i].extra_paths.len() {
                    let ghost before = self@;
                    let mut sdk = self.take_sdk(i);
                    let ghost ps = string_texts(sdk.extra_paths@);
                    sdk.extra_paths.set(*index, value);
                    assert(string_texts(sdk.extra_paths@) =~= ps.update(*index as int, value@));
                    self.put_sdk(i, sdk);
                    assert(sdk_models(self.sdks@) =~= before.sdks.update(i as int, sdk@));
                }
            },
        }
    }

    /// Unsets a key in memory (see `delete_model`).
    pub fn apply_delete_value(&mut self, key: &ConfigKey)
        ensures
            final(self)@ == delete_model(old(self)@, key@),
    {
        match key {
            ConfigKey::NetworkProxy => {
                self.network.proxy = None;
            },
            ConfigKey::NetworkGithubToken => {
                self.network.github_token = None;
            },
            ConfigKey::Sdk { name, field } => {
                let i = self.sdk_index(name.as_str());
                if i < self.sdks.len() {
                    match field {
                        SdkField::DownloadUrl | SdkField::BinDir => {},
                        _ => {
                            let ghost before = self@;
                            let mut sdk = self.take_sdk(i);
                            match field {
                                SdkField::VersionUrl => sdk.version_url = None,
                                SdkField::VersionFallbackUrl => sdk.version_fallback_url = None,
                                SdkField::DownloadFallbackUrl => sdk.download_fallback_url = None,
                                SdkField::CurrentVersion => sdk.current_version = None,
                                _ => {},
                            }
                            self.put_sdk(i, sdk);
                            assert(sdk_models(self.sdks@) =~= before.sdks.update(i as int, sdk@));
                        },
                    }
                }
            },
            ConfigKey::SdkExtraVar { name, var_key } => {
                let i = self.sdk_index(name.as_str());
                if i < self.sdks.len() {
                    let ghost before = self@;
                    let mut sdk = self.take_sdk(i);
                    SdkmConfig::unset_var(&mut sdk, var_key);
                    self.put_sdk(i, sdk);
                    assert(sdk_models(self.sdks@) =~= before.sdks.update(i as int, sdk@));
                }
            },
            ConfigKey::SdkExtraPath { name, index } => {
                let i = self.sdk_index(name.as_str());
                if i < self.sdks.len() && *index < self.sdks[i].extra_paths.len() {
                    let ghost before = self@;
                    let mut sdk = self.take_sdk(i);
                    let ghost ps = string_texts(sdk.extra_paths@);
                    sdk.extra_paths.remove(*index);
                    assert(string_texts(sdk.extra_paths@) =~= ps.remove(*index as int));
                    self.put_sdk(i, sdk);
                    assert(sdk_models(self.sdks@) =~= before.sdks.update(i as int, sdk@));
                }
            },
            _ => {},
        }
    }

    /// The check before deleting a key: its facts when it may be deleted.
    pub fn delete_check(&self, key: &ConfigKey) -> (r: Result<KeyMeta, ConfigError>)
        ensures
            ({
                let deletable = crate::config::validation::deletable_spec(key@, match key_sdk_name(key@) { Some(n) => is_builtin_name(n), None => false });
                &&& (deletable <==> r is Ok)
                &&& (r matches Err(e) ==> e matches ConfigError::NotDeletable { key: k } && k@ == key_text(key@))
            }),
    {
        let meta = self.key_meta_for(key);
        if !meta.deletable {
            return Err(ConfigError::NotDeletable { key: key.display() });
        }
        Ok(meta)
    }

    /// Registers a new SDK entry, unless one with that name exists.
    pub fn add_sdk_entry(&mut self, sdk_config: SdkConfig) -> (r: Result<(), ConfigError>)
        ensures
            sdk_pos(old(self)@.sdks, sdk_config@.name) < old(self)@.sdks.len() <==> r is Err,
            r matches Err(e) ==> (e matches ConfigError::SdkExists { name } && name@ == sdk_config@.name) && final(self)@ == old(self)@,
            r is Ok ==> final(self)@ == (ConfigModel { sdks: old(self)@.sdks.push(sdk_config@), ..old(self)@ }),
    {
        let i = self.sdk_index(sdk_config.name.as_str());
        if i < self.sdks.len() {
            return Err(ConfigError::SdkExists { name: sdk_config.name });
        }
        let ghost before = self@;
        self.sdks.push(sdk_config);
        assert(sdk_models(self.sdks@) =~= before.sdks.push(sdk_config@));
        Ok(())
    }

    /// Removes an SDK entry; built-in SDKs cannot be removed.
    pub fn remove_sdk_entry(&mut self, name: &str) -> (r: Result<(), ConfigError>)
        ensures
            is_builtin_name(name@) ==> (r matches Err(ConfigError::BuiltinNotRemovable { name: n }) && n@ == name@),
            !is_builtin_name(name@) && sdk_pos(old(self)@.sdks, name@) >= old(self)@.sdks.len()
                ==> (r matches Err(ConfigError::SdkNotFound { name: n }) && n@ == name@),
            r is Err ==> final(self)@ == old(self)@,
            r is Ok ==> !is_builtin_name(name@) && sdk_pos(old(self)@.sdks, name@) < old(self)@.sdks.len()
                && final(self)@ == (ConfigModel { sdks: old(self)@.sdks.remove(sdk_pos(old(self)@.sdks, name@)), ..old(self)@ }),
    {
        if SdkmConfig::is_builtin_sdk(name) {
            return Err(ConfigError::BuiltinNotRemovable { name: String::from_str(name) });
        }
        let i = self.sdk_index(name);
        if i >= self.sdks.len() {
            return Err(ConfigError::SdkNotFound { name: String::from_str(name) });
        }
        let ghost before = self@;
        self.sdks.remove(i);
        assert(sdk_models(self.sdks@) =~= before.sdks.remove(i as int));
        Ok(())
    }
}

// ───────────────────────── listing ─────────────────────────

/// The text of an optional value for listing: `(none)` when unset.
pub open spec fn none_text(o: Option<Seq<char>>) -> Seq<char> {
    match o {
        Some(s) => s,
        None => "(none)"@,
    }
}

/// A listed key and its value.
pub type ListEntry = (Seq<char>, Seq<char>);

/// The listing of an SDK entry's extra variables, in stored order.
pub open spec fn var_listing(prefix: Seq<char>, vs: Seq<(Seq<char>, Seq<char>)>) -> Seq<ListEntry> {
    vs.map_values(|kv: (Seq<char>, Seq<char>)| (prefix + ".extra_vars."@ + kv.0, kv.1))
}

/// The listing of an SDK entry's extra paths, numbered from 0.
pub open spec fn path_listing(prefix: Seq<char>, ps: Seq<Seq<char>>) -> Seq<ListEntry> {
    Seq::new(ps.len(), |i: int| (prefix + ".extra_paths."@ + decimal(i as nat), ps[i]))
}

/// The listing of one SDK entry.
pub open spec fn sdk_listing(s: SdkModel) -> Seq<ListEntry> {
    let p = "sdk."@ + s.name;
    seq![
        (p + ".version_url"@, none_text(s.version_url)),
        (p + ".version_fallback_url"@, none_text(s.version_fallback_url)),
        (p + ".download_url"@, s.download_url),
        (p + ".download_fallback_url"@, none_text(s.download_fallback_url)),
        (p + ".current_version"@, none_text(s.current_version)),
        (p + ".bin_dir"@, s.bin_dir),
    ] + var_listing(p, s.extra_vars) + path_listing(p, s.extra_paths)
}

/// The listings of SDK entries, one after the other.
pub open spec fn sdks_listing(ss: Seq<SdkModel>) -> Seq<ListEntry>
    decreases ss.len(),
{
    if ss.len() == 0 {
        Seq::<ListEntry>::empty()
    } else {
        sdks_listing(ss.drop_last()) + sdk_listing(ss.last())
    }
}

/// The listing of the top-level and network settings (`token` is the masked token).
pub open spec fn head_listing(c: ConfigModel, token: Seq<char>) -> Seq<ListEntry> {
    seq![
        ("symlink_dir"@, c.symlink_dir),
        ("network.proxy"@, none_text(c.network.proxy)),
        ("network.ssl_verify"@, bool_text(c.network.ssl_verify)),
        ("network.connect_timeout"@, decimal(c.network.connect_timeout as nat)),
        ("network.cache_ttl_secs"@, decimal(c.network.cache_ttl_secs as nat)),
        ("network.github_token"@, token),
    ]
}

/// How many rows the listing of SDK entries has: six per entry, one per
/// extra variable and one per extra path.
pub open spec fn listing_rows(ss: Seq<SdkModel>) -> int
    decreases ss.len(),
{
    if ss.len() == 0 {
        0
    } else {
        listing_rows(ss.drop_last()) + 6 + ss.last().extra_vars.len() + ss.last().extra_paths.len()
    }
}

proof fn lemma_listing_rows_append(a: Seq<SdkModel>, b: Seq<SdkModel>)
    ensures
        listing_rows(a + b) == listing_rows(a) + listing_rows(b),
    decreases b.len(),
{
    if b.len() == 0 {
        assert(a + b =~= a);
    } else {
        assert((a + b).drop_last() =~= a + b.drop_last());
        lemma_listing_rows_append(a, b.drop_last());
    }
}

proof fn lemma_sdks_listing_len(ss: Seq<SdkModel>)
    ensures
        sdks_listing(ss).len() == listing_rows(ss),
    decreases ss.len(),
{
    if ss.len() > 0 {
        lemma_sdks_listing_len(ss.drop_last());
    }
}

/// Listing the entries in any order gives as many rows.
proof fn lemma_listing_rows_permuted(ss: Seq<SdkModel>, p: Seq<int>)
    requires
        is_permutation(p, ss.len() as int),
    ensures
        listing_rows(pick_sdks(ss, p)) == listing_rows(ss),
    decreases ss.len(),
{
    let n = ss.len() as int;
    if n == 0 {
        assert(pick_sdks(ss, p) =~= Seq::<SdkModel>::empty());
    } else {
        lemma_permutation_covers(p, n, n - 1);
        let k = choose|i: int| 0 <= i < p.len() && p[i] == n - 1;
        let q = p.remove(k);
        assert forall|i: int| 0 <= i < q.len() implies 0 <= #[trigger] q[i] < n - 1 by {
            if i < k {
                assert(q[i] == p[i] && p[i] != p[k]);
            } else {
                assert(q[i] == p[i + 1] && p[k] != p[i + 1]);
            }
        }
        assert forall|i: int, j: int| 0 <= i < j < q.len() implies #[trigger] q[i] != #[trigger] q[j] by {
            let i2 = if i < k { i } else { i + 1 };
            let j2 = if j < k { j } else { j + 1 };
            assert(q[i] == p[i2] && q[j] == p[j2] && i2 < j2);
        }
        let rest = ss.drop_last();
        lemma_listing_rows_permuted(rest, q);
        assert(pick_sdks(rest, q) =~= pick_sdks(ss, q));
        let whole = pick_sdks(ss, p);
        let a = pick_sdks(ss, q).take(k);
        let b = pick_sdks(ss, q).skip(k);
        assert(whole =~= a + seq![ss.last()] + b);
        assert(pick_sdks(ss, q) =~= a + b);
        lemma_listing_rows_append(a + seq![ss.last()], b);
        lemma_listing_rows_append(a, seq![ss.last()]);
        lemma_listing_rows_append(a, b);
        let one = seq![ss.last()];
        assert(one.drop_last() =~= Seq::<SdkModel>::empty());
        assert(listing_rows(Seq::<SdkModel>::empty()) == 0);
        assert(one.last() == ss.last());
        assert(listing_rows(one) == 6 + ss.last().extra_vars.len() + ss.last().extra_paths.len());
        assert(listing_rows(ss) == listing_rows(rest) + 6 + ss.last().extra_vars.len() + ss.last().extra_paths.len());
        assert(listing_rows(whole) == listing_rows(a + one) + listing_rows(b));
    }
}

/// Sort key of a name: its character codes (the order of `String` comparison).
pub open spec fn name_codes(s: Seq<char>) -> Seq<u32> {
    s.map_values(|c: char| c as u32)
}

/// The name keys of SDK entries.
pub open spec fn name_keys(ss: Seq<SdkModel>) -> Seq<Seq<u32>> {
    ss.map_values(|s: SdkModel| name_codes(s.name))
}

/// The entries at the positions `p`.
pub open spec fn pick_sdks(ss: Seq<SdkModel>, p: Seq<int>) -> Seq<SdkModel> {
    p.map_values(|i: int| ss[i])
}

/// `name_codes` of a string.
pub(crate) fn name_key(s: &str) -> (r: Vec<u32>)
    ensures
        r@ == name_codes(s@),
{
    let v = chars_of(s);
    let mut r: Vec<u32> = Vec::new();
    let mut i: usize = 0;
    while i < v.len()
        invariant
            i <= v@.len(),
            v@ == s@,
            r@ == name_codes(s@).take(i as int),
        decreases v.len() - i,
    {
        r.push(v[i] as u32);
        i = i + 1;
        assert(r@ =~= name_codes(s@).take(i as int));
    }
    assert(name_codes(s@).take(v@.len() as int) =~= name_codes(s@));
    r
}

fn none_or(o: &Option<String>) -> (r: String)
    ensures
        r@ == none_text(opt_text(*o)),
{
    match o {
        Some(s) => s.clone(),
        None => String::from_str("(none)"),
    }
}

fn push_entry(entries: &mut Vec<(String, String)>, prefix: &String, suffix: &str, value: String)
    ensures
        pair_texts(final(entries)@) == pair_texts(old(entries)@).push((prefix@ + suffix@, value@)),
{
    let ghost before = pair_texts(entries@);
    let mut k = prefix.clone();
    append_str(&mut k, suffix);
    entries.push((k, value));
    assert(pair_texts(entries@) =~= before.push((prefix@ + suffix@, value@)));
}

/// Appends the listing of one SDK entry.
fn push_sdk_listing(entries: &mut Vec<(String, String)>, sdk: &SdkConfig)
    ensures
        pair_texts(final(entries)@) == pair_texts(old(entries)@) + sdk_listing(sdk@),
{
    let ghost before = pair_texts(entries@);
    let mut prefix = String::from_str("sdk.");
    append_str(&mut prefix, sdk.name.as_str());
    let ghost p = prefix@;
    push_entry(entries, &prefix, ".version_url", none_or(&sdk.version_url));
    push_entry(entries, &prefix, ".version_fallback_url", none_or(&sdk.version_fallback_url));
    push_entry(entries, &prefix, ".download_url", sdk.download_url.clone());
    push_entry(entries, &prefix, ".download_fallback_url", none_or(&sdk.download_fallback_url));
    push_entry(entries, &prefix, ".current_version", none_or(&sdk.current_version));
    push_entry(entries, &prefix, ".bin_dir", sdk.bin_dir.clone());
    let ghost fixed = seq![
        (p + ".version_url"@, none_text(sdk@.version_url)),
        (p + ".version_fallback_url"@, none_text(sdk@.version_fallback_url)),
        (p + ".download_url"@, sdk@.download_url),
        (p + ".download_fallback_url"@, none_text(sdk@.download_fallback_url)),
        (p + ".current_version"@, none_text(sdk@.current_version)),
        (p + ".bin_dir"@, sdk@.bin_dir),
    ];
    assert(pair_texts(entries@) =~= before + fixed);
    let ghost vl = var_listing(p, sdk@.extra_vars);
    let mut j: usize = 0;
    while j < sdk.extra_vars.len()
        invariant
            p == prefix@,
            vl == var_listing(p, sdk@.extra_vars),
            j <= sdk.extra_vars@.len(),
            pair_texts(entries@) == before + fixed + vl.take(j as int),
        decreases sdk.extra_vars.len() - j,
    {
        let ghost mid = pair_texts(entries@);
        let mut k = prefix.clone();
        append_str(&mut k, ".extra_vars.");
        append_str(&mut k, sdk.extra_vars[j].0.as_str());
        entries.push((k, sdk.extra_vars[j].1.clone()));
        assert(pair_texts(entries@) =~= mid.push(vl[j as int]));
        j = j + 1;
        assert(vl.take(j as int) =~= vl.take(j - 1).push(vl[j - 1]));
    }
    assert(vl.take(vl.len() as int) =~= vl);
    let ghost pl = path_listing(p, sdk@.extra_paths);
    let mut t: usize = 0;
    while t < sdk.extra_paths.len()
        invariant
            p == prefix@,
            pl == path_listing(p, sdk@.extra_paths),
            t <= sdk.extra_paths@.len(),
            pair_texts(entries@) == before + fixed + vl + pl.take(t as int),
        decreases sdk.extra_paths.len() - t,
    {
        let ghost mid = pair_texts(entries@);
        let n = decimal_string(t as u64);
        let mut k = prefix.clone();
        append_str(&mut k, ".extra_paths.");
        append_str(&mut k, n.as_str());
        entries.push((k, sdk.extra_paths[t].clone()));
        assert(pair_texts(entries@) =~= mid.push(pl[t as int]));
        t = t + 1;
        assert(pl.take(t as int) =~= pl.take(t - 1).push(pl[t - 1]));
    }
    assert(pl.take(pl.len() as int) =~= pl);
    assert(before + fixed + vl + pl =~= before + sdk_listing(sdk@));
}

impl SdkmConfig {
    /// Every key with its value for display: top-level and network settings
    /// (the token masked), then each SDK entry in name order. The order of
    /// the SDK groups is the stable order of their names, which
    /// `lemma_stable_order_unique` shows to be unique.
    pub fn list_all_values(&self) -> (r: Vec<(String, String)>)
        ensures
            exists|p: Seq<int>| #[trigger] is_stable_order(name_keys(self@.sdks), p, false)
                && pair_texts(r@) == head_listing(self@, masked_token(or_empty(self@.network.github_token)))
                + sdks_listing(pick_sdks(self@.sdks, p)),
            r@.len() == 6 + listing_rows(self@.sdks),
    {
        let mut entries: Vec<(String, String)> = Vec::new();
        entries.push((String::from_str("symlink_dir"), self.symlink_dir.clone()));
        entries.push((String::from_str("network.proxy"), none_or(&self.network.proxy)));
        entries.push((String::from_str("network.ssl_verify"), bool_string(self.network.ssl_verify)));
        entries.push((String::from_str("network.connect_timeout"), decimal_string(self.network.connect_timeout as u64)));
        entries.push((String::from_str("network.cache_ttl_secs"), decimal_string(self.network.cache_ttl_secs as u64)));
        let token = opt_or_empty_string(&self.network.github_token);
        let masked = mask_token(token.as_str());
        entries.push((String::from_str("network.github_token"), masked));
        let ghost tok = masked@;
        let ghost head = head_listing(self@, tok);
        assert(pair_texts(entries@) =~= head);

        let mut keys: Vec<Vec<u32>> = Vec::new();
        let mut idx: Vec<usize> = Vec::new();
        let mut i: usize = 0;
        while i < self.sdks.len()
            invariant
                i <= self.sdks@.len(),
                keys@.len() == i,
                idx@.len() == i,
                forall|j: int| 0 <= j < i ==> (#[trigger] keys@[j])@ == name_codes(self@.sdks[j].name),
                forall|j: int| 0 <= j < i ==> #[trigger] idx@[j] == j,
            decreases self.sdks.len() - i,
        {
            keys.push(name_key(self.sdks[i].name.as_str()));
            idx.push(i);
            i = i + 1;
        }
        let ghost ks = key_views(keys@);
        assert(ks =~= name_keys(self@.sdks));
        let ghost idx0 = idx@;
        let order = stable_sort_by_keys(idx, keys, false);
        let ghost p = choose|p: Seq<int>| #[trigger] is_stable_order(ks, p, false) && forall|t: int| 0 <= t < order@.len() ==> order@[t] == idx0[#[trigger] p[t]];
        assert(is_stable_order(ks, p, false));
        let mut k: usize = 0;
        while k < order.len()
            invariant
                is_stable_order(name_keys(self@.sdks), p, false),
                order@.len() == self.sdks@.len(),
                p.len() == self.sdks@.len(),
                forall|t: int| 0 <= t < order@.len() ==> order@[t] == p[t],
                k <= order@.len(),
                pair_texts(entries@) == head + sdks_listing(pick_sdks(self@.sdks, p.take(k as int))),
            decreases order.len() - k,
        {
            let ghost mid = pair_texts(entries@);
            let j = order[k];
            assert(0 <= p[k as int] < self.sdks@.len());
            push_sdk_listing(&mut entries, &self.sdks[j]);
            assert(pick_sdks(self@.sdks, p.take(k + 1)).drop_last() =~= pick_sdks(self@.sdks, p.take(k as int)));
            assert(pick_sdks(self@.sdks, p.take(k + 1)).last() == self@.sdks[j as int]);
            k = k + 1;
        }
        assert(p.take(p.len() as int) =~= p);
        assert(pair_texts(entries@)[5].1 == tok);
        proof {
            lemma_sdks_listing_len(pick_sdks(self@.sdks, p));
            lemma_listing_rows_permuted(self@.sdks, p);
            assert(pair_texts(entries@).len() == entries@.len());
        }
        entries
    }
}

// ───────────────────────── laws ─────────────────────────

/// A value can be stored under a key of type `ty` and read back: booleans
/// under boolean keys, numbers under number keys, any text elsewhere.
pub open spec fn value_fits(v: ValueModel, ty: ValueType) -> bool {
    match ty {
        ValueType::Bool => v is Bool,
        ValueType::U32 { .. } => v is U32,
        _ => true,
    }
}

/// What validation accepts for a type fits that type.
pub proof fn lemma_validated_fits(raw: Seq<char>, ty: ValueType)
    requires
        crate::config::validation::validate_spec(raw, ty) is Ok,
    ensures
        value_fits(crate::config::validation::validate_spec(raw, ty)->Ok_0, ty),
{
}

proof fn lemma_sdk_pos_update(sdks: Seq<SdkModel>, name: Seq<char>, s: SdkModel)
    requires
        sdk_pos(sdks, name) < sdks.len(),
        s.name == name,
    ensures
        sdk_pos(sdks.update(sdk_pos(sdks, name), s), name) == sdk_pos(sdks, name),
{
    let i = sdk_pos(sdks, name);
    lemma_sdk_pos_props(sdks, name);
    let u = sdks.update(i, s);
    assert forall|j: int| 0 <= j < i implies u[j].name != name by {
        assert(u[j] == sdks[j]);
    }
    lemma_sdk_pos(u, name, i);
}

proof fn lemma_sdk_pos_props(sdks: Seq<SdkModel>, name: Seq<char>)
    ensures
        0 <= sdk_pos(sdks, name) <= sdks.len(),
        forall|j: int| 0 <= j < sdk_pos(sdks, name) ==> sdks[j].name != name,
        sdk_pos(sdks, name) < sdks.len() ==> sdks[sdk_pos(sdks, name)].name == name,
    decreases sdks.len(),
{
    if sdks.len() > 0 && sdks[0].name != name {
        let u = sdks.drop_first();
        lemma_sdk_pos_props(u, name);
        assert forall|j: int| 0 <= j < sdk_pos(sdks, name) implies sdks[j].name != name by {
            if j > 0 {
                assert(sdks[j] == u[j - 1]);
            }
        }
    }
}

proof fn lemma_var_pos_props(vs: Seq<(Seq<char>, Seq<char>)>, key: Seq<char>)
    ensures
        0 <= var_pos(vs, key) <= vs.len(),
        forall|j: int| 0 <= j < var_pos(vs, key) ==> vs[j].0 != key,
        var_pos(vs, key) < vs.len() ==> vs[var_pos(vs, key)].0 == key,
    decreases vs.len(),
{
    if vs.len() > 0 && vs[0].0 != key {
        let u = vs.drop_first();
        lemma_var_pos_props(u, key);
        assert forall|j: int| 0 <= j < var_pos(vs, key) implies vs[j].0 != key by {
            if j > 0 {
                assert(vs[j] == u[j - 1]);
            }
        }
    }
}

/// Setting a variable and reading it gives the value set.
proof fn lemma_insert_var_get(vs: Seq<(Seq<char>, Seq<char>)>, key: Seq<char>, v: Seq<char>)
    ensures
        var_value(insert_var(vs, key, v), key) == v,
{
    lemma_var_pos_props(vs, key);
    let i = var_pos(vs, key);
    let w = insert_var(vs, key, v);
    if i < vs.len() {
        assert forall|j: int| 0 <= j < i implies w[j].0 != key by {
            assert(w[j] == vs[j]);
        }
        lemma_var_pos(w, key, i);
    } else {
        assert forall|j: int| 0 <= j < vs.len() implies w[j].0 != key by {
            assert(w[j] == vs[j]);
        }
        lemma_var_pos(w, key, vs.len() as int);
    }
}

/// Setting a variable keeps the variable names distinct.
proof fn lemma_insert_var_distinct(vs: Seq<(Seq<char>, Seq<char>)>, key: Seq<char>, v: Seq<char>)
    requires
        distinct_vars(vs),
    ensures
        distinct_vars(insert_var(vs, key, v)),
{
    lemma_var_pos_props(vs, key);
    let i = var_pos(vs, key);
    let w = insert_var(vs, key, v);
    assert forall|a: int, b: int| 0 <= a < b < w.len() implies #[trigger] w[a].0 != #[trigger] w[b].0 by {
        if i < vs.len() {
            assert(w[a].0 == vs[a].0);
            assert(w[b].0 == vs[b].0);
        } else {
            if b < vs.len() {
                assert(w[a] == vs[a] && w[b] == vs[b]);
            } else {
                assert(w[a] == vs[a]);
            }
        }
    }
}

/// Removing a variable keeps the names distinct, and the variable is gone.
proof fn lemma_remove_var(vs: Seq<(Seq<char>, Seq<char>)>, key: Seq<char>)
    requires
        distinct_vars(vs),
    ensures
        distinct_vars(remove_var(vs, key)),
        var_value(remove_var(vs, key), key) == Seq::<char>::empty(),
{
    lemma_var_pos_props(vs, key);
    let i = var_pos(vs, key);
    let w = remove_var(vs, key);
    if i < vs.len() {
        assert forall|a: int, b: int| 0 <= a < b < w.len() implies #[trigger] w[a].0 != #[trigger] w[b].0 by {
            let a2 = if a < i { a } else { a + 1 };
            let b2 = if b < i { b } else { b + 1 };
            assert(w[a] == vs[a2] && w[b] == vs[b2]);
        }
        assert forall|j: int| 0 <= j < w.len() implies w[j].0 != key by {
            let j2 = if j < i { j } else { j + 1 };
            assert(w[j] == vs[j2]);
        }
        lemma_var_pos(w, key, w.len() as int);
    } else {
        lemma_var_pos(w, key, w.len() as int);
    }
}

/// Every SDK entry's fields but the changed ones are kept, so the first
/// entry with a name stays the first.
proof fn lemma_with_sdk_pos(c: ConfigModel, name: Seq<char>, s: SdkModel)
    requires
        sdk_pos(c.sdks, name) < c.sdks.len(),
        s.name == name,
    ensures
        sdk_pos(with_sdk(c, sdk_pos(c.sdks, name), s).sdks, name) == sdk_pos(c.sdks, name),
{
    lemma_sdk_pos_update(c.sdks, name, s);
}

/// Putting back an SDK's current version as it was undoes any change of
/// it: setting it to what it is changes nothing, and setting it to another
/// value and then back gives the configuration as it was.
pub proof fn lemma_current_version_restore(c: ConfigModel, name: Seq<char>, v: Option<Seq<char>>)
    ensures
        with_current_version(c, name, current_version_of(c, name)) == c,
        with_current_version(with_current_version(c, name, v), name, current_version_of(c, name)) == c,
{
    lemma_sdk_pos_props(c.sdks, name);
    let i = sdk_pos(c.sdks, name);
    if i < c.sdks.len() {
        let s = c.sdks[i];
        assert(c.sdks.update(i, SdkModel { current_version: s.current_version, ..s }) =~= c.sdks);
        lemma_with_sdk_pos(c, name, SdkModel { current_version: v, ..s });
        let c1 = with_current_version(c, name, v);
        assert(c1.sdks[i] == SdkModel { current_version: v, ..s });
        assert(c1.sdks.update(i, SdkModel { current_version: s.current_version, ..c1.sdks[i] }) =~= c.sdks);
    }
}

/// Reading a key after setting it gives the stored text of the value set,
/// for any value that fits the key's type (every value validation accepts
/// for it does), when the key's SDK entry exists and, for an extra path,
/// its position does.
pub proof fn lemma_set_then_get(c: ConfigModel, k: KeyModel, v: ValueModel)
    requires
        value_fits(v, crate::config::validation::field_type_spec(k)),
        raw_value(c, k) is Some,
        k matches KeyModel::SdkExtraPath { name, index } ==> index < c.sdks[sdk_pos(c.sdks, name)].extra_paths.len(),
    ensures
        raw_value(set_model(c, k, value_text(v)), k) == Some(value_text(v)),
{
    let t = value_text(v);
    match k {
        KeyModel::NetworkSslVerify => {
            reveal_strlit("true");
            reveal_strlit("false");
            assert(bool_text(true) == "true"@);
            assert(bool_text(false) != "true"@);
        },
        KeyModel::NetworkConnectTimeout => {
            if let ValueModel::U32(n) = v {
                lemma_parse_decimal_u32(n);
            }
        },
        KeyModel::NetworkCacheTtlSecs => {
            if let ValueModel::U32(n) = v {
                lemma_parse_decimal_u32(n);
            }
        },
        KeyModel::Sdk { name, field } => {
            lemma_sdk_pos_props(c.sdks, name);
            let i = sdk_pos(c.sdks, name);
            lemma_with_sdk_pos(c, name, set_field(c.sdks[i], field, t));
        },
        KeyModel::SdkExtraVar { name, var_key } => {
            lemma_sdk_pos_props(c.sdks, name);
            let i = sdk_pos(c.sdks, name);
            let s2 = SdkModel { extra_vars: insert_var(c.sdks[i].extra_vars, var_key, t), ..c.sdks[i] };
            lemma_with_sdk_pos(c, name, s2);
            lemma_insert_var_get(c.sdks[i].extra_vars, var_key, t);
        },
        KeyModel::SdkExtraPath { name, index } => {
            lemma_sdk_pos_props(c.sdks, name);
            let i = sdk_pos(c.sdks, name);
            let s2 = SdkModel { extra_paths: c.sdks[i].extra_paths.update(index as int, t), ..c.sdks[i] };
            lemma_with_sdk_pos(c, name, s2);
        },
        _ => {},
    }
}

/// Deleting a deletable key leaves it unset (reads as empty), when its SDK
/// entry exists; an extra path is removed and the later ones move up.
pub proof fn lemma_delete_then_get(c: ConfigModel, k: KeyModel, builtin: bool)
    requires
        config_wf(c),
        crate::config::validation::deletable_spec(k, builtin),
        raw_value(c, k) is Some,
    ensures
        !(k is SdkExtraPath) ==> raw_value(delete_model(c, k), k) == Some(Seq::<char>::empty()),
        k matches KeyModel::SdkExtraPath { name, index } ==> {
            let i = sdk_pos(c.sdks, name);
            let ps = c.sdks[i].extra_paths;
            delete_model(c, k).sdks[i].extra_paths == if index < ps.len() { ps.remove(index as int) } else { ps }
        },
{
    match k {
        KeyModel::Sdk { name, field } => {
            lemma_sdk_pos_props(c.sdks, name);
            let i = sdk_pos(c.sdks, name);
            let s = c.sdks[i];
            match field {
                SdkField::VersionUrl => lemma_with_sdk_pos(c, name, SdkModel { version_url: None, ..s }),
                SdkField::VersionFallbackUrl => lemma_with_sdk_pos(c, name, SdkModel { version_fallback_url: None, ..s }),
                SdkField::DownloadFallbackUrl => lemma_with_sdk_pos(c, name, SdkModel { download_fallback_url: None, ..s }),
                SdkField::CurrentVersion => lemma_with_sdk_pos(c, name, SdkModel { current_version: None, ..s }),
                _ => {},
            }
        },
        KeyModel::SdkExtraVar { name, var_key } => {
            lemma_sdk_pos_props(c.sdks, name);
            let i = sdk_pos(c.sdks, name);
            assert(distinct_vars(c.sdks[i].extra_vars));
            lemma_remove_var(c.sdks[i].extra_vars, var_key);
            lemma_with_sdk_pos(c, name, SdkModel { extra_vars: remove_var(c.sdks[i].extra_vars, var_key), ..c.sdks[i] });
        },
        KeyModel::SdkExtraPath { name, index } => {
            lemma_sdk_pos_props(c.sdks, name);
        },
        _ => {},
    }
}

/// Setting and deleting keys keep the extra variable names of every SDK
/// entry distinct.
pub proof fn lemma_changes_keep_wf(c: ConfigModel, k: KeyModel, v: Seq<char>)
    requires
        config_wf(c),
    ensures
        config_wf(set_model(c, k, v)),
        config_wf(delete_model(c, k)),
{
    match k {
        KeyModel::SdkExtraVar { name, var_key } => {
            lemma_sdk_pos_props(c.sdks, name);
            let i = sdk_pos(c.sdks, name);
            if i < c.sdks.len() {
                assert(distinct_vars(c.sdks[i].extra_vars));
                lemma_insert_var_distinct(c.sdks[i].extra_vars, var_key, v);
                lemma_remove_var(c.sdks[i].extra_vars, var_key);
                let c1 = set_model(c, k, v);
                let c2 = delete_model(c, k);
                assert forall|j: int| 0 <= j < c1.sdks.len() implies distinct_vars(#[trigger] c1.sdks[j].extra_vars) by {
                    if j != i {
                        assert(c1.sdks[j] == c.sdks[j]);
                    }
                }
                assert forall|j: int| 0 <= j < c2.sdks.len() implies distinct_vars(#[trigger] c2.sdks[j].extra_vars) by {
                    if j != i {
                        assert(c2.sdks[j] == c.sdks[j]);
                    }
                }
            }
        },
        KeyModel::Sdk { name, field } => {
            lemma_sdk_pos_props(c.sdks, name);
            let i = sdk_pos(c.sdks, name);
            if i < c.sdks.len() {
                let c1 = set_model(c, k, v);
                let c2 = delete_model(c, k);
                assert forall|j: int| 0 <= j < c1.sdks.len() implies distinct_vars(#[trigger] c1.sdks[j].extra_vars) by {
                    if j != i {
                        assert(c1.sdks[j] == c.sdks[j]);
                    } else {
                        assert(c1.sdks[j].extra_vars == c.sdks[j].extra_vars);
                    }
                }
                assert forall|j: int| 0 <= j < c2.sdks.len() implies distinct_vars(#[trigger] c2.sdks[j].extra_vars) by {
                    if j != i {
                        assert(c2.sdks[j] == c.sdks[j]);
                    } else {
                        assert(c2.sdks[j].extra_vars == c.sdks[j].extra_vars);
                    }
                }
            }
        },
        KeyModel::SdkExtraPath { name, index } => {
            lemma_sdk_pos_props(c.sdks, name);
            let i = sdk_pos(c.sdks, name);
            if i < c.sdks.len() && index < c.sdks[i].extra_paths.len() {
                let c1 = set_model(c, k, v);
                let c2 = delete_model(c, k);
                assert forall|j: int| 0 <= j < c1.sdks.len() implies distinct_vars(#[trigger] c1.sdks[j].extra_vars) by {
                    if j != i {
                        assert(c1.sdks[j] == c.sdks[j]);
                    } else {
                        assert(c1.sdks[j].extra_vars == c.sdks[j].extra_vars);
                    }
                }
                assert forall|j: int| 0 <= j < c2.sdks.len() implies distinct_vars(#[trigger] c2.sdks[j].extra_vars) by {
                    if j != i {
                        assert(c2.sdks[j] == c.sdks[j]);
                    } else {
                        assert(c2.sdks[j].extra_vars == c.sdks[j].extra_vars);
                    }
                }
            }
        },
        _ => {},
    }
}

} // verus!
