//! The data model of the tooling around the parser: project, server and
//! cloud credentials records, compose-file shapes, site inventory, and
//! the reverse proxy's cache records.
//!
//! These are plain owned records.  The code that fills them from disk or
//! from the network, serializes them, and acts on them performs I/O and
//! lives outside the verified library; it exchanges these values with it.
use vstd::prelude::*;

use std::collections::BTreeMap;
use std::collections::HashMap;
use std::collections::HashSet;

verus! {

/// A project: its name and where its sources and server live.
#[derive(Clone, Debug)]
pub struct ProjectConfig {
    pub name: String,
    pub git_repo_uri: String,
    pub git_user: String,
    pub server_name: String,
}

/// Cloud API credentials.
#[derive(Clone)]
pub struct AwsConfig {
    pub key: String,
    pub secret: String,
}

/// A provisioned server: its name, address, key file, and optional
/// instance identity.
#[derive(Clone)]
pub struct ServerConfig {
    pub name: String,
    pub url: String,
    pub pem: String,
    pub instance_id: Option<String>,
    pub elastic_ip: Option<ElasticIp>,
}

/// An allocated elastic IP: its allocation id and public address.
#[derive(Clone)]
pub struct ElasticIp {
    pub allocation_id: String,
    pub public_ip: String,
}

/// The root of a generated compose file.
#[derive(Debug)]
pub struct ComposeYml {
    pub version: &'static str,
    pub services: BTreeMap<String, ComposeService>,
}

/// One service of a generated compose file.
#[derive(Debug)]
pub struct ComposeService {
    pub volumes: Vec<String>,
    pub environment: BTreeMap<String, String>,
}

/// Plugin conf from plugin.json in a plugin dir.
pub struct PluginConf {
    pub deps: Vec<String>,
}

/// One installed plugin as the site reports it.
#[derive(Debug)]
pub struct WpInstallPlugin {
    pub name: String,
    pub status: String,
    pub update: String,
    pub version: String,
}

/// One installed theme as the site reports it.
#[derive(Debug)]
pub struct WpInstallTheme {
    pub name: String,
    pub status: String,
    pub update: String,
    pub version: String,
}

/// The installed plugins and themes of a site, keyed by name.
#[derive(Debug)]
pub struct WpInstallData {
    pub plugins: HashMap<String, WpInstallPlugin>,
    pub themes: HashMap<String, WpInstallTheme>,
}

/// The key of a path configuration: the request base it applies to.
#[derive(Clone, Debug, PartialEq, Eq, Hash)]
pub struct PathConfigKey(pub String);

/// A resource to preload from a cached page.
#[derive(Clone, Debug)]
pub enum PreloadLink {
    Style(String),
    Script(String),
    Image(String),
}

/// Where a cache entry's body lives: a text or a binary cache file.
#[derive(Clone)]
enum CacheEntryData {
    Text(String),
    Binary(String),
}

/// Dependency information recorded beside a cached page: which cache ids
/// and pod types it was built from, its date, and its preloads.
struct WpCacheInfo {
    cache_ids: HashSet<u32>,
    pod_types: HashSet<String>,
    date: Option<i64>,
    preloads: Vec<PreloadLink>,
}

/// Information about and cached data for a cache entry.
pub struct CacheEntry {
    content_type: String,
    expire: Option<i64>,
    last_modified: Option<String>,
    etag: Option<String>,
    preloads: Option<String>,
    data: CacheEntryData,
    path_config: PathConfigKey,
    cache_info: Option<Box<WpCacheInfo>>,
}

} // verus!
