//! The build configuration: five groups of settings, read once per build and
//! never changed by any stage.

use vstd::prelude::*;

verus! {

/// Signing credentials.
#[derive(Debug, Clone, PartialEq, Eq)]
pub struct Sign {
    pub keystore: String,
    pub keystore_pass: String,
    pub keystore_key_alias: String,
    pub keystore_key_pass: String,
}

/// The package to rebuild and the values stamped into it.
#[derive(Debug, Clone, PartialEq, Eq)]
pub struct Apk {
    pub apk_path: String,
    pub apk_outdir: String,
    pub min_sdk_version: String,
    pub target_sdk_version: String,
    pub version_code: String,
    pub version_name: String,
    pub app_name: String,
}

/// Locations of the jar tools and of the platform jar.
#[derive(Debug, Clone, PartialEq, Eq)]
pub struct Jar {
    pub apktool_path: String,
    pub bundletool_path: String,
    pub android_jar_path: String,
}

/// What happens after the artifact is signed, and the optional bundle
/// configuration file (an empty string means that there is none).
#[derive(Debug, Clone, PartialEq, Eq)]
pub struct ConfigInfo {
    pub install: bool,
    pub launch: bool,
    pub main_activity: String,
    pub bundletool_config_path: String,
}

/// The decoded project that the package builder takes as its input.
#[derive(Debug, Clone, PartialEq, Eq)]
pub struct BuildApk {
    pub app_path: String,
}

/// The whole configuration of one build.
#[derive(Debug, Clone, PartialEq, Eq)]
pub struct Config {
    pub sign: Sign,
    pub apk: Apk,
    pub jar: Jar,
    pub config: ConfigInfo,
    pub build_apk: BuildApk,
}

} // verus!
