//! The shapes of the tool catalog: which configuration files each known
//! tool keeps, and how editors surface them.  The catalog itself is data a
//! caller supplies; the library only fixes the shapes it is given.

use vstd::prelude::*;

verus! {

/// The syntax a configuration file is written in.
#[derive(Debug, Clone, Copy, PartialEq, Eq, Structural)]
pub enum ConfigFormat {
    Json,
    Yaml,
    Toml,
    Ini,
    Md,
}

/// One configuration file a tool is known to keep.
#[derive(Debug, PartialEq)]
pub struct SuggestedConfig {
    pub label: String,
    pub path: String,
    pub format: ConfigFormat,
    pub icon: Option<String>,
    pub description: Option<String>,
    pub json_path: Option<String>,
}

/// One command-line tool of the catalog.
#[derive(Debug, PartialEq)]
pub struct CliTool {
    pub id: String,
    pub name: String,
    pub icon: Option<String>,
    pub docs_url: Option<String>,
    pub description: Option<String>,
    pub suggested_configs: Option<Vec<SuggestedConfig>>,
}

/// One setting an editor extension keeps under its prefix.
#[derive(Debug, PartialEq)]
pub struct ExtensionSetting {
    pub label: String,
    pub json_path: String,
    pub icon: Option<String>,
    pub description: Option<String>,
}

/// One editor extension of the catalog.
#[derive(Debug, PartialEq)]
pub struct IdeExtension {
    pub id: String,
    pub name: String,
    pub icon: Option<String>,
    pub docs_url: Option<String>,
    pub description: Option<String>,
    pub settings_prefix: String,
    pub suggested_settings: Option<Vec<ExtensionSetting>>,
}

/// An extension as configured within one editor.
#[derive(Debug, PartialEq)]
pub struct IdeExtensionConfig {
    pub extension_id: String,
    pub label: String,
    pub json_path_prefix: String,
    pub icon: Option<String>,
    pub description: Option<String>,
}

/// Where an editor keeps its settings on each platform.
#[derive(Debug, PartialEq)]
pub struct SettingsPaths {
    pub linux: String,
    pub macos: String,
    pub windows: String,
}

/// One editor of the catalog.
#[derive(Debug, PartialEq)]
pub struct IdePlatform {
    pub id: String,
    pub name: String,
    pub icon: Option<String>,
    pub docs_url: Option<String>,
    pub description: Option<String>,
    pub settings_paths: SettingsPaths,
    pub extensions: Option<Vec<IdeExtensionConfig>>,
}

} // verus!
