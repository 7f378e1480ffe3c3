//! The registry's configuration: the internal versioned file that is
//! authoritative, and the public machine-readable file derived from
//! it.  Both formats are fixed here as spec functions; the writers are
//! proved exact, and the internal file is read back through the TOML
//! tree.

use vstd::prelude::*;
use crate::codec::{bool_json, escape, push_escaped};
use crate::toml_tree::TomlValue;
use crate::cargo_toml::sp_obj_get;
use crate::urls::{normalize_url, url_normal_of};

verus! {

/// The default offered for requiring authentication.
pub const USER_DEFAULT_AUTH_REQUIRED: bool = false;

/// The default offered for enabling the browsable listing.
pub const USER_DEFAULT_HTML_ENABLED: bool = true;

/// The default suggested registry name.
pub const USER_DEFAULT_SUGGESTED_REGISTRY_NAME: &'static str = "my-awesome-registry";

/// The browsable-listing part of the configuration.
#[derive(Debug)]
pub struct ConfigV1Html {
    pub enabled: bool,
    pub suggested_registry_name: Option<String>,
}

/// The mathematical value of `ConfigV1Html`.
#[verifier::ext_equal]
pub struct ConfigV1HtmlV {
    pub enabled: bool,
    pub suggested_registry_name: Option<Seq<char>>,
}

impl View for ConfigV1Html {
    type V = ConfigV1HtmlV;

    open spec fn view(&self) -> ConfigV1HtmlV {
        ConfigV1HtmlV {
            enabled: self.enabled,
            suggested_registry_name: crate::index_entry::opt_view(self.suggested_registry_name),
        }
    }
}

impl ConfigV1Html {
    /// The name to call the registry by: the configured suggestion,
    /// or the default.
    pub fn suggested_registry_name(&self) -> (r: &str)
        ensures
            match self@.suggested_registry_name {
                Some(n) => r@ == n,
                None => r@ == USER_DEFAULT_SUGGESTED_REGISTRY_NAME@,
            },
    {
        match &self.suggested_registry_name {
            Some(n) => n.as_str(),
            None => USER_DEFAULT_SUGGESTED_REGISTRY_NAME,
        }
    }
}

/// Version 1 of the configuration: the base URL the registry is
/// served from (kept in its parsed, normalized form), whether access
/// requires authentication, and the listing settings.
#[derive(Debug)]
pub struct ConfigV1 {
    pub base_url: String,
    pub auth_required: bool,
    pub html: ConfigV1Html,
}

/// The mathematical value of `ConfigV1`.
#[verifier::ext_equal]
pub struct ConfigV1V {
    pub base_url: Seq<char>,
    pub auth_required: bool,
    pub html: ConfigV1HtmlV,
}

impl View for ConfigV1 {
    type V = ConfigV1V;

    open spec fn view(&self) -> ConfigV1V {
        ConfigV1V {
            base_url: self.base_url@,
            auth_required: self.auth_required,
            html: self.html@,
        }
    }
}

/// The closed, tagged set of configuration versions; only version 1
/// exists today.
#[derive(Debug)]
pub enum Config {
    V1(ConfigV1),
}

/// The internal configuration file: version tag, values, and the
/// listing table, with strings escaped as TOML basic strings.
pub open spec fn config_toml_text(c: ConfigV1V) -> Seq<char> {
    "version = \"1\"\nbase_url = \""@ + escape(c.base_url)
        + "\"\nauth_required = "@ + bool_json(c.auth_required)
        + "\n\n[html]\nenabled = "@ + bool_json(c.html.enabled)
        + (match c.html.suggested_registry_name {
            None => Seq::<char>::empty(),
            Some(n) => "\nsuggested_registry_name = \""@ + escape(n) + "\""@,
        }) + "\n"@
}

/// Renders the internal configuration file, exactly
/// `config_toml_text`.
#[verifier::rlimit(50)]
pub fn write_config_toml(c: &ConfigV1) -> (r: String)
    ensures
        r@ == config_toml_text(c@),
{
    let mut out = String::new();
    out.append("version = \"1\"\nbase_url = \"");
    push_escaped(&mut out, c.base_url.as_str());
    out.append("\"\nauth_required = ");
    if c.auth_required {
        out.append("true");
    } else {
        out.append("false");
    }
    out.append("\n\n[html]\nenabled = ");
    if c.html.enabled {
        out.append("true");
    } else {
        out.append("false");
    }
    match &c.html.suggested_registry_name {
        Some(n) => {
            out.append("\nsuggested_registry_name = \"");
            push_escaped(&mut out, n.as_str());
            out.append("\"");
        },
        None => {},
    }
    out.append("\n");
    proof {
        assert(out@ =~= config_toml_text(c@));
    }
    out
}

/// What a configuration tree means: a `version` tag that must be
/// `"1"`, a required base URL that must parse (kept normalized), an
/// optional authentication flag, and the optional listing table.
pub open spec fn sp_config_of(doc: TomlValue) -> Option<ConfigV1V> {
    match doc {
        TomlValue::Obj(items) => {
            let version_ok = match sp_obj_get(items@, "version"@) {
                Some(TomlValue::Text(s)) => s@ == "1"@,
                _ => false,
            };
            let base_url = match sp_obj_get(items@, "base_url"@) {
                Some(TomlValue::Text(s)) => url_normal_of(s@),
                _ => None,
            };
            let auth_required = match sp_obj_get(items@, "auth_required"@) {
                None => Some(false),
                Some(TomlValue::Bool(b)) => Some(b),
                Some(_) => None,
            };
            let html = match sp_obj_get(items@, "html"@) {
                None => Some(ConfigV1HtmlV { enabled: false, suggested_registry_name: None }),
                Some(h) => sp_html_of(h),
            };
            if version_ok && base_url is Some && auth_required is Some && html is Some {
                Some(
                    ConfigV1V {
                        base_url: base_url->Some_0,
                        auth_required: auth_required->Some_0,
                        html: html->Some_0,
                    },
                )
            } else {
                None
            }
        },
        _ => None,
    }
}

/// The listing table: an optional flag and an optional suggested
/// name.
pub open spec fn sp_html_of(v: TomlValue) -> Option<ConfigV1HtmlV> {
    match v {
        TomlValue::Obj(items) => {
            let enabled = match sp_obj_get(items@, "enabled"@) {
                None => Some(false),
                Some(TomlValue::Bool(b)) => Some(b),
                Some(_) => None,
            };
            let name = match sp_obj_get(items@, "suggested_registry_name"@) {
                None => Some(None),
                Some(TomlValue::Text(s)) => Some(Some(s@)),
                Some(_) => None,
            };
            if enabled is Some && name is Some {
                Some(
                    ConfigV1HtmlV {
                        enabled: enabled->Some_0,
                        suggested_registry_name: name->Some_0,
                    },
                )
            } else {
                None
            }
        },
        _ => None,
    }
}

/// Reads a configuration from its value tree, exactly `sp_config_of`.
#[verifier::rlimit(60)]
pub fn parse_config(doc: &TomlValue) -> (r: Option<ConfigV1>)
    ensures
        match r {
            Some(c) => sp_config_of(*doc) == Some(c@),
            None => sp_config_of(*doc) is None,
        },
{
    match doc {
        TomlValue::Obj(items) => {
            let version_ok = match crate::cargo_toml::obj_get_pub(items, "version") {
                Some(TomlValue::Text(s)) => {
                    proof { reveal_strlit("1"); }
                    crate::strs::str_eq(s.as_str(), "1")
                },
                _ => false,
            };
            if !version_ok {
                return None;
            }
            let base_url: String = match crate::cargo_toml::obj_get_pub(items, "base_url") {
                Some(TomlValue::Text(s)) => match normalize_url(s.as_str()) {
                    Some(u) => u,
                    None => {
                        return None;
                    },
                },
                _ => {
                    return None;
                },
            };
            let auth_required: bool = match crate::cargo_toml::obj_get_pub(items, "auth_required") {
                None => false,
                Some(TomlValue::Bool(b)) => *b,
                Some(_) => {
                    return None;
                },
            };
            let html: ConfigV1Html = match crate::cargo_toml::obj_get_pub(items, "html") {
                None => ConfigV1Html { enabled: false, suggested_registry_name: None },
                Some(h) => match parse_html(h) {
                    Some(hh) => hh,
                    None => {
                        return None;
                    },
                },
            };
            Some(ConfigV1 { base_url, auth_required, html })
        },
        _ => None,
    }
}

/// Reads the listing table, exactly `sp_html_of`.
fn parse_html(v: &TomlValue) -> (r: Option<ConfigV1Html>)
    ensures
        match r {
            Some(h) => sp_html_of(*v) == Some(h@),
            None => sp_html_of(*v) is None,
        },
{
    match v {
        TomlValue::Obj(items) => {
            let enabled: bool = match crate::cargo_toml::obj_get_pub(items, "enabled") {
                None => false,
                Some(TomlValue::Bool(b)) => *b,
                Some(_) => {
                    return None;
                },
            };
            let name: Option<String> = match crate::cargo_toml::obj_get_pub(
                items,
                "suggested_registry_name",
            ) {
                None => None,
                Some(TomlValue::Text(s)) => Some(s.clone()),
                Some(_) => {
                    return None;
                },
            };
            Some(ConfigV1Html { enabled, suggested_registry_name: name })
        },
        _ => None,
    }
}

} // verus!
