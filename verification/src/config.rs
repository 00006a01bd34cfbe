//! The configuration of the application.

use crate::number::{parse_port, parsed_number};
use crate::res_file::or_text;
use crate::routes::drbd::given_or;
use crate::text::{ends_with, opt_view, starts_with};
use vstd::prelude::*;
use vstd::string::*;

verus! {

/// What the configuration file says; nothing of a setting that it leaves out.
#[derive(Debug, Clone)]
pub struct RawConfig {
    pub host: Option<String>,
    pub port: Option<String>,
    pub log_level: Option<String>,
    pub db_path: Option<String>,
    pub drbd_dir: Option<String>,
    pub quadlet_dir: Option<String>,
    pub temp_dir: Option<String>,
    pub deploy_mode: Option<String>,
    pub pcsd_url: Option<String>,
    pub pcsd_user: Option<String>,
    pub pcsd_pass: Option<String>,
}

impl Default for RawConfig {
    fn default() -> (r: Self)
        ensures
            r.host is None,
            r.port is None,
            r.log_level is None,
            r.db_path is None,
            r.drbd_dir is None,
            r.quadlet_dir is None,
            r.temp_dir is None,
            r.deploy_mode is None,
            r.pcsd_url is None,
            r.pcsd_user is None,
            r.pcsd_pass is None,
    {
        RawConfig {
            host: None,
            port: None,
            log_level: None,
            db_path: None,
            drbd_dir: None,
            quadlet_dir: None,
            temp_dir: None,
            deploy_mode: None,
            pcsd_url: None,
            pcsd_user: None,
            pcsd_pass: None,
        }
    }
}

/// The settings of the application.
#[derive(Debug, Clone)]
pub struct Config {
    pub host: String,
    pub port: u16,
    pub log_level: String,
    pub db_path: String,
    pub drbd_dir: String,
    pub quadlet_dir: String,
    pub temp_dir: String,
    pub deploy_mode: String,
    pub pcsd_url: String,
    pub pcsd_user: String,
    pub pcsd_pass: String,
}

/// The port that a setting names, 5000 where it names none.
pub open spec fn port_setting(o: Option<String>) -> nat {
    match o {
        Some(s) => match parsed_number(s@, 65535) {
            Some(n) => n,
            None => 5000,
        },
        None => 5000,
    }
}

/// The settings of the application, with defaults for what the file leaves out.
pub fn load_config(raw: &RawConfig) -> (r: Config)
    ensures
        r.host@ == or_text(opt_view(raw.host), "0.0.0.0"@),
        r.port == port_setting(raw.port),
        r.log_level@ == or_text(opt_view(raw.log_level), "info"@),
        r.db_path@ == or_text(opt_view(raw.db_path), "./icm.db"@),
        r.drbd_dir@ == or_text(opt_view(raw.drbd_dir), "/etc/drbd.d"@),
        r.quadlet_dir@ == or_text(opt_view(raw.quadlet_dir), "/etc/containers/systemd"@),
        r.temp_dir@ == or_text(opt_view(raw.temp_dir), "/tmp/icm"@),
        r.deploy_mode@ == or_text(opt_view(raw.deploy_mode), "test"@),
        r.pcsd_url@ == or_text(opt_view(raw.pcsd_url), "https://localhost:2224"@),
        r.pcsd_user@ == or_text(opt_view(raw.pcsd_user), "hacluster"@),
        r.pcsd_pass@ == or_text(opt_view(raw.pcsd_pass), ""@),
{
    let port: u16 = match &raw.port {
        Some(s) => match parse_port(s.as_str()) {
            Some(n) => n,
            None => 5000,
        },
        None => 5000,
    };
    Config {
        host: given_or(&raw.host, "0.0.0.0"),
        port,
        log_level: given_or(&raw.log_level, "info"),
        db_path: given_or(&raw.db_path, "./icm.db"),
        drbd_dir: given_or(&raw.drbd_dir, "/etc/drbd.d"),
        quadlet_dir: given_or(&raw.quadlet_dir, "/etc/containers/systemd"),
        temp_dir: given_or(&raw.temp_dir, "/tmp/icm"),
        deploy_mode: given_or(&raw.deploy_mode, "test"),
        pcsd_url: given_or(&raw.pcsd_url, "https://localhost:2224"),
        pcsd_user: given_or(&raw.pcsd_user, "hacluster"),
        pcsd_pass: given_or(&raw.pcsd_pass, ""),
    }
}

/// Whether a value of a template starts with a pattern. A value that is no text counts as
/// an empty one; without a pattern there is no answer.
pub fn filter_starts_with(value: Option<&str>, pat: Option<&str>) -> (r: Option<bool>)
    ensures
        r == match opt_view(pat) {
            Some(p) => Some(p.is_prefix_of(or_text(opt_view(value), ""@))),
            None => None,
        },
{
    let s = match value {
        Some(s) => s,
        None => "",
    };
    match pat {
        Some(p) => Some(starts_with(s, p)),
        None => None,
    }
}

/// Whether a value of a template ends with a pattern. A value that is no text counts as an
/// empty one; without a pattern there is no answer.
pub fn filter_ends_with(value: Option<&str>, pat: Option<&str>) -> (r: Option<bool>)
    ensures
        r == match opt_view(pat) {
            Some(p) => Some(p.is_suffix_of(or_text(opt_view(value), ""@))),
            None => None,
        },
{
    let s = match value {
        Some(s) => s,
        None => "",
    };
    match pat {
        Some(p) => Some(ends_with(s, p)),
        None => None,
    }
}

} // verus!
