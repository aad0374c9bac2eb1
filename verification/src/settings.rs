//! `settings.inertia` of a Loco app: what the adapter, the flash store and the CSRF check
//! are built from.

use vstd::prelude::*;
use vstd::utf8::encode_utf8;
use crate::config::InertiaConfig;
use crate::csrf::Csrf;
use crate::inertia::{opt_string, parse_uri, parsed_uri};
use crate::narrow::strs;
use crate::ssr::SsrSettings;
use crate::vite::ViteSettings;

verus! {

/// `settings.inertia.csrf`.
#[derive(Debug, Clone, Default)]
pub struct CsrfSettings {
    /// Defaults to `true`.
    pub enabled: Option<bool>,
    /// Path prefixes that skip the check, e.g. `/api/` or webhook endpoints.
    pub exempt: Vec<String>,
}

/// `settings.inertia` in the Loco config.
#[derive(Debug, Clone, Default)]
pub struct InertiaSettings {
    pub version: Option<String>,
    pub root_template: Option<String>,
    pub app_id: Option<String>,
    /// Key material for the flash cookie and the CSRF token; at least 64 bytes.
    pub flash_secret: Option<String>,
    pub secure_cookies: bool,
    /// Encrypt every page in the browser history.
    pub encrypt_history: bool,
    /// CSRF protection, on unless `enabled: false`.
    pub csrf: Option<CsrfSettings>,
    /// Hosts whose `Referer` `back()` may return to besides the request's `Host`.
    pub allowed_redirect_hosts: Vec<String>,
    pub vite: Option<ViteSettings>,
    pub ssr: Option<SsrSettings>,
    /// Refuse to start without `flash_secret` (set in production).
    pub require_flash_secret: bool,
}

/// Why the settings cannot be used.
#[derive(PartialEq, Eq, Structural, Debug)]
pub enum SettingsError {
    /// `flash_secret` is shorter than 64 bytes.
    SecretTooShort,
    /// `flash_secret` is required in production.
    SecretRequired,
}

/// Bytes of key material a cookie key needs.
pub const KEY_BYTES: usize = 64;

/// Default location of the root template, relative to the app's working directory.
pub open spec fn default_root_template() -> Seq<char> {
    "assets/views/inertia.html"@
}

fn str_bytes(s: &str) -> (r: Vec<u8>)
    ensures
        r@ == encode_utf8(s@),
{
    let b = s.as_bytes();
    let mut out: Vec<u8> = Vec::new();
    let mut i: usize = 0;
    while i < b.len()
        invariant
            i <= b@.len(),
            b@ == encode_utf8(s@),
            out@ == b@.subrange(0, i as int),
        decreases b@.len() - i,
    {
        out.push(b[i]);
        assert(b@.subrange(0, i + 1) == b@.subrange(0, i as int).push(b@[i as int]));
        i = i + 1;
    }
    assert(b@.subrange(0, b@.len() as int) == b@);
    out
}

impl CsrfSettings {
    /// Enabled, nothing exempt.
    pub fn new() -> (r: CsrfSettings)
        ensures
            r.enabled is None,
            r.exempt@.len() == 0,
    {
        CsrfSettings { enabled: None, exempt: Vec::new() }
    }
}

impl InertiaSettings {
    /// The key material of the flash cookie and the CSRF token: the bytes of `flash_secret`,
    /// or `None` for a random per-process key; refused when the secret is too short, or
    /// missing where it is required.
    pub fn key_material(&self) -> (r: Result<Option<Vec<u8>>, SettingsError>)
        ensures
            match self.flash_secret {
                Some(s) => if encode_utf8(s@).len() < KEY_BYTES {
                    r == Err::<Option<Vec<u8>>, SettingsError>(SettingsError::SecretTooShort)
                } else {
                    r matches Ok(Some(k)) && k@ == encode_utf8(s@)
                },
                None => if self.require_flash_secret {
                    r == Err::<Option<Vec<u8>>, SettingsError>(SettingsError::SecretRequired)
                } else {
                    r matches Ok(None)
                },
            },
    {
        match &self.flash_secret {
            Some(s) => {
                let b = str_bytes(s.as_str());
                if b.len() < KEY_BYTES {
                    Err(SettingsError::SecretTooShort)
                } else {
                    Ok(Some(b))
                }
            },
            None => {
                if self.require_flash_secret {
                    Err(SettingsError::SecretRequired)
                } else {
                    Ok(None)
                }
            },
        }
    }

    /// CSRF protection with `key`, or `None` when disabled: secure cookies as configured,
    /// the configured paths exempt.
    pub fn csrf(&self, key: Vec<u8>) -> (r: Option<Csrf>)
        requires
            key@.len() >= 64,
        ensures
            (self.csrf matches Some(c) && c.enabled == Some(false)) ==> r is None,
            !(self.csrf matches Some(c) && c.enabled == Some(false)) ==> (r matches Some(x) && {
                &&& x.wf()
                &&& x.key == key
                &&& x.secure == self.secure_cookies
                &&& strs(x.exempt@) == match self.csrf { Some(c) => strs(c.exempt@), None => Seq::empty() }
            }),
    {
        let exempt: Vec<String> = match &self.csrf {
            Some(c) => {
                if c.enabled == Some(false) {
                    return None;
                }
                crate::inertia::clone_strings(&c.exempt)
            },
            None => {
                let v: Vec<String> = Vec::new();
                assert(strs(v@) =~= Seq::<Seq<char>>::empty());
                v
            },
        };
        let mut csrf = Csrf::new(key).secure(self.secure_cookies);
        let ghost ex = strs(exempt@);
        let mut i: usize = 0;
        assert(strs(csrf.exempt@) =~= ex.subrange(0, 0));
        while i < exempt.len()
            invariant
                i <= exempt@.len(),
                ex == strs(exempt@),
                csrf.wf(),
                csrf.key == key,
                csrf.secure == self.secure_cookies,
                strs(csrf.exempt@) == ex.subrange(0, i as int),
            decreases exempt@.len() - i,
        {
            let ghost before = csrf.exempt@;
            csrf = csrf.exempt(exempt[i].clone());
            assert(strs(csrf.exempt@) =~= strs(before).push(exempt@[i as int]@));
            assert(ex.subrange(0, i + 1) =~= ex.subrange(0, i as int).push(exempt@[i as int]@));
            i = i + 1;
        }
        assert(ex.subrange(0, ex.len() as int) == ex);
        Some(csrf)
    }

    /// Allow `back()` to return to the authority (host and port) of each URL that has one,
    /// unless it is allowed already (e.g. the server's host, with and without its port).
    pub fn allow_hosts_of(&mut self, urls: &Vec<String>)
        ensures
            strs(final(self).allowed_redirect_hosts@) == allow_authorities(strs(old(self).allowed_redirect_hosts@), strs(urls@)),
            final(self).version == old(self).version,
            final(self).app_id == old(self).app_id,
            final(self).flash_secret == old(self).flash_secret,
            final(self).require_flash_secret == old(self).require_flash_secret,
    {
        let ghost us = strs(urls@);
        let ghost h0 = strs(self.allowed_redirect_hosts@);
        let mut i: usize = 0;
        assert(us.subrange(0, 0) =~= Seq::<Seq<char>>::empty());
        while i < urls.len()
            invariant
                i <= urls@.len(),
                us == strs(urls@),
                strs(self.allowed_redirect_hosts@) == allow_authorities(h0, us.subrange(0, i as int)),
                self.version == old(self).version,
                self.app_id == old(self).app_id,
                self.flash_secret == old(self).flash_secret,
                self.require_flash_secret == old(self).require_flash_secret,
            decreases urls@.len() - i,
        {
            assert(us.subrange(0, i + 1).drop_last() == us.subrange(0, i as int));
            assert(us.subrange(0, i + 1).last() == urls@[i as int]@);
            match parse_uri(urls[i].as_str()) {
                Some((_, Some(a), _)) => {
                    if !crate::resolve::contains_str(&self.allowed_redirect_hosts, a.as_str()) {
                        let ghost before = self.allowed_redirect_hosts@;
                        self.allowed_redirect_hosts.push(a);
                        assert(strs(self.allowed_redirect_hosts@) =~= strs(before).push(self.allowed_redirect_hosts@.last()@));
                    }
                },
                _ => {},
            }
            i = i + 1;
        }
        assert(us.subrange(0, us.len() as int) == us);
    }

    /// The path of the root template (default `assets/views/inertia.html`).
    pub fn root_template_path(&self) -> (r: String)
        ensures
            r@ == match self.root_template { Some(p) => p@, None => default_root_template() },
    {
        match &self.root_template {
            Some(p) => p.clone(),
            None => "assets/views/inertia.html".to_owned(),
        }
    }

    /// The adapter configuration: the version is `version` when set, else the asset
    /// version of the Vite manifest (if any); the app id when set; history encryption and
    /// the allowed redirect hosts as configured.
    pub fn adapter_config(&self, vite_version: Option<String>) -> (r: InertiaConfig)
        ensures
            opt_string(r.version) == match self.version { Some(v) => Some(v@), None => opt_string(vite_version) },
            r.app_id@ == match self.app_id { Some(a) => a@, None => seq!['a', 'p', 'p'] },
            r.encrypt_history == self.encrypt_history,
            strs(r.allowed_redirect_hosts@) == strs(self.allowed_redirect_hosts@),
    {
        let mut config = InertiaConfig::new();
        config.version = match &self.version {
            Some(v) => Some(v.clone()),
            None => vite_version,
        };
        config.encrypt_history = self.encrypt_history;
        config.allowed_redirect_hosts = crate::inertia::clone_strings(&self.allowed_redirect_hosts);
        match &self.app_id {
            Some(a) => config.app_id = a.clone(),
            None => {},
        }
        config
    }
}

/// The allowed hosts after adding the authority of each URL in turn, unless present.
pub open spec fn allow_authorities(hosts: Seq<Seq<char>>, urls: Seq<Seq<char>>) -> Seq<Seq<char>>
    decreases urls.len(),
{
    if urls.len() == 0 {
        hosts
    } else {
        let before = allow_authorities(hosts, urls.drop_last());
        match parsed_uri(urls.last()) {
            Some((_, Some(a), _)) => if before.contains(a) { before } else { before.push(a) },
            _ => before,
        }
    }
}

} // verus!
