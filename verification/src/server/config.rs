//! The settings of the serving layer, and which origins it answers.

use crate::text::same_text;
use vstd::prelude::*;
use vstd::string::*;

verus! {

/// What of an address decides whether two addresses are of one origin: its
/// scheme, its domain where its host is a domain name, and its port where
/// the address gives one that is not the default of the scheme.
#[derive(Debug)]
pub struct Origin {
    pub scheme: String,
    pub domain: Option<String>,
    pub port: Option<u16>,
}

/// The scheme, the domain and the port of the address `text`, or none where
/// `text` is no absolute address.
pub uninterp spec fn origin_of(text: Seq<char>) -> Option<(Seq<char>, Option<Seq<char>>, Option<u16>)>;

/// A domain as text.
pub open spec fn domain_text(domain: Option<String>) -> Option<Seq<char>> {
    match domain {
        Some(d) => Some(d@),
        None => None,
    }
}

impl Origin {
    /// The scheme, the domain and the port as plain values.
    pub open spec fn parts(self) -> (Seq<char>, Option<Seq<char>>, Option<u16>) {
        (self.scheme@, domain_text(self.domain), self.port)
    }

    /// A copy of the origin.
    pub fn duplicate(&self) -> (r: Origin)
        ensures
            r.parts() == self.parts(),
    {
        Origin {
            scheme: self.scheme.clone(),
            domain: match &self.domain {
                Some(d) => Some(d.clone()),
                None => None,
            },
            port: self.port,
        }
    }

    /// Whether the two are of one origin: the same scheme, domain and port.
    pub fn matches(&self, other: &Origin) -> (r: bool)
        ensures
            r == (self.parts() == other.parts()),
    {
        let domains = match (&self.domain, &other.domain) {
            (Some(a), Some(b)) => same_text(a.as_str(), b.as_str()),
            (None, None) => true,
            _ => false,
        };
        let ports = match (self.port, other.port) {
            (Some(a), Some(b)) => a == b,
            (None, None) => true,
            _ => false,
        };
        same_text(self.scheme.as_str(), other.scheme.as_str()) && domains && ports
    }
}

/// The parts of an origin that may be there.
pub open spec fn parts_of(origin: Option<Origin>) -> Option<(Seq<char>, Option<Seq<char>>, Option<u16>)> {
    match origin {
        Some(o) => Some(o.parts()),
        None => None,
    }
}

/// `Url::parse` of the crate `url`, with `scheme`, `domain` and `port` of
/// the address that it gives: none where `text` is no absolute address.
/// Nothing is proved of the outcome; it is only given its name, `origin_of`,
/// which says that the same text gives the same parts.
#[verifier::external_body]
pub(crate) fn parse_origin(text: &str) -> (r: Option<Origin>)
    ensures
        parts_of(r) == origin_of(text@),
{
    match url::Url::parse(text) {
        Ok(u) => Some(
            Origin {
                scheme: u.scheme().to_owned(),
                domain: u.domain().map(str::to_owned),
                port: u.port(),
            },
        ),
        Err(_) => None,
    }
}

/// The settings of the serving layer.
#[derive(Debug)]
pub struct OGHServerConfig {
    bind_address: String,
    port: u16,
    workers: usize,
    template_autoreload: bool,
    allowed_origins: Vec<Origin>,
    cookie_key_bytes: Vec<u8>,
}

/// Whether one of `origins` has the parts `parts`.
pub open spec fn has_origin(origins: Seq<Origin>, parts: (Seq<char>, Option<Seq<char>>, Option<u16>)) -> bool {
    exists|i: int| 0 <= i < origins.len() && (#[trigger] origins[i]).parts() == parts
}

/// Whether `origins` are the addresses `texts`, one for one.
pub open spec fn are_origins(origins: Seq<Origin>, texts: Seq<String>) -> bool {
    origins.len() == texts.len() && forall|i: int|
        0 <= i < origins.len() ==> Some((#[trigger] origins[i]).parts()) == origin_of(texts[i]@)
}

/// Whether each of `texts` is an absolute address.
pub open spec fn all_addresses(texts: Seq<String>) -> bool {
    forall|i: int| 0 <= i < texts.len() ==> origin_of((#[trigger] texts[i])@) is Some
}

impl OGHServerConfig {
    pub closed spec fn bind_address_text(self) -> Seq<char> {
        self.bind_address@
    }

    pub closed spec fn port_number(self) -> u16 {
        self.port
    }

    pub closed spec fn worker_count(self) -> usize {
        self.workers
    }

    pub closed spec fn autoreload(self) -> bool {
        self.template_autoreload
    }

    pub closed spec fn origins(self) -> Seq<Origin> {
        self.allowed_origins@
    }

    pub closed spec fn cookie_key(self) -> Seq<u8> {
        self.cookie_key_bytes@
    }

    /// The settings from what was given, with the defaults for what was
    /// not: the address `0.0.0.0`, the port 8080, two workers, templates
    /// read once. None where one of the allowed origins is no absolute
    /// address.
    pub fn from_settings(
        bind_address: Option<String>,
        port: Option<u16>,
        workers: Option<usize>,
        template_autoreload: Option<bool>,
        allowed_origins: &Vec<String>,
        cookie_key_bytes: Vec<u8>,
    ) -> (r: Option<OGHServerConfig>)
        ensures
            r is Some <==> all_addresses(allowed_origins@),
            r matches Some(c) ==> {
                &&& c.bind_address_text() == match bind_address {
                    Some(a) => a@,
                    None => "0.0.0.0"@,
                }
                &&& c.port_number() == match port {
                    Some(p) => p,
                    None => 8080u16,
                }
                &&& c.worker_count() == match workers {
                    Some(w) => w,
                    None => 2usize,
                }
                &&& c.autoreload() == match template_autoreload {
                    Some(t) => t,
                    None => false,
                }
                &&& are_origins(c.origins(), allowed_origins@)
                &&& c.cookie_key() == cookie_key_bytes@
            },
    {
        let mut origins: Vec<Origin> = Vec::new();
        let mut i: usize = 0;
        while i < allowed_origins.len()
            invariant
                i <= allowed_origins.len(),
                are_origins(origins@, allowed_origins@.take(i as int)),
                all_addresses(allowed_origins@.take(i as int)),
            decreases allowed_origins.len() - i,
        {
            let ghost before = origins@;
            match parse_origin(allowed_origins[i].as_str()) {
                Some(o) => {
                    origins.push(o);
                },
                None => {
                    return None;
                },
            }
            assert forall|k: int| 0 <= k < before.len() implies origins@[k] == before[k] by {}
            i += 1;
        }
        assert(allowed_origins@.take(allowed_origins@.len() as int) =~= allowed_origins@);
        Some(
            OGHServerConfig {
                bind_address: match bind_address {
                    Some(a) => a,
                    None => "0.0.0.0".to_owned(),
                },
                port: match port {
                    Some(p) => p,
                    None => 8080,
                },
                workers: match workers {
                    Some(w) => w,
                    None => 2,
                },
                template_autoreload: match template_autoreload {
                    Some(t) => t,
                    None => false,
                },
                allowed_origins: origins,
                cookie_key_bytes,
            },
        )
    }

    pub fn get_bind_address(&self) -> (r: &String)
        ensures
            r@ == self.bind_address_text(),
    {
        &self.bind_address
    }

    pub fn get_port(&self) -> (r: &u16)
        ensures
            *r == self.port_number(),
    {
        &self.port
    }

    pub fn get_workers(&self) -> (r: &usize)
        ensures
            *r == self.worker_count(),
    {
        &self.workers
    }

    pub fn get_template_autoreload(&self) -> (r: bool)
        ensures
            r == self.autoreload(),
    {
        self.template_autoreload
    }

    pub fn get_allowed_origins(&self) -> (r: &Vec<Origin>)
        ensures
            r@ == self.origins(),
    {
        &self.allowed_origins
    }

    pub fn get_cookie_key_bytes(&self) -> (r: &Vec<u8>)
        ensures
            r@ == self.cookie_key(),
    {
        &self.cookie_key_bytes
    }

    /// Whether an address of the origin `origin` is answered: any is where
    /// no origin is named in the settings, else those of a named origin.
    pub fn allows(&self, origin: &Origin) -> (r: bool)
        ensures
            r == (self.origins().len() == 0 || has_origin(self.origins(), origin.parts())),
    {
        if self.allowed_origins.len() == 0 {
            return true;
        }
        let mut i: usize = 0;
        while i < self.allowed_origins.len()
            invariant
                i <= self.allowed_origins.len(),
                forall|k: int|
                    0 <= k < i ==> (#[trigger] self.allowed_origins@[k]).parts() != origin.parts(),
            decreases self.allowed_origins.len() - i,
        {
            if self.allowed_origins[i].matches(origin) {
                return true;
            }
            i += 1;
        }
        false
    }

    /// Whether the address `origin` is answered. Where origins are named in
    /// the settings, `origin` must be an absolute address.
    pub fn is_allowed_origin(&self, origin: &str) -> (r: bool)
        requires
            self.origins().len() == 0 || origin_of(origin@) is Some,
        ensures
            r == (self.origins().len() == 0 || has_origin(
                self.origins(),
                origin_of(origin@).unwrap(),
            )),
    {
        if self.allowed_origins.len() == 0 {
            return true;
        }
        match parse_origin(origin) {
            Some(o) => self.allows(&o),
            None => false,
        }
    }

    /// Whether the address `origin` is answered, or none where that cannot
    /// be said: origins are named in the settings and `origin` is no
    /// absolute address.
    pub fn check_origin(&self, origin: &str) -> (r: Option<bool>)
        ensures
            r is None <==> self.origins().len() > 0 && origin_of(origin@) is None,
            r matches Some(b) ==> b == (self.origins().len() == 0 || has_origin(
                self.origins(),
                origin_of(origin@).unwrap(),
            )),
    {
        if self.allowed_origins.len() == 0 {
            return Some(true);
        }
        match parse_origin(origin) {
            Some(_) => Some(self.is_allowed_origin(origin)),
            None => None,
        }
    }
}

} // verus!
