use vstd::prelude::*;
use vstd::string::*;

use crate::config::{suffix_of, ServiceConfig, ShareView};

verus! {

/// The fully-qualified form of a hostname: if it already ends with the
/// discovery-domain suffix and separator it is kept; if it ends with
/// the bare suffix the separator is appended; otherwise the whole
/// suffix is appended.
pub open spec fn spec_normalize_hostname(h: Seq<char>) -> Seq<char> {
    if suffix_of(h, ".local."@) {
        h
    } else if suffix_of(h, ".local"@) {
        h + "."@
    } else {
        h + ".local."@
    }
}

/// Normalizes a hostname to its fully-qualified discovery-domain form.
pub fn normalize_hostname(h: &str) -> (r: String)
    ensures
        r@ == spec_normalize_hostname(h@),
{
    if crate::config::str_ends_with(h, ".local.") {
        h.to_owned()
    } else if crate::config::str_ends_with(h, ".local") {
        h.to_owned().concat(".")
    } else {
        h.to_owned().concat(".local.")
    }
}

/// A path with every backslash separator replaced by a forward slash.
pub open spec fn spec_normalize_seps(p: Seq<char>) -> Seq<char> {
    Seq::new(p.len(), |i: int| if p[i] == '\\' { '/' } else { p[i] })
}

/// Replaces OS-native backslash separators with forward slashes.
pub fn normalize_separators(p: &str) -> (r: String)
    ensures
        r@ == spec_normalize_seps(p@),
{
    let n: usize = p.unicode_len();
    let mut out = String::new();
    let mut i: usize = 0;
    while i < n
        invariant
            n == p@.len(),
            i <= n,
            out@ =~= spec_normalize_seps(p@).subrange(0, i as int),
        decreases n - i,
    {
        let c = p.get_char(i);
        if c == '\\' {
            out.append("/");
            proof {
                reveal_strlit("/");
            }
        } else {
            let piece = p.substring_char(i, i + 1);
            out.append(piece);
        }
        assert(out@ =~= spec_normalize_seps(p@).subrange(0, i + 1));
        i += 1;
    }
    assert(out@ =~= spec_normalize_seps(p@));
    out
}

/// The first `k` share paths, separators normalized, joined by commas.
pub open spec fn spec_join_upto(shares: Seq<ShareView>, k: int) -> Seq<char>
    decreases k,
{
    if k <= 0 {
        Seq::empty()
    } else if k == 1 {
        spec_normalize_seps(shares[0].path)
    } else {
        spec_join_upto(shares, k - 1) + ","@ + spec_normalize_seps(shares[k - 1].path)
    }
}

/// Every share path, separators normalized, joined by commas in the
/// order the shares were configured.
pub open spec fn spec_joined_paths(shares: Seq<ShareView>) -> Seq<char> {
    spec_join_upto(shares, shares.len() as int)
}

/// Joins the share paths into the advertised path list.
pub fn join_share_paths(config: &ServiceConfig) -> (r: String)
    ensures
        r@ == spec_joined_paths(config@.shares),
{
    let n: usize = config.shares.len();
    let mut out = String::new();
    let mut i: usize = 0;
    while i < n
        invariant
            n == config.shares@.len(),
            i <= n,
            out@ == spec_join_upto(config@.shares, i as int),
        decreases n - i,
    {
        if i > 0 {
            out.append(",");
        }
        let piece = normalize_separators(config.shares[i].path.as_str());
        out.append(piece.as_str());
        i += 1;
    }
    out
}

/// The metadata advertised with the service: fixed protocol fields,
/// then workgroup, description and the joined path list.
pub open spec fn txt_records_ok(r: Seq<(String, String)>, c: crate::config::ConfigView) -> bool {
    r.len() == 6 && r[0].0@ == "vers"@ && r[0].1@ == "3.0"@ && r[1].0@ == "nt"@ && r[1].1@
        == "hardware"@ && r[2].0@ == "flags"@ && r[2].1@ == "1"@ && r[3].0@ == "workgroup"@
        && r[3].1@ == c.workgroup && r[4].0@ == "description"@ && r[4].1@ == c.description
        && r[5].0@ == "path"@ && r[5].1@ == spec_joined_paths(c.shares)
}

/// Builds the advertised metadata in a fixed key order.
pub fn build_txt_records(config: &ServiceConfig) -> (r: Vec<(String, String)>)
    ensures
        txt_records_ok(r@, config@),
{
    let mut r: Vec<(String, String)> = Vec::new();
    r.push(("vers".to_owned(), "3.0".to_owned()));
    r.push(("nt".to_owned(), "hardware".to_owned()));
    r.push(("flags".to_owned(), "1".to_owned()));
    r.push(("workgroup".to_owned(), config.workgroup.clone()));
    r.push(("description".to_owned(), config.description.clone()));
    r.push(("path".to_owned(), join_share_paths(config)));
    r
}

/// The record handed to the discovery collaborator: advertised names,
/// the chosen address, the port and the metadata.
pub struct AdvertisementRecord {
    pub service_name: String,
    pub instance_name: String,
    pub hostname_fqdn: String,
    pub address: String,
    pub port: u16,
    pub txt: Vec<(String, String)>,
}

impl AdvertisementRecord {
    /// The record faithfully reflects the configuration and address it
    /// was built from.
    pub open spec fn derived_from(
        self,
        c: crate::config::ConfigView,
        address: Seq<char>,
    ) -> bool {
        self.service_name@ == c.service_name && self.instance_name@ == c.instance_name
            && self.hostname_fqdn@ == spec_normalize_hostname(c.hostname) && self.address@
            == address && self.port == c.port && txt_records_ok(self.txt@, c)
    }
}

/// Builds the advertisement record for one run from the configuration
/// and the chosen address.
pub fn build_record(config: &ServiceConfig, address: String) -> (r: AdvertisementRecord)
    ensures
        r.derived_from(config@, address@),
{
    AdvertisementRecord {
        service_name: config.service_name.clone(),
        instance_name: config.instance_name.clone(),
        hostname_fqdn: normalize_hostname(config.hostname.as_str()),
        address,
        port: config.port,
        txt: build_txt_records(config),
    }
}

} // verus!
