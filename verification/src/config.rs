use vstd::prelude::*;
use vstd::string::*;

use crate::errors::{MdnsError, ValidationError};

verus! {

/// One shared resource advertised as metadata: a name, a filesystem
/// path in OS-native form, and a free-text comment.
#[derive(Debug, Clone)]
pub struct ShareConfig {
    pub name: String,
    pub path: String,
    pub comment: String,
}

/// Mathematical model of a share: the three fields as character sequences.
#[verifier::ext_equal]
pub struct ShareView {
    pub name: Seq<char>,
    pub path: Seq<char>,
    pub comment: Seq<char>,
}

impl View for ShareConfig {
    type V = ShareView;

    open spec fn view(&self) -> ShareView {
        ShareView { name: self.name@, path: self.path@, comment: self.comment@ }
    }
}

/// The validated runtime configuration of one advertised instance.
#[derive(Debug, Clone)]
pub struct ServiceConfig {
    pub service_name: String,
    pub instance_name: String,
    pub port: u16,
    pub hostname: String,
    pub workgroup: String,
    pub description: String,
    pub shares: Vec<ShareConfig>,
    pub bind_address: Option<String>,
}

/// Mathematical model of a configuration record.
#[verifier::ext_equal]
pub struct ConfigView {
    pub service_name: Seq<char>,
    pub instance_name: Seq<char>,
    pub port: u16,
    pub hostname: Seq<char>,
    pub workgroup: Seq<char>,
    pub description: Seq<char>,
    pub shares: Seq<ShareView>,
    pub bind_address: Option<Seq<char>>,
}

impl View for ServiceConfig {
    type V = ConfigView;

    open spec fn view(&self) -> ConfigView {
        ConfigView {
            service_name: self.service_name@,
            instance_name: self.instance_name@,
            port: self.port,
            hostname: self.hostname@,
            workgroup: self.workgroup@,
            description: self.description@,
            shares: Seq::new(self.shares@.len(), |i: int| self.shares@[i]@),
            bind_address: match self.bind_address {
                Some(a) => Some(a@),
                None => None,
            },
        }
    }
}

/// `s` ends with `suffix`.
pub open spec fn suffix_of(s: Seq<char>, suffix: Seq<char>) -> bool {
    suffix.len() <= s.len() && s.subrange(s.len() - suffix.len(), s.len() as int) == suffix
}

/// Characters a hostname may contain: ASCII letters, digits, hyphen.
pub open spec fn is_hostname_char(c: char) -> bool {
    (48 <= c as u32 && c as u32 <= 57)  // digit
        || (65 <= c as u32 && c as u32 <= 90)  // upper-case letter
        || (97 <= c as u32 && c as u32 <= 122)  // lower-case letter
        || c as u32 == 45  // hyphen
}

/// Non-empty, only hostname characters, and not starting or ending with
/// a hyphen.
pub open spec fn hostname_wf(h: Seq<char>) -> bool {
    h.len() > 0
        && (forall|i: int| 0 <= i < h.len() ==> is_hostname_char(#[trigger] h[i]))
        && h[0] != '-'
        && h[h.len() - 1] != '-'
}

impl ShareView {
    /// Both the name and the path of a share must be non-empty.
    pub open spec fn wf(self) -> bool {
        self.name.len() > 0 && self.path.len() > 0
    }
}

/// First rule broken by a share at or after index `i`, scanning in order.
pub open spec fn first_bad_share(shares: Seq<ShareView>, i: int) -> Option<ValidationError>
    decreases shares.len() - i,
{
    if i < shares.len() {
        if shares[i].name.len() == 0 {
            Some(ValidationError::ShareNameEmpty(i as usize))
        } else if shares[i].path.len() == 0 {
            Some(ValidationError::SharePathEmpty(i as usize))
        } else {
            first_bad_share(shares, i + 1)
        }
    } else {
        None
    }
}

impl ConfigView {
    pub open spec fn service_name_ok(self) -> bool {
        suffix_of(self.service_name, ".local."@)
    }

    pub open spec fn instance_name_ok(self) -> bool {
        0 < self.instance_name.len() <= 63
    }

    pub open spec fn port_ok(self) -> bool {
        self.port != 0
    }

    pub open spec fn hostname_ok(self) -> bool {
        hostname_wf(self.hostname)
    }

    pub open spec fn shares_ok(self) -> bool {
        self.shares.len() > 0 && forall|i: int|
            0 <= i < self.shares.len() ==> (#[trigger] self.shares[i]).wf()
    }

    /// All validation rules hold.
    pub open spec fn valid(self) -> bool {
        self.service_name_ok() && self.instance_name_ok() && self.port_ok()
            && self.hostname_ok() && self.shares_ok()
    }

    /// The first rule the value breaks, in field declaration order, or
    /// `None` when the value is valid.
    pub open spec fn first_issue(self) -> Option<ValidationError> {
        if !self.service_name_ok() {
            Some(ValidationError::ServiceNameSuffix)
        } else if self.instance_name.len() == 0 {
            Some(ValidationError::InstanceNameEmpty)
        } else if self.instance_name.len() > 63 {
            Some(ValidationError::InstanceNameTooLong)
        } else if self.port == 0 {
            Some(ValidationError::PortZero)
        } else if self.hostname.len() == 0 {
            Some(ValidationError::HostnameEmpty)
        } else if !hostname_wf(self.hostname) {
            Some(ValidationError::HostnameChars)
        } else if self.shares.len() == 0 {
            Some(ValidationError::NoShares)
        } else {
            first_bad_share(self.shares, 0)
        }
    }
}

/// A value is valid exactly when the ordered rule scan finds nothing.
pub proof fn lemma_valid_iff_no_issue(v: ConfigView)
    ensures
        v.valid() <==> v.first_issue() is None,
{
    lemma_first_bad_share_none(v.shares, 0);
}

proof fn lemma_first_bad_share_none(shares: Seq<ShareView>, i: int)
    requires
        0 <= i <= shares.len(),
    ensures
        first_bad_share(shares, i) is None <==> forall|j: int|
            i <= j < shares.len() ==> (#[trigger] shares[j]).wf(),
    decreases shares.len() - i,
{
    if i < shares.len() {
        lemma_first_bad_share_none(shares, i + 1);
    }
}

/// Compares the tail of `s` against `suffix`, character by character.
pub fn str_ends_with(s: &str, suffix: &str) -> (r: bool)
    ensures
        r == suffix_of(s@, suffix@),
{
    let n: usize = s.unicode_len();
    let m: usize = suffix.unicode_len();
    if m > n {
        return false;
    }
    let mut j: usize = 0;
    while j < m
        invariant
            m <= n,
            n == s@.len(),
            m == suffix@.len(),
            j <= m,
            forall|k: int| 0 <= k < j ==> s@[n - m + k] == suffix@[k],
        decreases m - j,
    {
        if s.get_char(n - m + j) != suffix.get_char(j) {
            assert(s@.subrange(n - m, n as int)[j as int] != suffix@[j as int]);
            return false;
        }
        j += 1;
    }
    assert(s@.subrange(n - m, n as int) =~= suffix@);
    true
}

impl ServiceConfig {
    /// Checks every rule in field declaration order; the first broken
    /// rule decides the reported error.
    pub fn validate(&self) -> (r: Result<(), MdnsError>)
        ensures
            r is Ok <==> self@.valid(),
            r == match self@.first_issue() {
                Option::None => Result::<(), MdnsError>::Ok(()),
                Option::Some(ve) => Result::<(), MdnsError>::Err(MdnsError::ConfigValidation(ve)),
            },
    {
        proof {
            lemma_valid_iff_no_issue(self@);
        }
        if !str_ends_with(self.service_name.as_str(), ".local.") {
            return Err(MdnsError::ConfigValidation(ValidationError::ServiceNameSuffix));
        }
        let ilen: usize = self.instance_name.as_str().unicode_len();
        if ilen == 0 {
            return Err(MdnsError::ConfigValidation(ValidationError::InstanceNameEmpty));
        }
        if ilen > 63 {
            return Err(MdnsError::ConfigValidation(ValidationError::InstanceNameTooLong));
        }
        if self.port == 0 {
            return Err(MdnsError::ConfigValidation(ValidationError::PortZero));
        }
        let hlen: usize = self.hostname.as_str().unicode_len();
        if hlen == 0 {
            return Err(MdnsError::ConfigValidation(ValidationError::HostnameEmpty));
        }
        if !hostname_chars_ok(self.hostname.as_str()) {
            return Err(MdnsError::ConfigValidation(ValidationError::HostnameChars));
        }
        let nshares: usize = self.shares.len();
        if nshares == 0 {
            return Err(MdnsError::ConfigValidation(ValidationError::NoShares));
        }
        let mut i: usize = 0;
        assert(self@.first_issue() == first_bad_share(self@.shares, 0));
        while i < nshares
            invariant
                nshares == self.shares@.len(),
                i <= nshares,
                self@.first_issue() == first_bad_share(self@.shares, i as int),
                self@.valid() <==> self@.first_issue() is None,
            decreases nshares - i,
        {
            if self.shares[i].name.as_str().is_empty() {
                assert(first_bad_share(self@.shares, i as int)
                    == Some(ValidationError::ShareNameEmpty(i)));
                return Err(MdnsError::ConfigValidation(ValidationError::ShareNameEmpty(i)));
            }
            if self.shares[i].path.as_str().is_empty() {
                assert(first_bad_share(self@.shares, i as int)
                    == Some(ValidationError::SharePathEmpty(i)));
                return Err(MdnsError::ConfigValidation(ValidationError::SharePathEmpty(i)));
            }
            assert(first_bad_share(self@.shares, i as int)
                == first_bad_share(self@.shares, i + 1));
            i += 1;
        }
        Ok(())
    }

    /// The platform-default location of the persisted configuration.
    pub fn config_path(on_windows: bool) -> (r: String)
        ensures
            on_windows ==> r@ == "C:\\ProgramData\\MDNSResponder\\config.json"@,
            !on_windows ==> r@ == "/etc/mdns-responder/config.json"@,
    {
        if on_windows {
            "C:\\ProgramData\\MDNSResponder\\config.json".to_owned()
        } else {
            "/etc/mdns-responder/config.json".to_owned()
        }
    }
}

/// Checks that a hostname is made of hostname characters only and is
/// not hyphen-bounded; assumes the caller already ruled out emptiness.
fn hostname_chars_ok(h: &str) -> (r: bool)
    requires
        h@.len() > 0,
    ensures
        r == hostname_wf(h@),
{
    let n: usize = h.unicode_len();
    let mut i: usize = 0;
    while i < n
        invariant
            n == h@.len(),
            n > 0,
            i <= n,
            forall|k: int| 0 <= k < i ==> is_hostname_char(#[trigger] h@[k]),
        decreases n - i,
    {
        let c = h.get_char(i);
        let u = c as u32;
        let ok = (48 <= u && u <= 57) || (65 <= u && u <= 90) || (97 <= u && u <= 122)
            || u == 45;
        if !ok {
            return false;
        }
        i += 1;
    }
    let first = h.get_char(0);
    if first == '-' {
        return false;
    }
    let last = h.get_char(n - 1);
    if last == '-' {
        return false;
    }
    true
}

/// The built-in configuration template.
pub open spec fn spec_default_config() -> ConfigView {
    ConfigView {
        service_name: "_smb._tcp.local."@,
        instance_name: "Windows-Share"@,
        port: 445,
        hostname: "windows-pc"@,
        workgroup: "WORKGROUP"@,
        description: "Windows SMB Share via mDNS"@,
        shares: seq![
            ShareView {
                name: "Public"@,
                path: "C:\\Users\\Public\\Documents"@,
                comment: "Public shared folder"@,
            },
        ],
        bind_address: None,
    }
}

/// The built-in template passes every validation rule.
pub proof fn lemma_default_config_valid()
    ensures
        spec_default_config().valid(),
{
    reveal_strlit("_smb._tcp.local.");
    reveal_strlit(".local.");
    reveal_strlit("Windows-Share");
    reveal_strlit("windows-pc");
    reveal_strlit("Public");
    reveal_strlit("C:\\Users\\Public\\Documents");
    let v = spec_default_config();
    assert(v.service_name.subrange(
        v.service_name.len() - 7,
        v.service_name.len() as int,
    ) =~= ".local."@);
    assert(hostname_wf(v.hostname));
    assert(v.shares[0].wf());
}

impl Default for ServiceConfig {
    /// Builds the built-in template configuration.
    fn default() -> (r: Self)
        ensures
            r@ == spec_default_config(),
    {
        let mut shares: Vec<ShareConfig> = Vec::new();
        shares.push(ShareConfig {
            name: "Public".to_owned(),
            path: "C:\\Users\\Public\\Documents".to_owned(),
            comment: "Public shared folder".to_owned(),
        });
        let r = ServiceConfig {
            service_name: "_smb._tcp.local.".to_owned(),
            instance_name: "Windows-Share".to_owned(),
            port: 445,
            hostname: "windows-pc".to_owned(),
            workgroup: "WORKGROUP".to_owned(),
            description: "Windows SMB Share via mDNS".to_owned(),
            shares,
            bind_address: None,
        };
        proof {
            assert(r@.shares =~= spec_default_config().shares);
            assert(r@ =~= spec_default_config());
        }
        r
    }
}

} // verus!
