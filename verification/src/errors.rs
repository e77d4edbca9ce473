use vstd::prelude::*;
use vstd::string::*;

verus! {

/// Identifies the configuration rule that a value broke.  The share
/// variants carry the index of the offending share record.  The
/// registration-label variant names a rule checked only at
/// registration: the advertised fullname's label before the
/// registration domain must be non-empty and start with an ASCII
/// character, or the discovery collaborator cannot examine the name.
#[derive(Clone, Copy, Debug, PartialEq, Eq, Structural)]
pub enum ValidationError {
    ServiceNameSuffix,
    InstanceNameEmpty,
    InstanceNameTooLong,
    PortZero,
    HostnameEmpty,
    HostnameChars,
    NoShares,
    ShareNameEmpty(usize),
    SharePathEmpty(usize),
    RegistrationLabel,
}

impl ValidationError {
    /// Human-readable description of the broken rule; share errors name
    /// the index of the failing share.
    pub fn message(&self) -> (r: String)
        ensures
            r@ == match *self {
                ValidationError::ServiceNameSuffix => "service_name must end with '.local.'"@,
                ValidationError::InstanceNameEmpty => "instance_name cannot be empty"@,
                ValidationError::InstanceNameTooLong => "instance_name exceeds 63 characters"@,
                ValidationError::PortZero => "port cannot be 0"@,
                ValidationError::HostnameEmpty => "hostname cannot be empty"@,
                ValidationError::HostnameChars => "hostname must contain only alphanumeric characters and hyphens"@,
                ValidationError::NoShares => "at least one share must be configured"@,
                ValidationError::ShareNameEmpty(i) => "share["@ + crate::address::dec_str(
                    i as int,
                ) + "]: name cannot be empty"@,
                ValidationError::SharePathEmpty(i) => "share["@ + crate::address::dec_str(
                    i as int,
                ) + "]: path cannot be empty"@,
                ValidationError::RegistrationLabel => "the label before the registration domain is empty or starts with a non-ASCII character"@,
            },
    {
        match *self {
            ValidationError::ServiceNameSuffix => "service_name must end with '.local.'".to_owned(),
            ValidationError::InstanceNameEmpty => "instance_name cannot be empty".to_owned(),
            ValidationError::InstanceNameTooLong => "instance_name exceeds 63 characters".to_owned(),
            ValidationError::PortZero => "port cannot be 0".to_owned(),
            ValidationError::HostnameEmpty => "hostname cannot be empty".to_owned(),
            ValidationError::HostnameChars => "hostname must contain only alphanumeric characters and hyphens".to_owned(),
            ValidationError::NoShares => "at least one share must be configured".to_owned(),
            ValidationError::ShareNameEmpty(i) => {
                let r = "share[".to_owned().concat(
                    crate::address::usize_string(i).as_str(),
                ).concat("]: name cannot be empty");
                assert(r@ =~= "share["@ + crate::address::dec_str(i as int)
                    + "]: name cannot be empty"@);
                r
            },
            ValidationError::SharePathEmpty(i) => {
                let r = "share[".to_owned().concat(
                    crate::address::usize_string(i).as_str(),
                ).concat("]: path cannot be empty");
                assert(r@ =~= "share["@ + crate::address::dec_str(i as int)
                    + "]: path cannot be empty"@);
                r
            },
            ValidationError::RegistrationLabel => "the label before the registration domain is empty or starts with a non-ASCII character".to_owned(),
        }
    }
}

/// The library's error type.  Payload strings carry messages that came
/// from the platform or from the discovery collaborator.
#[derive(Debug, Clone)]
pub enum MdnsError {
    ConfigValidation(ValidationError),
    Io(String),
    Json(String),
    Service(String),
    Thread(String),
    ServiceDispatcher(String),
    IpConfig(String),
}

impl MdnsError {
    /// Returns true for the error kinds that a run may not recover from.
    pub fn is_validation(&self) -> (r: bool)
        ensures
            r == (self is ConfigValidation),
    {
        match self {
            MdnsError::ConfigValidation(_) => true,
            _ => false,
        }
    }
}

} // verus!
