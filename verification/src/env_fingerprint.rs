//! The environment a cached scan was made in; a cache is only trusted when
//! the current fingerprint equals the stored one field by field.
use vstd::prelude::*;
use crate::text::{owned, str_eq};

verus! {

/// Version of the on-disk cache layout.
pub const CACHE_SCHEMA_VERSION: u32 = 1;

/// Version of the cleaning rules, reserved for rule upgrades.
pub const RULE_VERSION: u32 = 1;

#[derive(Debug, Clone)]
pub struct EnvFingerprint {
    pub volume_serial: Option<u64>,
    pub file_system: String,
    pub is_elevated: bool,
    pub user_sid: Option<String>,
    pub app_version: String,
    pub rule_version: u32,
}

/// Field-by-field equality of two fingerprints, strings compared by content.
pub open spec fn fingerprint_equal(a: &EnvFingerprint, b: &EnvFingerprint) -> bool {
    &&& a.volume_serial == b.volume_serial
    &&& a.file_system@ == b.file_system@
    &&& a.is_elevated == b.is_elevated
    &&& match (a.user_sid, b.user_sid) {
        (Some(x), Some(y)) => x@ == y@,
        (None, None) => true,
        _ => false,
    }
    &&& a.app_version@ == b.app_version@
    &&& a.rule_version == b.rule_version
}

impl EnvFingerprint {
    /// The fingerprint of the running process and of the volume a scan
    /// targets, from the values the platform reported: the volume's serial
    /// number and file system, whether the process is elevated, the user's
    /// SID and the application version. The rule version is [`RULE_VERSION`].
    pub fn current(
        volume_serial: Option<u64>,
        file_system: &str,
        is_elevated: bool,
        user_sid: Option<&str>,
        app_version: &str,
    ) -> (r: EnvFingerprint)
        ensures
            r.volume_serial == volume_serial,
            r.file_system@ == file_system@,
            r.is_elevated == is_elevated,
            match user_sid {
                Some(s) => r.user_sid matches Some(t) && t@ == s@,
                None => r.user_sid is None,
            },
            r.app_version@ == app_version@,
            r.rule_version == RULE_VERSION,
    {
        let sid = match user_sid {
            Some(s) => Some(owned(s)),
            None => None,
        };
        EnvFingerprint {
            volume_serial,
            file_system: owned(file_system),
            is_elevated,
            user_sid: sid,
            app_version: owned(app_version),
            rule_version: RULE_VERSION,
        }
    }

    /// Whether two fingerprints are equal field by field.
    pub fn same_as(&self, other: &EnvFingerprint) -> (r: bool)
        ensures
            r == fingerprint_equal(self, other),
    {
        if self.volume_serial != other.volume_serial {
            return false;
        }
        if !str_eq(self.file_system.as_str(), other.file_system.as_str()) {
            return false;
        }
        if self.is_elevated != other.is_elevated {
            return false;
        }
        let sid_same = match (&self.user_sid, &other.user_sid) {
            (Some(x), Some(y)) => str_eq(x.as_str(), y.as_str()),
            (None, None) => true,
            _ => false,
        };
        if !sid_same {
            return false;
        }
        if !str_eq(self.app_version.as_str(), other.app_version.as_str()) {
            return false;
        }
        self.rule_version == other.rule_version
    }
}

impl Default for EnvFingerprint {
    /// The empty fingerprint an old cache without one reads as.
    fn default() -> (r: EnvFingerprint)
        ensures
            r.volume_serial is None,
            r.file_system@ == Seq::<char>::empty(),
            !r.is_elevated,
            r.user_sid is None,
            r.app_version@ == Seq::<char>::empty(),
            r.rule_version == 0,
    {
        EnvFingerprint {
            volume_serial: None,
            file_system: String::new(),
            is_elevated: false,
            user_sid: None,
            app_version: String::new(),
            rule_version: 0,
        }
    }
}

} // verus!
