//! Device identity: the eight fixed queries sent over simple-command
//! sessions and the record their trimmed replies populate.

use vstd::prelude::*;
use vstd::string::StringExecFns;

verus! {

/// How many identity queries the probe issues.
pub const PROBE_QUERY_COUNT: usize = 8;

/// The textual identity of a device, one field per probe query.
#[derive(Debug, Clone, PartialEq, Eq)]
pub struct DeviceInfo {
    pub device: String,
    pub version: String,
    pub sn: String,
    pub codebase: String,
    pub branch: String,
    pub language: String,
    pub region: String,
    pub romzone: String,
}

impl Default for DeviceInfo {
    /// All fields empty.
    fn default() -> (r: Self)
        ensures
            r.device@ == Seq::<char>::empty(),
            r.version@ == Seq::<char>::empty(),
            r.sn@ == Seq::<char>::empty(),
            r.codebase@ == Seq::<char>::empty(),
            r.branch@ == Seq::<char>::empty(),
            r.language@ == Seq::<char>::empty(),
            r.region@ == Seq::<char>::empty(),
            r.romzone@ == Seq::<char>::empty(),
    {
        DeviceInfo {
            device: String::new(),
            version: String::new(),
            sn: String::new(),
            codebase: String::new(),
            branch: String::new(),
            language: String::new(),
            region: String::new(),
            romzone: String::new(),
        }
    }
}

impl DeviceInfo {
    /// Every field set to the placeholder `unknown`.
    pub fn unknown() -> (r: Self)
        ensures
            r.device@ == "unknown"@,
            r.version@ == "unknown"@,
            r.sn@ == "unknown"@,
            r.codebase@ == "unknown"@,
            r.branch@ == "unknown"@,
            r.language@ == "unknown"@,
            r.region@ == "unknown"@,
            r.romzone@ == "unknown"@,
    {
        DeviceInfo {
            device: String::from_str("unknown"),
            version: String::from_str("unknown"),
            sn: String::from_str("unknown"),
            codebase: String::from_str("unknown"),
            branch: String::from_str("unknown"),
            language: String::from_str("unknown"),
            region: String::from_str("unknown"),
            romzone: String::from_str("unknown"),
        }
    }

    /// The identity assembled from the eight probe replies, in the fixed
    /// query order: reply `i` answers `spec_probe_query(i)` and lands in
    /// the field it identifies, so a full set of replies populates every
    /// field.
    pub fn from_probe_replies(replies: &Vec<String>) -> (r: Self)
        requires
            replies@.len() == 8,
        ensures
            r.device@ == replies@[0]@,
            r.version@ == replies@[1]@,
            r.sn@ == replies@[2]@,
            r.codebase@ == replies@[3]@,
            r.branch@ == replies@[4]@,
            r.language@ == replies@[5]@,
            r.region@ == replies@[6]@,
            r.romzone@ == replies@[7]@,
    {
        DeviceInfo {
            device: replies[0].clone(),
            version: replies[1].clone(),
            sn: replies[2].clone(),
            codebase: replies[3].clone(),
            branch: replies[4].clone(),
            language: replies[5].clone(),
            region: replies[6].clone(),
            romzone: replies[7].clone(),
        }
    }

    /// Store the reply to probe query `i` in the field it identifies,
    /// leaving every other field unchanged.
    pub fn set_probe_reply(&mut self, i: usize, value: String)
        requires
            i < 8,
        ensures
            i == 0 ==> *final(self) == (DeviceInfo { device: value, ..*old(self) }),
            i == 1 ==> *final(self) == (DeviceInfo { version: value, ..*old(self) }),
            i == 2 ==> *final(self) == (DeviceInfo { sn: value, ..*old(self) }),
            i == 3 ==> *final(self) == (DeviceInfo { codebase: value, ..*old(self) }),
            i == 4 ==> *final(self) == (DeviceInfo { branch: value, ..*old(self) }),
            i == 5 ==> *final(self) == (DeviceInfo { language: value, ..*old(self) }),
            i == 6 ==> *final(self) == (DeviceInfo { region: value, ..*old(self) }),
            i == 7 ==> *final(self) == (DeviceInfo { romzone: value, ..*old(self) }),
    {
        if i == 0 {
            self.device = value;
        } else if i == 1 {
            self.version = value;
        } else if i == 2 {
            self.sn = value;
        } else if i == 3 {
            self.codebase = value;
        } else if i == 4 {
            self.branch = value;
        } else if i == 5 {
            self.language = value;
        } else if i == 6 {
            self.region = value;
        } else {
            self.romzone = value;
        }
    }
}

/// The command text of probe query `i`, in the fixed probe order.
pub open spec fn spec_probe_query(i: int) -> Seq<char> {
    if i == 0 {
        "getdevice:"@
    } else if i == 1 {
        "getversion:"@
    } else if i == 2 {
        "getsn:"@
    } else if i == 3 {
        "getcodebase:"@
    } else if i == 4 {
        "getbranch:"@
    } else if i == 5 {
        "getlanguage:"@
    } else if i == 6 {
        "getregion:"@
    } else {
        "getromzone:"@
    }
}

pub fn probe_query(i: usize) -> (r: &'static str)
    requires
        i < 8,
    ensures
        r@ == spec_probe_query(i as int),
{
    if i == 0 {
        "getdevice:"
    } else if i == 1 {
        "getversion:"
    } else if i == 2 {
        "getsn:"
    } else if i == 3 {
        "getcodebase:"
    } else if i == 4 {
        "getbranch:"
    } else if i == 5 {
        "getlanguage:"
    } else if i == 6 {
        "getregion:"
    } else {
        "getromzone:"
    }
}

} // verus!
