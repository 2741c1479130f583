use vstd::prelude::*;

verus! {

/// A package version: three numeric release segments plus an optional
/// pre-release number. `1.2.0rc3` is `major 1, minor 2, micro 0, pre 3`;
/// a pre-release sorts immediately before the release it announces.
#[derive(Clone, Copy, Debug, PartialEq, Eq, Structural)]
pub struct Version {
    pub major: u64,
    pub minor: u64,
    pub micro: u64,
    /// Whether this is a pre-release of the `major.minor.micro` release.
    pub pre_flag: bool,
    /// The pre-release number; zero whenever `pre_flag` is false.
    pub pre_num: u64,
}

impl Version {
    /// A well-formed version keeps the pre-release number at zero when the
    /// pre-release flag is clear, so equal versions are equal values.
    pub open spec fn wf(self) -> bool {
        !self.pre_flag ==> self.pre_num == 0
    }

    pub open spec fn spec_is_pre(self) -> bool {
        self.pre_flag
    }

    /// Strict order: release segments lexicographically, then pre-releases
    /// before the final release, pre-releases among themselves by number.
    pub open spec fn spec_lt(self, other: Version) -> bool {
        if self.major != other.major {
            self.major < other.major
        } else if self.minor != other.minor {
            self.minor < other.minor
        } else if self.micro != other.micro {
            self.micro < other.micro
        } else if self.pre_flag != other.pre_flag {
            self.pre_flag
        } else if self.pre_flag {
            self.pre_num < other.pre_num
        } else {
            false
        }
    }

    pub open spec fn spec_le(self, other: Version) -> bool {
        self.spec_lt(other) || self == other
    }

    pub fn release(major: u64, minor: u64, micro: u64) -> (v: Version)
        ensures
            v == (Version { major, minor, micro, pre_flag: false, pre_num: 0u64 }),
            v.wf(),
            !v.spec_is_pre(),
    {
        Version { major, minor, micro, pre_flag: false, pre_num: 0 }
    }

    pub fn pre_release(major: u64, minor: u64, micro: u64, pre_num: u64) -> (v: Version)
        ensures
            v == (Version { major, minor, micro, pre_flag: true, pre_num }),
            v.wf(),
            v.spec_is_pre(),
    {
        Version { major, minor, micro, pre_flag: true, pre_num }
    }

    pub fn is_pre(&self) -> (r: bool)
        ensures
            r == self.spec_is_pre(),
    {
        self.pre_flag
    }

    pub fn lt(&self, other: &Version) -> (r: bool)
        ensures
            r == self.spec_lt(*other),
    {
        if self.major != other.major {
            self.major < other.major
        } else if self.minor != other.minor {
            self.minor < other.minor
        } else if self.micro != other.micro {
            self.micro < other.micro
        } else if self.pre_flag != other.pre_flag {
            self.pre_flag
        } else if self.pre_flag {
            self.pre_num < other.pre_num
        } else {
            false
        }
    }
}

/// The order on versions is strict and total: irreflexive, transitive, and
/// any two well-formed versions are ordered or equal.
pub proof fn lemma_version_order(a: Version, b: Version, c: Version)
    ensures
        !a.spec_lt(a),
        a.spec_lt(b) ==> !b.spec_lt(a),
        a.spec_lt(b) && b.spec_lt(c) ==> a.spec_lt(c),
        a.wf() && b.wf() && !a.spec_lt(b) && !b.spec_lt(a) ==> a == b,
{
}

} // verus!
