use vstd::prelude::*;

use crate::error::YenError;
use crate::text::{chars_of, same_chars};

verus! {

/// The platforms that interpreter archives are built for.
#[derive(PartialEq, Eq, Structural, Clone, Copy, Debug)]
pub enum MachineSuffix {
    DarwinArm64,
    DarwinX64,
    LinuxAarch64,
    LinuxX64GlibC,
    LinuxX64Musl,
}

/// The tail of the archive names built for `m`.
pub open spec fn suffix_text(m: MachineSuffix) -> Seq<char> {
    match m {
        MachineSuffix::DarwinArm64 => "aarch64-apple-darwin-install_only.tar.gz"@,
        MachineSuffix::DarwinX64 => "x86_64-apple-darwin-install_only.tar.gz"@,
        MachineSuffix::LinuxAarch64 => "aarch64-unknown-linux-gnu-install_only.tar.gz"@,
        MachineSuffix::LinuxX64GlibC => "x86_64_v3-unknown-linux-gnu-install_only.tar.gz"@,
        MachineSuffix::LinuxX64Musl => "x86_64_v3-unknown-linux-musl-install_only.tar.gz"@,
    }
}

/// The platform that a target triple names, if archives are built for it.
pub open spec fn platform_of(triple: Seq<char>) -> Option<MachineSuffix> {
    if triple == "x86_64-unknown-linux-musl"@ {
        Some(MachineSuffix::LinuxX64Musl)
    } else if triple == "x86_64-unknown-linux-gnu"@ {
        Some(MachineSuffix::LinuxX64GlibC)
    } else if triple == "aarch64-unknown-linux-gnu"@ {
        Some(MachineSuffix::LinuxAarch64)
    } else if triple == "aarch64-apple-darwin"@ {
        Some(MachineSuffix::DarwinArm64)
    } else if triple == "x86_64-apple-darwin"@ {
        Some(MachineSuffix::DarwinX64)
    } else {
        None
    }
}

fn is_triple(d: &Vec<char>, t: &str) -> (r: bool)
    ensures
        r == (d@ == t@),
{
    let c = chars_of(t);
    same_chars(d, &c)
}

impl MachineSuffix {
    /// The tail of the archive names built for this platform.
    pub fn get_suffix(&self) -> (r: String)
        ensures
            r@ == suffix_text(*self),
    {
        match self {
            MachineSuffix::DarwinArm64 => "aarch64-apple-darwin-install_only.tar.gz".to_owned(),
            MachineSuffix::DarwinX64 => "x86_64-apple-darwin-install_only.tar.gz".to_owned(),
            MachineSuffix::LinuxAarch64 => "aarch64-unknown-linux-gnu-install_only.tar.gz".to_owned(),
            MachineSuffix::LinuxX64GlibC => "x86_64_v3-unknown-linux-gnu-install_only.tar.gz".to_owned(),
            MachineSuffix::LinuxX64Musl => "x86_64_v3-unknown-linux-musl-install_only.tar.gz".to_owned(),
        }
    }

    /// The platform for a host target triple, matched exactly; any other triple is
    /// unsupported.
    pub fn from_target(triple: &str) -> (r: Result<MachineSuffix, YenError>)
        ensures
            r == (match platform_of(triple@) {
                Some(m) => Ok(m),
                None => Err(YenError::UnsupportedPlatform),
            }),
    {
        let d = chars_of(triple);
        if is_triple(&d, "x86_64-unknown-linux-musl") {
            Ok(MachineSuffix::LinuxX64Musl)
        } else if is_triple(&d, "x86_64-unknown-linux-gnu") {
            Ok(MachineSuffix::LinuxX64GlibC)
        } else if is_triple(&d, "aarch64-unknown-linux-gnu") {
            Ok(MachineSuffix::LinuxAarch64)
        } else if is_triple(&d, "aarch64-apple-darwin") {
            Ok(MachineSuffix::DarwinArm64)
        } else if is_triple(&d, "x86_64-apple-darwin") {
            Ok(MachineSuffix::DarwinX64)
        } else {
            Err(YenError::UnsupportedPlatform)
        }
    }
}

} // verus!
