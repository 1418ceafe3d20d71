//! Status codes and build architectures reported by the build service.

use vstd::prelude::*;

use crate::strutil::push_char;
use crate::strutil::str_eq;

verus! {

/// Build status of a single package inside one repository/architecture.
#[derive(Debug, Clone, Copy, PartialEq, Eq, Structural)]
pub enum PackageCode {
    Unresolvable,
    Succeeded,
    Failed,
    Broken,
    Disabled,
    Excluded,
    Blocked,
    Locked,
    Unknown,
    Scheduled,
    Building,
    Finished,
}

impl Default for PackageCode {
    fn default() -> (r: Self)
        ensures
            r == PackageCode::Unknown,
    {
        PackageCode::Unknown
    }
}

/// The codes that count as "nothing to worry about" for the readiness gate.
pub open spec fn package_code_ok(c: PackageCode) -> bool {
    c == PackageCode::Succeeded || c == PackageCode::Disabled || c == PackageCode::Excluded
}

impl PackageCode {
    pub fn is_ok(&self) -> (r: bool)
        ensures
            r == package_code_ok(*self),
    {
        match self {
            PackageCode::Succeeded => true,
            PackageCode::Disabled => true,
            PackageCode::Excluded => true,
            _ => false,
        }
    }
}

/// Publishing state of one repository/architecture pair.
#[derive(Debug, Clone, Copy, PartialEq, Eq, Structural)]
pub enum RepositoryCode {
    Unknown,
    Broken,
    Scheduling,
    Blocked,
    Building,
    Finished,
    Publishing,
    Published,
    Unpublished,
}

impl Default for RepositoryCode {
    fn default() -> (r: Self)
        ensures
            r == RepositoryCode::Unknown,
    {
        RepositoryCode::Unknown
    }
}

/// The repository code that a status-report string names; every
/// unrecognised string maps to `Unknown`.
pub open spec fn repository_code_of(s: Seq<char>) -> RepositoryCode {
    if s == "broken"@ {
        RepositoryCode::Broken
    } else if s == "scheduling"@ {
        RepositoryCode::Scheduling
    } else if s == "blocked"@ {
        RepositoryCode::Blocked
    } else if s == "building"@ {
        RepositoryCode::Building
    } else if s == "finished"@ {
        RepositoryCode::Finished
    } else if s == "publishing"@ {
        RepositoryCode::Publishing
    } else if s == "published"@ {
        RepositoryCode::Published
    } else if s == "unpublished"@ {
        RepositoryCode::Unpublished
    } else {
        RepositoryCode::Unknown
    }
}

impl RepositoryCode {
    /// Parses a repository code from its wire name.
    pub fn from_name(value: &str) -> (r: Self)
        ensures
            r == repository_code_of(value@),
    {
        if str_eq(value, "broken") {
            RepositoryCode::Broken
        } else if str_eq(value, "scheduling") {
            RepositoryCode::Scheduling
        } else if str_eq(value, "blocked") {
            RepositoryCode::Blocked
        } else if str_eq(value, "building") {
            RepositoryCode::Building
        } else if str_eq(value, "finished") {
            RepositoryCode::Finished
        } else if str_eq(value, "publishing") {
            RepositoryCode::Publishing
        } else if str_eq(value, "published") {
            RepositoryCode::Published
        } else if str_eq(value, "unpublished") {
            RepositoryCode::Unpublished
        } else {
            RepositoryCode::Unknown
        }
    }
}

/// Target CPU/platform identifier for a build.
#[derive(Debug, Clone, Copy, PartialEq, Eq, Structural)]
pub enum BuildArch {
    NoArch,
    Aarch64,
    Aarch64Ilp32,
    Armv4l,
    Armv5l,
    Armv6l,
    Armv7l,
    Armv5el,
    Armv6el,
    Armv7el,
    Armv8el,
    Hppa,
    M68k,
    I386,
    I486,
    I586,
    I686,
    Athlon,
    Ia64,
    K1om,
    Loongarch64,
    Mips,
    Mipsel,
    Mips32,
    Mips64,
    Mips64el,
    Ppc,
    Ppc64,
    Ppc64p7,
    Ppc64le,
    Riscv64,
    S390,
    S390x,
    Sh4,
    Sparc,
    Sparc64,
    Sparc64v,
    Sparcv8,
    Sparcv9,
    Sparcv9v,
    X86_64,
    Local,
}

impl Default for BuildArch {
    fn default() -> (r: Self)
        ensures
            r == BuildArch::NoArch,
    {
        BuildArch::NoArch
    }
}

/// The camel-case name of an architecture variant.
pub open spec fn arch_camel_name(a: BuildArch) -> Seq<char> {
    match a {
        BuildArch::NoArch => "NoArch"@,
        BuildArch::Aarch64 => "Aarch64"@,
        BuildArch::Aarch64Ilp32 => "Aarch64Ilp32"@,
        BuildArch::Armv4l => "Armv4l"@,
        BuildArch::Armv5l => "Armv5l"@,
        BuildArch::Armv6l => "Armv6l"@,
        BuildArch::Armv7l => "Armv7l"@,
        BuildArch::Armv5el => "Armv5el"@,
        BuildArch::Armv6el => "Armv6el"@,
        BuildArch::Armv7el => "Armv7el"@,
        BuildArch::Armv8el => "Armv8el"@,
        BuildArch::Hppa => "Hppa"@,
        BuildArch::M68k => "M68k"@,
        BuildArch::I386 => "I386"@,
        BuildArch::I486 => "I486"@,
        BuildArch::I586 => "I586"@,
        BuildArch::I686 => "I686"@,
        BuildArch::Athlon => "Athlon"@,
        BuildArch::Ia64 => "Ia64"@,
        BuildArch::K1om => "K1om"@,
        BuildArch::Loongarch64 => "Loongarch64"@,
        BuildArch::Mips => "Mips"@,
        BuildArch::Mipsel => "Mipsel"@,
        BuildArch::Mips32 => "Mips32"@,
        BuildArch::Mips64 => "Mips64"@,
        BuildArch::Mips64el => "Mips64el"@,
        BuildArch::Ppc => "Ppc"@,
        BuildArch::Ppc64 => "Ppc64"@,
        BuildArch::Ppc64p7 => "Ppc64p7"@,
        BuildArch::Ppc64le => "Ppc64le"@,
        BuildArch::Riscv64 => "Riscv64"@,
        BuildArch::S390 => "S390"@,
        BuildArch::S390x => "S390x"@,
        BuildArch::Sh4 => "Sh4"@,
        BuildArch::Sparc => "Sparc"@,
        BuildArch::Sparc64 => "Sparc64"@,
        BuildArch::Sparc64v => "Sparc64v"@,
        BuildArch::Sparcv8 => "Sparcv8"@,
        BuildArch::Sparcv9 => "Sparcv9"@,
        BuildArch::Sparcv9v => "Sparcv9v"@,
        BuildArch::X86_64 => "X86_64"@,
        BuildArch::Local => "Local"@,
    }
}

impl BuildArch {
    fn camel_name(&self) -> (r: &'static str)
        ensures
            r@ == arch_camel_name(*self),
    {
        match self {
            BuildArch::NoArch => "NoArch",
            BuildArch::Aarch64 => "Aarch64",
            BuildArch::Aarch64Ilp32 => "Aarch64Ilp32",
            BuildArch::Armv4l => "Armv4l",
            BuildArch::Armv5l => "Armv5l",
            BuildArch::Armv6l => "Armv6l",
            BuildArch::Armv7l => "Armv7l",
            BuildArch::Armv5el => "Armv5el",
            BuildArch::Armv6el => "Armv6el",
            BuildArch::Armv7el => "Armv7el",
            BuildArch::Armv8el => "Armv8el",
            BuildArch::Hppa => "Hppa",
            BuildArch::M68k => "M68k",
            BuildArch::I386 => "I386",
            BuildArch::I486 => "I486",
            BuildArch::I586 => "I586",
            BuildArch::I686 => "I686",
            BuildArch::Athlon => "Athlon",
            BuildArch::Ia64 => "Ia64",
            BuildArch::K1om => "K1om",
            BuildArch::Loongarch64 => "Loongarch64",
            BuildArch::Mips => "Mips",
            BuildArch::Mipsel => "Mipsel",
            BuildArch::Mips32 => "Mips32",
            BuildArch::Mips64 => "Mips64",
            BuildArch::Mips64el => "Mips64el",
            BuildArch::Ppc => "Ppc",
            BuildArch::Ppc64 => "Ppc64",
            BuildArch::Ppc64p7 => "Ppc64p7",
            BuildArch::Ppc64le => "Ppc64le",
            BuildArch::Riscv64 => "Riscv64",
            BuildArch::S390 => "S390",
            BuildArch::S390x => "S390x",
            BuildArch::Sh4 => "Sh4",
            BuildArch::Sparc => "Sparc",
            BuildArch::Sparc64 => "Sparc64",
            BuildArch::Sparc64v => "Sparc64v",
            BuildArch::Sparcv8 => "Sparcv8",
            BuildArch::Sparcv9 => "Sparcv9",
            BuildArch::Sparcv9v => "Sparcv9v",
            BuildArch::X86_64 => "X86_64",
            BuildArch::Local => "Local",
        }
    }

    /// The lower-case wire name of the architecture, e.g. the one used
    /// in request routes.
    pub fn label(&self) -> (r: String)
        ensures
            r@ == snake_of(arch_camel_name(*self)),
    {
        to_snake_case(self.camel_name())
    }
}

/// An ASCII capital letter.
pub open spec fn is_ascii_upper(c: char) -> bool {
    65 <= c as u32 <= 90
}

/// The lower-case form of an ASCII capital letter; any other character
/// is left as it is.
pub open spec fn lower_char(c: char) -> char {
    match c {
        'A' => 'a',
        'B' => 'b',
        'C' => 'c',
        'D' => 'd',
        'E' => 'e',
        'F' => 'f',
        'G' => 'g',
        'H' => 'h',
        'I' => 'i',
        'J' => 'j',
        'K' => 'k',
        'L' => 'l',
        'M' => 'm',
        'N' => 'n',
        'O' => 'o',
        'P' => 'p',
        'Q' => 'q',
        'R' => 'r',
        'S' => 's',
        'T' => 't',
        'U' => 'u',
        'V' => 'v',
        'W' => 'w',
        'X' => 'x',
        'Y' => 'y',
        'Z' => 'z',
        _ => c,
    }
}

/// The snake-case form of a camel-case name: every ASCII capital letter
/// is lowered, and every one after the first character also gets an
/// underscore before it.
pub open spec fn snake_of(s: Seq<char>) -> Seq<char>
    decreases s.len(),
{
    if s.len() == 0 {
        Seq::empty()
    } else {
        let prefix = snake_of(s.drop_last());
        let c = s.last();
        if s.len() > 1 && is_ascii_upper(c) {
            prefix.push('_').push(lower_char(c))
        } else {
            prefix.push(lower_char(c))
        }
    }
}

pub fn to_lower_char(c: char) -> (r: char)
    ensures
        r == lower_char(c),
{
    match c {
        'A' => 'a',
        'B' => 'b',
        'C' => 'c',
        'D' => 'd',
        'E' => 'e',
        'F' => 'f',
        'G' => 'g',
        'H' => 'h',
        'I' => 'i',
        'J' => 'j',
        'K' => 'k',
        'L' => 'l',
        'M' => 'm',
        'N' => 'n',
        'O' => 'o',
        'P' => 'p',
        'Q' => 'q',
        'R' => 'r',
        'S' => 's',
        'T' => 't',
        'U' => 'u',
        'V' => 'v',
        'W' => 'w',
        'X' => 'x',
        'Y' => 'y',
        'Z' => 'z',
        _ => c,
    }
}

fn is_upper(c: char) -> (r: bool)
    ensures
        r == is_ascii_upper(c),
{
    let u = c as u32;
    65 <= u && u <= 90
}

/// Rewrites a camel-case name into snake case, lowering ASCII capitals
/// and separating them with underscores.
pub fn to_snake_case(s: &str) -> (r: String)
    ensures
        r@ == snake_of(s@),
{
    let mut snake = String::new();
    let len = s.unicode_len();
    let mut i: usize = 0;
    while i < len
        invariant
            len == s@.len(),
            0 <= i <= len,
            snake@ == snake_of(s@.subrange(0, i as int)),
        decreases len - i,
    {
        let ch = s.get_char(i);
        if i > 0 && is_upper(ch) {
            push_char(&mut snake, '_');
        }
        push_char(&mut snake, to_lower_char(ch));
        proof {
            let sub_next = s@.subrange(0, i + 1);
            assert(sub_next.drop_last() =~= s@.subrange(0, i as int));
            assert(sub_next.last() == s@[i as int]);
        }
        i = i + 1;
    }
    proof {
        assert(s@.subrange(0, len as int) =~= s@);
    }
    snake
}

} // verus!
