//! The package model: architectures, priorities, version constraints,
//! dependencies and the assembled package record.
use vstd::prelude::*;

use std::cmp::Ordering;

use crate::error::ParseError;
use crate::text::same_text;

verus! {

/// An architecture token, or one of the meta-values `any`, `all` and
/// `linux-any`.
#[derive(Copy, Clone, Debug, Hash, PartialEq, Eq, Ord, PartialOrd, Structural)]
pub enum Arch {
    Any,
    All,
    Amd64,
    Armel,
    Armhf,
    Arm64,
    I386,
    Mips,
    Mipsel,
    Mips64,
    Mips64El,
    Ppc64El,
    S390X,
    LinuxAny,
    X32,
}

/// The architecture that the token `s` names, if any.
pub open spec fn arch_of(s: Seq<char>) -> Option<Arch> {
    if s == "all"@ {
        Some(Arch::All)
    } else if s == "any"@ {
        Some(Arch::Any)
    } else if s == "amd64"@ {
        Some(Arch::Amd64)
    } else if s == "armel"@ {
        Some(Arch::Armel)
    } else if s == "armhf"@ {
        Some(Arch::Armhf)
    } else if s == "arm64"@ {
        Some(Arch::Arm64)
    } else if s == "i386"@ {
        Some(Arch::I386)
    } else if s == "mips"@ {
        Some(Arch::Mips)
    } else if s == "mipsel"@ {
        Some(Arch::Mipsel)
    } else if s == "mips64"@ {
        Some(Arch::Mips64)
    } else if s == "mips64el"@ {
        Some(Arch::Mips64El)
    } else if s == "ppc64el"@ {
        Some(Arch::Ppc64El)
    } else if s == "s390x"@ {
        Some(Arch::S390X)
    } else if s == "linux-any"@ {
        Some(Arch::LinuxAny)
    } else if s == "x32"@ {
        Some(Arch::X32)
    } else {
        None
    }
}

/// The token that names `a`.
pub open spec fn arch_name(a: Arch) -> Seq<char> {
    match a {
        Arch::All => "all"@,
        Arch::Any => "any"@,
        Arch::Amd64 => "amd64"@,
        Arch::Armel => "armel"@,
        Arch::Armhf => "armhf"@,
        Arch::Arm64 => "arm64"@,
        Arch::I386 => "i386"@,
        Arch::Mips => "mips"@,
        Arch::Mipsel => "mipsel"@,
        Arch::Mips64 => "mips64"@,
        Arch::Mips64El => "mips64el"@,
        Arch::Ppc64El => "ppc64el"@,
        Arch::S390X => "s390x"@,
        Arch::LinuxAny => "linux-any"@,
        Arch::X32 => "x32"@,
    }
}

impl Arch {
    /// The architecture named by `s`; an unknown token is an error.
    pub fn from_str(s: &str) -> (r: Result<Arch, ParseError>)
        ensures
            match arch_of(s@) {
                Some(a) => r == Ok::<Arch, ParseError>(a),
                None => r is Err && r->Err_0 is UnknownEnumToken
                    && r->Err_0->UnknownEnumToken_token@ == s@,
            },
    {
        if same_text(s, "all") {
            Ok(Arch::All)
        } else if same_text(s, "any") {
            Ok(Arch::Any)
        } else if same_text(s, "amd64") {
            Ok(Arch::Amd64)
        } else if same_text(s, "armel") {
            Ok(Arch::Armel)
        } else if same_text(s, "armhf") {
            Ok(Arch::Armhf)
        } else if same_text(s, "arm64") {
            Ok(Arch::Arm64)
        } else if same_text(s, "i386") {
            Ok(Arch::I386)
        } else if same_text(s, "mips") {
            Ok(Arch::Mips)
        } else if same_text(s, "mipsel") {
            Ok(Arch::Mipsel)
        } else if same_text(s, "mips64") {
            Ok(Arch::Mips64)
        } else if same_text(s, "mips64el") {
            Ok(Arch::Mips64El)
        } else if same_text(s, "ppc64el") {
            Ok(Arch::Ppc64El)
        } else if same_text(s, "s390x") {
            Ok(Arch::S390X)
        } else if same_text(s, "linux-any") {
            Ok(Arch::LinuxAny)
        } else if same_text(s, "x32") {
            Ok(Arch::X32)
        } else {
            Err(ParseError::UnknownEnumToken { key: String::new(), token: s.to_owned() })
        }
    }

    /// The token that names this architecture.
    pub fn as_str(&self) -> (r: &'static str)
        ensures
            r@ == arch_name(*self),
    {
        match self {
            Arch::All => "all",
            Arch::Any => "any",
            Arch::Amd64 => "amd64",
            Arch::Armel => "armel",
            Arch::Armhf => "armhf",
            Arch::Arm64 => "arm64",
            Arch::I386 => "i386",
            Arch::Mips => "mips",
            Arch::Mipsel => "mipsel",
            Arch::Mips64 => "mips64",
            Arch::Mips64El => "mips64el",
            Arch::Ppc64El => "ppc64el",
            Arch::S390X => "s390x",
            Arch::LinuxAny => "linux-any",
            Arch::X32 => "x32",
        }
    }

    /// The token that names this architecture, owned.
    pub fn to_string(&self) -> (r: String)
        ensures
            r@ == arch_name(*self),
    {
        self.as_str().to_owned()
    }
}

/// The lengths and leading characters that tell the architecture tokens
/// apart.
proof fn lemma_arch_name_shapes()
    ensures
        "all"@.len() == 3,
        "all"@[0] == 'a',
        "all"@[1] == 'l',
        "all"@[2] == 'l',
        "any"@.len() == 3,
        "any"@[0] == 'a',
        "any"@[1] == 'n',
        "any"@[2] == 'y',
        "amd64"@.len() == 5,
        "amd64"@[0] == 'a',
        "amd64"@[1] == 'm',
        "amd64"@[2] == 'd',
        "amd64"@[3] == '6',
        "amd64"@[4] == '4',
        "armel"@.len() == 5,
        "armel"@[0] == 'a',
        "armel"@[1] == 'r',
        "armel"@[2] == 'm',
        "armel"@[3] == 'e',
        "armel"@[4] == 'l',
        "armhf"@.len() == 5,
        "armhf"@[0] == 'a',
        "armhf"@[1] == 'r',
        "armhf"@[2] == 'm',
        "armhf"@[3] == 'h',
        "armhf"@[4] == 'f',
        "arm64"@.len() == 5,
        "arm64"@[0] == 'a',
        "arm64"@[1] == 'r',
        "arm64"@[2] == 'm',
        "arm64"@[3] == '6',
        "arm64"@[4] == '4',
        "i386"@.len() == 4,
        "i386"@[0] == 'i',
        "i386"@[1] == '3',
        "i386"@[2] == '8',
        "i386"@[3] == '6',
        "mips"@.len() == 4,
        "mips"@[0] == 'm',
        "mips"@[1] == 'i',
        "mips"@[2] == 'p',
        "mips"@[3] == 's',
        "mipsel"@.len() == 6,
        "mipsel"@[0] == 'm',
        "mipsel"@[1] == 'i',
        "mipsel"@[2] == 'p',
        "mipsel"@[3] == 's',
        "mipsel"@[4] == 'e',
        "mips64"@.len() == 6,
        "mips64"@[0] == 'm',
        "mips64"@[1] == 'i',
        "mips64"@[2] == 'p',
        "mips64"@[3] == 's',
        "mips64"@[4] == '6',
        "mips64el"@.len() == 8,
        "mips64el"@[0] == 'm',
        "mips64el"@[1] == 'i',
        "mips64el"@[2] == 'p',
        "mips64el"@[3] == 's',
        "mips64el"@[4] == '6',
        "ppc64el"@.len() == 7,
        "ppc64el"@[0] == 'p',
        "ppc64el"@[1] == 'p',
        "ppc64el"@[2] == 'c',
        "ppc64el"@[3] == '6',
        "ppc64el"@[4] == '4',
        "s390x"@.len() == 5,
        "s390x"@[0] == 's',
        "s390x"@[1] == '3',
        "s390x"@[2] == '9',
        "s390x"@[3] == '0',
        "s390x"@[4] == 'x',
        "linux-any"@.len() == 9,
        "linux-any"@[0] == 'l',
        "linux-any"@[1] == 'i',
        "linux-any"@[2] == 'n',
        "linux-any"@[3] == 'u',
        "linux-any"@[4] == 'x',
        "x32"@.len() == 3,
        "x32"@[0] == 'x',
        "x32"@[1] == '3',
        "x32"@[2] == '2',
{
    reveal_strlit("all");
    reveal_strlit("any");
    reveal_strlit("amd64");
    reveal_strlit("armel");
    reveal_strlit("armhf");
    reveal_strlit("arm64");
    reveal_strlit("i386");
    reveal_strlit("mips");
    reveal_strlit("mipsel");
    reveal_strlit("mips64");
    reveal_strlit("mips64el");
    reveal_strlit("ppc64el");
    reveal_strlit("s390x");
    reveal_strlit("linux-any");
    reveal_strlit("x32");
}

/// Every architecture's token parses back to it.
pub proof fn law_arch_name_round_trip(a: Arch)
    ensures
        arch_of(arch_name(a)) == Some(a),
{
    lemma_arch_name_shapes();
}

/// A package's priority; `Unknown` only stands before a field is read.
#[derive(Copy, Clone, Debug, PartialEq, Eq, Structural)]
pub enum Priority {
    Unknown,
    Required,
    Important,
    Standard,
    Optional,
    Extra,
    Source,
}

impl Default for Priority {
    fn default() -> (r: Self)
        ensures
            r == Priority::Unknown,
    {
        Priority::Unknown
    }
}

/// The priority that the token `s` names, if any.
pub open spec fn priority_of(s: Seq<char>) -> Option<Priority> {
    if s == "required"@ {
        Some(Priority::Required)
    } else if s == "important"@ {
        Some(Priority::Important)
    } else if s == "standard"@ {
        Some(Priority::Standard)
    } else if s == "optional"@ {
        Some(Priority::Optional)
    } else if s == "extra"@ {
        Some(Priority::Extra)
    } else if s == "source"@ {
        Some(Priority::Source)
    } else {
        None
    }
}

/// The priority named by `s`; an unknown token is an error.
pub fn parse_priority(s: &str) -> (r: Result<Priority, ParseError>)
    ensures
        match priority_of(s@) {
            Some(p) => r == Ok::<Priority, ParseError>(p),
            None => r is Err && r->Err_0 is UnknownEnumToken && r->Err_0->UnknownEnumToken_token@
                == s@,
        },
{
    if same_text(s, "required") {
        Ok(Priority::Required)
    } else if same_text(s, "important") {
        Ok(Priority::Important)
    } else if same_text(s, "standard") {
        Ok(Priority::Standard)
    } else if same_text(s, "optional") {
        Ok(Priority::Optional)
    } else if same_text(s, "extra") {
        Ok(Priority::Extra)
    } else if same_text(s, "source") {
        Ok(Priority::Source)
    } else {
        Err(ParseError::UnknownEnumToken { key: String::new(), token: s.to_owned() })
    }
}

/// The flag that `yes` or `no` names, if either.
pub open spec fn flag_of(s: Seq<char>) -> Option<bool> {
    if s == "yes"@ {
        Some(true)
    } else if s == "no"@ {
        Some(false)
    } else {
        None
    }
}

/// A `yes`/`no` flag; any other text is a type error.
pub fn yes_no(s: &str) -> (r: Result<bool, ParseError>)
    ensures
        match flag_of(s@) {
            Some(b) => r == Ok::<bool, ParseError>(b),
            None => r is Err && r->Err_0 is TypeError && r->Err_0->TypeError_text@ == s@,
        },
{
    if same_text(s, "yes") {
        Ok(true)
    } else if same_text(s, "no") {
        Ok(false)
    } else {
        Err(ParseError::TypeError { key: String::new(), text: s.to_owned() })
    }
}

/// The relation a version constraint asks for.
#[derive(Copy, Clone, Debug, PartialEq, Eq, Structural)]
pub enum ConstraintOperator {
    Ge,
    Eq,
    Le,
    Gt,
    Lt,
}

/// Whether a candidate that compares as `o` to the constraint's version
/// meets the operator.
pub open spec fn op_holds(op: ConstraintOperator, o: Ordering) -> bool {
    match op {
        ConstraintOperator::Eq => o == Ordering::Equal,
        ConstraintOperator::Ge => o != Ordering::Less,
        ConstraintOperator::Le => o != Ordering::Greater,
        ConstraintOperator::Lt => o == Ordering::Less,
        ConstraintOperator::Gt => o == Ordering::Greater,
    }
}

impl ConstraintOperator {
    /// Whether a candidate that compares as `ordering` to the constraint's
    /// version meets this operator.
    pub fn satisfied_by(&self, ordering: Ordering) -> (r: bool)
        ensures
            r == op_holds(*self, ordering),
    {
        match self {
            ConstraintOperator::Eq => matches!(ordering, Ordering::Equal),
            ConstraintOperator::Ge => !matches!(ordering, Ordering::Less),
            ConstraintOperator::Le => !matches!(ordering, Ordering::Greater),
            ConstraintOperator::Lt => matches!(ordering, Ordering::Less),
            ConstraintOperator::Gt => matches!(ordering, Ordering::Greater),
        }
    }
}

/// Debian's ordering of two version strings.
pub uninterp spec fn debian_order(a: Seq<char>, b: Seq<char>) -> Ordering;

/// Relies on `deb_version::compare_versions`: Debian's ordering of two
/// version strings, a function of the two strings alone, which returns
/// `Equal` at once for equal strings. It slices by character counts, so
/// only ASCII strings are handed to it.
#[verifier::external_body]
fn deb_compare(a: &str, b: &str) -> (r: Ordering)
    requires
        a.is_ascii(),
        b.is_ascii(),
    ensures
        r == debian_order(a@, b@),
        a@ == b@ ==> r == Ordering::Equal,
{
    deb_version::compare_versions(a, b)
}

/// Debian's three-way ordering of two version strings. Versions are ASCII
/// (epoch, upstream version and revision use letters, digits and `.+-~:`).
pub fn compare_versions(a: &str, b: &str) -> (r: Ordering)
    requires
        a.is_ascii(),
        b.is_ascii(),
    ensures
        r == debian_order(a@, b@),
        a@ == b@ ==> r == Ordering::Equal,
{
    deb_compare(a, b)
}

/// A version constraint: an operator and the version it compares against.
#[derive(Clone, Debug, PartialEq, Eq)]
pub struct Constraint {
    pub version: String,
    pub operator: ConstraintOperator,
}

impl Constraint {
    pub fn new(operator: ConstraintOperator, version: &str) -> (r: Self)
        ensures
            r.operator == operator,
            r.version@ == version@,
    {
        Constraint { operator, version: version.to_owned() }
    }

    /// Whether `version` meets this constraint under Debian's ordering.
    pub fn satisfied_by(&self, version: &str) -> (r: bool)
        requires
            version.is_ascii(),
            self.version.is_ascii(),
        ensures
            r == op_holds(self.operator, debian_order(version@, self.version@)),
            version@ == self.version@ ==> r == op_holds(self.operator, Ordering::Equal),
    {
        let o = deb_compare(version, self.version.as_str());
        self.operator.satisfied_by(o)
    }
}

} // verus!
