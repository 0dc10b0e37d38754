//! The package record and the assembler that builds a binary package from
//! the scanned fields of one stanza.
use vstd::prelude::*;

use crate::deps::{dep_views, parse_dep, parse_deps, AltView, Dependency};
use crate::error::{error_key, ParseError};
use crate::rfc822::{
    clone_lines, has_key, join_space, joined, last_value, line_views, one_line,
    scan_lines_from, FieldMap, Line, LineView, Scanner,
};
use crate::text::{same_text, split_words, str_views, views, words};
use crate::types::{arch_name, arch_of, flag_of, parse_priority, priority_of, yes_no, Arch, Priority};
use crate::values::{identity_views, parse_size, read, read_identities, size_of, Identity};

verus! {

/// Where a package's file lives and the digests it must match.
#[derive(Clone, Debug, PartialEq, Eq)]
pub struct File {
    pub name: String,
    pub size: u64,
    pub md5: String,
    pub sha1: String,
    pub sha256: String,
    pub sha512: String,
}

/// The kind of a version-control pointer.
#[derive(Copy, Clone, Debug, PartialEq, Eq)]
pub enum VcsType {
    Browser,
    Arch,
    Bzr,
    Cvs,
    Darcs,
    Git,
    Hg,
    Mtn,
    Svn,
}

/// Which tree a version-control pointer refers to.
#[derive(Copy, Clone, Debug, PartialEq, Eq)]
pub enum VcsTag {
    Vcs,
    Orig,
    Debian,
    Upstream,
}

/// A version-control pointer of a source package.
#[derive(Clone, Debug, PartialEq, Eq)]
pub struct Vcs {
    pub description: String,
    pub type_: VcsType,
    pub tag: VcsTag,
}

/// A binary package that a source package lists.
#[derive(Clone, Debug, PartialEq, Eq)]
pub struct SourceBinary {
    pub name: String,
    pub style: String,
    pub section: String,
    pub priority: Priority,
    pub extras: Vec<String>,
}

/// A description in one locale.
pub struct Description {
    pub locale: String,
    pub value: String,
}

/// The packaging format of a source package.
#[derive(Copy, Clone, Debug, PartialEq, Eq)]
pub enum SourceFormat {
    Unknown,
    Original,
    Quilt3dot0,
    Native3dot0,
    Git3dot0,
}

/// Build-time metadata of a source package.
#[derive(Clone, Debug, PartialEq, Eq)]
pub struct Source {
    pub format: SourceFormat,
    pub binaries: Vec<SourceBinary>,
    pub files: Vec<File>,
    pub vcs: Vec<Vcs>,
    pub build_dep: Vec<Dependency>,
    pub build_dep_arch: Vec<Dependency>,
    pub build_dep_indep: Vec<Dependency>,
    pub build_conflict: Vec<Dependency>,
    pub build_conflict_arch: Vec<Dependency>,
    pub build_conflict_indep: Vec<Dependency>,
    pub uploaders: Vec<Identity>,
}

/// Install-time metadata of a binary package.
#[derive(Clone, Debug, PartialEq, Eq)]
pub struct Binary {
    /// Absent in e.g. `dpkg/status`.
    pub file: Option<File>,
    pub essential: bool,
    pub build_essential: bool,
    pub installed_size: u64,
    pub description: String,
    pub depends: Vec<Dependency>,
    pub recommends: Vec<Dependency>,
    pub suggests: Vec<Dependency>,
    pub enhances: Vec<Dependency>,
    pub pre_depends: Vec<Dependency>,
    pub breaks: Vec<Dependency>,
    pub conflicts: Vec<Dependency>,
    pub replaces: Vec<Dependency>,
    pub provides: Vec<Dependency>,
}

/// A source or a binary package.
#[derive(Clone, Debug, PartialEq, Eq)]
pub enum PackageType {
    Source(Source),
    Binary(Binary),
}

/// One parsed stanza.
#[derive(Clone, Debug, PartialEq, Eq)]
pub struct Package {
    pub name: String,
    pub version: String,
    pub priority: Priority,
    pub arches: Vec<Arch>,
    pub maintainer: Vec<Identity>,
    pub original_maintainer: Vec<Identity>,
    /// The fields that no handler knows, verbatim.
    pub unparsed: FieldMap,
    pub style: PackageType,
}

impl Package {
    /// The package as `name=version`, with `:arch` after the name when it has
    /// exactly one architecture; one with several cannot be shown this way.
    pub fn to_string(&self) -> (r: String)
        requires
            self.arches@.len() <= 1,
        ensures
            r@ == self.name@ + (if self.arches@.len() == 1 {
                seq![':'] + arch_name(self.arches@[0])
            } else {
                Seq::empty()
            }) + seq!['='] + self.version@,
    {
        let mut out = self.name.as_str().to_owned();
        if self.arches.len() == 1 {
            let colon = ":";
            proof {
                reveal_strlit(":");
            }
            out.append(colon);
            out.append(self.arches[0].as_str());
        }
        let eq = "=";
        proof {
            reveal_strlit("=");
        }
        out.append(eq);
        out.append(self.version.as_str());
        assert(out@ =~= self.name@ + (if self.arches@.len() == 1 {
            seq![':'] + arch_name(self.arches@[0])
        } else {
            Seq::empty()
        }) + seq!['='] + self.version@);
        out
    }

    /// The binary metadata, if this is a binary package.
    pub fn bin(&self) -> (r: Option<&Binary>)
        ensures
            match self.style {
                PackageType::Binary(b) => r == Some(&b),
                PackageType::Source(_) => r is None,
            },
    {
        match &self.style {
            PackageType::Binary(b) => Some(b),
            PackageType::Source(_) => None,
        }
    }
}

/// What the fields of a binary stanza have set so far.
pub struct BinAcc {
    pub name: Option<Seq<char>>,
    pub version: Option<Seq<char>>,
    pub priority: Option<Priority>,
    pub arches: Option<Seq<Arch>>,
    pub maintainer: Seq<(Seq<char>, Seq<char>)>,
    pub original_maintainer: Seq<(Seq<char>, Seq<char>)>,
    pub essential: Option<bool>,
    pub build_essential: Option<bool>,
    pub installed_size: Option<u64>,
    pub description: Option<Seq<char>>,
    pub depends: Seq<Seq<AltView>>,
    pub recommends: Seq<Seq<AltView>>,
    pub suggests: Seq<Seq<AltView>>,
    pub enhances: Seq<Seq<AltView>>,
    pub pre_depends: Seq<Seq<AltView>>,
    pub breaks: Seq<Seq<AltView>>,
    pub conflicts: Seq<Seq<AltView>>,
    pub replaces: Seq<Seq<AltView>>,
    pub provides: Seq<Seq<AltView>>,
    pub unparsed: Seq<LineView>,
    /// How many fields were only reported as warnings.
    pub warnings: nat,
    pub filename: Option<Seq<char>>,
    pub size: Option<u64>,
    pub md5: Option<Seq<char>>,
    pub sha1: Option<Seq<char>>,
    pub sha256: Option<Seq<char>>,
    pub sha512: Option<Seq<char>>,
}

pub open spec fn empty_acc() -> BinAcc {
    BinAcc {
        name: None,
        version: None,
        priority: None,
        arches: None,
        maintainer: Seq::empty(),
        original_maintainer: Seq::empty(),
        essential: None,
        build_essential: None,
        installed_size: None,
        description: None,
        depends: Seq::empty(),
        recommends: Seq::empty(),
        suggests: Seq::empty(),
        enhances: Seq::empty(),
        pre_depends: Seq::empty(),
        breaks: Seq::empty(),
        conflicts: Seq::empty(),
        replaces: Seq::empty(),
        provides: Seq::empty(),
        unparsed: Seq::empty(),
        warnings: 0,
        filename: None,
        size: None,
        md5: None,
        sha1: None,
        sha256: None,
        sha512: None,
    }
}

/// The architectures that the words name, each once, in order of first
/// mention; or the first word that names none.
pub open spec fn arches_of(ws: Seq<Seq<char>>) -> Result<Seq<Arch>, Seq<char>>
    decreases ws.len(),
{
    if ws.len() == 0 {
        Ok(Seq::empty())
    } else {
        match arches_of(ws.drop_last()) {
            Err(t) => Err(t),
            Ok(xs) => match arch_of(ws.last()) {
                None => Err(ws.last()),
                Some(a) => Ok(
                    if xs.contains(a) {
                        xs
                    } else {
                        xs.push(a)
                    },
                ),
            },
        }
    }
}

/// The architectures that the words name hold no duplicate.
pub proof fn lemma_arches_distinct(ws: Seq<Seq<char>>)
    ensures
        arches_of(ws) is Ok ==> arches_of(ws)->Ok_0.no_duplicates(),
    decreases ws.len(),
{
    if ws.len() > 0 {
        lemma_arches_distinct(ws.drop_last());
        if let Ok(xs) = arches_of(ws.drop_last()) {
            if let Some(a) = arch_of(ws.last()) {
                if !xs.contains(a) {
                    let ys = xs.push(a);
                    assert forall|i: int, j: int|
                        0 <= i < ys.len() && 0 <= j < ys.len() && i != j implies ys[i]
                        != ys[j] by {
                        if i < xs.len() && j < xs.len() {
                        } else if i < xs.len() {
                            assert(xs[i] == ys[i]);
                        } else {
                            assert(xs[j] == ys[j]);
                        }
                    }
                }
            }
        }
    }
}

/// The one value-line of `vs`, if it has exactly one.
pub open spec fn single(vs: Seq<Seq<char>>) -> Option<Seq<char>> {
    if vs.len() == 1 {
        Some(vs[0])
    } else {
        None
    }
}

/// The effect of one field on a binary stanza: `None` if its value is
/// rejected. A `Maintainer` that does not parse only raises a warning.
pub open spec fn step(acc: BinAcc, l: LineView) -> Option<BinAcc> {
    let k = l.0;
    let vs = l.1;
    if k == "Package"@ {
        match single(vs) {
            Some(v) => Some(BinAcc { name: Some(v), ..acc }),
            None => None,
        }
    } else if k == "Version"@ {
        match single(vs) {
            Some(v) => Some(BinAcc { version: Some(v), ..acc }),
            None => None,
        }
    } else if k == "Architecture"@ {
        match single(vs) {
            Some(v) => match arches_of(words(v)) {
                Ok(a) => Some(BinAcc { arches: Some(a), ..acc }),
                Err(_) => None,
            },
            None => None,
        }
    } else if k == "Essential"@ {
        match single(vs) {
            Some(v) => match flag_of(v) {
                Some(b) => Some(BinAcc { essential: Some(b), ..acc }),
                None => None,
            },
            None => None,
        }
    } else if k == "Build-Essential"@ {
        match single(vs) {
            Some(v) => match flag_of(v) {
                Some(b) => Some(BinAcc { build_essential: Some(b), ..acc }),
                None => None,
            },
            None => None,
        }
    } else if k == "Priority"@ {
        match single(vs) {
            Some(v) => match priority_of(v) {
                Some(p) => Some(BinAcc { priority: Some(p), ..acc }),
                None => None,
            },
            None => None,
        }
    } else if k == "Maintainer"@ {
        match single(vs) {
            Some(v) => match read_identities(v) {
                Some(ids) => Some(BinAcc { maintainer: acc.maintainer + ids, ..acc }),
                None => Some(BinAcc { warnings: acc.warnings + 1, ..acc }),
            },
            None => None,
        }
    } else if k == "Original-Maintainer"@ {
        match single(vs) {
            Some(v) => match read_identities(v) {
                Some(ids) => Some(
                    BinAcc { original_maintainer: acc.original_maintainer + ids, ..acc },
                ),
                None => Some(BinAcc { warnings: acc.warnings + 1, ..acc }),
            },
            None => None,
        }
    } else if k == "Installed-Size"@ {
        match single(vs) {
            Some(v) => match size_of(v) {
                Some(n) => Some(BinAcc { installed_size: Some(n), ..acc }),
                None => None,
            },
            None => None,
        }
    } else if k == "Filename"@ {
        match single(vs) {
            Some(v) => Some(BinAcc { filename: Some(v), ..acc }),
            None => None,
        }
    } else if k == "Size"@ {
        match single(vs) {
            Some(v) => match size_of(v) {
                Some(n) => Some(BinAcc { size: Some(n), ..acc }),
                None => None,
            },
            None => None,
        }
    } else if k == "MD5sum"@ {
        match single(vs) {
            Some(v) => Some(BinAcc { md5: Some(v), ..acc }),
            None => None,
        }
    } else if k == "SHA1"@ {
        match single(vs) {
            Some(v) => Some(BinAcc { sha1: Some(v), ..acc }),
            None => None,
        }
    } else if k == "SHA256"@ {
        match single(vs) {
            Some(v) => Some(BinAcc { sha256: Some(v), ..acc }),
            None => None,
        }
    } else if k == "SHA512"@ {
        match single(vs) {
            Some(v) => Some(BinAcc { sha512: Some(v), ..acc }),
            None => None,
        }
    } else if k == "Description"@ {
        Some(BinAcc { description: Some(join_space(vs)), ..acc })
    } else if is_relation(k) {
        match parse_deps(join_space(vs)) {
            Ok(d) => Some(add_relation(acc, k, d)),
            Err(_) => None,
        }
    } else {
        Some(BinAcc { unparsed: acc.unparsed.push(l), ..acc })
    }
}

/// The dependency-relation fields of a binary package.
pub open spec fn is_relation(k: Seq<char>) -> bool {
    k == "Depends"@ || k == "Recommends"@ || k == "Suggests"@ || k == "Enhances"@ || k
        == "Pre-Depends"@ || k == "Breaks"@ || k == "Conflicts"@ || k == "Replaces"@ || k
        == "Provides"@
}

/// `acc` with the dependencies `d` added after those of relation `k`.
pub open spec fn add_relation(acc: BinAcc, k: Seq<char>, d: Seq<Seq<AltView>>) -> BinAcc {
    if k == "Depends"@ {
        BinAcc { depends: acc.depends + d, ..acc }
    } else if k == "Recommends"@ {
        BinAcc { recommends: acc.recommends + d, ..acc }
    } else if k == "Suggests"@ {
        BinAcc { suggests: acc.suggests + d, ..acc }
    } else if k == "Enhances"@ {
        BinAcc { enhances: acc.enhances + d, ..acc }
    } else if k == "Pre-Depends"@ {
        BinAcc { pre_depends: acc.pre_depends + d, ..acc }
    } else if k == "Breaks"@ {
        BinAcc { breaks: acc.breaks + d, ..acc }
    } else if k == "Conflicts"@ {
        BinAcc { conflicts: acc.conflicts + d, ..acc }
    } else if k == "Replaces"@ {
        BinAcc { replaces: acc.replaces + d, ..acc }
    } else {
        BinAcc { provides: acc.provides + d, ..acc }
    }
}

/// The error a rejected field `l` reports: for a relation, a grammar error
/// carrying the first failing term; for a single-line field with another
/// number of lines, a multi-line violation; for `Architecture`, an unknown
/// token carrying the first unknown architecture; for `Priority`, an unknown
/// token carrying the value; for a flag or a size, a type error carrying it.
pub open spec fn rejects_with(l: LineView, e: ParseError) -> bool {
    let k = l.0;
    let vs = l.1;
    if is_relation(k) {
        e is DependencyGrammar && parse_deps(join_space(vs)) is Err && e->DependencyGrammar_text@
            == parse_deps(join_space(vs))->Err_0
    } else if single(vs) is None {
        e is MultiLineViolation
    } else if k == "Architecture"@ {
        e is UnknownEnumToken && arches_of(words(vs[0])) is Err && e->UnknownEnumToken_token@
            == arches_of(words(vs[0]))->Err_0
    } else if k == "Priority"@ {
        e is UnknownEnumToken && e->UnknownEnumToken_token@ == vs[0]
    } else {
        e is TypeError && e->TypeError_text@ == vs[0]
    }
}

/// The fields of a binary stanza taken in order: what they set, or the
/// first field whose value is rejected.
pub open spec fn fold_bin(ls: Seq<LineView>) -> Result<BinAcc, LineView>
    decreases ls.len(),
{
    if ls.len() == 0 {
        Ok(empty_acc())
    } else {
        match fold_bin(ls.drop_last()) {
            Err(k) => Err(k),
            Ok(acc) => match step(acc, ls.last()) {
                Some(a) => Ok(a),
                None => Err(ls.last()),
            },
        }
    }
}

} // verus!

verus! {

pub open spec fn opt_text(o: Option<String>) -> Option<Seq<char>> {
    match o {
        Some(s) => Some(s@),
        None => None,
    }
}

pub open spec fn opt_arches(o: Option<Vec<Arch>>) -> Option<Seq<Arch>> {
    match o {
        Some(v) => Some(v@),
        None => None,
    }
}

/// The fields of a binary stanza gathered so far, and the warnings raised.
struct BinFields {
    name: Option<String>,
    version: Option<String>,
    priority: Option<Priority>,
    arches: Option<Vec<Arch>>,
    maintainer: Vec<Identity>,
    original_maintainer: Vec<Identity>,
    essential: Option<bool>,
    build_essential: Option<bool>,
    installed_size: Option<u64>,
    description: Option<String>,
    depends: Vec<Dependency>,
    recommends: Vec<Dependency>,
    suggests: Vec<Dependency>,
    enhances: Vec<Dependency>,
    pre_depends: Vec<Dependency>,
    breaks: Vec<Dependency>,
    conflicts: Vec<Dependency>,
    replaces: Vec<Dependency>,
    provides: Vec<Dependency>,
    unparsed: Vec<Line>,
    warnings: Vec<String>,
    filename: Option<String>,
    size: Option<u64>,
    md5: Option<String>,
    sha1: Option<String>,
    sha256: Option<String>,
    sha512: Option<String>,
}

impl BinFields {
    spec fn view(&self) -> BinAcc {
        BinAcc {
            name: opt_text(self.name),
            version: opt_text(self.version),
            priority: self.priority,
            arches: opt_arches(self.arches),
            maintainer: identity_views(self.maintainer@),
            original_maintainer: identity_views(self.original_maintainer@),
            essential: self.essential,
            build_essential: self.build_essential,
            installed_size: self.installed_size,
            description: opt_text(self.description),
            depends: dep_views(self.depends@),
            recommends: dep_views(self.recommends@),
            suggests: dep_views(self.suggests@),
            enhances: dep_views(self.enhances@),
            pre_depends: dep_views(self.pre_depends@),
            breaks: dep_views(self.breaks@),
            conflicts: dep_views(self.conflicts@),
            replaces: dep_views(self.replaces@),
            provides: dep_views(self.provides@),
            unparsed: line_views(self.unparsed@),
            warnings: self.warnings@.len(),
            filename: opt_text(self.filename),
            size: self.size,
            md5: opt_text(self.md5),
            sha1: opt_text(self.sha1),
            sha256: opt_text(self.sha256),
            sha512: opt_text(self.sha512),
        }
    }

    fn new() -> (r: BinFields)
        ensures
            r.view() == empty_acc(),
    {
        let r = BinFields {
            name: None,
            version: None,
            priority: None,
            arches: None,
            maintainer: Vec::new(),
            original_maintainer: Vec::new(),
            essential: None,
            build_essential: None,
            installed_size: None,
            description: None,
            depends: Vec::new(),
            recommends: Vec::new(),
            suggests: Vec::new(),
            enhances: Vec::new(),
            pre_depends: Vec::new(),
            breaks: Vec::new(),
            conflicts: Vec::new(),
            replaces: Vec::new(),
            provides: Vec::new(),
            unparsed: Vec::new(),
            warnings: Vec::new(),
            filename: None,
            size: None,
            md5: None,
            sha1: None,
            sha256: None,
            sha512: None,
        };
        assert(r.view().maintainer =~= Seq::empty());
        assert(r.view().original_maintainer =~= Seq::empty());
        assert(r.view().depends =~= Seq::empty());
        assert(r.view().recommends =~= Seq::empty());
        assert(r.view().suggests =~= Seq::empty());
        assert(r.view().enhances =~= Seq::empty());
        assert(r.view().pre_depends =~= Seq::empty());
        assert(r.view().breaks =~= Seq::empty());
        assert(r.view().conflicts =~= Seq::empty());
        assert(r.view().replaces =~= Seq::empty());
        assert(r.view().provides =~= Seq::empty());
        assert(r.view().unparsed =~= Seq::empty());
        r
    }

    /// Adds the dependencies `d` to the relation field `k`.
    fn add_relation(&mut self, k: &str, d: Vec<Dependency>)
        requires
            is_relation(k@),
        ensures
            final(self).view() == add_relation(old(self).view(), k@, dep_views(d@)),
    {
        let mut d = d;
        let ghost dv = dep_views(d@);
        if same_text(k, "Depends") {
            let ghost before = self.depends@;
            self.depends.append(&mut d);
            assert(dep_views(self.depends@) =~= dep_views(before) + dv);
        } else if same_text(k, "Recommends") {
            let ghost before = self.recommends@;
            self.recommends.append(&mut d);
            assert(dep_views(self.recommends@) =~= dep_views(before) + dv);
        } else if same_text(k, "Suggests") {
            let ghost before = self.suggests@;
            self.suggests.append(&mut d);
            assert(dep_views(self.suggests@) =~= dep_views(before) + dv);
        } else if same_text(k, "Enhances") {
            let ghost before = self.enhances@;
            self.enhances.append(&mut d);
            assert(dep_views(self.enhances@) =~= dep_views(before) + dv);
        } else if same_text(k, "Pre-Depends") {
            let ghost before = self.pre_depends@;
            self.pre_depends.append(&mut d);
            assert(dep_views(self.pre_depends@) =~= dep_views(before) + dv);
        } else if same_text(k, "Breaks") {
            let ghost before = self.breaks@;
            self.breaks.append(&mut d);
            assert(dep_views(self.breaks@) =~= dep_views(before) + dv);
        } else if same_text(k, "Conflicts") {
            let ghost before = self.conflicts@;
            self.conflicts.append(&mut d);
            assert(dep_views(self.conflicts@) =~= dep_views(before) + dv);
        } else if same_text(k, "Replaces") {
            let ghost before = self.replaces@;
            self.replaces.append(&mut d);
            assert(dep_views(self.replaces@) =~= dep_views(before) + dv);
        } else {
            let ghost before = self.provides@;
            self.provides.append(&mut d);
            assert(dep_views(self.provides@) =~= dep_views(before) + dv);
        }
    }

    /// Takes in one field `k` with value-lines `vs`.
    fn take(&mut self, k: &str, vs: &Vec<String>) -> (r: Result<(), ParseError>)
        ensures
            match step(old(self).view(), (k@, views(vs@))) {
                Some(a) => r is Ok && final(self).view() == a,
                None => r is Err && error_key(r->Err_0) == k@ && rejects_with(
                    (k@, views(vs@)),
                    r->Err_0,
                ),
            },
    {
        proof {
            lemma_key_shapes();
        }
        if same_text(k, "Package") {
            let v = match one_line(vs) {
                Ok(v) => v,
                Err(e) => {
                    return Err(e.in_field(k));
                },
            };
            self.name = Some(v);
        } else if same_text(k, "Version") {
            let v = match one_line(vs) {
                Ok(v) => v,
                Err(e) => {
                    return Err(e.in_field(k));
                },
            };
            self.version = Some(v);
        } else if same_text(k, "Architecture") {
            let v = match one_line(vs) {
                Ok(v) => v,
                Err(e) => {
                    return Err(e.in_field(k));
                },
            };
            match parse_arches(v.as_str()) {
                Ok(a) => {
                    self.arches = Some(a);
                },
                Err(e) => {
                    return Err(e.in_field(k));
                },
            }
        } else if same_text(k, "Essential") {
            let v = match one_line(vs) {
                Ok(v) => v,
                Err(e) => {
                    return Err(e.in_field(k));
                },
            };
            match yes_no(v.as_str()) {
                Ok(b) => {
                    self.essential = Some(b);
                },
                Err(e) => {
                    return Err(e.in_field(k));
                },
            }
        } else if same_text(k, "Build-Essential") {
            let v = match one_line(vs) {
                Ok(v) => v,
                Err(e) => {
                    return Err(e.in_field(k));
                },
            };
            match yes_no(v.as_str()) {
                Ok(b) => {
                    self.build_essential = Some(b);
                },
                Err(e) => {
                    return Err(e.in_field(k));
                },
            }
        } else if same_text(k, "Priority") {
            let v = match one_line(vs) {
                Ok(v) => v,
                Err(e) => {
                    return Err(e.in_field(k));
                },
            };
            match parse_priority(v.as_str()) {
                Ok(p) => {
                    self.priority = Some(p);
                },
                Err(e) => {
                    return Err(e.in_field(k));
                },
            }
        } else if same_text(k, "Maintainer") || same_text(k, "Original-Maintainer") {
            let v = match one_line(vs) {
                Ok(v) => v,
                Err(e) => {
                    return Err(e.in_field(k));
                },
            };
            match read(v.as_str()) {
                Some(ids) => {
                    let mut ids = ids;
                    if same_text(k, "Maintainer") {
                        let ghost before = self.maintainer@;
                        let ghost iv = identity_views(ids@);
                        self.maintainer.append(&mut ids);
                        assert(identity_views(self.maintainer@) =~= identity_views(before) + iv);
                    } else {
                        let ghost before = self.original_maintainer@;
                        let ghost iv = identity_views(ids@);
                        self.original_maintainer.append(&mut ids);
                        assert(identity_views(self.original_maintainer@) =~= identity_views(before)
                            + iv);
                    }
                },
                None => {
                    let mut w = "unparsable identity in ".to_owned();
                    w.append(k);
                    w.append(": ");
                    w.append(v.as_str());
                    self.warnings.push(w);
                },
            }
        } else if same_text(k, "Installed-Size") {
            let v = match one_line(vs) {
                Ok(v) => v,
                Err(e) => {
                    return Err(e.in_field(k));
                },
            };
            match parse_size(v.as_str()) {
                Ok(n) => {
                    self.installed_size = Some(n);
                },
                Err(e) => {
                    return Err(e.in_field(k));
                },
            }
        } else if same_text(k, "Size") {
            let v = match one_line(vs) {
                Ok(v) => v,
                Err(e) => {
                    return Err(e.in_field(k));
                },
            };
            match parse_size(v.as_str()) {
                Ok(n) => {
                    self.size = Some(n);
                },
                Err(e) => {
                    return Err(e.in_field(k));
                },
            }
        } else if same_text(k, "Filename") || same_text(k, "MD5sum") || same_text(k, "SHA1")
            || same_text(k, "SHA256") || same_text(k, "SHA512") {
            let v = match one_line(vs) {
                Ok(v) => v,
                Err(e) => {
                    return Err(e.in_field(k));
                },
            };
            if same_text(k, "Filename") {
                self.filename = Some(v);
            } else if same_text(k, "MD5sum") {
                self.md5 = Some(v);
            } else if same_text(k, "SHA1") {
                self.sha1 = Some(v);
            } else if same_text(k, "SHA256") {
                self.sha256 = Some(v);
            } else {
                self.sha512 = Some(v);
            }
        } else if same_text(k, "Description") {
            self.description = Some(joined(vs));
        } else if same_text(k, "Depends") || same_text(k, "Recommends") || same_text(k, "Suggests")
            || same_text(k, "Enhances") || same_text(k, "Pre-Depends") || same_text(k, "Breaks")
            || same_text(k, "Conflicts") || same_text(k, "Replaces") || same_text(k, "Provides") {
            match parse_dep(vs) {
                Ok(d) => {
                    self.add_relation(k, d);
                },
                Err(e) => {
                    return Err(e.in_field(k));
                },
            }
        } else {
            let line: Line = (k.to_owned(), clone_lines(vs));
            let ghost before = self.unparsed@;
            self.unparsed.push(line);
            assert(line_views(self.unparsed@) =~= line_views(before).push((k@, views(vs@))));
        }
        Ok(())
    }
}

/// The architectures named by the words of `s`, each once; an unknown one
/// is an error carrying it.
fn parse_arches(s: &str) -> (r: Result<Vec<Arch>, ParseError>)
    ensures
        match arches_of(words(s@)) {
            Ok(a) => r is Ok && r->Ok_0@ == a,
            Err(t) => r is Err && r->Err_0 is UnknownEnumToken && r->Err_0->UnknownEnumToken_token@
                == t,
        },
{
    let ws = split_words(s);
    let ghost wv = str_views(ws@);
    let mut out: Vec<Arch> = Vec::new();
    let mut i: usize = 0;
    while i < ws.len()
        invariant
            wv == str_views(ws@),
            wv == words(s@),
            i <= ws@.len(),
            arches_of(wv.subrange(0, i as int)) == Ok::<Seq<Arch>, Seq<char>>(out@),
        decreases ws@.len() - i,
    {
        let ghost pre = wv.subrange(0, i + 1);
        assert(pre.drop_last() =~= wv.subrange(0, i as int));
        assert(pre.last() == ws@[i as int]@);
        match Arch::from_str(ws[i]) {
            Ok(a) => {
                let mut found = false;
                let mut j: usize = 0;
                while j < out.len()
                    invariant
                        j <= out@.len(),
                        found <==> exists|k: int| 0 <= k < j && out@[k] == a,
                    decreases out@.len() - j,
                {
                    if out[j] == a {
                        found = true;
                    }
                    j = j + 1;
                }
                if !found {
                    out.push(a);
                } else {
                    assert(out@.contains(a));
                }
            },
            Err(e) => {
                proof {
                    lemma_arches_err(wv, i as int + 1);
                }
                return Err(e);
            },
        }
        i = i + 1;
    }
    assert(wv.subrange(0, wv.len() as int) =~= wv);
    Ok(out)
}

proof fn lemma_arches_err(ws: Seq<Seq<char>>, k: int)
    requires
        0 < k <= ws.len(),
        arches_of(ws.subrange(0, k)) is Err,
    ensures
        arches_of(ws) == arches_of(ws.subrange(0, k)),
    decreases ws.len() - k,
{
    if k < ws.len() {
        let pre = ws.subrange(0, k + 1);
        assert(pre.drop_last() =~= ws.subrange(0, k));
        lemma_arches_err(ws, k + 1);
    } else {
        assert(ws.subrange(0, k) =~= ws);
    }
}

} // verus!

verus! {

/// The MD5 digest of a text's UTF-8 bytes, as lower-case hex.
pub uninterp spec fn md5_hex(s: Seq<char>) -> Seq<char>;

/// Relies on `md5::compute` and the digest's `LowerHex` formatting: the
/// digest of the UTF-8 bytes of `s`, two hex digits per byte of its 16, a
/// function of `s` alone.
#[verifier::external_body]
fn md5_of(s: &str) -> (r: String)
    ensures
        r@ == md5_hex(s@),
        r@.len() == 32,
{
    format!("{:x}", md5::compute(s.as_bytes()))
}

/// Compares a declared description digest with the computed one: equal
/// digests pass, any difference is a checksum mismatch on `Description-md5`.
pub fn check_description_digest(expected: &str, computed: &str) -> (r: Result<(), ParseError>)
    ensures
        expected@ == computed@ ==> r is Ok,
        expected@ != computed@ ==> r is Err && r->Err_0 is ChecksumMismatch
            && r->Err_0->ChecksumMismatch_expected@ == expected@
            && error_key(r->Err_0) == "Description-md5"@,
{
    if same_text(expected, computed) {
        Ok(())
    } else {
        Err(ParseError::ChecksumMismatch { key: "Description-md5".to_owned(), expected: expected.to_owned() })
    }
}

/// Whether the declared `Description-md5`, if any, differs from the digest
/// of the description.
pub open spec fn digest_mismatch(acc: BinAcc) -> bool {
    match last_value(acc.unparsed, "Description-md5"@) {
        Some(vs) => join_space(vs) != md5_hex(acc.description->Some_0),
        None => false,
    }
}

pub open spec fn missing(r: Result<Package, ParseError>, k: Seq<char>) -> bool {
    r is Err && r->Err_0 is MissingField && r->Err_0->MissingField_key@ == k
}

/// The text of an optional field, empty when absent.
pub open spec fn text_or_empty(o: Option<Seq<char>>) -> Seq<char> {
    match o {
        Some(t) => t,
        None => Seq::empty(),
    }
}

/// Whether any of the file fields was given.
pub open spec fn has_file(acc: BinAcc) -> bool {
    acc.filename is Some || acc.size is Some || acc.md5 is Some || acc.sha1 is Some || acc.sha256
        is Some || acc.sha512 is Some
}

/// Whether `file` is the file reference that the gathered fields make: none
/// without any file field, else one whose absent parts are empty (size 0).
pub open spec fn file_matches(file: Option<File>, acc: BinAcc) -> bool {
    if has_file(acc) {
        file matches Some(f) && f.name@ == text_or_empty(acc.filename) && f.size == match acc.size {
            Some(n) => n,
            None => 0,
        } && f.md5@ == text_or_empty(acc.md5) && f.sha1@ == text_or_empty(acc.sha1) && f.sha256@
            == text_or_empty(acc.sha256) && f.sha512@ == text_or_empty(acc.sha512)
    } else {
        file is None
    }
}

fn text_or_empty_of(o: Option<String>) -> (r: String)
    ensures
        r@ == text_or_empty(opt_text(o)),
{
    match o {
        Some(t) => t,
        None => String::new(),
    }
}

/// Whether `p` is the binary package that the gathered fields `acc` make.
pub open spec fn package_of(p: Package, acc: BinAcc) -> bool {
    &&& acc.name == Some(p.name@)
    &&& acc.version == Some(p.version@)
    &&& acc.priority == Some(p.priority)
    &&& acc.arches == Some(p.arches@)
    &&& identity_views(p.maintainer@) == acc.maintainer
    &&& identity_views(p.original_maintainer@) == acc.original_maintainer
    &&& p.unparsed.lines() == acc.unparsed
    &&& match p.style {
        PackageType::Binary(b) => {
            &&& file_matches(b.file, acc)
            &&& b.essential == (acc.essential == Some(true))
            &&& b.build_essential == (acc.build_essential == Some(true))
            &&& b.installed_size == match acc.installed_size {
                Some(n) => n,
                None => 0,
            }
            &&& acc.description == Some(b.description@)
            &&& dep_views(b.depends@) == acc.depends
            &&& dep_views(b.recommends@) == acc.recommends
            &&& dep_views(b.suggests@) == acc.suggests
            &&& dep_views(b.enhances@) == acc.enhances
            &&& dep_views(b.pre_depends@) == acc.pre_depends
            &&& dep_views(b.breaks@) == acc.breaks
            &&& dep_views(b.conflicts@) == acc.conflicts
            &&& dep_views(b.replaces@) == acc.replaces
            &&& dep_views(b.provides@) == acc.provides
        },
        PackageType::Source(_) => false,
    }
}

/// What assembling a binary package from the fields `ls` gives: the error
/// of the first rejected field; else a missing-field error for the first
/// absent one of `Package`, `Version`, `Priority`, `Architecture` and
/// `Description` (an empty description counts as absent); else a checksum
/// mismatch if the declared description digest is wrong; else the package.
pub open spec fn bin_outcome(r: Result<Package, ParseError>, ls: Seq<LineView>) -> bool {
    match fold_bin(ls) {
        Err(l) => r is Err && error_key(r->Err_0) == l.0 && rejects_with(l, r->Err_0),
        Ok(acc) => if acc.name is None {
            missing(r, "Package"@)
        } else if acc.version is None {
            missing(r, "Version"@)
        } else if acc.priority is None {
            missing(r, "Priority"@)
        } else if acc.arches is None {
            missing(r, "Architecture"@)
        } else if acc.description is None || acc.description->Some_0.len() == 0 {
            missing(r, "Description"@)
        } else if digest_mismatch(acc) {
            r is Err && r->Err_0 is ChecksumMismatch
        } else {
            r is Ok && package_of(r->Ok_0, acc)
        },
    }
}

fn missing_field(k: &str) -> (r: ParseError)
    ensures
        r is MissingField && r->MissingField_key@ == k@,
{
    ParseError::MissingField { key: k.to_owned() }
}

impl Package {
    /// Assembles a binary package from scanned fields, with one warning for
    /// each field that is only reported (an unparsable `Maintainer`).
    pub fn parse_bin_lines(lines: &Vec<Line>) -> (r: Result<(Package, Vec<String>), ParseError>)
        ensures
            bin_outcome(
                match r {
                    Ok((p, _)) => Ok(p),
                    Err(e) => Err(e),
                },
                line_views(lines@),
            ),
            r matches Ok((_, w)) ==> w@.len() == fold_bin(line_views(lines@))->Ok_0.warnings,
    {
        let ghost ls = line_views(lines@);
        let mut f = BinFields::new();
        let mut i: usize = 0;
        while i < lines.len()
            invariant
                ls == line_views(lines@),
                i <= lines@.len(),
                fold_bin(ls.subrange(0, i as int)) == Ok::<BinAcc, LineView>(f.view()),
            decreases lines@.len() - i,
        {
            let ghost pre = ls.subrange(0, i + 1);
            assert(pre.drop_last() =~= ls.subrange(0, i as int));
            assert(pre.last() == (lines@[i as int].0@, views(lines@[i as int].1@)));
            match f.take(lines[i].0.as_str(), &lines[i].1) {
                Ok(()) => {},
                Err(e) => {
                    proof {
                        lemma_fold_err(ls, i as int + 1);
                    }
                    return Err(e);
                },
            }
            i = i + 1;
        }
        assert(ls.subrange(0, ls.len() as int) =~= ls);
        let ghost acc = f.view();
        let name = match f.name {
            Some(v) => v,
            None => {
                return Err(missing_field("Package"));
            },
        };
        let version = match f.version {
            Some(v) => v,
            None => {
                return Err(missing_field("Version"));
            },
        };
        let priority = match f.priority {
            Some(v) => v,
            None => {
                return Err(missing_field("Priority"));
            },
        };
        let arches = match f.arches {
            Some(v) => v,
            None => {
                return Err(missing_field("Architecture"));
            },
        };
        let description = match f.description {
            Some(v) => v,
            None => {
                return Err(missing_field("Description"));
            },
        };
        if description.as_str().unicode_len() == 0 {
            return Err(missing_field("Description"));
        }
        let unparsed = FieldMap::from_lines(f.unparsed);
        let declared = unparsed.get_value("Description-md5");
        match declared.joined_lines() {
            Some(expected) => {
                let computed = md5_of(description.as_str());
                match check_description_digest(expected.as_str(), computed.as_str()) {
                    Ok(()) => {},
                    Err(e) => {
                        return Err(e);
                    },
                }
            },
            None => {},
        }
        let file = if f.filename.is_some() || f.size.is_some() || f.md5.is_some() || f.sha1.is_some()
            || f.sha256.is_some() || f.sha512.is_some() {
            Some(
                File {
                    name: text_or_empty_of(f.filename),
                    size: match f.size {
                        Some(n) => n,
                        None => 0,
                    },
                    md5: text_or_empty_of(f.md5),
                    sha1: text_or_empty_of(f.sha1),
                    sha256: text_or_empty_of(f.sha256),
                    sha512: text_or_empty_of(f.sha512),
                },
            )
        } else {
            None
        };
        let bin = Binary {
            file,
            essential: match f.essential {
                Some(b) => b,
                None => false,
            },
            build_essential: match f.build_essential {
                Some(b) => b,
                None => false,
            },
            installed_size: match f.installed_size {
                Some(n) => n,
                None => 0,
            },
            description,
            depends: f.depends,
            recommends: f.recommends,
            suggests: f.suggests,
            enhances: f.enhances,
            pre_depends: f.pre_depends,
            breaks: f.breaks,
            conflicts: f.conflicts,
            replaces: f.replaces,
            provides: f.provides,
        };
        let p = Package {
            name,
            version,
            priority,
            arches,
            maintainer: f.maintainer,
            original_maintainer: f.original_maintainer,
            unparsed,
            style: PackageType::Binary(bin),
        };
        Ok((p, f.warnings))
    }

    /// Scans a stanza and assembles a binary package from its fields; a
    /// scan error comes first, then as `parse_bin_lines` says.
    pub fn parse_bin(it: Scanner) -> (r: Result<Package, ParseError>)
        ensures
            match scan_lines_from(it.lines_view(), 0, None) {
                Err(l) => r is Err && r->Err_0 is Scan && r->Err_0->Scan_line@ == l,
                Ok(ls) => bin_outcome(r, ls),
            },
    {
        let lines = match it.collect_lines() {
            Ok(v) => v,
            Err(e) => {
                return Err(e);
            },
        };
        match Package::parse_bin_lines(&lines) {
            Ok((p, _)) => Ok(p),
            Err(e) => Err(e),
        }
    }
}

proof fn lemma_fold_err(ls: Seq<LineView>, k: int)
    requires
        0 < k <= ls.len(),
        fold_bin(ls.subrange(0, k)) is Err,
    ensures
        fold_bin(ls) == fold_bin(ls.subrange(0, k)),
    decreases ls.len() - k,
{
    if k < ls.len() {
        let pre = ls.subrange(0, k + 1);
        assert(pre.drop_last() =~= ls.subrange(0, k));
        lemma_fold_err(ls, k + 1);
    } else {
        assert(ls.subrange(0, k) =~= ls);
    }
}

} // verus!

verus! {

/// The fields that the binary assembler handles itself.
pub open spec fn is_known(k: Seq<char>) -> bool {
    k == "Package"@ || k == "Version"@ || k == "Architecture"@ || k == "Essential"@ || k
        == "Build-Essential"@ || k == "Priority"@ || k == "Maintainer"@ || k
        == "Original-Maintainer"@ || k == "Installed-Size"@ || k == "Filename"@ || k == "Size"@
        || k == "MD5sum"@ || k == "SHA1"@ || k == "SHA256"@ || k == "SHA512"@ || k
        == "Description"@ || is_relation(
        k,
    )
}

/// What the gathered fields `acc` hold, stated over the last field of each
/// name in `ls`.
pub open spec fn tracks(ls: Seq<LineView>, acc: BinAcc) -> bool {
    &&& match last_value(ls, "Package"@) {
        None => acc.name is None,
        Some(vs) => acc.name is Some && acc.name == single(vs),
    }
    &&& match last_value(ls, "Version"@) {
        None => acc.version is None,
        Some(vs) => acc.version is Some && acc.version == single(vs),
    }
    &&& match last_value(ls, "Priority"@) {
        None => acc.priority is None,
        Some(vs) => single(vs) is Some && acc.priority is Some && acc.priority == priority_of(
            single(vs)->Some_0,
        ),
    }
    &&& match last_value(ls, "Architecture"@) {
        None => acc.arches is None,
        Some(vs) => single(vs) is Some && acc.arches is Some && arches_of(
            words(single(vs)->Some_0),
        ) == Ok::<Seq<Arch>, Seq<char>>(acc.arches->Some_0),
    }
    &&& match last_value(ls, "Description"@) {
        None => acc.description is None,
        Some(vs) => acc.description == Some(join_space(vs)),
    }
    &&& forall|k: Seq<char>| !is_known(k) ==> last_value(acc.unparsed, k) == #[trigger] last_value(ls, k)
    &&& only_unknown_of(ls, acc.unparsed)
}

/// Every field of `u` is an unhandled field of `ls`.
pub open spec fn only_unknown_of(ls: Seq<LineView>, u: Seq<LineView>) -> bool {
    forall|i: int| 0 <= i < u.len() ==> unknown_in(ls, #[trigger] u[i])
}

/// `l` is a field of `ls` that no handler knows.
pub open spec fn unknown_in(ls: Seq<LineView>, l: LineView) -> bool {
    !is_known(l.0) && ls.contains(l)
}

/// The lengths and leading characters that tell the field names apart.
proof fn lemma_key_shapes()
    ensures
        "Package"@.len() == 7,
        "Version"@.len() == 7,
        "Architecture"@.len() == 12,
        "Essential"@.len() == 9,
        "Build-Essential"@.len() == 15,
        "Priority"@.len() == 8,
        "Maintainer"@.len() == 10,
        "Original-Maintainer"@.len() == 19,
        "Installed-Size"@.len() == 14,
        "Filename"@.len() == 8,
        "Size"@.len() == 4,
        "MD5sum"@.len() == 6,
        "SHA1"@.len() == 4,
        "SHA256"@.len() == 6,
        "SHA512"@.len() == 6,
        "Filename"@[0] == 'F',
        "Size"@[0] == 'S',
        "Size"@[1] == 'i',
        "SHA1"@[0] == 'S',
        "SHA1"@[1] == 'H',
        "MD5sum"@[0] == 'M',
        "SHA256"@[0] == 'S',
        "SHA512"@[0] == 'S',
        "SHA256"@[3] == '2',
        "SHA512"@[3] == '5',
        "Breaks"@[0] == 'B',
        "Description"@.len() == 11,
        "Depends"@.len() == 7,
        "Recommends"@.len() == 10,
        "Suggests"@.len() == 8,
        "Enhances"@.len() == 8,
        "Pre-Depends"@.len() == 11,
        "Breaks"@.len() == 6,
        "Conflicts"@.len() == 9,
        "Replaces"@.len() == 8,
        "Provides"@.len() == 8,
        "Package"@[0] == 'P',
        "Version"@[0] == 'V',
        "Depends"@[0] == 'D',
        "Priority"@[0] == 'P',
        "Suggests"@[0] == 'S',
        "Enhances"@[0] == 'E',
        "Replaces"@[0] == 'R',
        "Provides"@[0] == 'P',
        "Essential"@[0] == 'E',
        "Conflicts"@[0] == 'C',
        "Maintainer"@[0] == 'M',
        "Recommends"@[0] == 'R',
        "Description"@[0] == 'D',
        "Pre-Depends"@[0] == 'P',
        "Priority"@[2] == 'i',
        "Provides"@[2] == 'o',
{
    reveal_strlit("Package");
    reveal_strlit("Version");
    reveal_strlit("Architecture");
    reveal_strlit("Essential");
    reveal_strlit("Build-Essential");
    reveal_strlit("Priority");
    reveal_strlit("Maintainer");
    reveal_strlit("Original-Maintainer");
    reveal_strlit("Installed-Size");
    reveal_strlit("Filename");
    reveal_strlit("Size");
    reveal_strlit("MD5sum");
    reveal_strlit("SHA1");
    reveal_strlit("SHA256");
    reveal_strlit("SHA512");
    reveal_strlit("Description");
    reveal_strlit("Depends");
    reveal_strlit("Recommends");
    reveal_strlit("Suggests");
    reveal_strlit("Enhances");
    reveal_strlit("Pre-Depends");
    reveal_strlit("Breaks");
    reveal_strlit("Conflicts");
    reveal_strlit("Replaces");
    reveal_strlit("Provides");
}

/// How one accepted field changes what was gathered.
proof fn lemma_step_effect(acc0: BinAcc, l: LineView)
    requires
        step(acc0, l) is Some,
    ensures
        ({
            let acc = step(acc0, l)->Some_0;
            &&& (l.0 == "Package"@ ==> acc.name == single(l.1) && single(l.1) is Some)
            &&& (l.0 != "Package"@ ==> acc.name == acc0.name)
            &&& (l.0 == "Version"@ ==> acc.version == single(l.1) && single(l.1) is Some)
            &&& (l.0 != "Version"@ ==> acc.version == acc0.version)
            &&& (l.0 == "Priority"@ ==> single(l.1) is Some && acc.priority is Some && acc.priority
                == priority_of(single(l.1)->Some_0))
            &&& (l.0 != "Priority"@ ==> acc.priority == acc0.priority)
            &&& (l.0 == "Architecture"@ ==> single(l.1) is Some && acc.arches is Some && arches_of(
                words(single(l.1)->Some_0),
            ) == Ok::<Seq<Arch>, Seq<char>>(acc.arches->Some_0))
            &&& (l.0 != "Architecture"@ ==> acc.arches == acc0.arches)
            &&& (l.0 == "Description"@ ==> acc.description == Some(join_space(l.1)))
            &&& (l.0 != "Description"@ ==> acc.description == acc0.description)
            &&& (is_known(l.0) ==> acc.unparsed == acc0.unparsed)
            &&& (!is_known(l.0) ==> acc.unparsed == acc0.unparsed.push(l))
        }),
{
    lemma_key_shapes();
    let k = l.0;
    if k == "Package"@ {
    } else if k == "Version"@ {
    } else if k == "Architecture"@ {
    } else if k == "Essential"@ {
    } else if k == "Build-Essential"@ {
    } else if k == "Priority"@ {
    } else if k == "Maintainer"@ {
    } else if k == "Original-Maintainer"@ {
    } else if k == "Installed-Size"@ {
    } else if k == "Filename"@ {
    } else if k == "Size"@ {
    } else if k == "MD5sum"@ {
    } else if k == "SHA1"@ {
    } else if k == "SHA256"@ {
    } else if k == "SHA512"@ {
    } else if k == "Description"@ {
    } else if is_relation(k) {
        if let Ok(d) = parse_deps(join_space(l.1)) {
            let acc = add_relation(acc0, k, d);
            assert(acc.name == acc0.name && acc.version == acc0.version && acc.priority
                == acc0.priority && acc.arches == acc0.arches && acc.description
                == acc0.description && acc.unparsed == acc0.unparsed);
        }
    } else {
    }
}

proof fn lemma_fold_tracks(ls: Seq<LineView>)
    ensures
        fold_bin(ls) is Ok ==> tracks(ls, fold_bin(ls)->Ok_0),
    decreases ls.len(),
{
    if ls.len() > 0 && fold_bin(ls) is Ok {
        let pre = ls.drop_last();
        lemma_fold_tracks(pre);
        let acc0 = fold_bin(pre)->Ok_0;
        let acc = fold_bin(ls)->Ok_0;
        let l = ls.last();
        assert(step(acc0, l) == Some(acc));
        lemma_step_effect(acc0, l);
        assert forall|k: Seq<char>| !is_known(k) implies last_value(acc.unparsed, k)
            == #[trigger] last_value(ls, k) by {
            assert(last_value(acc0.unparsed, k) == last_value(pre, k));
            if is_known(l.0) {
                assert(acc.unparsed == acc0.unparsed);
            } else {
                assert(acc.unparsed == acc0.unparsed.push(l));
                assert(acc.unparsed.drop_last() =~= acc0.unparsed);
            }
        }
        assert forall|i: int| 0 <= i < acc.unparsed.len() implies unknown_in(
            ls,
            #[trigger] acc.unparsed[i],
        ) by {
            if i < acc0.unparsed.len() {
                assert(acc.unparsed[i] == acc0.unparsed[i]);
                assert(unknown_in(pre, acc0.unparsed[i]));
                let j = choose|j: int| 0 <= j < pre.len() && pre[j] == acc0.unparsed[i];
                assert(ls[j] == pre[j]);
            } else {
                assert(acc.unparsed[i] == l);
                assert(ls[ls.len() - 1] == l);
            }
        }
        assert(match last_value(ls, "Package"@) {
            None => acc.name is None,
            Some(vs) => acc.name is Some && acc.name == single(vs),
        });
        assert(match last_value(ls, "Version"@) {
            None => acc.version is None,
            Some(vs) => acc.version is Some && acc.version == single(vs),
        });
        assert(match last_value(ls, "Priority"@) {
            None => acc.priority is None,
            Some(vs) => single(vs) is Some && acc.priority is Some && acc.priority == priority_of(
                single(vs)->Some_0,
            ),
        });
        assert(match last_value(ls, "Architecture"@) {
            None => acc.arches is None,
            Some(vs) => single(vs) is Some && acc.arches is Some && arches_of(
                words(single(vs)->Some_0),
            ) == Ok::<Seq<Arch>, Seq<char>>(acc.arches->Some_0),
        });
        assert(match last_value(ls, "Description"@) {
            None => acc.description is None,
            Some(vs) => acc.description == Some(join_space(vs)),
        });
    }
}

/// Assembling keeps a package's identity: on success, its name and version
/// are the single value-line of the last `Package` and `Version` fields,
/// and its priority and architectures are what the last `Priority` and
/// `Architecture` fields name.
pub proof fn law_identity_fields_kept(ls: Seq<LineView>, r: Result<Package, ParseError>)
    requires
        bin_outcome(r, ls),
        r is Ok,
    ensures
        last_value(ls, "Package"@) matches Some(vs) && single(vs) == Some(r->Ok_0.name@),
        last_value(ls, "Version"@) matches Some(vs) && single(vs) == Some(r->Ok_0.version@),
        last_value(ls, "Priority"@) matches Some(vs) && single(vs) is Some && priority_of(
            single(vs)->Some_0,
        ) == Some(r->Ok_0.priority),
        last_value(ls, "Architecture"@) matches Some(vs) && single(vs) is Some && arches_of(
            words(single(vs)->Some_0),
        ) == Ok::<Seq<Arch>, Seq<char>>(r->Ok_0.arches@),
        r->Ok_0.arches@.no_duplicates(),
{
    lemma_fold_tracks(ls);
    let vs = last_value(ls, "Architecture"@)->Some_0;
    lemma_arches_distinct(words(single(vs)->Some_0));
}

/// Fields that no handler knows survive assembly verbatim: on success the
/// package's `unparsed` map gives each such name the value-lines of its last
/// field, and it holds nothing but unhandled fields of the stanza.
pub proof fn law_unknown_fields_kept(ls: Seq<LineView>, r: Result<Package, ParseError>, k: Seq<char>)
    requires
        bin_outcome(r, ls),
        r is Ok,
        !is_known(k),
    ensures
        r->Ok_0.unparsed.lookup(k) == last_value(ls, k),
        only_unknown_of(ls, r->Ok_0.unparsed.lines()),
{
    lemma_fold_tracks(ls);

}

/// A stanza without a `Priority` field is never assembled; when every field
/// was accepted and `Package` and `Version` are there, the error is a
/// missing `Priority`.
pub proof fn law_missing_priority(ls: Seq<LineView>, r: Result<Package, ParseError>)
    requires
        bin_outcome(r, ls),
        !has_key(ls, "Priority"@),
    ensures
        r is Err,
        fold_bin(ls) is Ok && has_key(ls, "Package"@) && has_key(ls, "Version"@) ==> missing(
            r,
            "Priority"@,
        ),
{
    lemma_fold_tracks(ls);
    crate::rfc822::lemma_last_value_some(ls, "Priority"@);
    crate::rfc822::lemma_last_value_some(ls, "Package"@);
    crate::rfc822::lemma_last_value_some(ls, "Version"@);
}

/// An `Architecture` field that names an unknown architecture aborts the
/// stanza; when no earlier field was rejected, the error is an unknown token
/// in `Architecture`.
pub proof fn law_unknown_arch_aborts(ls: Seq<LineView>, r: Result<Package, ParseError>, i: int)
    requires
        bin_outcome(r, ls),
        0 <= i < ls.len(),
        ls[i].0 == "Architecture"@,
        ls[i].1.len() == 1,
        arches_of(words(ls[i].1[0])) is Err,
    ensures
        r is Err,
        fold_bin(ls.subrange(0, i)) is Ok ==> error_key(r->Err_0) == "Architecture"@
            && r->Err_0 is UnknownEnumToken,
{
    lemma_key_shapes();
    let pre = ls.subrange(0, i + 1);
    assert(pre.drop_last() =~= ls.subrange(0, i));
    assert(pre.last() == ls[i]);
    assert(fold_bin(pre) is Err);
    lemma_fold_err(ls, i + 1);
    if fold_bin(ls.subrange(0, i)) is Ok {
        assert(fold_bin(ls) == Err::<BinAcc, LineView>(ls[i]));
    }
}

} // verus!
