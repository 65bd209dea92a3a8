//! Semantic versions and version requirements as the package registry uses them.
//!
//! Parsing, precedence and requirement matching are those of the `semver` crate;
//! the library holds versions as plain numbers and identifier text.

use vstd::prelude::*;

use crate::text::{decimal, is_digit, split_char, u64_text};

verus! {

/// Plain-value view of a version: major, minor, patch, pre-release, build.
pub type VersionView = (u64, u64, u64, Seq<char>, Seq<char>);

/// An identifier character: ASCII letter, digit or `-`.
pub open spec fn ident_char(c: char) -> bool {
    ('a' <= c && c <= 'z') || ('A' <= c && c <= 'Z') || is_digit(c) || c == '-'
}

/// A non-empty run of identifier characters.
pub open spec fn build_ident(seg: Seq<char>) -> bool {
    seg.len() > 0 && forall|i: int| 0 <= i < seg.len() ==> ident_char(#[trigger] seg[i])
}

/// A build identifier that, when numeric, has no leading zero.
pub open spec fn pre_ident(seg: Seq<char>) -> bool {
    build_ident(seg) && !(seg.len() > 1 && seg[0] == '0' && forall|i: int| 0 <= i < seg.len() ==> is_digit(#[trigger] seg[i]))
}

/// Pre-release text semver accepts: empty, or dot separated identifiers.
pub open spec fn pre_valid(s: Seq<char>) -> bool {
    s.len() == 0 || forall|k: int| 0 <= k < split_char(s, '.').len() ==> pre_ident(#[trigger] split_char(s, '.')[k])
}

/// Build metadata text semver accepts: empty, or dot separated identifiers.
pub open spec fn build_valid(s: Seq<char>) -> bool {
    s.len() == 0 || forall|k: int| 0 <= k < split_char(s, '.').len() ==> build_ident(#[trigger] split_char(s, '.')[k])
}

/// A semantic version.
#[derive(Debug)]
pub struct Version {
    pub(crate) major: u64,
    pub(crate) minor: u64,
    pub(crate) patch: u64,
    pub(crate) pre: String,
    pub(crate) build: String,
}

impl View for Version {
    type V = VersionView;

    closed spec fn view(&self) -> VersionView {
        (self.major, self.minor, self.patch, self.pre@, self.build@)
    }
}

impl Version {
    /// Pre-release and build identifiers are ones semver accepts.
    #[verifier::type_invariant]
    pub closed spec fn well_formed(&self) -> bool {
        pre_valid(self.pre@) && build_valid(self.build@)
    }

    /// A release version without pre-release or build identifiers.
    pub fn new(major: u64, minor: u64, patch: u64) -> (v: Version)
        ensures
            v@ == (major, minor, patch, Seq::<char>::empty(), Seq::<char>::empty()),
    {
        Version { major, minor, patch, pre: String::new(), build: String::new() }
    }

    /// Major number.
    pub fn major(&self) -> (r: u64)
        ensures
            r == self@.0,
    {
        self.major
    }

    /// Minor number.
    pub fn minor(&self) -> (r: u64)
        ensures
            r == self@.1,
    {
        self.minor
    }

    /// Patch number.
    pub fn patch(&self) -> (r: u64)
        ensures
            r == self@.2,
    {
        self.patch
    }

    /// Pre-release identifiers (empty for a release).
    pub fn pre(&self) -> (r: &str)
        ensures
            r@ == self@.3,
    {
        self.pre.as_str()
    }

    /// Build metadata (usually empty).
    pub fn build(&self) -> (r: &str)
        ensures
            r@ == self@.4,
    {
        self.build.as_str()
    }

    /// Parses semver text (`semver::Version::parse`).
    pub fn parse(text: &str) -> (r: Option<Version>)
        ensures
            match r {
                Some(v) => semver_parse(text@) == Some(v@),
                None => semver_parse(text@).is_none(),
            },
    {
        parse_semver(text)
    }

    /// Copies the version.
    pub fn copy(&self) -> (r: Version)
        ensures
            r@ == self@,
            pre_valid(r@.3),
            build_valid(r@.4),
    {
        proof {
            use_type_invariant(self);
        }
        Version {
            major: self.major,
            minor: self.minor,
            patch: self.patch,
            pre: self.pre.clone(),
            build: self.build.clone(),
        }
    }

    /// The version's text (`Display` of `semver::Version`).
    pub fn text(&self) -> (r: String)
        ensures
            r@ == version_text(self@),
    {
        let mut out = u64_text(self.major);
        out.append(".");
        let minor = u64_text(self.minor);
        out.append(minor.as_str());
        out.append(".");
        let patch = u64_text(self.patch);
        out.append(patch.as_str());
        if !self.pre.as_str().is_empty() {
            out.append("-");
            out.append(self.pre.as_str());
        }
        if !self.build.as_str().is_empty() {
            out.append("+");
            out.append(self.build.as_str());
        }
        proof {
            assert(out@ =~= version_text(self@));
        }
        out
    }

    /// Same version: every field equal.
    pub fn same(&self, other: &Version) -> (r: bool)
        ensures
            r == (self@ == other@),
    {
        self.major == other.major && self.minor == other.minor && self.patch == other.patch
            && self.pre == other.pre && self.build == other.build
    }

    /// Precedence order: -1, 0 or 1 as `self` is older than, equal to or newer
    /// than `other`.
    pub fn order(&self, other: &Version) -> (r: i8)
        ensures
            r == semver_order(self@, other@),
            -1 <= r <= 1,
            (r == 0) == (self@ == other@),
            semver_order(other@, self@) == -r,
            numbers_differ(self@, other@) ==> r == numeric_order(self@, other@),
    {
        proof {
            use_type_invariant(self);
            use_type_invariant(other);
        }
        semver_order_of(self, other)
    }

    /// `self` is older than `other`.
    pub fn older_than(&self, other: &Version) -> (r: bool)
        ensures
            r == (semver_order(self@, other@) < 0),
    {
        self.order(other) < 0
    }
}

/// Text semver prints for a version.
pub open spec fn version_text(v: VersionView) -> Seq<char> {
    decimal(v.0 as nat) + "."@ + decimal(v.1 as nat) + "."@ + decimal(v.2 as nat) + (if v.3.len() > 0 {
        "-"@ + v.3
    } else {
        Seq::empty()
    }) + (if v.4.len() > 0 {
        "+"@ + v.4
    } else {
        Seq::empty()
    })
}

/// Major, minor and patch numbers are not all equal.
pub open spec fn numbers_differ(a: VersionView, b: VersionView) -> bool {
    a.0 != b.0 || a.1 != b.1 || a.2 != b.2
}

/// Lexicographic order of the major, minor and patch numbers.
pub open spec fn numeric_order(a: VersionView, b: VersionView) -> int {
    if a.0 < b.0 {
        -1
    } else if a.0 > b.0 {
        1
    } else if a.1 < b.1 {
        -1
    } else if a.1 > b.1 {
        1
    } else if a.2 < b.2 {
        -1
    } else if a.2 > b.2 {
        1
    } else {
        0
    }
}

/// How `semver::Version::parse` reads a text, as a plain-value view.
pub uninterp spec fn semver_parse(text: Seq<char>) -> Option<VersionView>;

/// `semver::Version::parse`, converted field by field. What it accepts has
/// pre-release and build identifiers of semver's grammar.
#[verifier::external_body]
fn parse_semver(text: &str) -> (r: Option<Version>)
    ensures
        match r {
            Some(v) => semver_parse(text@) == Some(v@),
            None => semver_parse(text@).is_none(),
        },
{
    match semver::Version::parse(text) {
        Ok(v) => Some(Version {
            major: v.major,
            minor: v.minor,
            patch: v.patch,
            pre: String::from(v.pre.as_str()),
            build: String::from(v.build.as_str()),
        }),
        Err(_) => None,
    }
}

/// Precedence of two versions as semver's `Ord` orders them (-1, 0 or 1).
pub uninterp spec fn semver_order(a: VersionView, b: VersionView) -> int;

/// `Ord::cmp` of `semver::Version`: a total order on versions that compares the
/// major, minor and patch numbers first and is `Equal` only for equal fields.
#[verifier::external_body]
fn semver_order_of(a: &Version, b: &Version) -> (r: i8)
    requires
        pre_valid(a.pre@) && build_valid(a.build@),
        pre_valid(b.pre@) && build_valid(b.build@),
    ensures
        r == semver_order(a@, b@),
        -1 <= r <= 1,
        (r == 0) == (a@ == b@),
        semver_order(b@, a@) == -r,
        numbers_differ(a@, b@) ==> r == numeric_order(a@, b@),
{
    let x = semver::Version { major: a.major, minor: a.minor, patch: a.patch,
        pre: semver::Prerelease::new(&a.pre).unwrap(), build: semver::BuildMetadata::new(&a.build).unwrap() };
    let y = semver::Version { major: b.major, minor: b.minor, patch: b.patch,
        pre: semver::Prerelease::new(&b.pre).unwrap(), build: semver::BuildMetadata::new(&b.build).unwrap() };
    match x.cmp(&y) {
        std::cmp::Ordering::Less => -1,
        std::cmp::Ordering::Equal => 0,
        std::cmp::Ordering::Greater => 1,
    }
}

/// A version requirement, held as the text semver prints for it.
#[derive(Debug)]
pub struct Requirement {
    pub(crate) text: String,
}

impl View for Requirement {
    type V = Seq<char>;

    closed spec fn view(&self) -> Seq<char> {
        self.text@
    }
}

/// Canonical text of what `semver::VersionReq::parse` reads, or `None` when it
/// refuses the text.
pub uninterp spec fn semver_requirement(text: Seq<char>) -> Option<Seq<char>>;

/// Whether a version satisfies the requirement with that canonical text, as
/// `semver::VersionReq::matches` decides.
pub uninterp spec fn semver_matches(requirement: Seq<char>, version: VersionView) -> bool;

/// `semver::VersionReq::parse`, keeping its canonical `Display` text.
#[verifier::external_body]
fn parse_requirement(text: &str) -> (r: Option<Requirement>)
    ensures
        match r {
            Some(q) => semver_requirement(text@) == Some(q@),
            None => semver_requirement(text@).is_none(),
        },
{
    match semver::VersionReq::parse(text) {
        Ok(q) => Some(Requirement { text: q.to_string() }),
        Err(_) => None,
    }
}

/// `v` has the version numbers and pre-release of `w` (build metadata aside).
pub open spec fn same_version_numbers(v: VersionView, w: VersionView) -> bool {
    v.0 == w.0 && v.1 == w.1 && v.2 == w.2 && v.3 == w.3
}

/// `semver::VersionReq::matches` on the requirement re-read from its text.
/// Beyond naming the answer, this states what semver's exact comparator
/// (`=major.minor.patch[-pre]`) decides: the version matches when its numbers
/// and pre-release are those of the comparator, build metadata ignored.
#[verifier::external_body]
fn requirement_matches(q: &Requirement, v: &Version) -> (r: bool)
    requires
        pre_valid(v.pre@) && build_valid(v.build@),
    ensures
        r == semver_matches(q@, v@),
        forall|w: VersionView| #[trigger] exact_requirement_text(w) == q@ && pre_valid(w.3) ==> (r == same_version_numbers(v@, w)),
{
    let version = semver::Version { major: v.major, minor: v.minor, patch: v.patch,
        pre: semver::Prerelease::new(&v.pre).unwrap(), build: semver::BuildMetadata::new(&v.build).unwrap() };
    match semver::VersionReq::parse(&q.text) {
        Ok(req) => req.matches(&version),
        Err(_) => false,
    }
}

/// Text of the requirement that pins exactly one version (`=` with the version
/// numbers and pre-release, which is how semver prints such a requirement).
pub open spec fn exact_requirement_text(v: VersionView) -> Seq<char> {
    "="@ + decimal(v.0 as nat) + "."@ + decimal(v.1 as nat) + "."@ + decimal(v.2 as nat) + (if v.3.len() > 0 {
        "-"@ + v.3
    } else {
        Seq::empty()
    })
}

impl Requirement {
    /// Parses requirement text (`semver::VersionReq::parse`).
    pub fn parse(text: &str) -> (r: Option<Requirement>)
        ensures
            match r {
                Some(q) => semver_requirement(text@) == Some(q@),
                None => semver_requirement(text@).is_none(),
            },
    {
        parse_requirement(text)
    }

    /// The requirement pinning exactly `v`.
    pub fn exact(v: &Version) -> (q: Requirement)
        ensures
            q@ == exact_requirement_text(v@),
    {
        let mut text = String::new();
        text.append("=");
        let major = u64_text(v.major);
        text.append(major.as_str());
        text.append(".");
        let minor = u64_text(v.minor);
        text.append(minor.as_str());
        text.append(".");
        let patch = u64_text(v.patch);
        text.append(patch.as_str());
        if !v.pre.as_str().is_empty() {
            text.append("-");
            text.append(v.pre.as_str());
        }
        proof {
            assert(text@ =~= exact_requirement_text(v@));
        }
        Requirement { text }
    }

    /// The canonical text.
    pub fn text(&self) -> (r: &str)
        ensures
            r@ == self@,
    {
        self.text.as_str()
    }

    /// Copies the requirement.
    pub fn copy(&self) -> (r: Requirement)
        ensures
            r@ == self@,
    {
        Requirement { text: self.text.clone() }
    }

    /// Whether `v` satisfies the requirement; an exact requirement accepts
    /// just the versions with its numbers and pre-release.
    pub fn matches(&self, v: &Version) -> (r: bool)
        ensures
            r == semver_matches(self@, v@),
            forall|w: VersionView| #[trigger] exact_requirement_text(w) == self@ && pre_valid(w.3) ==> (r == same_version_numbers(v@, w)),
    {
        proof {
            use_type_invariant(v);
        }
        requirement_matches(self, v)
    }
}

/// The text of the error `semver::Version::parse` reports for a text it refuses.
pub uninterp spec fn semver_parse_error(text: Seq<char>) -> Seq<char>;

/// `semver::Version::parse`'s error, displayed.
#[verifier::external_body]
pub(crate) fn parse_error_text(text: &str) -> (r: String)
    requires
        semver_parse(text@).is_none(),
    ensures
        r@ == semver_parse_error(text@),
{
    match semver::Version::parse(text) {
        Ok(_) => String::new(),
        Err(e) => e.to_string(),
    }
}

} // verus!
