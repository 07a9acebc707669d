use vstd::prelude::*;

use crate::error::Error;

verus! {

/// One dot-separated identifier of a pre-release.
#[derive(Debug, Clone, PartialEq, Eq, PartialOrd, Ord, Hash)]
pub enum Identifier {
    Numeric(u32),
    AlphaNumeric(String),
}

/// A semantic version: `major.minor.patch`, an optional pre-release and an
/// optional build label.
#[derive(Debug, Clone, Eq, PartialOrd, Ord, Hash)]
pub struct Version {
    pub major: u32,
    pub minor: u32,
    pub patch: u32,
    pub pre: Vec<Identifier>,
    pub build: Option<String>,
}

/// The mathematical value of an identifier.
pub enum IdentifierView {
    Numeric(u32),
    AlphaNumeric(Seq<char>),
}

/// The mathematical value of a version.
pub struct VersionView {
    pub major: u32,
    pub minor: u32,
    pub patch: u32,
    pub pre: Seq<IdentifierView>,
    pub build: Option<Seq<char>>,
}

impl View for Identifier {
    type V = IdentifierView;

    open spec fn view(&self) -> IdentifierView {
        match self {
            Identifier::Numeric(n) => IdentifierView::Numeric(*n),
            Identifier::AlphaNumeric(s) => IdentifierView::AlphaNumeric(s@),
        }
    }
}

impl View for Version {
    type V = VersionView;

    open spec fn view(&self) -> VersionView {
        VersionView {
            major: self.major,
            minor: self.minor,
            patch: self.patch,
            pre: self.pre@.map_values(|i: Identifier| i@),
            build: match self.build {
                Some(b) => Some(b@),
                None => None,
            },
        }
    }
}

/// What hexpm's version parser makes of a text, if it accepts it.
pub uninterp spec fn parsed_version(s: Seq<char>) -> Option<VersionView>;

/// The decimal digits of a number.
pub open spec fn decimal(n: nat) -> Seq<char>
    decreases n,
{
    if n < 10 {
        seq![digit_char(n)]
    } else {
        decimal(n / 10) + seq![digit_char(n % 10)]
    }
}

pub open spec fn digit_char(d: nat) -> char {
    if d == 0 { '0' } else if d == 1 { '1' } else if d == 2 { '2' } else if d == 3 { '3' }
    else if d == 4 { '4' } else if d == 5 { '5' } else if d == 6 { '6' } else if d == 7 { '7' }
    else if d == 8 { '8' } else { '9' }
}

pub open spec fn identifier_text(i: IdentifierView) -> Seq<char> {
    match i {
        IdentifierView::Numeric(n) => decimal(n as nat),
        IdentifierView::AlphaNumeric(s) => s,
    }
}

/// The identifiers of a pre-release joined by dots.
pub open spec fn joined_identifiers(ids: Seq<IdentifierView>) -> Seq<char>
    decreases ids.len(),
{
    if ids.len() == 0 {
        Seq::empty()
    } else if ids.len() == 1 {
        identifier_text(ids[0])
    } else {
        joined_identifiers(ids.drop_last()) + seq!['.'] + identifier_text(ids.last())
    }
}

/// The text of a version: `1.2.3`, then `-` and the pre-release if there is
/// one, then `+` and the build label if there is one.
pub open spec fn version_text(v: VersionView) -> Seq<char> {
    let core = decimal(v.major as nat) + seq!['.'] + decimal(v.minor as nat) + seq!['.']
        + decimal(v.patch as nat);
    let with_pre = if v.pre.len() == 0 {
        core
    } else {
        core + seq!['-'] + joined_identifiers(v.pre)
    };
    match v.build {
        Some(b) => with_pre + seq!['+'] + b,
        None => with_pre,
    }
}

/// Relies on hexpm's `Version::parse`: the version it reads from a text, one
/// for one in its fields, or none where the text is not a version.
#[verifier::external_body]
fn parse_with_hexpm(s: &str) -> (r: Option<Version>)
    ensures
        match r {
            Some(v) => parsed_version(s@) == Some(v@),
            None => parsed_version(s@) is None,
        },
{
    let v = hexpm::version::Version::parse(s).ok()?;
    let pre = v.pre.into_iter().map(|i| match i {
        hexpm::version::Identifier::Numeric(n) => Identifier::Numeric(n),
        hexpm::version::Identifier::AlphaNumeric(a) => Identifier::AlphaNumeric(a),
    }).collect();
    Some(Version { major: v.major, minor: v.minor, patch: v.patch, pre, build: v.build })
}

/// Relies on the `Display` impl of hexpm's `Version`: it writes the three
/// numbers in decimal with dots, the pre-release after `-` with its
/// identifiers joined by dots, and the build label after `+`.
#[verifier::external_body]
fn render_with_hexpm(v: &Version) -> (r: String)
    ensures
        r@ == version_text(v@),
{
    let pre = v.pre.iter().map(|i| match i {
        Identifier::Numeric(n) => hexpm::version::Identifier::Numeric(*n),
        Identifier::AlphaNumeric(a) => hexpm::version::Identifier::AlphaNumeric(a.clone()),
    }).collect();
    let hv = hexpm::version::Version {
        major: v.major, minor: v.minor, patch: v.patch, pre, build: v.build.clone(),
    };
    hv.to_string()
}

/// A copy of a list of texts, entry for entry.
pub fn duplicate_texts(v: &Vec<String>) -> (r: Vec<String>)
    ensures
        r@.map_values(|s: String| s@) == v@.map_values(|s: String| s@),
{
    let mut r: Vec<String> = Vec::new();
    let mut i: usize = 0;
    while i < v.len()
        invariant
            i <= v.len(),
            r@.map_values(|s: String| s@) == v@.subrange(0, i as int).map_values(|s: String| s@),
        decreases v.len() - i,
    {
        r.push(v[i].clone());
        assert(v@.subrange(0, i + 1).map_values(|s: String| s@) =~= v@.subrange(0, i as int).map_values(|s: String| s@).push(v@[i as int]@));
        assert(r@.map_values(|s: String| s@) =~= v@.subrange(0, i + 1).map_values(|s: String| s@));
        i = i + 1;
    }
    assert(v@.subrange(0, i as int) =~= v@);
    r
}

impl Identifier {
    /// A copy of the identifier.
    pub fn duplicate(&self) -> (r: Identifier)
        ensures
            r@ == self@,
    {
        match self {
            Identifier::Numeric(n) => Identifier::Numeric(*n),
            Identifier::AlphaNumeric(a) => Identifier::AlphaNumeric(a.clone()),
        }
    }

    /// Whether two identifiers are the same.
    pub fn same_as(&self, other: &Identifier) -> (r: bool)
        ensures
            r == (self@ == other@),
    {
        match (self, other) {
            (Identifier::Numeric(a), Identifier::Numeric(b)) => *a == *b,
            (Identifier::AlphaNumeric(a), Identifier::AlphaNumeric(b)) => a.eq(b),
            _ => false,
        }
    }
}

impl Version {
    /// The version `major.minor.patch`, with no pre-release and no build label.
    pub fn new(major: u32, minor: u32, patch: u32) -> (r: Version)
        ensures
            r@.major == major,
            r@.minor == minor,
            r@.patch == patch,
            r@.pre.len() == 0,
            r@.build is None,
    {
        Version { major, minor, patch, pre: Vec::new(), build: None }
    }

    /// A copy of the version.
    pub fn duplicate(&self) -> (r: Version)
        ensures
            r@ == self@,
    {
        let mut pre: Vec<Identifier> = Vec::new();
        let mut i: usize = 0;
        while i < self.pre.len()
            invariant
                i <= self.pre.len(),
                pre@.map_values(|x: Identifier| x@) == self.pre@.subrange(0, i as int).map_values(|x: Identifier| x@),
            decreases self.pre.len() - i,
        {
            pre.push(self.pre[i].duplicate());
            assert(self.pre@.subrange(0, i + 1).map_values(|x: Identifier| x@) =~= self.pre@.subrange(0, i as int).map_values(|x: Identifier| x@).push(self.pre@[i as int]@));
            assert(pre@.map_values(|x: Identifier| x@) =~= self.pre@.subrange(0, i + 1).map_values(|x: Identifier| x@));
            i = i + 1;
        }
        assert(self.pre@.subrange(0, i as int) =~= self.pre@);
        let build = match &self.build {
            Some(b) => Some(b.clone()),
            None => None,
        };
        Version { major: self.major, minor: self.minor, patch: self.patch, pre, build }
    }

    /// Reads a version from its text.
    pub fn parse(s: &str) -> (r: Result<Version, Error>)
        ensures
            match r {
                Ok(v) => parsed_version(s@) == Some(v@),
                Err(e) => parsed_version(s@) is None && e == (Error::InvalidVersion {
                    text: e->InvalidVersion_text,
                }) && e->InvalidVersion_text@ == s@,
            },
    {
        match parse_with_hexpm(s) {
            Some(v) => Ok(v),
            None => Err(Error::InvalidVersion { text: s.to_string() }),
        }
    }

    /// Whether two versions are the same in every field.
    pub fn same_as(&self, other: &Version) -> (r: bool)
        ensures
            r == (self@ == other@),
    {
        if self.major != other.major || self.minor != other.minor || self.patch != other.patch {
            return false;
        }
        let same_build = match (&self.build, &other.build) {
            (Some(a), Some(b)) => a.eq(b),
            (None, None) => true,
            _ => false,
        };
        if !same_build {
            assert(self@.build != other@.build);
            return false;
        }
        assert(self@.build == other@.build);
        if self.pre.len() != other.pre.len() {
            assert(self@.pre.len() != other@.pre.len());
            return false;
        }
        let mut i: usize = 0;
        while i < self.pre.len()
            invariant
                i <= self.pre.len() == other.pre.len(),
                forall|j: int| 0 <= j < i ==> self.pre@[j]@ == other.pre@[j]@,
            decreases self.pre.len() - i,
        {
            if !self.pre[i].same_as(&other.pre[i]) {
                assert(self@.pre[i as int] != other@.pre[i as int]);
                return false;
            }
            i = i + 1;
        }
        assert(self@.pre =~= other@.pre);
        true
    }

    /// The text of the version, as hexpm writes it.
    pub fn to_text(&self) -> (r: String)
        ensures
            r@ == version_text(self@),
    {
        render_with_hexpm(self)
    }
}

impl PartialEq for Version {
    fn eq(&self, other: &Version) -> (r: bool) {
        self.same_as(other)
    }
}

impl vstd::std_specs::cmp::PartialEqSpecImpl for Version {
    open spec fn obeys_eq_spec() -> bool {
        true
    }

    open spec fn eq_spec(&self, other: &Version) -> bool {
        self@ == other@
    }
}

} // verus!
