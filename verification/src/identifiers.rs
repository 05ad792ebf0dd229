//! The closed sets of targets, platforms and build profiles, each with its
//! canonical name and an exact-match parser.

use std::str::FromStr;
use vstd::prelude::*;

verus! {

/// Which closed set an identifier was expected to belong to.
#[derive(Clone, Copy, Debug, PartialEq, Eq, Hash, Structural)]
pub enum IdentifierKind {
    Target,
    Platform,
    BuildProfile,
}

/// A string that names no member of the closed set it was read against.
#[derive(Clone, Debug, PartialEq, Eq)]
pub enum ParseError {
    UnknownIdentifier { kind: IdentifierKind, input: String },
}

/// Mathematical model of a [`ParseError`].
pub enum ParseErrorView {
    UnknownIdentifier { kind: IdentifierKind, input: Seq<char> },
}

impl View for ParseError {
    type V = ParseErrorView;

    open spec fn view(&self) -> ParseErrorView {
        match *self {
            ParseError::UnknownIdentifier { kind, input } => ParseErrorView::UnknownIdentifier {
                kind,
                input: input@,
            },
        }
    }
}

/// The character sequences held by a sequence of strings, in order.
pub open spec fn names_of(v: Seq<String>) -> Seq<Seq<char>> {
    Seq::new(v.len(), |i: int| v[i]@)
}

/// The canonical names of one of the closed sets, in the set's order.
pub open spec fn names_in(kind: IdentifierKind) -> Seq<Seq<char>> {
    match kind {
        IdentifierKind::Target => SupportedTarget::all_names(),
        IdentifierKind::Platform => SupportedPlatform::all_names(),
        IdentifierKind::BuildProfile => BuildProfile::all_names(),
    }
}

impl ParseError {
    /// The canonical names of the set that the rejected input was read
    /// against, in the set's order.
    pub fn valid_names(&self) -> (r: Vec<String>)
        ensures
            self@ matches ParseErrorView::UnknownIdentifier { kind, .. } && names_of(r@)
                == names_in(kind),
    {
        match self {
            ParseError::UnknownIdentifier { kind, .. } => match kind {
                IdentifierKind::Target => SupportedTarget::target_names(),
                IdentifierKind::Platform => SupportedPlatform::platform_names(),
                IdentifierKind::BuildProfile => BuildProfile::build_profile_names(),
            },
        }
    }
}

/// Whether two string slices hold the same characters. The comparison is
/// made on owned copies.
pub fn same_text(a: &str, b: &str) -> (r: bool)
    ensures
        r == (a@ == b@),
{
    let x: String = a.to_owned();
    let y: String = b.to_owned();
    x == y
}

/// The targets that a build can be made for.
#[derive(Clone, Copy, Debug, PartialEq, Eq, Hash, Structural)]
pub enum SupportedTarget {
    X8664Sel4Fel4,
    Armv7Sel4Fel4,
    Aarch64Sel4Fel4,
}

impl SupportedTarget {
    /// The canonical name of a target.
    pub open spec fn name(self) -> Seq<char> {
        match self {
            SupportedTarget::X8664Sel4Fel4 => "x86_64-sel4-fel4"@,
            SupportedTarget::Armv7Sel4Fel4 => "armv7-sel4-fel4"@,
            SupportedTarget::Aarch64Sel4Fel4 => "aarch64-sel4-fel4"@,
        }
    }

    /// Every target, in the set's order.
    pub open spec fn all() -> Seq<SupportedTarget> {
        seq![
            SupportedTarget::X8664Sel4Fel4,
            SupportedTarget::Armv7Sel4Fel4,
            SupportedTarget::Aarch64Sel4Fel4,
        ]
    }

    /// The canonical names, in the order of [`Self::all`].
    pub open spec fn all_names() -> Seq<Seq<char>> {
        Seq::new(Self::all().len(), |i: int| Self::all()[i].name())
    }

    /// The target that a sequence of characters names exactly, if there
    /// is one.
    pub open spec fn named(s: Seq<char>) -> Option<SupportedTarget> {
        if exists|v: SupportedTarget| v.name() == s {
            Some(choose|v: SupportedTarget| v.name() == s)
        } else {
            None
        }
    }

    /// What reading a sequence of characters gives: the target that it
    /// names, or the error that holds it.
    pub open spec fn parsed(s: Seq<char>) -> Result<SupportedTarget, ParseErrorView> {
        match Self::named(s) {
            Some(v) => Ok(v),
            None => Err(
                ParseErrorView::UnknownIdentifier { kind: IdentifierKind::Target, input: s },
            ),
        }
    }

    /// The model of the outcome of reading a name.
    pub open spec fn outcome(r: Result<SupportedTarget, ParseError>) -> Result<SupportedTarget, ParseErrorView> {
        match r {
            Ok(v) => Ok(v),
            Err(e) => Err(e@),
        }
    }

    /// Two targets with the same canonical name are the same.
    pub proof fn lemma_name_injective(a: SupportedTarget, b: SupportedTarget)
        requires
            a.name() == b.name(),
        ensures
            a == b,
    {
        reveal_strlit("x86_64-sel4-fel4");
        reveal_strlit("armv7-sel4-fel4");
        reveal_strlit("aarch64-sel4-fel4");
        assert("x86_64-sel4-fel4"@.len() == 16);
        assert("armv7-sel4-fel4"@.len() == 15);
        assert("aarch64-sel4-fel4"@.len() == 17);
    }

    /// Round trip: a canonical name reads back as the target it belongs
    /// to.
    pub proof fn lemma_named_name(v: SupportedTarget)
        ensures
            Self::named(v.name()) == Some(v),
            Self::parsed(v.name()) == Ok::<SupportedTarget, ParseErrorView>(v),
    {
        let w = choose|w: SupportedTarget| w.name() == v.name();
        Self::lemma_name_injective(w, v);
    }

    /// A sequence of characters names a target exactly when it is that
    /// one's canonical name. Reading it fails exactly when it is the
    /// canonical name of none.
    pub proof fn lemma_named_exact(s: Seq<char>)
        ensures
            forall|v: SupportedTarget| Self::named(s) == Some(v) <==> s == v.name(),
            Self::named(s).is_none() <==> forall|v: SupportedTarget| s != v.name(),
            Self::parsed(s) is Err <==> forall|v: SupportedTarget| s != v.name(),
    {
        assert forall|v: SupportedTarget| s == v.name() implies Self::named(s) == Some(v) by {
            Self::lemma_named_name(v);
        }
    }

    /// The list of canonical names has one entry for each target, in the
    /// order of [`Self::all`]; every target occurs in [`Self::all`], and
    /// no name occurs twice.
    pub proof fn lemma_all_names()
        ensures
            Self::all().len() == 3,
            Self::all_names().len() == Self::all().len(),
            forall|v: SupportedTarget| Self::all().contains(v),
            forall|i: int|
                0 <= i < Self::all().len() ==> Self::all_names()[i] == (
                #[trigger] Self::all()[i]).name(),
            forall|i: int, j: int|
                0 <= i < j < Self::all_names().len() ==> Self::all_names()[i]
                    != Self::all_names()[j],
    {
        assert(Self::all()[0] == SupportedTarget::X8664Sel4Fel4);
        assert(Self::all()[1] == SupportedTarget::Armv7Sel4Fel4);
        assert(Self::all()[2] == SupportedTarget::Aarch64Sel4Fel4);
        assert forall|i: int, j: int|
            0 <= i < j < Self::all_names().len() implies Self::all_names()[i]
            != Self::all_names()[j] by {
            if Self::all_names()[i] == Self::all_names()[j] {
                Self::lemma_name_injective(Self::all()[i], Self::all()[j]);
            }
        }
    }

    /// The canonical name.
    pub fn full_name(&self) -> (r: &'static str)
        ensures
            r@ == self.name(),
    {
        match *self {
            SupportedTarget::X8664Sel4Fel4 => "x86_64-sel4-fel4",
            SupportedTarget::Armv7Sel4Fel4 => "armv7-sel4-fel4",
            SupportedTarget::Aarch64Sel4Fel4 => "aarch64-sel4-fel4",
        }
    }

    /// The canonical name, as an owned string.
    pub fn to_string(&self) -> (r: String)
        ensures
            r@ == self.name(),
    {
        self.full_name().to_owned()
    }

    /// Every target, in the set's order.
    pub fn targets() -> (r: Vec<SupportedTarget>)
        ensures
            r@ == Self::all(),
    {
        let r = vec![
            SupportedTarget::X8664Sel4Fel4,
            SupportedTarget::Armv7Sel4Fel4,
            SupportedTarget::Aarch64Sel4Fel4,
        ];
        assert(r@ =~= Self::all());
        r
    }

    /// The canonical names, in the order of [`Self::targets`].
    pub fn target_names() -> (r: Vec<String>)
        ensures
            names_of(r@) == Self::all_names(),
    {
        let members = Self::targets();
        let mut names: Vec<String> = Vec::new();
        let mut i: usize = 0;
        while i < members.len()
            invariant
                members@ == Self::all(),
                i <= members.len(),
                names.len() == i,
                forall|k: int| 0 <= k < i ==> (#[trigger] names@[k])@ == Self::all()[k].name(),
            decreases members.len() - i,
        {
            names.push(members[i].to_string());
            i += 1;
        }
        assert(names_of(names@) =~= Self::all_names());
        names
    }

    /// Reads a canonical name. The match is exact: nothing is trimmed and
    /// case is not folded.
    pub fn parse(s: &str) -> (r: Result<SupportedTarget, ParseError>)
        ensures
            Self::outcome(r) == Self::parsed(s@),
            r matches Ok(v) ==> s@ == v.name(),
    {
        proof {
            Self::lemma_named_exact(s@);
            Self::lemma_named_name(SupportedTarget::X8664Sel4Fel4);
            Self::lemma_named_name(SupportedTarget::Armv7Sel4Fel4);
            Self::lemma_named_name(SupportedTarget::Aarch64Sel4Fel4);
        }
        if same_text(s, "x86_64-sel4-fel4") {
            Ok(SupportedTarget::X8664Sel4Fel4)
        } else if same_text(s, "armv7-sel4-fel4") {
            Ok(SupportedTarget::Armv7Sel4Fel4)
        } else if same_text(s, "aarch64-sel4-fel4") {
            Ok(SupportedTarget::Aarch64Sel4Fel4)
        } else {
            assert forall|v: SupportedTarget| s@ != v.name() by {
                match v {
                    SupportedTarget::X8664Sel4Fel4 => {},
                    SupportedTarget::Armv7Sel4Fel4 => {},
                    SupportedTarget::Aarch64Sel4Fel4 => {},
                }
            }
            Err(
                ParseError::UnknownIdentifier {
                    kind: IdentifierKind::Target,
                    input: s.to_owned(),
                },
            )
        }
    }
}

impl FromStr for SupportedTarget {
    type Err = ParseError;

    fn from_str(s: &str) -> (r: Result<SupportedTarget, ParseError>)
        ensures
            SupportedTarget::outcome(r) == SupportedTarget::parsed(s@),
    {
        SupportedTarget::parse(s)
    }
}

/// The hardware platforms that a build can run on.
#[derive(Clone, Copy, Debug, PartialEq, Eq, Hash, Structural)]
pub enum SupportedPlatform {
    PC99,
    Sabre,
    Tx1,
}

impl SupportedPlatform {
    /// The canonical name of a platform.
    pub open spec fn name(self) -> Seq<char> {
        match self {
            SupportedPlatform::PC99 => "pc99"@,
            SupportedPlatform::Sabre => "sabre"@,
            SupportedPlatform::Tx1 => "tx1"@,
        }
    }

    /// Every platform, in the set's order.
    pub open spec fn all() -> Seq<SupportedPlatform> {
        seq![SupportedPlatform::PC99, SupportedPlatform::Sabre, SupportedPlatform::Tx1]
    }

    /// The canonical names, in the order of [`Self::all`].
    pub open spec fn all_names() -> Seq<Seq<char>> {
        Seq::new(Self::all().len(), |i: int| Self::all()[i].name())
    }

    /// The platform that a sequence of characters names exactly, if there
    /// is one.
    pub open spec fn named(s: Seq<char>) -> Option<SupportedPlatform> {
        if exists|v: SupportedPlatform| v.name() == s {
            Some(choose|v: SupportedPlatform| v.name() == s)
        } else {
            None
        }
    }

    /// What reading a sequence of characters gives: the platform that it
    /// names, or the error that holds it.
    pub open spec fn parsed(s: Seq<char>) -> Result<SupportedPlatform, ParseErrorView> {
        match Self::named(s) {
            Some(v) => Ok(v),
            None => Err(
                ParseErrorView::UnknownIdentifier { kind: IdentifierKind::Platform, input: s },
            ),
        }
    }

    /// The model of the outcome of reading a name.
    pub open spec fn outcome(r: Result<SupportedPlatform, ParseError>) -> Result<SupportedPlatform, ParseErrorView> {
        match r {
            Ok(v) => Ok(v),
            Err(e) => Err(e@),
        }
    }

    /// Two platforms with the same canonical name are the same.
    pub proof fn lemma_name_injective(a: SupportedPlatform, b: SupportedPlatform)
        requires
            a.name() == b.name(),
        ensures
            a == b,
    {
        reveal_strlit("pc99");
        reveal_strlit("sabre");
        reveal_strlit("tx1");
        assert("pc99"@.len() == 4);
        assert("sabre"@.len() == 5);
        assert("tx1"@.len() == 3);
    }

    /// Round trip: a canonical name reads back as the platform it belongs
    /// to.
    pub proof fn lemma_named_name(v: SupportedPlatform)
        ensures
            Self::named(v.name()) == Some(v),
            Self::parsed(v.name()) == Ok::<SupportedPlatform, ParseErrorView>(v),
    {
        let w = choose|w: SupportedPlatform| w.name() == v.name();
        Self::lemma_name_injective(w, v);
    }

    /// A sequence of characters names a platform exactly when it is that
    /// one's canonical name. Reading it fails exactly when it is the
    /// canonical name of none.
    pub proof fn lemma_named_exact(s: Seq<char>)
        ensures
            forall|v: SupportedPlatform| Self::named(s) == Some(v) <==> s == v.name(),
            Self::named(s).is_none() <==> forall|v: SupportedPlatform| s != v.name(),
            Self::parsed(s) is Err <==> forall|v: SupportedPlatform| s != v.name(),
    {
        assert forall|v: SupportedPlatform| s == v.name() implies Self::named(s) == Some(v) by {
            Self::lemma_named_name(v);
        }
    }

    /// The list of canonical names has one entry for each platform, in the
    /// order of [`Self::all`]; every platform occurs in [`Self::all`], and
    /// no name occurs twice.
    pub proof fn lemma_all_names()
        ensures
            Self::all().len() == 3,
            Self::all_names().len() == Self::all().len(),
            forall|v: SupportedPlatform| Self::all().contains(v),
            forall|i: int|
                0 <= i < Self::all().len() ==> Self::all_names()[i] == (
                #[trigger] Self::all()[i]).name(),
            forall|i: int, j: int|
                0 <= i < j < Self::all_names().len() ==> Self::all_names()[i]
                    != Self::all_names()[j],
    {
        assert(Self::all()[0] == SupportedPlatform::PC99);
        assert(Self::all()[1] == SupportedPlatform::Sabre);
        assert(Self::all()[2] == SupportedPlatform::Tx1);
        assert forall|i: int, j: int|
            0 <= i < j < Self::all_names().len() implies Self::all_names()[i]
            != Self::all_names()[j] by {
            if Self::all_names()[i] == Self::all_names()[j] {
                Self::lemma_name_injective(Self::all()[i], Self::all()[j]);
            }
        }
    }

    /// The canonical name.
    pub fn full_name(&self) -> (r: &'static str)
        ensures
            r@ == self.name(),
    {
        match *self {
            SupportedPlatform::PC99 => "pc99",
            SupportedPlatform::Sabre => "sabre",
            SupportedPlatform::Tx1 => "tx1",
        }
    }

    /// The canonical name, as an owned string.
    pub fn to_string(&self) -> (r: String)
        ensures
            r@ == self.name(),
    {
        self.full_name().to_owned()
    }

    /// Every platform, in the set's order.
    pub fn platforms() -> (r: Vec<SupportedPlatform>)
        ensures
            r@ == Self::all(),
    {
        let r = vec![SupportedPlatform::PC99, SupportedPlatform::Sabre, SupportedPlatform::Tx1];
        assert(r@ =~= Self::all());
        r
    }

    /// The canonical names, in the order of [`Self::platforms`].
    pub fn platform_names() -> (r: Vec<String>)
        ensures
            names_of(r@) == Self::all_names(),
    {
        let members = Self::platforms();
        let mut names: Vec<String> = Vec::new();
        let mut i: usize = 0;
        while i < members.len()
            invariant
                members@ == Self::all(),
                i <= members.len(),
                names.len() == i,
                forall|k: int| 0 <= k < i ==> (#[trigger] names@[k])@ == Self::all()[k].name(),
            decreases members.len() - i,
        {
            names.push(members[i].to_string());
            i += 1;
        }
        assert(names_of(names@) =~= Self::all_names());
        names
    }

    /// Reads a canonical name. The match is exact: nothing is trimmed and
    /// case is not folded.
    pub fn parse(s: &str) -> (r: Result<SupportedPlatform, ParseError>)
        ensures
            Self::outcome(r) == Self::parsed(s@),
            r matches Ok(v) ==> s@ == v.name(),
    {
        proof {
            Self::lemma_named_exact(s@);
            Self::lemma_named_name(SupportedPlatform::PC99);
            Self::lemma_named_name(SupportedPlatform::Sabre);
            Self::lemma_named_name(SupportedPlatform::Tx1);
        }
        if same_text(s, "pc99") {
            Ok(SupportedPlatform::PC99)
        } else if same_text(s, "sabre") {
            Ok(SupportedPlatform::Sabre)
        } else if same_text(s, "tx1") {
            Ok(SupportedPlatform::Tx1)
        } else {
            assert forall|v: SupportedPlatform| s@ != v.name() by {
                match v {
                    SupportedPlatform::PC99 => {},
                    SupportedPlatform::Sabre => {},
                    SupportedPlatform::Tx1 => {},
                }
            }
            Err(
                ParseError::UnknownIdentifier {
                    kind: IdentifierKind::Platform,
                    input: s.to_owned(),
                },
            )
        }
    }
}

impl FromStr for SupportedPlatform {
    type Err = ParseError;

    fn from_str(s: &str) -> (r: Result<SupportedPlatform, ParseError>)
        ensures
            SupportedPlatform::outcome(r) == SupportedPlatform::parsed(s@),
    {
        SupportedPlatform::parse(s)
    }
}

/// The profiles that a build can be made with.
#[derive(Clone, Copy, Debug, PartialEq, Eq, Hash, Structural)]
pub enum BuildProfile {
    Debug,
    Release,
}

impl BuildProfile {
    /// The canonical name of a profile.
    pub open spec fn name(self) -> Seq<char> {
        match self {
            BuildProfile::Debug => "debug"@,
            BuildProfile::Release => "release"@,
        }
    }

    /// Every profile, in the set's order.
    pub open spec fn all() -> Seq<BuildProfile> {
        seq![BuildProfile::Debug, BuildProfile::Release]
    }

    /// The canonical names, in the order of [`Self::all`].
    pub open spec fn all_names() -> Seq<Seq<char>> {
        Seq::new(Self::all().len(), |i: int| Self::all()[i].name())
    }

    /// The profile that a sequence of characters names exactly, if there
    /// is one.
    pub open spec fn named(s: Seq<char>) -> Option<BuildProfile> {
        if exists|v: BuildProfile| v.name() == s {
            Some(choose|v: BuildProfile| v.name() == s)
        } else {
            None
        }
    }

    /// What reading a sequence of characters gives: the profile that it
    /// names, or the error that holds it.
    pub open spec fn parsed(s: Seq<char>) -> Result<BuildProfile, ParseErrorView> {
        match Self::named(s) {
            Some(v) => Ok(v),
            None => Err(
                ParseErrorView::UnknownIdentifier { kind: IdentifierKind::BuildProfile, input: s },
            ),
        }
    }

    /// The model of the outcome of reading a name.
    pub open spec fn outcome(r: Result<BuildProfile, ParseError>) -> Result<BuildProfile, ParseErrorView> {
        match r {
            Ok(v) => Ok(v),
            Err(e) => Err(e@),
        }
    }

    /// Two profiles with the same canonical name are the same.
    pub proof fn lemma_name_injective(a: BuildProfile, b: BuildProfile)
        requires
            a.name() == b.name(),
        ensures
            a == b,
    {
        reveal_strlit("debug");
        reveal_strlit("release");
        assert("debug"@.len() == 5);
        assert("release"@.len() == 7);
    }

    /// Round trip: a canonical name reads back as the profile it belongs
    /// to.
    pub proof fn lemma_named_name(v: BuildProfile)
        ensures
            Self::named(v.name()) == Some(v),
            Self::parsed(v.name()) == Ok::<BuildProfile, ParseErrorView>(v),
    {
        let w = choose|w: BuildProfile| w.name() == v.name();
        Self::lemma_name_injective(w, v);
    }

    /// A sequence of characters names a profile exactly when it is that
    /// one's canonical name. Reading it fails exactly when it is the
    /// canonical name of none.
    pub proof fn lemma_named_exact(s: Seq<char>)
        ensures
            forall|v: BuildProfile| Self::named(s) == Some(v) <==> s == v.name(),
            Self::named(s).is_none() <==> forall|v: BuildProfile| s != v.name(),
            Self::parsed(s) is Err <==> forall|v: BuildProfile| s != v.name(),
    {
        assert forall|v: BuildProfile| s == v.name() implies Self::named(s) == Some(v) by {
            Self::lemma_named_name(v);
        }
    }

    /// The list of canonical names has one entry for each profile, in the
    /// order of [`Self::all`]; every profile occurs in [`Self::all`], and
    /// no name occurs twice.
    pub proof fn lemma_all_names()
        ensures
            Self::all().len() == 2,
            Self::all_names().len() == Self::all().len(),
            forall|v: BuildProfile| Self::all().contains(v),
            forall|i: int|
                0 <= i < Self::all().len() ==> Self::all_names()[i] == (
                #[trigger] Self::all()[i]).name(),
            forall|i: int, j: int|
                0 <= i < j < Self::all_names().len() ==> Self::all_names()[i]
                    != Self::all_names()[j],
    {
        assert(Self::all()[0] == BuildProfile::Debug);
        assert(Self::all()[1] == BuildProfile::Release);
        assert forall|i: int, j: int|
            0 <= i < j < Self::all_names().len() implies Self::all_names()[i]
            != Self::all_names()[j] by {
            if Self::all_names()[i] == Self::all_names()[j] {
                Self::lemma_name_injective(Self::all()[i], Self::all()[j]);
            }
        }
    }

    /// The canonical name.
    pub fn full_name(&self) -> (r: &'static str)
        ensures
            r@ == self.name(),
    {
        match *self {
            BuildProfile::Debug => "debug",
            BuildProfile::Release => "release",
        }
    }

    /// The canonical name, as an owned string.
    pub fn to_string(&self) -> (r: String)
        ensures
            r@ == self.name(),
    {
        self.full_name().to_owned()
    }

    /// Every profile, in the set's order.
    pub fn build_profiles() -> (r: Vec<BuildProfile>)
        ensures
            r@ == Self::all(),
    {
        let r = vec![BuildProfile::Debug, BuildProfile::Release];
        assert(r@ =~= Self::all());
        r
    }

    /// The canonical names, in the order of [`Self::build_profiles`].
    pub fn build_profile_names() -> (r: Vec<String>)
        ensures
            names_of(r@) == Self::all_names(),
    {
        let members = Self::build_profiles();
        let mut names: Vec<String> = Vec::new();
        let mut i: usize = 0;
        while i < members.len()
            invariant
                members@ == Self::all(),
                i <= members.len(),
                names.len() == i,
                forall|k: int| 0 <= k < i ==> (#[trigger] names@[k])@ == Self::all()[k].name(),
            decreases members.len() - i,
        {
            names.push(members[i].to_string());
            i += 1;
        }
        assert(names_of(names@) =~= Self::all_names());
        names
    }

    /// Reads a canonical name. The match is exact: nothing is trimmed and
    /// case is not folded.
    pub fn parse(s: &str) -> (r: Result<BuildProfile, ParseError>)
        ensures
            Self::outcome(r) == Self::parsed(s@),
            r matches Ok(v) ==> s@ == v.name(),
    {
        proof {
            Self::lemma_named_exact(s@);
            Self::lemma_named_name(BuildProfile::Debug);
            Self::lemma_named_name(BuildProfile::Release);
        }
        if same_text(s, "debug") {
            Ok(BuildProfile::Debug)
        } else if same_text(s, "release") {
            Ok(BuildProfile::Release)
        } else {
            assert forall|v: BuildProfile| s@ != v.name() by {
                match v {
                    BuildProfile::Debug => {},
                    BuildProfile::Release => {},
                }
            }
            Err(
                ParseError::UnknownIdentifier {
                    kind: IdentifierKind::BuildProfile,
                    input: s.to_owned(),
                },
            )
        }
    }
}

impl FromStr for BuildProfile {
    type Err = ParseError;

    fn from_str(s: &str) -> (r: Result<BuildProfile, ParseError>)
        ensures
            BuildProfile::outcome(r) == BuildProfile::parsed(s@),
    {
        BuildProfile::parse(s)
    }
}

} // verus!
