//! The program's name and version, as shown to the user.
use vstd::prelude::*;

use crate::text::{decimal, decimal_text, green, joined, painted, red, to_upper, upper_of, yellow};

verus! {

/// The maturity of a release.
#[derive(Clone, Copy, Debug, PartialEq, Eq, Structural)]
pub enum Edition {
    Dev,
    Beta,
    Stable,
}

/// A version number with its edition.
#[derive(Clone, Copy, Debug, PartialEq, Eq, Structural)]
pub struct Version {
    pub major: u8,
    pub minor: u8,
    pub revision: u8,
    pub edition: Edition,
}

/// The program's name and the versions of the running module and of the
/// library.
#[derive(Clone, Debug)]
pub struct AppInfo {
    pub name: String,
    pub module_name: String,
    pub module_version: Version,
    pub lib_version: Version,
}

pub open spec fn edition_name(e: Edition) -> Seq<char> {
    match e {
        Edition::Dev => seq!['D', 'e', 'v'],
        Edition::Beta => seq!['B', 'e', 't', 'a'],
        Edition::Stable => seq!['S', 't', 'a', 'b', 'l', 'e'],
    }
}

/// The edition named by an upper-case text.
pub open spec fn edition_from_upper(u: Seq<char>) -> Option<Edition> {
    if u == seq!['D', 'E', 'V'] {
        Some(Edition::Dev)
    } else if u == seq!['B', 'E', 'T', 'A'] {
        Some(Edition::Beta)
    } else if u == seq!['S', 'T', 'A', 'B', 'L', 'E'] {
        Some(Edition::Stable)
    } else {
        None
    }
}

/// The colour an edition is shown in: red, yellow or green.
pub open spec fn edition_colour(e: Edition) -> Seq<char> {
    match e {
        Edition::Dev => seq!['3', '1'],
        Edition::Beta => seq!['3', '3'],
        Edition::Stable => seq!['3', '2'],
    }
}

/// `v{major}.{minor}.{revision} {edition}`.
pub open spec fn version_text(v: Version) -> Seq<char> {
    seq!['v'] + decimal(v.major as nat) + seq!['.'] + decimal(v.minor as nat) + seq!['.'] + decimal(
        v.revision as nat,
    ) + seq![' '] + edition_name(v.edition)
}

/// No character of `s` is an escape.
pub open spec fn escape_free(s: Seq<char>) -> bool {
    forall|i: int| 0 <= i < s.len() ==> s[i] != '\u{1b}'
}

proof fn lemma_decimal_escape_free(n: nat)
    ensures
        escape_free(decimal(n)),
    decreases n,
{
    if n >= 10 {
        lemma_decimal_escape_free(n / 10);
        let d = decimal(n / 10);
        assert forall|i: int| 0 <= i < decimal(n).len() implies decimal(n)[i] != '\u{1b}' by {
            if i < d.len() {
                assert(decimal(n)[i] == d[i]);
            }
        }
    }
}

proof fn lemma_concat_escape_free(a: Seq<char>, b: Seq<char>)
    requires
        escape_free(a),
        escape_free(b),
    ensures
        escape_free(a + b),
{
    assert forall|i: int| 0 <= i < (a + b).len() implies (a + b)[i] != '\u{1b}' by {
        if i < a.len() {
            assert((a + b)[i] == a[i]);
        } else {
            assert((a + b)[i] == b[i - a.len()]);
        }
    }
}

proof fn lemma_version_text_escape_free(v: Version)
    ensures
        !version_text(v).contains('\u{1b}'),
{
    lemma_decimal_escape_free(v.major as nat);
    lemma_decimal_escape_free(v.minor as nat);
    lemma_decimal_escape_free(v.revision as nat);
    let s1 = seq!['v'] + decimal(v.major as nat);
    lemma_concat_escape_free(seq!['v'], decimal(v.major as nat));
    let s2 = s1 + seq!['.'];
    lemma_concat_escape_free(s1, seq!['.']);
    let s3 = s2 + decimal(v.minor as nat);
    lemma_concat_escape_free(s2, decimal(v.minor as nat));
    let s4 = s3 + seq!['.'];
    lemma_concat_escape_free(s3, seq!['.']);
    let s5 = s4 + decimal(v.revision as nat);
    lemma_concat_escape_free(s4, decimal(v.revision as nat));
    let s6 = s5 + seq![' '];
    lemma_concat_escape_free(s5, seq![' ']);
    lemma_concat_escape_free(s6, edition_name(v.edition));
}

impl Edition {
    /// The edition's name.
    pub fn name(&self) -> (r: String)
        ensures
            r@ == edition_name(*self),
    {
        proof {
            reveal_strlit("Dev");
            reveal_strlit("Beta");
            reveal_strlit("Stable");
        }
        let r = match self {
            Edition::Dev => String::from_str("Dev"),
            Edition::Beta => String::from_str("Beta"),
            Edition::Stable => String::from_str("Stable"),
        };
        assert(r@ =~= edition_name(*self));
        r
    }

    /// The edition named by an upper-case text.
    pub fn from_upper(u: &str) -> (r: Option<Edition>)
        ensures
            r == edition_from_upper(u@),
    {
        proof {
            reveal_strlit("DEV");
            reveal_strlit("BETA");
            reveal_strlit("STABLE");
            assert("DEV"@ =~= seq!['D', 'E', 'V']);
            assert("BETA"@ =~= seq!['B', 'E', 'T', 'A']);
            assert("STABLE"@ =~= seq!['S', 'T', 'A', 'B', 'L', 'E']);
        }
        let text = String::from_str(u);
        if text == String::from_str("DEV") {
            Some(Edition::Dev)
        } else if text == String::from_str("BETA") {
            Some(Edition::Beta)
        } else if text == String::from_str("STABLE") {
            Some(Edition::Stable)
        } else {
            None
        }
    }

    /// The edition named by a text, in any case.
    pub fn parse(s: &str) -> (r: Option<Edition>)
        ensures
            r == edition_from_upper(upper_of(s@)),
    {
        let upper = to_upper(s);
        Edition::from_upper(upper.as_str())
    }
}

impl Version {
    /// `v{major}.{minor}.{revision} {edition}`.
    pub fn text(&self) -> (r: String)
        ensures
            r@ == version_text(*self),
    {
        proof {
            reveal_strlit("v");
            reveal_strlit(".");
            reveal_strlit(" ");
            assert("v"@ =~= seq!['v']);
            assert("."@ =~= seq!['.']);
            assert(" "@ =~= seq![' ']);
        }
        let mut r = String::from_str("v");
        r = joined(r, decimal_text(self.major).as_str());
        r = joined(r, ".");
        r = joined(r, decimal_text(self.minor).as_str());
        r = joined(r, ".");
        r = joined(r, decimal_text(self.revision).as_str());
        r = joined(r, " ");
        r = joined(r, self.edition.name().as_str());
        r
    }

    /// The text of the version in its edition's colour.
    pub fn painted_text(&self) -> (r: String)
        ensures
            painted(version_text(*self), edition_colour(self.edition), r@),
    {
        let plain = self.text();
        proof {
            lemma_version_text_escape_free(*self);
        }
        match self.edition {
            Edition::Dev => red(plain.as_str()),
            Edition::Beta => yellow(plain.as_str()),
            Edition::Stable => green(plain.as_str()),
        }
    }
}

impl Default for Version {
    fn default() -> (r: Self)
        ensures
            r == (Version { major: 0, minor: 0, revision: 0, edition: Edition::Dev }),
    {
        Version { major: 0, minor: 0, revision: 0, edition: Edition::Dev }
    }
}

/// `{name}-{module} {module version} (lib {library version})`, with each
/// version shown as `painted_text` gives it.
pub open spec fn shows_info(info: AppInfo, r: Seq<char>) -> bool {
    exists|m: Seq<char>, l: Seq<char>|
        painted(version_text(info.module_version), edition_colour(info.module_version.edition), m)
            && painted(version_text(info.lib_version), edition_colour(info.lib_version.edition), l)
            && r == info.name@ + seq!['-'] + info.module_name@ + seq![' '] + m + seq![
            ' ',
            '(',
            'l',
            'i',
            'b',
            ' ',
        ] + l + seq![')']
}

impl Default for AppInfo {
    fn default() -> (r: Self)
        ensures
            r.name@ == seq!['让', '我', '康', '康'],
            r.module_name@.len() == 0,
            r.module_version == (Version { major: 0, minor: 0, revision: 0, edition: Edition::Dev }),
            r.lib_version == (Version { major: 0, minor: 1, revision: 6, edition: Edition::Dev }),
    {
        proof {
            reveal_strlit("让我康康");
        }
        let name = String::from_str("让我康康");
        assert(name@ =~= seq!['让', '我', '康', '康']);
        AppInfo {
            name,
            module_name: String::new(),
            module_version: Version::default(),
            lib_version: Version { major: 0, minor: 1, revision: 6, edition: Edition::Dev },
        }
    }
}

impl AppInfo {
    /// The program's name and versions, each version in its edition's colour.
    pub fn display(&self) -> (r: String)
        ensures
            shows_info(*self, r@),
    {
        proof {
            reveal_strlit("-");
            reveal_strlit(" ");
            reveal_strlit(" (lib ");
            reveal_strlit(")");
            assert("-"@ =~= seq!['-']);
            assert(" "@ =~= seq![' ']);
            assert(" (lib "@ =~= seq![' ', '(', 'l', 'i', 'b', ' ']);
            assert(")"@ =~= seq![')']);
        }
        let m = self.module_version.painted_text();
        let l = self.lib_version.painted_text();
        let mut r = self.name.clone();
        r = joined(r, "-");
        r = joined(r, self.module_name.as_str());
        r = joined(r, " ");
        r = joined(r, m.as_str());
        r = joined(r, " (lib ");
        r = joined(r, l.as_str());
        r = joined(r, ")");
        assert(shows_info(*self, r@));
        r
    }

    /// Sets the name of the running module.
    pub fn set_module_name(&mut self, name: &str)
        ensures
            final(self).module_name@ == name@,
            final(self).name == old(self).name,
            final(self).module_version == old(self).module_version,
            final(self).lib_version == old(self).lib_version,
    {
        self.module_name = String::from_str(name);
    }

    /// Sets the version of the running module; an edition name that is not
    /// `dev`, `beta` or `stable` in any case counts as `Dev`.
    pub fn set_module_version(&mut self, major: u8, minor: u8, revision: u8, edition: &str)
        ensures
            final(self).module_version == (Version {
                major,
                minor,
                revision,
                edition: match edition_from_upper(upper_of(edition@)) {
                    Some(e) => e,
                    None => Edition::Dev,
                },
            }),
            final(self).name == old(self).name,
            final(self).module_name == old(self).module_name,
            final(self).lib_version == old(self).lib_version,
    {
        let e = match Edition::parse(edition) {
            Some(e) => e,
            None => Edition::Dev,
        };
        self.module_version = Version { major, minor, revision, edition: e };
    }
}

} // verus!
