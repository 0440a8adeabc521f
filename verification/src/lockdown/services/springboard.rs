//! The home screen: the application in front, and the orientation.

use vstd::prelude::*;
use crate::entries::Entries;
use crate::lockdown::error::Error;
use crate::proplist::{no_entries, Dict, Plist, Tree};
use crate::text::{
    ascii_lower, chars_of, join2, own, same_str, signed_decimal, signed_text, string_of,
};

verus! {

/// The name of the service.
pub const SERVICE: &'static str = "com.apple.springboardservices";

/// How the screen is held.
#[derive(Clone, Copy, Debug, PartialEq, Eq, Structural)]
pub enum Orientation {
    Portrait,
    PortraitUpsideDown,
    /// The home button is on the right.
    LandscapeRight,
    /// The home button is on the left.
    LandscapeLeft,
}

/// What `str::to_lowercase` makes of a text.
pub uninterp spec fn lowercase_text(s: Seq<char>) -> Seq<char>;

/// Whether a text is all ASCII.
pub open spec fn ascii(s: Seq<char>) -> bool {
    forall|i: int| 0 <= i < s.len() ==> (#[trigger] s[i] as u32) < 0x80
}

/// A text in lower case.
pub open spec fn lowered(s: Seq<char>) -> Seq<char> {
    if ascii(s) {
        s.map_values(|c: char| ascii_lower(c))
    } else {
        lowercase_text(s)
    }
}

/// `str::to_lowercase`: of ASCII text the letters become small and all else stays.
/// What other text becomes is left to the name `lowercase_text`.
#[verifier::external_body]
fn to_lowercase(s: &str) -> (out: String)
    ensures
        !ascii(s@) ==> out@ == lowercase_text(s@),
        ascii(s@) ==> out@ == s@.map_values(|c: char| ascii_lower(c)),
{
    s.to_lowercase()
}

/// A text with low lines in the place of hyphens.
pub open spec fn with_low_lines(s: Seq<char>) -> Seq<char> {
    s.map_values(
        |c: char|
            if c == '-' {
                '_'
            } else {
                c
            },
    )
}

fn replace_hyphens(s: &str) -> (out: String)
    ensures
        out@ == with_low_lines(s@),
{
    let chars: Vec<char> = chars_of(s);
    let mut out: Vec<char> = Vec::new();
    let mut i: usize = 0;
    while i < chars.len()
        invariant
            chars@ == s@,
            i <= chars@.len(),
            out@.len() == i,
            forall|j: int| 0 <= j < i ==> out@[j] == #[trigger] with_low_lines(s@)[j],
        decreases chars@.len() - i,
    {
        let c: char = chars[i];
        assert(with_low_lines(s@)[i as int] == if c == '-' {
            '_'
        } else {
            c
        });
        out.push(
            if c == '-' {
                '_'
            } else {
                c
            },
        );
        i += 1;
    }
    assert(out@ =~= with_low_lines(s@));
    string_of(out.as_slice())
}

impl Orientation {
    /// The name of the orientation.
    pub open spec fn name(self) -> Seq<char> {
        match self {
            Orientation::Portrait => "portrait"@,
            Orientation::PortraitUpsideDown => "portrait_upside_down"@,
            Orientation::LandscapeRight => "landscape_right"@,
            Orientation::LandscapeLeft => "landscape_left"@,
        }
    }

    /// The number of the orientation.
    pub open spec fn code(self) -> int {
        match self {
            Orientation::Portrait => 1,
            Orientation::PortraitUpsideDown => 2,
            Orientation::LandscapeRight => 3,
            Orientation::LandscapeLeft => 4,
        }
    }

    pub fn as_str(self) -> (name: &'static str)
        ensures
            name@ == self.name(),
    {
        match self {
            Orientation::Portrait => "portrait",
            Orientation::PortraitUpsideDown => "portrait_upside_down",
            Orientation::LandscapeRight => "landscape_right",
            Orientation::LandscapeLeft => "landscape_left",
        }
    }

    pub fn number(self) -> (n: i64)
        ensures
            n == self.code(),
    {
        match self {
            Orientation::Portrait => 1,
            Orientation::PortraitUpsideDown => 2,
            Orientation::LandscapeRight => 3,
            Orientation::LandscapeLeft => 4,
        }
    }

    /// The orientation that a name in lower case, or a number, stands for.
    pub open spec fn called(s: Seq<char>) -> Option<Orientation> {
        if s == "portrait"@ || s == "1"@ {
            Some(Orientation::Portrait)
        } else if s == "portrait_upside_down"@ || s == "2"@ {
            Some(Orientation::PortraitUpsideDown)
        } else if s == "landscape_right"@ || s == "3"@ {
            Some(Orientation::LandscapeRight)
        } else if s == "landscape_left"@ || s == "4"@ {
            Some(Orientation::LandscapeLeft)
        } else {
            None
        }
    }

    /// Reads a name in lower case with low lines, or a number.
    pub fn parse_plain(s: &str) -> (o: Option<Orientation>)
        ensures
            o == Orientation::called(s@),
    {
        if same_str(s, "portrait") || same_str(s, "1") {
            Some(Orientation::Portrait)
        } else if same_str(s, "portrait_upside_down") || same_str(s, "2") {
            Some(Orientation::PortraitUpsideDown)
        } else if same_str(s, "landscape_right") || same_str(s, "3") {
            Some(Orientation::LandscapeRight)
        } else if same_str(s, "landscape_left") || same_str(s, "4") {
            Some(Orientation::LandscapeLeft)
        } else {
            None
        }
    }

    /// Reads a name, in any case and with hyphens or low lines, or a number.
    pub fn parse(s: &str) -> (o: Option<Orientation>)
        ensures
            o == Orientation::called(with_low_lines(lowered(s@))),
    {
        let lower: String = to_lowercase(s);
        assert(lower@ == lowered(s@));
        Orientation::parse_plain(replace_hyphens(lower.as_str()).as_str())
    }

    /// The orientation with a number.
    pub open spec fn numbered(n: int) -> Option<Orientation> {
        if n == 1 {
            Some(Orientation::Portrait)
        } else if n == 2 {
            Some(Orientation::PortraitUpsideDown)
        } else if n == 3 {
            Some(Orientation::LandscapeRight)
        } else if n == 4 {
            Some(Orientation::LandscapeLeft)
        } else {
            None
        }
    }
}

/// The name of an orientation stands for that orientation, and so does its number.
pub proof fn lemma_names_read_back(o: Orientation)
    ensures
        Orientation::called(with_low_lines(lowered(o.name()))) == Some(o),
        Orientation::numbered(o.code()) == Some(o),
{
    reveal_strlit("portrait");
    reveal_strlit("portrait_upside_down");
    reveal_strlit("landscape_right");
    reveal_strlit("landscape_left");
    reveal_strlit("1");
    reveal_strlit("2");
    reveal_strlit("3");
    let s = o.name();
    assert("portrait"@.len() == 8);
    assert("portrait_upside_down"@.len() == 20);
    assert("landscape_right"@.len() == 15);
    assert("landscape_left"@.len() == 14);
    assert("1"@.len() == 1 && "2"@.len() == 1 && "3"@.len() == 1);
    assert forall|i: int| 0 <= i < s.len() implies (#[trigger] s[i] as u32) < 0x80 && ascii_lower(
        s[i],
    ) == s[i] && s[i] != '-' by {}
    assert(with_low_lines(lowered(s)) =~= s);
}

/// A command without arguments.
pub open spec fn command(name: Seq<char>) -> Seq<(Seq<char>, Tree)> {
    no_entries().with("command"@, Tree::String(name))
}

/// Asks for the application in front.
pub fn foreground_request() -> (p: Plist)
    ensures
        p@ == Tree::Dictionary(command("getFrontMostDisplayIdentifier"@)),
{
    let mut d: Dict = Dict::new();
    d.put_str("command", "getFrontMostDisplayIdentifier");
    Plist::dict(d)
}

/// The application in front, as a reply names it.
pub fn foreground_app(resp: &Plist) -> (id: Result<String, Error>)
    ensures
        match resp@.text_at("displayIdentifier"@) {
            Some(s) => id matches Ok(v) && v@ == s,
            None => id matches Err(Error::Lockdown(t)) && t@
                == "no displayIdentifier in response"@,
        },
{
    match resp.text_at("displayIdentifier") {
        Some(s) => Ok(own(s)),
        None => Err(Error::Lockdown(own("no displayIdentifier in response"))),
    }
}

/// Asks to turn the screen.
pub fn set_orientation_request(o: Orientation) -> (p: Plist)
    ensures
        p@ == Tree::Dictionary(
            command("setInterfaceOrientation"@).with("value"@, Tree::Integer(o.code())),
        ),
{
    let mut d: Dict = Dict::new();
    d.put_str("command", "setInterfaceOrientation");
    d.put("value", Plist::number(o.number()));
    Plist::dict(d)
}

/// Asks how the screen is held.
pub fn get_orientation_request() -> (p: Plist)
    ensures
        p@ == Tree::Dictionary(command("getInterfaceOrientation"@)),
{
    let mut d: Dict = Dict::new();
    d.put_str("command", "getInterfaceOrientation");
    Plist::dict(d)
}

/// How the screen is held, as a reply says.
pub fn orientation(resp: &Plist) -> (o: Result<Orientation, Error>)
    ensures
        match resp@.at("interfaceOrientation"@) {
            Some(v) => match v.signed() {
                Some(n) => match Orientation::numbered(n as int) {
                    Some(due) => o matches Ok(got) && got == due,
                    None => o matches Err(Error::Lockdown(t)) && t@
                        == "unknown orientation value: "@ + signed_decimal(n as int),
                },
                None => o matches Err(Error::Lockdown(t)) && t@
                    == "no interfaceOrientation in response"@,
            },
            None => o matches Err(Error::Lockdown(t)) && t@
                == "no interfaceOrientation in response"@,
        },
{
    let n: Option<i64> = match resp.at("interfaceOrientation") {
        Some(v) => v.as_signed_integer(),
        None => None,
    };
    match n {
        None => Err(Error::Lockdown(own("no interfaceOrientation in response"))),
        Some(n) => {
            if n == 1 {
                Ok(Orientation::Portrait)
            } else if n == 2 {
                Ok(Orientation::PortraitUpsideDown)
            } else if n == 3 {
                Ok(Orientation::LandscapeRight)
            } else if n == 4 {
                Ok(Orientation::LandscapeLeft)
            } else {
                Err(
                    Error::Lockdown(
                        join2("unknown orientation value: ", signed_text(n).as_str()),
                    ),
                )
            }
        },
    }
}

/// The numbers and names of the orientations.
pub proof fn lemma_orientations(o: Orientation, n: int)
    ensures
        o is Portrait <==> o.code() == 1,
        o is PortraitUpsideDown <==> o.code() == 2,
        o is LandscapeRight <==> o.code() == 3,
        o is LandscapeLeft <==> o.code() == 4,
        Orientation::numbered(n) matches Some(p) ==> p.code() == n,
        Orientation::numbered(n) is Some <==> 1 <= n <= 4,
        Orientation::called(crate::text::decimal(o.code() as nat)) == Some(o),
        o is Portrait ==> o.name() == "portrait"@,
        o is PortraitUpsideDown ==> o.name() == "portrait_upside_down"@,
        o is LandscapeRight ==> o.name() == "landscape_right"@,
        o is LandscapeLeft ==> o.name() == "landscape_left"@,
{
    reveal_strlit("portrait");
    reveal_strlit("portrait_upside_down");
    reveal_strlit("landscape_right");
    reveal_strlit("landscape_left");
    reveal_strlit("1");
    reveal_strlit("2");
    reveal_strlit("3");
    reveal_strlit("4");
    assert("portrait"@.len() == 8);
    assert("portrait_upside_down"@.len() == 20);
    assert("landscape_right"@.len() == 15);
    assert("landscape_left"@.len() == 14);
    assert("1"@.len() == 1);
    assert("2"@.len() == 1);
    assert("3"@.len() == 1);
    assert("4"@.len() == 1);
    assert("1"@[0] == '1');
    assert("2"@[0] == '2');
    assert("3"@[0] == '3');
    assert("4"@[0] == '4');
    assert(crate::text::decimal(1) =~= "1"@);
    assert(crate::text::decimal(2) =~= "2"@);
    assert(crate::text::decimal(3) =~= "3"@);
    assert(crate::text::decimal(4) =~= "4"@);
}

/// Nothing but the names and the numbers is read as an orientation.
pub proof fn lemma_called_by_name(s: Seq<char>)
    ensures
        Orientation::called(s) matches Some(o) ==> s == o.name() || s == crate::text::decimal(
            o.code() as nat,
        ),
{
    reveal_strlit("1");
    reveal_strlit("2");
    reveal_strlit("3");
    reveal_strlit("4");
    assert("1"@.len() == 1);
    assert("2"@.len() == 1);
    assert("3"@.len() == 1);
    assert("4"@.len() == 1);
    assert("1"@[0] == '1');
    assert("2"@[0] == '2');
    assert("3"@[0] == '3');
    assert("4"@[0] == '4');
    assert(crate::text::decimal(1) =~= "1"@);
    assert(crate::text::decimal(2) =~= "2"@);
    assert(crate::text::decimal(3) =~= "3"@);
    assert(crate::text::decimal(4) =~= "4"@);
}

/// Hyphens become low lines, and every other character stays.
pub proof fn lemma_low_lines(s: Seq<char>, i: int)
    requires
        0 <= i < s.len(),
    ensures
        with_low_lines(s).len() == s.len(),
        s[i] == '-' ==> with_low_lines(s)[i] == '_',
        s[i] != '-' ==> with_low_lines(s)[i] == s[i],
        ascii(s) ==> lowered(s).len() == s.len() && (if 'A' <= s[i] && s[i] <= 'Z' {
            lowered(s)[i] as int == s[i] as int + 32
        } else {
            lowered(s)[i] == s[i]
        }),
{
}

/// A command is told by its name, and nothing else.
pub proof fn lemma_command_tells(name: Seq<char>)
    ensures
        command(name).len() == 1,
        command(name).lookup("command"@) == Some(Tree::String(name)),
{
    broadcast use crate::entries::lemma_lookup_with;

}

} // verus!
