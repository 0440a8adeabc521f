//! Versions of the system, and which paths they offer.

use vstd::prelude::*;
use crate::text::{
    cut, dec_u64, decimal, join2, join3, own, parse_decimal, parse_unsigned, split_once, texts,
};

verus! {

/// A version of the system.
#[derive(Clone, Copy, Debug, PartialEq, Eq, Structural)]
pub struct IosVersion {
    pub major: u32,
    pub minor: u32,
    pub patch: u32,
}

impl IosVersion {
    /// Before version 17 there is the old path only.
    pub fn is_legacy(self) -> (yes: bool)
        ensures
            yes == (self.major < 17),
    {
        self.major < 17
    }

    /// From version 17 on there is a service catalogue.
    pub fn supports_rsd(self) -> (yes: bool)
        ensures
            yes == (self.major >= 17),
    {
        self.major >= 17
    }

    /// From version 17.4 on there is a tunnel over USB.
    pub open spec fn has_proxy(self) -> bool {
        self.major > 17 || (self.major == 17 && self.minor >= 4)
    }

    /// From version 17.4 on there is a tunnel over USB.
    pub fn supports_core_device_proxy(self) -> (yes: bool)
        ensures
            yes == self.has_proxy(),
    {
        self.major > 17 || (self.major == 17 && self.minor >= 4)
    }

    /// The version as text.
    pub open spec fn shown(self) -> Seq<char> {
        decimal(self.major as nat) + "."@ + decimal(self.minor as nat) + if self.patch > 0 {
            "."@ + decimal(self.patch as nat)
        } else {
            Seq::empty()
        }
    }

    /// Writes the version.
    pub fn text(self) -> (s: String)
        ensures
            s@ == self.shown(),
    {
        let front: String = join3(
            dec_u64(self.major as u64).as_str(),
            ".",
            dec_u64(self.minor as u64).as_str(),
        );
        if self.patch > 0 {
            let tail: String = join2(".", dec_u64(self.patch as u64).as_str());
            join2(front.as_str(), tail.as_str())
        } else {
            assert(front@ + Seq::<char>::empty() =~= front@);
            front
        }
    }
}

/// The number that a part of a version states: zero where it states none.
pub open spec fn part_number(s: Seq<char>) -> u32 {
    match parse_unsigned(s, u32::MAX as nat) {
        Some(n) => n as u32,
        None => 0,
    }
}

/// The version that a text states; parts that are missing are zero.
pub open spec fn version_of(s: Seq<char>) -> IosVersion {
    match cut(s, '.') {
        None => IosVersion { major: part_number(s), minor: 0, patch: 0 },
        Some((major, rest)) => match cut(rest, '.') {
            None => IosVersion { major: part_number(major), minor: part_number(rest), patch: 0 },
            Some((minor, patch)) => IosVersion {
                major: part_number(major),
                minor: part_number(minor),
                patch: part_number(patch),
            },
        },
    }
}

fn read_part(s: &str) -> (n: u32)
    ensures
        n == part_number(s@),
{
    match parse_decimal(s, 0xffff_ffff) {
        Some(n) => n as u32,
        None => 0,
    }
}

/// Reads a version such as `17.4.1`.
pub fn parse_version(s: &str) -> (v: IosVersion)
    ensures
        v == version_of(s@),
{
    match split_once(s, '.') {
        None => IosVersion { major: read_part(s), minor: 0, patch: 0 },
        Some((major, rest)) => match split_once(rest.as_str(), '.') {
            None => IosVersion {
                major: read_part(major.as_str()),
                minor: read_part(rest.as_str()),
                patch: 0,
            },
            Some((minor, patch)) => IosVersion {
                major: read_part(major.as_str()),
                minor: read_part(minor.as_str()),
                patch: read_part(patch.as_str()),
            },
        },
    }
}

/// What a path is called in short.
pub open spec fn path_name(v: IosVersion) -> Seq<char> {
    if v.major < 17 {
        "usbmux → lockdownd"@
    } else if v.has_proxy() {
        "usbmux → lockdownd → CoreDeviceProxy → CDTunnel → RSD"@
    } else {
        "USB-Ethernet (CDC-NCM) → RSD → QUIC tunnel"@
    }
}

/// Whether a version has a service catalogue, and the path to it.
pub fn available_path(v: IosVersion) -> (got: (bool, &'static str))
    ensures
        got.0 == (v.major >= 17),
        got.1@ == path_name(v),
{
    if v.is_legacy() {
        (false, "usbmux → lockdownd")
    } else if v.supports_core_device_proxy() {
        (true, "usbmux → lockdownd → CoreDeviceProxy → CDTunnel → RSD")
    } else {
        (true, "USB-Ethernet (CDC-NCM) → RSD → QUIC tunnel")
    }
}

/// What there is to say of the path to a version.
pub open spec fn explanation(v: IosVersion) -> Seq<Seq<char>> {
    if v.major < 17 {
        seq![
            "Path: usbmux → lockdownd (iOS < 17)"@,
            "  All services reachable directly via lockdownd StartService."@,
        ]
    } else if v.has_proxy() {
        seq![
            "Path: usbmux → lockdownd → CoreDeviceProxy → CDTunnel → RSD (iOS 17.4+)"@,
            "  Tunnel available without USB-Ethernet driver."@,
            "  Developer services require the RSD service catalogue."@,
        ]
    } else {
        seq![
            "Path: USB-Ethernet (CDC-NCM) → RSD → QUIC tunnel (iOS 17.0–17.3)"@,
            "  Requires USB-Ethernet driver and RemotePairing handshake."@,
            "  CoreDeviceProxy shortcut not available on this iOS version."@,
        ]
    }
}

/// Explains the path to a version, line by line.
pub fn explain_path(v: IosVersion) -> (lines: Vec<String>)
    ensures
        texts(lines@) == explanation(v),
{
    let mut lines: Vec<String> = Vec::new();
    if v.is_legacy() {
        lines.push(own("Path: usbmux → lockdownd (iOS < 17)"));
        lines.push(own("  All services reachable directly via lockdownd StartService."));
    } else if v.supports_core_device_proxy() {
        lines.push(
            own("Path: usbmux → lockdownd → CoreDeviceProxy → CDTunnel → RSD (iOS 17.4+)"),
        );
        lines.push(own("  Tunnel available without USB-Ethernet driver."));
        lines.push(own("  Developer services require the RSD service catalogue."));
    } else {
        lines.push(own("Path: USB-Ethernet (CDC-NCM) → RSD → QUIC tunnel (iOS 17.0–17.3)"));
        lines.push(own("  Requires USB-Ethernet driver and RemotePairing handshake."));
        lines.push(own("  CoreDeviceProxy shortcut not available on this iOS version."));
    }
    assert(texts(lines@) =~= explanation(v));
    lines
}

/// A tunnel over USB exists exactly from version 17.4 on, and once there is one, there is
/// one in every later version.
pub proof fn lemma_proxy_versions(v: IosVersion, w: IosVersion)
    ensures
        v.major < 17 ==> !v.has_proxy(),
        v.major == 17 ==> (v.has_proxy() <==> v.minor >= 4),
        v.major >= 18 ==> v.has_proxy(),
        v.has_proxy() && (w.major > v.major || (w.major == v.major && w.minor >= v.minor))
            ==> w.has_proxy(),
{
}

/// The texts that name the numbers of a version, with dots between them, are read as that
/// version; what is no number counts as zero, and so does what is missing.
pub proof fn lemma_version_parts(major: Seq<char>, minor: Seq<char>, patch: Seq<char>)
    requires
        forall|i: int| 0 <= i < major.len() ==> #[trigger] major[i] != '.',
        forall|i: int| 0 <= i < minor.len() ==> #[trigger] minor[i] != '.',
    ensures
        version_of(major) == (IosVersion { major: part_number(major), minor: 0, patch: 0 }),
        version_of(major + "."@ + minor) == (IosVersion {
            major: part_number(major),
            minor: part_number(minor),
            patch: 0,
        }),
        version_of(major + "."@ + minor + "."@ + patch) == (IosVersion {
            major: part_number(major),
            minor: part_number(minor),
            patch: part_number(patch),
        }),
{
    reveal_strlit(".");
    lemma_cut_at(major, minor);
    lemma_cut_at(major, minor + "."@ + patch);
    lemma_cut_at(minor, patch);
    assert(major + "."@ + (minor + "."@ + patch) =~= major + "."@ + minor + "."@ + patch);
    lemma_uncut(major);
    lemma_uncut(minor);
}

proof fn lemma_uncut(a: Seq<char>)
    requires
        forall|i: int| 0 <= i < a.len() ==> #[trigger] a[i] != '.',
    ensures
        cut(a, '.') is None,
{
    crate::text::lemma_cut(a, '.');
    if let Some((x, y)) = cut(a, '.') {
        assert((x + seq!['.'] + y)[x.len() as int] == '.');
    }
}

proof fn lemma_cut_at(a: Seq<char>, b: Seq<char>)
    requires
        forall|i: int| 0 <= i < a.len() ==> #[trigger] a[i] != '.',
    ensures
        cut(a + "."@ + b, '.') == Some((a, b)),
{
    reveal_strlit(".");
    let s = a + "."@ + b;
    crate::text::lemma_cut(s, '.');
    assert(s[a.len() as int] == '.');
    match cut(s, '.') {
        Some((x, y)) => {
            if x.len() < a.len() {
                assert(s[x.len() as int] == '.');
                assert(a[x.len() as int] == '.');
            } else if x.len() > a.len() {
                assert(x[a.len() as int] == s[a.len() as int]);
            }
            assert(x =~= a);
            assert(y =~= b) by {
                assert forall|i: int| 0 <= i < y.len() implies y[i] == b[i] by {
                    assert(y[i] == s[x.len() + 1 + i]);
                }
            }
        },
        None => {
            assert(s[a.len() as int] != '.');
        },
    }
}

/// A part of a version states the number that its digits count, if it fits.
pub proof fn lemma_part_number(s: Seq<char>)
    ensures
        s.len() > 0 && crate::text::all_digits(s) && crate::text::digits_value(s) <= u32::MAX
            ==> part_number(s) == crate::text::digits_value(s),
        parse_unsigned(s, u32::MAX as nat) is None ==> part_number(s) == 0,
{
    crate::text::lemma_parse_unsigned(s, u32::MAX as nat);
}

proof fn lemma_digits_without_dots(s: Seq<char>)
    requires
        crate::text::all_digits(s),
    ensures
        forall|i: int| 0 <= i < s.len() ==> #[trigger] s[i] != '.',
{
    assert forall|i: int| 0 <= i < s.len() implies #[trigger] s[i] != '.' by {
        assert(crate::text::is_digit(s[i]));
    }
}

/// A version that is shown is read as that version.
pub proof fn lemma_shown_reads_back(v: IosVersion)
    ensures
        version_of(v.shown()) == v,
{
    let a = decimal(v.major as nat);
    let b = decimal(v.minor as nat);
    let c = decimal(v.patch as nat);
    crate::text::lemma_decimal_value(v.major as nat);
    crate::text::lemma_decimal_value(v.minor as nat);
    crate::text::lemma_decimal_value(v.patch as nat);
    lemma_digits_without_dots(a);
    lemma_digits_without_dots(b);
    lemma_version_parts(a, b, c);
    lemma_part_number(a);
    lemma_part_number(b);
    lemma_part_number(c);
    if v.patch > 0 {
        assert(v.shown() =~= a + "."@ + b + "."@ + c);
    } else {
        assert(v.shown() =~= a + "."@ + b);
    }
}

/// The path to a version: before 17 by lockdown alone, from 17.4 on by the tunnel over USB,
/// and between them over USB Ethernet; the explanation is that of the same path.
pub proof fn lemma_paths(v: IosVersion)
    ensures
        v.major < 17 ==> path_name(v) == "usbmux → lockdownd"@ && explanation(v).len() == 2
            && explanation(v)[0] == "Path: usbmux → lockdownd (iOS < 17)"@ && explanation(v)[1]
            == "  All services reachable directly via lockdownd StartService."@,
        v.major > 17 || (v.major == 17 && v.minor >= 4) ==> path_name(v)
            == "usbmux → lockdownd → CoreDeviceProxy → CDTunnel → RSD"@ && explanation(v).len()
            == 3 && explanation(v)[0]
            == "Path: usbmux → lockdownd → CoreDeviceProxy → CDTunnel → RSD (iOS 17.4+)"@
            && explanation(v)[1] == "  Tunnel available without USB-Ethernet driver."@
            && explanation(v)[2] == "  Developer services require the RSD service catalogue."@,
        v.major == 17 && v.minor < 4 ==> path_name(v)
            == "USB-Ethernet (CDC-NCM) → RSD → QUIC tunnel"@ && explanation(v).len() == 3
            && explanation(v)[0]
            == "Path: USB-Ethernet (CDC-NCM) → RSD → QUIC tunnel (iOS 17.0–17.3)"@
            && explanation(v)[1] == "  Requires USB-Ethernet driver and RemotePairing handshake."@
            && explanation(v)[2]
            == "  CoreDeviceProxy shortcut not available on this iOS version."@,
{
}

} // verus!
