//! Configuration values that the library itself reads and checks: shortcuts, anchors, and
//! colours written in hexadecimal.
use vstd::prelude::*;
use crate::chars::{chars_of, parse_unsigned, starts_with, unsigned_numeral};

verus! {

/// A configuration problem that the library detects.
#[derive(Debug, Clone, Copy, PartialEq, Eq)]
pub enum Error {
    /// No configuration file was found.
    NotFound,
    /// The configuration is not usable, for the reason given.
    Validate(&'static str),
    /// A colour is not a valid hexadecimal string, for the reason given.
    Hexidecimal(&'static str),
}

/// Which mouse button (1 left, 2 right, 3 middle, others by number) does what to a
/// notification; `None` for no button.
#[derive(Debug, Clone, Copy, PartialEq, Eq, Structural)]
pub struct ShortcutsConfig {
    pub notification_interact: Option<u8>,
    pub notification_close: Option<u8>,
    pub notification_closeall: Option<u8>,
    pub notification_pause: Option<u8>,
    pub notification_action1: Option<u8>,
    pub notification_action2: Option<u8>,
    pub notification_action3: Option<u8>,
    pub notification_action4: Option<u8>,
    pub notification_action1_and_close: Option<u8>,
    pub notification_action2_and_close: Option<u8>,
    pub notification_action3_and_close: Option<u8>,
    pub notification_action4_and_close: Option<u8>,
    pub notification_interact_and_close: Option<u8>,
}

impl Default for ShortcutsConfig {
    /// Left button interacts, right closes, middle invokes the default action, button 7
    /// closes everything; nothing else is bound.
    fn default() -> (s: Self)
        ensures
            s.notification_interact == Some(1u8),
            s.notification_close == Some(2u8),
            s.notification_closeall == Some(7u8),
            s.notification_pause is None,
            s.notification_action1 == Some(3u8),
            s.notification_action2 is None,
            s.notification_action3 is None,
            s.notification_action4 is None,
            s.notification_action1_and_close is None,
            s.notification_action2_and_close is None,
            s.notification_action3_and_close is None,
            s.notification_action4_and_close is None,
            s.notification_interact_and_close is None,
    {
        Self {
            notification_interact: Some(1),
            notification_close: Some(2),
            notification_closeall: Some(7),
            notification_pause: None,
            notification_action1: Some(3),
            notification_action2: None,
            notification_action3: None,
            notification_action4: None,
            notification_action1_and_close: None,
            notification_action2_and_close: None,
            notification_action3_and_close: None,
            notification_action4_and_close: None,
            notification_interact_and_close: None,
        }
    }
}

/// A point of a rectangle: the corners, and the middles of the edges (`M` then the edge:
/// left, top, right, bottom).
#[derive(Debug, Clone, Copy, PartialEq, Eq, Structural)]
pub enum AnchorPosition {
    ML,
    TL,
    MT,
    TR,
    MR,
    BR,
    MB,
    BL,
}

/// A colour as four 8-bit channels.
#[derive(Debug, Clone, Copy, PartialEq, Eq, Structural)]
pub struct HexColor {
    pub r: u8,
    pub g: u8,
    pub b: u8,
    pub a: u8,
}

/// `s` without its leading `#` characters.
pub open spec fn trim_hashes(s: Seq<char>) -> Seq<char>
    decreases s.len(),
{
    if s.len() > 0 && s[0] == '#' {
        trim_hashes(s.drop_first())
    } else {
        s
    }
}

/// `s` without its leading `0x` pairs.
pub open spec fn trim_0x(s: Seq<char>) -> Seq<char>
    decreases s.len(),
{
    if starts_with(s, seq!['0', 'x']) {
        trim_0x(s.skip(2))
    } else {
        s
    }
}

/// The hexadecimal digits of a colour string: leading `#`s removed, then leading `0x`s.
pub open spec fn hex_digits_of(hex: Seq<char>) -> Seq<char> {
    trim_0x(trim_hashes(hex))
}

pub open spec fn invalid_hex_message() -> &'static str {
    "Invalid hexidecimal string."
}

pub open spec fn hex_length_message() -> &'static str {
    "Incorrect hexidecimal string length."
}

/// The colour that a hexadecimal string writes: its digits (see [`hex_digits_of`]) must be a
/// `u32` in base 16; eight characters are alpha, red, green, blue; six are red, green, blue
/// with full alpha; any other length is refused.
pub open spec fn hex_color_of(hex: Seq<char>) -> Result<HexColor, Error> {
    let s = hex_digits_of(hex);
    match unsigned_numeral(s, 16, u32::MAX as nat) {
        None => Err(Error::Hexidecimal(invalid_hex_message())),
        Some(d) => if s.len() == 8 {
            Ok(
                HexColor {
                    a: ((d / 0x1000000) % 256) as u8,
                    r: ((d / 0x10000) % 256) as u8,
                    g: ((d / 0x100) % 256) as u8,
                    b: (d % 256) as u8,
                },
            )
        } else if s.len() == 6 {
            Ok(
                HexColor {
                    a: 255u8,
                    r: ((d / 0x10000) % 256) as u8,
                    g: ((d / 0x100) % 256) as u8,
                    b: (d % 256) as u8,
                },
            )
        } else {
            Err(Error::Hexidecimal(hex_length_message()))
        },
    }
}

impl HexColor {
    /// Reads a colour written in hexadecimal, such as `#ff000000`, `#0xff000000`,
    /// `0xff000000` or, without alpha, `#000000`; see [`hex_color_of`].
    pub fn from_hex(hex: &str) -> (r: Result<HexColor, Error>)
        ensures
            r == hex_color_of(hex@),
    {
        let v = chars_of(hex);
        let mut start: usize = 0;
        proof {
            assert(v@.skip(0) =~= v@);
        }
        while start < v.len() && v[start] == '#'
            invariant
                0 <= start <= v@.len(),
                trim_hashes(v@) == trim_hashes(v@.skip(start as int)),
            decreases v@.len() - start,
        {
            assert(v@.skip(start as int).drop_first() =~= v@.skip(start + 1));
            start += 1;
        }
        assert(trim_hashes(v@) == v@.skip(start as int));
        let ghost t = v@.skip(start as int);
        assert(t.skip(0) =~= t);
        while start < v.len() && start + 1 < v.len() && v[start] == '0' && v[start + 1] == 'x'
            invariant
                0 <= start <= v@.len(),
                t.len() <= v@.len(),
                trim_0x(trim_hashes(v@)) == trim_0x(v@.skip(start as int)),
            decreases v@.len() - start,
        {
            let ghost u = v@.skip(start as int);
            assert(u.take(2) =~= seq!['0', 'x']);
            assert(u.skip(2) =~= v@.skip(start + 2));
            start += 2;
        }
        let ghost u = v@.skip(start as int);
        assert(!starts_with(u, seq!['0', 'x'])) by {
            if starts_with(u, seq!['0', 'x']) {
                assert(u.take(2)[0] == '0' && u.take(2)[1] == 'x');
                assert(v@[start as int] == '0' && v@[start + 1] == 'x');
            }
        }
        let mut digits: Vec<char> = Vec::new();
        let mut i: usize = start;
        while i < v.len()
            invariant
                start <= i <= v@.len(),
                digits@ == v@.subrange(start as int, i as int),
            decreases v@.len() - i,
        {
            digits.push(v[i]);
            assert(v@.subrange(start as int, i + 1) =~= v@.subrange(start as int, i as int).push(
                v@[i as int],
            ));
            i += 1;
        }
        assert(digits@ =~= hex_digits_of(hex@));
        let dec = match parse_unsigned(&digits, 16, u32::MAX as u64) {
            Some(d) => d,
            None => {
                return Err(Error::Hexidecimal("Invalid hexidecimal string."));
            },
        };
        let len = digits.len();
        if len == 8 {
            Ok(
                HexColor {
                    a: ((dec / 0x1000000) % 256) as u8,
                    r: ((dec / 0x10000) % 256) as u8,
                    g: ((dec / 0x100) % 256) as u8,
                    b: (dec % 256) as u8,
                },
            )
        } else if len == 6 {
            Ok(
                HexColor {
                    a: 255,
                    r: ((dec / 0x10000) % 256) as u8,
                    g: ((dec / 0x100) % 256) as u8,
                    b: (dec % 256) as u8,
                },
            )
        } else {
            Err(Error::Hexidecimal("Incorrect hexidecimal string length."))
        }
    }
}

/// A colour may be written with a leading `#`, `0x` or `#0x`, or without: all four read
/// the same (for digits that do not themselves start with `#`).
pub proof fn hex_prefixes_read_alike(s: Seq<char>)
    requires
        !(s.len() > 0 && s[0] == '#'),
    ensures
        hex_color_of(seq!['#'] + s) == hex_color_of(s),
        hex_color_of(seq!['0', 'x'] + s) == hex_color_of(s),
        hex_color_of(seq!['#', '0', 'x'] + s) == hex_color_of(s),
{
    let h = seq!['#'] + s;
    assert(h.drop_first() =~= s);
    assert(trim_hashes(s) == s);
    let z = seq!['0', 'x'] + s;
    assert(z.take(2) =~= seq!['0', 'x']);
    assert(z.skip(2) =~= s);
    assert(trim_hashes(z) == z);
    let hz = seq!['#', '0', 'x'] + s;
    assert(hz.drop_first() =~= z);
}

} // verus!
