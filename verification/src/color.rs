//! Watermark colours and their hexadecimal notation.
use vstd::prelude::*;
use vstd::string::*;
use crate::errors::ParseColorError;

verus! {

/// The opacity a colour gets when its text gives none.
pub const DEFAULT_ALPHA: u8 = 128;

/// A colour of four 8-bit channels in the order red, green, blue, alpha.
/// The alpha channel is the watermark's opacity before the coverage of each
/// pixel is weighed in.
#[derive(Debug, Clone, Copy)]
pub struct HexColor(pub [u8; 4]);

/// The value of a hexadecimal digit of either case.
pub open spec fn digit_value(c: char) -> Option<int> {
    if '0' <= c && c <= '9' {
        Some(c as int - '0' as int)
    } else if 'a' <= c && c <= 'f' {
        Some(c as int - 'a' as int + 10)
    } else if 'A' <= c && c <= 'F' {
        Some(c as int - 'A' as int + 10)
    } else {
        None
    }
}

/// The channel that two characters denote: two hexadecimal digits, or a
/// plus sign before a single digit.
pub open spec fn channel_value(hi: char, lo: char) -> Option<int> {
    match (digit_value(hi), digit_value(lo)) {
        (Some(h), Some(l)) => Some(16 * h + l),
        (None, Some(l)) => if hi == '+' {
            Some(l)
        } else {
            None
        },
        _ => None,
    }
}

/// The text without one leading `#`, if it has one.
pub open spec fn without_hash(s: Seq<char>) -> Seq<char> {
    if s.len() > 0 && s[0] == '#' {
        s.subrange(1, s.len() as int)
    } else {
        s
    }
}

/// The lower-case hexadecimal digit for a value below 16.
pub open spec fn digit_char(v: int) -> char
    recommends
        0 <= v < 16,
{
    if v < 10 {
        (('0' as int + v) as u8) as char
    } else {
        (('a' as int + v - 10) as u8) as char
    }
}

impl HexColor {
    /// The four channels in the order red, green, blue, alpha.
    pub open spec fn channels(self) -> (int, int, int, int) {
        (self.0[0] as int, self.0[1] as int, self.0[2] as int, self.0[3] as int)
    }

    /// The channels that a text of six or eight characters denotes, a `#`
    /// in front not counted: red, green and blue from the first three
    /// pairs, alpha from the fourth, or 128 where there is none.
    pub open spec fn denoted_by(s: Seq<char>) -> Option<(int, int, int, int)> {
        let t = without_hash(s);
        if t.len() != 6 && t.len() != 8 {
            None
        } else {
            match (channel_value(t[0], t[1]), channel_value(t[2], t[3]), channel_value(t[4], t[5])) {
                (Some(r), Some(g), Some(b)) => if t.len() == 8 {
                    match channel_value(t[6], t[7]) {
                        Some(a) => Some((r, g, b, a)),
                        None => None,
                    }
                } else {
                    Some((r, g, b, 128))
                },
                _ => None,
            }
        }
    }

    /// The eight lower-case hexadecimal digits of the four channels.
    pub open spec fn digits(self) -> Seq<char> {
        seq![
            digit_char(self.0[0] as int / 16),
            digit_char(self.0[0] as int % 16),
            digit_char(self.0[1] as int / 16),
            digit_char(self.0[1] as int % 16),
            digit_char(self.0[2] as int / 16),
            digit_char(self.0[2] as int % 16),
            digit_char(self.0[3] as int / 16),
            digit_char(self.0[3] as int % 16),
        ]
    }

    /// Reads a colour written as `RRGGBB` or `RRGGBBAA`, with or without a
    /// `#` in front. Without the last pair the alpha channel is 128. Any
    /// other text is handed back in the error, without its `#`.
    pub fn from_str(s: &str) -> (r: Result<HexColor, ParseColorError>)
        ensures
            match r {
                Ok(c) => Self::denoted_by(s@) == Some(c.channels()),
                Err(e) => Self::denoted_by(s@) is None && e.0@ == without_hash(s@),
            },
    {
        let total: usize = s.unicode_len();
        let body: &str = if total > 0 && s.get_char(0) == '#' {
            s.substring_char(1, total)
        } else {
            s
        };
        assert(body@ == without_hash(s@));
        let n: usize = body.unicode_len();
        if n != 6 && n != 8 {
            return Err(ParseColorError(body.to_owned()));
        }
        let r: u8 = match parse_channel(body.get_char(0), body.get_char(1)) {
            Some(v) => v,
            None => { return Err(ParseColorError(body.to_owned())); },
        };
        let g: u8 = match parse_channel(body.get_char(2), body.get_char(3)) {
            Some(v) => v,
            None => { return Err(ParseColorError(body.to_owned())); },
        };
        let b: u8 = match parse_channel(body.get_char(4), body.get_char(5)) {
            Some(v) => v,
            None => { return Err(ParseColorError(body.to_owned())); },
        };
        let a: u8 = if n == 8 {
            match parse_channel(body.get_char(6), body.get_char(7)) {
                Some(v) => v,
                None => { return Err(ParseColorError(body.to_owned())); },
            }
        } else {
            DEFAULT_ALPHA
        };
        Ok(HexColor([r, g, b, a]))
    }

    /// The colour as eight lower-case hexadecimal digits, two per channel.
    pub fn to_string(&self) -> (s: String)
        ensures
            s@ == self.digits(),
    {
        let mut s = String::new();
        let mut i: usize = 0;
        while i < 4
            invariant
                i <= 4,
                s@.len() == 2 * i,
                forall|k: int| 0 <= k < i ==> s@[2 * k] == digit_char(self.0[k] as int / 16),
                forall|k: int| 0 <= k < i ==> s@[2 * k + 1] == digit_char(self.0[k] as int % 16),
            decreases 4 - i,
        {
            let v: u8 = self.0[i];
            let ghost before = s@;
            s.append(digit_text(v / 16));
            s.append(digit_text(v % 16));
            assert(s@.len() == 2 * i + 2);
            assert(forall|k: int| 0 <= k < 2 * i ==> s@[k] == before[k]);
            assert forall|k: int| 0 <= k < i + 1 implies s@[2 * k] == digit_char(self.0[k] as int / 16) by {
                if k < i {
                    assert(s@[2 * k] == before[2 * k]);
                }
            }
            assert forall|k: int| 0 <= k < i + 1 implies s@[2 * k + 1] == digit_char(
                self.0[k] as int % 16,
            ) by {
                if k < i {
                    assert(s@[2 * k + 1] == before[2 * k + 1]);
                }
            }
            i += 1;
        }
        assert(s@ =~= self.digits());
        s
    }
}

/// The value of a hexadecimal digit of either case, if `c` is one.
pub fn parse_digit(c: char) -> (v: Option<u8>)
    ensures
        match v {
            Some(d) => digit_value(c) == Some(d as int) && d < 16,
            None => digit_value(c) is None,
        },
{
    if '0' <= c && c <= '9' {
        Some((c as u8) - 48)
    } else if 'a' <= c && c <= 'f' {
        Some((c as u8) - 97 + 10)
    } else if 'A' <= c && c <= 'F' {
        Some((c as u8) - 65 + 10)
    } else {
        None
    }
}

/// The channel that two characters denote, if they denote one.
pub fn parse_channel(hi: char, lo: char) -> (v: Option<u8>)
    ensures
        match v {
            Some(d) => channel_value(hi, lo) == Some(d as int),
            None => channel_value(hi, lo) is None,
        },
{
    match parse_digit(lo) {
        None => None,
        Some(l) => match parse_digit(hi) {
            Some(h) => Some(16 * h + l),
            None => if hi == '+' {
                Some(l)
            } else {
                None
            },
        },
    }
}

/// The one-character text of the lower-case hexadecimal digit for `v`.
fn digit_text(v: u8) -> (t: &'static str)
    requires
        v < 16,
    ensures
        t@ == seq![digit_char(v as int)],
{
    proof {
        reveal_strlit("0");
        reveal_strlit("1");
        reveal_strlit("2");
        reveal_strlit("3");
        reveal_strlit("4");
        reveal_strlit("5");
        reveal_strlit("6");
        reveal_strlit("7");
        reveal_strlit("8");
        reveal_strlit("9");
        reveal_strlit("a");
        reveal_strlit("b");
        reveal_strlit("c");
        reveal_strlit("d");
        reveal_strlit("e");
        reveal_strlit("f");
    }
    let t: &'static str = match v {
        0 => "0",
        1 => "1",
        2 => "2",
        3 => "3",
        4 => "4",
        5 => "5",
        6 => "6",
        7 => "7",
        8 => "8",
        9 => "9",
        10 => "a",
        11 => "b",
        12 => "c",
        13 => "d",
        14 => "e",
        _ => "f",
    };
    assert(t@ =~= seq![digit_char(v as int)]);
    t
}

/// Reading the eight digits that a colour is written as gives the same
/// four channels back.
pub proof fn lemma_digits_round_trip(c: HexColor)
    ensures
        HexColor::denoted_by(c.digits()) == Some(c.channels()),
{
    let t = c.digits();
    assert(without_hash(t) == t);
    assert forall|v: int| 0 <= v < 16 implies #[trigger] digit_value(digit_char(v)) == Some(v) by {}
    assert forall|k: int| 0 <= k < 4 implies channel_value(
        digit_char(#[trigger] c.0[k] as int / 16),
        digit_char(c.0[k] as int % 16),
    ) == Some(c.0[k] as int) by {
        let v = c.0[k] as int;
        assert(digit_value(digit_char(v / 16)) == Some(v / 16));
        assert(digit_value(digit_char(v % 16)) == Some(v % 16));
    }
    assert(c.0[0] == c.0[0] && c.0[1] == c.0[1] && c.0[2] == c.0[2] && c.0[3] == c.0[3]);
}

} // verus!
