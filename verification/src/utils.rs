//! Task-level error kinds and the legacy Minecraft color palette.

use crate::text::str_eq;
use vstd::prelude::*;
use vstd::string::*;

verus! {

/// Everything that can go wrong while pinging a server and storing the
/// result. Variants carry no payload; the surrounding application keeps the
/// underlying I/O or database error next to the code it logs.
#[derive(Debug, Clone, Copy, PartialEq, Eq, Structural)]
pub enum RunError {
    AddressParseError,
    IOError,
    MalformedResponse,
    ParseResponse,
    TimedOut,
    ServerOptOut,
    DatabaseError,
}

/// The numeric code of each error kind, in declaration order.
pub open spec fn spec_error_code(e: RunError) -> usize {
    match e {
        RunError::AddressParseError => 0,
        RunError::IOError => 1,
        RunError::MalformedResponse => 2,
        RunError::ParseResponse => 3,
        RunError::TimedOut => 4,
        RunError::ServerOptOut => 5,
        RunError::DatabaseError => 6,
    }
}

impl From<RunError> for usize {
    fn from(value: RunError) -> (r: usize)
        ensures
            r == spec_error_code(value),
    {
        match value {
            RunError::AddressParseError => 0,
            RunError::IOError => 1,
            RunError::MalformedResponse => 2,
            RunError::ParseResponse => 3,
            RunError::TimedOut => 4,
            RunError::ServerOptOut => 5,
            RunError::DatabaseError => 6,
        }
    }
}

impl vstd::std_specs::convert::FromSpecImpl<RunError> for usize {
    open spec fn obeys_from_spec() -> bool {
        true
    }

    open spec fn from_spec(e: RunError) -> usize {
        spec_error_code(e)
    }
}

/// The sixteen colors of the legacy Minecraft palette, plus `Reset` and a
/// catch-all for strings that name no known color.
#[derive(Debug, Clone, Copy, PartialEq, Eq, Structural)]
pub enum MinecraftColorCodes {
    Black,
    DarkBlue,
    DarkGreen,
    DarkAqua,
    DarkRed,
    DarkPurple,
    Gold,
    Gray,
    DarkGray,
    Blue,
    Green,
    Aqua,
    Red,
    LightPurple,
    Yellow,
    White,
    Reset,
    UnknownValue,
}

/// The one-character legacy format code of each color.
pub open spec fn spec_get_code(c: MinecraftColorCodes) -> char {
    match c {
        MinecraftColorCodes::Black => '0',
        MinecraftColorCodes::DarkBlue => '1',
        MinecraftColorCodes::DarkGreen => '2',
        MinecraftColorCodes::DarkAqua => '3',
        MinecraftColorCodes::DarkRed => '4',
        MinecraftColorCodes::DarkPurple => '5',
        MinecraftColorCodes::Gold => '6',
        MinecraftColorCodes::Gray => '7',
        MinecraftColorCodes::DarkGray => '8',
        MinecraftColorCodes::Blue => '9',
        MinecraftColorCodes::Green => 'a',
        MinecraftColorCodes::Aqua => 'b',
        MinecraftColorCodes::Red => 'c',
        MinecraftColorCodes::LightPurple => 'd',
        MinecraftColorCodes::Yellow => 'e',
        MinecraftColorCodes::White => 'f',
        MinecraftColorCodes::Reset => 'r',
        MinecraftColorCodes::UnknownValue => 'r',
    }
}

/// Two raised to the power `k`.
pub open spec fn pow2(k: nat) -> nat
    decreases k,
{
    if k == 0 {
        1
    } else {
        2 * pow2((k - 1) as nat)
    }
}

/// Powers of two never shrink as the exponent grows.
pub proof fn lemma_pow2_monotone(a: nat, b: nat)
    requires
        a <= b,
    ensures
        pow2(a) <= pow2(b),
    decreases b,
{
    if a < b {
        lemma_pow2_monotone(a, (b - 1) as nat);
        lemma_pow2_pos((b - 1) as nat);
    }
}

/// Powers of two are positive.
pub proof fn lemma_pow2_pos(k: nat)
    ensures
        pow2(k) >= 1,
    decreases k,
{
    if k > 0 {
        lemma_pow2_pos((k - 1) as nat);
    }
}

/// Powers of two multiply by adding exponents.
pub proof fn lemma_pow2_add(a: nat, b: nat)
    ensures
        pow2(a + b) == pow2(a) * pow2(b),
    decreases a,
{
    if a == 0 {
        assert(pow2(0 + b) == 1 * pow2(b));
    } else {
        lemma_pow2_add((a - 1) as nat, b);
        assert(pow2(a + b) == 2 * pow2((a + b - 1) as nat));
        assert(2 * (pow2((a - 1) as nat) * pow2(b)) == (2 * pow2((a - 1) as nat)) * pow2(b)) by {
            vstd::arithmetic::mul::lemma_mul_is_associative(
                2,
                pow2((a - 1) as nat) as int,
                pow2(b) as int,
            );
        }
    }
}

/// The largest power of two an IPv4 host range can span.
pub proof fn lemma_pow2_32()
    ensures
        pow2(32) == 0x1_0000_0000,
{
    reveal_with_fuel(pow2, 33);
}

/// The red, green and blue components of palette entry `i`, in the fixed
/// enumeration order from black to white.
pub open spec fn palette_rgb(i: int) -> (int, int, int) {
    if i == 0 {
        (0, 0, 0)
    } else if i == 1 {
        (0, 0, 170)
    } else if i == 2 {
        (0, 170, 0)
    } else if i == 3 {
        (0, 170, 170)
    } else if i == 4 {
        (170, 0, 0)
    } else if i == 5 {
        (170, 0, 170)
    } else if i == 6 {
        (255, 170, 0)
    } else if i == 7 {
        (170, 170, 170)
    } else if i == 8 {
        (85, 85, 85)
    } else if i == 9 {
        (85, 85, 255)
    } else if i == 10 {
        (85, 255, 85)
    } else if i == 11 {
        (85, 255, 255)
    } else if i == 12 {
        (255, 85, 85)
    } else if i == 13 {
        (255, 85, 255)
    } else if i == 14 {
        (255, 255, 85)
    } else {
        (255, 255, 255)
    }
}

/// The color of palette entry `i`.
pub open spec fn palette_color(i: int) -> MinecraftColorCodes {
    if i == 0 {
        MinecraftColorCodes::Black
    } else if i == 1 {
        MinecraftColorCodes::DarkBlue
    } else if i == 2 {
        MinecraftColorCodes::DarkGreen
    } else if i == 3 {
        MinecraftColorCodes::DarkAqua
    } else if i == 4 {
        MinecraftColorCodes::DarkRed
    } else if i == 5 {
        MinecraftColorCodes::DarkPurple
    } else if i == 6 {
        MinecraftColorCodes::Gold
    } else if i == 7 {
        MinecraftColorCodes::Gray
    } else if i == 8 {
        MinecraftColorCodes::DarkGray
    } else if i == 9 {
        MinecraftColorCodes::Blue
    } else if i == 10 {
        MinecraftColorCodes::Green
    } else if i == 11 {
        MinecraftColorCodes::Aqua
    } else if i == 12 {
        MinecraftColorCodes::Red
    } else if i == 13 {
        MinecraftColorCodes::LightPurple
    } else if i == 14 {
        MinecraftColorCodes::Yellow
    } else {
        MinecraftColorCodes::White
    }
}

/// Squared Euclidean distance in RGB between palette entry `i` and the
/// given components.
pub open spec fn palette_dist(i: int, r: int, g: int, b: int) -> int {
    let (pr, pg, pb) = palette_rgb(i);
    (pr - r) * (pr - r) + (pg - g) * (pg - g) + (pb - b) * (pb - b)
}

/// The palette index closest to the given components among entries
/// `i`..`15`; on a tie the smallest index wins, matching the fixed
/// enumeration order.
pub open spec fn nearest_palette_index(r: int, g: int, b: int, i: int) -> int
    decreases 16 - i,
{
    if i >= 15 {
        15
    } else {
        let rest = nearest_palette_index(r, g, b, i + 1);
        if palette_dist(i, r, g, b) <= palette_dist(rest, r, g, b) {
            i
        } else {
            rest
        }
    }
}

/// The value of one hexadecimal digit, upper or lower case.
pub open spec fn hex_digit(c: char) -> Option<nat> {
    if '0' <= c && c <= '9' {
        Some(((c as u8) - 48) as nat)
    } else if 'a' <= c && c <= 'f' {
        Some(((c as u8) - 87) as nat)
    } else if 'A' <= c && c <= 'F' {
        Some(((c as u8) - 55) as nat)
    } else {
        None
    }
}

/// The value of a two-digit hexadecimal component; a component with a
/// non-hex character counts as zero, the usual fallback for a loose color
/// string.
pub open spec fn hex_pair(a: char, b: char) -> nat {
    match (hex_digit(a), hex_digit(b)) {
        (Some(x), Some(y)) => 16 * x + y,
        _ => 0,
    }
}

/// The color a seven-character `#RRGGBB` string maps to: the palette entry
/// with the least squared RGB distance, earliest entry first on ties.
pub open spec fn spec_hex_to_nearest(s: Seq<char>) -> MinecraftColorCodes
    recommends
        s.len() == 7,
{
    let r = hex_pair(s[1], s[2]) as int;
    let g = hex_pair(s[3], s[4]) as int;
    let b = hex_pair(s[5], s[6]) as int;
    palette_color(nearest_palette_index(r, g, b, 0))
}

/// The color a name or hex string maps to: the named palette entries with
/// their aliases, then seven-character ASCII `#` strings by nearest RGB
/// distance, and reset for anything else.
pub open spec fn spec_color_from(s: Seq<char>) -> MinecraftColorCodes {
    if s == "black"@ {
        MinecraftColorCodes::Black
    } else if s == "dark_blue"@ {
        MinecraftColorCodes::DarkBlue
    } else if s == "dark_green"@ {
        MinecraftColorCodes::DarkGreen
    } else if s == "dark_aqua"@ {
        MinecraftColorCodes::DarkAqua
    } else if s == "dark_red"@ {
        MinecraftColorCodes::DarkRed
    } else if s == "dark_purple"@ || s == "purple"@ {
        MinecraftColorCodes::DarkPurple
    } else if s == "gold"@ {
        MinecraftColorCodes::Gold
    } else if s == "gray"@ || s == "grey"@ {
        MinecraftColorCodes::Gray
    } else if s == "dark_gray"@ || s == "dark_grey"@ {
        MinecraftColorCodes::DarkGray
    } else if s == "blue"@ {
        MinecraftColorCodes::Blue
    } else if s == "green"@ {
        MinecraftColorCodes::Green
    } else if s == "aqua"@ {
        MinecraftColorCodes::Aqua
    } else if s == "red"@ {
        MinecraftColorCodes::Red
    } else if s == "pink"@ || s == "light_purple"@ {
        MinecraftColorCodes::LightPurple
    } else if s == "yellow"@ {
        MinecraftColorCodes::Yellow
    } else if s == "white"@ {
        MinecraftColorCodes::White
    } else if s == "reset"@ {
        MinecraftColorCodes::Reset
    } else if s.len() == 7 && s[0] == '#' && vstd::utf8::is_ascii_chars(s) {
        spec_hex_to_nearest(s)
    } else {
        MinecraftColorCodes::UnknownValue
    }
}

fn hex_digit_exec(c: char) -> (r: Option<u8>)
    ensures
        match hex_digit(c) {
            Some(v) => r matches Some(x) && x as nat == v,
            None => r is None,
        },
{
    if c >= '0' && c <= '9' {
        Some((c as u8) - 48)
    } else if c >= 'a' && c <= 'f' {
        Some((c as u8) - 87)
    } else if c >= 'A' && c <= 'F' {
        Some((c as u8) - 55)
    } else {
        None
    }
}

fn hex_pair_exec(a: char, b: char) -> (r: u8)
    ensures
        r as nat == hex_pair(a, b),
{
    match (hex_digit_exec(a), hex_digit_exec(b)) {
        (Some(x), Some(y)) => 16 * x + y,
        _ => 0,
    }
}

fn palette_entry(i: usize) -> (e: (i32, i32, i32))
    requires
        i < 16,
    ensures
        e.0 == palette_rgb(i as int).0,
        e.1 == palette_rgb(i as int).1,
        e.2 == palette_rgb(i as int).2,
{
    if i == 0 {
        (0, 0, 0)
    } else if i == 1 {
        (0, 0, 170)
    } else if i == 2 {
        (0, 170, 0)
    } else if i == 3 {
        (0, 170, 170)
    } else if i == 4 {
        (170, 0, 0)
    } else if i == 5 {
        (170, 0, 170)
    } else if i == 6 {
        (255, 170, 0)
    } else if i == 7 {
        (170, 170, 170)
    } else if i == 8 {
        (85, 85, 85)
    } else if i == 9 {
        (85, 85, 255)
    } else if i == 10 {
        (85, 255, 85)
    } else if i == 11 {
        (85, 255, 255)
    } else if i == 12 {
        (255, 85, 85)
    } else if i == 13 {
        (255, 85, 255)
    } else if i == 14 {
        (255, 255, 85)
    } else {
        (255, 255, 255)
    }
}

fn palette_color_exec(i: usize) -> (c: MinecraftColorCodes)
    requires
        i < 16,
    ensures
        c == palette_color(i as int),
{
    if i == 0 {
        MinecraftColorCodes::Black
    } else if i == 1 {
        MinecraftColorCodes::DarkBlue
    } else if i == 2 {
        MinecraftColorCodes::DarkGreen
    } else if i == 3 {
        MinecraftColorCodes::DarkAqua
    } else if i == 4 {
        MinecraftColorCodes::DarkRed
    } else if i == 5 {
        MinecraftColorCodes::DarkPurple
    } else if i == 6 {
        MinecraftColorCodes::Gold
    } else if i == 7 {
        MinecraftColorCodes::Gray
    } else if i == 8 {
        MinecraftColorCodes::DarkGray
    } else if i == 9 {
        MinecraftColorCodes::Blue
    } else if i == 10 {
        MinecraftColorCodes::Green
    } else if i == 11 {
        MinecraftColorCodes::Aqua
    } else if i == 12 {
        MinecraftColorCodes::Red
    } else if i == 13 {
        MinecraftColorCodes::LightPurple
    } else if i == 14 {
        MinecraftColorCodes::Yellow
    } else {
        MinecraftColorCodes::White
    }
}

fn palette_dist_exec(i: usize, r: i32, g: i32, b: i32) -> (d: i32)
    requires
        i < 16,
        0 <= r <= 255,
        0 <= g <= 255,
        0 <= b <= 255,
    ensures
        d == palette_dist(i as int, r as int, g as int, b as int),
{
    let (pr, pg, pb) = palette_entry(i);
    let dr: i32 = pr - r;
    let dg: i32 = pg - g;
    let db: i32 = pb - b;
    proof {
        assert(dr * dr <= 65025 && dr * dr >= 0) by (nonlinear_arith)
            requires
                -255 <= dr <= 255,
        ;
        assert(dg * dg <= 65025 && dg * dg >= 0) by (nonlinear_arith)
            requires
                -255 <= dg <= 255,
        ;
        assert(db * db <= 65025 && db * db >= 0) by (nonlinear_arith)
            requires
                -255 <= db <= 255,
        ;
    }
    dr * dr + dg * dg + db * db
}

fn nearest_palette_index_exec(r: i32, g: i32, b: i32, i: usize) -> (k: usize)
    requires
        i < 16,
        0 <= r <= 255,
        0 <= g <= 255,
        0 <= b <= 255,
    ensures
        k as int == nearest_palette_index(r as int, g as int, b as int, i as int),
        k < 16,
    decreases 16 - i,
{
    if i >= 15 {
        15
    } else {
        let rest = nearest_palette_index_exec(r, g, b, i + 1);
        let di = palette_dist_exec(i, r, g, b);
        let dx = palette_dist_exec(rest, r, g, b);
        if di <= dx {
            i
        } else {
            rest
        }
    }
}

/// Maps a seven-character `#RRGGBB` string to the legacy palette color with
/// the least squared RGB distance; ties go to the earlier palette entry.
/// A component that is not two hex digits counts as zero.
pub fn hex_to_nearest_legacy(hex: &str) -> (c: MinecraftColorCodes)
    requires
        hex@.len() == 7,
    ensures
        c == spec_hex_to_nearest(hex@),
{
    let r = hex_pair_exec(hex.get_char(1), hex.get_char(2));
    let g = hex_pair_exec(hex.get_char(3), hex.get_char(4));
    let b = hex_pair_exec(hex.get_char(5), hex.get_char(6));
    let k = nearest_palette_index_exec(r as i32, g as i32, b as i32, 0);
    palette_color_exec(k)
}

impl<'a> From<&'a str> for MinecraftColorCodes {
    /// Maps a color name (with the accepted aliases) or a `#RRGGBB` string
    /// to its palette entry; unknown strings map to reset.
    fn from(s: &'a str) -> (c: Self)
        ensures
            c == spec_color_from(s@),
    {
        if str_eq(s, "black") {
            MinecraftColorCodes::Black
        } else if str_eq(s, "dark_blue") {
            MinecraftColorCodes::DarkBlue
        } else if str_eq(s, "dark_green") {
            MinecraftColorCodes::DarkGreen
        } else if str_eq(s, "dark_aqua") {
            MinecraftColorCodes::DarkAqua
        } else if str_eq(s, "dark_red") {
            MinecraftColorCodes::DarkRed
        } else if str_eq(s, "dark_purple") || str_eq(s, "purple") {
            MinecraftColorCodes::DarkPurple
        } else if str_eq(s, "gold") {
            MinecraftColorCodes::Gold
        } else if str_eq(s, "gray") || str_eq(s, "grey") {
            MinecraftColorCodes::Gray
        } else if str_eq(s, "dark_gray") || str_eq(s, "dark_grey") {
            MinecraftColorCodes::DarkGray
        } else if str_eq(s, "blue") {
            MinecraftColorCodes::Blue
        } else if str_eq(s, "green") {
            MinecraftColorCodes::Green
        } else if str_eq(s, "aqua") {
            MinecraftColorCodes::Aqua
        } else if str_eq(s, "red") {
            MinecraftColorCodes::Red
        } else if str_eq(s, "pink") || str_eq(s, "light_purple") {
            MinecraftColorCodes::LightPurple
        } else if str_eq(s, "yellow") {
            MinecraftColorCodes::Yellow
        } else if str_eq(s, "white") {
            MinecraftColorCodes::White
        } else if str_eq(s, "reset") {
            MinecraftColorCodes::Reset
        } else {
            let is_hex = s.is_ascii() && s.unicode_len() == 7 && s.get_char(0) == '#';
            if is_hex {
                hex_to_nearest_legacy(s)
            } else {
                MinecraftColorCodes::UnknownValue
            }
        }
    }
}

impl<'a> vstd::std_specs::convert::FromSpecImpl<&'a str> for MinecraftColorCodes {
    open spec fn obeys_from_spec() -> bool {
        true
    }

    open spec fn from_spec(s: &'a str) -> MinecraftColorCodes {
        spec_color_from(s@)
    }
}

impl MinecraftColorCodes {
    pub fn get_code(&self) -> (c: char)
        ensures
            c == spec_get_code(*self),
    {
        match self {
            MinecraftColorCodes::Black => '0',
            MinecraftColorCodes::DarkBlue => '1',
            MinecraftColorCodes::DarkGreen => '2',
            MinecraftColorCodes::DarkAqua => '3',
            MinecraftColorCodes::DarkRed => '4',
            MinecraftColorCodes::DarkPurple => '5',
            MinecraftColorCodes::Gold => '6',
            MinecraftColorCodes::Gray => '7',
            MinecraftColorCodes::DarkGray => '8',
            MinecraftColorCodes::Blue => '9',
            MinecraftColorCodes::Green => 'a',
            MinecraftColorCodes::Aqua => 'b',
            MinecraftColorCodes::Red => 'c',
            MinecraftColorCodes::LightPurple => 'd',
            MinecraftColorCodes::Yellow => 'e',
            MinecraftColorCodes::White => 'f',
            MinecraftColorCodes::Reset => 'r',
            MinecraftColorCodes::UnknownValue => 'r',
        }
    }
}

} // verus!
