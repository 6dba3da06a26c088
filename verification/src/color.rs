use vstd::prelude::*;

verus! {

/// The colours in which a glyph or a message can be drawn.
#[derive(Debug, Clone, Copy, PartialEq, Eq, Structural)]
pub enum Color {
    Black,
    Red,
    Green,
    Yellow,
    Blue,
    Magenta,
    Cyan,
    White,
    /// The terminal's own foreground colour.
    Reset,
}

/// The two characters that open every control sequence: escape and `[`.
pub open spec fn csi() -> Seq<char> {
    seq!['\u{1b}', '[']
}

/// The control sequence that switches the foreground to the colour that the
/// 256-colour palette has under `digit`: `ESC [ 3 8 ; 5 ; digit m`.
pub open spec fn palette_code(digit: char) -> Seq<char> {
    csi() + seq!['3', '8', ';', '5', ';', digit, 'm']
}

impl Color {
    /// The control sequence that switches the foreground to this colour. The
    /// eight colours are the first eight of the palette; `Reset` is `ESC [ 3 9 m`.
    pub open spec fn code(self) -> Seq<char> {
        match self {
            Color::Black => palette_code('0'),
            Color::Red => palette_code('1'),
            Color::Green => palette_code('2'),
            Color::Yellow => palette_code('3'),
            Color::Blue => palette_code('4'),
            Color::Magenta => palette_code('5'),
            Color::Cyan => palette_code('6'),
            Color::White => palette_code('7'),
            Color::Reset => csi() + seq!['3', '9', 'm'],
        }
    }
}

/// What a glyph looks like on the terminal: the colour's control sequence, then
/// the glyph.
pub open spec fn tile_image(glyph: char, color: Color) -> Seq<char> {
    color.code().push(glyph)
}

/// Trusted: formats `termion::color::Fg` of the termion colour that `color` stands
/// for. termion writes a fixed string for each of its colours, `fg_str` of the
/// colour; the contract spells those strings out.
#[verifier::external_body]
pub(crate) fn foreground(color: Color) -> (code: String)
    ensures
        code@ == color.code(),
{
    let ink: &dyn termion::color::Color = match color {
        Color::Black => &termion::color::Black,
        Color::Red => &termion::color::Red,
        Color::Green => &termion::color::Green,
        Color::Yellow => &termion::color::Yellow,
        Color::Blue => &termion::color::Blue,
        Color::Magenta => &termion::color::Magenta,
        Color::Cyan => &termion::color::Cyan,
        Color::White => &termion::color::White,
        Color::Reset => &termion::color::Reset,
    };
    format!("{}", termion::color::Fg(ink))
}

/// Trusted: `String::push` appends the character to the end of the string.
pub assume_specification[ String::push ](text: &mut String, ch: char)
    ensures
        final(text)@ == old(text)@.push(ch),
;

} // verus!
