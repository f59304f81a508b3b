//! Colours: the palette the interface draws with, and how colours are
//! written in and read from configuration.
use crate::text::{
    all_digits, decimal, lemma_decimal_digits, parse_bounded, same_text, spec_parse_bounded, trim_chars, trim_end,
    trim_start, trim_whitespace, whitespace,
};
use crate::view::{ascii_lowered, is_ascii_text, lowercase, lowered};
use vstd::prelude::*;

verus! {

/// The number of colours treemap tiles cycle through.
pub const TILE_PALETTE_SIZE: usize = 20;

/// A terminal colour: one of the named colours, a 24-bit RGB colour, or an
/// entry of the terminal's 256-colour table.
#[derive(Clone, Copy, Debug, PartialEq, Eq, Structural)]
pub enum Color {
    Reset,
    Black,
    Red,
    Green,
    Yellow,
    Blue,
    Magenta,
    Cyan,
    Gray,
    DarkGray,
    LightRed,
    LightGreen,
    LightYellow,
    LightBlue,
    LightMagenta,
    LightCyan,
    White,
    Rgb(u8, u8, u8),
    Indexed(u8),
}

/// The colours of the interface.
#[derive(Clone, Copy, Debug, PartialEq, Eq)]
pub struct Theme {
    pub background: Color,
    pub foreground: Color,
    pub selection: Color,
    pub directory: Color,
    pub file: Color,
    pub bar: Color,
    pub bar_bg: Color,
    pub tile_palette: [Color; TILE_PALETTE_SIZE],
}

/// The default tile colours, in order.
pub open spec fn default_tile_palette() -> Seq<Color> {
    seq![
        Color::LightGreen,
        Color::LightYellow,
        Color::LightBlue,
        Color::LightMagenta,
        Color::LightCyan,
        Color::Yellow,
        Color::LightRed,
        Color::Green,
        Color::Magenta,
        Color::Cyan,
        Color::Red,
        Color::White,
        Color::Gray,
        Color::DarkGray,
        Color::Black,
        Color::Rgb(255, 165, 0),
        Color::Rgb(128, 0, 128),
        Color::Rgb(0, 128, 128),
        Color::Rgb(128, 128, 0),
        Color::Rgb(255, 192, 203),
    ]
}

/// The default theme: terminal background, white text, blue selection, cyan
/// directories, grey files, light-green bars, and the default tile colours.
pub open spec fn is_default_theme(t: Theme) -> bool {
    &&& t.background == Color::Reset
    &&& t.foreground == Color::White
    &&& t.selection == Color::Blue
    &&& t.directory == Color::Cyan
    &&& t.file == Color::Gray
    &&& t.bar == Color::LightGreen
    &&& t.bar_bg == Color::Reset
    &&& t.tile_palette@ == default_tile_palette()
}

impl Default for Theme {
    fn default() -> (r: Self)
        ensures
            is_default_theme(r),
    {
        let tile_palette: [Color; TILE_PALETTE_SIZE] = [
            Color::LightGreen,
            Color::LightYellow,
            Color::LightBlue,
            Color::LightMagenta,
            Color::LightCyan,
            Color::Yellow,
            Color::LightRed,
            Color::Green,
            Color::Magenta,
            Color::Cyan,
            Color::Red,
            Color::White,
            Color::Gray,
            Color::DarkGray,
            Color::Black,
            Color::Rgb(255, 165, 0),
            Color::Rgb(128, 0, 128),
            Color::Rgb(0, 128, 128),
            Color::Rgb(128, 128, 0),
            Color::Rgb(255, 192, 203),
        ];
        assert(tile_palette@ =~= default_tile_palette());
        Theme {
            background: Color::Reset,
            foreground: Color::White,
            selection: Color::Blue,
            directory: Color::Cyan,
            file: Color::Gray,
            bar: Color::LightGreen,
            bar_bg: Color::Reset,
            tile_palette,
        }
    }
}

/// The palette entry `d` places after `start`, cycling.
pub open spec fn slot(t: Theme, start: int, d: int) -> Color {
    t.tile_palette@[(start + d) % TILE_PALETTE_SIZE as int]
}

/// The tile colour for `index`: the palette entry at `index` (cycling), or
/// the next one after it that differs from the selection colour; the bar
/// colour if every entry equals the selection colour.
pub open spec fn spec_tile_color(t: Theme, index: usize) -> Color {
    let start = index as int % TILE_PALETTE_SIZE as int;
    if exists|d: int| 0 <= d < TILE_PALETTE_SIZE && #[trigger] slot(t, start, d) != t.selection {
        let d = choose|d: int|
            0 <= d < TILE_PALETTE_SIZE && #[trigger] slot(t, start, d) != t.selection && forall|e: int|
                0 <= e < d ==> #[trigger] slot(t, start, e) == t.selection;
        slot(t, start, d)
    } else {
        t.bar
    }
}

/// A tile never takes the selection colour while the palette has another
/// colour; a palette entry that differs from the selection colour is used
/// as it is.
pub proof fn lemma_tile_color_avoids_selection(t: Theme, index: usize)
    ensures
        (exists|d: int| 0 <= d < TILE_PALETTE_SIZE && #[trigger] slot(t, index as int % TILE_PALETTE_SIZE as int, d)
            != t.selection) ==> spec_tile_color(t, index) != t.selection,
        slot(t, index as int % TILE_PALETTE_SIZE as int, 0) != t.selection ==> spec_tile_color(t, index) == slot(
            t,
            index as int % TILE_PALETTE_SIZE as int,
            0,
        ),
{
    let start = index as int % TILE_PALETTE_SIZE as int;
    if exists|d: int| 0 <= d < TILE_PALETTE_SIZE && #[trigger] slot(t, start, d) != t.selection {
        let first = lemma_first_other(t, start, TILE_PALETTE_SIZE as int);
        assert(0 <= first < TILE_PALETTE_SIZE && slot(t, start, first) != t.selection && forall|e: int|
            0 <= e < first ==> #[trigger] slot(t, start, e) == t.selection);
        let c = choose|c: int|
            0 <= c < TILE_PALETTE_SIZE && #[trigger] slot(t, start, c) != t.selection && forall|e: int|
                0 <= e < c ==> #[trigger] slot(t, start, e) == t.selection;
        if slot(t, start, 0) != t.selection {
            if c > 0 {
                assert(slot(t, start, 0) == t.selection);
            }
        }
    }
}

/// The first offset below `n` whose slot differs from the selection colour,
/// when there is one.
proof fn lemma_first_other(t: Theme, start: int, n: int) -> (d: int)
    requires
        0 <= n <= TILE_PALETTE_SIZE,
        exists|d: int| 0 <= d < n && #[trigger] slot(t, start, d) != t.selection,
    ensures
        0 <= d < n,
        slot(t, start, d) != t.selection,
        forall|e: int| 0 <= e < d ==> #[trigger] slot(t, start, e) == t.selection,
    decreases n,
{
    if exists|d: int| 0 <= d < n - 1 && #[trigger] slot(t, start, d) != t.selection {
        lemma_first_other(t, start, n - 1)
    } else {
        let w = choose|d: int| 0 <= d < n && #[trigger] slot(t, start, d) != t.selection;
        assert(w == n - 1);
        n - 1
    }
}

impl Theme {
    pub fn tile_color(&self, index: usize) -> (r: Color)
        ensures
            r == spec_tile_color(*self, index),
    {
        let ghost start = index as int % TILE_PALETTE_SIZE as int;
        let mut current: usize = index % TILE_PALETTE_SIZE;
        let mut d: usize = 0;
        while d < TILE_PALETTE_SIZE
            invariant
                d <= TILE_PALETTE_SIZE,
                current == (start + d) % TILE_PALETTE_SIZE as int,
                start == index as int % TILE_PALETTE_SIZE as int,
                self.tile_palette@.len() == TILE_PALETTE_SIZE,
                forall|e: int| 0 <= e < d ==> #[trigger] slot(*self, start, e) == self.selection,
            decreases TILE_PALETTE_SIZE - d,
        {
            let color = self.tile_palette[current];
            if color != self.selection {
                proof {
                    let t = *self;
                    let w = d as int;
                    assert(slot(t, start, w) == color);
                    assert(0 <= w < TILE_PALETTE_SIZE && slot(t, start, w) != t.selection && forall|e: int|
                        0 <= e < w ==> #[trigger] slot(t, start, e) == t.selection);
                    let c = choose|c: int|
                        0 <= c < TILE_PALETTE_SIZE && #[trigger] slot(t, start, c) != t.selection && forall|e: int|
                            0 <= e < c ==> #[trigger] slot(t, start, e) == t.selection;
                    if c < w {
                        assert(slot(t, start, c) == t.selection);
                    }
                    if c > w {
                        assert(slot(t, start, w) == t.selection);
                    }
                }
                return color;
            }
            assert((start + d + 1) % TILE_PALETTE_SIZE as int == ((start + d) % TILE_PALETTE_SIZE as int + 1)
                % TILE_PALETTE_SIZE as int) by (nonlinear_arith)
                requires
                    start >= 0,
                    d >= 0,
            ;
            assert(slot(*self, start, d as int) == self.selection);
            current = (current + 1) % TILE_PALETTE_SIZE;
            d += 1;
        }
        proof {
            assert forall|e: int| 0 <= e < TILE_PALETTE_SIZE implies #[trigger] slot(*self, start, e) == self.selection by {
            }
        }
        self.bar
    }
}

/// Theme settings as a configuration file gives them; the tile palette may
/// have any length.
#[derive(Clone, Debug, PartialEq, Eq)]
pub struct ThemeConfig {
    pub background: Color,
    pub foreground: Color,
    pub selection: Color,
    pub directory: Color,
    pub file: Color,
    pub bar: Color,
    pub bar_bg: Color,
    pub tile_palette: Vec<Color>,
}

impl Default for ThemeConfig {
    /// The default theme's colours.
    fn default() -> (r: Self)
        ensures
            r.background == Color::Reset,
            r.foreground == Color::White,
            r.selection == Color::Blue,
            r.directory == Color::Cyan,
            r.file == Color::Gray,
            r.bar == Color::LightGreen,
            r.bar_bg == Color::Reset,
            r.tile_palette@ == default_tile_palette(),
    {
        let theme = Theme::default();
        let mut tile_palette: Vec<Color> = Vec::new();
        let mut i: usize = 0;
        while i < TILE_PALETTE_SIZE
            invariant
                i <= TILE_PALETTE_SIZE,
                theme.tile_palette@ == default_tile_palette(),
                tile_palette@ =~= default_tile_palette().take(i as int),
            decreases TILE_PALETTE_SIZE - i,
        {
            tile_palette.push(theme.tile_palette[i]);
            i += 1;
        }
        ThemeConfig {
            background: theme.background,
            foreground: theme.foreground,
            selection: theme.selection,
            directory: theme.directory,
            file: theme.file,
            bar: theme.bar,
            bar_bg: theme.bar_bg,
            tile_palette,
        }
    }
}

/// The tile palette a configured palette gives: its first entries, as many
/// as fit, and the default colours after a short palette ends.
pub open spec fn configured_palette(p: Seq<Color>) -> Seq<Color> {
    Seq::new(
        TILE_PALETTE_SIZE as nat,
        |i: int|
            if i < p.len() {
                p[i]
            } else {
                default_tile_palette()[i]
            },
    )
}

impl ThemeConfig {
    pub fn to_theme(&self) -> (r: Theme)
        ensures
            r.background == self.background,
            r.foreground == self.foreground,
            r.selection == self.selection,
            r.directory == self.directory,
            r.file == self.file,
            r.bar == self.bar,
            r.bar_bg == self.bar_bg,
            r.tile_palette@ == configured_palette(self.tile_palette@),
    {
        let mut palette = Theme::default().tile_palette;
        let n: usize = if self.tile_palette.len() < TILE_PALETTE_SIZE {
            self.tile_palette.len()
        } else {
            TILE_PALETTE_SIZE
        };
        let mut i: usize = 0;
        while i < n
            invariant
                n <= TILE_PALETTE_SIZE,
                n <= self.tile_palette@.len(),
                n == TILE_PALETTE_SIZE || n == self.tile_palette@.len(),
                i <= n,
                palette@.len() == TILE_PALETTE_SIZE,
                forall|j: int| 0 <= j < i ==> palette@[j] == self.tile_palette@[j],
                forall|j: int| i <= j < TILE_PALETTE_SIZE ==> palette@[j] == default_tile_palette()[j],
            decreases n - i,
        {
            palette.set(i, self.tile_palette[i]);
            i += 1;
        }
        assert(palette@ =~= configured_palette(self.tile_palette@));
        Theme {
            background: self.background,
            foreground: self.foreground,
            selection: self.selection,
            directory: self.directory,
            file: self.file,
            bar: self.bar,
            bar_bg: self.bar_bg,
            tile_palette: palette,
        }
    }
}

/// The name under which a colour is written: its variant name, or
/// `rgb(r,g,b)` and `indexed(i)` with decimal numbers.
pub open spec fn spec_color_text(c: Color) -> Seq<char> {
    match c {
        Color::Reset => "Reset"@,
        Color::Black => "Black"@,
        Color::Red => "Red"@,
        Color::Green => "Green"@,
        Color::Yellow => "Yellow"@,
        Color::Blue => "Blue"@,
        Color::Magenta => "Magenta"@,
        Color::Cyan => "Cyan"@,
        Color::Gray => "Gray"@,
        Color::DarkGray => "DarkGray"@,
        Color::LightRed => "LightRed"@,
        Color::LightGreen => "LightGreen"@,
        Color::LightYellow => "LightYellow"@,
        Color::LightBlue => "LightBlue"@,
        Color::LightMagenta => "LightMagenta"@,
        Color::LightCyan => "LightCyan"@,
        Color::White => "White"@,
        Color::Rgb(r, g, b) => seq!['r', 'g', 'b', '('] + decimal(r as nat) + seq![','] + decimal(g as nat)
            + seq![','] + decimal(b as nat) + seq![')'],
        Color::Indexed(i) => seq!['i', 'n', 'd', 'e', 'x', 'e', 'd', '('] + decimal(i as nat) + seq![')'],
    }
}

fn push_seq_chars(out: &mut String, chars: &Vec<char>)
    ensures
        final(out)@ == old(out)@ + chars@,
{
    crate::text::push_chars(out, chars);
}

pub fn color_to_string(color: &Color) -> (r: String)
    ensures
        r@ == spec_color_text(*color),
{
    match color {
        Color::Reset => crate::text::owned("Reset"),
        Color::Black => crate::text::owned("Black"),
        Color::Red => crate::text::owned("Red"),
        Color::Green => crate::text::owned("Green"),
        Color::Yellow => crate::text::owned("Yellow"),
        Color::Blue => crate::text::owned("Blue"),
        Color::Magenta => crate::text::owned("Magenta"),
        Color::Cyan => crate::text::owned("Cyan"),
        Color::Gray => crate::text::owned("Gray"),
        Color::DarkGray => crate::text::owned("DarkGray"),
        Color::LightRed => crate::text::owned("LightRed"),
        Color::LightGreen => crate::text::owned("LightGreen"),
        Color::LightYellow => crate::text::owned("LightYellow"),
        Color::LightBlue => crate::text::owned("LightBlue"),
        Color::LightMagenta => crate::text::owned("LightMagenta"),
        Color::LightCyan => crate::text::owned("LightCyan"),
        Color::White => crate::text::owned("White"),
        Color::Rgb(r, g, b) => {
            let mut out = String::new();
            crate::text::push_char(&mut out, 'r');
            crate::text::push_char(&mut out, 'g');
            crate::text::push_char(&mut out, 'b');
            crate::text::push_char(&mut out, '(');
            push_seq_chars(&mut out, &crate::text::decimal_chars(*r as u64));
            crate::text::push_char(&mut out, ',');
            push_seq_chars(&mut out, &crate::text::decimal_chars(*g as u64));
            crate::text::push_char(&mut out, ',');
            push_seq_chars(&mut out, &crate::text::decimal_chars(*b as u64));
            crate::text::push_char(&mut out, ')');
            assert(out@ =~= spec_color_text(*color));
            out
        },
        Color::Indexed(i) => {
            let mut out = String::new();
            crate::text::push_char(&mut out, 'i');
            crate::text::push_char(&mut out, 'n');
            crate::text::push_char(&mut out, 'd');
            crate::text::push_char(&mut out, 'e');
            crate::text::push_char(&mut out, 'x');
            crate::text::push_char(&mut out, 'e');
            crate::text::push_char(&mut out, 'd');
            crate::text::push_char(&mut out, '(');
            push_seq_chars(&mut out, &crate::text::decimal_chars(*i as u64));
            crate::text::push_char(&mut out, ')');
            assert(out@ =~= spec_color_text(*color));
            out
        },
    }
}

/// Splits text at each comma. Returns the finished pieces and the piece
/// still open.
pub open spec fn comma_scan(s: Seq<char>) -> (Seq<Seq<char>>, Seq<char>)
    decreases s.len(),
{
    if s.len() == 0 {
        (Seq::empty(), Seq::empty())
    } else {
        let (done, open) = comma_scan(s.drop_last());
        if s.last() == ',' {
            (done.push(open), Seq::empty())
        } else {
            (done, open.push(s.last()))
        }
    }
}

/// The pieces of a text between its commas, as `str::split(',')` gives
/// them (an empty text is one empty piece).
pub open spec fn split_commas(s: Seq<char>) -> Seq<Seq<char>> {
    let (done, open) = comma_scan(s);
    done.push(open)
}

pub open spec fn rgb_prefix() -> Seq<char> {
    seq!['r', 'g', 'b', '(']
}

pub open spec fn indexed_prefix() -> Seq<char> {
    seq!['i', 'n', 'd', 'e', 'x', 'e', 'd', '(']
}

/// The text between `prefix` and a closing parenthesis, when the text
/// starts with the one and ends with the other.
pub open spec fn enclosed(n: Seq<char>, prefix: Seq<char>) -> Option<Seq<char>> {
    if n.len() >= prefix.len() + 1 && n.take(prefix.len() as int) == prefix && n.last() == ')' {
        Some(n.subrange(prefix.len() as int, n.len() - 1))
    } else {
        None
    }
}

/// The trimmed components of an `rgb(...)` colour, when there are three.
pub open spec fn rgb_parts(n: Seq<char>) -> Option<Seq<Seq<char>>> {
    match enclosed(n, rgb_prefix()) {
        Some(rest) => {
            let parts = split_commas(rest).map_values(|p: Seq<char>| trim_whitespace(p));
            if parts.len() == 3 {
                Some(parts)
            } else {
                None
            }
        },
        None => None,
    }
}

/// A colour component from 0 to 255.
pub open spec fn component(p: Seq<char>) -> Option<u8> {
    match spec_parse_bounded(p, 255) {
        Some(v) => Some(v as u8),
        None => None,
    }
}

/// A named colour, by its lowercase name.
pub open spec fn named_color(l: Seq<char>) -> Result<Color, Seq<char>> {
    if l == "reset"@ {
        Ok(Color::Reset)
    } else if l == "black"@ {
        Ok(Color::Black)
    } else if l == "red"@ {
        Ok(Color::Red)
    } else if l == "green"@ {
        Ok(Color::Green)
    } else if l == "yellow"@ {
        Ok(Color::Yellow)
    } else if l == "blue"@ {
        Ok(Color::Blue)
    } else if l == "magenta"@ {
        Ok(Color::Magenta)
    } else if l == "cyan"@ {
        Ok(Color::Cyan)
    } else if l == "gray"@ {
        Ok(Color::Gray)
    } else if l == "darkgray"@ {
        Ok(Color::DarkGray)
    } else if l == "lightred"@ {
        Ok(Color::LightRed)
    } else if l == "lightgreen"@ {
        Ok(Color::LightGreen)
    } else if l == "lightyellow"@ {
        Ok(Color::LightYellow)
    } else if l == "lightblue"@ {
        Ok(Color::LightBlue)
    } else if l == "lightmagenta"@ {
        Ok(Color::LightMagenta)
    } else if l == "lightcyan"@ {
        Ok(Color::LightCyan)
    } else if l == "white"@ {
        Ok(Color::White)
    } else {
        Err("unknown color '"@ + l + "'"@)
    }
}

/// The colour a configuration value names: `rgb(r,g,b)` with components
/// from 0 to 255, `indexed(i)` with an index from 0 to 255, or a colour name
/// in any case; surrounding whitespace is ignored. A malformed `rgb` or
/// `indexed` value is refused with the part at fault; anything else that is
/// not a name is an unknown colour.
pub open spec fn spec_parse_color(v: Seq<char>) -> Result<Color, Seq<char>> {
    let n = trim_whitespace(v);
    match rgb_parts(n) {
        Some(parts) => match (component(parts[0]), component(parts[1]), component(parts[2])) {
            (None, _, _) => Err("invalid rgb component "@ + parts[0]),
            (Some(_), None, _) => Err("invalid rgb component "@ + parts[1]),
            (Some(_), Some(_), None) => Err("invalid rgb component "@ + parts[2]),
            (Some(r), Some(g), Some(b)) => Ok(Color::Rgb(r, g, b)),
        },
        None => match enclosed(n, indexed_prefix()) {
            Some(rest) => match component(trim_whitespace(rest)) {
                Some(i) => Ok(Color::Indexed(i)),
                None => Err("invalid index "@ + rest),
            },
            None => named_color(lowered(n)),
        },
    }
}

/// Text that neither starts nor ends with whitespace is its own trim.
proof fn lemma_trim_plain(s: Seq<char>)
    requires
        s.len() > 0 ==> !whitespace(s[0]) && !whitespace(s.last()),
    ensures
        trim_whitespace(s) == s,
{
    assert(trim_start(s) == s);
    assert(trim_end(s) == s);
}

/// Text without commas only extends the piece still open.
proof fn lemma_comma_scan_append(x: Seq<char>, y: Seq<char>)
    requires
        forall|i: int| 0 <= i < y.len() ==> y[i] != ',',
    ensures
        comma_scan(x + y) == (comma_scan(x).0, comma_scan(x).1 + y),
    decreases y.len(),
{
    if y.len() == 0 {
        assert(x + y =~= x);
        assert(comma_scan(x).1 + y =~= comma_scan(x).1);
    } else {
        let y0 = y.drop_last();
        lemma_comma_scan_append(x, y0);
        assert((x + y).drop_last() =~= x + y0);
        assert((x + y).last() == y.last());
        assert(comma_scan(x).1 + y =~= (comma_scan(x).1 + y0).push(y.last()));
    }
}

/// A comma closes the open piece.
proof fn lemma_comma_scan_comma(x: Seq<char>)
    ensures
        comma_scan(x.push(',')) == (comma_scan(x).0.push(comma_scan(x).1), Seq::<char>::empty()),
{
    assert(x.push(',').drop_last() =~= x);
}

/// The decimal form of a number is a run of digits, its own trim, with no
/// comma, and reads back as a component when the number fits one.
proof fn lemma_decimal_component(n: u8)
    ensures
        forall|i: int| 0 <= i < decimal(n as nat).len() ==> (#[trigger] decimal(n as nat)[i]) != ',',
        trim_whitespace(decimal(n as nat)) == decimal(n as nat),
        component(decimal(n as nat)) == Some(n),
        decimal(n as nat).len() >= 1,
{
    let d = decimal(n as nat);
    lemma_decimal_digits(n as nat);
    assert forall|i: int| 0 <= i < d.len() implies (#[trigger] d[i]) != ',' && !whitespace(d[i]) by {
        assert('0' <= d[i] && d[i] <= '9');
    }
    lemma_trim_plain(d);
}

/// Three comma-free pieces joined by commas split back into them.
proof fn lemma_split_three(a: Seq<char>, b: Seq<char>, c: Seq<char>)
    requires
        forall|i: int| 0 <= i < a.len() ==> a[i] != ',',
        forall|i: int| 0 <= i < b.len() ==> b[i] != ',',
        forall|i: int| 0 <= i < c.len() ==> c[i] != ',',
    ensures
        split_commas(a + seq![','] + b + seq![','] + c) == seq![a, b, c],
{
    let e = Seq::<char>::empty();
    assert(comma_scan(e) == (Seq::<Seq<char>>::empty(), e));
    lemma_comma_scan_append(e, a);
    assert(e + a =~= a);
    assert(e + a =~= a);
    lemma_comma_scan_comma(a);
    lemma_comma_scan_append(a.push(','), b);
    lemma_comma_scan_comma(a.push(',') + b);
    lemma_comma_scan_append((a.push(',') + b).push(','), c);
    assert(a + seq![','] + b + seq![','] + c =~= (a.push(',') + b).push(',') + c);
    assert(split_commas(a + seq![','] + b + seq![','] + c) =~= seq![a, b, c]);
}

/// A colour written as `rgb(r,g,b)` reads back as itself.
proof fn lemma_rgb_roundtrip(r: u8, g: u8, b: u8)
    ensures
        spec_parse_color(spec_color_text(Color::Rgb(r, g, b))) == Ok::<Color, Seq<char>>(Color::Rgb(r, g, b)),
{
    let dr = decimal(r as nat);
    let dg = decimal(g as nat);
    let db = decimal(b as nat);
    lemma_decimal_component(r);
    lemma_decimal_component(g);
    lemma_decimal_component(b);
    let rest = dr + seq![','] + dg + seq![','] + db;
    let text = spec_color_text(Color::Rgb(r, g, b));
    assert(text =~= rgb_prefix() + rest + seq![')']);
    assert(!whitespace(text[0]));
    assert(!whitespace(text.last()));
    lemma_trim_plain(text);
    assert(text.take(4) =~= rgb_prefix());
    assert(text.subrange(4, text.len() - 1) =~= rest);
    assert(enclosed(text, rgb_prefix()) == Some(rest));
    lemma_split_three(dr, dg, db);
    let trimmed = split_commas(rest).map_values(|p: Seq<char>| trim_whitespace(p));
    assert(trimmed =~= seq![dr, dg, db]);
    assert(rgb_parts(text) == Some(trimmed));
}

/// A colour written as `indexed(i)` reads back as itself.
proof fn lemma_indexed_roundtrip(i: u8)
    ensures
        spec_parse_color(spec_color_text(Color::Indexed(i))) == Ok::<Color, Seq<char>>(Color::Indexed(i)),
{
    let di = decimal(i as nat);
    lemma_decimal_component(i);
    let text = spec_color_text(Color::Indexed(i));
    assert(text =~= indexed_prefix() + di + seq![')']);
    assert(!whitespace(text[0]));
    assert(!whitespace(text.last()));
    lemma_trim_plain(text);
    assert(text.take(4)[0] != rgb_prefix()[0]);
    assert(text.take(4) != rgb_prefix());
    assert(rgb_parts(text) is None);
    assert(text.take(8) =~= indexed_prefix());
    assert(text.subrange(8, text.len() - 1) =~= di);
}

/// A name made of ASCII letters, read in any case, gives the colour it names.
proof fn lemma_named_text(text: Seq<char>, lower: Seq<char>)
    requires
        text.len() > 0,
        forall|i: int| 0 <= i < text.len() ==> ('a' <= #[trigger] text[i] <= 'z' || 'A' <= text[i] <= 'Z'),
        ascii_lowered(text) == lower,
    ensures
        spec_parse_color(text) == named_color(lower),
{
    assert(!whitespace(text[0]));
    assert(!whitespace(text.last()));
    lemma_trim_plain(text);
    assert(rgb_parts(text) is None);
    assert(enclosed(text, indexed_prefix()) is None);
    assert(is_ascii_text(text));
}

/// A colour written by its name reads back as itself.
proof fn lemma_named_roundtrip(c: Color)
    requires
        !(c is Rgb || c is Indexed),
    ensures
        spec_parse_color(spec_color_text(c)) == Ok::<Color, Seq<char>>(c),
{
    match c {
        Color::Reset => {
            reveal_strlit("Reset");
            reveal_strlit("reset");
            assert(ascii_lowered(spec_color_text(c)) =~= "reset"@);
            lemma_named_text(spec_color_text(c), "reset"@);
        },
        Color::Black => {
            reveal_strlit("Black");
            reveal_strlit("reset");
            reveal_strlit("black");
            assert("black"@[0] != "reset"@[0]);
            assert(ascii_lowered(spec_color_text(c)) =~= "black"@);
            lemma_named_text(spec_color_text(c), "black"@);
        },
        Color::Red => {
            reveal_strlit("Red");
            reveal_strlit("reset");
            reveal_strlit("black");
            reveal_strlit("red");
            assert(ascii_lowered(spec_color_text(c)) =~= "red"@);
            lemma_named_text(spec_color_text(c), "red"@);
        },
        Color::Green => {
            reveal_strlit("Green");
            reveal_strlit("reset");
            reveal_strlit("black");
            reveal_strlit("red");
            reveal_strlit("green");
            assert("green"@[0] != "reset"@[0]);
            assert("green"@[0] != "black"@[0]);
            assert(ascii_lowered(spec_color_text(c)) =~= "green"@);
            lemma_named_text(spec_color_text(c), "green"@);
        },
        Color::Yellow => {
            reveal_strlit("Yellow");
            reveal_strlit("reset");
            reveal_strlit("black");
            reveal_strlit("red");
            reveal_strlit("green");
            reveal_strlit("yellow");
            assert(ascii_lowered(spec_color_text(c)) =~= "yellow"@);
            lemma_named_text(spec_color_text(c), "yellow"@);
        },
        Color::Blue => {
            reveal_strlit("Blue");
            reveal_strlit("reset");
            reveal_strlit("black");
            reveal_strlit("red");
            reveal_strlit("green");
            reveal_strlit("yellow");
            reveal_strlit("blue");
            assert(ascii_lowered(spec_color_text(c)) =~= "blue"@);
            lemma_named_text(spec_color_text(c), "blue"@);
        },
        Color::Magenta => {
            reveal_strlit("Magenta");
            reveal_strlit("reset");
            reveal_strlit("black");
            reveal_strlit("red");
            reveal_strlit("green");
            reveal_strlit("yellow");
            reveal_strlit("blue");
            reveal_strlit("magenta");
            assert(ascii_lowered(spec_color_text(c)) =~= "magenta"@);
            lemma_named_text(spec_color_text(c), "magenta"@);
        },
        Color::Cyan => {
            reveal_strlit("Cyan");
            reveal_strlit("reset");
            reveal_strlit("black");
            reveal_strlit("red");
            reveal_strlit("green");
            reveal_strlit("yellow");
            reveal_strlit("blue");
            reveal_strlit("magenta");
            reveal_strlit("cyan");
            assert("cyan"@[0] != "blue"@[0]);
            assert(ascii_lowered(spec_color_text(c)) =~= "cyan"@);
            lemma_named_text(spec_color_text(c), "cyan"@);
        },
        Color::Gray => {
            reveal_strlit("Gray");
            reveal_strlit("reset");
            reveal_strlit("black");
            reveal_strlit("red");
            reveal_strlit("green");
            reveal_strlit("yellow");
            reveal_strlit("blue");
            reveal_strlit("magenta");
            reveal_strlit("cyan");
            reveal_strlit("gray");
            assert("gray"@[0] != "blue"@[0]);
            assert("gray"@[0] != "cyan"@[0]);
            assert(ascii_lowered(spec_color_text(c)) =~= "gray"@);
            lemma_named_text(spec_color_text(c), "gray"@);
        },
        Color::DarkGray => {
            reveal_strlit("DarkGray");
            reveal_strlit("reset");
            reveal_strlit("black");
            reveal_strlit("red");
            reveal_strlit("green");
            reveal_strlit("yellow");
            reveal_strlit("blue");
            reveal_strlit("magenta");
            reveal_strlit("cyan");
            reveal_strlit("gray");
            reveal_strlit("darkgray");
            assert(ascii_lowered(spec_color_text(c)) =~= "darkgray"@);
            lemma_named_text(spec_color_text(c), "darkgray"@);
        },
        Color::LightRed => {
            reveal_strlit("LightRed");
            reveal_strlit("reset");
            reveal_strlit("black");
            reveal_strlit("red");
            reveal_strlit("green");
            reveal_strlit("yellow");
            reveal_strlit("blue");
            reveal_strlit("magenta");
            reveal_strlit("cyan");
            reveal_strlit("gray");
            reveal_strlit("darkgray");
            reveal_strlit("lightred");
            assert("lightred"@[0] != "darkgray"@[0]);
            assert(ascii_lowered(spec_color_text(c)) =~= "lightred"@);
            lemma_named_text(spec_color_text(c), "lightred"@);
        },
        Color::LightGreen => {
            reveal_strlit("LightGreen");
            reveal_strlit("reset");
            reveal_strlit("black");
            reveal_strlit("red");
            reveal_strlit("green");
            reveal_strlit("yellow");
            reveal_strlit("blue");
            reveal_strlit("magenta");
            reveal_strlit("cyan");
            reveal_strlit("gray");
            reveal_strlit("darkgray");
            reveal_strlit("lightred");
            reveal_strlit("lightgreen");
            assert(ascii_lowered(spec_color_text(c)) =~= "lightgreen"@);
            lemma_named_text(spec_color_text(c), "lightgreen"@);
        },
        Color::LightYellow => {
            reveal_strlit("LightYellow");
            reveal_strlit("reset");
            reveal_strlit("black");
            reveal_strlit("red");
            reveal_strlit("green");
            reveal_strlit("yellow");
            reveal_strlit("blue");
            reveal_strlit("magenta");
            reveal_strlit("cyan");
            reveal_strlit("gray");
            reveal_strlit("darkgray");
            reveal_strlit("lightred");
            reveal_strlit("lightgreen");
            reveal_strlit("lightyellow");
            assert(ascii_lowered(spec_color_text(c)) =~= "lightyellow"@);
            lemma_named_text(spec_color_text(c), "lightyellow"@);
        },
        Color::LightBlue => {
            reveal_strlit("LightBlue");
            reveal_strlit("reset");
            reveal_strlit("black");
            reveal_strlit("red");
            reveal_strlit("green");
            reveal_strlit("yellow");
            reveal_strlit("blue");
            reveal_strlit("magenta");
            reveal_strlit("cyan");
            reveal_strlit("gray");
            reveal_strlit("darkgray");
            reveal_strlit("lightred");
            reveal_strlit("lightgreen");
            reveal_strlit("lightyellow");
            reveal_strlit("lightblue");
            assert(ascii_lowered(spec_color_text(c)) =~= "lightblue"@);
            lemma_named_text(spec_color_text(c), "lightblue"@);
        },
        Color::LightMagenta => {
            reveal_strlit("LightMagenta");
            reveal_strlit("reset");
            reveal_strlit("black");
            reveal_strlit("red");
            reveal_strlit("green");
            reveal_strlit("yellow");
            reveal_strlit("blue");
            reveal_strlit("magenta");
            reveal_strlit("cyan");
            reveal_strlit("gray");
            reveal_strlit("darkgray");
            reveal_strlit("lightred");
            reveal_strlit("lightgreen");
            reveal_strlit("lightyellow");
            reveal_strlit("lightblue");
            reveal_strlit("lightmagenta");
            assert(ascii_lowered(spec_color_text(c)) =~= "lightmagenta"@);
            lemma_named_text(spec_color_text(c), "lightmagenta"@);
        },
        Color::LightCyan => {
            reveal_strlit("LightCyan");
            reveal_strlit("reset");
            reveal_strlit("black");
            reveal_strlit("red");
            reveal_strlit("green");
            reveal_strlit("yellow");
            reveal_strlit("blue");
            reveal_strlit("magenta");
            reveal_strlit("cyan");
            reveal_strlit("gray");
            reveal_strlit("darkgray");
            reveal_strlit("lightred");
            reveal_strlit("lightgreen");
            reveal_strlit("lightyellow");
            reveal_strlit("lightblue");
            reveal_strlit("lightmagenta");
            reveal_strlit("lightcyan");
            assert("lightcyan"@[5] != "lightblue"@[5]);
            assert(ascii_lowered(spec_color_text(c)) =~= "lightcyan"@);
            lemma_named_text(spec_color_text(c), "lightcyan"@);
        },
        Color::White => {
            reveal_strlit("White");
            reveal_strlit("reset");
            reveal_strlit("black");
            reveal_strlit("red");
            reveal_strlit("green");
            reveal_strlit("yellow");
            reveal_strlit("blue");
            reveal_strlit("magenta");
            reveal_strlit("cyan");
            reveal_strlit("gray");
            reveal_strlit("darkgray");
            reveal_strlit("lightred");
            reveal_strlit("lightgreen");
            reveal_strlit("lightyellow");
            reveal_strlit("lightblue");
            reveal_strlit("lightmagenta");
            reveal_strlit("lightcyan");
            reveal_strlit("white");
            assert("white"@[0] != "reset"@[0]);
            assert("white"@[0] != "black"@[0]);
            assert("white"@[0] != "green"@[0]);
            assert(ascii_lowered(spec_color_text(c)) =~= "white"@);
            lemma_named_text(spec_color_text(c), "white"@);
        },
        _ => {},
    }
}

/// A colour written as text (see `color_to_string`) reads back as the same
/// colour (see `parse_color`).
pub proof fn lemma_color_text_roundtrip(c: Color)
    ensures
        spec_parse_color(spec_color_text(c)) == Ok::<Color, Seq<char>>(c),
{
    match c {
        Color::Rgb(r, g, b) => lemma_rgb_roundtrip(r, g, b),
        Color::Indexed(i) => lemma_indexed_roundtrip(i),
        _ => lemma_named_roundtrip(c),
    }
}

fn named_color_exec(l: &str) -> (r: Result<Color, String>)
    ensures
        match r {
            Ok(c) => named_color(l@) == Ok::<Color, Seq<char>>(c),
            Err(m) => named_color(l@) == Err::<Color, Seq<char>>(m@),
        },
{
    if same_text(l, "reset") {
        Ok(Color::Reset)
    } else if same_text(l, "black") {
        Ok(Color::Black)
    } else if same_text(l, "red") {
        Ok(Color::Red)
    } else if same_text(l, "green") {
        Ok(Color::Green)
    } else if same_text(l, "yellow") {
        Ok(Color::Yellow)
    } else if same_text(l, "blue") {
        Ok(Color::Blue)
    } else if same_text(l, "magenta") {
        Ok(Color::Magenta)
    } else if same_text(l, "cyan") {
        Ok(Color::Cyan)
    } else if same_text(l, "gray") {
        Ok(Color::Gray)
    } else if same_text(l, "darkgray") {
        Ok(Color::DarkGray)
    } else if same_text(l, "lightred") {
        Ok(Color::LightRed)
    } else if same_text(l, "lightgreen") {
        Ok(Color::LightGreen)
    } else if same_text(l, "lightyellow") {
        Ok(Color::LightYellow)
    } else if same_text(l, "lightblue") {
        Ok(Color::LightBlue)
    } else if same_text(l, "lightmagenta") {
        Ok(Color::LightMagenta)
    } else if same_text(l, "lightcyan") {
        Ok(Color::LightCyan)
    } else if same_text(l, "white") {
        Ok(Color::White)
    } else {
        let mut m = crate::text::owned("unknown color '");
        crate::text::push_str(&mut m, l);
        crate::text::push_str(&mut m, "'");
        Err(m)
    }
}

/// The text between `prefix` and a closing parenthesis.
fn enclosed_exec(n: &Vec<char>, prefix: &Vec<char>) -> (r: Option<Vec<char>>)
    ensures
        match r {
            Some(x) => enclosed(n@, prefix@) == Some(x@),
            None => enclosed(n@, prefix@) is None,
        },
{
    let pl: usize = prefix.len();
    let nl: usize = n.len();
    if nl < pl || nl - pl < 1 || n[nl - 1] != ')' {
        return None;
    }
    let mut i: usize = 0;
    while i < pl
        invariant
            pl == prefix@.len(),
            nl == n@.len(),
            pl < nl,
            i <= pl,
            forall|j: int| 0 <= j < i ==> n@[j] == prefix@[j],
        decreases pl - i,
    {
        if n[i] != prefix[i] {
            assert(n@.take(pl as int)[i as int] != prefix@[i as int]);
            return None;
        }
        i += 1;
    }
    assert(n@.take(pl as int) =~= prefix@);
    let mut out: Vec<char> = Vec::new();
    let mut k: usize = pl;
    while k < nl - 1
        invariant
            pl < nl,
            nl == n@.len(),
            pl <= k <= nl - 1,
            out@ =~= n@.subrange(pl as int, k as int),
        decreases nl - 1 - k,
    {
        out.push(n[k]);
        k += 1;
    }
    Some(out)
}

/// The trimmed pieces of a text between its commas.
fn split_trimmed(s: &Vec<char>) -> (r: Vec<Vec<char>>)
    ensures
        r@.len() == split_commas(s@).len(),
        forall|i: int| 0 <= i < r@.len() ==> (#[trigger] r@[i])@ == trim_whitespace(split_commas(s@)[i]),
{
    let mut out: Vec<Vec<char>> = Vec::new();
    let mut open: Vec<char> = Vec::new();
    let ghost mut done: Seq<Seq<char>> = Seq::empty();
    let mut i: usize = 0;
    while i < s.len()
        invariant
            i <= s@.len(),
            comma_scan(s@.take(i as int)) == (done, open@),
            out@.len() == done.len(),
            forall|j: int| 0 <= j < out@.len() ==> (#[trigger] out@[j])@ == trim_whitespace(done[j]),
        decreases s@.len() - i,
    {
        let c = s[i];
        assert(s@.take(i as int + 1).drop_last() =~= s@.take(i as int));
        if c == ',' {
            out.push(trim_chars(&open));
            proof {
                done = done.push(open@);
            }
            open = Vec::new();
            assert(open@ =~= Seq::<char>::empty());
        } else {
            open.push(c);
        }
        i += 1;
    }
    assert(s@.take(i as int) =~= s@);
    out.push(trim_chars(&open));
    out
}

fn component_exec(p: &Vec<char>) -> (r: Option<u8>)
    ensures
        r == component(p@),
{
    let text = crate::text::string_from_chars(p);
    match parse_bounded(text.as_str(), 255) {
        Some(v) => Some(v as u8),
        None => None,
    }
}

fn component_error(p: &Vec<char>) -> (r: String)
    ensures
        r@ == "invalid rgb component "@ + p@,
{
    let mut m = crate::text::owned("invalid rgb component ");
    crate::text::push_chars(&mut m, p);
    m
}

/// Reads a colour from a configuration value.
pub fn parse_color(value: &str) -> (r: Result<Color, String>)
    ensures
        match r {
            Ok(c) => spec_parse_color(value@) == Ok::<Color, Seq<char>>(c),
            Err(m) => spec_parse_color(value@) == Err::<Color, Seq<char>>(m@),
        },
{
    let n = trim_chars(&crate::text::str_chars(value));
    let rgb: Vec<char> = vec!['r', 'g', 'b', '('];
    assert(rgb@ =~= rgb_prefix());
    match enclosed_exec(&n, &rgb) {
        Some(rest) => {
            let parts = split_trimmed(&rest);
            proof {
                let sp = split_commas(rest@);
                let mapped = sp.map_values(|p: Seq<char>| trim_whitespace(p));
                assert(mapped.len() == parts@.len());
                if parts@.len() == 3 {
                    assert(mapped[0] == parts@[0]@);
                    assert(mapped[1] == parts@[1]@);
                    assert(mapped[2] == parts@[2]@);
                }
            }
            if parts.len() == 3 {
                let r = component_exec(&parts[0]);
                if r.is_none() {
                    return Err(component_error(&parts[0]));
                }
                let g = component_exec(&parts[1]);
                if g.is_none() {
                    return Err(component_error(&parts[1]));
                }
                let b = component_exec(&parts[2]);
                if b.is_none() {
                    return Err(component_error(&parts[2]));
                }
                return Ok(Color::Rgb(r.unwrap(), g.unwrap(), b.unwrap()));
            }
        },
        None => {},
    }
    let indexed: Vec<char> = vec!['i', 'n', 'd', 'e', 'x', 'e', 'd', '('];
    assert(indexed@ =~= indexed_prefix());
    match enclosed_exec(&n, &indexed) {
        Some(rest) => {
            let t = trim_chars(&rest);
            match component_exec(&t) {
                Some(i) => {
                    return Ok(Color::Indexed(i));
                },
                None => {
                    let mut m = crate::text::owned("invalid index ");
                    crate::text::push_chars(&mut m, &rest);
                    return Err(m);
                },
            }
        },
        None => {},
    }
    let text = crate::text::string_from_chars(&n);
    let lower = lowercase(text.as_str());
    named_color_exec(lower.as_str())
}

} // verus!
