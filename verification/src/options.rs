//! Command-line values: colours, image sizes and the effective parameters.
use vstd::prelude::*;
use crate::text::{
    chars_of, decimal, lemma_decimal_free_of, lemma_parse_decimal, lemma_split_join_one_more,
    lemma_split_nonempty, lemma_split_single, parse_each, parse_each_u8, parse_uint,
    parse_uint_spec, split_chars, split_seq, views_of, IntErrorKind,
};

verus! {

/// Width and height of an image in pixels.
#[derive(Clone, Copy, Debug, PartialEq, Eq, Structural)]
pub struct ImageSize {
    pub x: u32,
    pub y: u32,
}

/// Why a colour argument is refused.
#[derive(Clone, Copy, Debug, PartialEq, Eq, Structural)]
pub enum RgbError {
    /// A comma-separated piece is not an integer in `0..=255`.
    InvalidInt(IntErrorKind),
    /// All pieces are integers, but there are not exactly three of them.
    WrongCount(usize),
}

/// What `<r>,<g>,<b>` means: the comma-separated pieces are read in order as
/// integers in `0..=255`, and there must be exactly three of them.
pub open spec fn rgb_spec(s: Seq<char>) -> Result<Seq<int>, RgbError> {
    match parse_each(split_seq(s, ','), 255) {
        Err(e) => Err(RgbError::InvalidInt(e)),
        Ok(vs) => if vs.len() == 3 {
            Ok(vs)
        } else {
            Err(RgbError::WrongCount(vs.len() as usize))
        },
    }
}

/// Reads a colour written `<r>,<g>,<b>`, or tells why the text is not one.
fn read_rgb(src: &str) -> (r: Result<[u8; 3], RgbError>)
    ensures
        match r {
            Ok(c) => rgb_spec(src@) == Ok::<Seq<int>, RgbError>(
                seq![c[0] as int, c[1] as int, c[2] as int],
            ),
            Err(e) => rgb_spec(src@) == Err::<Seq<int>, RgbError>(e),
        },
{
    let chars = chars_of(src);
    let pieces = split_chars(&chars, ',');
    match parse_each_u8(&pieces, 255) {
        Err(e) => Err(RgbError::InvalidInt(e)),
        Ok(vs) => {
            if vs.len() == 3 {
                let c = [vs[0], vs[1], vs[2]];
                assert(Seq::new(vs@.len(), |j: int| vs@[j] as int) =~= seq![
                    c[0] as int,
                    c[1] as int,
                    c[2] as int,
                ]);
                Ok(c)
            } else {
                Err(RgbError::WrongCount(vs.len()))
            }
        },
    }
}

/// Why a text is not a colour written `<r>,<g>,<b>`, or `None` when it is one.
pub fn rgb_error(src: &str) -> (r: Option<RgbError>)
    ensures
        r is None <==> rgb_spec(src@) is Ok,
        r matches Some(e) ==> rgb_spec(src@) == Err::<Seq<int>, RgbError>(e),
{
    match read_rgb(src) {
        Ok(_) => None,
        Err(e) => Some(e),
    }
}

/// Reads a colour written `<r>,<g>,<b>`, each component in `0..=255`.
pub fn parse_rgb(src: &str) -> (c: [u8; 3])
    requires
        rgb_spec(src@) is Ok,
    ensures
        rgb_spec(src@) == Ok::<Seq<int>, RgbError>(seq![c[0] as int, c[1] as int, c[2] as int]),
{
    match read_rgb(src) {
        Ok(c) => c,
        Err(_) => vstd::pervasive::unreached(),
    }
}

/// Why a size argument `<width>x<height>` is refused.
#[derive(Clone, Copy, Debug, PartialEq, Eq, Structural)]
pub enum SizeError {
    /// The text before the first `x` is not a `u32`.
    Width(IntErrorKind),
    /// There is no `x` at all.
    MissingHeight,
    /// The text between the first and the second `x` is not a `u32`.
    Height(IntErrorKind),
}

/// What `<width>x<height>` means: the first two `x`-separated pieces, read as `u32`
/// (the width first); anything after a second `x` is not read.
pub open spec fn size_spec(s: Seq<char>) -> Result<(int, int), SizeError> {
    let pieces = split_seq(s, 'x');
    match parse_uint_spec(pieces[0], u32::MAX as int) {
        Err(e) => Err(SizeError::Width(e)),
        Ok(w) => if pieces.len() < 2 {
            Err(SizeError::MissingHeight)
        } else {
            match parse_uint_spec(pieces[1], u32::MAX as int) {
                Err(e) => Err(SizeError::Height(e)),
                Ok(h) => Ok((w, h)),
            }
        },
    }
}

/// Reads an image size written `<width>x<height>`.
pub fn parse_size(s: &str) -> (r: Result<ImageSize, SizeError>)
    ensures
        match r {
            Ok(size) => size_spec(s@) == Ok::<(int, int), SizeError>((size.x as int, size.y as int)),
            Err(e) => size_spec(s@) == Err::<(int, int), SizeError>(e),
        },
{
    let chars = chars_of(s);
    let pieces = split_chars(&chars, 'x');
    proof { lemma_split_nonempty(chars@, 'x'); }
    assert(views_of(pieces@)[0] == pieces@[0]@);
    let x = match parse_uint(&pieces[0], u32::MAX) {
        Err(e) => return Err(SizeError::Width(e)),
        Ok(v) => v,
    };
    if pieces.len() < 2 {
        return Err(SizeError::MissingHeight);
    }
    assert(views_of(pieces@)[1] == pieces@[1]@);
    let y = match parse_uint(&pieces[1], u32::MAX) {
        Err(e) => return Err(SizeError::Height(e)),
        Ok(v) => v,
    };
    Ok(ImageSize { x, y })
}

/// The palette used when fewer than two colours are given.
pub open spec fn default_palette() -> Seq<[u8; 3]> {
    seq![[2u8, 2u8, 11u8], [255u8, 97u8, 211u8], [0u8, 166u8, 166u8], [230u8, 170u8, 104u8], [140u8, 39u8, 30u8], [187u8, 222u8, 240u8]]
}

/// The colours that take effect: the given ones when there are at least two,
/// else the default palette.
pub open spec fn effective_colours(given: Seq<[u8; 3]>) -> Seq<[u8; 3]> {
    if given.len() <= 1 {
        default_palette()
    } else {
        given
    }
}

/// The default palette, in order.
pub fn default_colours() -> (out: Vec<[u8; 3]>)
    ensures
        out@ == default_palette(),
{
    let out: Vec<[u8; 3]> = vec![
        [2, 2, 11],
        [255, 97, 211],
        [0, 166, 166],
        [230, 170, 104],
        [140, 39, 30],
        [187, 222, 240],
    ];
    assert(out@ =~= default_palette());
    out
}

/// Keeps the given colours when there are at least two, else takes the default palette.
pub fn choose_colours(given: Vec<[u8; 3]>) -> (out: Vec<[u8; 3]>)
    ensures
        out@ == effective_colours(given@),
{
    if given.len() <= 1 {
        default_colours()
    } else {
        given
    }
}

/// The text arguments of a subcommand that override the top-level options.
#[derive(Clone, Debug)]
pub enum Subcommand {
    /// Render one image: its size and output file replace the top-level ones.
    Screenshot { size: String, output: String },
    /// Render a sequence of images: its size and centre position replace the top-level ones.
    Animation { size: String, position: String },
}

/// The option values as given on the command line, before a subcommand applies.
#[derive(Clone, Debug)]
pub struct OptionValues {
    pub threads: u32,
    pub output: String,
    pub size: String,
    pub position: String,
    pub iterations: u32,
    pub colours: Vec<[u8; 3]>,
}

/// The parameters of a rendering that are not floating point.
#[derive(Clone, Debug)]
pub struct Parameters {
    pub size: ImageSize,
    pub iterations: u32,
    pub threads: u32,
    pub output: String,
    pub colours: Vec<[u8; 3]>,
}

/// The size text that takes effect under a subcommand.
pub open spec fn effective_size(opt: OptionValues, command: Option<Subcommand>) -> Seq<char> {
    match command {
        Some(Subcommand::Screenshot { size, .. }) => size@,
        Some(Subcommand::Animation { size, .. }) => size@,
        None => opt.size@,
    }
}

/// The output text that takes effect under a subcommand.
pub open spec fn effective_output(opt: OptionValues, command: Option<Subcommand>) -> Seq<char> {
    match command {
        Some(Subcommand::Screenshot { output, .. }) => output@,
        _ => opt.output@,
    }
}

/// The position text that takes effect under a subcommand.
pub open spec fn effective_position(opt: OptionValues, command: Option<Subcommand>) -> Seq<char> {
    match command {
        Some(Subcommand::Animation { position, .. }) => position@,
        _ => opt.position@,
    }
}

/// Applies the subcommand's overrides, picks the colours and reads the size.
/// Returns the parameters and the position text that takes effect (its two
/// comma-separated numbers are floating point and are read by the caller).
pub fn resolve_options(opt: OptionValues, command: &Option<Subcommand>) -> (r: (
    Parameters,
    String,
))
    requires
        size_spec(effective_size(opt, *command)) is Ok,
    ensures
        size_spec(effective_size(opt, *command)) == Ok::<(int, int), SizeError>(
            (r.0.size.x as int, r.0.size.y as int),
        ),
        r.0.output@ == effective_output(opt, *command),
        r.1@ == effective_position(opt, *command),
        r.0.iterations == opt.iterations,
        r.0.threads == opt.threads,
        r.0.colours@ == effective_colours(opt.colours@),
{
    let OptionValues { threads, output, size, position, iterations, colours } = opt;
    let (size, output, position) = match command {
        Some(Subcommand::Screenshot { size: s, output: o }) => (s.clone(), o.clone(), position),
        Some(Subcommand::Animation { size: s, position: p }) => (s.clone(), output, p.clone()),
        None => (size, output, position),
    };
    let colours = choose_colours(colours);
    let size = match parse_size(size.as_str()) {
        Ok(size) => size,
        Err(_) => vstd::pervasive::unreached(),
    };
    (Parameters { size, iterations, threads, output, colours }, position)
}

/// Why the size text that takes effect under the subcommand is refused, or `None`
/// when it is a size.
pub fn options_error(opt: &OptionValues, command: &Option<Subcommand>) -> (r: Option<SizeError>)
    ensures
        r is None <==> size_spec(effective_size(*opt, *command)) is Ok,
        r matches Some(e) ==> size_spec(effective_size(*opt, *command)) == Err::<(int, int), SizeError>(e),
{
    let size: &str = match command {
        Some(Subcommand::Screenshot { size: s, .. }) => s.as_str(),
        Some(Subcommand::Animation { size: s, .. }) => s.as_str(),
        None => opt.size.as_str(),
    };
    match parse_size(size) {
        Ok(_) => None,
        Err(e) => Some(e),
    }
}

/// The documented colour format: any colour written `<r>,<g>,<b>` in decimal is read back exactly.
pub proof fn law_rgb_format_read_back(r: u8, g: u8, b: u8)
    ensures
        rgb_spec(
            decimal(r as nat).push(',') + decimal(g as nat)
                + seq![','] + decimal(b as nat),
        ) == Ok::<Seq<int>, RgbError>(seq![r as int, g as int, b as int]),
{
    let dr = decimal(r as nat);
    let dg = decimal(g as nat);
    let db = decimal(b as nat);
    lemma_decimal_free_of(r as nat, ',');
    lemma_decimal_free_of(g as nat, ',');
    lemma_decimal_free_of(b as nat, ',');
    lemma_split_single(dr, ',');
    lemma_split_join_one_more(dr, dg, ',');
    let s2 = dr.push(',') + dg;
    lemma_split_join_one_more(s2, db, ',');
    assert(dr.push(',') + dg + seq![','] + db =~= s2.push(',') + db);
    let pieces = seq![dr, dg, db];
    assert(split_seq(s2.push(',') + db, ',') =~= pieces);
    lemma_parse_decimal(r as nat, 255);
    lemma_parse_decimal(g as nat, 255);
    lemma_parse_decimal(b as nat, 255);
    assert(pieces.drop_last() =~= seq![dr, dg]);
    assert(seq![dr, dg].drop_last() =~= seq![dr]);
    assert(seq![dr].drop_last() =~= Seq::<Seq<char>>::empty());
    assert(parse_each(seq![dr], 255) == Ok::<Seq<int>, IntErrorKind>(seq![r as int])) by {
        assert(parse_each(Seq::<Seq<char>>::empty(), 255) == Ok::<Seq<int>, IntErrorKind>(Seq::<int>::empty()));
        assert(Seq::<int>::empty().push(r as int) =~= seq![r as int]);
    }
    assert(parse_each(seq![dr, dg], 255) == Ok::<Seq<int>, IntErrorKind>(seq![r as int, g as int])) by {
        assert(seq![r as int].push(g as int) =~= seq![r as int, g as int]);
    }
    assert(parse_each(pieces, 255) == Ok::<Seq<int>, IntErrorKind>(seq![r as int, g as int, b as int])) by {
        assert(seq![r as int, g as int].push(b as int) =~= seq![r as int, g as int, b as int]);
    }
}

/// The documented size format: any size written `<width>x<height>` in decimal is read back exactly.
pub proof fn law_size_format_read_back(w: u32, h: u32)
    ensures
        size_spec(decimal(w as nat).push('x') + decimal(h as nat))
            == Ok::<(int, int), SizeError>((w as int, h as int)),
{
    let dw = decimal(w as nat);
    let dh = decimal(h as nat);
    lemma_decimal_free_of(w as nat, 'x');
    lemma_decimal_free_of(h as nat, 'x');
    lemma_split_single(dw, 'x');
    lemma_split_join_one_more(dw, dh, 'x');
    assert(seq![dw].push(dh) =~= seq![dw, dh]);
    lemma_parse_decimal(w as nat, u32::MAX as int);
    lemma_parse_decimal(h as nat, u32::MAX as int);
}

/// At least two colours always take effect, and two or more given colours are kept as given.
pub proof fn law_colours_take_effect(given: Seq<[u8; 3]>)
    ensures
        effective_colours(given).len() >= 2,
        given.len() >= 2 ==> effective_colours(given) == given,
{
}

/// With fewer than two colours given, exactly the default palette takes effect:
/// `[2,2,11]`, `[255,97,211]`, `[0,166,166]`, `[230,170,104]`, `[140,39,30]`, `[187,222,240]`,
/// in that order; with two or more, exactly the given colours.
pub proof fn law_palette_when_too_few(given: Seq<[u8; 3]>)
    ensures
        given.len() <= 1 ==> effective_colours(given) == seq![
            [2u8, 2u8, 11u8],
            [255u8, 97u8, 211u8],
            [0u8, 166u8, 166u8],
            [230u8, 170u8, 104u8],
            [140u8, 39u8, 30u8],
            [187u8, 222u8, 240u8],
        ],
        given.len() >= 2 ==> effective_colours(given) == given,
{
}

} // verus!
