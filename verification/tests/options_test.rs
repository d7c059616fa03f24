use daedal::options::{
    choose_colours, default_colours, options_error, parse_rgb, parse_size, resolve_options,
    rgb_error, ImageSize, OptionValues, RgbError, SizeError, Subcommand,
};
use daedal::text::{chars_of, parse_uint, split_chars, IntErrorKind};

fn chars(s: &str) -> Vec<char> {
    s.chars().collect()
}

#[test]
fn rgb_examples_from_the_docs() {
    assert_eq!(rgb_error("10,2,4"), None);
    assert_eq!(parse_rgb("10,2,4"), [10, 2, 4]);
    assert_eq!(rgb_error("255,0,255"), None);
    assert_eq!(parse_rgb("255,0,255"), [255, 0, 255]);
    assert_eq!(rgb_error("0,0,0"), None);
    assert_eq!(parse_rgb("0,0,0"), [0, 0, 0]);
}

#[test]
fn rgb_plus_sign_and_leading_zeros() {
    assert_eq!(rgb_error("+1,007,255"), None);
    assert_eq!(parse_rgb("+1,007,255"), [1, 7, 255]);
}

#[test]
fn rgb_invalid_digit() {
    assert_eq!(rgb_error("1,x,3"), Some(RgbError::InvalidInt(IntErrorKind::InvalidDigit)));
    assert_eq!(rgb_error("10, 2, 4"), Some(RgbError::InvalidInt(IntErrorKind::InvalidDigit)));
    assert_eq!(rgb_error("1, 2,3"), Some(RgbError::InvalidInt(IntErrorKind::InvalidDigit)));
    assert_eq!(rgb_error("-1,2,3"), Some(RgbError::InvalidInt(IntErrorKind::InvalidDigit)));
    assert_eq!(rgb_error("+,2,3"), Some(RgbError::InvalidInt(IntErrorKind::InvalidDigit)));
}

#[test]
fn rgb_overflow() {
    assert_eq!(rgb_error("256,0,0"), Some(RgbError::InvalidInt(IntErrorKind::PosOverflow)));
    // the overflow is met before the stray letter
    assert_eq!(rgb_error("0,999x,0"), Some(RgbError::InvalidInt(IntErrorKind::PosOverflow)));
}

#[test]
fn rgb_empty_piece() {
    assert_eq!(rgb_error(""), Some(RgbError::InvalidInt(IntErrorKind::Empty)));
    assert_eq!(rgb_error("1,,3"), Some(RgbError::InvalidInt(IntErrorKind::Empty)));
}

#[test]
fn rgb_wrong_count() {
    assert_eq!(rgb_error("1,2"), Some(RgbError::WrongCount(2)));
    assert_eq!(rgb_error("1,2,3,4"), Some(RgbError::WrongCount(4)));
    assert_eq!(rgb_error("7"), Some(RgbError::WrongCount(1)));
}

#[test]
fn rgb_first_failure_wins() {
    // a bad piece is reported before the count is looked at
    assert_eq!(rgb_error("1,2,3,z"), Some(RgbError::InvalidInt(IntErrorKind::InvalidDigit)));
    assert_eq!(rgb_error("300,z"), Some(RgbError::InvalidInt(IntErrorKind::PosOverflow)));
}

#[test]
fn rgb_read_back_of_every_written_colour() {
    for r in [0u8, 1, 9, 10, 99, 100, 254, 255] {
        for g in [0u8, 37, 255] {
            for b in [0u8, 128, 255] {
                let text = format!("{r},{g},{b}");
                assert_eq!(rgb_error(&text), None);
                assert_eq!(parse_rgb(&text), [r, g, b]);
            }
        }
    }
}

#[test]
fn size_default() {
    assert_eq!(parse_size("400x400"), Ok(ImageSize { x: 400, y: 400 }));
    assert_eq!(parse_size("1920x1080"), Ok(ImageSize { x: 1920, y: 1080 }));
}

#[test]
fn size_read_back() {
    for (w, h) in [(0u32, 0u32), (1, 2), (u32::MAX, 7), (640, u32::MAX)] {
        assert_eq!(parse_size(&format!("{w}x{h}")), Ok(ImageSize { x: w, y: h }));
    }
}

#[test]
fn size_extra_pieces_ignored() {
    assert_eq!(parse_size("3x4x5"), Ok(ImageSize { x: 3, y: 4 }));
    assert_eq!(parse_size("3x4xjunk"), Ok(ImageSize { x: 3, y: 4 }));
}

#[test]
fn size_errors() {
    assert_eq!(parse_size("400"), Err(SizeError::MissingHeight));
    assert_eq!(parse_size("ax400"), Err(SizeError::Width(IntErrorKind::InvalidDigit)));
    assert_eq!(parse_size("x400"), Err(SizeError::Width(IntErrorKind::Empty)));
    assert_eq!(parse_size("400x"), Err(SizeError::Height(IntErrorKind::Empty)));
    assert_eq!(parse_size("400x4294967296"), Err(SizeError::Height(IntErrorKind::PosOverflow)));
    assert_eq!(parse_size("4294967296x1"), Err(SizeError::Width(IntErrorKind::PosOverflow)));
    // the width is read before the missing height is noticed
    assert_eq!(parse_size("abc"), Err(SizeError::Width(IntErrorKind::InvalidDigit)));
}

#[test]
fn uint_parsing() {
    assert_eq!(parse_uint(&chars("255"), 255), Ok(255));
    assert_eq!(parse_uint(&chars("256"), 255), Err(IntErrorKind::PosOverflow));
    assert_eq!(parse_uint(&chars("+"), 255), Err(IntErrorKind::InvalidDigit));
    assert_eq!(parse_uint(&chars(""), 255), Err(IntErrorKind::Empty));
    assert_eq!(parse_uint(&chars("25x"), 255), Err(IntErrorKind::InvalidDigit));
    assert_eq!(parse_uint(&chars("4294967295"), u32::MAX), Ok(u32::MAX));
}

#[test]
fn splitting() {
    assert_eq!(chars_of("a,b"), vec!['a', ',', 'b']);
    assert_eq!(split_chars(&chars("a,,b"), ','), vec![vec!['a'], vec![], vec!['b']]);
    assert_eq!(split_chars(&chars(""), ','), vec![Vec::<char>::new()]);
    assert_eq!(split_chars(&chars(",-0.45,0.0,"), ','), vec![vec![], chars("-0.45"), chars("0.0"), vec![]]);
}

#[test]
fn colours_default_when_fewer_than_two() {
    let palette = vec![[2, 2, 11], [255, 97, 211], [0, 166, 166], [230, 170, 104], [140, 39, 30], [187, 222, 240]];
    assert_eq!(default_colours(), palette);
    assert_eq!(choose_colours(vec![[0, 0, 0]]), palette);
    assert_eq!(choose_colours(vec![]), palette);
    assert_eq!(choose_colours(vec![[1, 2, 3], [4, 5, 6]]), vec![[1, 2, 3], [4, 5, 6]]);
}

fn values() -> OptionValues {
    OptionValues {
        threads: 64,
        output: "fractal.png".to_string(),
        size: "400x400".to_string(),
        position: "-0.45,0.0".to_string(),
        iterations: 255,
        colours: vec![[0, 0, 0]],
    }
}

#[test]
fn resolve_without_subcommand() {
    assert_eq!(options_error(&values(), &None), None);
    let (p, position) = resolve_options(values(), &None);
    assert_eq!(p.size, ImageSize { x: 400, y: 400 });
    assert_eq!(p.output, "fractal.png");
    assert_eq!(position, "-0.45,0.0");
    assert_eq!(p.iterations, 255);
    assert_eq!(p.threads, 64);
    assert_eq!(p.colours, default_colours());
}

#[test]
fn resolve_screenshot() {
    let cmd = Some(Subcommand::Screenshot { size: "800x600".to_string(), output: "shot.png".to_string() });
    let mut v = values();
    v.colours = vec![[1, 1, 1], [2, 2, 2]];
    assert_eq!(options_error(&v, &cmd), None);
    let (p, position) = resolve_options(v, &cmd);
    assert_eq!(p.size, ImageSize { x: 800, y: 600 });
    assert_eq!(p.output, "shot.png");
    assert_eq!(position, "-0.45,0.0");
    assert_eq!(p.colours, vec![[1, 1, 1], [2, 2, 2]]);
}

#[test]
fn resolve_animation() {
    let cmd = Some(Subcommand::Animation { size: "10x20".to_string(), position: "0.1,0.2".to_string() });
    assert_eq!(options_error(&values(), &cmd), None);
    let (p, position) = resolve_options(values(), &cmd);
    assert_eq!(p.size, ImageSize { x: 10, y: 20 });
    assert_eq!(p.output, "fractal.png");
    assert_eq!(position, "0.1,0.2");
}

#[test]
fn resolve_bad_size() {
    let cmd = Some(Subcommand::Animation { size: "10by20".to_string(), position: "0,0".to_string() });
    assert_eq!(options_error(&values(), &cmd), Some(SizeError::Width(IntErrorKind::InvalidDigit)));
    let mut v = values();
    v.size = "10".to_string();
    assert_eq!(options_error(&v, &None), Some(SizeError::MissingHeight));
    v.size = "400x".to_string();
    assert_eq!(options_error(&v, &None), Some(SizeError::Height(IntErrorKind::Empty)));
}
