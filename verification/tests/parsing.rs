use mandelbrot::parse_complex as pc;
use mandelbrot::parse_pair as pp;
use mandelbrot::parse_dimensions;
use mandelbrot::parse_usize;
use mandelbrot::split_at_separator;
use mandelbrot::Complex;
use mandelbrot::ImageBounds;

#[test]
fn parse_pair() {
    assert_eq!(pp::<i32>("", ','), None);
    assert_eq!(pp::<u32>("10", 'x'), None);
    assert_eq!(pp::<u32>("10x20", ','), None);
    assert_eq!(pp::<f64>("400.0x", 'x'), None);
    assert_eq!(pp::<u32>("10,20", ','), Some((10u32, 20u32)));
    assert_eq!(pp::<u32>("400x600", 'x'), Some((400u32, 600u32)));
    assert_eq!(pp::<f64>("400.0x600.5", 'x'), Some((400.0f64, 600.5f64)));
}

#[test]
fn parse_complex() {
    assert_eq!(pc::<f64>("1.25,-0.0625"), Some(Complex::new(1.25, -0.0625)));
    assert_eq!(pc::<f64>("0.0,0.0"), Some(Complex::new(0.0, 0.0)));
    assert_eq!(pc::<f64>(",-1.0256"), None);
}

#[test]
fn parse_pair_leading_empty_field() {
    assert_eq!(pp::<i32>(",10", ','), None);
    assert_eq!(pp::<f64>("x600.5", 'x'), None);
}

#[test]
fn split_at_first_separator() {
    assert_eq!(split_at_separator("10,20", ','), Some(("10", "20")));
    assert_eq!(split_at_separator("abc", ','), None);
    assert_eq!(split_at_separator(",x", ','), Some(("", "x")));
    assert_eq!(split_at_separator("a,b,c", ','), Some(("a", "b,c")));
    assert_eq!(split_at_separator("", 'x'), None);
}

#[test]
fn parse_usize_numerals() {
    assert_eq!(parse_usize("42"), Some(42));
    assert_eq!(parse_usize("+7"), Some(7));
    assert_eq!(parse_usize("007"), Some(7));
    assert_eq!(parse_usize("0"), Some(0));
    assert_eq!(parse_usize(""), None);
    assert_eq!(parse_usize("+"), None);
    assert_eq!(parse_usize("4a2"), None);
    assert_eq!(parse_usize("-4"), None);
    assert_eq!(parse_usize(" 4"), None);
    assert_eq!(parse_usize("99999999999999999999999999999999"), None);
}

#[test]
fn parse_usize_matches_from_str() {
    for s in ["42", "+7", "007", "0", "", "+", "4a2", "-4", " 4", "18446744073709551615"] {
        assert_eq!(parse_usize(s), s.parse::<usize>().ok());
    }
}

#[test]
fn parse_dimensions_accepts_well_formed_bounds() {
    assert_eq!(
        parse_dimensions("400x600"),
        Some(ImageBounds { width: 400, height: 600 })
    );
    assert_eq!(
        parse_dimensions("4000x3000"),
        Some(ImageBounds { width: 4000, height: 3000 })
    );
    assert_eq!(parse_dimensions("0x600"), None);
    assert_eq!(parse_dimensions("400x0"), None);
    assert_eq!(parse_dimensions("400x"), None);
    assert_eq!(parse_dimensions("x600"), None);
    assert_eq!(parse_dimensions("400,600"), None);
    assert_eq!(parse_dimensions("400.0x600.5"), None);
}
