use ab_av1::ssim_parser::{
    parse_db_float, parse_decimal, parse_float, parse_input, parse_ssim_stdout_line,
    SsimFrameData,
};

fn split_decimal(input: &[u8]) -> (&[u8], &[u8]) {
    let n = parse_decimal(input);
    (&input[n..], &input[..n])
}

fn split_float(input: &[u8]) -> (&[u8], &[u8]) {
    let n = parse_float(input);
    (&input[n..], &input[..n])
}

fn split_db_float(input: &[u8]) -> Option<(&[u8], &[u8])> {
    parse_db_float(input).map(|(c, a, b)| (&input[c..], &input[a..b]))
}

fn parsed_frame(input: &[u8]) -> Option<(&[u8], u32, f32, f32, f32, f32)> {
    SsimFrameData::parse(input).map(|(consumed, fd)| {
        let field = |v: &Vec<u8>| -> f32 {
            std::str::from_utf8(v).unwrap().parse().unwrap()
        };
        (
            &input[consumed..],
            fd.frame,
            field(&fd.y),
            field(&fd.u),
            field(&fd.v),
            field(&fd.all),
        )
    })
}

#[test]
fn test_parse_decimal() {
    assert_eq!(
        split_decimal("123 ".as_bytes()),
        (" ".as_bytes(), "123".as_bytes())
    );
    assert_eq!(
        split_decimal("  123 ".as_bytes()),
        ("  123 ".as_bytes(), "".as_bytes())
    );
    assert_eq!(
        split_decimal("    123    ".as_bytes()),
        ("    123    ".as_bytes(), "".as_bytes())
    );
    assert_eq!(
        split_decimal("123    ".as_bytes()),
        ("    ".as_bytes(), "123".as_bytes())
    );
    assert_eq!(
        split_decimal("123.5 ".as_bytes()),
        (".5 ".as_bytes(), "123".as_bytes())
    );
}

#[test]
fn test_parse_float() {
    assert_eq!(
        split_float("123 ".as_bytes()),
        (" ".as_bytes(), "123".as_bytes())
    );
    assert_eq!(
        split_float("  123 ".as_bytes()),
        ("  123 ".as_bytes(), "".as_bytes())
    );
    assert_eq!(
        split_float("    123    ".as_bytes()),
        ("    123    ".as_bytes(), "".as_bytes())
    );
    assert_eq!(
        split_float("123    ".as_bytes()),
        ("    ".as_bytes(), "123".as_bytes())
    );
    assert_eq!(
        split_float("123.5 ".as_bytes()),
        (" ".as_bytes(), "123.5".as_bytes())
    );
}

#[test]
fn test_parse_db_float() {
    assert_eq!(
        split_db_float("(123.5) ".as_bytes()),
        Some((" ".as_bytes(), "123.5".as_bytes()))
    );
    assert_ne!(
        split_db_float("  (123.5) ".as_bytes()),
        Some(("   ".as_bytes(), "123.5".as_bytes()))
    );
    assert_ne!(
        split_db_float("    (123.5)    ".as_bytes()),
        Some(("        ".as_bytes(), "123.5".as_bytes()))
    );
    assert_eq!(
        split_db_float("(123.5)    ".as_bytes()),
        Some(("    ".as_bytes(), "123.5".as_bytes()))
    );
    assert_eq!(
        split_db_float("(123.5) ".as_bytes()),
        Some((" ".as_bytes(), "123.5".as_bytes()))
    );
}

#[test]
fn test_parse_ssim_line() {
    assert_eq!(
        parsed_frame("n:5 Y:1.000000 U:1.000000 V:1.000000 All:1.000000 (inf)".as_bytes()),
        Some(("".as_bytes(), 5, 1.0, 1.0, 1.0, 1.0))
    );
    assert_eq!(
        parsed_frame(
            "n:1 Y:0.973668 U:0.996946 V:0.997587 All:0.981534 (17.336255)".as_bytes()
        ),
        Some(("".as_bytes(), 1, 0.973668, 0.996946, 0.997587, 0.981534))
    );
    assert_eq!(
        parsed_frame(
            "n:19 Y:0.950286 U:0.956044 V:0.977148 All:0.955723 (13.538213)".as_bytes()
        ),
        Some(("".as_bytes(), 19, 0.950286, 0.956044, 0.977148, 0.955723))
    );
    assert_eq!(
        parsed_frame(
            "n:403 Y:0.966575 U:0.990617 V:0.990982 All:0.974650 (15.960166)".as_bytes()
        ),
        Some(("".as_bytes(), 403, 0.966575, 0.990617, 0.990982, 0.974650))
    );
    assert_eq!(
        parsed_frame(
            "n:4470 Y:0.955137 U:0.954697 V:0.979000 All:0.959041 (13.876490)".as_bytes()
        ),
        Some(("".as_bytes(), 4470, 0.955137, 0.954697, 0.979000, 0.959041))
    );
    assert_eq!(
        parsed_frame(
            "n:14501 Y:0.966370 U:0.990612 V:0.990885 All:0.974497 (15.934016)".as_bytes()
        ),
        Some(("".as_bytes(), 14501, 0.966370, 0.990612, 0.990885, 0.974497))
    );
    assert_eq!(
        parsed_frame(
            "n:200911 Y:0.936951 U:0.924235 V:0.969651 All:0.940282 (12.238937)".as_bytes()
        ),
        Some(("".as_bytes(), 200911, 0.936951, 0.924235, 0.969651, 0.940282))
    );
}

#[test]
fn test_parse_ssim_stdout_line() {
    let input = "[Parsed_ssim_0 @ 0x600001174000] SSIM Y:0.960646 (14.050117) U:0.950001 (13.010355) V:0.983888 (17.928428) All:0.962745 (14.288204)".as_bytes();
    let (consumed, fd) = parse_ssim_stdout_line(input).unwrap();
    assert_eq!(&input[consumed..], " (14.288204)".as_bytes());
    assert_eq!(fd.frame, 0);
    let field =
        |v: &Vec<u8>| -> f32 { std::str::from_utf8(v).unwrap().parse().unwrap() };
    assert_eq!(field(&fd.y), 0.960646);
    assert_eq!(field(&fd.u), 0.950001);
    assert_eq!(field(&fd.v), 0.983888);
    assert_eq!(field(&fd.all), 0.962745);
}

#[test]
fn parse_input_collects_every_line() {
    let input = "n:1 Y:0.973668 U:0.996946 V:0.997587 All:0.981534 (17.336255)\n\
                 n:2 Y:0.957887 U:0.954501 V:0.971946 All:0.959666 (13.938661)\n\
                 n:3 Y:0.968484 U:0.970053 V:0.975606 All:0.969932 (15.217608)\n";
    let frames = parse_input(input.as_bytes());
    assert_eq!(frames.len(), 3);
    assert_eq!(frames[0].frame, 1);
    assert_eq!(frames[1].frame, 2);
    assert_eq!(frames[2].frame, 3);
    assert_eq!(std::str::from_utf8(&frames[1].y).unwrap(), "0.957887");
    assert_eq!(std::str::from_utf8(&frames[2].all).unwrap(), "0.969932");
}

#[test]
fn parse_input_stops_at_first_bad_line() {
    let input = "n:1 Y:0.9 U:0.9 V:0.9 All:0.9 (17.3)\nnot a stats line";
    let frames = parse_input(input.as_bytes());
    assert_eq!(frames.len(), 1);
    assert_eq!(frames[0].frame, 1);
}
