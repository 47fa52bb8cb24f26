use msxterm::hex::{dump_hex, hex2u8};
use msxterm::lines::{parse_basic_line, parse_command};
use msxterm::lower::lower_program;
use msxterm::program::Msxterm;

#[test]
fn test_dump_hex() {
    let uv: Vec<u8> = [0x41, 0x51, 0x61, 0x71, 0x80, 0x81, 0x8A, 0xB3, 0xC4, 0x55].to_vec();
    let s = dump_hex(uv);
    println!("{}", s);
    assert!(s == "41 51 61 71 80 81 8A B3 C4 55 ");
}

#[test]
fn test_hex() {
    let s = "#HEX 40 41 42 43 44";
    let v = hex2u8(s);
    println!("{:?}", v);
    assert_eq!(v, vec![0x40, 0x41, 0x42, 0x43, 0x44]);
}

#[test]
fn test_msxterm() {
    let mut mt = Msxterm::new();
    mt.init();

    for s in ["1000 print 10 + 20", "100 cls", "1010 goto 1000", "20010 gosub 1000"] {
        mt.parse_basic(s);
    }
    let listed = mt.print_basic(0, 65530);
    assert_eq!(listed, vec!["100 cls", "1000 print 10 + 20", "1010 goto 1000", "20010 gosub 1000"]);

    let (st, ed) = parse_command("#list 10-20");
    println!("list {}-{}", st.unwrap_or(0), ed.unwrap_or(65530));
    assert_eq!((st, ed), (Some(10), Some(20)));

    let (st, ed) = parse_command("#list 40-");
    println!("list {}-{}", st.unwrap_or(0), ed.unwrap_or(65530));
    assert_eq!((st, ed), (Some(40), None));

    let (st, ed) = parse_command("#list -50");
    println!("list {}-{}", st.unwrap_or(0), ed.unwrap_or(65530));
    assert_eq!((st, ed), (None, Some(50)));

    let (st, ed) = parse_command("#list 50");
    println!("list {}-{}", st.unwrap_or(0), ed.unwrap_or(65530));
    assert_eq!((st, ed), (Some(50), None));
}

#[test]
fn test_parse_basic_line() {
    assert_eq!(parse_basic_line("10 PRINT \"HELLO\""), Some((10, "PRINT \"HELLO\"".to_string())));
    assert_eq!(parse_basic_line("100 FOR I=1 TO 10"), Some((100, "FOR I=1 TO 10".to_string())));
    assert_eq!(parse_basic_line("  50 CLS  "), Some((50, "CLS  ".to_string()))); // Keeping trailing spaces as in original
    assert_eq!(parse_basic_line("PRINT \"NO NUMBER\""), None);
    assert_eq!(parse_basic_line(""), None);
}

#[test]
fn test_lower_program() {
    let text = "input text \"PrintHello\"
                        REM Akio Setsumasa
                        Print A$ + B$
                        REM This Program is Free
                      END";
    println!("{}", text);
    let result = lower_program(text);
    println!("{}", result);
    assert_eq!(
        result,
        "input text \"PrintHello\"\rREM Akio Setsumasa\rprint a$ + b$\rREM This Program is Free\rend\r"
    );
}
