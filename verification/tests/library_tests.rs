use msxterm::console::{
    classify_input, file_argument, renum_command, split_input_lines, InputCommand,
};
use msxterm::hex::{dump_hex, hex2u8};
use msxterm::lines::{parse_basic_line, parse_command};
use msxterm::lower::lower_program;
use msxterm::program::Msxterm;
use msxterm::receive::{Command, ReceiveState};

// --- hexadecimal ---------------------------------------------------------

#[test]
fn hex_line_of_a_dump_reads_back() {
    let v: Vec<u8> = vec![0x00, 0x0f, 0x10, 0x7f, 0x80, 0xff];
    let line = format!("#hex {}", dump_hex(v.clone()));
    assert_eq!(hex2u8(&line), v);
}

#[test]
fn dump_takes_three_characters_per_byte() {
    assert_eq!(dump_hex(vec![]), "");
    assert_eq!(dump_hex(vec![0x0a, 0xbc]), "0A BC ");
}

#[test]
fn hex_skips_tokens_that_are_not_bytes() {
    assert_eq!(hex2u8("#hex 1 zz 100 +7f ff  a"), vec![0x01, 0x7f, 0xff, 0x0a]);
    assert_eq!(hex2u8("#hex"), Vec::<u8>::new());
    assert_eq!(hex2u8("#hex -1 + FF"), vec![0xff]);
}

// --- numbered lines --------------------------------------------------------

#[test]
fn parse_basic_line_edges() {
    assert_eq!(parse_basic_line("65535 END"), Some((65535, "END".to_string())));
    assert_eq!(parse_basic_line("65536 END"), None);
    assert_eq!(parse_basic_line("+7 END"), Some((7, "END".to_string())));
    assert_eq!(parse_basic_line("10"), None);
    assert_eq!(parse_basic_line("\u{3000}20 X"), Some((20, "X".to_string())));
    assert_eq!(parse_basic_line("30 "), Some((30, "".to_string())));
}

#[test]
fn parse_command_edges() {
    assert_eq!(parse_command("#list"), (None, None));
    assert_eq!(parse_command("  #list 1-2-3  "), (Some(1), Some(2)));
    assert_eq!(parse_command("#list  10"), (None, None));
    assert_eq!(parse_command("#list x-70000"), (None, None));
}

// --- program buffer --------------------------------------------------------

#[test]
fn entered_line_is_listed_trimmed() {
    let mut mt = Msxterm::new();
    mt.parse_basic("20 print   \"a\"  ");
    assert_eq!(mt.print_basic(20, 20), vec!["20 print   \"a\""]);
    assert_eq!(mt.print_basic(21, 100), Vec::<String>::new());
}

#[test]
fn number_alone_deletes() {
    let mut mt = Msxterm::new();
    mt.parse_basic("10 cls");
    mt.parse_basic("20 end");
    mt.parse_basic("10");
    assert_eq!(mt.print_basic(0, 65535), vec!["20 end"]);
    mt.parse_basic("hello world");
    mt.parse_basic("99999 x");
    assert_eq!(mt.print_basic(0, 65535), vec!["20 end"]);
}

#[test]
fn listing_is_ordered_and_bounded() {
    let mut mt = Msxterm::new();
    for l in ["30 c", "10 a", "20 b", "65535 z", "0 zero"] {
        mt.parse_basic(l);
    }
    assert_eq!(mt.print_basic(10, 30), vec!["10 a", "20 b", "30 c"]);
    assert_eq!(mt.print_basic(0, 65535).len(), 5);
}

#[test]
fn listed_line_reads_back() {
    let mut mt = Msxterm::new();
    mt.parse_basic("120 PRINT \"HI\"");
    let lines = mt.print_basic(0, 65535);
    assert_eq!(parse_basic_line(&lines[0]), Some((120, "PRINT \"HI\"".to_string())));
}

#[test]
fn clear_empties() {
    let mut mt = Msxterm::new();
    mt.parse_basic("10 a");
    mt.clear_basic();
    assert_eq!(mt.print_basic(0, 65535), Vec::<String>::new());
    // an empty program lists nothing even for a reversed range
    assert_eq!(mt.print_basic(5, 1), Vec::<String>::new());
}

#[test]
fn init_registers_list_help() {
    let mut mt = Msxterm::new();
    mt.init();
    assert_eq!(mt.t_com.len(), 1);
    assert_eq!(mt.t_com[0].0, "#list");
    assert_eq!(mt.t_com[0].1, "list Program");
}

#[test]
fn save_text_lists_every_line() {
    let mut mt = Msxterm::new();
    mt.parse_basic("20 b");
    mt.parse_basic("10 a");
    assert_eq!(mt.save_text(), "10 a\n20 b\n");
}

#[test]
fn list_lines_pad_and_colour() {
    let mut mt = Msxterm::new();
    mt.parse_basic("5 a");
    mt.parse_basic("100 b");
    mt.parse_basic("65535 hidden");
    let lines = mt.list_lines();
    assert_eq!(lines.len(), 2);
    assert_eq!(lines[0].0, "    \x1b[36m5\x1b[0m a");
    assert_eq!(lines[0].1, "5 a");
    assert_eq!(lines[1].0, "  \x1b[36m100\x1b[0m b");
    assert_eq!(lines[1].1, "100 b");
}

#[test]
fn load_program_enters_and_joins() {
    let mut mt = Msxterm::new();
    let (text, history) = mt.load_program(&vec!["  10 PRINT 1  ".to_string(), "20 END".to_string()]);
    assert_eq!(text, "10 PRINT 1\r20 END\r");
    assert_eq!(history, vec!["10 PRINT 1", "20 END"]);
    assert_eq!(mt.print_basic(0, 65535), vec!["10 PRINT 1", "20 END"]);
    mt.lower_mode = true;
    let (text, _) = mt.load_program(&vec!["30 PRINT \"A\"".to_string()]);
    assert_eq!(text, "30 print \"A\"\r");
}

#[test]
fn prepare_send_enters_and_lowers() {
    let mut mt = Msxterm::new();
    assert_eq!(mt.prepare_send("10 CLS"), "10 CLS\r");
    mt.lower_mode = true;
    assert_eq!(mt.prepare_send("20 GOTO 10"), "20 goto 10\r");
    assert_eq!(mt.print_basic(0, 65535), vec!["10 CLS", "20 GOTO 10"]);
}

// --- lower-case sending ----------------------------------------------------

#[test]
fn lower_keeps_quotes_across_lines() {
    assert_eq!(lower_program("PRINT \"A\nB\" C\r\n"), "print \"A\rB\" c\r");
    assert_eq!(lower_program(""), "");
    assert_eq!(lower_program("\n"), "\r");
    assert_eq!(lower_program("  Rem HELLO  "), "Rem HELLO\r");
    assert_eq!(lower_program("ÄB"), "äb\r");
}

// --- console ---------------------------------------------------------------

#[test]
fn classify_console_lines() {
    assert_eq!(classify_input("#quit"), InputCommand::Quit);
    assert_eq!(classify_input("#hex 41"), InputCommand::Hex);
    assert_eq!(classify_input("#dump_on"), InputCommand::DumpOn);
    assert_eq!(classify_input("#dump_off"), InputCommand::DumpOff);
    assert_eq!(classify_input("#lowsend_on"), InputCommand::LowSendOn);
    assert_eq!(classify_input("#lowsend_off"), InputCommand::LowSendOff);
    assert_eq!(classify_input("#kanji_on"), InputCommand::KanjiOn);
    assert_eq!(classify_input("#kanji_off"), InputCommand::KanjiOff);
    assert_eq!(classify_input("#emacs"), InputCommand::Emacs);
    assert_eq!(classify_input("#vi"), InputCommand::Vi);
    assert_eq!(classify_input("#clear_history"), InputCommand::ClearHistory);
    assert_eq!(classify_input("#new"), InputCommand::New);
    assert_eq!(classify_input("#load a.bas"), InputCommand::Load);
    assert_eq!(classify_input("#list 10-20"), InputCommand::List);
    assert_eq!(classify_input("#reload_from"), InputCommand::ReloadFrom);
    assert_eq!(classify_input("#renum 100,10"), InputCommand::Renum);
    assert_eq!(classify_input("#save a.bas"), InputCommand::Save);
    assert_eq!(classify_input("10 PRINT"), InputCommand::Basic);
    assert_eq!(classify_input(" #quit"), InputCommand::Basic);
}

#[test]
fn split_typed_text_into_lines() {
    assert_eq!(split_input_lines("a\r\nb\nc\rd"), vec!["a", "b", "c", "d"]);
    assert_eq!(split_input_lines(""), vec![""]);
    assert_eq!(split_input_lines("x\n"), vec!["x", ""]);
    assert_eq!(split_input_lines("\r\r\n"), vec!["", "", ""]);
}

#[test]
fn renum_command_text() {
    assert_eq!(renum_command("#renum"), "renum\r");
    assert_eq!(renum_command("#renum   "), "renum\r");
    assert_eq!(renum_command("#renum 100,10 "), "renum 100,10\r");
}

#[test]
fn file_argument_strips_quotes() {
    assert_eq!(file_argument("#load \"prog.bas\""), "prog.bas");
    assert_eq!(file_argument("#save a.bas extra"), "a.bas");
    assert_eq!(file_argument("#load \"\"\"x\"\""), "x");
}

// --- receiving -------------------------------------------------------------

#[test]
fn plain_mode_prints_received_text() {
    let mut rx = ReceiveState::new();
    let mut mt = Msxterm::new();
    let out = rx.receive_text(&mut mt, "Ok\r\n");
    assert_eq!(out.printed, Some("Ok\r\n".to_string()));
    assert_eq!(out.console, None);
    assert_eq!(out.send, None);
}

#[test]
fn dump_mode_prints_hex() {
    let mut rx = ReceiveState::new();
    let mut mt = Msxterm::new();
    rx.apply(Command::DumpModeOn);
    let out = rx.receive(&mut mt, vec![0x4f, 0x6b, 0x0d, 0x0a], "Ok\r\n");
    assert_eq!(out.printed, Some("4F 6B 0D 0A ".to_string()));
    rx.apply(Command::DumpModeOff);
    let out = rx.receive(&mut mt, vec![0x4f, 0x6b], "Ok");
    assert_eq!(out.printed, Some("Ok".to_string()));
}

#[test]
fn reload_reads_listing_back() {
    let mut rx = ReceiveState::new();
    let mut mt = Msxterm::new();
    mt.parse_basic("5 OLD");
    mt.clear_basic();
    rx.apply(Command::ReloadFromStart);
    let out = rx.receive_text(&mut mt, "list\r\n");
    assert_eq!(out.printed, Some("list\r\n".to_string()));
    let out = rx.receive_text(&mut mt, "10 \x1b[32mPRINT\x1b[0m \"A\"\r\n");
    assert_eq!(out.printed, Some("10 PRINT \"A\"".to_string()));
    let out = rx.receive_text(&mut mt, "20 END\r\n");
    assert_eq!(out.printed, Some("20 END".to_string()));
    assert!(rx.has_received_program_lines);
    let out = rx.receive_text(&mut mt, "Ok\r\n");
    assert_eq!(out.printed, Some("Program reload complete.".to_string()));
    assert!(!rx.reload_from_active);
    assert_eq!(mt.print_basic(0, 65535), vec!["10 PRINT \"A\"", "20 END"]);
    // blank lines during a reload are ignored
    rx.apply(Command::ReloadFromStart);
    let out = rx.receive_text(&mut mt, "  \r\n");
    assert_eq!(out.printed, None);
}

#[test]
fn error_during_reload_clears_program() {
    let mut rx = ReceiveState::new();
    let mut mt = Msxterm::new();
    rx.apply(Command::ReloadFromStart);
    rx.receive_text(&mut mt, "10 A\r\n");
    let out = rx.receive_text(&mut mt, "Syntax error in 20\r\n");
    assert_eq!(
        out.printed,
        Some("Syntax Error detected. Stopping reload operation and clearing buffer.".to_string())
    );
    assert!(rx.syntax_error_detected);
    assert!(!rx.reload_from_active);
    assert_eq!(mt.print_basic(0, 65535), Vec::<String>::new());
}

#[test]
fn renum_then_ok_starts_reload() {
    let mut rx = ReceiveState::new();
    let mut mt = Msxterm::new();
    mt.parse_basic("10 A");
    rx.apply(Command::RenumStart);
    let out = rx.receive_text(&mut mt, "renum\r\n");
    assert_eq!(out.printed, Some("renum\r\n".to_string()));
    let out = rx.receive_text(&mut mt, "Ok\r\n");
    assert_eq!(out.printed, Some("Ok\r\n".to_string()));
    assert_eq!(
        out.console,
        Some("Program buffer cleared. Reloading renumbered program from MSX0...".to_string())
    );
    assert_eq!(out.send, Some("list\r".to_string()));
    assert!(rx.reload_from_active);
    assert!(!rx.expect_listing_after_ok);
    assert_eq!(mt.print_basic(0, 65535), Vec::<String>::new());
}

#[test]
fn renum_error_keeps_program() {
    let mut rx = ReceiveState::new();
    let mut mt = Msxterm::new();
    mt.parse_basic("10 A");
    rx.apply(Command::RenumStart);
    let out = rx.receive_text(&mut mt, "Undefined line number\r\n");
    assert_eq!(
        out.printed,
        Some("Syntax Error detected. Stopping renum operation. Buffer preserved.".to_string())
    );
    assert!(!rx.renum_sequence_active);
    assert!(rx.syntax_error_detected);
    assert_eq!(mt.print_basic(0, 65535), vec!["10 A"]);
}

#[test]
fn commands_set_modes() {
    let mut rx = ReceiveState::new();
    rx.apply(Command::KanjiModeOn);
    assert!(rx.kanji_mode);
    rx.apply(Command::KanjiModeOff);
    assert!(!rx.kanji_mode);
    rx.apply(Command::ReloadFromStart);
    assert!(rx.reload_from_active);
    rx.apply(Command::ReloadFromStop);
    assert!(!rx.reload_from_active);
    rx.apply(Command::RenumStart);
    assert!(rx.renum_sequence_active && rx.expect_listing_after_ok);
    rx.apply(Command::ConditionalCommandStart);
    assert!(!rx.syntax_error_detected);
}

#[test]
fn saved_program_loads_back() {
    let mut mt = Msxterm::new();
    for l in ["10 PRINT \"A\"", "30 GOTO 10", "20 REM  x"] {
        mt.parse_basic(l);
    }
    let saved = mt.save_text();
    let file_lines: Vec<String> = saved.lines().map(|l| l.to_string()).collect();
    let mut other = Msxterm::new();
    other.load_program(&file_lines);
    assert_eq!(other.print_basic(0, 65535), mt.print_basic(0, 65535));
}

#[test]
fn reentering_a_listed_line_keeps_the_program() {
    let mut mt = Msxterm::new();
    mt.parse_basic("10 A = 1");
    mt.parse_basic("20 B = 2");
    let before = mt.print_basic(0, 65535);
    for line in before.clone() {
        mt.parse_basic(&line);
    }
    assert_eq!(mt.print_basic(0, 65535), before);
}
