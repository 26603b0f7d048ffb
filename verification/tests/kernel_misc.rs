//! Tests of the smaller kernel pieces: token parsing, drive decisions,
//! console state, glyph bookkeeping, scheduling and exit codes.

use nothingos::ata::{
    check_transfer, lba28_bytes, lba28_select, lba_end_from_identify, poll_status, ATADrive,
    AtaDriveError, DriveAsync, DrivePoll,
};
use nothingos::executor::{schedule_after_poll, AwaitType, ScheduleAction};
use nothingos::interrupt::InterruptIndex;
use nothingos::print::{Char, Print};
use nothingos::toml::{TomlParser, TomlParserError, TomlToken};
use nothingos::ttf::TtfRenderer;
use nothingos::{test_runner, QemuExitCode, Testable};

#[test]
fn toml_parser_walks_tokens() {
    let tokens = vec![
        TomlToken::Identifier(String::from("server")),
        TomlToken::Dot,
        TomlToken::Identifier(String::from("port")),
        TomlToken::Equal,
        TomlToken::Interger(8080),
        TomlToken::NewLine,
    ];
    let mut parser = TomlParser::new(tokens);
    assert!(parser
        .peek(0)
        .unwrap()
        .matches_token(&TomlToken::Identifier(String::from("server"))));
    parser.consume();
    let keys = parser.parse_keys(String::from("server")).unwrap();
    assert_eq!(keys.len(), 2);
    assert_eq!(keys[0], "server");
    assert_eq!(keys[1], "port");
    assert!(parser.expect_token(TomlToken::Equal).is_ok());
    assert!(parser
        .peek(0)
        .unwrap()
        .matches_token(&TomlToken::Interger(8080)));
}

#[test]
fn toml_expect_token_rejects_mismatch() {
    let tokens = vec![TomlToken::Dot];
    let mut parser = TomlParser::new(tokens);
    match parser.expect_token(TomlToken::Equal) {
        Err(TomlParserError::UnexpectedToken(Some(t))) => {
            assert!(t.matches_token(&TomlToken::Dot));
        }
        other => panic!("wrong result: {other:?}"),
    }
    // the cursor did not move
    assert!(parser.expect_token(TomlToken::Dot).is_ok());
}

#[test]
fn toml_table_name() {
    let tokens = vec![TomlToken::Text(String::from("paths"))];
    let mut parser = TomlParser::new(tokens);
    assert_eq!(parser.parse_table_name().unwrap(), "paths");
}

#[test]
fn ata_drive_port_layout() {
    let d = ATADrive::new(0x1f0, true);
    assert_eq!(d.data_port, 0x1f0);
    assert_eq!(d.error_port, 0x1f1);
    assert_eq!(d.command_port, 0x1f7);
    assert_eq!(d.control_port, 0x1f0 + 0x206);
    assert!(d.master);
    assert_eq!(d.bytes_per_sector, 512);
    let waiter = DriveAsync::new(&d.command_port);
    assert_eq!(*waiter.command_port, 0x1f7);
}

#[test]
fn ata_poll_decisions() {
    assert_eq!(poll_status(0x41), DrivePoll::Failed(0x41));
    assert_eq!(poll_status(0x80), DrivePoll::Pending);
    assert_eq!(poll_status(0x40), DrivePoll::Ready);
    assert_eq!(poll_status(0x00), DrivePoll::Ready);
}

#[test]
fn ata_transfer_checks() {
    assert!(check_transfer(5, 512, 512).is_ok());
    assert_eq!(
        check_transfer(5, 513, 512),
        Err(AtaDriveError::InvalidByteCount(513))
    );
    assert_eq!(
        check_transfer(0x1000_0000, 16, 512),
        Err(AtaDriveError::InvalidByteCount(16))
    );
}

#[test]
fn ata_register_bytes() {
    assert_eq!(lba28_select(true, 0x0A00_0000), 0xE0 | 0x0A);
    assert_eq!(lba28_select(false, 0), 0xF0);
    assert_eq!(lba28_bytes(0x00C0_FFEE), (0xEE, 0xFF, 0xC0));
    assert_eq!(lba_end_from_identify(0x0001, 0x0001), 0x0001_0000);
}

#[test]
fn console_cursor_and_scroll() {
    let mut p = Print::new(0xb8000, &0xb, &0);
    p.print_char(&'h');
    p.print_char(&'i');
    p.print_char(&'\n');
    p.print_str("second line\n");
    // fill far past the screen: the console must keep accepting text
    for _ in 0..30 {
        p.print_str("a very repetitive line of text\n");
    }
    p.set_color(&0xf, &1);
    p.print_char(&'x');
}

#[test]
fn console_char_cells() {
    let c = Char::new('A', 0x0b);
    assert_eq!(c.charactor, b'A');
    assert_eq!(c.color, 0x0b);
    let e = Char::empty();
    assert_eq!(e.charactor, b' ');
    assert_eq!(e.color, 0);
}

#[test]
fn glyph_renderer_cache_and_text() {
    let mut r = TtfRenderer::new(0x00ff_ffff);
    r.put_str("ab");
    r.put_char(&'c');
    // first sight of a character is a miss, the second a hit
    assert!(!r.cache(&'a', 640));
    assert!(r.cache(&'a', 999));
    assert!(!r.cache(&'b', 700));
    r.set_color(&0x00ff_0000);
}

#[test]
fn scheduler_routes_polled_tasks() {
    assert_eq!(
        schedule_after_poll(&AwaitType::AlwaysPoll, true),
        ScheduleAction::Drop
    );
    assert_eq!(
        schedule_after_poll(&AwaitType::AlwaysPoll, false),
        ScheduleAction::Requeue
    );
    assert_eq!(
        schedule_after_poll(&AwaitType::WakePoll, false),
        ScheduleAction::Park
    );
}

#[test]
fn interrupt_vectors() {
    assert_eq!(InterruptIndex::Timer.as_u8(), 32);
    assert_eq!(InterruptIndex::Keyboard.as_u8(), 33);
    assert_eq!(InterruptIndex::PrimaryATA.as_u8(), 46);
    assert_eq!(InterruptIndex::SecondaryATA.as_usize(), 47);
}

struct CountingTest<'a> {
    hits: &'a std::cell::Cell<u32>,
}

impl<'a> Testable for CountingTest<'a> {
    fn run(&self) {
        self.hits.set(self.hits.get() + 1);
    }
}

#[test]
fn test_runner_runs_everything() {
    let hits = std::cell::Cell::new(0);
    let tests = [
        CountingTest { hits: &hits },
        CountingTest { hits: &hits },
        CountingTest { hits: &hits },
    ];
    test_runner(&tests);
    assert_eq!(hits.get(), 3);
}

#[test]
fn qemu_exit_codes() {
    assert_eq!(QemuExitCode::Success.code(), 0x10);
    assert_eq!(QemuExitCode::Failed.code(), 0x11);
}

#[test]
fn console_line_wrap() {
    let mut p = Print::new(0xb8000, &0x7, &0);
    // eighty characters fill the first row; the next one starts row two
    for _ in 0..80 {
        p.print_char(&'x');
    }
    p.print_char(&'y');
    p.print_char(&'\n');
    p.print_str("z");
}
