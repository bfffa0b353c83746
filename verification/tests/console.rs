//! Console byte formatting: the exact escape sequences that reach the
//! host, decimal renderings, and the raw-terminal translation.

use neotron_sdk::Position;
use neotron_sdk::RamHost;
use neotron_sdk::SgrParam;

#[test]
fn origin_is_the_top_left_corner() {
    let p = Position::origin();
    assert_eq!(p, Position { row: 0, col: 0 });
}

#[test]
fn clear_screen_emits_the_erase_sequence() {
    let mut host = RamHost::new();
    let out = neotron_sdk::stdout();
    neotron_sdk::clear_screen(&mut host, &out);
    assert_eq!(host.stdout_data, b"\x1b[2J".to_vec());
}

#[test]
fn cursor_visibility_sequences() {
    let mut host = RamHost::new();
    let out = neotron_sdk::stdout();
    neotron_sdk::cursor_on(&mut host, &out);
    neotron_sdk::cursor_off(&mut host, &out);
    assert_eq!(host.stdout_data, b"\x1b[?25h\x1b[?25l".to_vec());
}

#[test]
fn move_cursor_translates_to_one_based() {
    let mut host = RamHost::new();
    let out = neotron_sdk::stdout();
    neotron_sdk::move_cursor(&mut host, &out, Position { row: 5, col: 3 });
    assert_eq!(host.stdout_data, b"\x1b[6;4H".to_vec());
}

#[test]
fn move_cursor_handles_the_largest_position() {
    let mut host = RamHost::new();
    let out = neotron_sdk::stdout();
    neotron_sdk::move_cursor(&mut host, &out, Position { row: 255, col: 255 });
    assert_eq!(host.stdout_data, b"\x1b[256;256H".to_vec());
}

#[test]
fn one_rendition_parameter_has_no_separator() {
    let mut host = RamHost::new();
    let out = neotron_sdk::stdout();
    neotron_sdk::set_sgr(&mut host, &out, &[SgrParam::Reset]);
    assert_eq!(host.stdout_data, b"\x1b[0m".to_vec());
}

#[test]
fn rendition_parameters_are_joined_with_semicolons() {
    let mut host = RamHost::new();
    let out = neotron_sdk::stdout();
    neotron_sdk::set_sgr(
        &mut host,
        &out,
        &[SgrParam::Bold, SgrParam::FgRed, SgrParam::BgWhite],
    );
    assert_eq!(host.stdout_data, b"\x1b[1;31;47m".to_vec());
}

#[test]
fn empty_rendition_list_still_brackets() {
    let mut host = RamHost::new();
    let out = neotron_sdk::stdout();
    neotron_sdk::set_sgr(&mut host, &out, &[]);
    assert_eq!(host.stdout_data, b"\x1b[m".to_vec());
}

#[test]
fn rendition_codes_match_the_convention() {
    assert_eq!(SgrParam::Reset.code(), 0);
    assert_eq!(SgrParam::Bold.code(), 1);
    assert_eq!(SgrParam::Reverse.code(), 7);
    assert_eq!(SgrParam::NotBold.code(), 22);
    assert_eq!(SgrParam::NotReverse.code(), 27);
    assert_eq!(SgrParam::FgBlack.code(), 30);
    assert_eq!(SgrParam::FgWhite.code(), 37);
    assert_eq!(SgrParam::BgBlack.code(), 40);
    assert_eq!(SgrParam::BgWhite.code(), 47);
}

#[test]
fn decimal_rendering_is_exact() {
    let mut v: Vec<u8> = Vec::new();
    neotron_sdk::push_decimal(&mut v, 0);
    neotron_sdk::push_decimal(&mut v, 7);
    neotron_sdk::push_decimal(&mut v, 10);
    neotron_sdk::push_decimal(&mut v, 256);
    neotron_sdk::push_decimal(&mut v, 65535);
    assert_eq!(v, b"071025665535".to_vec());
}

#[test]
fn line_feeds_gain_carriage_returns() {
    assert_eq!(
        neotron_sdk::add_carriage_returns(b"a\nb\n"),
        b"a\r\nb\r\n".to_vec()
    );
    assert_eq!(neotron_sdk::add_carriage_returns(b""), Vec::<u8>::new());
    assert_eq!(
        neotron_sdk::add_carriage_returns(b"\n\n"),
        b"\r\n\r\n".to_vec()
    );
    assert_eq!(
        neotron_sdk::add_carriage_returns(b"plain"),
        b"plain".to_vec()
    );
}
