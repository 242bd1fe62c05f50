use fos_microkernel::framebuffer::Color;
use fos_microkernel::graphics::GraphicsManager;
use fos_microkernel::mailbox::MailboxError;
use fos_microkernel::negotiate::{DisplayProfile, PixelOrder};
use fos_microkernel::print_number;
use fos_microkernel::wasm_runner::{get_params, parse_i32, parse_u32, WasmRunner};

fn manager() -> GraphicsManager {
    let profile = DisplayProfile {
        width: 64,
        height: 96,
        depth: 32,
        alignment: 16,
        order: PixelOrder::Rgba,
        fallback_address: 0x4000_0000,
        fallback_pitch: 256,
        fallback_bytes_per_pixel: 4,
    };
    GraphicsManager::new(&profile, Err(MailboxError::FirmwareError), &Vec::new())
}

fn pixel_bytes(g: &GraphicsManager, x: u32, y: u32) -> Vec<u8> {
    let fb = &g.framebuffer;
    let off = (y * fb.pitch + x * fb.bytes_per_pixel) as usize;
    fb.pixels[off..off + fb.bytes_per_pixel as usize].to_vec()
}

/// A minimal application image: the magic, a zero byte, the script,
/// and a zero terminator.
fn package(script: &[u8]) -> Vec<u8> {
    let mut data = vec![0x00, 0x61, 0x73, 0x6d, 0x01, 0x00];
    data.extend_from_slice(script);
    data.push(0);
    data.extend_from_slice(&[0xAB; 16]);
    data
}

fn long_script(commands: &str) -> Vec<u8> {
    let mut s = String::from("-- embedded application script\nprint(\"starting up\")\n");
    s.push_str(commands);
    s.push_str("\n-- padding so the script region is clearly delimited\n");
    // Keep the zero terminator well past the hundred-byte window the
    // extractor scans beyond the print call.
    while s.len() <= 180 {
        s.push_str("-- filler\n");
    }
    s.into_bytes()
}

#[test]
fn wasm_magic_is_recognized() {
    let r = WasmRunner::new();
    assert!(r.is_valid_wasm(&[0x00, 0x61, 0x73, 0x6d]));
    assert!(r.is_valid_wasm(&[0x00, 0x61, 0x73, 0x6d, 0x01]));
    assert!(!r.is_valid_wasm(&[0x00, 0x61, 0x73]));
    assert!(!r.is_valid_wasm(&[0x01, 0x61, 0x73, 0x6d]));
    assert!(!r.is_valid_wasm(&[]));
}

#[test]
fn runner_starts_with_zeroed_memory() {
    let r = WasmRunner::new();
    assert_eq!(r.memory.len(), 32 * 1024);
    assert!(r.memory.iter().all(|b| *b == 0));
}

#[test]
fn embedded_script_is_extracted_between_zero_bytes() {
    let r = WasmRunner::new();
    let script = long_script("draw_text(\"hi\")");
    let data = package(&script);
    let extracted = r.extract_lua_from_wasm(&data).expect("script not found");
    assert_eq!(extracted, script);
}

#[test]
fn image_without_script_yields_nothing() {
    let r = WasmRunner::new();
    assert_eq!(r.extract_lua_from_wasm(&[0x00, 0x61, 0x73, 0x6d, 0, 0, 0, 0]), None);
    // A print call too short to qualify as a script.
    assert_eq!(r.extract_lua_from_wasm(b"\x00asm\x00print(x)\x00\x00\x00\x00\x00\x00\x00"), None);
}

#[test]
fn params_are_split_trimmed_and_unquoted() {
    let ps = get_params(b"draw_text(\"Hola\", 10, 20)", b"draw_text").unwrap();
    assert_eq!(ps, vec![b"Hola".to_vec(), b"10".to_vec(), b"20".to_vec()]);

    let ps = get_params(b"set_color( \" light \" )", b"set_color").unwrap();
    assert_eq!(ps, vec![b" light ".to_vec()]);

    assert_eq!(get_params(b"clear_screen()", b"clear_screen"), Some(Vec::new()));
    assert_eq!(get_params(b"clear_screen()", b"draw_text"), None);
    assert_eq!(get_params(b"clear_screen", b"clear_screen"), None);
    assert_eq!(get_params(b"clear_screen(", b"clear_screen"), None);
    // A lone blank between the parentheses is one empty parameter.
    assert_eq!(get_params(b"f( )", b"f"), Some(vec![Vec::new()]));
    // Empty splits keep their places.
    let ps = get_params(b"f(a,,b)", b"f").unwrap();
    assert_eq!(ps, vec![b"a".to_vec(), Vec::new(), b"b".to_vec()]);
    // Anything after the closing parenthesis disqualifies the line.
    assert_eq!(get_params(b"f(a) junk", b"f"), None);
}

#[test]
fn numbers_parse_exactly_as_std_does() {
    assert_eq!(parse_i32(b"123"), Some(123));
    assert_eq!(parse_i32(b"+7"), Some(7));
    assert_eq!(parse_i32(b"-45"), Some(-45));
    assert_eq!(parse_i32(b"2147483647"), Some(i32::MAX));
    assert_eq!(parse_i32(b"2147483648"), None);
    assert_eq!(parse_i32(b"-2147483648"), Some(i32::MIN));
    assert_eq!(parse_i32(b"-2147483649"), None);
    assert_eq!(parse_i32(b""), None);
    assert_eq!(parse_i32(b"-"), None);
    assert_eq!(parse_i32(b"12x"), None);
    assert_eq!(parse_i32(b" 3"), None);

    assert_eq!(parse_u32(b"0"), Some(0));
    assert_eq!(parse_u32(b"+9"), Some(9));
    assert_eq!(parse_u32(b"4294967295"), Some(u32::MAX));
    assert_eq!(parse_u32(b"4294967296"), None);
    assert_eq!(parse_u32(b"-1"), None);
    assert_eq!(parse_u32(b"99999999999999999999"), None);
}

#[test]
fn commands_drive_the_drawing_interface() {
    let r = WasmRunner::new();
    let mut g = manager();
    r.parse_and_execute_lua_command(b"set_color(\"red\")", &mut g);
    assert_eq!(g.current_color, Color { r: 255, g: 0, b: 0 });
    r.parse_and_execute_lua_command(b"draw_rect(0, 0, 2, 2, true)", &mut g);
    assert_eq!(pixel_bytes(&g, 0, 0), vec![255, 0, 0, 255]);
    assert_eq!(pixel_bytes(&g, 1, 1), vec![255, 0, 0, 255]);
    assert_eq!(pixel_bytes(&g, 2, 2), vec![0, 0, 0, 255]);
    r.parse_and_execute_lua_command(b"clear_screen()", &mut g);
    assert_eq!(pixel_bytes(&g, 0, 0), vec![0, 0, 0, 255]);
    assert_eq!(g.cursor_y, 30);
}

#[test]
fn unusable_commands_change_nothing() {
    let r = WasmRunner::new();
    let mut g = manager();
    let before = g.framebuffer.pixels.clone();
    r.parse_and_execute_lua_command(b"draw_rect(0, 0, two, 2, true)", &mut g);
    r.parse_and_execute_lua_command(b"draw_text_at(\"x\", 1)", &mut g);
    r.parse_and_execute_lua_command(b"unknown_call(1, 2)", &mut g);
    r.parse_and_execute_lua_command(b"", &mut g);
    assert_eq!(g.framebuffer.pixels, before);
    assert_eq!(g.cursor_y, 30);
}

#[test]
fn a_draw_text_at_line_is_caught_by_the_draw_text_form() {
    // The name `draw_text_at` starts with `draw_text`, and the forms
    // are tried in that order: the first parameter lands at the
    // cursor and the cursor advances by one line.
    let r = WasmRunner::new();
    let profile = DisplayProfile {
        width: 64,
        height: 600,
        depth: 32,
        alignment: 16,
        order: PixelOrder::Rgba,
        fallback_address: 0x4000_0000,
        fallback_pitch: 256,
        fallback_bytes_per_pixel: 4,
    };
    let mut g = GraphicsManager::new(&profile, Err(MailboxError::FirmwareError), &Vec::new());
    let y0 = g.cursor_y;
    r.parse_and_execute_lua_command(b"draw_text_at(\"hi\", 1, 2)", &mut g);
    assert_eq!(g.cursor_y, y0 + g.line_height);
}

#[test]
fn a_full_application_runs_against_the_surface() {
    let mut r = WasmRunner::new();
    let mut g = manager();
    let script = long_script("set_color(\"green\")\ndraw_rect(1, 1, 2, 1, true)");
    let data = package(&script);
    assert!(r.run_wasm_app_with_graphics(&data, &mut g));
    assert_eq!(pixel_bytes(&g, 1, 1), vec![0, 255, 0, 255]);
    assert_eq!(pixel_bytes(&g, 2, 1), vec![0, 255, 0, 255]);
    assert_eq!(pixel_bytes(&g, 3, 1), vec![0, 0, 0, 255]);
    assert_eq!(g.current_color, Color { r: 0, g: 255, b: 0 });
}

#[test]
fn an_invalid_image_runs_nothing() {
    let mut r = WasmRunner::new();
    let mut g = manager();
    let before = g.framebuffer.pixels.clone();
    assert!(!r.run_wasm_app_with_graphics(b"not an app at all", &mut g));
    assert!(!r.run_wasm_app_with_graphics(&[0x00, 0x61, 0x73, 0x6d, 0, 0, 0, 0], &mut g));
    assert_eq!(g.framebuffer.pixels, before);
}

#[test]
fn printed_numbers_render_their_decimal_digits() {
    assert_eq!(print_number(0), b"0".to_vec());
    assert_eq!(print_number(7), b"7".to_vec());
    assert_eq!(print_number(85), b"85".to_vec());
    assert_eq!(print_number(12345), b"12345".to_vec());
    assert_eq!(print_number(u64::MAX), b"18446744073709551615".to_vec());
}
