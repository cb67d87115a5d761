use tracey::vite::{extract_vite_port, strip_ansi_escapes};

#[test]
fn test_extract_vite_port() {
    // Plain output
    assert_eq!(
        extract_vite_port("  ➜  Local:   http://localhost:5173/"),
        Some(5173)
    );

    // With ANSI codes (simplified test)
    assert_eq!(
        extract_vite_port("Local: http://localhost:3000/"),
        Some(3000)
    );

    // 127.0.0.1 variant
    assert_eq!(
        extract_vite_port("  ➜  Local:   http://127.0.0.1:5174/"),
        Some(5174)
    );

    // No match
    assert_eq!(extract_vite_port("Some other output"), None);
}

#[test]
fn test_strip_ansi() {
    assert_eq!(strip_ansi_escapes("\x1b[32m➜\x1b[0m  Local"), "➜  Local");
}

#[test]
fn vite_port_is_read_through_terminal_escapes() {
    assert_eq!(
        extract_vite_port("\x1b[32m➜\x1b[0m  Local: \x1b[36mhttp://localhost:\x1b[1m5173\x1b[0m/"),
        Some(5173)
    );
}

#[test]
fn vite_port_must_fit_in_sixteen_bits() {
    assert_eq!(extract_vite_port("http://localhost:65535/"), Some(65535));
    assert_eq!(extract_vite_port("http://localhost:65536/"), None);
    assert_eq!(extract_vite_port("http://localhost:/"), None);
    assert_eq!(extract_vite_port("http://localhost:0"), Some(0));
}

#[test]
fn vite_port_falls_back_to_the_loopback_address() {
    assert_eq!(
        extract_vite_port("http://localhost:x and http://127.0.0.1:4000/"),
        Some(4000)
    );
    assert_eq!(
        extract_vite_port("http://127.0.0.1:4000/ http://localhost:5000/"),
        Some(5000)
    );
}

#[test]
fn strip_ansi_handles_odd_escapes() {
    assert_eq!(strip_ansi_escapes(""), "");
    assert_eq!(strip_ansi_escapes("plain"), "plain");
    assert_eq!(strip_ansi_escapes("a\x1bb"), "ab");
    assert_eq!(strip_ansi_escapes("a\x1b[31"), "a");
    assert_eq!(strip_ansi_escapes("a\x1b[1;31mred\x1b[0m!"), "ared!");
    assert_eq!(strip_ansi_escapes("\x1b"), "");
    assert_eq!(strip_ansi_escapes("\x1b[Kz"), "z");
}
