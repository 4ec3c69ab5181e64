use broken_nest::jalv::{parse_control_line as parse_line, spawn_args, JalvInstance, UiMode};

fn parse_control_line(line: &str) -> Option<(String, f32)> {
    parse_line(line, |t: &str| t.parse::<f32>().ok())
}

#[test]
fn parse_simple() {
    let (sym, val) = parse_control_line("gain = 0.5").unwrap();
    assert_eq!(sym, "gain");
    assert!((val - 0.5).abs() < f32::EPSILON);
}

#[test]
fn parse_leading_whitespace() {
    let (sym, val) = parse_control_line("  gain = 1.0").unwrap();
    assert_eq!(sym, "gain");
    assert!((val - 1.0).abs() < f32::EPSILON);
}

#[test]
fn parse_negative_value() {
    let (sym, val) = parse_control_line("offset = -3.14").unwrap();
    assert_eq!(sym, "offset");
    assert!((val - (-3.14)).abs() < 0.001);
}

#[test]
fn parse_integer_value() {
    let (sym, val) = parse_control_line("rate = 44100").unwrap();
    assert_eq!(sym, "rate");
    assert!((val - 44100.0).abs() < f32::EPSILON);
}

#[test]
fn parse_no_equals_returns_none() {
    assert!(parse_control_line("no equals here").is_none());
}

#[test]
fn parse_empty_symbol_returns_none() {
    assert!(parse_control_line(" = 0.5").is_none());
}

#[test]
fn parse_non_numeric_value_returns_none() {
    assert!(parse_control_line("gain = abc").is_none());
}

#[test]
fn parse_empty_line_returns_none() {
    assert!(parse_control_line("").is_none());
}

#[test]
fn parse_extra_spaces() {
    let (sym, val) = parse_control_line("  volume   =   0.75  ").unwrap();
    assert_eq!(sym, "volume");
    assert!((val - 0.75).abs() < f32::EPSILON);
}

#[test]
fn parse_splits_at_the_first_equals_sign() {
    let parsed = parse_line("a = b = c", |t: &str| Some(t.to_string()));
    assert_eq!(parsed, Some(("a".to_string(), "b = c".to_string())));
}

#[test]
fn parse_trims_unicode_white_space() {
    let parsed = parse_line("\u{a0}gain\u{2003}=\u{3000}1", |t: &str| t.parse::<u32>().ok());
    assert_eq!(parsed, Some(("gain".to_string(), 1)));
}

#[test]
fn arguments_of_the_process() {
    let saved = vec![("gain".to_string(), "0.5".to_string())];
    let configured = vec![("mix".to_string(), "1".to_string())];
    assert_eq!(
        spawn_args("amp", "urn:amp", Some(256), &saved, &configured),
        vec![
            "-n",
            "amp",
            "--print-controls",
            "-b",
            "256",
            "--control=gain=0.5",
            "--control=mix=1",
            "urn:amp",
        ]
    );
    assert_eq!(
        spawn_args("amp", "urn:amp", None, &vec![], &vec![]),
        vec!["-n", "amp", "--print-controls", "urn:amp"]
    );
    assert_eq!(UiMode::Headless.gdk_backend(), "offscreen");
    assert_eq!(UiMode::Gtk.gdk_backend(), "x11");
}

#[test]
fn instance_keeps_what_it_reads_and_is_told() {
    let mut jalv: JalvInstance<u32> = JalvInstance::new("amp", UiMode::Gtk);
    assert_eq!(jalv.jack_client_name(), "amp");
    assert_eq!(jalv.ui_mode(), UiMode::Gtk);
    jalv.read_line("gain = 5", |t: &str| t.parse::<u32>().ok());
    jalv.read_line("junk", |t: &str| t.parse::<u32>().ok());
    assert_eq!(jalv.current_controls().len(), 1);
    assert_eq!(jalv.current_controls().get("gain"), Some(&5));
    assert_eq!(jalv.set_control("gain", 7, "7"), "gain = 7\n");
    assert_eq!(jalv.current_controls().get("gain"), Some(&7));
}
