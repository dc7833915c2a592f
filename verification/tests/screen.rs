use kabekami::screen::{
    detect_all, parse_all_monitors, parse_json_monitors, parse_wxh, JsonMode, JsonOutput,
    JsonSize, KScreenJson,
};

fn first(text: &str) -> Option<(u32, u32)> {
    parse_all_monitors(text).into_iter().next().map(|m| (m.width, m.height))
}

#[test]
fn parses_inline_resolution() {
    let text = "Output: 1 DP-1 enabled connected primary geometry 0,0,2560x1440 resolution 2560x1440@60\n\
                Output: 2 HDMI-1 disabled disconnected\n";
    assert_eq!(first(text), Some((2560, 1440)));
}

#[test]
fn skips_disabled_output() {
    let text = "Output: 1 DP-1 disabled disconnected\n\
                Output: 2 HDMI-2 enabled connected geometry 0,0,1920x1080 resolution 1920x1080@60\n";
    assert_eq!(first(text), Some((1920, 1080)));
}

#[test]
fn parses_at_rate_notation() {
    let text = "Output: 1 eDP-1 enabled connected 1366x768@60\n";
    assert_eq!(first(text), Some((1366, 768)));
}

#[test]
fn parses_current_mode_in_modes_section() {
    let text = "Output: 1 eDP-1 enabled connected primary\n\
                \tmodes:\n\
                \t  1: 1920x1080@60 *current\n\
                \t  2: 1280x720@60\n";
    assert_eq!(first(text), Some((1920, 1080)));
}

#[test]
fn returns_none_for_empty() {
    assert_eq!(first(""), None);
}

#[test]
fn returns_none_when_all_disabled() {
    let text = "Output: 1 DP-1 disabled disconnected\n\
                Output: 2 HDMI-1 disabled disconnected\n";
    assert_eq!(first(text), None);
}

#[test]
fn current_mode_overrides_geometry_line() {
    let text = "Output: 1 DP-1 enabled connected geometry 0,0,2560x1440\n\
                \tmodes:\n\
                \t  1: 2560x1440@60\n\
                \t  2: 1920x1080@60 *current\n";
    assert_eq!(first(text), Some((1920, 1080)));
}

#[test]
fn ignores_small_coordinate_values() {
    let text = "Output: 1 DP-1 enabled connected geometry 0,0,3840x2160@30\n";
    assert_eq!(first(text), Some((3840, 2160)));
}

#[test]
fn parse_all_monitors_two_enabled() {
    let text = "Output: 1 DP-1 enabled connected primary geometry 0,0,2560x1440 resolution 2560x1440@60\n\
                Output: 2 HDMI-1 enabled connected geometry 2560,0,1920x1080 resolution 1920x1080@60\n";
    let monitors = parse_all_monitors(text);
    assert_eq!(monitors.len(), 2);
    assert_eq!(monitors[0].name, "DP-1");
    assert_eq!(monitors[0].width, 2560);
    assert_eq!(monitors[0].height, 1440);
    assert_eq!(monitors[1].name, "HDMI-1");
    assert_eq!(monitors[1].width, 1920);
    assert_eq!(monitors[1].height, 1080);
}

#[test]
fn parse_all_monitors_skips_disabled() {
    let text = "Output: 1 DP-1 enabled connected primary geometry 0,0,2560x1440\n\
                Output: 2 HDMI-1 disabled disconnected\n";
    let monitors = parse_all_monitors(text);
    assert_eq!(monitors.len(), 1);
    assert_eq!(monitors[0].name, "DP-1");
}

#[test]
fn parse_all_monitors_current_mode() {
    let text = "Output: 1 eDP-1 enabled connected primary\n\
                \tmodes:\n\
                \t  1: 1920x1080@60 *current\n\
                \t  2: 1280x720@60\n";
    let monitors = parse_all_monitors(text);
    assert_eq!(monitors.len(), 1);
    assert_eq!(monitors[0].width, 1920);
    assert_eq!(monitors[0].height, 1080);
}

#[test]
fn parse_all_monitors_empty() {
    assert!(parse_all_monitors("").is_empty());
}

fn mode(id: &str, width: u32, height: u32) -> JsonMode {
    JsonMode { id: id.to_string(), size: JsonSize { width, height } }
}

fn output(name: &str, enabled: bool, current: &str, modes: Vec<JsonMode>) -> JsonOutput {
    JsonOutput {
        name: name.to_string(),
        enabled,
        current_mode_id: Some(current.to_string()),
        modes,
    }
}

fn json_first(cfg: &KScreenJson) -> Option<(u32, u32)> {
    parse_json_monitors(cfg).into_iter().next().map(|m| (m.width, m.height))
}

#[test]
fn json_parses_current_mode() {
    let cfg = KScreenJson {
        outputs: vec![output(
            "DP-1",
            true,
            "mode-2",
            vec![mode("mode-1", 1920, 1080), mode("mode-2", 2560, 1440)],
        )],
    };
    assert_eq!(json_first(&cfg), Some((2560, 1440)));
}

#[test]
fn json_skips_disabled() {
    let cfg = KScreenJson {
        outputs: vec![
            output("DP-1", false, "x", vec![mode("x", 1920, 1080)]),
            output("HDMI-1", true, "y", vec![mode("y", 3840, 2160)]),
        ],
    };
    assert_eq!(json_first(&cfg), Some((3840, 2160)));
}

#[test]
fn json_skips_when_current_mode_missing() {
    let cfg = KScreenJson {
        outputs: vec![output("DP-1", true, "missing", vec![mode("other", 1920, 1080)])],
    };
    assert_eq!(json_first(&cfg), None);
}

#[test]
fn json_handles_empty_outputs() {
    let cfg = KScreenJson { outputs: vec![] };
    assert!(parse_json_monitors(&cfg).is_empty());
}

#[test]
fn json_parses_multiple_enabled() {
    let cfg = KScreenJson {
        outputs: vec![
            output("DP-1", true, "a", vec![mode("a", 2560, 1440)]),
            output("HDMI-1", true, "b", vec![mode("b", 1920, 1080)]),
        ],
    };
    let monitors = parse_json_monitors(&cfg);
    assert_eq!(monitors.len(), 2);
    assert_eq!(monitors[0].name, "DP-1");
    assert_eq!(monitors[1].name, "HDMI-1");
}

#[test]
fn json_without_current_mode_id_is_skipped() {
    let mut o = output("DP-1", true, "a", vec![mode("a", 2560, 1440)]);
    o.current_mode_id = None;
    assert!(parse_json_monitors(&KScreenJson { outputs: vec![o] }).is_empty());
}

#[test]
fn json_small_mode_is_skipped() {
    let cfg = KScreenJson { outputs: vec![output("DP-1", true, "a", vec![mode("a", 100, 1080)])] };
    assert!(parse_json_monitors(&cfg).is_empty());
}

#[test]
fn wxh_reads_both_sides() {
    assert_eq!(parse_wxh("1920x1080"), Some((1920, 1080)));
    assert_eq!(parse_wxh("+1920x1080"), Some((1920, 1080)));
}

#[test]
fn wxh_rejects_small_and_malformed() {
    assert_eq!(parse_wxh("100x1080"), None);
    assert_eq!(parse_wxh("1920x100"), None);
    assert_eq!(parse_wxh("1920"), None);
    assert_eq!(parse_wxh("1920x"), None);
    assert_eq!(parse_wxh("x1080"), None);
    assert_eq!(parse_wxh("1920x1080x2"), None);
    assert_eq!(parse_wxh("-1920x1080"), None);
    assert_eq!(parse_wxh("99999999999x1080"), None);
    assert_eq!(parse_wxh("4294967295x200"), Some((4294967295, 200)));
    assert_eq!(parse_wxh("4294967296x200"), None);
}

#[test]
fn detect_prefers_json_then_text() {
    let json = KScreenJson { outputs: vec![output("DP-1", true, "a", vec![mode("a", 2560, 1440)])] };
    let text = "Output: 1 HDMI-1 enabled connected 1920x1080@60\n";
    let from_json = detect_all(Some(&json), Some(text));
    assert_eq!(from_json.len(), 1);
    assert_eq!(from_json[0].name, "DP-1");

    let empty = KScreenJson { outputs: vec![] };
    let from_text = detect_all(Some(&empty), Some(text));
    assert_eq!(from_text.len(), 1);
    assert_eq!(from_text[0].name, "HDMI-1");

    assert!(detect_all(None, None).is_empty());
}

#[test]
fn monitor_without_name_word_gets_empty_name() {
    let m = parse_all_monitors("Output: 1\n 1920x1080 enabled\n");
    assert!(m.is_empty());
    let m = parse_all_monitors("Output: enabled 1920x1080\n");
    assert_eq!(m.len(), 1);
    assert_eq!(m[0].name, "1920x1080");
    let m = parse_all_monitors("Output: enabled\n  2560x1440\n");
    assert_eq!(m[0].name, "");
}
