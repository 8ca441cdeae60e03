use cosmic_notifications::audio::{
    check_sound_path, find_sound_theme_file, playback_step, PlaybackStep, is_path_allowed, join_path, release_slot,
    sound_roots, sound_theme_candidates, try_acquire_slot, AudioError, MAX_CONCURRENT_SOUNDS,
};
use cosmic_notifications::markup_parser::{
    merge_segments, parse_markup, segments_to_plain_text, StyledSegment, TextStyle,
};
use cosmic_notifications::sanitizer::{
    decode_entities, extract_hrefs, guard_sanitized, has_rich_content, sanitize_html, strip_html,
};

fn bold() -> TextStyle {
    TextStyle { bold: true, italic: false, underline: false }
}

#[test]
fn nested_bold_italic_is_one_segment() {
    let segments = parse_markup("<b><i>X</i></b>");
    assert_eq!(segments.len(), 1);
    assert_eq!(segments[0].text, "X");
    assert!(segments[0].style.bold);
    assert!(segments[0].style.italic);
    assert!(!segments[0].style.underline);
    assert_eq!(segments[0].link, None);
}

#[test]
fn neighbouring_same_style_segments_merge() {
    let segments = parse_markup("<b>a</b><b>b</b>c");
    assert_eq!(segments.len(), 2);
    assert_eq!(segments[0].text, "ab");
    assert_eq!(segments[0].style, bold());
    assert_eq!(segments[1].text, "c");
    assert_eq!(segments[1].style, TextStyle::default());
    for k in 1..segments.len() {
        let a = &segments[k - 1];
        let b = &segments[k];
        assert!(a.style != b.style || a.link != b.link);
    }
}

#[test]
fn mismatched_close_leaves_style_open() {
    let segments = parse_markup("<b>a</i>b</b>c");
    assert_eq!(segments.len(), 2);
    assert_eq!(segments[0].text, "ab");
    assert!(segments[0].style.bold);
    assert_eq!(segments[1].text, "c");
    assert!(!segments[1].style.bold);
}

#[test]
fn strong_closes_with_its_own_name() {
    let segments = parse_markup("<strong>a</strong>b");
    assert_eq!(segments.len(), 2);
    assert!(segments[0].style.bold);
    assert!(!segments[1].style.bold);
}

#[test]
fn break_inside_bold_is_plain_newline() {
    let segments = parse_markup("<b>a<br>b</b>");
    assert_eq!(segments.len(), 3);
    assert_eq!(segments[1].text, "\n");
    assert_eq!(segments[1].style, TextStyle::default());
    assert!(segments[2].style.bold);
}

#[test]
fn anchor_without_href_is_plain() {
    let segments = parse_markup("<a>t</a>");
    assert_eq!(segments.len(), 1);
    assert_eq!(segments[0].link, None);
    assert!(!segments[0].style.underline);
}

#[test]
fn link_url_is_decoded_and_single_quoted() {
    let segments = parse_markup("<a href='https&#58;//x.y/?a=1&amp;b=2'>t</a>");
    assert_eq!(segments.len(), 1);
    assert_eq!(segments[0].link, Some("https://x.y/?a=1&b=2".to_string()));
    assert!(segments[0].style.underline);
}

#[test]
fn tags_only_give_no_segment() {
    assert!(parse_markup("<b></b>").is_empty());
}

#[test]
fn merge_segments_joins_runs() {
    let merged = merge_segments(vec![
        StyledSegment::plain("a"),
        StyledSegment::plain("b"),
        StyledSegment::styled("c", bold()),
        StyledSegment::link("d", "https://e"),
    ]);
    assert_eq!(merged.len(), 3);
    assert_eq!(merged[0].text, "ab");
    assert_eq!(merged[2].link, Some("https://e".to_string()));
    assert_eq!(segments_to_plain_text(&merged), "abcd");
}

#[test]
fn decoding_is_one_pass() {
    assert_eq!(decode_entities("&amp;lt;"), "&lt;");
    assert_eq!(decode_entities("a&nbsp;b&#61;c&#x2F;d&#47;e&#32;f"), "a b=c/d/e f");
    assert_eq!(decode_entities("&#60;"), "&#60;");
    assert_eq!(decode_entities(""), "");
}

#[test]
fn strip_html_of_encoded_script_keeps_no_tag() {
    let out = strip_html("&lt;script&gt;alert(1)&lt;/script&gt;");
    assert!(!out.contains("<script"));
    assert_eq!(out, "alert(1)");
}

#[test]
fn strip_html_repeats_while_tags_are_revealed() {
    assert_eq!(strip_html("&lt;b&gt;&amp;lt;i&amp;gt;x"), "x");
    assert_eq!(strip_html("a &amp;lt; b"), "a &lt; b");
    assert_eq!(strip_html(""), "");
    assert_eq!(strip_html("5 < 10"), "5 < 10");
}

#[test]
fn extract_hrefs_javascript_is_empty() {
    assert!(extract_hrefs("<a href=\"javascript:alert(1)\">x</a>").is_empty());
}

#[test]
fn extract_hrefs_https_pair() {
    let links = extract_hrefs("<a href=\"https://example.com\">x</a>");
    assert_eq!(links, vec![("https://example.com".to_string(), "x".to_string())]);
}

#[test]
fn extract_hrefs_reports_each_url_once() {
    let links = extract_hrefs("<a href=\"https://a.com\">A</a><a href=\"https://a.com\">B</a>");
    assert_eq!(links, vec![("https://a.com".to_string(), "A".to_string())]);
    assert!(extract_hrefs("").is_empty());
}

#[test]
fn has_rich_content_edges() {
    assert!(has_rich_content("< /b>"));
    assert!(has_rich_content("<a href=x>"));
    assert!(!has_rich_content("<B>x</B>"));
    assert!(!has_rich_content("<bold>"));
    assert!(!has_rich_content(""));
}

#[test]
fn sanitize_removes_script_content() {
    assert_eq!(sanitize_html("<script>x</script>ok"), "ok");
    assert_eq!(
        sanitize_html("<a href=\"https://e.com\" onclick=\"x\">l</a>"),
        "<a href=\"https://e.com\" rel=\"noopener noreferrer\">l</a>"
    );
}

#[test]
fn sanitize_twice_is_sanitize_once() {
    for x in [
        "<b>a</b><script>b</script>",
        "<a href=\"javascript:x\" onclick=\"y\">l</a><p>p</p>",
        "<i><u>unclosed",
        "&lt;b&gt; plain &amp; text",
    ] {
        let once = sanitize_html(x);
        assert_eq!(sanitize_html(&once), once);
    }
}

#[test]
fn parse_and_strip_agree_on_text() {
    let x = "<b>Hello</b> <i>world</i> <a href=\"https://e.com\">link</a>";
    let parsed = segments_to_plain_text(&parse_markup(x));
    let stripped = strip_html(&sanitize_html(x));
    assert_eq!(parsed, "Hello world link");
    assert_eq!(parsed, stripped);
}

#[test]
fn admission_caps_concurrent_sounds() {
    let mut active = 0u32;
    let mut admitted = 0;
    for _ in 0..10 {
        if let Some(n) = try_acquire_slot(active) {
            active = n;
            admitted += 1;
        }
        assert!(active <= MAX_CONCURRENT_SOUNDS);
    }
    assert_eq!(admitted, 4);
    assert_eq!(try_acquire_slot(MAX_CONCURRENT_SOUNDS), None);
    assert_eq!(release_slot(active), 3);
    assert_eq!(release_slot(0), 0);
}

#[test]
fn paths_outside_roots_are_refused() {
    let roots = sound_roots(None, Some("/home/u"));
    assert!(matches!(
        check_sound_path("/tmp/malicious_sound.wav", &roots),
        Err(AudioError::PathNotAllowed(p)) if p == "/tmp/malicious_sound.wav"
    ));
    assert!(check_sound_path("/usr/share/sounds/../../etc/passwd", &roots).is_err());
    assert!(check_sound_path("usr/share/sounds/a.wav", &roots).is_err());
    assert!(check_sound_path("/usr/share/soundsX/a.wav", &roots).is_err());
    assert!(check_sound_path("/home/u/.local/share/sounds/a.wav", &roots).is_ok());
    assert!(is_path_allowed("/usr/local/share/sounds/freedesktop/stereo/bell.oga", &roots));
}

#[test]
fn roots_and_joins() {
    let roots = sound_roots(Some("/data/"), Some("/home/u"));
    assert_eq!(
        roots,
        vec![
            "/data/sounds".to_string(),
            "/home/u/.local/share/sounds".to_string(),
            "/usr/share/sounds".to_string(),
            "/usr/local/share/sounds".to_string(),
        ]
    );
    assert_eq!(join_path("", "a"), "a");
    assert_eq!(join_path("/x", "a"), "/x/a");
}

#[test]
fn theme_candidates_in_probe_order() {
    let dirs = vec!["/d".to_string()];
    let c = sound_theme_candidates("bell", &dirs);
    assert_eq!(c.len(), 8);
    assert_eq!(c[0], "/d/bell.oga");
    assert_eq!(c[1], "/d/stereo/bell.oga");
    assert_eq!(c[7], "/d/stereo/bell.mp3");
    let found = find_sound_theme_file("bell", &c, &vec![false, false, true]);
    assert!(matches!(found, Ok(p) if p == "/d/bell.ogg"));
    let missing = find_sound_theme_file("bell", &c, &vec![false; 8]);
    assert!(matches!(missing, Err(AudioError::SoundNotFound(n)) if n == "bell"));
}

#[test]
fn audio_error_messages() {
    assert_eq!(AudioError::NoAudioDevice.to_string(), "No audio output device available");
    assert_eq!(
        AudioError::SoundNotFound("bell".to_string()).to_string(),
        "Sound 'bell' not found in theme"
    );
    assert_eq!(AudioError::IoError("x".to_string()).to_string(), "IO error: x");
}

#[test]
fn guard_passes_safe_markup_unchanged() {
    let ok = "<b>a</b><a href=\"HTTPS://e.com\" rel=\"noopener noreferrer\">l</a><br>x &lt; y";
    assert_eq!(guard_sanitized(ok.to_string(), "ignored"), ok);
    let relative = "<a href=\"page.html\" rel=\"noopener noreferrer\">l</a>";
    assert_eq!(guard_sanitized(relative.to_string(), "ignored"), relative);
}

#[test]
fn guard_replaces_unsafe_markup_with_escaped_text() {
    let html = "<b>a</b> &amp; <i>b</i>";
    assert_eq!(guard_sanitized("<script>x</script>".to_string(), html), "a &amp; b");
    assert_eq!(
        guard_sanitized("<a href=\"javascript:x\" rel=\"noopener noreferrer\">l</a>".to_string(), "1 < 2"),
        "1 &lt; 2"
    );
    assert_eq!(guard_sanitized("<b onclick=\"x\">t</b>".to_string(), "t"), "t");
}

#[test]
fn unicode_tag_names_are_tags() {
    let segments = parse_markup("<é>x");
    assert_eq!(segments.len(), 1);
    assert_eq!(segments[0].text, "x");
    assert_eq!(segments_to_plain_text(&parse_markup("a<日本>b</日本>c")), "abc");
    assert_eq!(segments_to_plain_text(&parse_markup("a<->b")), "a<->b");
}

#[test]
fn relative_links_with_escapes_survive_sanitizing() {
    let out = sanitize_html("<a href=\"?a=1&b=2\">x</a><b>y</b>");
    assert_eq!(out, "<a href=\"?a=1&amp;b=2\" rel=\"noopener noreferrer\">x</a><b>y</b>");
    let path = "<a href=\"/p:q\" rel=\"noopener noreferrer\">x</a>";
    assert_eq!(guard_sanitized(path.to_string(), "ignored"), path);
}

#[test]
fn guard_refuses_anchor_without_rel() {
    assert_eq!(guard_sanitized("<a>x</a>".to_string(), "<b>x</b>"), "x");
    assert_eq!(
        guard_sanitized("<a href=\"java&#58;x\" rel=\"noopener noreferrer\">x</a>".to_string(), "x"),
        "x"
    );
}

#[test]
fn playback_steps_in_order() {
    let roots = sound_roots(None, Some("/home/u"));
    let ok = "/usr/share/sounds/bell.oga";
    assert!(matches!(
        playback_step("/etc/passwd", &roots, Some(true), Some(true)),
        PlaybackStep::Refuse(AudioError::PathNotAllowed(p)) if p == "/etc/passwd"
    ));
    assert!(matches!(playback_step(ok, &roots, None, None), PlaybackStep::ProbeFile));
    assert!(matches!(
        playback_step(ok, &roots, Some(false), None),
        PlaybackStep::Refuse(AudioError::FileNotFound(p)) if p == ok
    ));
    assert!(matches!(playback_step(ok, &roots, Some(true), None), PlaybackStep::TakeSlot));
    assert!(matches!(playback_step(ok, &roots, Some(true), Some(true)), PlaybackStep::Play));
    assert!(matches!(playback_step(ok, &roots, Some(true), Some(false)), PlaybackStep::Discard));
}
