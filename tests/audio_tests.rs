use cosmic_notifications::audio::{get_sound_theme_dirs, AudioError};

#[test]
fn test_get_sound_theme_dirs() {
    let dirs = get_sound_theme_dirs(None, None);
    assert!(!dirs.is_empty());
}

#[test]
fn test_audio_error_display() {
    let err = AudioError::NoAudioDevice;
    assert!(!err.to_string().is_empty());
}
