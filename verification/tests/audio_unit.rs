use ldoce5viewer_tui::audio::AudioError;

#[test]
fn audio_error_display() {
    let e = AudioError::NoDevice("test".to_owned());
    assert!(e.to_string().contains("test"));
    let e = AudioError::Decode("bad format".to_owned());
    assert!(e.to_string().contains("bad format"));
}

#[test]
fn audio_error_messages() {
    assert_eq!(AudioError::NoDevice("x".to_owned()).to_string(), "No audio output device available: x");
    assert_eq!(AudioError::Decode("y".to_owned()).to_string(), "Failed to decode audio data: y");
    assert_eq!(AudioError::Playback("z".to_owned()).to_string(), "Playback error: z");
}
