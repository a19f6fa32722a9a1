use ptsession::audio::{accepts_wav, contains, is_audio, is_container};

#[test]
fn contains_finds_a_needle_anywhere() {
    assert!(contains(b"region.wav", b".wav"));
    assert!(contains(b".wav", b".wav"));
    assert!(contains(b"a.wavb", b".wav"));
    assert!(contains(b"...wav", b".wav"));
    assert!(!contains(b"region.wa", b".wav"));
    assert!(!contains(b"", b".wav"));
    assert!(!contains(b".wa.wa", b".wav"));
    assert!(contains(b"abc", b""));
    assert!(contains(b"", b""));
}

#[test]
fn containers_are_told_by_their_names() {
    assert!(is_container(b"drums.grp"));
    assert!(is_container(b"Audio Files"));
    assert!(is_container(b"My Fade Files here"));
    assert!(!is_container(b"audio files"));
    assert!(!is_container(b"song.wav"));
}

#[test]
fn audio_types_in_both_byte_orders() {
    assert!(is_audio(b"WAVE"));
    assert!(is_audio(b"EVAW"));
    assert!(is_audio(b"AIFF"));
    assert!(is_audio(b"FFIA"));
    assert!(!is_audio(b"wave"));
    assert!(!is_audio(b"WAV\0"));
    assert!(!is_audio(b""));
}

#[test]
fn old_versions_go_by_the_type() {
    assert!(accepts_wav(9, b"take", b"WAVE"));
    assert!(accepts_wav(5, b"take", b"FFIA"));
    assert!(!accepts_wav(9, b"take.wav", b"\0\0\0\0"));
    assert!(!accepts_wav(9, b"take.wav", b""));
    assert!(!accepts_wav(9, b"take.grp", b"WAVE"));
}

#[test]
fn new_versions_go_by_the_type_where_there_is_one() {
    assert!(accepts_wav(10, b"take", b"EVAW"));
    assert!(accepts_wav(12, b"take", b"AIFF"));
    assert!(!accepts_wav(12, b"take.wav", b"\0\0\0\0"));
    assert!(!accepts_wav(12, b"Fade Files", b"WAVE"));
}

#[test]
fn new_versions_go_by_the_name_where_there_is_no_type() {
    assert!(accepts_wav(10, b"take.wav", b""));
    assert!(accepts_wav(12, b"take.aif", b""));
    assert!(accepts_wav(12, b"take.aiff", b""));
    assert!(!accepts_wav(12, b"take.mp3", b""));
    assert!(!accepts_wav(12, b"Audio Files.wav", b""));
}
