use pi_kiosk::audio::{
    detect_audio_device, find_alsa_device, get_volume_pct, is_muted, lists_capture_card,
    AudioMonitor, AudioProbe,
};

fn probe(aplay: Option<&str>, cards: Option<&str>, pcm: Option<&str>, speaker: Option<&str>) -> AudioProbe {
    AudioProbe {
        aplay_list: aplay.map(|s| s.to_string()),
        asound_cards: cards.map(|s| s.to_string()),
        amixer_pcm: pcm.map(|s| s.to_string()),
        amixer_speaker: speaker.map(|s| s.to_string()),
    }
}

const PCM: &str = "Simple mixer control 'PCM',0\n  Capabilities: pvolume\n  Mono: Playback -2000 [70%] [-20.00dB] [on]\n";

#[test]
fn device_names() {
    let usb = "**** List of PLAYBACK Hardware Devices ****\ncard 0: Device [USB Audio Device], device 0: USB Audio [USB Audio]\n";
    assert_eq!(find_alsa_device(&probe(Some(usb), None, None, None)).as_deref(), Some("USB Audio Device"));
    let hdmi = "**** List ****\ncard 0: vc4hdmi [vc4-hdmi], device 0: MAI PCM i2s-hifi-0\n";
    assert_eq!(find_alsa_device(&probe(Some(hdmi), None, None, None)).as_deref(), Some("card 0: vc4hdmi [vc4-hdmi], device 0: MAI PCM i2s-hifi-0"));
    let cards = " 0 [Headphones     ]: bcm2835_headpho - bcm2835 Headphones\n 1 [wm8960soundcard]: wm8960 - wm8960-soundcard\n";
    assert_eq!(find_alsa_device(&probe(Some("no cards\n"), Some(cards), None, None)).as_deref(), Some("1 [wm8960soundcard]: wm8960 - wm8960-soundcard"));
    assert_eq!(find_alsa_device(&probe(Some(""), Some(" 0 [Headphones ]: bcm2835\n"), None, None)).as_deref(), Some("bcm2835 Headphones"));
    assert_eq!(find_alsa_device(&probe(Some(""), Some(""), None, None)), None);
    assert_eq!(find_alsa_device(&probe(None, Some(cards), None, None)), None);
}

#[test]
fn volume() {
    assert_eq!(get_volume_pct(&probe(None, None, Some(PCM), None)), Some(70));
    assert_eq!(get_volume_pct(&probe(None, None, None, Some(PCM))), None);
    let speaker = "  Front Left: Playback 40 [55%] [on]\n";
    assert_eq!(get_volume_pct(&probe(None, None, Some("no volume here\n"), Some(speaker))), Some(55));
    assert_eq!(get_volume_pct(&probe(None, None, Some("50% [x\n"), Some(speaker))), None);
    assert_eq!(get_volume_pct(&probe(None, None, Some("[ 300% ]\n"), Some(speaker))), None);
}

#[test]
fn mute() {
    assert!(is_muted(&probe(None, None, Some("Mono: Playback [0%] [off]\n"), None)));
    assert!(!is_muted(&probe(None, None, Some(PCM), None)));
    assert!(!is_muted(&probe(None, None, None, None)));
}

#[test]
fn audio_status() {
    let usb = "card 0: Device [USB Audio Device]\n";
    let st = detect_audio_device(&probe(Some(usb), None, Some(PCM), None));
    assert!(st.device_available);
    assert_eq!(st.volume_pct, Some(70));
    assert!(!st.muted && !st.mic_sampled);
    let none = detect_audio_device(&probe(None, None, Some("[off] [50%]"), None));
    assert!(!none.device_available && none.volume_pct.is_none() && !none.muted);

    assert!(lists_capture_card("card 1: Device [USB]"));
    let m = AudioMonitor::new();
    let s = m.snapshot(&probe(Some(usb), None, Some(PCM), None), Some("card 1: Device"), true);
    assert!(s.mic_sampled);
    let s = m.snapshot(&probe(Some(usb), None, Some(PCM), None), Some("no capture"), true);
    assert!(!s.mic_sampled);
    let s = m.snapshot(&probe(None, None, None, None), Some("card 1"), true);
    assert!(!s.mic_sampled);
}
