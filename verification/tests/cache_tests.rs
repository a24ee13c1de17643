use djcore::cache::{cache_file_name, cache_path_for, parse_track, render_track, CachedTrack};

fn sample_track() -> CachedTrack {
    CachedTrack {
        title: b"My Song".to_vec(),
        artist: b"Someone".to_vec(),
        key: b"8A".to_vec(),
        bpm_milli: 128_000,
        duration_ms: 215_500,
    }
}

#[test]
fn render_is_canonical_json() {
    let r = render_track(&sample_track());
    let text = String::from_utf8(r).unwrap();
    assert_eq!(
        text,
        "{\n  \"title\": \"My Song\",\n  \"artist\": \"Someone\",\n  \"bpm\": 128.000,\n  \"duration\": 215.500,\n  \"key\": \"8A\"\n}"
    );
}

#[test]
fn render_fractional_values() {
    let t = CachedTrack {
        title: b"x".to_vec(),
        artist: b"y".to_vec(),
        key: b"".to_vec(),
        bpm_milli: 97_534,
        duration_ms: 9,
    };
    let text = String::from_utf8(render_track(&t)).unwrap();
    assert!(text.contains("\"bpm\": 97.534"));
    assert!(text.contains("\"duration\": 0.009"));
}

#[test]
fn cache_round_trip() {
    let t = sample_track();
    let r = render_track(&t);
    let back = parse_track(&r).expect("canonical text parses");
    assert_eq!(back.title, t.title);
    assert_eq!(back.artist, t.artist);
    assert_eq!(back.key, t.key);
    assert_eq!(back.bpm_milli, t.bpm_milli);
    assert_eq!(back.duration_ms, t.duration_ms);
}

#[test]
fn cache_round_trip_empty_fields() {
    let t = CachedTrack {
        title: b"".to_vec(),
        artist: b"".to_vec(),
        key: b"".to_vec(),
        bpm_milli: 0,
        duration_ms: 0,
    };
    let r = render_track(&t);
    let back = parse_track(&r).expect("canonical text parses");
    assert_eq!(back.title, t.title);
    assert_eq!(back.bpm_milli, 0);
    assert_eq!(back.duration_ms, 0);
}

#[test]
fn cache_miss_on_truncation() {
    let r = render_track(&sample_track());
    for cut in [0, 1, r.len() / 2, r.len() - 1] {
        let truncated = r[..cut].to_vec();
        assert!(parse_track(&truncated).is_none());
    }
}

#[test]
fn cache_miss_on_corruption() {
    let r = render_track(&sample_track());
    let mut corrupted = r.clone();
    corrupted[0] = b'[';
    assert!(parse_track(&corrupted).is_none());
    let mut extra = r.clone();
    extra.push(b' ');
    assert!(parse_track(&extra).is_none());
    assert!(parse_track(&b"not json at all".to_vec()).is_none());
}

#[test]
fn parse_only_accepts_exact_rendering() {
    // A reordered but otherwise plausible object is treated as a miss.
    let other =
        b"{\n  \"artist\": \"Someone\",\n  \"title\": \"My Song\",\n  \"bpm\": 128.000,\n  \"duration\": 215.500,\n  \"key\": \"8A\"\n}"
            .to_vec();
    assert!(parse_track(&other).is_none());
}

#[test]
fn cache_file_name_matches_path_digest() {
    let path = b"/music/track.mp3".to_vec();
    let name = cache_file_name(&path);
    let expected = format!("{}.json", blake3::hash(b"/music/track.mp3").to_hex());
    assert_eq!(String::from_utf8(name).unwrap(), expected);
}

#[test]
fn cache_file_name_shape_and_determinism() {
    let a = cache_file_name(&b"/a".to_vec());
    let b = cache_file_name(&b"/b".to_vec());
    assert_eq!(a.len(), 69);
    assert_eq!(b.len(), 69);
    assert!(a.ends_with(b".json"));
    assert!(a[..64].iter().all(|c| c.is_ascii_hexdigit() && !c.is_ascii_uppercase()));
    assert_ne!(a, b);
    assert_eq!(a, cache_file_name(&b"/a".to_vec()));
}

#[test]
fn cache_path_joins_root_and_name() {
    let root = b"/home/u/.dj-cache".to_vec();
    let path = b"/music/track.mp3".to_vec();
    let full = cache_path_for(&root, &path);
    let text = String::from_utf8(full).unwrap();
    let name = String::from_utf8(cache_file_name(&path)).unwrap();
    assert_eq!(text, format!("/home/u/.dj-cache/{}", name));
}
