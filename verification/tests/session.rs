use radiocast::lastfm::{merge_redirect, parse_set_cookie, CookieJar, UriParts};
use radiocast::m3u::{generate_m3u8, to_decimal};
use radiocast::playlist::SongMetadata;
use radiocast::song::Mp3;

#[test]
fn set_cookie_lines() {
    let line = b"sessionid=abc123; Path=/; HttpOnly".to_vec();
    let (name, value) = parse_set_cookie(&line).unwrap();
    assert_eq!(name, b"sessionid");
    assert_eq!(value, b"abc123");

    // only the part before the first ';' carries the pair
    let (name, value) = parse_set_cookie(&b"k=v".to_vec()).unwrap();
    assert_eq!((name.as_slice(), value.as_slice()), (b"k".as_slice(), b"v".as_slice()));

    // a line with no '=' before the first ';' carries no cookie
    assert!(parse_set_cookie(&b"garbage; k=v".to_vec()).is_none());
    assert!(parse_set_cookie(&Vec::new()).is_none());
}

#[test]
fn cookie_jar_replaces_known_names() {
    let mut jar = CookieJar::new();
    jar.insert(b"sessionid".to_vec(), b"one".to_vec());
    jar.insert(b"csrftoken".to_vec(), b"t".to_vec());
    assert_eq!(jar.header(), b"sessionid=one; csrftoken=t");
    // a later Set-Cookie for a known name replaces the value in place
    jar.insert(b"sessionid".to_vec(), b"two".to_vec());
    assert_eq!(jar.header(), b"sessionid=two; csrftoken=t");
    assert_eq!(CookieJar::new().header(), b"");
}

#[test]
fn redirect_merging() {
    let base = UriParts {
        scheme: String::from("https"),
        authority: String::from("www.last.fm"),
        path_and_query: String::from("/login"),
    };
    // a relative location keeps scheme and authority
    let r = merge_redirect(&base, None, None, Some(String::from("/home")));
    assert_eq!(r.scheme, "https");
    assert_eq!(r.authority, "www.last.fm");
    assert_eq!(r.path_and_query, "/home");
    // an absolute location replaces them
    let r = merge_redirect(
        &base,
        Some(String::from("http")),
        Some(String::from("other.example")),
        None,
    );
    assert_eq!(r.scheme, "http");
    assert_eq!(r.authority, "other.example");
    assert_eq!(r.path_and_query, "");
}

#[test]
fn decimal_rendering() {
    assert_eq!(to_decimal(0), b"0");
    assert_eq!(to_decimal(7), b"7");
    assert_eq!(to_decimal(1234), b"1234");
    assert_eq!(to_decimal(1000000), b"1000000");
}

#[test]
fn m3u8_generation() {
    let mut data = Vec::new();
    for _ in 0..100 {
        let mut f = vec![0xff, 0xfb, 0x90, 0x00];
        f.extend(std::iter::repeat(0u8).take(413));
        data.extend(f);
    }
    let song = Mp3::load(
        SongMetadata {
            title: String::from("Title"),
            artist: String::from("Artist"),
            youtube_url: None,
        },
        data,
    )
    .unwrap();
    // 100 frames of 1152 / 44100 s are about 2.61 s; rounded up: 3
    let list = vec![song];
    let extras = vec![b"http://radio.example/stream".to_vec()];
    let body = generate_m3u8(&list, &extras);
    let text = String::from_utf8(body).unwrap();
    assert_eq!(
        text,
        "#EXTM3U\r\n#EXTINF:3,Artist - Title\r\nhttp://radio.example/stream\r\n"
    );
}
