use tinyweb::base64::encode;
use tinyweb::date::Date;
use tinyweb::enc::percent_decode;
use tinyweb::sha1::{sha1, sha1_hex};

#[test]
fn test_encode() {
    assert_eq!(encode(b""), "");
    assert_eq!(encode(b"f"), "Zg==");
    assert_eq!(encode(b"fo"), "Zm8=");
    assert_eq!(encode(b"foo"), "Zm9v");
    assert_eq!(encode(b"foob"), "Zm9vYg==");
    assert_eq!(encode(b"fooba"), "Zm9vYmE=");
    assert_eq!(encode(b"foobar"), "Zm9vYmFy");
    assert_eq!(encode(b"hello"), "aGVsbG8=");
    assert_eq!(encode(&[0xff, 0xee, 0xdd, 0xcc]), "/+7dzA==");
    assert_eq!(encode(b"\x00\x01\x02"), "AAEC");
}

#[test]
fn test_http_date() {
    assert_eq!(Date::new(0).http(), "Thu, 01 Jan 1970 00:00:00 GMT");
    assert_eq!(Date::new(86399).http(), "Thu, 01 Jan 1970 23:59:59 GMT");
    assert_eq!(Date::new(86400).http(), "Fri, 02 Jan 1970 00:00:00 GMT");
    assert_eq!(Date::new(951782400).http(), "Tue, 29 Feb 2000 00:00:00 GMT");
    assert_eq!(
        Date::new(1735732800).http(),
        "Wed, 01 Jan 2025 12:00:00 GMT"
    );
}

#[test]
fn clf_timestamps() {
    assert_eq!(Date::new(0).clf(), "[01/Jan/1970:00:00:00 +0000]");
    assert_eq!(Date::new(951782400 + 3661).clf(), "[29/Feb/2000:01:01:01 +0000]");
}

#[test]
fn date_next_day_across_year_end() {
    // 1999-12-31 23:59:59 and one second later.
    assert_eq!(Date::new(946684799).http(), "Fri, 31 Dec 1999 23:59:59 GMT");
    assert_eq!(Date::new(946684800).http(), "Sat, 01 Jan 2000 00:00:00 GMT");
}

#[test]
fn date_now_is_well_formed() {
    let s = Date::now().http();
    assert_eq!(s.len(), 29);
    assert!(s.ends_with(" GMT"));
}

#[test]
fn test_percent_decode() {
    assert_eq!(
        percent_decode(b"hello%20world%21"),
        Some("hello world!".to_string())
    );
    assert_eq!(percent_decode(b"foo%2"), None);
    assert_eq!(percent_decode(b"foo%XXbar"), None);
    assert_eq!(percent_decode(b"%C3%A9"), Some("é".into()));
    assert_eq!(percent_decode(b"foo%2Fbar"), Some("foo/bar".into()));
    assert_eq!(percent_decode(b"foo%2fbar"), Some("foo/bar".into()));
}

#[test]
fn percent_decode_rejects_invalid_utf8() {
    assert_eq!(percent_decode(b"%FF"), None);
    assert_eq!(percent_decode(b"plain"), Some("plain".to_string()));
    // Like `u8::from_str_radix`, a leading `+` is accepted in the two digits.
    assert_eq!(percent_decode(b"%+1"), Some("\u{1}".to_string()));
}

#[test]
fn test_rfc_3174() {
    assert_eq!(
        sha1_hex(b"abcdbcdecdefdefgefghfghighijhijkijkljklmklmnlmnomnopnopq"),
        "84983e441c3bd26ebaae4aa1f95129e5e54670f1"
    );

    {
        let mut input = String::new();
        for _ in 0..1_000_000 {
            input.push('a');
        }
        assert_eq!(
            sha1_hex(input.as_bytes()),
            "34aa973cd4c4daa4f61eeb2bdbad27316534016f"
        );
    }

    {
        let mut input = String::new();
        for _ in 0..80 {
            input.push_str("01234567");
        }

        assert_eq!(
            sha1_hex(input.as_bytes()),
            "dea356a2cddd90c7a7ecedc5ebb563934f460452"
        );
    }
}

#[test]
fn test_wikipedia() {
    assert_eq!(
        sha1_hex(b"The quick brown fox jumps over the lazy dog"),
        "2fd4e1c67a2d28fced849ee1bb76e7391b93eb12"
    );
    assert_eq!(
        sha1_hex(b"The quick brown fox jumps over the lazy cog"),
        "de9f2c7fd25e1b3afad3e85a0bd17d9b100db4b3"
    );
    assert_eq!(sha1_hex(b""), "da39a3ee5e6b4b0d3255bfef95601890afd80709");
}

#[test]
fn sha1_block_boundaries() {
    // 55, 56 and 64 bytes exercise the one- and two-block padding cases.
    assert_eq!(sha1_hex(&[b'a'; 55]), "c1c8bbdc22796e28c0e15163d20899b65621d65a");
    assert_eq!(sha1_hex(&[b'a'; 56]), "c2db330f6083854c99d4b5bfb6e8f29f201be699");
    assert_eq!(sha1_hex(&[b'a'; 64]), "0098ba824b5c16427bd7a1122a5a442a25ec644d");
    assert_eq!(sha1(b"abc")[0], 0xa9);
}

#[test]
fn base64_padding_and_splitting() {
    assert_eq!(encode(b"abcd").matches('=').count(), 2);
    assert_eq!(encode(b"abcde").matches('=').count(), 1);
    assert_eq!(encode(b"abcdef").matches('=').count(), 0);
    assert_eq!(encode(b"abcdefgh"), format!("{}{}", encode(b"abc"), encode(b"defgh")));
}
