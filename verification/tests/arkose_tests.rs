use chatgpt::arkose::{arkose_fingerprint, arkose_form, arkose_key, u64_decimal, FINGERPRINT};

const BV: &str = "Mozilla/5.0 (Windows NT 10.0; Win64; x64; rv:91.0) Gecko/20100101 Firefox/91.0";

#[test]
fn decimal_writing() {
    assert_eq!(u64_decimal(0), "0");
    assert_eq!(u64_decimal(7), "7");
    assert_eq!(u64_decimal(1234567890), "1234567890");
    assert_eq!(u64_decimal(u64::MAX), u64::MAX.to_string());
}

#[test]
fn key_uses_start_of_six_hour_window() {
    assert_eq!(arkose_key(0), format!("{}0", BV));
    assert_eq!(arkose_key(21599), format!("{}0", BV));
    assert_eq!(arkose_key(21600), format!("{}21600", BV));
    assert_eq!(arkose_key(1697949614), format!("{}1697932800", BV));
}

#[test]
fn same_window_same_key() {
    let t = 1_700_000_000u64;
    let start = t - t % 21600;
    for u in [start, start + 1, start + 21599] {
        assert_eq!(arkose_key(u), arkose_key(t));
    }
    assert_ne!(arkose_key(start + 21600), arkose_key(t));
}

#[test]
fn fingerprint_at_recorded_time_is_the_recording() {
    assert_eq!(arkose_fingerprint(1697949614).unwrap(), FINGERPRINT);
}

#[test]
fn fingerprint_holds_the_time_in_base64() {
    let fp = arkose_fingerprint(1).unwrap();
    assert!(fp.contains("{\"key\":\"n\",\"value\":\"MQ==\"}"));
    assert!(!fp.contains("MTY5Nzk0OTYxNA=="));
    assert_eq!(fp.len(), FINGERPRINT.len() - "MTY5Nzk0OTYxNA==".len() + "MQ==".len());
}

#[test]
fn form_encodes_ciphertext_and_browser() {
    let form = arkose_form(&[0x00, 0xff], "0.5");
    assert_eq!(
        form,
        "bda=AP8%3D&public_key=35536E1E-65B4-4D96-9D97-6ADB7EFF8147&site=https%3A%2F%2Fchat.openai.com&userbrowser=Mozilla%2F5%2E0%20%28Windows%20NT%2010%2E0%3B%20Win64%3B%20x64%3B%20rv%3A91%2E0%29%20Gecko%2F20100101%20Firefox%2F91%2E0&capi_version=1.5.5&capi_mode=lightbox&style_theme=default&rnd=0.5"
    );
}

#[test]
fn form_base64_pads_one_and_two_byte_tails() {
    let tail = "&public_key=";
    let bda = |bytes: &[u8]| {
        let f = arkose_form(bytes, "r");
        f["bda=".len()..f.find(tail).unwrap()].to_string()
    };
    assert_eq!(bda(b""), "");
    assert_eq!(bda(b"f"), "Zg%3D%3D");
    assert_eq!(bda(b"fo"), "Zm8%3D");
    assert_eq!(bda(b"foo"), "Zm9v");
    assert_eq!(bda(&[0xfb, 0xff]), "%2B%2F8%3D");
}
