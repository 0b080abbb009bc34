use crypto::digest::Digest;
use crypto::mac::Mac;
use tunet::base64::base64;
use tunet::checksum::{checksum_hex, checksum_input};
use tunet::cipher::{tea_decrypt, tea_encrypt};
use tunet::auth::{build_portal_params, build_submission, challenge_url, flux_url, password_field, password_hex, portal_url};
use tunet::envelope::{build_info, payload_json};
use tunet::strutil::{dec_i32, dec_u64, hex_string};

#[test]
fn base64_empty_is_empty() {
    assert_eq!(base64(&Vec::new()), "");
}

#[test]
fn base64_single_byte() {
    assert_eq!(base64(&vec![0x61]), "Z+==");
}

#[test]
fn base64_three_bytes() {
    assert_eq!(base64(&vec![0x61, 0x62, 0x63]), "ZaRk");
}

#[test]
fn base64_zero_group() {
    assert_eq!(base64(&vec![0, 0, 0]), "LLLL");
}

#[test]
fn base64_length_and_padding() {
    for n in 0usize..10 {
        let data: Vec<u8> = (0..n as u8).collect();
        let out = base64(&data);
        assert_eq!(out.len(), 4 * ((n + 2) / 3));
        let pads = out.chars().filter(|c| *c == '=').count();
        let expect = match n % 3 {
            0 => 0,
            1 => 2,
            _ => 1,
        };
        assert_eq!(pads, expect);
        assert!(out.chars().take(out.len() - pads).all(|c| c != '='));
    }
}

#[test]
fn base64_deterministic() {
    let data = vec![1u8, 2, 3, 4, 5];
    assert_eq!(base64(&data), base64(&data));
}

#[test]
fn decimal_rendering() {
    assert_eq!(dec_u64(0), "0");
    assert_eq!(dec_u64(12345), "12345");
    assert_eq!(dec_u64(u64::MAX), "18446744073709551615");
    assert_eq!(dec_i32(-5), "-5");
    assert_eq!(dec_i32(i32::MIN), "-2147483648");
    assert_eq!(dec_i32(37), "37");
}

#[test]
fn hex_rendering() {
    assert_eq!(hex_string(&vec![0x00, 0xff, 0x1a]), "00ff1a");
    assert_eq!(hex_string(&Vec::new()), "");
}

#[test]
fn checksum_input_login_field_order() {
    let s = checksum_input("c", "u", Some("p"), "i", 37);
    assert_eq!(s, "cucpcicc200c1c37");
}

#[test]
fn checksum_input_logout_field_order() {
    let s = checksum_input("c", "u", None, "i", 1);
    assert_eq!(s, "cucicc200c1c1");
}

#[test]
fn checksum_changes_with_ac_id() {
    let a = checksum_hex("tok", "user", Some("ph"), "info", 1);
    let b = checksum_hex("tok", "user", Some("ph"), "info", 25);
    assert_ne!(a, b);
    assert_eq!(a, checksum_hex("tok", "user", Some("ph"), "info", 1));
}

#[test]
fn checksum_matches_direct_sha1() {
    let input = checksum_input("tok", "user", Some("ph"), "info", 37);
    let mut sha1 = crypto::sha1::Sha1::new();
    sha1.input_str(&input);
    assert_eq!(checksum_hex("tok", "user", Some("ph"), "info", 37), sha1.result_str());
}

#[test]
fn password_field_matches_direct_hmac() {
    let password = "s3cret";
    let mut hmac = crypto::hmac::Hmac::new(crypto::md5::Md5::new(), &[]);
    hmac.input(password.as_bytes());
    let code = hmac.result();
    let expected: String = code.code().iter().map(|b| format!("{:02x}", b)).collect();
    assert_eq!(password_hex(password), expected);
    assert_eq!(password_field(password), format!("{{MD5}}{}", expected));
    assert_ne!(password_hex(password), password_hex("other"));
}

#[test]
fn cipher_round_trip() {
    let data: Vec<u8> = b"{\"acid\":1,\"username\":\"u\"}".to_vec();
    let key: Vec<u8> = b"abcd1234".to_vec();
    let enc = tea_encrypt(&data, &key);
    assert_ne!(enc, data);
    assert_eq!(enc.len() % 4, 0);
    assert_eq!(tea_decrypt(&enc, &key), Some(data));
}

#[test]
fn cipher_round_trip_empty_key() {
    let data: Vec<u8> = vec![9, 8, 7];
    let key: Vec<u8> = Vec::new();
    let enc = tea_encrypt(&data, &key);
    assert_eq!(tea_decrypt(&enc, &key), Some(data));
}

#[test]
fn cipher_empty_data() {
    let key: Vec<u8> = b"k".to_vec();
    assert_eq!(tea_encrypt(&Vec::new(), &key), Vec::<u8>::new());
    assert_eq!(tea_decrypt(&Vec::new(), &key), Some(Vec::new()));
}

#[test]
fn cipher_rejects_bad_lengths() {
    let key: Vec<u8> = b"k".to_vec();
    assert_eq!(tea_decrypt(&vec![1, 2, 3], &key), None);
    assert_eq!(tea_decrypt(&vec![1, 2, 3, 4], &key), None);
}

#[test]
fn payload_json_login_form() {
    let doc = payload_json("u", Some("p"), 1);
    assert_eq!(
        doc,
        "{\"acid\":1,\"enc_ver\":\"srun_bx1\",\"ip\":\"\",\"password\":\"p\",\"username\":\"u\"}"
    );
}

#[test]
fn payload_json_logout_form() {
    let doc = payload_json("u", None, -2);
    assert_eq!(doc, "{\"acid\":-2,\"enc_ver\":\"srun_bx1\",\"ip\":\"\",\"username\":\"u\"}");
}

#[test]
fn payload_json_escapes_like_standard_json() {
    let doc = payload_json("a\"b\\c\nd\u{1}", None, 0);
    assert_eq!(
        doc,
        "{\"acid\":0,\"enc_ver\":\"srun_bx1\",\"ip\":\"\",\"username\":\"a\\\"b\\\\c\\nd\\u0001\"}"
    );
    let parsed: serde_json::Value = serde_json::from_str(&doc).unwrap();
    assert_eq!(parsed["username"].as_str().unwrap(), "a\"b\\c\nd\u{1}");
}

#[test]
fn build_info_is_tagged_and_decryptable() {
    let info = build_info("user", Some("pass"), 25, "tok").unwrap();
    assert!(info.starts_with("{SRBX1}"));
    let info2 = build_info("user", Some("pass"), 25, "tok").unwrap();
    assert_eq!(info, info2);
    let other = build_info("user", Some("pass"), 25, "other").unwrap();
    assert_ne!(info, other);
}

#[test]
fn urls_select_the_variant() {
    assert_eq!(
        challenge_url(4, "bob"),
        "https://auth4.tsinghua.edu.cn/cgi-bin/get_challenge?username=bob&double_stack=1&ip&callback=callback"
    );
    assert_eq!(portal_url(6), "https://auth6.tsinghua.edu.cn/cgi-bin/srun_portal");
    assert_eq!(flux_url(4), "https://auth4.tsinghua.edu.cn/rad_user_info.php");
}

#[test]
fn portal_params_wire_order() {
    let params = build_portal_params(
        true,
        37,
        "user",
        Some("{MD5}aa".to_string()),
        "{SRBX1}xx".to_string(),
        "cafe".to_string(),
    );
    let names: Vec<&str> = params.iter().map(|p| p.0.as_str()).collect();
    assert_eq!(
        names,
        vec![
            "action",
            "ac_id",
            "double_stack",
            "n",
            "type",
            "username",
            "password",
            "info",
            "chksum",
            "callback"
        ]
    );
    assert_eq!(params[0].1, "login");
    assert_eq!(params[1].1, "37");
    assert_eq!(params[9].1, "callback");
    let logout = build_portal_params(false, 1, "user", None, "i".to_string(), "c".to_string());
    assert_eq!(logout.len(), 9);
    assert_eq!(logout[0].1, "logout");
}

#[test]
fn submission_assembles_every_field() {
    let params = build_submission("user", "pw", 25, "tok", true).unwrap();
    let names: Vec<&str> = params.iter().map(|p| p.0.as_str()).collect();
    assert_eq!(
        names,
        vec![
            "action",
            "ac_id",
            "double_stack",
            "n",
            "type",
            "username",
            "password",
            "info",
            "chksum",
            "callback"
        ]
    );
    assert_eq!(params[0].1, "login");
    assert_eq!(params[1].1, "25");
    assert_eq!(params[5].1, "user");
    assert_eq!(params[6].1, password_field("pw"));
    assert!(params[7].1.starts_with("{SRBX1}"));
    let info = &params[7].1;
    let input = checksum_input("tok", "user", Some(&password_hex("pw")), info, 25);
    let mut sha1 = crypto::sha1::Sha1::new();
    sha1.input_str(&input);
    assert_eq!(params[8].1, sha1.result_str());
    let logout = build_submission("user", "pw", 25, "tok", false).unwrap();
    assert_eq!(logout.len(), 9);
    assert_eq!(logout[0].1, "logout");
    assert!(logout.iter().all(|p| p.0 != "password"));
}
