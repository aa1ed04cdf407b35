use listening_room::cookie::{decrypt_cookie, encrypt_cookie, gen_user, KEYBYTES};

fn cookie_key() -> Vec<u8> {
    "0".to_string().repeat(KEYBYTES).into_bytes()
}

#[test]
fn test_decrypting_encrypted_data_should_return_same_data() {
    let key = cookie_key();
    let input_data = "this:is:an:user:id".to_string();

    let encrypted = encrypt_cookie(&input_data, &key);
    let decrypted = decrypt_cookie(&encrypted, &key).unwrap();

    assert_ne!(encrypted, input_data);
    assert_eq!(decrypted, input_data);
}

#[test]
fn generated_user_cookie_opens_to_user() {
    let key = cookie_key();
    let cookie = gen_user("spotify:user:abc".to_string(), &key);
    assert_eq!(cookie.matches(':').count(), 1);
    assert_eq!(decrypt_cookie(&cookie, &key), Some("spotify:user:abc".to_string()));
}

#[test]
fn tampered_or_malformed_cookie_is_refused() {
    let key = cookie_key();
    let cookie = encrypt_cookie(&"u1".to_string(), &key);
    let other_key = "1".repeat(KEYBYTES).into_bytes();
    assert_eq!(decrypt_cookie(&cookie, &other_key), None);
    assert_eq!(decrypt_cookie("no-colon-here", &key), None);
    assert_eq!(decrypt_cookie("!!:??", &key), None);
    assert_eq!(decrypt_cookie("AAAA:AAAA", &key), None);
}
