use vstd::prelude::*;

use vstd::utf8::{decode_utf8, encode_utf8, valid_utf8};

verus! {

/// Bytes in a secret-box key.
pub const KEYBYTES: usize = 32;

/// Bytes in a secret-box nonce.
pub const NONCEBYTES: usize = 24;

/// Bytes by which a sealed message is longer than the message.
pub const MACBYTES: usize = 16;

/// The secret box of `m` under `nonce` and `key`, as sodiumoxide seals it.
pub uninterp spec fn sealed(m: Seq<u8>, nonce: Seq<u8>, key: Seq<u8>) -> Seq<u8>;

/// What sodiumoxide opens from `c` under `nonce` and `key`; `None` when
/// the box does not verify.
pub uninterp spec fn opened(c: Seq<u8>, nonce: Seq<u8>, key: Seq<u8>) -> Option<Seq<u8>>;

/// The standard, padded base64 text of `b`.
pub uninterp spec fn base64_text(b: Seq<u8>) -> Seq<char>;

/// The bytes that the base64 text `s` spells; `None` when it is not base64.
pub uninterp spec fn base64_bytes(s: Seq<char>) -> Option<Seq<u8>>;

/// Relies on `sodiumoxide::crypto::secretbox::gen_nonce`: a fresh random nonce.
#[verifier::external_body]
fn fresh_nonce() -> (r: Vec<u8>)
    ensures
        r@.len() == NONCEBYTES,
{
    sodiumoxide::crypto::secretbox::gen_nonce().0.to_vec()
}

/// Relies on `sodiumoxide::crypto::secretbox::seal`: the box is the message
/// length plus `MACBYTES` long.
#[verifier::external_body]
fn seal_bytes(m: &[u8], nonce: &[u8], key: &[u8]) -> (r: Vec<u8>)
    requires
        nonce@.len() == NONCEBYTES,
        key@.len() == KEYBYTES,
    ensures
        r@ == sealed(m@, nonce@, key@),
        r@.len() == m@.len() + MACBYTES,
{
    let n = sodiumoxide::crypto::secretbox::Nonce::from_slice(nonce).unwrap();
    let k = sodiumoxide::crypto::secretbox::Key::from_slice(key).unwrap();
    sodiumoxide::crypto::secretbox::seal(m, &n, &k)
}

/// Relies on `sodiumoxide::crypto::secretbox::open`: the message, or nothing
/// when the box does not verify.
#[verifier::external_body]
fn open_bytes(c: &[u8], nonce: &[u8], key: &[u8]) -> (r: Option<Vec<u8>>)
    requires
        nonce@.len() == NONCEBYTES,
        key@.len() == KEYBYTES,
    ensures
        match r {
            Some(m) => opened(c@, nonce@, key@) == Some(m@),
            None => opened(c@, nonce@, key@) is None,
        },
{
    let n = sodiumoxide::crypto::secretbox::Nonce::from_slice(nonce).unwrap();
    let k = sodiumoxide::crypto::secretbox::Key::from_slice(key).unwrap();
    sodiumoxide::crypto::secretbox::open(c, &n, &k).ok()
}

/// Relies on `base64::encode`: standard alphabet with padding. It panics only
/// when the text's length would overflow, which the bound rules out.
#[verifier::external_body]
fn base64_encode(b: &[u8]) -> (r: String)
    requires
        b@.len() <= usize::MAX / 4,
    ensures
        r@ == base64_text(b@),
{
    base64::encode(b)
}

/// Relies on `base64::decode`: the bytes, or nothing for text that is not
/// standard base64.
#[verifier::external_body]
fn base64_decode(s: &str) -> (r: Option<Vec<u8>>)
    ensures
        match r {
            Some(b) => base64_bytes(s@) == Some(b@),
            None => base64_bytes(s@) is None,
        },
{
    base64::decode(s).ok()
}

/// Relies on `String::from_utf8`: text exactly when the bytes are UTF-8.
#[verifier::external_body]
fn utf8_text(b: Vec<u8>) -> (r: Option<String>)
    ensures
        match r {
            Some(s) => valid_utf8(b@) && s@ == decode_utf8(b@),
            None => !valid_utf8(b@),
        },
{
    String::from_utf8(b).ok()
}

/// The cookie for `data` sealed under `key` with `nonce`: the nonce and the
/// box, each in base64, joined by a colon.
pub open spec fn cookie_spec(data: Seq<u8>, key: Seq<u8>, nonce: Seq<u8>) -> Seq<char> {
    base64_text(nonce) + seq![':'] + base64_text(sealed(data, nonce, key))
}

/// Seals `data` under `key` with the given nonce.
pub fn encrypt_cookie_with(data: &String, key: &[u8], nonce: &[u8]) -> (r: String)
    requires
        key@.len() == KEYBYTES,
        nonce@.len() == NONCEBYTES,
        encode_utf8(data@).len() <= usize::MAX / 4 - MACBYTES,
    ensures
        r@ == cookie_spec(encode_utf8(data@), key@, nonce@),
        sealed(encode_utf8(data@), nonce@, key@).len() == encode_utf8(data@).len() + MACBYTES,
{
    let bytes = data.as_str().as_bytes();
    let sealed_box = seal_bytes(bytes, nonce, key);
    let nonce_out = base64_encode(nonce);
    let box_out = base64_encode(sealed_box.as_slice());
    proof {
        reveal_strlit(":");
    }
    let r = nonce_out.concat(":").concat(box_out.as_str());
    assert(r@ =~= cookie_spec(encode_utf8(data@), key@, nonce@));
    r
}

/// Seals `data` under `key` with a fresh random nonce.
pub fn encrypt_cookie(data: &String, key: &[u8]) -> (r: String)
    requires
        key@.len() == KEYBYTES,
        encode_utf8(data@).len() <= usize::MAX / 4 - MACBYTES,
    ensures
        exists|nonce: Seq<u8>|
            nonce.len() == NONCEBYTES && r@ == cookie_spec(encode_utf8(data@), key@, nonce)
                && sealed(encode_utf8(data@), nonce, key@).len() == encode_utf8(data@).len()
                + MACBYTES,
{
    let nonce = fresh_nonce();
    encrypt_cookie_with(data, key, nonce.as_slice())
}

/// The cookie that identifies `user_id`, sealed under `key`.
pub fn gen_user(user_id: String, key: &[u8]) -> (r: String)
    requires
        key@.len() == KEYBYTES,
        encode_utf8(user_id@).len() <= usize::MAX / 4 - MACBYTES,
    ensures
        exists|nonce: Seq<u8>|
            nonce.len() == NONCEBYTES && r@ == cookie_spec(encode_utf8(user_id@), key@, nonce)
                && sealed(encode_utf8(user_id@), nonce, key@).len() == encode_utf8(user_id@).len()
                + MACBYTES,
{
    encrypt_cookie(&user_id, key)
}

/// The first and second colon-separated parts of `s`, if it has two.
pub open spec fn two_parts(s: Seq<char>) -> Option<(Seq<char>, Seq<char>)> {
    if exists|i: int| 0 <= i < s.len() && s[i] == ':' {
        let i = choose|i: int|
            0 <= i < s.len() && s[i] == ':' && forall|j: int| 0 <= j < i ==> s[j] != ':';
        let rest = s.subrange(i + 1, s.len() as int);
        let second = if exists|k: int| 0 <= k < rest.len() && rest[k] == ':' {
            let k = choose|k: int|
                0 <= k < rest.len() && rest[k] == ':' && forall|j: int| 0 <= j < k ==> rest[j] != ':';
            rest.subrange(0, k)
        } else {
            rest
        };
        Some((s.subrange(0, i), second))
    } else {
        None
    }
}

/// What a cookie holds under `key`, if it is one that `key` sealed.
pub open spec fn decrypt_spec(cookie: Seq<char>, key: Seq<u8>) -> Option<Seq<char>> {
    match two_parts(cookie) {
        None => None,
        Some((n, c)) => match (base64_bytes(n), base64_bytes(c)) {
            (Some(nonce), Some(sealed_box)) => if nonce.len() != NONCEBYTES {
                None
            } else {
                match opened(sealed_box, nonce, key) {
                    Some(m) => if valid_utf8(m) {
                        Some(decode_utf8(m))
                    } else {
                        None
                    },
                    None => None,
                }
            },
            _ => None,
        },
    }
}

/// The position of the first colon in `s` at or after `from`, or `s`'s length.
fn find_colon(s: &str, from: usize, len: usize) -> (r: usize)
    requires
        len == s@.len(),
        from <= len,
    ensures
        from <= r <= len,
        r < len ==> s@[r as int] == ':',
        forall|j: int| from <= j < r ==> s@[j] != ':',
{
    let mut i: usize = from;
    while i < len
        invariant
            from <= i <= len == s@.len(),
            forall|j: int| from <= j < i ==> s@[j] != ':',
        ensures
            from <= i <= len,
            i < len ==> s@[i as int] == ':',
            forall|j: int| from <= j < i ==> s@[j] != ':',
        decreases len - i,
    {
        if s.get_char(i) == ':' {
            break;
        }
        i = i + 1;
    }
    i
}

/// Splits a cookie into its first two colon-separated parts.
fn split_cookie(cookie: &str) -> (r: Option<(String, String)>)
    ensures
        match r {
            Some((a, b)) => two_parts(cookie@) == Some((a@, b@)),
            None => two_parts(cookie@) is None,
        },
{
    let len = cookie.unicode_len();
    let ghost s = cookie@;
    let i = find_colon(cookie, 0, len);
    if i == len {
        return None;
    }
    let k = find_colon(cookie, i + 1, len);
    proof {
        let i0 = choose|i0: int|
            0 <= i0 < s.len() && s[i0] == ':' && forall|j: int| 0 <= j < i0 ==> s[j] != ':';
        assert(i0 == i) by {
            if i0 < i {
                assert(s[i0] != ':');
            }
            if i0 > i {
                assert(s[i as int] != ':');
            }
        }
        let rest = s.subrange(i + 1, s.len() as int);
        if k < len {
            assert(rest[k - i - 1] == ':');
            let k0 = choose|k0: int|
                0 <= k0 < rest.len() && rest[k0] == ':' && forall|j: int| 0 <= j < k0 ==> rest[j] != ':';
            assert(k0 == k - i - 1) by {
                if k0 < k - i - 1 {
                    assert(rest[k0] == s[k0 + i + 1]);
                }
                if k0 > k - i - 1 {
                    assert(rest[k - i - 1] != ':');
                }
            }
            assert(rest.subrange(0, k - i - 1) =~= s.subrange(i + 1, k as int));
        } else {
            assert forall|k0: int| 0 <= k0 < rest.len() implies rest[k0] != ':' by {
                assert(rest[k0] == s[k0 + i + 1]);
            }
        }
    }
    let first = String::from_str(cookie.substring_char(0, i));
    let second = String::from_str(cookie.substring_char(i + 1, k));
    Some((first, second))
}

/// Opens a cookie sealed under `key`: the data it holds, or nothing when it
/// is not a cookie that `key` sealed.
pub fn decrypt_cookie(cookie: &str, key: &[u8]) -> (r: Option<String>)
    requires
        key@.len() == KEYBYTES,
    ensures
        match r {
            Some(s) => decrypt_spec(cookie@, key@) == Some(s@),
            None => decrypt_spec(cookie@, key@) is None,
        },
{
    let (n, c) = match split_cookie(cookie) {
        Some(p) => p,
        None => {
            return None;
        },
    };
    let nonce = match base64_decode(n.as_str()) {
        Some(b) => b,
        None => {
            return None;
        },
    };
    let sealed_box = match base64_decode(c.as_str()) {
        Some(b) => b,
        None => {
            return None;
        },
    };
    if nonce.len() != NONCEBYTES {
        return None;
    }
    let m = match open_bytes(sealed_box.as_slice(), nonce.as_slice(), key) {
        Some(m) => m,
        None => {
            return None;
        },
    };
    utf8_text(m)
}

} // verus!
